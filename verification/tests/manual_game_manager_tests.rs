use control_center::manual_games::{generate_id, manual_games_from_json, normalize_category, validate_exe_path};

// ===== [セキュリティ] validate_exe_path のテスト =====

#[test]
fn test_valid_exe_path_accepted() {
    let valid = [
        "C:\\Games\\game.exe",
        "C:\\Users\\user\\Desktop\\shortcut.lnk",
        "D:\\tools\\run.bat",
        "C:\\a\\b.cmd",
        "C:\\links\\game.url",
    ];
    for p in &valid {
        assert!(
            validate_exe_path(p).is_ok(),
            "正規のパス '{}' は検証を通過すべき",
            p
        );
    }
}

#[test]
fn test_empty_exe_path_rejected() {
    assert!(validate_exe_path("").is_err(), "空のパスはエラーを返すべき");
    assert!(validate_exe_path("   ").is_err(), "空白のみのパスはエラーを返すべき");
}

#[test]
fn test_exe_path_with_traversal_rejected() {
    let malicious = "C:\\Games\\..\\..\\Windows\\System32\\cmd.exe";
    assert!(
        validate_exe_path(malicious).is_err(),
        "'..' を含むパスはパストラバーサル防止のためエラーを返すべき"
    );
}

#[test]
fn test_exe_path_with_null_byte_rejected() {
    let malicious = "C:\\safe\\game.exe\0C:\\evil\\malware.exe";
    assert!(
        validate_exe_path(malicious).is_err(),
        "NULバイトを含むパスはエラーを返すべき"
    );
}

#[test]
fn test_exe_path_disallowed_extension_rejected() {
    // 任意ファイル実行・スクリプト混入防止のため許可外拡張子は拒否
    let cases = [
        "C:\\malware\\evil.dll",
        "C:\\docs\\readme.txt",
        "C:\\scripts\\evil.ps1",
        "C:\\scripts\\evil.vbs",
        "C:\\noext\\game",
    ];
    for p in &cases {
        assert!(
            validate_exe_path(p).is_err(),
            "許可外拡張子 '{}' はエラーを返すべき",
            p
        );
    }
}

#[test]
fn test_exe_path_extension_case_insensitive() {
    assert!(validate_exe_path("C:\\Games\\GAME.EXE").is_ok());
    assert!(validate_exe_path("C:\\Games\\Game.Lnk").is_ok());
}

// ===== parse_manual_games_content のテスト =====

/// The text of the error serde_json reports for a malformed or blank text.
fn decode_error(content: &str) -> String {
    serde_json::from_str::<serde_json::Value>(content)
        .unwrap_err()
        .to_string()
}

#[test]
fn test_parse_empty_content_returns_empty() {
    assert!(manual_games_from_json("", Err(decode_error(""))).unwrap().is_empty());
    assert!(manual_games_from_json("   ", Err(decode_error("   "))).unwrap().is_empty());
}

#[test]
fn test_normalize_category() {
    assert_eq!(normalize_category("app"), "app");
    assert_eq!(normalize_category("game"), "game");
    // 未知の値・空文字は game に丸める
    assert_eq!(normalize_category(""), "game");
    assert_eq!(normalize_category("APP"), "game");
    assert_eq!(normalize_category("foo"), "game");
}

#[test]
fn manual_game_manager_test_parse_invalid_json_returns_error() {
    let content = "{ not valid json !!";
    let result = manual_games_from_json(content, Err(decode_error(content)));
    assert!(result.is_err(), "壊れたJSONはエラーを返すべき");
    assert!(result.unwrap_err().contains("JSONパースに失敗"));
}

// ===== generate_id のテスト =====

#[test]
fn test_generate_id_has_prefix() {
    let id = generate_id();
    assert!(id.starts_with("manual_"), "生成IDは manual_ 接頭辞を持つべき: {}", id);
}
