use control_center::steam::{extract_value, parse_acf_content, validate_appid, validate_icon_path};

// ===== [セキュリティ] validate_appid のテスト =====
// 要件: 不正改造 - Steam URI スキームへの不正な文字混入防止

#[test]
fn test_valid_appid_accepted() {
    // 正規の数字のみ AppID は通過すること
    for id in &["440", "730", "1234567890"] {
        assert!(
            validate_appid(id).is_ok(),
            "正規のAppID '{}' は検証を通過すべき",
            id
        );
    }
}

#[test]
fn test_empty_appid_rejected() {
    assert!(validate_appid("").is_err(), "空のAppIDはエラーを返すべき");
}

#[test]
fn test_appid_with_path_traversal_rejected() {
    // 攻撃例: ../../etc/passwd のようなパス混入
    let malicious = "440/../../../etc/passwd";
    let result = validate_appid(malicious);
    assert!(
        result.is_err(),
        "スラッシュ入りAppIDはURIインジェクション防止のためエラーを返すべき: '{}'",
        malicious
    );
}

#[test]
fn test_appid_with_uri_injection_rejected() {
    // 攻撃例: steam://run/ を抜けて別URIを注入
    let malicious = "440/open/main";
    let result = validate_appid(malicious);
    assert!(
        result.is_err(),
        "スラッシュを含むAppIDはURIインジェクション防止のためエラーを返すべき"
    );
}

#[test]
fn test_appid_with_protocol_injection_rejected() {
    // 攻撃例: URL に別のプロトコル（javascript: 等）を混入
    let malicious = "440%0ajavascript:alert(1)";
    let result = validate_appid(malicious);
    assert!(result.is_err(), "パーセントエンコードを含むAppIDはエラーを返すべき");
}

#[test]
fn test_appid_with_spaces_rejected() {
    let result = validate_appid("440 && calc.exe");
    assert!(result.is_err(), "スペースを含むAppIDはエラーを返すべき");
}

#[test]
fn test_appid_negative_number_rejected() {
    // マイナス符号は数字ではない
    let result = validate_appid("-440");
    assert!(result.is_err(), "負の数のAppIDはエラーを返すべき");
}

// ===== [セキュリティ] validate_icon_path のテスト =====
// 要件: 不正改造 - ショートカットファイル経由のパストラバーサル防止

#[test]
fn test_valid_icon_path_accepted() {
    // 正規のアイコンパスは通過すること
    let valid = "C:\\Program Files (x86)\\Steam\\steamapps\\common\\game\\icon.ico";
    assert!(
        validate_icon_path(valid).is_ok(),
        "正規のアイコンパス '{}' は検証を通過すべき",
        valid
    );
}

#[test]
fn test_icon_path_with_traversal_rejected() {
    // 攻撃例: 悪意のある .url ファイルに IconFile=..\..\Windows\System32\cmd.exe を記載
    let malicious = "C:\\Steam\\..\\..\\Windows\\System32\\cmd.exe";
    let result = validate_icon_path(malicious);
    assert!(
        result.is_err(),
        "'..' を含むアイコンパスはパストラバーサル防止のためエラーを返すべき: '{}'",
        malicious
    );
}

#[test]
fn test_icon_path_with_relative_traversal_rejected() {
    // 攻撃例: 相対パストラバーサル
    let malicious = "..\\..\\..\\sensitive\\data.txt";
    let result = validate_icon_path(malicious);
    assert!(result.is_err(), "相対パストラバーサルはエラーを返すべき");
}

#[test]
fn test_icon_path_empty_rejected() {
    assert!(validate_icon_path("").is_err(), "空のアイコンパスはエラーを返すべき");
}

#[test]
fn test_icon_path_with_null_byte_rejected() {
    // 攻撃例: NULバイトでパスを切り詰める（Null Byte Injection）
    let malicious = "C:\\safe\\path.ico\0C:\\evil\\malware.exe";
    let result = validate_icon_path(malicious);
    assert!(
        result.is_err(),
        "NULバイトを含むアイコンパスはNullバイトインジェクション防止のためエラーを返すべき"
    );
}

// ===== extract_value のテスト =====

#[test]
fn test_extract_value_basic() {
    assert_eq!(
        extract_value("\"name\"\t\t\"Team Fortress 2\""),
        Some("Team Fortress 2".to_string())
    );
}

#[test]
fn test_extract_value_numeric() {
    assert_eq!(
        extract_value("\"appid\"\t\t\"440\""),
        Some("440".to_string())
    );
}

#[test]
fn test_extract_value_japanese_name() {
    assert_eq!(
        extract_value("\"name\"\t\t\"\u{30e2}\u{30f3}\u{30b9}\u{30bf}\u{30fc}\u{30cf}\u{30f3}\u{30bf}\u{30fc}\""),
        Some("\u{30e2}\u{30f3}\u{30b9}\u{30bf}\u{30fc}\u{30cf}\u{30f3}\u{30bf}\u{30fc}".to_string())
    );
}

#[test]
fn test_extract_value_only_key_returns_none() {
    assert_eq!(extract_value("\"name\""), None);
}

#[test]
fn test_extract_value_name_with_spaces() {
    assert_eq!(
        extract_value("\"name\" \"Dark Souls III\""),
        Some("Dark Souls III".to_string())
    );
}

// ===== [低優先度] extract_value エッジケース =====

#[test]
fn test_extract_value_empty_string_value_returns_none() {
    // 値が空文字 "" の場合は None を返すこと
    // split('"') の結果から空文字列がフィルタされ parts.len() < 2 → None
    assert_eq!(extract_value("\"name\"\t\t\"\""), None);
}

#[test]
fn test_extract_value_whitespace_only_value_returns_none() {
    // 値が空白のみ "   " の場合は None を返すこと
    // s.trim() == "" でフィルタされるため parts.len() < 2 → None
    assert_eq!(extract_value("\"name\"\t\t\"   \""), None);
}

#[test]
fn test_extract_value_no_quotes_returns_none() {
    // クォートを含まない不正形式の行は None を返すこと
    assert_eq!(extract_value("name value"), None);
}

// ===== parse_acf_content のテスト =====

#[test]
fn test_parse_acf_valid() {
    let content = "\"AppState\"\n{\n\t\"appid\"\t\t\"440\"\n\t\"Universe\"\t\"1\"\n\t\"name\"\t\t\"Team Fortress 2\"\n\t\"StateFlags\"\t\"4\"\n}\n";
    let result = parse_acf_content(content);
    assert!(result.is_some(), "\u{6b63}\u{5e38}ACF\u{306f}SteamGame\u{3092}\u{8fd4}\u{3059}\u{3079}\u{304d}");
    let game = result.unwrap();
    assert_eq!(game.appid, "440");
    assert_eq!(game.name, "Team Fortress 2");
    assert!(game.header_image_url.contains("440"));
}

#[test]
fn test_parse_acf_missing_name_returns_none() {
    let content = "\"AppState\"\n{\n\t\"appid\"\t\t\"440\"\n\t\"StateFlags\"\t\"4\"\n}\n";
    let result = parse_acf_content(content);
    assert!(result.is_none(), "name \u{304c}\u{6b20}\u{640d}ACF\u{306f} None \u{3092}\u{8fd4}\u{3059}\u{3079}\u{304d}");
}

#[test]
fn test_parse_acf_missing_appid_returns_none() {
    let content = "\"AppState\"\n{\n\t\"name\"\t\t\"Some Game\"\n\t\"StateFlags\"\t\"4\"\n}\n";
    let result = parse_acf_content(content);
    assert!(result.is_none(), "appid \u{304c}\u{6b20}\u{640d}ACF\u{306f} None \u{3092}\u{8fd4}\u{3059}\u{3079}\u{304d}");
}

#[test]
fn test_parse_acf_japanese_game_name() {
    let content = "\"AppState\"\n{\n\t\"appid\"\t\t\"1234567\"\n\t\"name\"\t\t\"\u{30e2}\u{30f3}\u{30b9}\u{30bf}\u{30fc}\u{30cf}\u{30f3}\u{30bf}\u{30fc}\u{30ef}\u{30fc}\u{30eb}\u{30c9}\"\n}\n";
    let result = parse_acf_content(content);
    assert!(result.is_some());
    let game = result.unwrap();
    assert_eq!(game.name, "\u{30e2}\u{30f3}\u{30b9}\u{30bf}\u{30fc}\u{30cf}\u{30f3}\u{30bf}\u{30fc}\u{30ef}\u{30fc}\u{30eb}\u{30c9}");
    assert_eq!(game.appid, "1234567");
}

#[test]
fn test_parse_acf_empty_content_returns_none() {
    assert!(parse_acf_content("").is_none());
}

#[test]
fn test_parse_acf_header_image_url_format() {
    let content = "\"AppState\"\n{\n\t\"appid\"\t\t\"730\"\n\t\"name\"\t\t\"Counter-Strike 2\"\n}\n";
    let game = parse_acf_content(content).unwrap();
    assert_eq!(
        game.header_image_url,
        "https://shared.akamai.steamstatic.com/store_item_assets/steam/apps/730/library_600x900.jpg"
    );
}

#[test]
fn test_parse_acf_case_insensitive_keys() {
    let content = "\"AppState\"\n{\n\t\"AppID\"\t\t\"999\"\n\t\"Name\"\t\t\"Test Game\"\n}\n";
    let result = parse_acf_content(content);
    assert!(result.is_some(), "\u{5927}\u{6587}\u{5b57}\u{30ad}\u{30fc}\u{3082}\u{89e3}\u{6790}\u{3067}\u{304d}\u{308b}\u{3079}\u{304d}");
    let game = result.unwrap();
    assert_eq!(game.appid, "999");
    assert_eq!(game.name, "Test Game");
}

// ===== [中優先度] ACFパーサー堅牢性のテスト =====

#[test]
fn test_parse_acf_crlf_line_endings() {
    // Windows 形式の CRLF 改行でも正しく解析できること
    let content = "\"AppState\"\r\n{\r\n\t\"appid\"\t\t\"440\"\r\n\t\"name\"\t\t\"Team Fortress 2\"\r\n}\r\n";
    let result = parse_acf_content(content);
    assert!(result.is_some(), "CRLF\u{6539}\u{884c}\u{306e}ACF\u{3082}\u{89e3}\u{6790}\u{3067}\u{304d}\u{308b}\u{3079}\u{304d}");
    let game = result.unwrap();
    assert_eq!(game.appid, "440");
    assert_eq!(game.name, "Team Fortress 2");
}

#[test]
fn test_parse_acf_game_name_with_colon() {
    // コロンを含むゲーム名（例: "Grand Theft Auto V: Enhanced"）
    let content = "\"AppState\"\n{\n\t\"appid\"\t\t\"271590\"\n\t\"name\"\t\t\"Grand Theft Auto V: Enhanced\"\n}\n";
    let result = parse_acf_content(content);
    assert!(result.is_some());
    let game = result.unwrap();
    assert_eq!(game.name, "Grand Theft Auto V: Enhanced");
}

#[test]
fn test_parse_acf_game_name_with_ampersand() {
    // アンパサンドを含むゲーム名
    let content = "\"AppState\"\n{\n\t\"appid\"\t\t\"12345\"\n\t\"name\"\t\t\"Tom & Jerry: Chase\"\n}\n";
    let result = parse_acf_content(content);
    assert!(result.is_some());
    assert_eq!(result.unwrap().name, "Tom & Jerry: Chase");
}

#[test]
fn test_parse_acf_extra_fields_ignored() {
    // 無関係なフィールドが多数あっても appid と name を正しく取得できること
    let content = "\"AppState\"\n{\n\t\"appid\"\t\t\"440\"\n\t\"Universe\"\t\"1\"\n\t\"LauncherPath\"\t\"\"\n\t\"name\"\t\t\"Team Fortress 2\"\n\t\"StateFlags\"\t\"4\"\n\t\"installdir\"\t\t\"Team Fortress 2\"\n\t\"SizeOnDisk\"\t\"21474836480\"\n\t\"BytesToDownload\"\t\"0\"\n\t\"BytesDownloaded\"\t\"0\"\n}\n";
    let result = parse_acf_content(content);
    assert!(result.is_some());
    let game = result.unwrap();
    assert_eq!(game.appid, "440");
    assert_eq!(game.name, "Team Fortress 2");
}

#[test]
fn test_parse_acf_name_before_appid() {
    // name が appid より先に現れる場合も正しく解析できること
    let content = "\"AppState\"\n{\n\t\"name\"\t\t\"Counter-Strike 2\"\n\t\"appid\"\t\t\"730\"\n}\n";
    let result = parse_acf_content(content);
    assert!(result.is_some(), "name\u{304c}appid\u{3088}\u{308a}\u{5148}\u{306b}\u{73fe}\u{308c}\u{3066}\u{3082}\u{89e3}\u{6790}\u{3067}\u{304d}\u{308b}\u{3079}\u{304d}");
    let game = result.unwrap();
    assert_eq!(game.appid, "730");
    assert_eq!(game.name, "Counter-Strike 2");
}

#[test]
fn test_parse_acf_game_name_with_numbers() {
    // 数字を含むゲーム名
    let content = "\"AppState\"\n{\n\t\"appid\"\t\t\"221100\"\n\t\"name\"\t\t\"DayZ\"\n}\n";
    let result = parse_acf_content(content);
    assert!(result.is_some());
    assert_eq!(result.unwrap().name, "DayZ");
}

#[test]
fn test_parse_acf_whitespace_only_lines() {
    // 空行・空白行が含まれていても解析できること
    let content = "\"AppState\"\n{\n\n\t\"appid\"\t\t\"440\"\n\n\t\"name\"\t\t\"Team Fortress 2\"\n\n}\n";
    let result = parse_acf_content(content);
    assert!(result.is_some(), "\u{7a7a}\u{884c}\u{306e}\u{3042}\u{308b}ACF\u{3082}\u{89e3}\u{6790}\u{3067}\u{304d}\u{308b}\u{3079}\u{304d}");
}

#[test]
fn test_parse_acf_value_with_whitespace_only_not_returned() {
    // 値が空白のみの場合は extract_value が None を返す
    // → 空白のみの name は無視され、最終的に None
    let content = "\"AppState\"\n{\n\t\"appid\"\t\t\"440\"\n\t\"name\"\t\t\"   \"\n}\n";
    let result = parse_acf_content(content);
    // 現在の extract_value は空白のみの値をフィルタするため None になる
    // これが意図した動作かどうかを確認するテスト
    assert!(
        result.is_none(),
        "\u{5024}\u{304c}\u{7a7a}\u{767d}\u{306e}\u{307f}\u{306e}name\u{306f}\u{6709}\u{52b9}\u{306a}\u{30b2}\u{30fc}\u{30e0}\u{3068}\u{307f}\u{306a}\u{3055}\u{308c}\u{306a}\u{3044}\u{306f}\u{305a}: {:?}",
        result
    );
}
