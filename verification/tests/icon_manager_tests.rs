use control_center::icons::{custom_icon_mime_of, parse_icons_content, validate_icon_file};

// ===== parse_icons_content のテスト =====

#[test]
fn test_parse_valid_icons_json() {
    let json = r#"{"12345": "data:image/png;base64,abc123", "67890": "data:image/jpeg;base64,xyz"}"#;
    let result = parse_icons_content(json);
    assert!(result.is_ok());
    let icons = result.unwrap();
    assert_eq!(icons.get("12345").unwrap(), "data:image/png;base64,abc123");
    assert_eq!(icons.get("67890").unwrap(), "data:image/jpeg;base64,xyz");
}

#[test]
fn test_parse_empty_json_object() {
    let result = parse_icons_content("{}");
    assert!(result.is_ok());
    assert!(result.unwrap().is_empty());
}

#[test]
fn icon_manager_test_parse_invalid_json_returns_error() {
    // 壊れたJSONは unwrap_or_default() で空Mapになってはいけない
    let result = parse_icons_content("{ this is not valid json !!!");
    assert!(
        result.is_err(),
        "壊れたJSONはエラーを返すべきだが Ok が返ってきた"
    );
    let err = result.unwrap_err();
    assert!(
        err.contains("JSONパースに失敗"),
        "エラーメッセージが期待通りでない: {}",
        err
    );
}

#[test]
fn test_parse_wrong_type_json_returns_error() {
    // 型が違う（配列）はエラーになるべき
    let result = parse_icons_content(r#"["item1", "item2"]"#);
    assert!(
        result.is_err(),
        "配列型JSONはHashMap<String,String>にデシリアライズできずエラーになるべき"
    );
}

#[test]
fn test_parse_partial_wrong_type_returns_error() {
    // 値が文字列でない場合もエラー
    let result = parse_icons_content(r#"{"appid": 12345}"#);
    assert!(
        result.is_err(),
        "値が整数のJSONはString型にデシリアライズできずエラーになるべき"
    );
}

#[test]
fn test_parse_japanese_appid_key() {
    // キーに任意の文字列を使えることを確認
    let json = r#"{"テスト": "data:image/png;base64,abc"}"#;
    let result = parse_icons_content(json);
    assert!(result.is_ok());
    assert!(result.unwrap().contains_key("テスト"));
}

// ===== validate_icon_file のテスト =====

#[test]
fn test_validate_empty_file_returns_error() {
    let result = validate_icon_file(&[]);
    assert!(
        result.is_err(),
        "空ファイルはエラーを返すべきだが Ok が返ってきた"
    );
    assert!(result.unwrap_err().contains("空"));
}

#[test]
fn test_validate_valid_file_ok() {
    let data = vec![0xFFu8; 1024]; // 1KB の PNG っぽいデータ
    assert!(validate_icon_file(&data).is_ok());
}

#[test]
fn test_validate_oversized_file_returns_error() {
    let data = vec![0u8; 11 * 1024 * 1024]; // 11MB
    let result = validate_icon_file(&data);
    assert!(
        result.is_err(),
        "10MB超のファイルはエラーを返すべきだが Ok が返ってきた"
    );
    assert!(result.unwrap_err().contains("大きすぎます"));
}

#[test]
fn test_validate_exactly_max_size_ok() {
    let data = vec![0u8; 10 * 1024 * 1024]; // ちょうど10MB
    assert!(
        validate_icon_file(&data).is_ok(),
        "ちょうど10MBはOKであるべき"
    );
}

// ===== MIMEタイプ判定のテスト（save_custom_icon_from_path 内ロジック） =====

#[test]
fn test_mime_type_detection() {
    let cases = vec![
        ("image.jpg", "jpeg"),
        ("image.jpeg", "jpeg"),
        ("image.gif", "gif"),
        ("image.webp", "webp"),
        ("image.png", "png"),
        ("image.bmp", "png"),  // 未知の拡張子 → png にフォールバック
        ("noextension", "png"), // 拡張子なし → png にフォールバック
    ];

    for (filename, expected_mime) in cases {
        let mime_type = custom_icon_mime_of(filename);
        assert_eq!(
            mime_type, expected_mime,
            "ファイル '{}' のMIMEタイプが期待値 '{}' と異なる: '{}'",
            filename, expected_mime, mime_type
        );
    }
}
