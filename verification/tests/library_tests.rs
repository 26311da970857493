use control_center::audio::{
    audio_device, is_browser_process, media_key_code, switch_outcome, switch_script, MediaKey,
    MuteToggle, SWITCH_SCRIPT_BODY, SWITCH_SCRIPT_HEAD,
};
use control_center::encoding::{bgra_to_rgba, exe_icon_data_uri, icon_png, image_data_uri};
use control_center::icons::{
    custom_icon_data_uri, icons_text_with, load_icons, parse_icons_content, saved_icons_text,
    validate_icon_file, IconMap,
};
use control_center::manual_games::{
    add_manual_game_to, default_category, display_name_of, id_from_nanos, manual_games_from_json,
    fresh_id, manual_launch_target, remove_game_by_id, ManualGame,
};
use control_center::paths::{extension_of, file_name_of, file_stem_of};
use control_center::steam::{
    cache_image_candidates, cached_image_data_uri, hashed_image_name, icon_from_shortcut,
    is_app_manifest, is_url_shortcut, shortcut_icon_mime_of, shortcut_search_dirs, steam_launch_url,
};
use control_center::text::{chars_of, decimal_string, lines_of};

fn string_of(cs: &[char]) -> String {
    cs.iter().collect()
}

fn ext(p: &str) -> Option<String> {
    extension_of(&chars_of(p)).map(|v| string_of(&v))
}

fn stem(p: &str) -> Option<String> {
    file_stem_of(&chars_of(p)).map(|v| string_of(&v))
}

fn name(p: &str) -> Option<String> {
    file_name_of(&chars_of(p)).map(|v| string_of(&v))
}

fn game(id: &str, exe: &str) -> ManualGame {
    ManualGame {
        id: id.to_string(),
        name: format!("name of {}", id),
        exe_path: exe.to_string(),
        category: "game".to_string(),
    }
}

#[test]
fn windows_path_extensions() {
    assert_eq!(ext("C:\\Games\\game.exe"), Some("exe".to_string()));
    assert_eq!(ext("D:/tools/run.BAT"), Some("BAT".to_string()));
    assert_eq!(ext("C:\\dir.v2\\game"), None);
    assert_eq!(ext("C:\\x\\.hidden"), None);
    assert_eq!(ext("C:\\x\\archive.tar.gz"), Some("gz".to_string()));
    assert_eq!(ext("C:\\x\\trailing."), Some("".to_string()));
    assert_eq!(ext("C:.exe"), None);
    assert_eq!(ext("\\\\server\\share.exe"), None);
    assert_eq!(ext("\\\\server\\share\\app.lnk"), Some("lnk".to_string()));
    assert_eq!(ext(""), None);
}

#[test]
fn windows_path_names_and_stems() {
    assert_eq!(name("C:\\Games\\tool\\"), Some("tool".to_string()));
    assert_eq!(name("a/b/."), Some("b".to_string()));
    assert_eq!(name("a\\.."), None);
    assert_eq!(name("C:"), None);
    assert_eq!(stem("C:\\x\\archive.tar.gz"), Some("archive.tar".to_string()));
    assert_eq!(stem("C:\\x\\.hidden"), Some(".hidden".to_string()));
    assert_eq!(stem("C:\\Games\\Hollow Knight.exe"), Some("Hollow Knight".to_string()));
}

#[test]
fn decimal_and_lines() {
    assert_eq!(decimal_string(0), "0");
    assert_eq!(decimal_string(10485760), "10485760");
    assert_eq!(decimal_string(u128::MAX), u128::MAX.to_string());
    let ls: Vec<String> = lines_of(&chars_of("a\r\nb\n\nc\r")).iter().map(|l| string_of(l)).collect();
    assert_eq!(ls, vec!["a", "b", "", "c\r"]);
    assert!(lines_of(&chars_of("")).is_empty());
    assert_eq!(lines_of(&chars_of("x\n")).len(), 1);
}

#[test]
fn launch_url_only_for_digit_appids() {
    assert_eq!(steam_launch_url("440").unwrap(), "steam://run/440");
    assert_eq!(
        steam_launch_url("440/open/main").unwrap_err(),
        "AppIDは数字のみで構成されるべきです (不正改造の可能性): '440/open/main'"
    );
    assert_eq!(steam_launch_url("").unwrap_err(), "AppIDが空です");
}

#[test]
fn shortcut_icons_are_read_and_checked() {
    let content = "[InternetShortcut]\r\nIconFile=..\\evil.ico\r\nURL=steam://rungameid/440\r\nIconFile=  C:\\Steam\\icons\\tf2.ico \r\n";
    assert_eq!(icon_from_shortcut(content, "440"), Some("C:\\Steam\\icons\\tf2.ico".to_string()));
    assert_eq!(icon_from_shortcut(content, "730"), None);
    let repeated = "URL=steam://rungameid/5\nIconFile=IconFile=C:\\a.ico\n";
    assert_eq!(icon_from_shortcut(repeated, "5"), Some("C:\\a.ico".to_string()));
    let none_valid = "URL=steam://rungameid/5\nIconFile=\n";
    assert_eq!(icon_from_shortcut(none_valid, "5"), None);
}

#[test]
fn cache_candidates_in_priority_order() {
    let c = cache_image_candidates("440");
    let got: Vec<(bool, &str, &str)> =
        c.iter().map(|x| (x.in_app_dir, x.file_name.as_str(), x.mime.as_str())).collect();
    assert_eq!(
        got,
        vec![
            (true, "library_600x900.jpg", "jpeg"),
            (true, "header.jpg", "jpeg"),
            (true, "library_header.jpg", "jpeg"),
            (true, "logo.png", "png"),
            (false, "440_library_600x900.jpg", "jpeg"),
            (false, "440_header.jpg", "jpeg"),
            (false, "440_library_header.jpg", "jpeg"),
        ]
    );
}

#[test]
fn cached_images_need_more_than_16_bytes() {
    assert_eq!(cached_image_data_uri("jpeg", &[0u8; 16]), None);
    assert_eq!(
        cached_image_data_uri("jpeg", &[0u8; 17]),
        Some("data:image/jpeg;base64,AAAAAAAAAAAAAAAAAAAAAAA=".to_string())
    );
}

#[test]
fn hashed_names() {
    assert!(hashed_image_name("0123456789abcdef0123456789ABCDEF01234567.jpg"));
    assert!(!hashed_image_name("0123456789abcdef0123456789ABCDEF0123456g.jpg"));
    assert!(!hashed_image_name("0123456789abcdef0123456789ABCDEF01234567.png"));
    assert!(!hashed_image_name("0123456789abcdef0123456789ABCDEF0123456.jpg"));
}

#[test]
fn shortcut_icon_mime_types() {
    assert_eq!(shortcut_icon_mime_of("C:\\i\\a.PNG"), "png");
    assert_eq!(shortcut_icon_mime_of("C:\\i\\a.Jpeg"), "jpeg");
    assert_eq!(shortcut_icon_mime_of("C:\\i\\a.ico"), "x-icon");
    assert_eq!(shortcut_icon_mime_of("C:\\i\\a.bmp"), "x-icon");
    assert_eq!(shortcut_icon_mime_of("C:\\i\\noext"), "x-icon");
}

#[test]
fn manifest_and_shortcut_files() {
    assert!(is_app_manifest("C:\\Steam\\steamapps\\appmanifest_440.acf"));
    assert!(!is_app_manifest("C:\\Steam\\steamapps\\appmanifest_440.ACF"));
    assert!(!is_app_manifest("C:\\Steam\\steamapps\\libraryfolders.vdf"));
    assert!(is_url_shortcut("C:\\Users\\u\\Desktop\\Game.url"));
    assert!(!is_url_shortcut("C:\\Users\\u\\Desktop\\Game.lnk"));
}

#[test]
fn base64_data_uris() {
    assert_eq!(image_data_uri("png", b"hello"), "data:image/png;base64,aGVsbG8=");
    assert_eq!(image_data_uri("gif", &[0xff, 0xff, 0xff]), "data:image/gif;base64,////");
    assert_eq!(exe_icon_data_uri(Some(vec![0u8; 16])), None);
    assert_eq!(exe_icon_data_uri(None), None);
    assert_eq!(
        exe_icon_data_uri(Some(vec![0u8; 17])),
        Some("data:image/png;base64,AAAAAAAAAAAAAAAAAAAAAAA=".to_string())
    );
}

#[test]
fn pixels_become_rgba() {
    assert_eq!(bgra_to_rgba(&[1, 2, 3, 0, 4, 5, 6, 0]), vec![3, 2, 1, 255, 6, 5, 4, 255]);
    assert_eq!(bgra_to_rgba(&[1, 2, 3, 0, 4, 5, 6, 9]), vec![3, 2, 1, 0, 6, 5, 4, 9]);
    assert_eq!(bgra_to_rgba(&[1, 2, 3, 7, 8, 9]), vec![3, 2, 1, 7, 0, 0]);
    assert!(bgra_to_rgba(&[]).is_empty());
}

#[test]
fn icon_pixels_become_png() {
    let png = icon_png(2, 1, &[0, 0, 255, 255, 255, 0, 0, 255]).unwrap();
    assert_eq!(&png[..8], &[0x89, b'P', b'N', b'G', 0x0d, 0x0a, 0x1a, 0x0a]);
    assert!(png.len() > 16);
    assert!(icon_png(0, 0, &[]).is_none());
}

#[test]
fn custom_icon_uris() {
    assert_eq!(
        custom_icon_data_uri("C:\\pics\\cover.JPG", b"hello").unwrap(),
        "data:image/jpeg;base64,aGVsbG8="
    );
    assert_eq!(custom_icon_data_uri("cover", b"hello").unwrap(), "data:image/png;base64,aGVsbG8=");
    assert_eq!(custom_icon_data_uri("cover.png", &[]).unwrap_err(), "ファイルが空です");
    assert_eq!(
        validate_icon_file(&vec![0u8; 11 * 1024 * 1024]).unwrap_err(),
        "ファイルが大きすぎます (11534336 bytes, 最大 10485760 bytes)"
    );
}

#[test]
fn audio_device_names() {
    let d = audio_device("{0.0.0.00000000}.{abc}".to_string(), "Speakers", "Realtek Audio", "x");
    assert_eq!(d.name, "Speakers (Realtek Audio)");
    assert!(!d.is_default);
    let d = audio_device("id1".to_string(), "Realtek Speakers", "Speakers", "id1");
    assert_eq!(d.name, "Realtek Speakers");
    assert!(d.is_default);
    let d = audio_device("id2".to_string(), "", "Headset", "id1");
    assert_eq!(d.name, "Headset");
    let d = audio_device("{0.0.0.00000000}.{abc}".to_string(), "", "", "");
    assert_eq!(d.name, "Unknown Device ({0.0.0.0)");
    let d = audio_device("short".to_string(), "", "", "");
    assert_eq!(d.name, "Unknown Device (short)");
}

#[test]
fn switch_command_and_outcome() {
    let s = switch_script("{0.0.0.00000000}.{abc}");
    assert!(s.starts_with("$id = '{0.0.0.00000000}.{abc}';"));
    assert_eq!(s.len(), SWITCH_SCRIPT_HEAD.len() + 22 + 2 + SWITCH_SCRIPT_BODY.len());
    assert!(s.contains("[Switcher]::Set($id)"));
    assert!(switch_outcome("Success(Client-v1): 0x0, 0x0, 0x0", "", true).is_ok());
    assert_eq!(
        switch_outcome("Success(Client-v1): 0x0, 0x80004005, 0x0\r\n", " warn \n", true).unwrap_err(),
        "1つ以上のロールで切り替えに失敗しました: Success(Client-v1): 0x0, 0x80004005, 0x0\nStderr: warn"
    );
}

#[test]
fn browsers_and_mute_toggling() {
    assert!(is_browser_process("Chrome.exe"));
    assert!(is_browser_process("MSEDGE.EXE"));
    assert!(!is_browser_process("notepad.exe"));
    let mut t = MuteToggle::new();
    assert!(t.needs_current());
    assert_eq!(t.observe(None), false);
    assert_eq!(t.observe(Some(false)), true);
    assert!(!t.needs_current());
    assert_eq!(t.observe(Some(true)), true);
    assert_eq!(t.observe(None), true);
}

#[test]
fn media_keys() {
    assert_eq!(media_key_code(MediaKey::PlayPause), 0xB3);
    assert_eq!(media_key_code(MediaKey::NextTrack), 0xB0);
    assert_eq!(media_key_code(MediaKey::PreviousTrack), 0xB1);
}

fn new_game(name: &str, exe: &str, category: &str, exists: bool) -> Result<ManualGame, String> {
    add_manual_game_to(Ok(Vec::new()), name, exe.to_string(), category, exists).map(|(_, g)| g)
}

#[test]
fn fresh_ids_avoid_saved_ones() {
    let mut games: Vec<ManualGame> = Vec::new();
    for _ in 0..5 {
        let id = fresh_id(&games);
        assert!(id.starts_with("manual_"));
        assert!(games.iter().all(|g| g.id != id));
        games.push(game(&id, "C:\\a.exe"));
    }
    let (list, g) = add_manual_game_to(Ok(games.clone()), "n", "C:\\n.exe".to_string(), "game", true).unwrap();
    assert!(games.iter().all(|x| x.id != g.id));
    assert_eq!(list.len(), 6);
}

#[test]
fn new_manual_games() {
    let g = new_game("  ", "C:\\Games\\Hollow Knight.exe", "APP", true).unwrap();
    assert_eq!(g.name, "Hollow Knight");
    assert_eq!(g.category, "game");
    assert!(g.id.starts_with("manual_"));
    let g = new_game(" Discord ", "C:\\Apps\\Discord.lnk", "app", true).unwrap();
    assert_eq!(g.name, "Discord");
    assert_eq!(g.category, "app");
    assert_eq!(
        new_game("x", "C:\\Games\\missing.exe", "game", false).unwrap_err(),
        "ファイルが存在しません: 'C:\\Games\\missing.exe'"
    );
    assert!(new_game("x", "C:\\Games\\notes.txt", "game", true).is_err());
    assert_eq!(display_name_of("", "C:\\a\\b"), "b");
    assert_eq!(default_category(), "game");
    assert_eq!(id_from_nanos(1712345678901234567), "manual_1712345678901234567");
    assert_ne!(id_from_nanos(12), id_from_nanos(120));
}

#[test]
fn removing_and_launching_manual_games() {
    let mut games = vec![game("a", "C:\\a.exe"), game("b", "C:\\b.exe"), game("a", "C:\\c.exe")];
    assert_eq!(manual_launch_target(&games, "a").unwrap(), "C:\\a.exe");
    assert!(remove_game_by_id(&mut games, "a").is_ok());
    assert_eq!(games.len(), 1);
    assert_eq!(games[0].id, "b");
    assert_eq!(
        manual_launch_target(&games, "a").unwrap_err(),
        "指定されたIDのゲームが見つかりません: 'a'"
    );
    assert_eq!(
        remove_game_by_id(&mut games, "zz").unwrap_err(),
        "指定されたIDのゲームが見つかりません: 'zz'"
    );
    assert_eq!(games.len(), 1);
    let tampered = vec![game("t", "C:\\Windows\\..\\evil.exe")];
    assert!(manual_launch_target(&tampered, "t").unwrap_err().contains("'..'"));
}

#[test]
fn saved_manual_games_decoding_outcomes() {
    let kept = vec![game("a", "C:\\a.exe")];
    assert_eq!(manual_games_from_json("[...]", Ok(kept.clone())).unwrap(), kept);
    assert_eq!(
        manual_games_from_json("[", Err("EOF".to_string())).unwrap_err(),
        "手動ゲームのJSONパースに失敗しました: EOF"
    );
}

#[test]
fn shortcut_folders_follow_the_environment() {
    let all = shortcut_search_dirs(Some("P"), Some("U"), Some("D"));
    let flat: Vec<(String, Vec<String>)> =
        all.into_iter().map(|d| (d.base, d.components)).collect();
    let dir = |b: &str, cs: &[&str]| (b.to_string(), cs.iter().map(|c| c.to_string()).collect::<Vec<_>>());
    let menu = ["Microsoft", "Windows", "Start Menu", "Programs", "Steam"];
    let mut roaming = vec!["AppData", "Roaming"];
    roaming.extend_from_slice(&menu);
    assert_eq!(
        flat,
        vec![
            dir("P", &["Desktop"]),
            dir("P", &["デスクトップ"]),
            dir("U", &["Desktop"]),
            dir("U", &["デスクトップ"]),
            dir("U", &["OneDrive", "Desktop"]),
            dir("U", &["OneDrive", "デスクトップ"]),
            dir("U", &roaming),
            dir("D", &menu),
        ]
    );
    let only_data = shortcut_search_dirs(None, None, Some("D"));
    assert_eq!(only_data.len(), 1);
    assert_eq!(only_data[0].base, "D");
    assert!(shortcut_search_dirs(None, None, None).is_empty());
}

#[test]
fn added_game_is_launched_and_removal_undoes_it() {
    let original = vec![game("a", "C:\\a.exe"), game("b", "C:\\b.exe")];
    let mut games = original.clone();
    games.push(game("new", "C:\\new.lnk"));
    assert_eq!(manual_launch_target(&games, "new").unwrap(), "C:\\new.lnk");
    assert!(remove_game_by_id(&mut games, "new").is_ok());
    assert_eq!(games, original);
    let mut unchanged = original.clone();
    assert!(remove_game_by_id(&mut unchanged, "missing").is_err());
    assert_eq!(unchanged, original);
}

#[test]
fn saved_icon_text_holds_the_new_icon() {
    let icons = parse_icons_content(
        r#"{"440": "data:image/png;base64,AAAA", "570": "old"}"#,
    )
    .unwrap();
    let text = icons_text_with(icons, "570".to_string(), "data:image/png;base64,BBBB".to_string())
        .unwrap();
    let back = parse_icons_content(&text).unwrap();
    assert_eq!(back.len(), 2);
    assert_eq!(back.get("440").unwrap(), "data:image/png;base64,AAAA");
    assert_eq!(back.get("570").unwrap(), "data:image/png;base64,BBBB");
    let empty = icons_text_with(IconMap::new(), "1".to_string(), "x".to_string());
    assert_eq!(empty.unwrap(), "{\"1\":\"x\"}");
}

#[test]
fn saving_an_icon_into_the_store() {
    let none = saved_icons_text(None, "10".to_string(), "u\"q".to_string()).unwrap();
    let back = load_icons(Some(&none)).unwrap();
    assert_eq!(back.len(), 1);
    assert_eq!(back.get("10").unwrap(), "u\"q");
    let err = saved_icons_text(Some("[1]"), "10".to_string(), "u".to_string()).unwrap_err();
    assert!(err.starts_with("カスタムアイコンのJSONパースに失敗しました: "));
    let mut m = IconMap::new();
    m.insert("a".to_string(), "1".to_string());
    m.insert("b".to_string(), "2".to_string());
    m.insert("a".to_string(), "3".to_string());
    assert_eq!(m.len(), 2);
    assert_eq!(m.get("a").unwrap(), "3");
    assert!(m.contains_key("b"));
    assert!(!m.contains_key("c"));
    assert!(load_icons(None).unwrap().is_empty());
}

#[test]
fn verbatim_paths_read_like_windows() {
    assert_eq!(name("\\\\?\\UNC\\server\\share.exe"), None);
    assert!(validate_exe_path_err("\\\\?\\UNC\\server\\share.exe"));
    assert_eq!(name("\\\\?\\UNC\\server\\share\\x.exe"), Some("x.exe".to_string()));
    assert_eq!(name("\\\\?\\C:\\a/b.exe"), Some("a/b.exe".to_string()));
    assert_eq!(stem("\\\\?\\C:\\a/b.exe"), Some("a/b".to_string()));
    assert_eq!(name("\\\\?\\C:\\foo\\."), None);
    assert_eq!(name("C:\\foo\\."), Some("foo".to_string()));
    assert_eq!(name("\\\\.\\COM1"), None);
    assert_eq!(name("\\\\?\\tool\\run.cmd"), Some("run.cmd".to_string()));
    assert_eq!(name("\\\\server\\share"), None);
    assert_eq!(name("\\\\server\\"), Some("server".to_string()));
}

fn validate_exe_path_err(p: &str) -> bool {
    control_center::manual_games::validate_exe_path(p).is_err()
}

#[test]
fn adding_to_the_saved_list() {
    let before = vec![game("a", "C:\\a.exe")];
    let (list, g) =
        add_manual_game_to(Ok(before.clone()), "  Tool  ", "C:\\t\\tool.exe".to_string(), "app", true)
            .unwrap();
    assert_eq!(list.len(), 2);
    assert_eq!(list[0], before[0]);
    assert_eq!(list[1], g);
    assert_eq!(g.name, "Tool");
    assert_eq!(g.category, "app");
    assert!(g.id.starts_with("manual_"));
    assert_eq!(
        add_manual_game_to(Err("broken".to_string()), "", "C:\\t\\tool.exe".to_string(), "game", true)
            .unwrap_err(),
        "broken"
    );
    assert_eq!(
        add_manual_game_to(Err("broken".to_string()), "", "C:\\t\\tool.txt".to_string(), "game", true)
            .unwrap_err(),
        "対応していない拡張子です（exe/lnk/bat/cmd/url のみ許可）: 'C:\\t\\tool.txt'"
    );
    assert_eq!(
        add_manual_game_to(Ok(before), "", "C:\\t\\tool.exe".to_string(), "game", false).unwrap_err(),
        "ファイルが存在しません: 'C:\\t\\tool.exe'"
    );
}

#[test]
fn ascii_endpoint_ids_show_eight_characters() {
    let d = audio_device("ABCDEFGHIJ".to_string(), "", "", "");
    assert_eq!(d.name, "Unknown Device (ABCDEFGH)");
    let d = audio_device("ABCDEFGH".to_string(), "", "", "ABCDEFGH");
    assert_eq!(d.name, "Unknown Device (ABCDEFGH)");
    assert!(d.is_default);
}
