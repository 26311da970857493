//! Steam library: app manifest (`.acf`) parsing, AppID and icon-path
//! validation, and the choice of cached artwork.

use crate::encoding::{data_uri, image_data_uri};
use crate::paths::{extension, extension_of};
use crate::text::{
    chars_eq, chars_of, contains, contains_chars, is_blank, is_blank_chars, lines, lines_of, lowercase,
    split_by, split_chars, starts_with, starts_with_chars, string_of, to_lowercase, trim,
    trim_chars, views_of,
};
use vstd::prelude::*;

verus! {

/// An installed Steam game.
#[derive(Debug, PartialEq)]
pub struct SteamGame {
    pub name: String,
    pub appid: String,
    pub header_image_url: String,
}

/// The pieces of `line` between its double quotes that are not blank.
pub open spec fn value_pieces(line: Seq<char>) -> Seq<Seq<char>> {
    split_by(line, seq!['"']).filter(|p: Seq<char>| !is_blank(p))
}

/// The value of a manifest line such as `"name"  "Game"`: the last non-blank
/// quoted piece, when the line has at least two such pieces.
pub open spec fn line_value(line: Seq<char>) -> Option<Seq<char>> {
    let v = value_pieces(line);
    if v.len() >= 2 {
        Some(v.last())
    } else {
        None
    }
}

/// The value of a key/value line of a Steam manifest.
pub fn extract_value(line: &str) -> (r: Option<String>)
    ensures
        match line_value(line@) {
            Some(v) => r matches Some(s) && s@ == v,
            None => r is None,
        },
{
    let cs = chars_of(line);
    let quote = ['"'];
    assert(quote@ == seq!['"']);
    let pieces = split_chars(&cs, &quote);
    let ghost all = views_of(pieces@);
    let ghost pred = |p: Seq<char>| !is_blank(p);
    let mut count: usize = 0;
    let mut last: Vec<char> = Vec::new();
    let mut i: usize = 0;
    while i < pieces.len()
        invariant
            i <= pieces@.len(),
            all == views_of(pieces@),
            all == split_by(cs@, quote@),
            pred == (|p: Seq<char>| !is_blank(p)),
            count == all.take(i as int).filter(pred).len(),
            count > 0 ==> last@ == all.take(i as int).filter(pred).last(),
        decreases pieces@.len() - i,
    {
        proof {
            assert(all.take(i + 1) =~= all.take(i as int).push(all[i as int]));
            all.take(i as int).lemma_filter_push(all[i as int], pred);
        }
        if !is_blank_chars(pieces[i].as_slice()) {
            count = count + 1;
            last = pieces[i].clone();
        }
        i = i + 1;
    }
    assert(all.take(pieces@.len() as int) =~= all);
    if count >= 2 {
        Some(string_of(&last))
    } else {
        None
    }
}

/// Every character is an ASCII digit.
pub open spec fn all_ascii_digits(s: Seq<char>) -> bool {
    forall|i: int| 0 <= i < s.len() ==> '0' <= #[trigger] s[i] <= '9'
}

/// Why `validate_appid` refuses an AppID, if it does.
pub open spec fn appid_error(appid: Seq<char>) -> Option<Seq<char>> {
    if appid.len() == 0 {
        Some("AppIDが空です"@)
    } else if !all_ascii_digits(appid) {
        Some("AppIDは数字のみで構成されるべきです (不正改造の可能性): '"@ + appid + "'"@)
    } else {
        None
    }
}

/// Accepts an AppID made of ASCII digits only, so that it cannot change the
/// meaning of the `steam://` URI it is put into.
pub fn validate_appid(appid: &str) -> (r: Result<(), String>)
    ensures
        match appid_error(appid@) {
            Some(m) => (r matches Err(e) && e@ == m),
            None => r is Ok,
        },
{
    let cs = chars_of(appid);
    if cs.len() == 0 {
        return Err(String::from_str("AppIDが空です"));
    }
    let mut i: usize = 0;
    while i < cs.len()
        invariant
            i <= cs@.len(),
            cs@ == appid@,
            forall|k: int| 0 <= k < i ==> '0' <= #[trigger] cs@[k] <= '9',
        decreases cs@.len() - i,
    {
        if !('0' <= cs[i] && cs[i] <= '9') {
            let mut e = String::from_str("AppIDは数字のみで構成されるべきです (不正改造の可能性): '");
            e.append(appid);
            e.append("'");
            return Err(e);
        }
        i = i + 1;
    }
    Ok(())
}

/// The URI that starts a game: `steam://run/{appid}`, for a valid AppID.
pub fn steam_launch_url(appid: &str) -> (r: Result<String, String>)
    ensures
        match appid_error(appid@) {
            Some(m) => (r matches Err(e) && e@ == m),
            None => (r matches Ok(u) && u@ == "steam://run/"@ + appid@),
        },
{
    match validate_appid(appid) {
        Err(e) => Err(e),
        Ok(()) => {
            let mut u = String::from_str("steam://run/");
            u.append(appid);
            Ok(u)
        },
    }
}

/// Rejects an icon path that is empty, climbs with `..` or holds a NUL.
pub fn validate_icon_path(path: &str) -> (r: Result<(), String>)
    ensures
        path@.len() == 0 ==> (r matches Err(e) && e@ == "アイコンパスが空です"@),
        path@.len() > 0 && contains(path@, ".."@) ==> (r matches Err(e) && e@
            == "アイコンパスに '..' が含まれており、パストラバーサルの可能性があります: '"@ + path@ + "'"@),
        path@.len() > 0 && !contains(path@, ".."@) && contains(path@, seq!['\0']) ==> (r matches Err(
            e,
        ) && e@ == "アイコンパスにNULバイトが含まれています"@),
        r is Ok <==> icon_path_ok(path@),
{
    let cs = chars_of(path);
    if cs.len() == 0 {
        return Err(String::from_str("アイコンパスが空です"));
    }
    let dots = chars_of("..");
    if contains_chars(&cs, &dots) {
        let mut e = String::from_str(
            "アイコンパスに '..' が含まれており、パストラバーサルの可能性があります: '",
        );
        e.append(path);
        e.append("'");
        return Err(e);
    }
    let nul = ['\0'];
    assert(nul@ == seq!['\0']);
    if contains_chars(&cs, &nul) {
        return Err(String::from_str("アイコンパスにNULバイトが含まれています"));
    }
    Ok(())
}

/// An icon path that `validate_icon_path` accepts.
pub open spec fn icon_path_ok(p: Seq<char>) -> bool {
    p.len() > 0 && !contains(p, ".."@) && !contains(p, seq!['\0'])
}


/// The artwork URL of a game on Steam's CDN.
pub open spec fn header_image_url(appid: Seq<char>) -> Seq<char> {
    "https://shared.akamai.steamstatic.com/store_item_assets/steam/apps/"@ + appid
        + "/library_600x900.jpg"@
}

/// The name and AppID seen after one more manifest line: a line whose
/// trimmed, lower-cased text starts with `"name"` (or `"appid"`) and that
/// has a value sets the name (or the AppID).
pub open spec fn acf_step(line: Seq<char>, name: Seq<char>, appid: Seq<char>) -> (
    Seq<char>,
    Seq<char>,
) {
    let t = trim(line);
    let low = lowercase(t);
    if starts_with(low, "\"name\""@) {
        match line_value(t) {
            Some(v) => (v, appid),
            None => (name, appid),
        }
    } else if starts_with(low, "\"appid\""@) {
        match line_value(t) {
            Some(v) => (name, v),
            None => (name, appid),
        }
    } else {
        (name, appid)
    }
}

/// Scans manifest lines from the given name and AppID, stopping at the first
/// line after which both are known.
pub open spec fn acf_scan(ls: Seq<Seq<char>>, name: Seq<char>, appid: Seq<char>) -> Option<
    (Seq<char>, Seq<char>),
>
    decreases ls.len(),
{
    if ls.len() == 0 {
        None
    } else {
        let (n2, a2) = acf_step(ls[0], name, appid);
        if n2.len() > 0 && a2.len() > 0 {
            Some((n2, a2))
        } else {
            acf_scan(ls.drop_first(), n2, a2)
        }
    }
}

/// Name and AppID that a manifest text declares, if it declares both.
pub open spec fn acf_fields(contents: Seq<char>) -> Option<(Seq<char>, Seq<char>)> {
    acf_scan(lines(contents), Seq::empty(), Seq::empty())
}

/// The artwork URL of a game, stated on its AppID: Steam's CDN address for
/// the AppID's `library_600x900.jpg`.
pub proof fn lemma_header_image_url_law(appid: Seq<char>)
    ensures
        header_image_url(appid) == "https://shared.akamai.steamstatic.com/store_item_assets/steam/apps/"@
            + appid + "/library_600x900.jpg"@,
{
}

/// Reads the game a Steam app manifest (`appmanifest_*.acf`) describes.
pub fn parse_acf_content(contents: &str) -> (r: Option<SteamGame>)
    ensures
        match acf_fields(contents@) {
            Some((n, a)) => (r matches Some(g) && g.name@ == n && g.appid@ == a
                && g.header_image_url@ == header_image_url(a)),
            None => r is None,
        },
{
    let cs = chars_of(contents);
    let ls = lines_of(&cs);
    let ghost all = views_of(ls@);
    let name_key = chars_of("\"name\"");
    let appid_key = chars_of("\"appid\"");
    let mut name: Vec<char> = Vec::new();
    let mut appid: Vec<char> = Vec::new();
    let mut i: usize = 0;
    assert(all.skip(0) =~= all);
    while i < ls.len()
        invariant
            i <= ls@.len(),
            all == views_of(ls@),
            all == lines(contents@),
            name_key@ == "\"name\""@,
            appid_key@ == "\"appid\""@,
            acf_fields(contents@) == acf_scan(all.skip(i as int), name@, appid@),
        decreases ls@.len() - i,
    {
        let ghost rest = all.skip(i as int);
        assert(rest[0] == ls@[i as int]@);
        assert(rest.drop_first() =~= all.skip(i + 1));
        let t = trim_chars(ls[i].as_slice());
        let t_str = string_of(&t);
        let low_str = to_lowercase(t_str.as_str());
        let low = chars_of(low_str.as_str());
        if starts_with_chars(&low, &name_key) {
            if let Some(v) = extract_value(t_str.as_str()) {
                name = chars_of(v.as_str());
            }
        } else if starts_with_chars(&low, &appid_key) {
            if let Some(v) = extract_value(t_str.as_str()) {
                appid = chars_of(v.as_str());
            }
        }
        if name.len() > 0 && appid.len() > 0 {
            let appid_str = string_of(&appid);
            let mut url = String::from_str(
                "https://shared.akamai.steamstatic.com/store_item_assets/steam/apps/",
            );
            url.append(appid_str.as_str());
            url.append("/library_600x900.jpg");
            return Some(SteamGame { name: string_of(&name), appid: appid_str, header_image_url: url });
        }
        i = i + 1;
    }
    None
}

/// Drops every leading repetition of the non-empty `p`, as
/// `str::trim_start_matches` does.
pub open spec fn strip_leading(s: Seq<char>, p: Seq<char>) -> Seq<char>
    recommends
        p.len() > 0,
    decreases s.len(),
{
    if p.len() > 0 && starts_with(s, p) {
        strip_leading(s.subrange(p.len() as int, s.len() as int), p)
    } else {
        s
    }
}

fn strip_leading_chars(s: &[char], p: &[char]) -> (r: Vec<char>)
    requires
        p@.len() > 0,
    ensures
        r@ == strip_leading(s@, p@),
{
    let mut rest: &[char] = s;
    while starts_with_chars(rest, p)
        invariant
            p@.len() > 0,
            strip_leading(s@, p@) == strip_leading(rest@, p@),
        decreases rest@.len(),
    {
        let n = rest.len();
        rest = &rest[p.len()..n];
    }
    vstd::slice::slice_to_vec(rest)
}

/// The icon a shortcut line names: the text after `IconFile=`, trimmed.
pub open spec fn icon_file_of(line: Seq<char>) -> Seq<char> {
    trim(strip_leading(line, "IconFile="@))
}

/// The first line starting with `IconFile=` whose icon path is acceptable.
pub open spec fn first_icon_file(ls: Seq<Seq<char>>) -> Option<Seq<char>>
    decreases ls.len(),
{
    if ls.len() == 0 {
        None
    } else if starts_with(ls[0], "IconFile="@) && icon_path_ok(icon_file_of(ls[0])) {
        Some(icon_file_of(ls[0]))
    } else {
        first_icon_file(ls.drop_first())
    }
}

/// The icon path an internet shortcut (`.url`) gives for a Steam game.
pub open spec fn shortcut_icon(content: Seq<char>, appid: Seq<char>) -> Option<Seq<char>> {
    if contains(content, "URL=steam://rungameid/"@ + appid) {
        first_icon_file(lines(content))
    } else {
        None
    }
}

/// The icon path of the shortcut text `content`, when it launches `appid`
/// and names an acceptable icon.
pub fn icon_from_shortcut(content: &str, appid: &str) -> (r: Option<String>)
    ensures
        match shortcut_icon(content@, appid@) {
            Some(p) => (r matches Some(s) && s@ == p),
            None => r is None,
        },
{
    let cs = chars_of(content);
    let mut target = chars_of("URL=steam://rungameid/");
    let id = chars_of(appid);
    let mut k: usize = 0;
    let ghost t0 = target@;
    while k < id.len()
        invariant
            k <= id@.len(),
            target@ == t0 + id@.take(k as int),
        decreases id@.len() - k,
    {
        target.push(id[k]);
        assert(id@.take(k + 1) =~= id@.take(k as int).push(id@[k as int]));
        k = k + 1;
    }
    assert(id@.take(id@.len() as int) =~= id@);
    if !contains_chars(&cs, &target) {
        return None;
    }
    let ls = lines_of(&cs);
    let ghost all = views_of(ls@);
    let key = chars_of("IconFile=");
    proof {
        reveal_strlit("IconFile=");
        assert(key@.len() > 0);
    }
    let mut i: usize = 0;
    assert(all.skip(0) =~= all);
    while i < ls.len()
        invariant
            i <= ls@.len(),
            all == views_of(ls@),
            all == lines(content@),
            key@ == "IconFile="@,
            key@.len() > 0,
            shortcut_icon(content@, appid@) == first_icon_file(all.skip(i as int)),
        decreases ls@.len() - i,
    {
        let ghost rest = all.skip(i as int);
        assert(rest[0] == ls@[i as int]@);
        assert(rest.drop_first() =~= all.skip(i + 1));
        let line = ls[i].as_slice();
        if starts_with_chars(line, &key) {
            let stripped = strip_leading_chars(line, &key);
            let icon = trim_chars(&stripped);
            let icon_str = string_of(&icon);
            if validate_icon_path(icon_str.as_str()).is_ok() {
                return Some(icon_str);
            }
        }
        i = i + 1;
    }
    None
}



/// A folder that may hold Steam's `.url` shortcuts: a base directory read
/// from the environment and the path components to join below it.
pub struct ShortcutDir {
    pub base: String,
    pub components: Vec<String>,
}

/// A shortcut folder as plain values.
pub open spec fn shortcut_dir_view(d: ShortcutDir) -> (Seq<char>, Seq<Seq<char>>) {
    (d.base@, d.components.deep_view())
}

/// `Microsoft\Windows\Start Menu\Programs\Steam`, as components.
pub open spec fn start_menu_steam() -> Seq<Seq<char>> {
    seq!["Microsoft"@, "Windows"@, "Start Menu"@, "Programs"@, "Steam"@]
}

/// The shortcut folders below one base directory, with their components.
pub open spec fn below(base: Seq<char>, parts: Seq<Seq<Seq<char>>>) -> Seq<(Seq<char>, Seq<Seq<char>>)> {
    parts.map_values(|c: Seq<Seq<char>>| (base, c))
}

/// The folders searched for shortcuts, in order, given the `PUBLIC`,
/// `USERPROFILE` and `ProgramData` directories where they are set: the two
/// desktops (English and Japanese names) of the public profile; the two
/// desktops, the two OneDrive desktops and the Steam start-menu folder of the
/// user; the Steam start-menu folder shared by all users.
pub open spec fn shortcut_dirs(
    public: Option<Seq<char>>,
    profile: Option<Seq<char>>,
    program_data: Option<Seq<char>>,
) -> Seq<(Seq<char>, Seq<Seq<char>>)> {
    (match public {
        Some(p) => below(p, seq![seq!["Desktop"@], seq!["デスクトップ"@]]),
        None => seq![],
    }) + (match profile {
        Some(u) => below(
            u,
            seq![
                seq!["Desktop"@],
                seq!["デスクトップ"@],
                seq!["OneDrive"@, "Desktop"@],
                seq!["OneDrive"@, "デスクトップ"@],
                seq!["AppData"@, "Roaming"@] + start_menu_steam(),
            ],
        ),
        None => seq![],
    }) + (match program_data {
        Some(d) => below(d, seq![start_menu_steam()]),
        None => seq![],
    })
}

/// An optional string as its characters.
pub open spec fn opt_chars(o: Option<&str>) -> Option<Seq<char>> {
    match o {
        Some(s) => Some(s@),
        None => None,
    }
}

fn push_dir(dirs: &mut Vec<ShortcutDir>, base: &str, parts: &[&str])
    ensures
        final(dirs)@.map_values(|d: ShortcutDir| shortcut_dir_view(d)) == old(dirs)@.map_values(
            |d: ShortcutDir| shortcut_dir_view(d),
        ).push((base@, parts@.map_values(|s: &str| s@))),
{
    let mut components: Vec<String> = Vec::new();
    let mut i: usize = 0;
    while i < parts.len()
        invariant
            i <= parts@.len(),
            components@.len() == i,
            components.deep_view() == parts@.take(i as int).map_values(|s: &str| s@),
        decreases parts@.len() - i,
    {
        let ghost prev = components@;
        let ghost prev_dv = components.deep_view();
        let item = String::from_str(parts[i]);
        let ghost iv = item@;
        components.push(item);
        assert forall|j: int| 0 <= j < i + 1 implies #[trigger] components.deep_view()[j]
            == parts@.take(i + 1).map_values(|s: &str| s@)[j] by {
            if j < i {
                assert(components@[j] == prev[j]);
                assert(prev_dv[j] == prev[j]@);
                assert(prev_dv[j] == parts@.take(i as int).map_values(|s: &str| s@)[j]);
                assert(prev_dv[j] == parts@[j]@);
            } else {
                assert(components@[j]@ == iv);
                assert(iv == parts@[j]@);
            }
        }
        assert(components.deep_view() =~= parts@.take(i + 1).map_values(|s: &str| s@));
        i = i + 1;
    }
    assert(parts@.take(parts@.len() as int) =~= parts@);
    let ghost before = dirs@;
    dirs.push(ShortcutDir { base: String::from_str(base), components });
    assert(dirs@.map_values(|d: ShortcutDir| shortcut_dir_view(d)) =~= before.map_values(
        |d: ShortcutDir| shortcut_dir_view(d),
    ).push((base@, parts@.map_values(|s: &str| s@))));
}

/// The folders to search for a game's shortcuts, given the `PUBLIC`,
/// `USERPROFILE` and `ProgramData` environment values that are set.
pub fn shortcut_search_dirs(public: Option<&str>, profile: Option<&str>, program_data: Option<&str>) -> (r: Vec<ShortcutDir>)
    ensures
        r@.map_values(|d: ShortcutDir| shortcut_dir_view(d)) == shortcut_dirs(
            opt_chars(public),
            opt_chars(profile),
            opt_chars(program_data),
        ),
{
    let mut dirs: Vec<ShortcutDir> = Vec::new();
    let ghost v = |s: &str| s@;
    let desktop = ["Desktop"];
    let desktop_ja = ["デスクトップ"];
    let one_drive = ["OneDrive", "Desktop"];
    let one_drive_ja = ["OneDrive", "デスクトップ"];
    let roaming_steam = ["AppData", "Roaming", "Microsoft", "Windows", "Start Menu", "Programs", "Steam"];
    let menu_steam = ["Microsoft", "Windows", "Start Menu", "Programs", "Steam"];
    assert(desktop@.map_values(v) =~= seq!["Desktop"@]);
    assert(desktop_ja@.map_values(v) =~= seq!["デスクトップ"@]);
    assert(one_drive@.map_values(v) =~= seq!["OneDrive"@, "Desktop"@]);
    assert(one_drive_ja@.map_values(v) =~= seq!["OneDrive"@, "デスクトップ"@]);
    assert(roaming_steam@.map_values(v) =~= seq!["AppData"@, "Roaming"@] + start_menu_steam());
    assert(menu_steam@.map_values(v) =~= start_menu_steam());
    if let Some(p) = public {
        push_dir(&mut dirs, p, &desktop);
        push_dir(&mut dirs, p, &desktop_ja);
    }
    if let Some(u) = profile {
        push_dir(&mut dirs, u, &desktop);
        push_dir(&mut dirs, u, &desktop_ja);
        push_dir(&mut dirs, u, &one_drive);
        push_dir(&mut dirs, u, &one_drive_ja);
        push_dir(&mut dirs, u, &roaming_steam);
    }
    if let Some(d) = program_data {
        push_dir(&mut dirs, d, &menu_steam);
    }
    assert(dirs@.map_values(|d: ShortcutDir| shortcut_dir_view(d)) =~= shortcut_dirs(
        opt_chars(public),
        opt_chars(profile),
        opt_chars(program_data),
    ));
    dirs
}

/// A cached artwork file to look for: in the game's own cache directory
/// (`librarycache/{appid}`) or in `librarycache` itself, with the MIME
/// subtype it is served as.
pub struct ImageCandidate {
    pub in_app_dir: bool,
    pub file_name: String,
    pub mime: String,
}

/// The cached artwork files, in the order they are preferred.
pub open spec fn cache_candidates(appid: Seq<char>) -> Seq<(bool, Seq<char>, Seq<char>)> {
    seq![
        (true, "library_600x900.jpg"@, "jpeg"@),
        (true, "header.jpg"@, "jpeg"@),
        (true, "library_header.jpg"@, "jpeg"@),
        (true, "logo.png"@, "png"@),
        (false, appid + "_library_600x900.jpg"@, "jpeg"@),
        (false, appid + "_header.jpg"@, "jpeg"@),
        (false, appid + "_library_header.jpg"@, "jpeg"@),
    ]
}

/// The cached artwork tried for a game, stated as the files: in the game's
/// own cache directory `library_600x900.jpg`, `header.jpg` and
/// `library_header.jpg` (JPEG) then `logo.png` (PNG); then in the cache
/// itself the same three JPEG names prefixed with the AppID and `_`.
pub proof fn lemma_cache_candidates_law(appid: Seq<char>)
    ensures
        cache_candidates(appid).len() == 7,
        cache_candidates(appid)[0] == (true, "library_600x900.jpg"@, "jpeg"@),
        cache_candidates(appid)[1] == (true, "header.jpg"@, "jpeg"@),
        cache_candidates(appid)[2] == (true, "library_header.jpg"@, "jpeg"@),
        cache_candidates(appid)[3] == (true, "logo.png"@, "png"@),
        cache_candidates(appid)[4] == (false, appid + "_library_600x900.jpg"@, "jpeg"@),
        cache_candidates(appid)[5] == (false, appid + "_header.jpg"@, "jpeg"@),
        cache_candidates(appid)[6] == (false, appid + "_library_header.jpg"@, "jpeg"@),
{
}

fn candidate(in_app_dir: bool, prefix: &str, name: &str, mime: &str) -> (r: ImageCandidate)
    ensures
        r.in_app_dir == in_app_dir,
        r.file_name@ == prefix@ + name@,
        r.mime@ == mime@,
{
    let mut file_name = String::from_str(prefix);
    file_name.append(name);
    ImageCandidate { in_app_dir, file_name, mime: String::from_str(mime) }
}

/// The cached artwork files of a game, most preferred first.
pub fn cache_image_candidates(appid: &str) -> (r: Vec<ImageCandidate>)
    ensures
        r@.len() == cache_candidates(appid@).len(),
        forall|i: int|
            0 <= i < r@.len() ==> (#[trigger] r@[i]).in_app_dir == cache_candidates(appid@)[i].0
                && r@[i].file_name@ == cache_candidates(appid@)[i].1 && r@[i].mime@
                == cache_candidates(appid@)[i].2,
{
    let mut r = Vec::new();
    r.push(candidate(true, "", "library_600x900.jpg", "jpeg"));
    r.push(candidate(true, "", "header.jpg", "jpeg"));
    r.push(candidate(true, "", "library_header.jpg", "jpeg"));
    r.push(candidate(true, "", "logo.png", "png"));
    r.push(candidate(false, appid, "_library_600x900.jpg", "jpeg"));
    r.push(candidate(false, appid, "_header.jpg", "jpeg"));
    r.push(candidate(false, appid, "_library_header.jpg", "jpeg"));
    proof {
        reveal_strlit("");
        assert(""@ + "library_600x900.jpg"@ =~= "library_600x900.jpg"@);
        assert(""@ + "header.jpg"@ =~= "header.jpg"@);
        assert(""@ + "library_header.jpg"@ =~= "library_header.jpg"@);
        assert(""@ + "logo.png"@ =~= "logo.png"@);
    }
    r
}

/// The `data:` URI of a cached artwork file: only files of more than 16
/// bytes are taken.
pub fn cached_image_data_uri(mime: &str, data: &[u8]) -> (r: Option<String>)
    requires
        data@.len() <= isize::MAX,
    ensures
        data@.len() > 16 ==> (r matches Some(s) && s@ == data_uri(mime@, data@)),
        data@.len() <= 16 ==> r is None,
{
    if data.len() > 16 {
        Some(image_data_uri(mime, data))
    } else {
        None
    }
}

pub open spec fn is_hex_digit(c: char) -> bool {
    ('0' <= c && c <= '9') || ('a' <= c && c <= 'f') || ('A' <= c && c <= 'F')
}

/// A cache file named by a 40-digit hexadecimal hash with a `.jpg` ending.
pub open spec fn is_hashed_image_name(name: Seq<char>) -> bool {
    &&& name.len() == 44
    &&& name.subrange(40, 44) == ".jpg"@
    &&& forall|i: int| 0 <= i < 40 ==> is_hex_digit(#[trigger] name[i])
}

/// Whether a file of a game's cache directory is a hash-named JPEG.  (A name
/// of 44 characters with these 44 ASCII characters is exactly a name of 44
/// bytes that ends in `.jpg` after 40 hexadecimal bytes.)
pub fn hashed_image_name(name: &str) -> (r: bool)
    ensures
        r == is_hashed_image_name(name@),
{
    let cs = chars_of(name);
    if cs.len() != 44 {
        return false;
    }
    let jpg = chars_of(".jpg");
    if !chars_eq(&cs[40..44], &jpg) {
        return false;
    }
    let mut i: usize = 0;
    while i < 40
        invariant
            cs@ == name@,
            cs@.len() == 44,
            i <= 40,
            forall|k: int| 0 <= k < i ==> is_hex_digit(#[trigger] cs@[k]),
        decreases 40 - i,
    {
        let c = cs[i];
        if !(('0' <= c && c <= '9') || ('a' <= c && c <= 'f') || ('A' <= c && c <= 'F')) {
            return false;
        }
        i = i + 1;
    }
    true
}

/// The MIME subtype of an icon named by a shortcut: from its lower-cased
/// extension (`ico` when it has none).
pub open spec fn shortcut_icon_mime(path: Seq<char>) -> Seq<char> {
    let e = lowercase(
        match extension(path) {
            Some(e) => e,
            None => "ico"@,
        },
    );
    if e == "png"@ {
        "png"@
    } else if e == "jpg"@ || e == "jpeg"@ {
        "jpeg"@
    } else {
        "x-icon"@
    }
}

/// The MIME subtype an icon file named by a shortcut is served as.
pub fn shortcut_icon_mime_of(path: &str) -> (r: String)
    ensures
        r@ == shortcut_icon_mime(path@),
{
    let cs = chars_of(path);
    let ext = match extension_of(&cs) {
        Some(e) => string_of(&e),
        None => String::from_str("ico"),
    };
    let low_str = to_lowercase(ext.as_str());
    let low = chars_of(low_str.as_str());
    let png = chars_of("png");
    let jpg = chars_of("jpg");
    let jpeg = chars_of("jpeg");
    if chars_eq(&low, &png) {
        String::from_str("png")
    } else if chars_eq(&low, &jpg) || chars_eq(&low, &jpeg) {
        String::from_str("jpeg")
    } else {
        String::from_str("x-icon")
    }
}

/// A directory entry that is a Steam app manifest: extension exactly `acf`.
pub fn is_app_manifest(path: &str) -> (r: bool)
    ensures
        r == (extension(path@) == Some("acf"@)),
{
    let cs = chars_of(path);
    let acf = chars_of("acf");
    match extension_of(&cs) {
        Some(e) => chars_eq(&e, &acf),
        None => false,
    }
}

/// A directory entry that is an internet shortcut: extension exactly `url`.
pub fn is_url_shortcut(path: &str) -> (r: bool)
    ensures
        r == (extension(path@) == Some("url"@)),
{
    let cs = chars_of(path);
    let url = chars_of("url");
    match extension_of(&cs) {
        Some(e) => chars_eq(&e, &url),
        None => false,
    }
}


/// Which AppIDs are accepted, stated on the text: exactly the non-empty ones
/// made of ASCII digits only; an empty one and any other are refused with
/// their messages.
pub proof fn lemma_appid_law(appid: Seq<char>)
    ensures
        appid_error(appid) is None <==> (appid.len() > 0 && forall|i: int|
            0 <= i < appid.len() ==> '0' <= #[trigger] appid[i] && appid[i] <= '9'),
        appid.len() == 0 ==> appid_error(appid) == Some("AppIDが空です"@),
        (appid.len() > 0 && exists|i: int|
            0 <= i < appid.len() && !('0' <= #[trigger] appid[i] && appid[i] <= '9')) ==> appid_error(appid)
            == Some("AppIDは数字のみで構成されるべきです (不正改造の可能性): '"@ + appid + "'"@),
{
}

/// Which icon paths are accepted, stated on the text: exactly the non-empty
/// ones with no `..` and no NUL character.
pub proof fn lemma_icon_path_law(p: Seq<char>)
    ensures
        icon_path_ok(p) <==> (p.len() > 0 && !contains(p, ".."@) && forall|i: int|
            0 <= i < p.len() ==> #[trigger] p[i] != '\0'),
{
    assert forall|i: int| 0 <= i < p.len() && p[i] == '\0' implies crate::text::occurs_at(
        p,
        seq!['\0'],
        i,
    ) by {
        assert(p.subrange(i, i + 1) =~= seq!['\0']);
    }
    if contains(p, seq!['\0']) {
        let i = choose|i: int| crate::text::occurs_at(p, seq!['\0'], i);
        assert(p.subrange(i, i + 1)[0] == p[i]);
    }
}

/// Which cache file names are hash-named JPEGs, stated on the characters:
/// 44 of them, the first 40 ASCII hexadecimal digits and the last four
/// `.jpg`.
pub proof fn lemma_hashed_name_law(name: Seq<char>)
    ensures
        is_hashed_image_name(name) <==> (name.len() == 44 && name[40] == '.' && name[41] == 'j'
            && name[42] == 'p' && name[43] == 'g' && forall|i: int|
            0 <= i < 40 ==> (('0' <= #[trigger] name[i] && name[i] <= '9') || ('a' <= name[i]
                && name[i] <= 'f') || ('A' <= name[i] && name[i] <= 'F'))),
{
    reveal_strlit(".jpg");
    if name.len() == 44 {
        let t = name.subrange(40, 44);
        assert(t[0] == name[40] && t[1] == name[41] && t[2] == name[42] && t[3] == name[43]);
        if name[40] == '.' && name[41] == 'j' && name[42] == 'p' && name[43] == 'g' {
            assert(t =~= ".jpg"@);
        }
    }
}

/// The MIME subtype of a shortcut's icon depends on its file only through
/// the lower-cased extension (`ico` when there is none): `png` gives `png`,
/// `jpg` and `jpeg` give `jpeg`, anything else `x-icon`.
pub proof fn lemma_shortcut_icon_mime_law(p: Seq<char>, q: Seq<char>)
    ensures
        lowercase(
            match extension(p) {
                Some(e) => e,
                None => "ico"@,
            },
        ) == lowercase(
            match extension(q) {
                Some(e) => e,
                None => "ico"@,
            },
        ) ==> shortcut_icon_mime(p) == shortcut_icon_mime(q),
        lowercase(
            match extension(p) {
                Some(e) => e,
                None => "ico"@,
            },
        ) == "png"@ ==> shortcut_icon_mime(p) == "png"@,
        (lowercase(
            match extension(p) {
                Some(e) => e,
                None => "ico"@,
            },
        ) == "jpg"@ || lowercase(
            match extension(p) {
                Some(e) => e,
                None => "ico"@,
            },
        ) == "jpeg"@) ==> shortcut_icon_mime(p) == "jpeg"@,
        (lowercase(
            match extension(p) {
                Some(e) => e,
                None => "ico"@,
            },
        ) != "png"@ && lowercase(
            match extension(p) {
                Some(e) => e,
                None => "ico"@,
            },
        ) != "jpg"@ && lowercase(
            match extension(p) {
                Some(e) => e,
                None => "ico"@,
            },
        ) != "jpeg"@) ==> shortcut_icon_mime(p) == "x-icon"@,
{
    reveal_strlit("png");
    reveal_strlit("jpg");
    reveal_strlit("jpeg");
    assert("png"@[0] != "jpg"@[0]);
}

/// A shortcut gives an icon only when it launches the game and the icon
/// path is acceptable.
pub proof fn lemma_shortcut_icon_law(content: Seq<char>, appid: Seq<char>)
    ensures
        shortcut_icon(content, appid) matches Some(p) ==> contains(
            content,
            "URL=steam://rungameid/"@ + appid,
        ) && p.len() > 0 && !contains(p, ".."@) && !contains(p, seq!['\0']),
        !contains(content, "URL=steam://rungameid/"@ + appid) ==> shortcut_icon(content, appid) is None,
{
    lemma_first_icon_file_ok(lines(content));
}

proof fn lemma_first_icon_file_ok(ls: Seq<Seq<char>>)
    ensures
        first_icon_file(ls) matches Some(p) ==> icon_path_ok(p),
    decreases ls.len(),
{
    if ls.len() > 0 {
        lemma_first_icon_file_ok(ls.drop_first());
    }
}

proof fn lemma_filter_last(s: Seq<Seq<char>>, pred: spec_fn(Seq<char>) -> bool)
    requires
        s.filter(pred).len() > 0,
    ensures
        exists|i: int|
            0 <= i < s.len() && s[i] == s.filter(pred).last() && pred(s[i]) && forall|j: int|
                i < j < s.len() ==> !pred(#[trigger] s[j]),
    decreases s.len(),
{
    reveal(Seq::filter);
    if s.len() > 0 {
        let init = s.drop_last();
        if pred(s.last()) {
            assert(s.filter(pred) == init.filter(pred).push(s.last()));
            assert(s[s.len() - 1] == s.filter(pred).last());
        } else {
            assert(s.filter(pred) == init.filter(pred));
            lemma_filter_last(init, pred);
            let i = choose|i: int|
                0 <= i < init.len() && init[i] == init.filter(pred).last() && pred(init[i]) && forall|j: int|
                    i < j < init.len() ==> !pred(#[trigger] init[j]);
            assert(s[i] == init[i]);
            assert forall|j: int| i < j < s.len() implies !pred(#[trigger] s[j]) by {
                if j < s.len() - 1 {
                    assert(s[j] == init[j]);
                }
            }
        }
    }
}

/// A manifest value, stated on the line's pieces between double quotes: it
/// is the last piece that is not blank, and a line has a value exactly when
/// at least two of its pieces are not blank.
pub proof fn lemma_line_value_law(line: Seq<char>)
    ensures
        line_value(line) matches Some(v) ==> exists|i: int|
            0 <= i < split_by(line, seq!['"']).len() && split_by(line, seq!['"'])[i] == v && !is_blank(v)
                && forall|j: int|
                i < j < split_by(line, seq!['"']).len() ==> is_blank(
                    #[trigger] split_by(line, seq!['"'])[j],
                ),
        line_value(line) is Some <==> split_by(line, seq!['"']).filter(|p: Seq<char>| !is_blank(p)).len()
            >= 2,
{
    let parts = split_by(line, seq!['"']);
    let pred = |p: Seq<char>| !is_blank(p);
    if line_value(line) is Some {
        lemma_filter_last(parts, pred);
    }
}

/// A manifest value is never blank.
pub proof fn lemma_line_value_not_blank(line: Seq<char>)
    ensures
        line_value(line) matches Some(v) ==> !is_blank(v),
{
    broadcast use vstd::seq_lib::group_filter_ensures;

    let v = value_pieces(line);
    if v.len() >= 2 {
        let pred = |p: Seq<char>| !is_blank(p);
        assert(pred(v[v.len() - 1]));
    }
}

proof fn lemma_split_pieces_lack(s: Seq<char>, c: char)
    ensures
        forall|k: int, j: int|
            0 <= k < split_by(s, seq![c]).len() && 0 <= j < split_by(s, seq![c])[k].len()
                ==> #[trigger] split_by(s, seq![c])[k][j] != c,
    decreases s.len(),
{
    let p = seq![c];
    crate::text::lemma_first_match(s, p);
    let i = crate::text::first_match(s, p);
    assert forall|k: int| 0 <= k < s.len() && s[k] == c implies crate::text::occurs_at(s, p, k) by {
        assert(s.subrange(k, k + 1) =~= p);
    }
    if i >= 0 {
        let rest = s.subrange(i + 1, s.len() as int);
        lemma_split_pieces_lack(rest, c);
        let parts = split_by(s, p);
        assert(parts == seq![s.subrange(0, i)] + split_by(rest, p));
        assert forall|k: int, j: int|
            0 <= k < parts.len() && 0 <= j < parts[k].len() implies #[trigger] parts[k][j] != c by {
            if k == 0 {
                assert(parts[0][j] == s[j]);
            } else {
                assert(parts[k] == split_by(rest, p)[k - 1]);
            }
        }
    }
}

/// A manifest value never holds a double quote.
pub proof fn lemma_line_value_no_quote(line: Seq<char>)
    ensures
        line_value(line) matches Some(v) ==> forall|j: int| 0 <= j < v.len() ==> v[j] != '"',
{
    let parts = split_by(line, seq!['"']);
    let pred = |p: Seq<char>| !is_blank(p);
    let v = value_pieces(line);
    if v.len() >= 2 {
        assert(v.contains(v[v.len() - 1]));
        parts.lemma_filter_contains_rev(pred, v[v.len() - 1]);
        assert(parts.contains(v[v.len() - 1]));
        let k = choose|k: int| 0 <= k < parts.len() && parts[k] == v[v.len() - 1];
        lemma_split_pieces_lack(line, '"');
        assert forall|j: int| 0 <= j < v.last().len() implies v.last()[j] != '"' by {
            assert(parts[k][j] != '"');
        }
    }
}

/// The name a manifest line gives: its value, when its trimmed, lower-cased
/// text starts with `"name"` and it has one.
pub open spec fn line_name(l: Seq<char>) -> Option<Seq<char>> {
    if starts_with(lowercase(trim(l)), "\"name\""@) {
        line_value(trim(l))
    } else {
        None
    }
}

/// The AppID a manifest line gives: its value, when its trimmed, lower-cased
/// text starts with `"appid"` (and not `"name"`) and it has one.
pub open spec fn line_appid(l: Seq<char>) -> Option<Seq<char>> {
    if !starts_with(lowercase(trim(l)), "\"name\""@) && starts_with(
        lowercase(trim(l)),
        "\"appid\""@,
    ) {
        line_value(trim(l))
    } else {
        None
    }
}

/// The last name the lines give, empty when none does.
pub open spec fn last_name(ls: Seq<Seq<char>>) -> Seq<char>
    decreases ls.len(),
{
    if ls.len() == 0 {
        Seq::empty()
    } else {
        match line_name(ls.last()) {
            Some(v) => v,
            None => last_name(ls.drop_last()),
        }
    }
}

/// The last AppID the lines give, empty when none does.
pub open spec fn last_appid(ls: Seq<Seq<char>>) -> Seq<char>
    decreases ls.len(),
{
    if ls.len() == 0 {
        Seq::empty()
    } else {
        match line_appid(ls.last()) {
            Some(v) => v,
            None => last_appid(ls.drop_last()),
        }
    }
}

/// The lines give both a name and an AppID.
pub open spec fn both_known(ls: Seq<Seq<char>>) -> bool {
    last_name(ls).len() > 0 && last_appid(ls).len() > 0
}

proof fn lemma_scan_from(ls: Seq<Seq<char>>, j: int)
    requires
        0 <= j <= ls.len(),
        forall|i: int| 0 <= i <= j ==> !both_known(#[trigger] ls.take(i)),
    ensures
        acf_scan(ls.skip(j), last_name(ls.take(j)), last_appid(ls.take(j))) matches Some((n, a))
            ==> exists|k: int|
            j < k <= ls.len() && both_known(#[trigger] ls.take(k)) && (forall|i: int|
                0 <= i < k ==> !both_known(#[trigger] ls.take(i))) && n == last_name(ls.take(k)) && a
                == last_appid(ls.take(k)),
        acf_scan(ls.skip(j), last_name(ls.take(j)), last_appid(ls.take(j))) is None ==> forall|k: int|
            0 <= k <= ls.len() ==> !both_known(#[trigger] ls.take(k)),
    decreases ls.len() - j,
{
    if j == ls.len() {
        assert(ls.skip(j).len() == 0);
        assert forall|k: int| 0 <= k <= ls.len() implies !both_known(#[trigger] ls.take(k)) by {
        }
    } else {
        let t1 = ls.take(j + 1);
        assert(t1.drop_last() =~= ls.take(j));
        assert(t1.last() == ls[j]);
        let rest = ls.skip(j);
        assert(rest[0] == ls[j]);
        assert(rest.drop_first() =~= ls.skip(j + 1));
        lemma_line_value_not_blank(trim(ls[j]));
        if let Some(v) = line_name(ls[j]) {
            assert(v.len() > 0);
        }
        if let Some(v) = line_appid(ls[j]) {
            assert(v.len() > 0);
        }
        assert(acf_step(ls[j], last_name(ls.take(j)), last_appid(ls.take(j))) == (
            last_name(t1),
            last_appid(t1),
        ));
        if !both_known(t1) {
            assert forall|i: int| 0 <= i <= j + 1 implies !both_known(#[trigger] ls.take(i)) by {
            }
            lemma_scan_from(ls, j + 1);
        }
    }
}

/// What `parse_acf_content` finds, stated without the scan: a game exactly
/// when some first lines of the text give both a name and an AppID; then,
/// for the shortest such first lines, the last name and AppID they give.
pub proof fn lemma_acf_fields_law(contents: Seq<char>)
    ensures
        acf_fields(contents) matches Some((n, a)) ==> exists|k: int|
            1 <= k <= lines(contents).len() && both_known(#[trigger] lines(contents).take(k)) && (
            forall|i: int| 0 <= i < k ==> !both_known(#[trigger] lines(contents).take(i))) && n
                == last_name(lines(contents).take(k)) && a == last_appid(lines(contents).take(k)),
        acf_fields(contents) is None <==> forall|k: int|
            0 <= k <= lines(contents).len() ==> !both_known(#[trigger] lines(contents).take(k)),
{
    let ls = lines(contents);
    assert(ls.take(0) =~= Seq::<Seq<char>>::empty());
    assert(ls.skip(0) =~= ls);
    assert forall|i: int| 0 <= i <= 0 implies !both_known(#[trigger] ls.take(i)) by {
        assert(ls.take(i) =~= Seq::<Seq<char>>::empty());
    }
    lemma_scan_from(ls, 0);
    if acf_fields(contents) is Some {
        let (n, a) = acf_fields(contents).unwrap();
        let k = choose|k: int|
            0 < k <= ls.len() && both_known(#[trigger] ls.take(k)) && (forall|i: int|
                0 <= i < k ==> !both_known(#[trigger] ls.take(i))) && n == last_name(ls.take(k)) && a
                == last_appid(ls.take(k));
        assert(both_known(ls.take(k)));
    }
}

/// A manifest scan ends with a non-empty name and AppID, or with nothing.
pub proof fn lemma_acf_scan_nonempty(ls: Seq<Seq<char>>, name: Seq<char>, appid: Seq<char>)
    ensures
        acf_scan(ls, name, appid) matches Some((n, a)) ==> n.len() > 0 && a.len() > 0,
    decreases ls.len(),
{
    if ls.len() > 0 {
        let (n2, a2) = acf_step(ls[0], name, appid);
        lemma_acf_scan_nonempty(ls.drop_first(), n2, a2);
    }
}

/// A game read from a manifest has a name and an AppID, and its artwork URL
/// holds the AppID.
pub proof fn lemma_acf_fields_shape(contents: Seq<char>)
    ensures
        acf_fields(contents) matches Some((n, a)) ==> n.len() > 0 && a.len() > 0 && contains(
            header_image_url(a),
            a,
        ),
{
    lemma_acf_scan_nonempty(lines(contents), Seq::empty(), Seq::empty());
    if let Some((n, a)) = acf_fields(contents) {
        let pre = "https://shared.akamai.steamstatic.com/store_item_assets/steam/apps/"@;
        assert(header_image_url(a).subrange(pre.len() as int, (pre.len() + a.len()) as int) =~= a);
        assert(crate::text::occurs_at(header_image_url(a), a, pre.len() as int));
    }
}

/// A launch URI is `steam://run/` followed by digits only, so nothing after
/// the scheme's path can be injected.
pub proof fn lemma_launch_url_digits(appid: Seq<char>)
    requires
        appid.len() > 0,
        all_ascii_digits(appid),
    ensures
        forall|i: int|
            "steam://run/"@.len() <= i < ("steam://run/"@ + appid).len() ==> '0' <= #[trigger] (
            "steam://run/"@ + appid)[i] <= '9',
{
    assert forall|i: int|
        "steam://run/"@.len() <= i < ("steam://run/"@ + appid).len() implies '0' <= #[trigger] (
        "steam://run/"@ + appid)[i] <= '9' by {
        assert(("steam://run/"@ + appid)[i] == appid[i - "steam://run/"@.len()]);
    }
}

} // verus!
