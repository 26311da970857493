//! Games and applications added by hand: their records, the checks on the
//! program path, naming, and the list operations (add, remove, launch).

use crate::paths::{extension, extension_of, file_stem, file_stem_of};
use crate::text::{
    chars_eq, chars_of, contains, contains_chars, decimal, decimal_string, is_blank,
    is_blank_chars, lowercase, string_of, to_lowercase, trim, trim_chars,
};
use vstd::prelude::*;

verus! {

/// A program added by hand.  `category` is `"game"` (listed with the games)
/// or `"app"` (listed with the applications).
#[derive(Debug, PartialEq, Clone)]
pub struct ManualGame {
    pub id: String,
    pub name: String,
    pub exe_path: String,
    pub category: String,
}

/// The category of a record saved before categories existed.
pub fn default_category() -> (r: String)
    ensures
        r@ == "game"@,
{
    String::from_str("game")
}

/// The category a requested one is stored as.
pub open spec fn normalized_category(c: Seq<char>) -> Seq<char> {
    if c == "app"@ {
        "app"@
    } else {
        "game"@
    }
}

/// Keeps `"app"` and turns every other category into `"game"`.
pub fn normalize_category(category: &str) -> (r: String)
    ensures
        r@ == normalized_category(category@),
{
    let cs = chars_of(category);
    let app = chars_of("app");
    if chars_eq(&cs, &app) {
        String::from_str("app")
    } else {
        default_category()
    }
}

/// Normalizing twice changes nothing, and the result is one of the two
/// categories.
pub proof fn lemma_normalized_category_idempotent(c: Seq<char>)
    ensures
        normalized_category(normalized_category(c)) == normalized_category(c),
        normalized_category(c) == "app"@ || normalized_category(c) == "game"@,
{
}

/// The stored category, stated on the request: `app` exactly when `app`
/// was asked for (letter case counts), `game` for everything else.
pub proof fn lemma_category_law(c: Seq<char>)
    ensures
        normalized_category(c) == "app"@ <==> c == "app"@,
        normalized_category(c) == "game"@ <==> c != "app"@,
{
    reveal_strlit("app");
    reveal_strlit("game");
    assert("app"@.len() != "game"@.len());
}

/// Extensions of the programs that may be launched.
pub open spec fn launchable_extension(e: Seq<char>) -> bool {
    e == "exe"@ || e == "lnk"@ || e == "bat"@ || e == "cmd"@ || e == "url"@
}

/// Why `validate_exe_path` refuses a path, if it does.
pub open spec fn exe_path_error(p: Seq<char>) -> Option<Seq<char>> {
    if is_blank(p) {
        Some("実行ファイルパスが空です"@)
    } else if contains(p, ".."@) {
        Some("パスに '..' が含まれており、パストラバーサルの可能性があります: '"@ + p + "'"@)
    } else if contains(p, seq!['\0']) {
        Some("パスにNULバイトが含まれています"@)
    } else if extension(p) matches Some(e) && launchable_extension(lowercase(e)) {
        None
    } else {
        Some("対応していない拡張子です（exe/lnk/bat/cmd/url のみ許可）: '"@ + p + "'"@)
    }
}

/// A path `validate_exe_path` accepts.
pub open spec fn exe_path_ok(p: Seq<char>) -> bool {
    exe_path_error(p) is None
}

/// Which program paths are accepted and with which message the others are
/// refused, stated on the path: accepted exactly when it is not blank, holds
/// no `..` and no NUL, and its extension, lower-cased, is `exe`, `lnk`,
/// `bat`, `cmd` or `url`; a blank path, one with `..`, one with a NUL and
/// one with another extension are refused in that order of checks.
pub proof fn lemma_exe_path_law(p: Seq<char>)
    ensures
        exe_path_error(p) is None <==> (!is_blank(p) && !contains(p, ".."@) && !contains(
            p,
            seq!['\0'],
        ) && (extension(p) matches Some(e) && (lowercase(e) == "exe"@ || lowercase(e) == "lnk"@
            || lowercase(e) == "bat"@ || lowercase(e) == "cmd"@ || lowercase(e) == "url"@))),
        is_blank(p) ==> exe_path_error(p) == Some("実行ファイルパスが空です"@),
        !is_blank(p) && contains(p, ".."@) ==> exe_path_error(p) == Some(
            "パスに '..' が含まれており、パストラバーサルの可能性があります: '"@ + p + "'"@,
        ),
        !is_blank(p) && !contains(p, ".."@) && contains(p, seq!['\0']) ==> exe_path_error(p)
            == Some("パスにNULバイトが含まれています"@),
        !is_blank(p) && !contains(p, ".."@) && !contains(p, seq!['\0']) && !(extension(p) matches Some(
            e,
        ) && (lowercase(e) == "exe"@ || lowercase(e) == "lnk"@ || lowercase(e) == "bat"@
            || lowercase(e) == "cmd"@ || lowercase(e) == "url"@)) ==> exe_path_error(p) == Some(
            "対応していない拡張子です（exe/lnk/bat/cmd/url のみ許可）: '"@ + p + "'"@,
        ),
{
}

/// Accepts the path of a program to launch: not blank, no `..`, no NUL, and
/// an `exe`, `lnk`, `bat`, `cmd` or `url` extension in any letter case.
pub fn validate_exe_path(path: &str) -> (r: Result<(), String>)
    ensures
        match exe_path_error(path@) {
            Some(m) => (r matches Err(e) && e@ == m),
            None => r is Ok,
        },
        r is Ok <==> (!is_blank(path@) && !contains(path@, ".."@) && !contains(
            path@,
            seq!['\0'],
        ) && (extension(path@) matches Some(e) && (lowercase(e) == "exe"@ || lowercase(e) == "lnk"@
            || lowercase(e) == "bat"@ || lowercase(e) == "cmd"@ || lowercase(e) == "url"@))),
{
    proof {
        lemma_exe_path_law(path@);
    }
    let cs = chars_of(path);
    if is_blank_chars(&cs) {
        return Err(String::from_str("実行ファイルパスが空です"));
    }
    let dots = chars_of("..");
    if contains_chars(&cs, &dots) {
        let mut e = String::from_str("パスに '..' が含まれており、パストラバーサルの可能性があります: '");
        e.append(path);
        e.append("'");
        return Err(e);
    }
    let nul = ['\0'];
    assert(nul@ == seq!['\0']);
    if contains_chars(&cs, &nul) {
        return Err(String::from_str("パスにNULバイトが含まれています"));
    }
    let ok = match extension_of(&cs) {
        Some(ext) => {
            let ext_str = string_of(&ext);
            let low_str = to_lowercase(ext_str.as_str());
            let low = chars_of(low_str.as_str());
            chars_eq(&low, &chars_of("exe")) || chars_eq(&low, &chars_of("lnk")) || chars_eq(
                &low,
                &chars_of("bat"),
            ) || chars_eq(&low, &chars_of("cmd")) || chars_eq(&low, &chars_of("url"))
        },
        None => false,
    };
    if ok {
        Ok(())
    } else {
        let mut e = String::from_str("対応していない拡張子です（exe/lnk/bat/cmd/url のみ許可）: '");
        e.append(path);
        e.append("'");
        Err(e)
    }
}

/// The list stored in a saved file, given what its JSON text decodes to: a
/// blank file holds no records; a decoding error is reported with a prefix.
pub fn manual_games_from_json(content: &str, decoded: Result<Vec<ManualGame>, String>) -> (r:
    Result<Vec<ManualGame>, String>)
    ensures
        is_blank(content@) ==> (r matches Ok(v) && v@.len() == 0),
        !is_blank(content@) ==> match decoded {
            Ok(v) => r == Ok::<Vec<ManualGame>, String>(v),
            Err(e) => (r matches Err(m) && m@ == "手動ゲームのJSONパースに失敗しました: "@ + e@),
        },
{
    let cs = chars_of(content);
    if is_blank_chars(&cs) {
        return Ok(Vec::new());
    }
    match decoded {
        Ok(v) => Ok(v),
        Err(e) => {
            let mut m = String::from_str("手動ゲームのJSONパースに失敗しました: ");
            m.append(e.as_str());
            Err(m)
        },
    }
}


/// The current time, as `SystemTime::now` reads it.
#[verifier::external_type_specification]
#[verifier::external_body]
pub struct ExSystemTime(std::time::SystemTime);

/// Calls `SystemTime::now`; nothing is claimed of the reading.
#[verifier::external_body]
fn system_time_now() -> std::time::SystemTime {
    std::time::SystemTime::now()
}

/// Calls `SystemTime::duration_since(UNIX_EPOCH)`, `None` when the clock
/// reads earlier than the epoch; nothing more is claimed.
#[verifier::external_body]
fn since_unix_epoch(t: &std::time::SystemTime) -> Option<std::time::Duration> {
    t.duration_since(std::time::UNIX_EPOCH).ok()
}

/// Calls `Duration::as_nanos`; nothing is claimed of the number.
#[verifier::external_body]
fn duration_as_nanos(d: &std::time::Duration) -> u128 {
    d.as_nanos()
}

/// The identifier made from a timestamp in nanoseconds.
pub open spec fn id_for(nanos: nat) -> Seq<char> {
    "manual_"@ + decimal(nanos)
}

/// An identifier, stated on its number: `manual_` followed by the number's
/// decimal digits.
pub proof fn lemma_id_for_law(nanos: nat)
    ensures
        id_for(nanos) == "manual_"@ + decimal(nanos),
        crate::text::starts_with(id_for(nanos), "manual_"@),
{
    let id = id_for(nanos);
    assert(id.subrange(0, "manual_"@.len() as int) =~= "manual_"@);
}

/// `manual_{nanos}`.
pub fn id_from_nanos(nanos: u128) -> (r: String)
    ensures
        r@ == id_for(nanos as nat),
{
    let mut r = String::from_str("manual_");
    let d = decimal_string(nanos);
    r.append(d.as_str());
    r
}

/// Nanoseconds since the Unix epoch by the clock, 0 when it is set before.
fn clock_nanos() -> u128 {
    let now = system_time_now();
    match since_unix_epoch(&now) {
        Some(d) => duration_as_nanos(&d),
        None => 0,
    }
}

/// A timestamp identifier: `manual_` and the nanoseconds since the Unix
/// epoch (0 when the clock is set before it).
pub fn generate_id() -> (r: String)
    ensures
        exists|n: nat| r@ == #[trigger] id_for(n),
{
    let nanos = clock_nanos();
    let r = id_from_nanos(nanos);
    assert(r@ == id_for(nanos as nat));
    r
}

/// Identifiers made at different instants differ.
pub proof fn lemma_ids_distinct(a: nat, b: nat)
    requires
        a != b,
    ensures
        id_for(a) != id_for(b),
{
    if id_for(a) == id_for(b) {
        let k = "manual_"@.len();
        assert(id_for(a).subrange(k as int, id_for(a).len() as int) =~= decimal(a));
        assert(id_for(b).subrange(k as int, id_for(b).len() as int) =~= decimal(b));
        crate::text::lemma_decimal_injective(a, b);
    }
}

/// The name a new record gets: the trimmed name given, or else the file
/// stem of its program (`Unknown` when there is none).
pub open spec fn display_name(name: Seq<char>, exe_path: Seq<char>) -> Seq<char> {
    if is_blank(name) {
        match file_stem(exe_path) {
            Some(s) => s,
            None => "Unknown"@,
        }
    } else {
        trim(name)
    }
}

/// The name a new record gets.
pub fn display_name_of(name: &str, exe_path: &str) -> (r: String)
    ensures
        r@ == display_name(name@, exe_path@),
{
    let cs = chars_of(name);
    let t = trim_chars(&cs);
    if t.len() == 0 {
        let p = chars_of(exe_path);
        match file_stem_of(&p) {
            Some(stem) => string_of(&stem),
            None => String::from_str("Unknown"),
        }
    } else {
        string_of(&t)
    }
}

/// The record carries an identifier `manual_{n}` for a timestamp `n`.
pub open spec fn timestamp_id(g: ManualGame) -> bool {
    exists|n: nat| g.id@ == #[trigger] id_for(n)
}

/// The record's identifier is `manual_{m}` for some `m` at least `n`.
pub open spec fn numbered_from(g: ManualGame, n: nat) -> bool {
    exists|m: nat| m >= n && g.id@ == #[trigger] id_for(m)
}

/// How many records have an identifier `manual_{m}` with `m` at least `n`.
pub open spec fn count_numbered_from(gs: Seq<ManualGame>, n: nat) -> nat
    decreases gs.len(),
{
    if gs.len() == 0 {
        0
    } else {
        count_numbered_from(gs.drop_last(), n) + if numbered_from(gs.last(), n) {
            1nat
        } else {
            0nat
        }
    }
}

proof fn lemma_count_numbered(gs: Seq<ManualGame>, n: nat)
    ensures
        count_numbered_from(gs, n) <= gs.len(),
        count_numbered_from(gs, n + 1) <= count_numbered_from(gs, n),
        has_id(gs, id_for(n)) ==> count_numbered_from(gs, n + 1) < count_numbered_from(gs, n),
    decreases gs.len(),
{
    if gs.len() > 0 {
        let init = gs.drop_last();
        let g = gs.last();
        lemma_count_numbered(init, n);
        if numbered_from(g, n + 1) {
            let m = choose|m: nat| m >= n + 1 && g.id@ == #[trigger] id_for(m);
            assert(m >= n && g.id@ == id_for(m));
        }
        if g.id@ == id_for(n) {
            assert(n >= n && g.id@ == id_for(n));
            if numbered_from(g, n + 1) {
                let m = choose|m: nat| m >= n + 1 && g.id@ == #[trigger] id_for(m);
                lemma_ids_distinct(m, n);
            }
        }
        if has_id(gs, id_for(n)) && g.id@ != id_for(n) {
            let k = choose|k: int| 0 <= k < gs.len() && (#[trigger] gs[k]).id@ == id_for(n);
            assert(init[k] == gs[k]);
        }
    }
}

fn id_taken(games: &[ManualGame], id: &String) -> (r: bool)
    ensures
        r == has_id(games@, id@),
{
    let mut i: usize = 0;
    while i < games.len()
        invariant
            i <= games@.len(),
            forall|j: int| 0 <= j < i ==> (#[trigger] games@[j]).id@ != id@,
        decreases games@.len() - i,
    {
        if same_id(&games[i], id.as_str()) {
            return true;
        }
        i = i + 1;
    }
    false
}

/// A fresh identifier for a record added to `games`: `manual_` and the
/// clock's nanoseconds since the Unix epoch, or, when a record already has
/// that identifier, the next number after it that none has.  (When the
/// reading is so close to the largest `u128` that the search could pass it,
/// the search starts from 0.)
pub fn fresh_id(games: &[ManualGame]) -> (r: String)
    ensures
        exists|n: nat| r@ == #[trigger] id_for(n),
        !has_id(games@, r@),
{
    let len = games.len() as u128;
    let reading = clock_nanos();
    let start: u128 = if reading > u128::MAX - len {
        0
    } else {
        reading
    };
    let mut n: u128 = start;
    proof {
        lemma_count_numbered(games@, n as nat);
    }
    loop
        invariant
            len == games@.len(),
            start + len <= u128::MAX,
            start <= n,
            (n - start) + count_numbered_from(games@, n as nat) <= len,
        decreases count_numbered_from(games@, n as nat),
    {
        let candidate = id_from_nanos(n);
        if !id_taken(games, &candidate) {
            return candidate;
        }
        proof {
            lemma_count_numbered(games@, n as nat);
        }
        n = n + 1;
    }
}

/// Adds a program to the saved list, given what reading the list gave
/// (`stored`) and whether a file exists at `exe_path`.  The path must pass
/// `validate_exe_path` and exist; then a read error is passed on; otherwise
/// the record, with its display name, normalized category and an identifier
/// no saved record has, is appended and the new list returned with it.
pub fn add_manual_game_to(
    stored: Result<Vec<ManualGame>, String>,
    name: &str,
    exe_path: String,
    category: &str,
    file_exists: bool,
) -> (r: Result<(Vec<ManualGame>, ManualGame), String>)
    ensures
        exe_path_error(exe_path@) matches Some(m) ==> (r matches Err(e) && e@ == m),
        exe_path_ok(exe_path@) && !file_exists ==> (r matches Err(e) && e@
            == "ファイルが存在しません: '"@ + exe_path@ + "'"@),
        exe_path_ok(exe_path@) && file_exists ==> match stored {
            Err(se) => r == Err::<(Vec<ManualGame>, ManualGame), String>(se),
            Ok(gs) => (r matches Ok((list, g)) && list@ == gs@.push(g) && g.name@ == display_name(
                name@,
                exe_path@,
            ) && g.exe_path@ == exe_path@ && g.category@ == normalized_category(category@)
                && timestamp_id(g) && !has_id(gs@, g.id@)),
        },
{
    match validate_exe_path(exe_path.as_str()) {
        Err(e) => {
            return Err(e);
        },
        Ok(()) => {},
    }
    if !file_exists {
        let mut e = String::from_str("ファイルが存在しません: '");
        e.append(exe_path.as_str());
        e.append("'");
        return Err(e);
    }
    let mut games = match stored {
        Err(e) => {
            return Err(e);
        },
        Ok(gs) => gs,
    };
    let final_name = display_name_of(name, exe_path.as_str());
    let id = fresh_id(games.as_slice());
    let game = ManualGame { id, name: final_name, exe_path, category: normalize_category(category) };
    games.push(copy_game(&game));
    Ok((games, game))
}

fn copy_game(g: &ManualGame) -> (r: ManualGame)
    ensures
        r == *g,
{
    ManualGame {
        id: g.id.clone(),
        name: g.name.clone(),
        exe_path: g.exe_path.clone(),
        category: g.category.clone(),
    }
}

/// Every record has its own identifier.
pub open spec fn ids_distinct(gs: Seq<ManualGame>) -> bool {
    forall|i: int, j: int|
        #![trigger gs[i], gs[j]]
        0 <= i < gs.len() && 0 <= j < gs.len() && i != j ==> gs[i].id@ != gs[j].id@
}

/// Appending a record whose identifier no record has keeps identifiers
/// distinct, so a list built only by adding never holds an identifier twice.
pub proof fn lemma_add_keeps_ids_distinct(gs: Seq<ManualGame>, g: ManualGame)
    requires
        ids_distinct(gs),
        !has_id(gs, g.id@),
    ensures
        ids_distinct(gs.push(g)),
{
    let t = gs.push(g);
    assert forall|i: int, j: int|
        0 <= i < t.len() && 0 <= j < t.len() && i != j implies #[trigger] t[i].id@ != #[trigger] t[j].id@ by {
        if i < gs.len() && j < gs.len() {
            assert(t[i] == gs[i] && t[j] == gs[j]);
        } else if i < gs.len() {
            assert(t[i] == gs[i]);
        } else {
            assert(t[j] == gs[j]);
        }
    }
}

/// The records whose identifier is not `id`, in their order.
pub open spec fn without_id(gs: Seq<ManualGame>, id: Seq<char>) -> Seq<ManualGame> {
    gs.filter(id_differs(id))
}

/// The record's identifier is not `id`.
pub open spec fn id_differs(id: Seq<char>) -> spec_fn(ManualGame) -> bool {
    |g: ManualGame| g.id@ != id
}

/// Some record has the identifier `id`.
pub open spec fn has_id(gs: Seq<ManualGame>, id: Seq<char>) -> bool {
    exists|i: int| 0 <= i < gs.len() && (#[trigger] gs[i]).id@ == id
}

fn same_id(g: &ManualGame, id: &str) -> (r: bool)
    ensures
        r == (g.id@ == id@),
{
    let a = chars_of(g.id.as_str());
    let b = chars_of(id);
    chars_eq(&a, &b)
}

/// Removes every record with the identifier `id`; it is an error when there
/// is none, and then the list is unchanged.
pub fn remove_game_by_id(games: &mut Vec<ManualGame>, id: &str) -> (r: Result<(), String>)
    ensures
        final(games)@ == without_id(old(games)@, id@),
        has_id(old(games)@, id@) ==> r is Ok,
        !has_id(old(games)@, id@) ==> (r matches Err(e) && e@
            == "指定されたIDのゲームが見つかりません: '"@ + id@ + "'"@),
{
    let ghost orig = games@;
    let ghost keep = id_differs(id@);
    let before = games.len();
    let mut i = games.len();
    let mut removed = false;
    assert(orig.subrange(orig.len() as int, orig.len() as int).filter(keep) =~= Seq::empty()) by {
        reveal(Seq::filter);
    }
    assert(orig.subrange(0, orig.len() as int) =~= orig);
    while i > 0
        invariant
            i <= orig.len(),
            before == orig.len(),
            keep == id_differs(id@),
            games@ == orig.subrange(0, i as int) + orig.subrange(i as int, orig.len() as int).filter(
                keep,
            ),
            removed <==> exists|k: int| i <= k < orig.len() && (#[trigger] orig[k]).id@ == id@,
        decreases i,
    {
        let ghost tail = orig.subrange(i as int, orig.len() as int);
        let ghost x = orig[i - 1];
        assert(orig.subrange(i - 1, orig.len() as int) =~= seq![x] + tail);
        proof {
            tail.lemma_filter_prepend(x, keep);
        }
        if same_id(&games[i - 1], id) {
            games.remove(i - 1);
            removed = true;
            assert(games@ =~= orig.subrange(0, i - 1) + orig.subrange(i - 1, orig.len() as int).filter(
                keep,
            ));
        } else {
            assert(games@ =~= orig.subrange(0, i - 1) + orig.subrange(i - 1, orig.len() as int).filter(
                keep,
            ));
        }
        i = i - 1;
    }
    assert(games@ =~= orig.filter(keep));
    if !removed {
        let mut e = String::from_str("指定されたIDのゲームが見つかりません: '");
        e.append(id);
        e.append("'");
        return Err(e);
    }
    Ok(())
}

/// Index of the first record with the identifier `id`, or `-1`.
pub open spec fn first_with_id(gs: Seq<ManualGame>, id: Seq<char>) -> int
    decreases gs.len(),
{
    if gs.len() == 0 {
        -1
    } else if gs[0].id@ == id {
        0
    } else {
        let r = first_with_id(gs.drop_first(), id);
        if r < 0 {
            -1
        } else {
            r + 1
        }
    }
}

pub proof fn lemma_first_with_id(gs: Seq<ManualGame>, id: Seq<char>)
    ensures
        -1 <= first_with_id(gs, id) < gs.len(),
        first_with_id(gs, id) >= 0 ==> gs[first_with_id(gs, id)].id@ == id,
        first_with_id(gs, id) < 0 <==> !has_id(gs, id),
    decreases gs.len(),
{
    if gs.len() > 0 && gs[0].id@ != id {
        lemma_first_with_id(gs.drop_first(), id);
        if has_id(gs, id) {
            let k = choose|k: int| 0 <= k < gs.len() && (#[trigger] gs[k]).id@ == id;
            assert(gs.drop_first()[k - 1] == gs[k]);
        }
        if has_id(gs.drop_first(), id) {
            let k = choose|k: int| 0 <= k < gs.drop_first().len() && (#[trigger] gs.drop_first()[k]).id@ == id;
            assert(gs[k + 1] == gs.drop_first()[k]);
        }
    }
}

/// The record launched for an identifier is the first one holding it: it
/// has the identifier and no earlier record does.
pub proof fn lemma_first_with_id_first(gs: Seq<ManualGame>, id: Seq<char>)
    ensures
        first_with_id(gs, id) >= 0 ==> gs[first_with_id(gs, id)].id@ == id && forall|j: int|
            0 <= j < first_with_id(gs, id) ==> (#[trigger] gs[j]).id@ != id,
        first_with_id(gs, id) < 0 ==> forall|j: int| 0 <= j < gs.len() ==> (#[trigger] gs[j]).id@ != id,
    decreases gs.len(),
{
    lemma_first_with_id(gs, id);
    if gs.len() > 0 && gs[0].id@ != id {
        let rest = gs.drop_first();
        lemma_first_with_id_first(rest, id);
        assert forall|j: int| 0 < j < gs.len() implies #[trigger] gs[j] == rest[j - 1] by {}
    }
}

/// The name a new record gets, stated on the inputs: the given name with
/// surrounding white space removed when it holds anything else; otherwise
/// the program's file stem, or `Unknown` when the path has none.
pub proof fn lemma_display_name_law(name: Seq<char>, exe_path: Seq<char>)
    ensures
        !is_blank(name) ==> display_name(name, exe_path) == trim(name),
        is_blank(name) ==> (file_stem(exe_path) matches Some(s) ==> display_name(name, exe_path) == s),
        is_blank(name) && file_stem(exe_path) is None ==> display_name(name, exe_path) == "Unknown"@,
{
}

/// The program to launch for the record `id`: the first record with that
/// identifier, whose path must still pass `validate_exe_path`.
pub fn manual_launch_target(games: &[ManualGame], id: &str) -> (r: Result<String, String>)
    ensures
        first_with_id(games@, id@) < 0 ==> (r matches Err(e) && e@
            == "指定されたIDのゲームが見つかりません: '"@ + id@ + "'"@),
        first_with_id(games@, id@) >= 0 ==> ({
            let p = games@[first_with_id(games@, id@)].exe_path@;
            match exe_path_error(p) {
                Some(m) => (r matches Err(e) && e@ == m),
                None => (r matches Ok(q) && q@ == p),
            }
        }),
{
    let mut i: usize = 0;
    proof {
        lemma_first_with_id(games@, id@);
        assert(games@.skip(0) =~= games@);
    }
    while i < games.len()
        invariant
            i <= games@.len(),
            first_with_id(games@, id@) == -1 || i <= first_with_id(games@, id@),
            -1 <= first_with_id(games@, id@) < games@.len(),
            first_with_id(games@, id@) == first_with_id(games@.skip(i as int), id@) + i || (
            first_with_id(games@, id@) == -1 && first_with_id(games@.skip(i as int), id@) == -1),
        decreases games@.len() - i,
    {
        assert(games@.skip(i as int).drop_first() =~= games@.skip(i + 1));
        assert(games@.skip(i as int)[0] == games@[i as int]);
        if same_id(&games[i], id) {
            let p = games[i].exe_path.as_str();
            match validate_exe_path(p) {
                Err(e) => {
                    return Err(e);
                },
                Ok(()) => {
                    return Ok(games[i].exe_path.clone());
                },
            }
        }
        i = i + 1;
    }
    let mut e = String::from_str("指定されたIDのゲームが見つかりません: '");
    e.append(id);
    e.append("'");
    Err(e)
}

/// After the records of `id` are removed, none is found under `id`.
pub proof fn lemma_removed_not_found(gs: Seq<ManualGame>, id: Seq<char>)
    ensures
        first_with_id(without_id(gs, id), id) == -1,
        !has_id(without_id(gs, id), id),
{
    let keep = id_differs(id);
    let w = gs.filter(keep);
    broadcast use vstd::seq_lib::group_filter_ensures;
    lemma_first_with_id(w, id);
    if has_id(w, id) {
        let k = choose|k: int| 0 <= k < w.len() && (#[trigger] w[k]).id@ == id;
        assert(keep(w[k]));
    }
}


/// A path that passes `validate_exe_path` is not blank, does not climb with
/// `..`, holds no NUL, and ends in a launchable extension.
pub proof fn lemma_accepted_exe_path(p: Seq<char>)
    requires
        exe_path_ok(p),
    ensures
        !is_blank(p),
        !contains(p, ".."@),
        !contains(p, seq!['\0']),
        extension(p) matches Some(e) && launchable_extension(lowercase(e)),
{
}

/// Removing the records of an identifier a second time changes nothing.
pub proof fn lemma_remove_twice(gs: Seq<ManualGame>, id: Seq<char>)
    ensures
        without_id(without_id(gs, id), id) == without_id(gs, id),
    decreases gs.len(),
{
    reveal(Seq::filter);
    if gs.len() > 0 {
        lemma_remove_twice(gs.drop_last(), id);
        let w = without_id(gs.drop_last(), id);
        if id_differs(id)(gs.last()) {
            assert(w.push(gs.last()).drop_last() =~= w);
        }
    }
}

/// Removing an identifier that no record has leaves the list as it was.
pub proof fn lemma_remove_absent_unchanged(gs: Seq<ManualGame>, id: Seq<char>)
    requires
        !has_id(gs, id),
    ensures
        without_id(gs, id) == gs,
    decreases gs.len(),
{
    reveal(Seq::filter);
    if gs.len() > 0 {
        let init = gs.drop_last();
        if has_id(init, id) {
            let k = choose|k: int| 0 <= k < init.len() && (#[trigger] init[k]).id@ == id;
            assert(gs[k] == init[k]);
        }
        lemma_remove_absent_unchanged(init, id);
        assert(gs[gs.len() - 1].id@ != id);
        assert(init.push(gs.last()) =~= gs);
    }
}

/// A record appended under an identifier no other record has is the one
/// found, and so launched, under that identifier.
pub proof fn lemma_added_is_found(gs: Seq<ManualGame>, g: ManualGame)
    requires
        !has_id(gs, g.id@),
    ensures
        first_with_id(gs.push(g), g.id@) == gs.len(),
    decreases gs.len(),
{
    if gs.len() > 0 {
        assert(gs[0].id@ != g.id@);
        let rest = gs.drop_first();
        if has_id(rest, g.id@) {
            let k = choose|k: int| 0 <= k < rest.len() && (#[trigger] rest[k]).id@ == g.id@;
            assert(gs[k + 1] == rest[k]);
        }
        lemma_added_is_found(rest, g);
        assert(gs.push(g).drop_first() =~= rest.push(g));
    }
}

/// Removing the identifier of an appended record undoes the append: the
/// list is what it was without that identifier, and exactly what it was when
/// no other record had it.
pub proof fn lemma_remove_undoes_add(gs: Seq<ManualGame>, g: ManualGame)
    ensures
        without_id(gs.push(g), g.id@) == without_id(gs, g.id@),
        !has_id(gs, g.id@) ==> without_id(gs.push(g), g.id@) == gs,
{
    reveal(Seq::filter);
    assert(gs.push(g).drop_last() =~= gs);
    if !has_id(gs, g.id@) {
        lemma_remove_absent_unchanged(gs, g.id@);
    }
}

} // verus!
