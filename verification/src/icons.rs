//! Custom icons: the saved map of icons, the checks on an icon file and the
//! `data:` URI it is stored as.

use crate::encoding::{data_uri, image_data_uri};
use crate::paths::{extension, extension_of};
use crate::text::{chars_eq, chars_of, decimal, decimal_string, lowercase, string_of, to_lowercase};
use std::collections::HashMap;
use vstd::prelude::*;

verus! {

/// The largest icon file accepted, in bytes (10 MiB).
pub const MAX_ICON_FILE_SIZE: usize = 10485760;

/// Why icon file contents of `n` bytes are refused, if they are.
pub open spec fn icon_file_error(n: nat) -> Option<Seq<char>> {
    if n == 0 {
        Some("ファイルが空です"@)
    } else if n > MAX_ICON_FILE_SIZE {
        Some(
            "ファイルが大きすぎます ("@ + decimal(n) + " bytes, 最大 "@ + decimal(
                MAX_ICON_FILE_SIZE as nat,
            ) + " bytes)"@,
        )
    } else {
        None
    }
}

/// Which icon files are accepted, stated on their size: exactly those of 1
/// to 10485760 bytes (10 MiB); an empty one and a larger one are refused
/// with their messages.
pub proof fn lemma_icon_file_law(n: nat)
    ensures
        icon_file_error(n) is None <==> (1 <= n && n <= 10485760),
        n == 0 ==> icon_file_error(n) == Some("ファイルが空です"@),
        n > 10485760 ==> icon_file_error(n) == Some(
            "ファイルが大きすぎます ("@ + decimal(n) + " bytes, 最大 "@ + decimal(10485760) + " bytes)"@,
        ),
{
}

/// Accepts icon file contents that are neither empty nor larger than
/// `MAX_ICON_FILE_SIZE`.
pub fn validate_icon_file(data: &[u8]) -> (r: Result<(), String>)
    ensures
        match icon_file_error(data@.len()) {
            Some(m) => (r matches Err(e) && e@ == m),
            None => r is Ok,
        },
{
    if data.len() == 0 {
        return Err(String::from_str("ファイルが空です"));
    }
    if data.len() > MAX_ICON_FILE_SIZE {
        let mut e = String::from_str("ファイルが大きすぎます (");
        let n = decimal_string(data.len() as u128);
        e.append(n.as_str());
        e.append(" bytes, 最大 ");
        let m = decimal_string(MAX_ICON_FILE_SIZE as u128);
        e.append(m.as_str());
        e.append(" bytes)");
        return Err(e);
    }
    Ok(())
}

/// What `serde_json::from_str::<HashMap<String, String>>` gives for a text:
/// the map, or the text of its error.
pub uninterp spec fn json_string_map(text: Seq<char>) -> Result<Map<Seq<char>, Seq<char>>, Seq<char>>;

/// No two pairs share a key.
pub open spec fn keys_distinct(s: Seq<(String, String)>) -> bool {
    forall|i: int, j: int|
        #![trigger s[i], s[j]]
        0 <= i < s.len() && 0 <= j < s.len() && i != j ==> s[i].0@ != s[j].0@
}

/// The map that key/value pairs describe (a later pair wins).
pub open spec fn pairs_view(s: Seq<(String, String)>) -> Map<Seq<char>, Seq<char>>
    decreases s.len(),
{
    if s.len() == 0 {
        Map::empty()
    } else {
        pairs_view(s.drop_last()).insert(s.last().0@, s.last().1@)
    }
}

/// Some pair has the key `k`.
pub open spec fn has_key(s: Seq<(String, String)>, k: Seq<char>) -> bool {
    exists|i: int| 0 <= i < s.len() && (#[trigger] s[i]).0@ == k
}

proof fn lemma_pairs_dom(s: Seq<(String, String)>, k: Seq<char>)
    ensures
        pairs_view(s).dom().finite(),
        pairs_view(s).dom().contains(k) <==> has_key(s, k),
    decreases s.len(),
{
    if s.len() > 0 {
        let init = s.drop_last();
        lemma_pairs_dom(init, k);
        if has_key(init, k) {
            let i = choose|i: int| 0 <= i < init.len() && (#[trigger] init[i]).0@ == k;
            assert(s[i] == init[i]);
        }
        if has_key(s, k) && s.last().0@ != k {
            let i = choose|i: int| 0 <= i < s.len() && (#[trigger] s[i]).0@ == k;
            assert(init[i] == s[i]);
        }
    }
}

proof fn lemma_distinct_init(s: Seq<(String, String)>)
    requires
        s.len() > 0,
        keys_distinct(s),
    ensures
        keys_distinct(s.drop_last()),
        !has_key(s.drop_last(), s.last().0@),
{
    let init = s.drop_last();
    assert forall|i: int, j: int|
        0 <= i < init.len() && 0 <= j < init.len() && i != j implies #[trigger] init[i].0@ != #[trigger] init[j].0@ by {
        assert(init[i] == s[i] && init[j] == s[j]);
    }
    if has_key(init, s.last().0@) {
        let i = choose|i: int| 0 <= i < init.len() && (#[trigger] init[i]).0@ == s.last().0@;
        assert(init[i] == s[i]);
        assert(s[i].0@ != s[s.len() - 1].0@);
    }
}

proof fn lemma_pairs_len(s: Seq<(String, String)>)
    requires
        keys_distinct(s),
    ensures
        pairs_view(s).len() == s.len(),
    decreases s.len(),
{
    if s.len() > 0 {
        let init = s.drop_last();
        lemma_distinct_init(s);
        lemma_pairs_len(init);
        lemma_pairs_dom(init, s.last().0@);
    }
}

proof fn lemma_pairs_value(s: Seq<(String, String)>, i: int)
    requires
        keys_distinct(s),
        0 <= i < s.len(),
    ensures
        pairs_view(s).dom().contains(s[i].0@),
        pairs_view(s)[s[i].0@] == s[i].1@,
    decreases s.len(),
{
    if i < s.len() - 1 {
        let init = s.drop_last();
        lemma_distinct_init(s);
        assert(init[i] == s[i]);
        lemma_pairs_value(init, i);
        assert(s[i].0@ != s[s.len() - 1].0@);
    }
}

proof fn lemma_pairs_update(s: Seq<(String, String)>, i: int, p: (String, String))
    requires
        keys_distinct(s),
        0 <= i < s.len(),
        s[i].0@ == p.0@,
    ensures
        keys_distinct(s.update(i, p)),
        pairs_view(s.update(i, p)) == pairs_view(s).insert(p.0@, p.1@),
    decreases s.len(),
{
    let t = s.update(i, p);
    assert forall|a: int, b: int|
        0 <= a < t.len() && 0 <= b < t.len() && a != b implies #[trigger] t[a].0@ != #[trigger] t[b].0@ by {
        assert(t[a].0@ == s[a].0@);
        assert(t[b].0@ == s[b].0@);
    }
    let n = s.len() - 1;
    let init = s.drop_last();
    lemma_distinct_init(s);
    if i == n {
        assert(t.drop_last() =~= init);
        assert(pairs_view(t) =~= pairs_view(s).insert(p.0@, p.1@));
    } else {
        assert(t.drop_last() =~= init.update(i, p));
        assert(init[i] == s[i]);
        lemma_pairs_update(init, i, p);
        assert(s[n].0@ != s[i].0@);
        assert(pairs_view(t) =~= pairs_view(s).insert(p.0@, p.1@));
    }
}

/// Saved custom icons: AppID to icon `data:` URI, held as pairs whose keys
/// never repeat.
#[derive(Debug)]
pub struct IconMap {
    pairs: Vec<(String, String)>,
}

impl View for IconMap {
    type V = Map<Seq<char>, Seq<char>>;

    closed spec fn view(&self) -> Map<Seq<char>, Seq<char>> {
        pairs_view(self.pairs@)
    }
}

fn index_of_key(pairs: &Vec<(String, String)>, key: &str) -> (r: Option<usize>)
    ensures
        match r {
            Some(i) => i < pairs@.len() && pairs@[i as int].0@ == key@,
            None => !has_key(pairs@, key@),
        },
{
    let k = chars_of(key);
    let mut i: usize = 0;
    while i < pairs.len()
        invariant
            i <= pairs@.len(),
            k@ == key@,
            forall|j: int| 0 <= j < i ==> (#[trigger] pairs@[j]).0@ != key@,
        decreases pairs@.len() - i,
    {
        let c = chars_of(pairs[i].0.as_str());
        if chars_eq(&c, &k) {
            return Some(i);
        }
        i = i + 1;
    }
    None
}

impl IconMap {
    #[verifier::type_invariant]
    spec fn inv(self) -> bool {
        keys_distinct(self.pairs@)
    }

    /// No icons.
    pub fn new() -> (r: IconMap)
        ensures
            r@ == Map::<Seq<char>, Seq<char>>::empty(),
    {
        IconMap { pairs: Vec::new() }
    }

    /// The map of the given pairs, whose keys must not repeat.
    fn from_pairs(pairs: Vec<(String, String)>) -> (r: IconMap)
        requires
            keys_distinct(pairs@),
        ensures
            r@ == pairs_view(pairs@),
    {
        IconMap { pairs }
    }

    /// The pairs, each key once, in no particular order.
    pub fn pairs(&self) -> (r: &Vec<(String, String)>)
        ensures
            pairs_view(r@) == self@,
            keys_distinct(r@),
    {
        proof {
            use_type_invariant(self);
        }
        &self.pairs
    }

    /// Number of icons.
    pub fn len(&self) -> (r: usize)
        ensures
            r == self@.len(),
    {
        proof {
            use_type_invariant(self);
            lemma_pairs_len(self.pairs@);
        }
        self.pairs.len()
    }

    /// No icon is saved.
    pub fn is_empty(&self) -> (r: bool)
        ensures
            r == (self@.len() == 0),
    {
        self.len() == 0
    }

    /// The icon saved under `appid`.
    pub fn get(&self, appid: &str) -> (r: Option<&String>)
        ensures
            match r {
                Some(v) => self@.dom().contains(appid@) && v@ == self@[appid@],
                None => !self@.dom().contains(appid@),
            },
    {
        proof {
            use_type_invariant(self);
            lemma_pairs_dom(self.pairs@, appid@);
        }
        match index_of_key(&self.pairs, appid) {
            Some(i) => {
                proof {
                    lemma_pairs_value(self.pairs@, i as int);
                }
                Some(&self.pairs[i].1)
            },
            None => None,
        }
    }

    /// Some icon is saved under `appid`.
    pub fn contains_key(&self, appid: &str) -> (r: bool)
        ensures
            r == self@.dom().contains(appid@),
    {
        self.get(appid).is_some()
    }

    /// Saves `data_uri` under `appid`, replacing an icon saved there.
    pub fn insert(&mut self, appid: String, data_uri: String)
        ensures
            final(self)@ == old(self)@.insert(appid@, data_uri@),
    {
        proof {
            use_type_invariant(&*self);
        }
        let mut pairs: Vec<(String, String)> = Vec::new();
        std::mem::swap(&mut pairs, &mut self.pairs);
        let ghost before = pairs@;
        match index_of_key(&pairs, appid.as_str()) {
            Some(i) => {
                proof {
                    lemma_pairs_update(before, i as int, (appid, data_uri));
                }
                pairs.set(i, (appid, data_uri));
            },
            None => {
                let ghost p = (appid, data_uri);
                pairs.push((appid, data_uri));
                proof {
                    assert(pairs@.drop_last() =~= before);
                    assert forall|a: int, b: int|
                        0 <= a < pairs@.len() && 0 <= b < pairs@.len() && a != b implies #[trigger] pairs@[a].0@
                        != #[trigger] pairs@[b].0@ by {
                        if a < before.len() && b < before.len() {
                            assert(pairs@[a] == before[a] && pairs@[b] == before[b]);
                        } else if a < before.len() {
                            assert(pairs@[a] == before[a]);
                        } else {
                            assert(pairs@[b] == before[b]);
                        }
                    }
                }
            },
        }
        self.pairs = pairs;
    }
}

/// Calls `serde_json::from_str::<HashMap<String, String>>`, turning the map
/// into its pairs and the error into its `to_string` text.  The claim is
/// that the outcome is a function of the text, named `json_string_map`, and
/// that the pairs, taken from a map, never repeat a key.
#[verifier::external_body]
fn decode_string_pairs(text: &str) -> (r: Result<Vec<(String, String)>, String>)
    ensures
        match r {
            Ok(v) => keys_distinct(v@) && json_string_map(text@) == Ok::<
                Map<Seq<char>, Seq<char>>,
                Seq<char>,
            >(pairs_view(v@)),
            Err(e) => json_string_map(text@) == Err::<Map<Seq<char>, Seq<char>>, Seq<char>>(e@),
        },
{
    match serde_json::from_str::<HashMap<String, String>>(text) {
        Ok(m) => Ok(m.into_iter().collect()),
        Err(e) => Err(e.to_string()),
    }
}

/// What the saved icon text reads as: its map, or the error reported.
pub open spec fn icons_from_text(content: Seq<char>) -> Result<Map<Seq<char>, Seq<char>>, Seq<char>> {
    match json_string_map(content) {
        Ok(m) => Ok(m),
        Err(t) => Err("カスタムアイコンのJSONパースに失敗しました: "@ + t),
    }
}

/// Reads the saved map from AppID to icon `data:` URI.  A text that is not a
/// JSON object of strings is an error.
pub fn parse_icons_content(content: &str) -> (r: Result<IconMap, String>)
    ensures
        match icons_from_text(content@) {
            Ok(mm) => (r matches Ok(m) && m@ == mm),
            Err(t) => (r matches Err(e) && e@ == t),
        },
{
    match decode_string_pairs(content) {
        Ok(v) => Ok(IconMap::from_pairs(v)),
        Err(t) => {
            let mut e = String::from_str("カスタムアイコンのJSONパースに失敗しました: ");
            e.append(t.as_str());
            Err(e)
        },
    }
}

/// What the icon store holds: nothing when there is no saved file, else
/// what its text reads as.
pub open spec fn stored_icons(stored: Option<Seq<char>>) -> Result<Map<Seq<char>, Seq<char>>, Seq<char>> {
    match stored {
        None => Ok(Map::empty()),
        Some(c) => icons_from_text(c),
    }
}

/// An optional text as its characters.
pub open spec fn opt_text(o: Option<&str>) -> Option<Seq<char>> {
    match o {
        Some(s) => Some(s@),
        None => None,
    }
}

/// Loads the icons from the saved file's text, `None` when there is no file.
pub fn load_icons(stored: Option<&str>) -> (r: Result<IconMap, String>)
    ensures
        match stored_icons(opt_text(stored)) {
            Ok(mm) => (r matches Ok(m) && m@ == mm),
            Err(t) => (r matches Err(e) && e@ == t),
        },
{
    match stored {
        None => Ok(IconMap::new()),
        Some(c) => parse_icons_content(c),
    }
}

/// Calls `serde_json::to_string` on the map of the pairs and writes its
/// error with `to_string`.  serde_json documents that serialising fails only
/// when a `Serialize` impl fails or a map has keys that are not strings, so
/// with `String` keys and values the call succeeds; it writes each key and
/// value as a JSON string that `from_str` reads back, so the text decodes to
/// the same map.  The order of the entries in the text is left unsaid.
#[verifier::external_body]
fn encode_string_pairs(pairs: &Vec<(String, String)>) -> (r: Result<String, String>)
    requires
        keys_distinct(pairs@),
    ensures
        r is Ok,
        match r {
            Ok(t) => json_string_map(t@) == Ok::<Map<Seq<char>, Seq<char>>, Seq<char>>(
                pairs_view(pairs@),
            ),
            Err(_) => true,
        },
{
    let map: HashMap<String, String> = pairs.iter().cloned().collect();
    match serde_json::to_string(&map) {
        Ok(t) => Ok(t),
        Err(e) => Err(e.to_string()),
    }
}

/// The text saved for the icon map once `data_uri` is stored under `appid`
/// (replacing an earlier one): it reads back as that map.
pub fn icons_text_with(icons: IconMap, appid: String, data_uri: String) -> (r: Result<String, String>)
    ensures
        r matches Ok(t) && json_string_map(t@) == Ok::<Map<Seq<char>, Seq<char>>, Seq<char>>(
            icons@.insert(appid@, data_uri@),
        ),
{
    let mut icons = icons;
    icons.insert(appid, data_uri);
    let pairs = icons.pairs();
    encode_string_pairs(pairs)
}

/// The text to save after storing `data_uri` under `appid`, given the saved
/// file's text (`None` when there is none): an unreadable store is reported
/// and nothing is to be written; otherwise the text reads back as the stored
/// map with the new icon.
pub fn saved_icons_text(stored: Option<&str>, appid: String, data_uri: String) -> (r: Result<String, String>)
    ensures
        match stored_icons(opt_text(stored)) {
            Ok(m) => (r matches Ok(t) && icons_from_text(t@) == Ok::<Map<Seq<char>, Seq<char>>, Seq<char>>(
                m.insert(appid@, data_uri@),
            )),
            Err(e) => (r matches Err(x) && x@ == e),
        },
{
    let icons = load_icons(stored)?;
    icons_text_with(icons, appid, data_uri)
}

/// Saving an icon and loading again gives the old map with the new icon under
/// its AppID, every other icon unchanged and no icon added or lost.
pub proof fn lemma_save_then_load(
    old_icons: Map<Seq<char>, Seq<char>>,
    appid: Seq<char>,
    data_uri: Seq<char>,
    loaded: Map<Seq<char>, Seq<char>>,
)
    requires
        loaded == old_icons.insert(appid, data_uri),
    ensures
        loaded.dom().contains(appid) && loaded[appid] == data_uri,
        forall|k: Seq<char>|
            k != appid ==> (#[trigger] loaded.dom().contains(k) <==> old_icons.dom().contains(k)),
        forall|k: Seq<char>|
            k != appid && old_icons.dom().contains(k) ==> #[trigger] loaded[k] == old_icons[k],
{
}

/// The MIME subtype a custom icon is stored with, from the lower-cased
/// extension of its file (`png` when it has none).
pub open spec fn custom_icon_mime(path: Seq<char>) -> Seq<char> {
    let e = lowercase(
        match extension(path) {
            Some(e) => e,
            None => "png"@,
        },
    );
    if e == "jpg"@ || e == "jpeg"@ {
        "jpeg"@
    } else if e == "gif"@ {
        "gif"@
    } else if e == "webp"@ {
        "webp"@
    } else {
        "png"@
    }
}

/// The MIME subtype of a custom icon depends on its file only through the
/// lower-cased extension (`png` when there is none): two paths whose
/// extensions lower-case alike get the same subtype; `jpg` and `jpeg` give
/// `jpeg`, `gif` gives `gif`, `webp` gives `webp`, anything else `png`.
pub proof fn lemma_custom_icon_mime_law(p: Seq<char>, q: Seq<char>)
    ensures
        lowercase(
            match extension(p) {
                Some(e) => e,
                None => "png"@,
            },
        ) == lowercase(
            match extension(q) {
                Some(e) => e,
                None => "png"@,
            },
        ) ==> custom_icon_mime(p) == custom_icon_mime(q),
        (lowercase(
            match extension(p) {
                Some(e) => e,
                None => "png"@,
            },
        ) == "jpg"@ || lowercase(
            match extension(p) {
                Some(e) => e,
                None => "png"@,
            },
        ) == "jpeg"@) ==> custom_icon_mime(p) == "jpeg"@,
        lowercase(
            match extension(p) {
                Some(e) => e,
                None => "png"@,
            },
        ) == "gif"@ ==> custom_icon_mime(p) == "gif"@,
        lowercase(
            match extension(p) {
                Some(e) => e,
                None => "png"@,
            },
        ) == "webp"@ ==> custom_icon_mime(p) == "webp"@,
        (lowercase(
            match extension(p) {
                Some(e) => e,
                None => "png"@,
            },
        ) != "jpg"@ && lowercase(
            match extension(p) {
                Some(e) => e,
                None => "png"@,
            },
        ) != "jpeg"@ && lowercase(
            match extension(p) {
                Some(e) => e,
                None => "png"@,
            },
        ) != "gif"@ && lowercase(
            match extension(p) {
                Some(e) => e,
                None => "png"@,
            },
        ) != "webp"@) ==> custom_icon_mime(p)
            == "png"@,
{
    reveal_strlit("jpg");
    reveal_strlit("jpeg");
    reveal_strlit("gif");
    reveal_strlit("webp");
    assert("gif"@[0] != "jpg"@[0]);
}

/// The MIME subtype a custom icon file is stored with.
pub fn custom_icon_mime_of(path: &str) -> (r: String)
    ensures
        r@ == custom_icon_mime(path@),
{
    let cs = chars_of(path);
    let ext = match extension_of(&cs) {
        Some(e) => string_of(&e),
        None => String::from_str("png"),
    };
    let low_str = to_lowercase(ext.as_str());
    let low = chars_of(low_str.as_str());
    if chars_eq(&low, &chars_of("jpg")) || chars_eq(&low, &chars_of("jpeg")) {
        String::from_str("jpeg")
    } else if chars_eq(&low, &chars_of("gif")) {
        String::from_str("gif")
    } else if chars_eq(&low, &chars_of("webp")) {
        String::from_str("webp")
    } else {
        String::from_str("png")
    }
}

/// The `data:` URI stored for the icon file at `file_path` with contents
/// `data`, once the contents pass `validate_icon_file`.
pub fn custom_icon_data_uri(file_path: &str, data: &[u8]) -> (r: Result<String, String>)
    ensures
        match icon_file_error(data@.len()) {
            Some(m) => (r matches Err(e) && e@ == m),
            None => (r matches Ok(u) && u@ == data_uri(custom_icon_mime(file_path@), data@)),
        },
{
    match validate_icon_file(data) {
        Err(e) => Err(e),
        Ok(()) => {
            let mime = custom_icon_mime_of(file_path);
            Ok(image_data_uri(mime.as_str(), data))
        },
    }
}

} // verus!
