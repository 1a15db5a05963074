//! Settings that are kept between runs, in `~/.config/fast6/config.json`.
//!
//! The keys are `ffmpeg`, `codec`, `mode`, `daemon_addr` and `token`. Reading and
//! writing the file is the caller's part.
use vstd::prelude::*;
use vstd::string::*;
use crate::collections::TextMap;
use crate::path::{join, joined, Platform};
use crate::text::{chars_of, text_in, texts};

verus! {

/// The object of strings that a JSON text holds, as `serde_json::from_str` reads
/// it; nothing where the text is anything else.
pub uninterp spec fn json_object(text: Seq<char>) -> Option<Map<Seq<char>, Seq<char>>>;

/// The JSON text for an object of strings, as `serde_json::to_string_pretty`
/// writes it.
pub uninterp spec fn json_text(m: Map<Seq<char>, Seq<char>>) -> Seq<char>;

/// The map that pairs make; of two pairs with the same key the later counts.
pub open spec fn map_of_pairs(ps: Seq<(String, String)>) -> Map<Seq<char>, Seq<char>>
    decreases ps.len(),
{
    if ps.len() == 0 {
        Map::empty()
    } else {
        map_of_pairs(ps.drop_last()).insert(ps.last().0@, ps.last().1@)
    }
}

/// `serde_json::from_str` into a map of strings. What the text must look like is
/// left to the name.
#[verifier::external_body]
fn parse_object(text: &str) -> (r: Option<Vec<(String, String)>>)
    ensures
        match r {
            Some(ps) => json_object(text@) == Some(map_of_pairs(ps@)),
            None => json_object(text@) is None,
        },
{
    let m: Option<std::collections::BTreeMap<String, String>> = serde_json::from_str(text).ok();
    m.map(|m| m.into_iter().collect())
}

/// `serde_json::to_string_pretty` of a map of strings. It fails only on maps
/// whose keys are no strings. What the text looks like is left to the name;
/// reading it gives the map back.
#[verifier::external_body]
fn print_object(ps: Vec<(String, String)>) -> (r: Option<String>)
    ensures
        match r {
            Some(t) => t@ == json_text(map_of_pairs(ps@)) && json_object(t@) == Some(
                map_of_pairs(ps@),
            ),
            None => false,
        },
{
    let m: std::collections::BTreeMap<String, String> = ps.into_iter().collect();
    serde_json::to_string_pretty(&m).ok()
}

/// The settings in the text of the file; none where there is no such text.
pub open spec fn settings_in(text: Option<Seq<char>>) -> Map<Seq<char>, Seq<char>> {
    match text {
        Some(t) => match json_object(t) {
            Some(m) => m,
            None => Map::empty(),
        },
        None => Map::empty(),
    }
}

/// The texts of a map.
pub open spec fn map_texts(m: Map<Seq<char>, String>) -> Map<Seq<char>, Seq<char>> {
    Map::new(|k: Seq<char>| m.contains_key(k), |k: Seq<char>| m[k]@)
}

/// The value of a setting; nothing where it is missing or empty.
pub open spec fn setting(m: Map<Seq<char>, Seq<char>>, key: Seq<char>) -> Option<Seq<char>> {
    if m.contains_key(key) && m[key].len() > 0 {
        Some(m[key])
    } else {
        None
    }
}

fn to_map(ps: Vec<(String, String)>) -> (r: TextMap<String>)
    ensures
        r.wf(),
        map_texts(r@) == map_of_pairs(ps@),
{
    let mut m: TextMap<String> = TextMap::new();
    let mut i: usize = 0;
    assert(ps@.take(0) =~= Seq::empty());
    assert(map_texts(m@) =~= Map::empty());
    while i < ps.len()
        invariant
            i <= ps@.len(),
            m.wf(),
            map_texts(m@) == map_of_pairs(ps@.take(i as int)),
        decreases ps@.len() - i,
    {
        assert(ps@.take(i + 1).drop_last() =~= ps@.take(i as int));
        let ghost before = map_texts(m@);
        m.insert(ps[i].0.as_str(), ps[i].1.clone());
        assert(map_texts(m@) =~= before.insert(ps@[i as int].0@, ps@[i as int].1@));
        i += 1;
    }
    assert(ps@.take(ps@.len() as int) =~= ps@);
    m
}

fn to_pairs(m: &TextMap<String>) -> (r: Vec<(String, String)>)
    requires
        m.wf(),
    ensures
        map_of_pairs(r@) == map_texts(m@),
{
    let ks = m.keys();
    let ghost all = m.keys_seq();
    proof {
        m.lemma_keys();
    }
    let mut r: Vec<(String, String)> = Vec::new();
    let mut i: usize = 0;
    while i < ks.len()
        invariant
            i <= ks@.len(),
            m.wf(),
            all == m.keys_seq(),
            texts(ks@) == all,
            all.no_duplicates(),
            all.to_set() == m@.dom(),
            r@.len() == i,
            forall|k: Seq<char>|
                map_of_pairs(r@).contains_key(k) <==> #[trigger] all.take(i as int).contains(k),
            forall|k: Seq<char>|
                #[trigger] map_of_pairs(r@).contains_key(k) ==> map_of_pairs(r@)[k] == m@[k]@,
        decreases ks@.len() - i,
    {
        assert(all[i as int] == ks@[i as int]@);
        assert(all.to_set().contains(all[i as int]));
        let ghost before = r@;
        let v = match m.get(ks[i].as_str()) {
            Some(v) => v.clone(),
            None => String::new(),
        };
        assert(v@ == m@[all[i as int]]@);
        r.push((ks[i].clone(), v));
        proof {
            assert(r@.drop_last() =~= before);
            assert(map_of_pairs(r@) == map_of_pairs(before).insert(all[i as int], v@));
            assert(all.take(i + 1) =~= all.take(i as int).push(all[i as int]));
            assert forall|k: Seq<char>|
                map_of_pairs(r@).contains_key(k) <==> #[trigger] all.take(i + 1).contains(k) by {
                let t = all.take(i as int);
                if t.contains(k) {
                    let j = t.index_of(k);
                    assert(all.take(i + 1)[j] == k);
                }
                assert(all.take(i + 1)[i as int] == all[i as int]);
                if all.take(i + 1).contains(k) && k != all[i as int] {
                    let j = all.take(i + 1).index_of(k);
                    assert(t[j] == k);
                }
            }
        }
        i += 1;
    }
    proof {
        assert(all.take(ks@.len() as int) =~= all);
        assert forall|k: Seq<char>| map_of_pairs(r@).contains_key(k) == map_texts(m@).contains_key(
            k,
        ) by {
            assert(all.contains(k) <==> all.to_set().contains(k));
            assert(all.take(ks@.len() as int).contains(k) == all.contains(k));
        }
        assert(map_of_pairs(r@) =~= map_texts(m@));
    }
    r
}

fn read_all(text: &Option<String>) -> (r: TextMap<String>)
    ensures
        r.wf(),
        map_texts(r@) == settings_in(text_in(*text)),
{
    match text {
        Some(t) => match parse_object(t.as_str()) {
            Some(ps) => {
                return to_map(ps);
            },
            None => {},
        },
        None => {},
    }
    let r: TextMap<String> = TextMap::new();
    assert(map_texts(r@) =~= Map::empty());
    r
}

/// The value of a key in some settings. None if it is missing or empty.
pub fn lookup(m: &TextMap<String>, key: &str) -> (r: Option<String>)
    requires
        m.wf(),
    ensures
        match r {
            Some(v) => setting(map_texts(m@), key@) == Some(v@),
            None => setting(map_texts(m@), key@) is None,
        },
{
    match m.get(key) {
        Some(v) => {
            if chars_of(v.as_str()).len() > 0 {
                Some(v.clone())
            } else {
                None
            }
        },
        None => None,
    }
}

/// Reads a value from the text of the file. None if it is missing or empty.
pub fn load(text: &Option<String>, key: &str) -> (r: Option<String>)
    ensures
        match r {
            Some(v) => setting(settings_in(text_in(*text)), key@) == Some(v@),
            None => setting(settings_in(text_in(*text)), key@) is None,
        },
{
    let m = read_all(text);
    lookup(&m, key)
}

/// The text of the file with a value saved in it.
pub fn save(text: &Option<String>, key: &str, val: &str) -> (r: Option<String>)
    ensures
        r matches Some(t) && t@ == json_text(settings_in(text_in(*text)).insert(key@, val@))
            && is_saved(text_in(*text), key@, val@, t@),
{
    let mut m = read_all(text);
    let ghost before = map_texts(m@);
    m.insert(key, val.to_string());
    assert(map_texts(m@) =~= before.insert(key@, val@));
    print_object(to_pairs(&m))
}

/// Whether a text holds the settings of another with one value saved.
pub open spec fn is_saved(
    before: Option<Seq<char>>,
    key: Seq<char>,
    val: Seq<char>,
    after: Seq<char>,
) -> bool {
    settings_in(Some(after)) == settings_in(before).insert(key, val)
}

/// The folder for settings: `fast6` in the user's configuration folder.
pub open spec fn config_dir_of(
    pl: Platform,
    xdg: Option<Seq<char>>,
    home: Option<Seq<char>>,
) -> Seq<char> {
    let base = match xdg {
        Some(d) => d,
        None => match home {
            Some(h) => joined(pl, h, ".config"@),
            None => "."@,
        },
    };
    joined(pl, base, "fast6"@)
}

/// The folder for settings, from the environment's `XDG_CONFIG_HOME` and `HOME`.
pub fn dir(pl: Platform, xdg: &Option<String>, home: &Option<String>) -> (r: String)
    ensures
        r@ == config_dir_of(pl, text_in(*xdg), text_in(*home)),
{
    let base = match xdg {
        Some(d) => d.clone(),
        None => match home {
            Some(h) => join(pl, h.as_str(), ".config"),
            None => ".".to_string(),
        },
    };
    join(pl, base.as_str(), "fast6")
}

/// The file for settings.
pub fn file(pl: Platform, xdg: &Option<String>, home: &Option<String>) -> (r: String)
    ensures
        r@ == joined(pl, config_dir_of(pl, text_in(*xdg), text_in(*home)), "config.json"@),
{
    let d = dir(pl, xdg, home);
    join(pl, d.as_str(), "config.json")
}

// ---------------------------------------------------------------- laws
/// What was saved is loaded again, and every other setting stays as it was. An
/// empty value is loaded as a missing one.
pub proof fn saved_value_is_loaded(
    before: Option<Seq<char>>,
    key: Seq<char>,
    val: Seq<char>,
    after: Seq<char>,
    other: Seq<char>,
)
    requires
        is_saved(before, key, val, after),
        other != key,
    ensures
        val.len() > 0 ==> setting(settings_in(Some(after)), key) == Some(val),
        val.len() == 0 ==> setting(settings_in(Some(after)), key) is None,
        setting(settings_in(Some(after)), other) == setting(settings_in(before), other),
{
}

/// Settings lie in the folder `fast6` of the user's configuration folder: the one that
/// is named, else `.config` in the home folder.
pub proof fn settings_have_their_folder(
    pl: Platform,
    xdg: Seq<char>,
    home: Seq<char>,
    h: Option<Seq<char>>,
)
    ensures
        config_dir_of(pl, Some(xdg), h) == joined(pl, xdg, "fast6"@),
        config_dir_of(pl, None, Some(home)) == joined(pl, joined(pl, home, ".config"@), "fast6"@),
        config_dir_of(pl, None, None) == joined(pl, "."@, "fast6"@),
{
}

/// A setting is what was kept under its name, and an empty one counts as missing.
pub proof fn setting_is_what_was_kept(m: Map<Seq<char>, Seq<char>>, key: Seq<char>)
    ensures
        m.dom().contains(key) && m[key].len() > 0 ==> setting(m, key) == Some(m[key]),
        m.dom().contains(key) && m[key].len() == 0 ==> setting(m, key) is None,
        !m.dom().contains(key) ==> setting(m, key) is None,
{
}

} // verus!
