//! Filesystem configurations: string-to-string maps, held as lists of
//! key/value pairs with distinct keys, and their JSON text.
use vstd::prelude::*;
use vstd::string::*;
use crate::text::{pair_views, str_eq};

verus! {

/// Key/value pairs with distinct keys.
pub open spec fn keys_distinct(p: Seq<(Seq<char>, Seq<char>)>) -> bool {
    forall|i: int, j: int| 0 <= i < j < p.len() ==> p[i].0 != p[j].0
}

/// The value of `key` in `p`, if any.
pub open spec fn spec_config_get(p: Seq<(Seq<char>, Seq<char>)>, key: Seq<char>) -> Option<Seq<char>>
    decreases p.len(),
{
    if p.len() == 0 {
        None
    } else if p[0].0 == key {
        Some(p[0].1)
    } else {
        spec_config_get(p.drop_first(), key)
    }
}

/// The JSON object text that `serde_json` writes for the map `p`.
pub uninterp spec fn spec_config_json(p: Seq<(Seq<char>, Seq<char>)>) -> Seq<char>;

/// The map that `serde_json` reads from the JSON text `text`, as pairs in
/// ascending key order; `None` when the text is not a JSON object of strings.
pub uninterp spec fn spec_config_from_json(text: Seq<char>) -> Option<Seq<(Seq<char>, Seq<char>)>>;

/// The value of `key` in `config`, if any.
pub fn config_get<'a>(config: &'a Vec<(String, String)>, key: &str) -> (r: Option<&'a String>)
    ensures
        match r {
            Some(v) => spec_config_get(pair_views(config@), key@) == Some(v@),
            None => spec_config_get(pair_views(config@), key@) is None,
        },
{
    let ghost pv = pair_views(config@);
    let mut i: usize = 0;
    assert(pv.skip(0) =~= pv);
    while i < config.len()
        invariant
            i <= config@.len(),
            pv == pair_views(config@),
            spec_config_get(pv, key@) == spec_config_get(pv.skip(i as int), key@),
        decreases config.len() - i,
    {
        proof {
            assert(pv.skip(i as int).drop_first() =~= pv.skip(i + 1));
            assert(pv.skip(i as int)[0] == pv[i as int]);
        }
        if str_eq(config[i].0.as_str(), key) {
            return Some(&config[i].1);
        }
        i = i + 1;
    }
    proof {
        assert(pv.skip(i as int).len() == 0);
    }
    None
}

/// JSON text of a configuration.
///
/// Calls `serde_json::to_string` on a `BTreeMap<&str, &str>` built from the
/// pairs, which have distinct keys, so no pair is lost. serde_json fails
/// only for a `Serialize` impl that fails or for a map with non-string keys,
/// neither of which a map of strings has, so the call succeeds. The text is
/// named: `spec_config_json` of the pairs. It is a JSON object whose keys
/// and values are the pairs' strings, escaped, so `serde_json::from_str`
/// into a map of strings reads back the same pairs.
#[verifier::external_body]
pub(crate) fn config_to_json(config: &Vec<(String, String)>) -> (r: Result<String, String>)
    requires
        keys_distinct(pair_views(config@)),
    ensures
        r is Ok,
        r matches Ok(t) ==> t@ == spec_config_json(pair_views(config@)),
        r matches Ok(t) ==> (spec_config_from_json(t@) matches Some(c) && c.to_set() == pair_views(config@).to_set()),
{
    let m: std::collections::BTreeMap<&str, &str> = config.iter().map(|p| (p.0.as_str(), p.1.as_str())).collect();
    serde_json::to_string(&m).map_err(|e| e.to_string())
}

/// The configuration written as JSON text `text`.
///
/// Calls `serde_json::from_str` into a `BTreeMap<String, String>` and lists
/// its entries in key order; a failed parse gives `None`. The result is
/// named: `spec_config_from_json` of the text.
#[verifier::external_body]
pub(crate) fn config_from_json(text: &str) -> (r: Option<Vec<(String, String)>>)
    ensures
        r is Some <==> spec_config_from_json(text@) is Some,
        r matches Some(v) ==> pair_views(v@) == spec_config_from_json(text@).unwrap(),
{
    serde_json::from_str::<std::collections::BTreeMap<String, String>>(text).ok().map(|m| m.into_iter().collect())
}

/// The configuration written as JSON text `text`, or the empty
/// configuration when the text does not parse.
pub fn config_from_json_or_empty(text: &str) -> (r: Vec<(String, String)>)
    ensures
        pair_views(r@) == match spec_config_from_json(text@) {
            Some(c) => c,
            None => Seq::empty(),
        },
{
    match config_from_json(text) {
        Some(v) => v,
        None => {
            let v: Vec<(String, String)> = Vec::new();
            assert(pair_views(v@) =~= Seq::empty());
            v
        },
    }
}

} // verus!
