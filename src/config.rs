//! Startup: the alias-to-identifier configuration and the set of watchers
//! built from it.
use vstd::prelude::*;
use crate::interface::{
    is_wrapped, is_wrapped_identifier, listing_view, watcher_of, Interface, InterfaceView,
};

verus! {

#[verifier::external_type_specification]
#[verifier::external_body]
pub struct ExJsonError(serde_json::Error);

/// Why the driver cannot start.
#[derive(Debug, Clone, Copy, PartialEq, Eq, Structural)]
pub enum StartError {
    /// The configuration is not a JSON object mapping aliases to strings.
    Malformed,
    /// No configured interface could be watched.
    EmptyConfiguration,
}

/// The members of the JSON object that a text holds, in the order in which
/// serde_json's map yields them, each as its key and the JSON text of its
/// value; `None` when the text is not a JSON object.
pub uninterp spec fn json_object_members(text: Seq<char>) -> Option<Seq<(Seq<char>, Seq<char>)>>;

pub open spec fn pairs_view(pairs: Seq<(String, String)>) -> Seq<(Seq<char>, Seq<char>)> {
    pairs.map_values(|p: (String, String)| (p.0@, p.1@))
}

/// Relies on serde_json::from_str into a `serde_json::Map<String, Value>`,
/// and on `Value`'s `to_string`, which writes a value as JSON text: the
/// result depends on the text alone.
#[verifier::external_body]
fn parse_json_object(text: &str) -> (r: Result<Vec<(String, String)>, serde_json::Error>)
    ensures
        match r {
            Ok(v) => json_object_members(text@) == Some(pairs_view(v@)),
            Err(_) => json_object_members(text@) is None,
        },
{
    serde_json::from_str::<serde_json::Map<String, serde_json::Value>>(text).map(
        |m| m.into_iter().map(|(k, v)| (k, v.to_string())).collect(),
    )
}

/// Every value of the configuration is a JSON string.
pub open spec fn all_strings(pairs: Seq<(Seq<char>, Seq<char>)>) -> bool {
    forall|i: int| 0 <= i < pairs.len() ==> is_wrapped(#[trigger] pairs[i].1)
}

/// The `(alias, identifier)` pairs of a configuration text, where the
/// identifier is the JSON text of a string value (quotes included).
pub open spec fn config_of(text: Seq<char>) -> Option<Seq<(Seq<char>, Seq<char>)>> {
    match json_object_members(text) {
        Some(pairs) => if all_strings(pairs) {
            Some(pairs)
        } else {
            None
        },
        None => None,
    }
}

/// Accepts parsed configuration members when every value is the JSON text
/// of a string, and hands them back unchanged.
pub fn check_config(pairs: Vec<(String, String)>) -> (r: Result<Vec<(String, String)>, StartError>)
    ensures
        match r {
            Ok(kept) => all_strings(pairs_view(pairs@)) && kept@ == pairs@,
            Err(e) => !all_strings(pairs_view(pairs@)) && e == StartError::Malformed,
        },
{
    let mut i: usize = 0;
    while i < pairs.len()
        invariant
            i <= pairs@.len(),
            forall|j: int| 0 <= j < i ==> is_wrapped(#[trigger] pairs@[j].1@),
        decreases pairs@.len() - i,
    {
        if !is_wrapped_identifier(pairs[i].1.as_str()) {
            assert(pairs_view(pairs@)[i as int] == (pairs@[i as int].0@, pairs@[i as int].1@));
            assert(!is_wrapped(pairs_view(pairs@)[i as int].1));
            return Err(StartError::Malformed);
        }
        i = i + 1;
    }
    assert forall|j: int| 0 <= j < pairs_view(pairs@).len() implies is_wrapped(
        #[trigger] pairs_view(pairs@)[j].1,
    ) by {
        assert(pairs_view(pairs@)[j] == (pairs@[j].0@, pairs@[j].1@));
    }
    Ok(pairs)
}

/// Reads the configuration: a JSON object whose values are all strings.
pub fn load_config(text: &String) -> (r: Result<Vec<(String, String)>, StartError>)
    ensures
        match r {
            Ok(pairs) => config_of(text@) == Some(pairs_view(pairs@)),
            Err(e) => config_of(text@) is None && e == StartError::Malformed,
        },
{
    match parse_json_object(text.as_str()) {
        Ok(pairs) => check_config(pairs),
        Err(_) => Err(StartError::Malformed),
    }
}

pub open spec fn listings_view(listings: Seq<Option<Vec<String>>>) -> Seq<Option<Seq<Seq<char>>>> {
    listings.map_values(|l: Option<Vec<String>>| listing_view(l))
}

/// The watchers that startup keeps, in configuration order: one for each
/// `(alias, identifier)` pair whose watcher could be built.
pub open spec fn watched(
    prefix: Seq<char>,
    pairs: Seq<(Seq<char>, Seq<char>)>,
    listings: Seq<Option<Seq<Seq<char>>>>,
) -> Seq<InterfaceView>
    decreases pairs.len(),
{
    if pairs.len() == 0 {
        seq![]
    } else {
        let rest = watched(prefix, pairs.drop_last(), listings.drop_last());
        match watcher_of(prefix, pairs.last().1, pairs.last().0, listings.last()) {
            Ok(w) => rest.push(w),
            Err(_) => rest,
        }
    }
}

pub open spec fn watchers_view(ws: Seq<Interface>) -> Seq<InterfaceView> {
    ws.map_values(|w: Interface| w@)
}

/// Builds the watchers of a configuration. `listings` holds, for each
/// `(alias, identifier)` pair, what listing its statistics directory gave.
/// Watchers that cannot be built are dropped; startup fails when none is left.
pub fn create_report(
    prefix: &String,
    config: &Vec<(String, String)>,
    listings: &Vec<Option<Vec<String>>>,
) -> (r: Result<Vec<Interface>, StartError>)
    requires
        listings@.len() == config@.len(),
    ensures
        match r {
            Ok(ws) => watchers_view(ws@) == watched(
                prefix@,
                pairs_view(config@),
                listings_view(listings@),
            ) && ws@.len() > 0,
            Err(e) => watched(prefix@, pairs_view(config@), listings_view(listings@)).len() == 0
                && e == StartError::EmptyConfiguration,
        },
{
    let mut ws: Vec<Interface> = Vec::new();
    let mut i: usize = 0;
    while i < config.len()
        invariant
            i <= config@.len(),
            listings@.len() == config@.len(),
            watchers_view(ws@) == watched(
                prefix@,
                pairs_view(config@).take(i as int),
                listings_view(listings@).take(i as int),
            ),
        decreases config@.len() - i,
    {
        let pair = &config[i];
        let built = Interface::from_path(prefix, &pair.1, &pair.0, &listings[i]);
        proof {
            let ps = pairs_view(config@).take(i + 1);
            let ls = listings_view(listings@).take(i + 1);
            assert(ps.drop_last() =~= pairs_view(config@).take(i as int));
            assert(ls.drop_last() =~= listings_view(listings@).take(i as int));
            assert(ps.last() == (pair.0@, pair.1@));
            assert(ls.last() == listing_view(listings@[i as int]));
        }
        match built {
            Ok(w) => {
                let ghost before = ws@;
                ws.push(w);
                assert(watchers_view(ws@) =~= watchers_view(before).push(ws@.last()@));
            },
            Err(_) => {},
        }
        i = i + 1;
    }
    assert(pairs_view(config@).take(config@.len() as int) =~= pairs_view(config@));
    assert(listings_view(listings@).take(config@.len() as int) =~= listings_view(listings@));
    if ws.len() == 0 {
        Err(StartError::EmptyConfiguration)
    } else {
        Ok(ws)
    }
}

} // verus!
