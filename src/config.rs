//! Decoding configuration text into variables.
use vstd::prelude::*;
use crate::variables::{keys_distinct, pairs_map};

verus! {

/// The flat string mapping that YAML text `text` decodes to, if it is one.
pub uninterp spec fn yaml_variables(text: Seq<char>) -> Option<Map<Seq<char>, Seq<char>>>;

/// Relies on `serde_yaml::from_str` into a `BTreeMap<String, String>`: it
/// decodes a flat mapping of strings (each name once) or fails with a
/// diagnostic, and its outcome depends on the text alone.
#[verifier::external_body]
pub(crate) fn decode_yaml(text: &str) -> (r: Result<Vec<(String, String)>, String>)
    ensures
        match r {
            Ok(v) => keys_distinct(v@) && yaml_variables(text@) == Some(pairs_map(v@)),
            Err(_) => yaml_variables(text@) is None,
        },
{
    match serde_yaml::from_str::<std::collections::BTreeMap<String, String>>(text) {
        Ok(m) => Ok(m.into_iter().collect()),
        Err(e) => Err(e.to_string()),
    }
}

} // verus!
