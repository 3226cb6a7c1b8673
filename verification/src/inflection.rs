//! Inflection tables as downstream renderers consume them: for each covered
//! verb form, the positive and negative readings side by side.

use vstd::prelude::*;

verus! {

/// The positive and negative readings of one verb form.
pub struct InflectionPair {
    pub positive: String,
    pub negative: String,
}

/// The inflected forms of a verb.
pub struct Inflections {
    pub present: InflectionPair,
    pub present_polite: InflectionPair,
    pub past: InflectionPair,
    pub past_polite: InflectionPair,
    pub te_form: InflectionPair,
    pub potential: InflectionPair,
    pub passive: InflectionPair,
    pub causative: InflectionPair,
}

/// Converts an optional value into its string form.
pub fn map_to_str<T: Into<String> + Copy>(i: &Option<T>) -> (r: Option<String>)
    ensures
        r is Some <==> i is Some,
{
    match i {
        Some(v) => Some((*v).into()),
        None => None,
    }
}

} // verus!
