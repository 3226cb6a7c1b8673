//! The content languages a dictionary entry's glosses can carry and a user
//! can prefer. Foreign (gloss) search tags its result rows with the English
//! language class.

use vstd::prelude::*;

verus! {

/// A gloss language.
#[derive(Clone, Copy, PartialEq, Eq, Structural, Debug, Hash)]
pub enum Language {
    English,
    German,
    Spanish,
    French,
    Dutch,
    Swedish,
    Russian,
    Hungarian,
    Slovenian,
}

/// A fixed rank for each language, used only to order otherwise equal rows
/// deterministically.
pub open spec fn lang_rank(l: Language) -> int {
    match l {
        Language::English => 0,
        Language::German => 1,
        Language::Spanish => 2,
        Language::French => 3,
        Language::Dutch => 4,
        Language::Swedish => 5,
        Language::Russian => 6,
        Language::Hungarian => 7,
        Language::Slovenian => 8,
    }
}

/// Computes the rank of a language.
pub fn lang_rank_of(l: Language) -> (r: u8)
    ensures
        r as int == lang_rank(l),
{
    match l {
        Language::English => 0,
        Language::German => 1,
        Language::Spanish => 2,
        Language::French => 3,
        Language::Dutch => 4,
        Language::Swedish => 5,
        Language::Russian => 6,
        Language::Hungarian => 7,
        Language::Slovenian => 8,
    }
}

impl Default for Language {
    /// English is the default content language.
    fn default() -> (l: Language)
        ensures
            l == Language::English,
    {
        Language::English
    }
}

} // verus!
