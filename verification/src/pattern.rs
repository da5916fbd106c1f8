//! The optional text pattern used to force-discard outputs whose rendered
//! text matches it. The matching itself is done by the `regex` crate; what
//! it decides is named, not restated: [`pattern_compiles`] says whether a
//! pattern text compiles, [`pattern_matches`] what `is_match` answers for a
//! pattern and a haystack. Both are functions of their text arguments alone.

use vstd::prelude::*;

verus! {

#[verifier::external_type_specification]
#[verifier::external_body]
pub struct ExRegex(regex::Regex);

/// Whether `regex::Regex::new` accepts the pattern text.
pub uninterp spec fn pattern_compiles(p: Seq<char>) -> bool;

/// What `regex::Regex::is_match` answers for a pattern compiled from `p`
/// and the haystack `text`.
pub uninterp spec fn pattern_matches(p: Seq<char>, text: Seq<char>) -> bool;

/// A compiled pattern, together with the text it was compiled from. Only
/// [`Matcher::compile`] constructs one, so the two always belong together.
pub struct Matcher {
    re: regex::Regex,
    pat: String,
}

impl Matcher {
    /// The pattern text this matcher was compiled from.
    pub closed spec fn src(&self) -> Seq<char> {
        self.pat@
    }

    /// Relies on `regex::Regex::new`: it returns `Ok` or `Err` depending on
    /// the pattern text alone, and the compiled expression matches as that
    /// text prescribes.
    #[verifier::external_body]
    pub(crate) fn compile(p: &String) -> (r: Option<Matcher>)
        ensures
            r is Some <==> pattern_compiles(p@),
            r matches Some(m) ==> m.src() == p@,
    {
        match regex::Regex::new(p.as_str()) {
            Ok(re) => Some(Matcher { re, pat: p.clone() }),
            Err(_) => None,
        }
    }

    /// Relies on `regex::Regex::is_match`: whether the haystack contains a
    /// match depends only on the pattern text this matcher was compiled
    /// from (see [`Matcher::compile`]) and on the haystack.
    #[verifier::external_body]
    pub(crate) fn is_match(&self, text: &String) -> (r: bool)
        ensures
            r == pattern_matches(self.src(), text@),
    {
        self.re.is_match(text.as_str())
    }
}

} // verus!
