//! Display-friendly capitalization of observed key names, used to build
//! record name hints.

use vstd::prelude::*;

use inflector::Inflector;

verus! {

/// The pascal-cased form of a string: the result of inflector's
/// `to_pascal_case`, which depends on the input characters alone.
pub uninterp spec fn pascal_of(s: Seq<char>) -> Seq<char>;

/// Relies on inflector's `Inflector::to_pascal_case` for `str`: a pure
/// function of the input characters, here only given a name.
#[verifier::external_body]
pub(crate) fn pascal_case(s: &str) -> (r: String)
    ensures
        r@ == pascal_of(s@),
{
    s.to_pascal_case()
}

} // verus!
