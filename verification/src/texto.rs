use vstd::prelude::*;
use vstd::string::StringExecFns;

verus! {

/// Appends one character to a `String`.
///
/// Trusted: `String::push`, which std documents as appending the given `char`
/// to the end of the string.
#[verifier::external_body]
pub fn agregar_caracter(s: &mut String, c: char)
    ensures
        final(s)@ == old(s)@.push(c),
{
    s.push(c);
}

/// Appends a string slice to a `String`.
pub fn agregar_texto(s: &mut String, t: &str)
    ensures
        final(s)@ == old(s)@ + t@,
{
    s.append(t);
}

/// Tells whether two string slices hold the same characters.
///
/// Trusted: `PartialEq::eq` on `str`, which std documents as comparing the
/// contents of the two slices.
#[verifier::external_body]
pub fn textos_iguales(a: &str, b: &str) -> (r: bool)
    ensures
        r == (a@ == b@),
{
    a == b
}

} // verus!
