use vstd::prelude::*;

verus! {

/// A character with an ASCII lower-case letter raised to upper case.
pub open spec fn upper_ascii(c: char) -> char {
    if 'a' <= c && c <= 'z' {
        ((c as u32 - 32) as u8) as char
    } else {
        c
    }
}

/// Currency codes are compared without regard to ASCII case.
pub open spec fn upper_code_spec(s: Seq<char>) -> Seq<char> {
    s.map_values(|c: char| upper_ascii(c))
}

/// Relies on str::to_ascii_uppercase: the letters a to z become A to Z and
/// every other character is kept.
#[verifier::external_body]
pub(crate) fn upper_code(s: &str) -> (r: String)
    ensures
        r@ == upper_code_spec(s@),
{
    s.to_ascii_uppercase()
}

} // verus!
