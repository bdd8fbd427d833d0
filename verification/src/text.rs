use vstd::prelude::*;

verus! {

/// Relies on `String::push`: appends exactly one character.
#[verifier::external_body]
pub(crate) fn push_char(s: &mut String, c: char)
    ensures
        final(s)@ == old(s)@.push(c),
{
    s.push(c);
}

/// Relies on `String::from_utf8`: a buffer of bytes below 128 is valid
/// UTF-8 and decodes to the string of the same code points.
#[verifier::external_body]
pub(crate) fn ascii_to_string(v: &[u8]) -> (r: String)
    requires
        forall|i: int| 0 <= i < v@.len() ==> v@[i] < 128,
    ensures
        r@ == v@.map_values(|b: u8| b as char),
{
    String::from_utf8(v.to_vec()).unwrap()
}

/// Whether every byte is below 128, so the buffer is ASCII text.
pub fn all_ascii(v: &[u8]) -> (r: bool)
    ensures
        r == forall|i: int| 0 <= i < v@.len() ==> v@[i] < 128,
{
    let n = v.len();
    let mut i: usize = 0;
    while i < n
        invariant
            n == v@.len(),
            i <= n,
            forall|j: int| 0 <= j < i ==> v@[j] < 128,
        decreases n - i,
    {
        if v[i] >= 128 {
            return false;
        }
        i = i + 1;
    }
    true
}

} // verus!
