//! Comparing text.
use vstd::prelude::*;

verus! {

/// Whether two strings hold the same characters.
pub fn str_eq(a: &str, b: &str) -> (equal: bool)
    ensures
        equal == (a@ == b@),
{
    let n = a.unicode_len();
    if n != b.unicode_len() {
        return false;
    }
    let mut i: usize = 0;
    while i < n
        invariant
            i <= n,
            n == a@.len(),
            n == b@.len(),
            forall|j: int| 0 <= j < i ==> a@[j] == b@[j],
        decreases n - i,
    {
        if a.get_char(i) != b.get_char(i) {
            return false;
        }
        i += 1;
    }
    proof {
        assert(a@ =~= b@);
    }
    true
}

/// The UTF-8 bytes of a text.
pub fn text_bytes(text: &str) -> (bytes: Vec<u8>)
    ensures
        bytes@ == vstd::utf8::encode_utf8(text@),
{
    let raw = text.as_bytes();
    let mut bytes: Vec<u8> = Vec::new();
    let mut i: usize = 0;
    while i < raw.len()
        invariant
            i <= raw@.len(),
            raw@ == vstd::utf8::encode_utf8(text@),
            bytes@ == raw@.take(i as int),
        decreases raw@.len() - i,
    {
        bytes.push(raw[i]);
        proof {
            assert(raw@.take(i + 1) =~= raw@.take(i as int).push(raw@[i as int]));
        }
        i += 1;
    }
    proof {
        assert(raw@.take(i as int) =~= raw@);
    }
    bytes
}

} // verus!
