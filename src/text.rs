use vstd::prelude::*;
use vstd::utf8::{decode_utf8, valid_utf8};

verus! {

/// Index of the first NUL byte of `s`, if there is one.
pub open spec fn first_nul(s: Seq<u8>) -> Option<int> {
    if exists|i: int| 0 <= i < s.len() && s[i] == 0 {
        Some(choose|i: int| 0 <= i < s.len() && s[i] == 0 && forall|j: int| 0 <= j < i ==> s[j] != 0)
    } else {
        None
    }
}

/// The bytes of `s` before its first NUL, or all of `s` where it holds none.
pub open spec fn until_nul(s: Seq<u8>) -> Seq<u8> {
    match first_nul(s) {
        Some(i) => s.subrange(0, i),
        None => s,
    }
}

/// Finds the first NUL byte of `buf`.
pub fn find_nul(buf: &[u8]) -> (r: Option<usize>)
    ensures
        r matches Some(i) ==> first_nul(buf@) == Some(i as int) && i < buf@.len(),
        r is None ==> first_nul(buf@) is None,
{
    let mut i: usize = 0;
    while i < buf.len()
        invariant
            i <= buf@.len(),
            forall|j: int| 0 <= j < i ==> buf@[j] != 0,
        decreases buf@.len() - i,
    {
        if buf[i] == 0 {
            let ghost s = buf@;
            assert(0 <= i < s.len() && s[i as int] == 0);
            let ghost k = choose|k: int|
                0 <= k < s.len() && s[k] == 0 && forall|j: int| 0 <= j < k ==> s[j] != 0;
            assert(exists|k: int|
                0 <= k < s.len() && s[k] == 0 && forall|j: int| 0 <= j < k ==> s[j] != 0) by {
                assert(forall|j: int| 0 <= j < i ==> s[j] != 0);
            }
            assert(k == i) by {
                if k < i {
                    assert(s[k] != 0);
                } else if k > i {
                    assert(s[i as int] != 0);
                }
            }
            return Some(i);
        }
        i = i + 1;
    }
    None
}

/// Relies on `String::from_utf8`: it accepts exactly the valid UTF-8
/// sequences, and the string it returns holds the characters they encode.
#[verifier::external_body]
pub(crate) fn utf8_string(bytes: Vec<u8>) -> (r: Option<String>)
    ensures
        r is Some <==> valid_utf8(bytes@),
        r matches Some(s) ==> s@ == decode_utf8(bytes@),
{
    String::from_utf8(bytes).ok()
}

/// Turns the bytes of an interface name into a string, where they are
/// valid UTF-8.
pub fn name_string(name: &[u8]) -> (r: Option<String>)
    ensures
        r is Some <==> valid_utf8(name@),
        r matches Some(s) ==> s@ == decode_utf8(name@),
{
    let mut v: Vec<u8> = Vec::new();
    crate::bytes::push_all(&mut v, name);
    assert(v@ =~= name@);
    utf8_string(v)
}

/// The bytes of `buf` before its first NUL, or all of `buf` where it holds
/// none.
pub fn strip_nul(buf: &[u8]) -> (r: Vec<u8>)
    ensures
        r@ == until_nul(buf@),
{
    let end = match find_nul(buf) {
        Some(i) => i,
        None => buf.len(),
    };
    let mut out: Vec<u8> = Vec::new();
    crate::bytes::push_all(&mut out, vstd::slice::slice_subrange(buf, 0, end));
    assert(out@ =~= until_nul(buf@));
    out
}

} // verus!
