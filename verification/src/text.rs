//! Text helpers over `str`, stated on the characters of a string.

use vstd::prelude::*;
use vstd::string::*;
use vstd::utf8::*;

verus! {

/// Two strings with the same UTF-8 bytes hold the same characters.
pub proof fn lemma_same_bytes_same_chars(a: Seq<char>, b: Seq<char>)
    requires
        encode_utf8(a) == encode_utf8(b),
    ensures
        a == b,
{
    encode_utf8_decode_utf8(a);
    encode_utf8_decode_utf8(b);
}

/// Whether two byte slices hold the same bytes.
fn same_bytes(a: &[u8], b: &[u8]) -> (r: bool)
    ensures
        r == (a@ == b@),
{
    if a.len() != b.len() {
        return false;
    }
    let mut i: usize = 0;
    while i < a.len()
        invariant
            a@.len() == b@.len(),
            i <= a@.len(),
            forall|j: int| 0 <= j < i ==> a@[j] == b@[j],
        decreases a@.len() - i,
    {
        if a[i] != b[i] {
            return false;
        }
        i += 1;
    }
    assert(a@ =~= b@);
    true
}

/// Whether two strings hold the same characters.
pub fn same_text(a: &str, b: &str) -> (r: bool)
    ensures
        r == (a@ == b@),
{
    let r = same_bytes(a.as_bytes(), b.as_bytes());
    proof {
        if r {
            lemma_same_bytes_same_chars(a@, b@);
        }
    }
    r
}

/// The number of characters of `prefix`, where `text` starts with `prefix`
/// character for character, and `None` where it does not.
pub fn prefix_len(text: &str, prefix: &str) -> (r: Option<usize>)
    ensures
        match r {
            Some(n) => prefix@.is_prefix_of(text@) && n == prefix@.len(),
            None => !prefix@.is_prefix_of(text@),
        },
{
    let n = prefix.unicode_len();
    if n > text.unicode_len() {
        return None;
    }
    if same_text(text.substring_char(0, n), prefix) {
        Some(n)
    } else {
        None
    }
}

/// Whether `prefix` is a literal prefix of `text`, character for character.
pub fn starts_with(text: &str, prefix: &str) -> (r: bool)
    ensures
        r == prefix@.is_prefix_of(text@),
{
    prefix_len(text, prefix).is_some()
}

} // verus!
