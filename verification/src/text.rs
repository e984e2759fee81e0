//! The few words that services exchange as text (`JOIN`, `WELCOME`, `REJECT`).
use vstd::prelude::*;
use vstd::string::*;
use vstd::utf8::*;

verus! {

/// The characters that `String::from_utf8_lossy` reads from bytes.
pub uninterp spec fn lossy_utf8(bytes: Seq<u8>) -> Seq<char>;

/// A character with the Unicode `White_Space` property, as `char::is_whitespace` tells.
pub open spec fn is_white_space(c: char) -> bool {
    let v = c as u32;
    (0x09 <= v && v <= 0x0D) || v == 0x20 || v == 0x85 || v == 0xA0 || v == 0x1680 || (0x2000 <= v && v
        <= 0x200A) || v == 0x2028 || v == 0x2029 || v == 0x202F || v == 0x205F || v == 0x3000
}

/// The number of white-space characters that a string begins with.
pub open spec fn leading_white(s: Seq<char>) -> nat
    decreases s.len(),
{
    if s.len() > 0 && is_white_space(s[0]) {
        1 + leading_white(s.skip(1))
    } else {
        0
    }
}

/// The number of white-space characters that a string ends with.
pub open spec fn trailing_white(s: Seq<char>) -> nat
    decreases s.len(),
{
    if s.len() > 0 && is_white_space(s.last()) {
        1 + trailing_white(s.drop_last())
    } else {
        0
    }
}

/// What `str::trim_start` leaves of a string: it without its leading white space.
pub open spec fn trimmed_start(s: Seq<char>) -> Seq<char> {
    s.skip(leading_white(s) as int)
}

/// What `str::trim` leaves of a string: it without its leading and trailing white space.
pub open spec fn trimmed(s: Seq<char>) -> Seq<char> {
    let t = trimmed_start(s);
    t.take(t.len() - trailing_white(t))
}

/// Calls `String::from_utf8_lossy`: the text of the bytes, with each invalid
/// sequence replaced; for valid UTF-8 it is exactly the decoded characters.
#[verifier::external_body]
fn text_lossy(bytes: &[u8]) -> (r: String)
    ensures
        r@ == lossy_utf8(bytes@),
        valid_utf8(bytes@) ==> r@ == decode_utf8(bytes@),
{
    String::from_utf8_lossy(bytes).into_owned()
}

/// Calls `str::trim`: the string without its leading and trailing
/// characters of the Unicode `White_Space` property, a contiguous part of it.
#[verifier::external_body]
fn trim(s: &str) -> (r: &str)
    ensures
        r@ == trimmed(s@),
{
    s.trim()
}

/// Calls `str::trim_start`: the string without its leading characters of
/// the Unicode `White_Space` property, an end of it.
#[verifier::external_body]
fn trim_start(s: &str) -> (r: &str)
    ensures
        r@ == trimmed_start(s@),
{
    s.trim_start()
}

/// Whether `s` begins with `prefix`.
pub fn starts_with(s: &str, prefix: &str) -> (r: bool)
    ensures
        r == prefix@.is_prefix_of(s@),
{
    let n = prefix.unicode_len();
    let m = s.unicode_len();
    if n > m {
        return false;
    }
    let mut i: usize = 0;
    while i < n
        invariant
            i <= n <= m,
            n == prefix@.len(),
            m == s@.len(),
            forall|j: int| 0 <= j < i ==> prefix@[j] == s@[j],
        decreases n - i,
    {
        if prefix.get_char(i) != s.get_char(i) {
            return false;
        }
        i += 1;
    }
    true
}

/// Whether two strings are the same text.
pub fn same_text(a: &str, b: &str) -> (r: bool)
    ensures
        r == (a@ == b@),
{
    if a.unicode_len() != b.unicode_len() {
        return false;
    }
    let r = starts_with(a, b);
    proof {
        if r {
            assert(a@ =~= b@);
        }
    }
    r
}

/// The text of the bytes with surrounding whitespace trimmed begins with `word`.
pub open spec fn trimmed_text_starts_with(bytes: Seq<u8>, word: Seq<char>) -> bool {
    word.is_prefix_of(trimmed(lossy_utf8(bytes)))
}

/// The text of the bytes with leading whitespace trimmed begins with `word`.
pub open spec fn text_starts_with(bytes: Seq<u8>, word: Seq<char>) -> bool {
    word.is_prefix_of(trimmed_start(lossy_utf8(bytes)))
}

/// Whether the bytes are a join request: their text, trimmed, begins with `JOIN `.
pub fn is_join_request(data: &[u8]) -> (r: bool)
    ensures
        r == trimmed_text_starts_with(data@, seq!['J', 'O', 'I', 'N', ' ']),
{
    let text = text_lossy(data);
    let t = trim(text.as_str());
    proof {
        reveal_strlit("JOIN ");
    }
    let r = starts_with(t, "JOIN ");
    assert("JOIN "@ =~= seq!['J', 'O', 'I', 'N', ' ']);
    r
}

/// Whether the bytes are the broker's welcome: their text, without leading
/// whitespace, begins with `WELCOME`.
pub fn is_welcome(data: &[u8]) -> (r: bool)
    ensures
        r == text_starts_with(data@, seq!['W', 'E', 'L', 'C', 'O', 'M', 'E']),
{
    let text = text_lossy(data);
    let t = trim_start(text.as_str());
    proof {
        reveal_strlit("WELCOME");
    }
    let r = starts_with(t, "WELCOME");
    assert("WELCOME"@ =~= seq!['W', 'E', 'L', 'C', 'O', 'M', 'E']);
    r
}

/// Whether the bytes are a rejection: their text, without leading whitespace,
/// begins with `REJECT`.
pub fn is_reject(data: &[u8]) -> (r: bool)
    ensures
        r == text_starts_with(data@, seq!['R', 'E', 'J', 'E', 'C', 'T']),
{
    let text = text_lossy(data);
    let t = trim_start(text.as_str());
    proof {
        reveal_strlit("REJECT");
    }
    let r = starts_with(t, "REJECT");
    assert("REJECT"@ =~= seq!['R', 'E', 'J', 'E', 'C', 'T']);
    r
}

} // verus!
