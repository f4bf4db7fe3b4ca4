//! Text and bytes: what the codec and the store need to move between the
//! characters of a `String` and the bytes on the wire.

use vstd::prelude::*;
use vstd::slice::*;
use vstd::string::*;
use vstd::utf8::*;

verus! {

/// A sequence of ASCII bytes read as characters.
pub open spec fn ascii_text(bytes: Seq<u8>) -> Seq<char> {
    Seq::new(bytes.len(), |i: int| bytes[i] as char)
}

/// Every byte is an ASCII code.
pub open spec fn all_ascii(bytes: Seq<u8>) -> bool {
    forall|i: int| 0 <= i < bytes.len() ==> #[trigger] bytes[i] < 128
}

/// `needle` stands in `hay` at offset `at`.
pub open spec fn occurs_at(hay: Seq<u8>, needle: Seq<u8>, at: int) -> bool {
    0 <= at && at + needle.len() <= hay.len() && hay.subrange(at, at + needle.len()) == needle
}

/// `needle` stands somewhere in `hay`.
pub open spec fn occurs_in(hay: Seq<u8>, needle: Seq<u8>) -> bool {
    exists|at: int| occurs_at(hay, needle, at)
}

/// The text `hay` has `needle` as a substring.
pub open spec fn text_contains(hay: Seq<char>, needle: Seq<char>) -> bool {
    exists|at: int|
        0 <= at && at + needle.len() <= hay.len() && #[trigger] hay.subrange(
            at,
            at + needle.len(),
        ) == needle
}

/// The encoding of a concatenation is the concatenation of the encodings.
pub proof fn lemma_encode_concat(a: Seq<char>, b: Seq<char>)
    ensures
        encode_utf8(a + b) == encode_utf8(a) + encode_utf8(b),
    decreases a.len(),
{
    if a.len() == 0 {
        assert(a + b =~= b);
        assert(encode_utf8(a) + encode_utf8(b) =~= encode_utf8(b));
    } else {
        lemma_encode_concat(a.drop_first(), b);
        assert((a + b).drop_first() =~= a.drop_first() + b);
        assert((a + b)[0] == a[0]);
        assert(encode_utf8(a + b) =~= encode_utf8(a) + encode_utf8(b));
    }
}

/// ASCII bytes read as characters encode back to the same bytes.
pub proof fn lemma_ascii_encode(bytes: Seq<u8>)
    requires
        all_ascii(bytes),
    ensures
        encode_utf8(ascii_text(bytes)) == bytes,
        decode_utf8(bytes) == ascii_text(bytes),
        valid_utf8(bytes),
{
    let t = ascii_text(bytes);
    assert forall|i: int| 0 <= i < t.len() implies '\0' <= #[trigger] t[i] <= '\u{7f}' by {
        assert(bytes[i] < 128);
    }
    is_ascii_chars_encode_utf8(t);
    assert(encode_utf8(t) =~= bytes);
    encode_utf8_decode_utf8(t);
    encode_utf8_valid_utf8(t);
}

/// Two texts with the same encoding are the same text.
pub proof fn lemma_encode_injective(a: Seq<char>, b: Seq<char>)
    requires
        encode_utf8(a) == encode_utf8(b),
    ensures
        a == b,
{
    encode_utf8_decode_utf8(a);
    encode_utf8_decode_utf8(b);
}

/// The empty text is a substring of every text.
pub proof fn lemma_contains_empty(hay: Seq<char>)
    ensures
        text_contains(hay, Seq::empty()),
{
    let none = Seq::<char>::empty();
    assert(hay.subrange(0int, 0int + none.len()) =~= none);
}

/// Valid UTF-8 that starts with valid UTF-8 goes on with valid UTF-8, and
/// decodes part by part.
proof fn lemma_decode_prefix(first: Seq<u8>, rest: Seq<u8>)
    requires
        valid_utf8(first),
        valid_utf8(first + rest),
    ensures
        valid_utf8(rest),
        decode_utf8(first + rest) == decode_utf8(first) + decode_utf8(rest),
    decreases first.len(),
{
    let whole = first + rest;
    if first.len() == 0 {
        assert(whole =~= rest);
        assert(decode_utf8(first) + decode_utf8(rest) =~= decode_utf8(rest));
    } else {
        let width = length_of_first_scalar(first);
        assert(valid_first_scalar(first));
        assert(1 <= width <= 4 && width <= first.len());
        assert(whole[0] == first[0]);
        if first.len() > 1 {
            assert(whole[1] == first[1]);
        }
        if first.len() > 2 {
            assert(whole[2] == first[2]);
        }
        if first.len() > 3 {
            assert(whole[3] == first[3]);
        }
        assert(length_of_first_scalar(whole) == width);
        assert(decode_first_scalar(whole) == decode_first_scalar(first));
        assert(pop_first_scalar(whole) =~= pop_first_scalar(first) + rest);
        lemma_decode_prefix(pop_first_scalar(first), rest);
        assert(decode_utf8(whole) =~= decode_utf8(first) + decode_utf8(rest));
    }
}

/// A text has another as a substring exactly when the bytes of the one hold
/// the bytes of the other.
pub proof fn lemma_text_contains(hay: Seq<char>, needle: Seq<char>)
    ensures
        text_contains(hay, needle) <==> occurs_in(encode_utf8(hay), encode_utf8(needle)),
{
    let h = encode_utf8(hay);
    let n = encode_utf8(needle);
    encode_utf8_valid_utf8(hay);
    encode_utf8_valid_utf8(needle);
    encode_utf8_decode_utf8(hay);
    encode_utf8_decode_utf8(needle);
    if text_contains(hay, needle) {
        let at = choose|at: int|
            0 <= at && at + needle.len() <= hay.len() && #[trigger] hay.subrange(
                at,
                at + needle.len(),
            ) == needle;
        let before = hay.subrange(0, at);
        let after = hay.subrange(at + needle.len(), hay.len() as int);
        assert(hay =~= before + needle + after);
        lemma_encode_concat(before + needle, after);
        lemma_encode_concat(before, needle);
        let k = encode_utf8(before).len() as int;
        assert(h.subrange(k, k + n.len()) =~= n);
        assert(occurs_at(h, n, k));
    }
    if occurs_in(h, n) {
        let k = choose|k: int| occurs_at(h, n, k);
        if needle.len() == 0 {
            lemma_contains_empty(hay);
        } else {
            assert(n =~= encode_scalar(needle[0] as u32) + encode_utf8(needle.drop_first()));
            assert(n.len() > 0);
            assert(valid_first_scalar(n));
            assert(h[k] == h.subrange(k, k + n.len())[0]);
            is_char_boundary_iff_is_leading_byte(h, k);
            assert(is_char_boundary(h, k));
            valid_utf8_split(h, k);
            decode_utf8_split(h, k);
            let left = h.subrange(0, k);
            let right = h.subrange(k, h.len() as int);
            let rest = h.subrange(k + n.len(), h.len() as int);
            assert(right =~= n + rest);
            lemma_decode_prefix(n, rest);
            let before = decode_utf8(left);
            let after = decode_utf8(rest);
            assert(hay =~= before + needle + after);
            let at = before.len() as int;
            assert(hay.subrange(at, at + needle.len()) =~= needle);
        }
    }
}

/// Whether two byte strings are equal.
pub fn bytes_equal(a: &[u8], b: &[u8]) -> (r: bool)
    ensures
        r == (a@ == b@),
{
    if a.len() != b.len() {
        return false;
    }
    let n: usize = a.len();
    let mut i: usize = 0;
    while i < n
        invariant
            i <= n,
            n == a@.len(),
            n == b@.len(),
            a@.subrange(0, i as int) == b@.subrange(0, i as int),
        decreases n - i,
    {
        if a[i] != b[i] {
            return false;
        }
        assert(a@.subrange(0, i + 1) =~= a@.subrange(0, i as int).push(a@[i as int]));
        assert(b@.subrange(0, i + 1) =~= b@.subrange(0, i as int).push(b@[i as int]));
        i = i + 1;
    }
    assert(a@ =~= a@.subrange(0, n as int));
    assert(b@ =~= b@.subrange(0, n as int));
    true
}

/// Whether two texts are equal, character for character.
pub fn same_text(a: &str, b: &str) -> (r: bool)
    ensures
        r == (a@ == b@),
{
    let r = bytes_equal(a.as_bytes(), b.as_bytes());
    proof {
        if r {
            lemma_encode_injective(a@, b@);
        }
    }
    r
}

/// Whether `needle` stands in `hay` at offset `at`.
fn matches_at(hay: &[u8], needle: &[u8], at: usize) -> (r: bool)
    requires
        at + needle@.len() <= hay@.len(),
    ensures
        r == occurs_at(hay@, needle@, at as int),
{
    let n: usize = hay.len();
    let m: usize = needle.len();
    let mut j: usize = 0;
    while j < m
        invariant
            j <= m,
            m == needle@.len(),
            n == hay@.len(),
            at + m <= n,
            hay@.subrange(at as int, at + j) == needle@.subrange(0, j as int),
        decreases m - j,
    {
        if hay[at + j] != needle[j] {
            assert(hay@.subrange(at as int, at + m)[j as int] != needle@[j as int]);
            return false;
        }
        assert(hay@.subrange(at as int, at + j + 1) =~= hay@.subrange(at as int, at + j).push(
            hay@[at + j],
        ));
        assert(needle@.subrange(0, j + 1) =~= needle@.subrange(0, j as int).push(
            needle@[j as int],
        ));
        j = j + 1;
    }
    assert(needle@ =~= needle@.subrange(0, m as int));
    true
}

/// Whether `needle` stands somewhere in `hay`.
pub fn bytes_contain(hay: &[u8], needle: &[u8]) -> (r: bool)
    ensures
        r == occurs_in(hay@, needle@),
{
    let n: usize = hay.len();
    let m: usize = needle.len();
    if m > n {
        return false;
    }
    let last: usize = n - m;
    let mut at: usize = 0;
    loop
        invariant
            at <= last,
            last == n - m,
            n == hay@.len(),
            m == needle@.len(),
            m <= n,
            forall|k: int| 0 <= k < at ==> !occurs_at(hay@, needle@, k),
        decreases last - at,
    {
        if matches_at(hay, needle, at) {
            return true;
        }
        if at == last {
            return false;
        }
        at = at + 1;
    }
}

/// Whether the text `hay` has `needle` as a substring.
pub fn contains(hay: &str, needle: &str) -> (r: bool)
    ensures
        r == text_contains(hay@, needle@),
{
    proof {
        lemma_text_contains(hay@, needle@);
    }
    bytes_contain(hay.as_bytes(), needle.as_bytes())
}

/// The views of a sequence of strings.
pub open spec fn texts(v: Seq<String>) -> Seq<Seq<char>> {
    v.map_values(|s: String| s@)
}

/// What `String::from_utf8_lossy` makes of a byte string.
pub uninterp spec fn lossy_text(bytes: Seq<u8>) -> Seq<char>;

/// What `str::to_lowercase` makes of a text.
pub uninterp spec fn lowercase_text(s: Seq<char>) -> Seq<char>;

/// `String::from_utf8`: the bytes as text. It succeeds exactly when the bytes
/// are valid UTF-8, and the text then holds the characters they encode.
#[verifier::external_body]
pub(crate) fn text_of(bytes: Vec<u8>) -> (r: Option<String>)
    ensures
        r is Some <==> valid_utf8(bytes@),
        r matches Some(s) ==> s@ == decode_utf8(bytes@),
{
    match String::from_utf8(bytes) {
        Ok(s) => Some(s),
        Err(_) => None,
    }
}

/// `String::from_utf8_lossy`: the bytes as text, with a replacement character
/// for what is not UTF-8. Valid UTF-8 comes back as the text it encodes.
#[verifier::external_body]
pub(crate) fn text_of_lossy(bytes: &[u8]) -> (r: String)
    ensures
        r@ == lossy_text(bytes@),
        valid_utf8(bytes@) ==> r@ == decode_utf8(bytes@),
{
    String::from_utf8_lossy(bytes).into_owned()
}

/// `str::to_lowercase`: the text in lower case, by the rules of Unicode.
#[verifier::external_body]
pub(crate) fn lowercase(s: &str) -> (r: String)
    ensures
        r@ == lowercase_text(s@),
{
    s.to_lowercase()
}

} // verus!
