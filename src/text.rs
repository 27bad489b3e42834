//! Text facts shared by the budget engine: Unicode whitespace, trimming, and how
//! UTF-8 byte offsets relate to character sequences.

use vstd::prelude::*;
use vstd::string::StringSliceAdditionalSpecFns;
use vstd::utf8::*;

verus! {

broadcast use vstd::utf8::group_utf8_lib;

/// The characters with the Unicode `White_Space` property.
pub open spec fn is_white_space(c: char) -> bool {
    let u = c as u32;
    (9 <= u <= 13) || u == 32 || u == 0x85 || u == 0xa0 || u == 0x1680 || (0x2000 <= u <= 0x200a)
        || u == 0x2028 || u == 0x2029 || u == 0x202f || u == 0x205f || u == 0x3000
}

/// `s` without its trailing whitespace.
pub open spec fn trim_end_ws(s: Seq<char>) -> Seq<char>
    decreases s.len(),
{
    if s.len() > 0 && is_white_space(s.last()) {
        trim_end_ws(s.drop_last())
    } else {
        s
    }
}

/// `s` without its leading whitespace.
pub open spec fn trim_start_ws(s: Seq<char>) -> Seq<char>
    decreases s.len(),
{
    if s.len() > 0 && is_white_space(s[0]) {
        trim_start_ws(s.drop_first())
    } else {
        s
    }
}

/// The characters whose UTF-8 encoding is the first `end` bytes of that of `s`.
pub open spec fn byte_prefix(s: Seq<char>, end: int) -> Seq<char> {
    decode_utf8(encode_utf8(s).subrange(0, end))
}

/// The characters whose UTF-8 encoding is the bytes of that of `s` from `start` on.
pub open spec fn byte_suffix(s: Seq<char>, start: int) -> Seq<char> {
    decode_utf8(encode_utf8(s).subrange(start, encode_utf8(s).len() as int))
}

/// Relies on `str::trim_end`: it removes the trailing characters that have the
/// Unicode `White_Space` property.
#[verifier::external_body]
pub(crate) fn trim_end<'a>(s: &'a str) -> (r: &'a str)
    ensures
        r@ == trim_end_ws(s@),
{
    s.trim_end()
}

/// Relies on `str::trim_start`: it removes the leading characters that have the
/// Unicode `White_Space` property.
#[verifier::external_body]
pub(crate) fn trim_start<'a>(s: &'a str) -> (r: &'a str)
    ensures
        r@ == trim_start_ws(s@),
{
    s.trim_start()
}

/// `s` with each occurrence of `from` replaced by `to`, scanning from the left
/// and never overlapping.
pub open spec fn replace_all(s: Seq<char>, from: Seq<char>, to: Seq<char>) -> Seq<char>
    decreases s.len(),
{
    if s.len() == 0 {
        s
    } else if 0 < from.len() <= s.len() && s.subrange(0, from.len() as int) == from {
        to + replace_all(s.subrange(from.len() as int, s.len() as int), from, to)
    } else {
        seq![s[0]] + replace_all(s.drop_first(), from, to)
    }
}

/// Relies on `str::replace`: it replaces every match of `from`, found from the
/// left without overlap, with `to`.
#[verifier::external_body]
pub(crate) fn replace(s: &str, from: &str, to: &str) -> (r: String)
    requires
        from@.len() > 0,
    ensures
        r@ == replace_all(s@, from@, to@),
{
    s.replace(from, to)
}

/// Trimming trailing whitespace keeps a prefix, and doing it twice changes nothing more.
pub proof fn lemma_trim_end_prefix(s: Seq<char>)
    ensures
        trim_end_ws(s).len() <= s.len(),
        trim_end_ws(s) == s.subrange(0, trim_end_ws(s).len() as int),
        trim_end_ws(trim_end_ws(s)) == trim_end_ws(s),
    decreases s.len(),
{
    if s.len() > 0 && is_white_space(s.last()) {
        lemma_trim_end_prefix(s.drop_last());
        assert(s.drop_last().subrange(0, trim_end_ws(s).len() as int) =~= s.subrange(
            0,
            trim_end_ws(s).len() as int,
        ));
    } else {
        assert(s.subrange(0, s.len() as int) =~= s);
    }
}

/// Trimming leading whitespace keeps a suffix, and doing it twice changes nothing more.
pub proof fn lemma_trim_start_suffix(s: Seq<char>)
    ensures
        trim_start_ws(s).len() <= s.len(),
        trim_start_ws(s) == s.subrange(s.len() - trim_start_ws(s).len(), s.len() as int),
        trim_start_ws(trim_start_ws(s)) == trim_start_ws(s),
    decreases s.len(),
{
    if s.len() > 0 && is_white_space(s[0]) {
        lemma_trim_start_suffix(s.drop_first());
        assert(s.drop_first().subrange(
            s.drop_first().len() - trim_start_ws(s).len(),
            s.drop_first().len() as int,
        ) =~= s.subrange(s.len() - trim_start_ws(s).len(), s.len() as int));
    } else {
        assert(s.subrange(0, s.len() as int) =~= s);
    }
}

/// The UTF-8 encoding of a concatenation is the concatenation of the encodings.
pub proof fn lemma_encode_concat(a: Seq<char>, b: Seq<char>)
    ensures
        encode_utf8(a + b) == encode_utf8(a) + encode_utf8(b),
    decreases a.len(),
{
    if a.len() == 0 {
        assert(a + b =~= b);
        assert(encode_utf8(a) + encode_utf8(b) =~= encode_utf8(b));
    } else {
        assert((a + b).drop_first() =~= a.drop_first() + b);
        lemma_encode_concat(a.drop_first(), b);
        assert(encode_utf8(a + b) =~= encode_utf8(a) + encode_utf8(b));
    }
}

/// Decoding a byte range that starts and ends on character boundaries and
/// encoding it again gives the same bytes.
pub proof fn lemma_byte_range_round_trip(s: Seq<char>, start: int, end: int)
    requires
        0 <= start <= end <= encode_utf8(s).len(),
        is_char_boundary(encode_utf8(s), start),
        is_char_boundary(encode_utf8(s), end),
    ensures
        valid_utf8(encode_utf8(s).subrange(start, end)),
        encode_utf8(decode_utf8(encode_utf8(s).subrange(start, end))) == encode_utf8(s).subrange(
            start,
            end,
        ),
{
    let b = encode_utf8(s);
    valid_utf8_split(b, end);
    let head = b.subrange(0, end);
    assert(is_char_boundary(head, start)) by {
        lemma_boundary_in_prefix(b, start, end);
    }
    valid_utf8_split(head, start);
    assert(head.subrange(start, head.len() as int) =~= b.subrange(start, end));
    decode_utf8_encode_utf8(b.subrange(start, end));
}

/// A character boundary before `end` is still one in the first `end` bytes.
pub proof fn lemma_boundary_in_prefix(b: Seq<u8>, i: int, end: int)
    requires
        valid_utf8(b),
        0 <= i <= end <= b.len(),
        is_char_boundary(b, i),
        is_char_boundary(b, end),
    ensures
        valid_utf8(b.subrange(0, end)),
        is_char_boundary(b.subrange(0, end), i),
{
    valid_utf8_split(b, end);
    let head = b.subrange(0, end);
    if i < end {
        is_char_boundary_iff_not_is_continuation_byte(b, i);
        is_char_boundary_iff_not_is_continuation_byte(head, i);
    } else {
        is_char_boundary_start_end_of_seq(head);
    }
}

/// Whether the bytes of `b` occur in `a` starting at `at`.
pub open spec fn bytes_at(a: Seq<u8>, b: Seq<u8>, at: int) -> bool {
    0 <= at && at + b.len() <= a.len() && a.subrange(at, at + b.len()) == b
}

/// Whether the bytes of `b` occur in `a` starting at `at`.
pub fn bytes_match_at(a: &[u8], b: &[u8], at: usize) -> (r: bool)
    ensures
        r == bytes_at(a@, b@, at as int),
{
    if at > a.len() || b.len() > a.len() - at {
        return false;
    }
    let n = a.len();
    let mut i: usize = 0;
    while i < b.len()
        invariant
            0 <= i <= b.len(),
            n == a@.len(),
            at + b@.len() <= a@.len(),
            forall|k: int| 0 <= k < i ==> a@[at + k] == #[trigger] b@[k],
        decreases b.len() - i,
    {
        if a[at + i] != b[i] {
            assert(a@.subrange(at as int, at + b@.len())[i as int] != b@[i as int]);
            return false;
        }
        i = i + 1;
    }
    assert(a@.subrange(at as int, at + b@.len()) =~= b@);
    true
}

/// Whether two texts are the same.
pub fn str_eq(a: &str, b: &str) -> (r: bool)
    ensures
        r == (a@ == b@),
{
    let x = a.as_bytes();
    let y = b.as_bytes();
    let r = x.len() == y.len() && bytes_match_at(x, y, 0);
    proof {
        if a@ == b@ {
            assert(x@.subrange(0, y@.len() as int) =~= y@);
        }
        if r {
            assert(x@ =~= x@.subrange(0, y@.len() as int));
            assert(decode_utf8(encode_utf8(a@)) == a@);
            assert(decode_utf8(encode_utf8(b@)) == b@);
        }
    }
    r
}

/// Whether `s` starts with `p`.
pub fn starts_with(s: &str, p: &str) -> (r: bool)
    ensures
        r == bytes_at(s.spec_bytes(), p.spec_bytes(), 0),
{
    bytes_match_at(s.as_bytes(), p.as_bytes(), 0)
}

/// Whether `s` ends with `p`.
pub fn ends_with(s: &str, p: &str) -> (r: bool)
    ensures
        r == (p.spec_bytes().len() <= s.spec_bytes().len() && bytes_at(
            s.spec_bytes(),
            p.spec_bytes(),
            s.spec_bytes().len() - p.spec_bytes().len(),
        )),
{
    let x = s.as_bytes();
    let y = p.as_bytes();
    if y.len() > x.len() {
        return false;
    }
    bytes_match_at(x, y, x.len() - y.len())
}

/// Whether `p` occurs anywhere in `s`.
pub fn contains(s: &str, p: &str) -> (r: bool)
    ensures
        r == exists|at: int| bytes_at(s.spec_bytes(), p.spec_bytes(), at),
{
    let x = s.as_bytes();
    let y = p.as_bytes();
    if y.len() == 0 {
        assert(x@.subrange(0, 0) =~= y@);
        assert(bytes_at(x@, y@, 0));
        return true;
    }
    if y.len() > x.len() {
        return false;
    }
    let n = x.len();
    let last = n - y.len();
    let mut at: usize = 0;
    while at <= last
        invariant
            x@ == s.spec_bytes(),
            y@ == p.spec_bytes(),
            last == x@.len() - y@.len(),
            n == x@.len(),
            y@.len() > 0,
            forall|k: int| 0 <= k < at ==> !#[trigger] bytes_at(x@, y@, k),
        decreases last + 1 - at,
    {
        if bytes_match_at(x, y, at) {
            return true;
        }
        at = at + 1;
    }
    assert forall|k: int| !#[trigger] bytes_at(x@, y@, k) by {
        if 0 <= k < at {
        }
    }
    false
}

} // verus!
