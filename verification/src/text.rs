//! Characters and bytes: where the characters of a text stand in its UTF-8
//! encoding.

use vstd::prelude::*;
use vstd::utf8::*;

verus! {

/// `n`, cut down to the number of characters in `s`.
pub open spec fn clamp(s: Seq<char>, n: nat) -> nat {
    if n <= s.len() {
        n
    } else {
        s.len()
    }
}

/// The number of bytes that the first `n` characters of `s` take in UTF-8; all
/// of them where `s` has fewer.
pub open spec fn byte_offset(s: Seq<char>, n: nat) -> nat {
    encode_utf8(s.take(clamp(s, n) as int)).len()
}

/// Whether the byte offset `b` falls between two characters of `s`, or at
/// either end.
pub open spec fn on_boundary(s: Seq<char>, b: nat) -> bool {
    is_char_boundary(encode_utf8(s), b as int)
}

/// The number of characters of `s` that stand before the byte offset `b`.
pub open spec fn chars_before(s: Seq<char>, b: nat) -> nat {
    decode_utf8(encode_utf8(s).take(b as int)).len()
}

/// The characters of `s` between two byte offsets.
pub open spec fn text_between(s: Seq<char>, lo: nat, hi: nat) -> Seq<char> {
    decode_utf8(encode_utf8(s).subrange(lo as int, hi as int))
}

proof fn lemma_encode_concat(a: Seq<char>, b: Seq<char>)
    ensures
        encode_utf8(a + b) == encode_utf8(a) + encode_utf8(b),
    decreases a.len(),
{
    if a.len() == 0 {
        assert(a + b =~= b);
        assert(encode_utf8(a) + encode_utf8(b) =~= encode_utf8(b));
    } else {
        lemma_encode_concat(a.drop_first(), b);
        assert((a + b).drop_first() =~= a.drop_first() + b);
        assert(encode_utf8(a + b) =~= encode_utf8(a) + encode_utf8(b));
    }
}

/// Equal encodings have equal characters.
proof fn lemma_encode_injective(a: Seq<char>, b: Seq<char>)
    requires
        encode_utf8(a) == encode_utf8(b),
    ensures
        a == b,
{
    encode_utf8_decode_utf8(a);
    encode_utf8_decode_utf8(b);
}

/// The encoding of `s` splits at the offset of its `n`-th character.
proof fn lemma_encode_split(s: Seq<char>, n: nat)
    requires
        n <= s.len(),
    ensures
        byte_offset(s, n) <= encode_utf8(s).len(),
        encode_utf8(s).take(byte_offset(s, n) as int) == encode_utf8(s.take(n as int)),
        encode_utf8(s).skip(byte_offset(s, n) as int) == encode_utf8(s.skip(n as int)),
{
    let head = s.take(n as int);
    let tail = s.skip(n as int);
    assert(s =~= head + tail);
    lemma_encode_concat(head, tail);
    assert(encode_utf8(s).take(byte_offset(s, n) as int) =~= encode_utf8(head));
    assert(encode_utf8(s).skip(byte_offset(s, n) as int) =~= encode_utf8(tail));
}

/// One character further is one encoded character further.
pub proof fn lemma_offset_step(s: Seq<char>, n: nat)
    requires
        n < s.len(),
    ensures
        byte_offset(s, n + 1) == byte_offset(s, n) + encode_scalar(s[n as int] as u32).len(),
{
    let head = s.take(n as int);
    let one = seq![s[n as int]];
    assert(s.take((n + 1) as int) =~= head + one);
    lemma_encode_concat(head, one);
    assert(one.drop_first() =~= Seq::<char>::empty());
    assert(encode_utf8(one) =~= encode_scalar(s[n as int] as u32)) by {
        assert(encode_utf8(one.drop_first()).len() == 0);
    }
}

/// Offsets grow with the character count, strictly up to the end of the text,
/// and never pass it. In ASCII text they are the character count itself.
pub proof fn lemma_offset_bounds(s: Seq<char>, a: nat, b: nat)
    requires
        a <= b,
    ensures
        byte_offset(s, a) <= byte_offset(s, b) <= encode_utf8(s).len(),
        a < b <= s.len() ==> byte_offset(s, a) < byte_offset(s, b),
        is_ascii_chars(s) ==> byte_offset(s, a) == clamp(s, a),
{
    let (m, n) = (clamp(s, a), clamp(s, b));
    lemma_encode_split(s, n);
    lemma_encode_split(s.take(n as int), m);
    assert(s.take(n as int).take(m as int) =~= s.take(m as int));
    if a < b <= s.len() {
        lemma_offset_is_boundary(s, a);
        lemma_offset_is_boundary(s, b);
    }
    if is_ascii_chars(s) {
        assert(is_ascii_chars(s.take(m as int)));
        is_ascii_chars_encode_utf8(s.take(m as int));
    }
}

/// Every character count has an offset on a boundary, and that offset gives
/// the count back.
pub proof fn lemma_offset_is_boundary(s: Seq<char>, n: nat)
    ensures
        on_boundary(s, byte_offset(s, n)),
        chars_before(s, byte_offset(s, n)) == clamp(s, n),
    decreases s.len(),
{
    let m = clamp(s, n);
    lemma_encode_split(s, m);
    encode_utf8_decode_utf8(s.take(m as int));
    encode_utf8_valid_utf8(s);
    if m > 0 {
        let rest = s.drop_first();
        lemma_offset_is_boundary(rest, (m - 1) as nat);
        encode_utf8_first_scalar(s);
        assert(pop_first_scalar(encode_utf8(s)) =~= encode_utf8(rest));
        assert(s.take(m as int).drop_first() =~= rest.take(m - 1));
    }
}

/// A boundary is the offset of the characters before it.
pub proof fn lemma_boundary_is_offset(s: Seq<char>, b: nat)
    requires
        on_boundary(s, b),
    ensures
        b <= encode_utf8(s).len(),
        chars_before(s, b) <= s.len(),
        byte_offset(s, chars_before(s, b)) == b,
{
    let bytes = encode_utf8(s);
    encode_utf8_valid_utf8(s);
    encode_utf8_decode_utf8(s);
    valid_utf8_split(bytes, b as int);
    decode_utf8_split(bytes, b as int);
    let head = decode_utf8(bytes.subrange(0, b as int));
    assert(bytes.take(b as int) =~= bytes.subrange(0, b as int));
    decode_utf8_encode_utf8(bytes.subrange(0, b as int));
    assert(s.take(head.len() as int) =~= head);
}

/// Between the offsets of two character counts stand the characters counted
/// from the first to the second.
pub proof fn lemma_text_between(s: Seq<char>, a: nat, b: nat)
    requires
        a <= b <= s.len(),
    ensures
        text_between(s, byte_offset(s, a), byte_offset(s, b)) == s.subrange(a as int, b as int),
        encode_utf8(s).subrange(byte_offset(s, a) as int, byte_offset(s, b) as int)
            == encode_utf8(s.subrange(a as int, b as int)),
{
    let head = s.take(b as int);
    lemma_offset_bounds(s, a, b);
    lemma_encode_split(s, b);
    lemma_encode_split(head, a);
    assert(head.take(a as int) =~= s.take(a as int));
    assert(head.skip(a as int) =~= s.subrange(a as int, b as int));
    assert(encode_utf8(s).subrange(byte_offset(s, a) as int, byte_offset(s, b) as int)
        =~= encode_utf8(head).skip(byte_offset(s, a) as int));
    encode_utf8_decode_utf8(s.subrange(a as int, b as int));
}

/// The number of bytes that `c` takes in UTF-8.
pub(crate) fn utf8_width(c: char) -> (width: usize)
    ensures
        width == encode_scalar(c as u32).len(),
{
    if c <= '\u{7f}' {
        1
    } else if c <= '\u{7ff}' {
        2
    } else if c <= '\u{ffff}' {
        3
    } else {
        4
    }
}

/// The first character at a byte offset of `input`, if any is left.
pub(crate) fn char_at(input: &str, at: usize) -> (c: Option<char>)
    requires
        on_boundary(input@, at as nat),
    ensures
        c == (if chars_before(input@, at as nat) < input@.len() {
            Some(input@[chars_before(input@, at as nat) as int])
        } else {
            None
        }),
{
    let ghost n = chars_before(input@, at as nat);
    proof {
        lemma_boundary_is_offset(input@, at as nat);
        lemma_encode_split(input@, n);
    }
    let rest = input.split_at(at).1;
    proof {
        assert(encode_utf8(rest@) =~= encode_utf8(input@).skip(at as int));
        lemma_encode_injective(rest@, input@.skip(n as int));
    }
    let mut chars = rest.chars();
    chars.next()
}

/// The part of `input` between two byte offsets.
pub(crate) fn str_between<'i>(input: &'i str, lo: usize, hi: usize) -> (part: &'i str)
    requires
        lo <= hi,
        on_boundary(input@, lo as nat),
        on_boundary(input@, hi as nat),
    ensures
        part@ == text_between(input@, lo as nat, hi as nat),
        encode_utf8(part@) == encode_utf8(input@).subrange(lo as int, hi as int),
{
    let ghost s = input@;
    let ghost a = chars_before(s, lo as nat);
    let ghost b = chars_before(s, hi as nat);
    proof {
        lemma_boundary_is_offset(s, lo as nat);
        lemma_boundary_is_offset(s, hi as nat);
        lemma_encode_split(s, b);
        if a > b {
            lemma_offset_bounds(s, b, a);
            lemma_offset_is_boundary(s, a);
        }
        lemma_text_between(s, a, b);
    }
    let head = input.split_at(hi).0;
    proof {
        assert(encode_utf8(head@) =~= encode_utf8(s).take(hi as int));
        lemma_encode_injective(head@, s.take(b as int));
        lemma_offset_is_boundary(head@, a);
        assert(head@.take(a as int) =~= s.take(a as int));
    }
    let part = head.split_at(lo).1;
    proof {
        assert(encode_utf8(part@) =~= encode_utf8(s).subrange(lo as int, hi as int));
        lemma_encode_injective(part@, s.subrange(a as int, b as int));
    }
    part
}

} // verus!
