//! The order of strings, seen through their UTF-8 encodings.
use crate::text;
use vstd::prelude::*;
use vstd::utf8;

verus! {

/// `a` stands before `b` in the order of byte strings: by their first differing
/// byte, a proper prefix first.
pub open spec fn bytes_before(a: Seq<u8>, b: Seq<u8>) -> bool
    decreases a.len(),
{
    if b.len() == 0 {
        false
    } else if a.len() == 0 {
        true
    } else {
        a[0] < b[0] || (a[0] == b[0] && bytes_before(a.drop_first(), b.drop_first()))
    }
}

proof fn lemma_leading_bytes(c: u32)
    by (bit_vector)
    ensures
        utf8::has_width_1_encoding(c) ==> utf8::leading_byte_width_1(c) == c,
        0xC0 <= utf8::leading_byte_width_2(c) <= 0xDF,
        0xE0 <= utf8::leading_byte_width_3(c) <= 0xEF,
        0xF0 <= utf8::leading_byte_width_4(c),
{
}

proof fn lemma_width_2_order(c: u32, d: u32)
    by (bit_vector)
    requires
        utf8::has_width_2_encoding(c),
        utf8::has_width_2_encoding(d),
        c < d,
    ensures
        utf8::leading_byte_width_2(c) < utf8::leading_byte_width_2(d) || (
        utf8::leading_byte_width_2(c) == utf8::leading_byte_width_2(d)
            && utf8::last_continuation_byte(c) < utf8::last_continuation_byte(d)),
{
}

proof fn lemma_width_3_order(c: u32, d: u32)
    by (bit_vector)
    requires
        utf8::has_width_3_encoding(c),
        utf8::has_width_3_encoding(d),
        c < d,
    ensures
        utf8::leading_byte_width_3(c) < utf8::leading_byte_width_3(d) || (
        utf8::leading_byte_width_3(c) == utf8::leading_byte_width_3(d) && (
        utf8::second_last_continuation_byte(c) < utf8::second_last_continuation_byte(d) || (
        utf8::second_last_continuation_byte(c) == utf8::second_last_continuation_byte(d)
            && utf8::last_continuation_byte(c) < utf8::last_continuation_byte(d)))),
{
}

proof fn lemma_width_4_order(c: u32, d: u32)
    by (bit_vector)
    requires
        utf8::has_width_4_encoding(c),
        utf8::has_width_4_encoding(d),
        c < d,
    ensures
        utf8::leading_byte_width_4(c) < utf8::leading_byte_width_4(d) || (
        utf8::leading_byte_width_4(c) == utf8::leading_byte_width_4(d) && (
        utf8::third_last_continuation_byte(c) < utf8::third_last_continuation_byte(d) || (
        utf8::third_last_continuation_byte(c) == utf8::third_last_continuation_byte(d) && (
        utf8::second_last_continuation_byte(c) < utf8::second_last_continuation_byte(d) || (
        utf8::second_last_continuation_byte(c) == utf8::second_last_continuation_byte(d)
            && utf8::last_continuation_byte(c) < utf8::last_continuation_byte(d)))))),
{
}

/// Where two byte strings first differ, the lower byte is the first one's.
spec fn differs_at(a: Seq<u8>, b: Seq<u8>, k: int) -> bool {
    &&& 0 <= k < a.len()
    &&& k < b.len()
    &&& forall|j: int| 0 <= j < k ==> a[j] == b[j]
    &&& a[k] < b[k]
}

/// The encodings of two characters differ as the characters do, before either
/// of them ends.
proof fn lemma_scalar_order(c: u32, d: u32) -> (k: int)
    requires
        utf8::is_scalar(c),
        utf8::is_scalar(d),
        c < d,
    ensures
        differs_at(utf8::encode_scalar(c), utf8::encode_scalar(d), k),
{
    let x = utf8::encode_scalar(c);
    let y = utf8::encode_scalar(d);
    lemma_leading_bytes(c);
    lemma_leading_bytes(d);
    if utf8::has_width_2_encoding(c) && utf8::has_width_2_encoding(d) {
        lemma_width_2_order(c, d);
    } else if utf8::has_width_3_encoding(c) && utf8::has_width_3_encoding(d) {
        lemma_width_3_order(c, d);
    } else if utf8::has_width_4_encoding(c) && utf8::has_width_4_encoding(d) {
        lemma_width_4_order(c, d);
    }
    if x[0] < y[0] {
        0
    } else if x[1] < y[1] {
        1
    } else if x[2] < y[2] {
        2
    } else {
        3
    }
}

proof fn lemma_first_difference(a: Seq<u8>, b: Seq<u8>, k: int)
    requires
        differs_at(a, b, k),
    ensures
        bytes_before(a, b),
        !bytes_before(b, a),
    decreases k,
{
    if k > 0 {
        assert(a[0] == b[0]);
        assert(differs_at(a.drop_first(), b.drop_first(), k - 1)) by {
            assert forall|j: int| 0 <= j < k - 1 implies a.drop_first()[j] == b.drop_first()[j] by {
                assert(a[j + 1] == b[j + 1]);
            }
        }
        lemma_first_difference(a.drop_first(), b.drop_first(), k - 1);
    }
}

proof fn lemma_common_prefix(p: Seq<u8>, x: Seq<u8>, y: Seq<u8>)
    ensures
        bytes_before(p + x, p + y) == bytes_before(x, y),
    decreases p.len(),
{
    if p.len() == 0 {
        assert(p + x == x);
        assert(p + y == y);
    } else {
        lemma_common_prefix(p.drop_first(), x, y);
        assert((p + x).drop_first() == p.drop_first() + x);
        assert((p + y).drop_first() == p.drop_first() + y);
    }
}

proof fn lemma_char_order(c: char, d: char) -> (k: int)
    requires
        c < d,
    ensures
        differs_at(utf8::encode_scalar(c as u32), utf8::encode_scalar(d as u32), k),
{
    lemma_scalar_order(c as u32, d as u32)
}

/// The order of strings is the order of their UTF-8 encodings.
pub proof fn lemma_before_is_byte_order(a: Seq<char>, b: Seq<char>)
    ensures
        text::before(a, b) == bytes_before(utf8::encode_utf8(a), utf8::encode_utf8(b)),
    decreases a.len(),
{
    if a.len() > 0 && b.len() > 0 {
        let x = utf8::encode_scalar(a[0] as u32);
        let y = utf8::encode_scalar(b[0] as u32);
        let s = utf8::encode_utf8(a.drop_first());
        let t = utf8::encode_utf8(b.drop_first());
        if a[0] == b[0] {
            lemma_before_is_byte_order(a.drop_first(), b.drop_first());
            lemma_common_prefix(x, s, t);
        } else if a[0] < b[0] {
            let k = lemma_char_order(a[0], b[0]);
            assert(differs_at(x + s, y + t, k)) by {
                assert(forall|j: int| 0 <= j <= k ==> (x + s)[j] == x[j] && (y + t)[j] == y[j]);
            }
            lemma_first_difference(x + s, y + t, k);
        } else {
            let k = lemma_char_order(b[0], a[0]);
            assert(differs_at(y + t, x + s, k)) by {
                assert(forall|j: int| 0 <= j <= k ==> (x + s)[j] == x[j] && (y + t)[j] == y[j]);
            }
            lemma_first_difference(y + t, x + s, k);
        }
    }
}

}
