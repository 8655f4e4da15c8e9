//! Line splitting and UTF-8 decoding can be done in either order.

use crate::text::{byte_lines, chomp, lemma_next_index, lemma_next_index_is, next_index, text_lines};
use vstd::prelude::*;
use vstd::utf8::*;

verus! {

/// The first character of a text is ASCII exactly when the first byte is, and is then that byte.
proof fn lemma_first_ascii(b: Seq<u8>)
    requires
        valid_utf8(b),
        b.len() > 0,
    ensures
        ({
            let f = decode_first_scalar(b) as char;
            &&& (f as u32) < 128 <==> b[0] < 128
            &&& (f as u32) < 128 ==> f as u32 == b[0] && length_of_first_scalar(b) == 1
        }),
{
    let f = decode_first_scalar(b) as char;
    let v: u32 = f as u32;
    let b0: u8 = b[0];
    decode_utf8_first_scalar(b);
    if v < 128 {
        assert((v & 0x7F) as u8 == v) by (bit_vector)
            requires
                v < 128,
        ;
        assert(take_first_scalar(b)[0] == b[0]);
    }
    if b0 < 128 {
        assert((b0 & 0x7F) as u32 == b0) by (bit_vector)
            requires
                b0 < 128,
        ;
    }
}

/// A text whose bytes do not hold an ASCII byte does not hold its character.
proof fn lemma_absent_ascii(b: Seq<u8>, c: char)
    requires
        valid_utf8(b),
        (c as u32) < 128,
        forall|j: int| 0 <= j < b.len() ==> b[j] as u32 != c as u32,
    ensures
        !decode_utf8(b).contains(c),
    decreases b.len(),
{
    if b.len() > 0 {
        lemma_first_ascii(b);
        let rest = pop_first_scalar(b);
        assert(rest.len() < b.len());
        lemma_absent_ascii(rest, c);
        assert(decode_utf8(b) == seq![decode_first_scalar(b) as char] + decode_utf8(rest));
    }
}

/// A text ends with an ASCII character exactly when its bytes end with that byte.
proof fn lemma_last_ascii(b: Seq<u8>, c: char)
    requires
        valid_utf8(b),
        b.len() > 0,
        (c as u32) < 128,
    ensures
        decode_utf8(b).len() > 0,
        b.last() as u32 == c as u32 <==> decode_utf8(b).last() == c,
        b.last() as u32 == c as u32 ==> valid_utf8(b.drop_last()) && decode_utf8(b.drop_last())
            == decode_utf8(b).drop_last(),
    decreases b.len(),
{
    lemma_first_ascii(b);
    let rest = pop_first_scalar(b);
    assert(decode_utf8(b) == seq![decode_first_scalar(b) as char] + decode_utf8(rest));
    if rest.len() > 0 {
        lemma_last_ascii(rest, c);
    } else {
        assert(decode_utf8(rest) == Seq::<char>::empty());
        if b.len() > 1 {
            assert(is_continuation_byte(b.last()));
        }
    }
    if b.last() as u32 == c as u32 {
        let n = b.len() - 1;
        is_char_boundary_iff_not_is_continuation_byte(b, n);
        valid_utf8_split(b, n);
        decode_utf8_split(b, n);
        let tail = b.subrange(n, b.len() as int);
        assert(b.subrange(0, n) == b.drop_last());
        assert(tail.len() == 1);
        lemma_first_ascii(tail);
        assert(pop_first_scalar(tail) == Seq::<u8>::empty());
        assert(decode_utf8(Seq::<u8>::empty()) == Seq::<char>::empty());
        assert(decode_utf8(tail) == seq![decode_first_scalar(tail) as char]);
        assert(decode_utf8(b).drop_last() == decode_utf8(b.drop_last()));
    }
}

/// Splitting UTF-8 bytes into lines and decoding each line gives the lines of the decoded text.
pub proof fn law_decoding_keeps_lines(b: Seq<u8>)
    requires
        valid_utf8(b),
    ensures
        forall|i: int| 0 <= i < byte_lines(b).len() ==> valid_utf8(#[trigger] byte_lines(b)[i]),
        byte_lines(b).map_values(|l: Seq<u8>| decode_utf8(l)) == text_lines(decode_utf8(b)),
    decreases b.len(),
{
    let t = decode_utf8(b);
    let decode = |l: Seq<u8>| decode_utf8(l);
    if b.len() == 0 {
        assert(byte_lines(b).map_values(decode) == text_lines(t));
    } else {
        lemma_next_index(b, 10u8, 0);
        let e = next_index(b, 10u8, 0);
        if e >= b.len() {
            lemma_absent_ascii(b, '\n');
            lemma_first_ascii(b);
            assert(t.len() > 0);
            lemma_next_index_is(t, '\n', 0, t.len() as int);
            assert(byte_lines(b) == seq![b]);
            assert(byte_lines(b).map_values(decode) == text_lines(t));
        } else {
            is_char_boundary_iff_not_is_continuation_byte(b, e);
            valid_utf8_split(b, e);
            decode_utf8_split(b, e);
            let head = b.take(e);
            let tail = b.subrange(e, b.len() as int);
            assert(b.subrange(0, e) == head);
            lemma_first_ascii(tail);
            let rest = b.skip(e + 1);
            assert(pop_first_scalar(tail) == rest);
            assert(decode_utf8(tail) == seq!['\n'] + decode_utf8(rest));
            lemma_absent_ascii(head, '\n');
            let k = decode_utf8(head).len() as int;
            assert(t == decode_utf8(head) + (seq!['\n'] + decode_utf8(rest)));
            assert(t[k] == '\n');
            assert forall|j: int| 0 <= j < k implies t[j] != '\n' by {
                assert(t[j] == decode_utf8(head)[j]);
                assert(decode_utf8(head).contains(decode_utf8(head)[j]));
            }
            lemma_next_index_is(t, '\n', 0, k);
            assert(t.take(k) == decode_utf8(head));
            assert(t.skip(k + 1) == decode_utf8(rest));
            law_decoding_keeps_lines(rest);
            if head.len() > 0 {
                lemma_last_ascii(head, '\r');
            } else {
                assert(decode_utf8(head) == Seq::<char>::empty());
            }
            let line = chomp(head, 13u8);
            assert(valid_utf8(line));
            assert(decode_utf8(line) == chomp(decode_utf8(head), '\r'));
            assert(byte_lines(b) == seq![line] + byte_lines(rest));
            assert(text_lines(t) == seq![decode_utf8(line)] + text_lines(decode_utf8(rest)));
            assert(byte_lines(b).map_values(decode) == seq![decode_utf8(line)]
                + byte_lines(rest).map_values(decode));
        }
    }
}

} // verus!
