//! Text helpers: line splitting, whitespace, decimal numbers and UTF-8 decoding.

use vstd::prelude::*;
use vstd::string::*;
use vstd::utf8::*;

verus! {

/// `String::push` appends one character to the end of the string.
pub assume_specification[ String::push ](s: &mut String, ch: char)
    ensures
        final(s)@ == old(s)@.push(ch),
;

/// The Unicode White_Space property.
pub open spec fn white_space(c: char) -> bool {
    ||| '\u{9}' <= c <= '\u{d}'
    ||| c == ' '
    ||| c == '\u{85}'
    ||| c == '\u{a0}'
    ||| c == '\u{1680}'
    ||| '\u{2000}' <= c <= '\u{200a}'
    ||| c == '\u{2028}'
    ||| c == '\u{2029}'
    ||| c == '\u{202f}'
    ||| c == '\u{205f}'
    ||| c == '\u{3000}'
}

/// `char::is_whitespace` tells whether a character has the White_Space property, whose members
/// `white_space` lists.
pub assume_specification[ char::is_whitespace ](c: char) -> (r: bool)
    ensures
        r == white_space(c),
;

/// The name of what `String::from_utf8_lossy` makes of a byte sequence.
pub uninterp spec fn utf8_lossy(bytes: Seq<u8>) -> Seq<char>;

/// `String::from_utf8_lossy` decodes bytes as UTF-8, with U+FFFD in place of what is not UTF-8;
/// bytes that are UTF-8 throughout are decoded exactly.
#[verifier::external_body]
pub(crate) fn lossy_text(bytes: &Vec<u8>) -> (r: String)
    ensures
        r@ == utf8_lossy(bytes@),
        valid_utf8(bytes@) ==> r@ == decode_utf8(bytes@),
{
    String::from_utf8_lossy(bytes).into_owned()
}

/// `String::from_utf8` decodes bytes exactly when they are valid UTF-8.
#[verifier::external_body]
pub(crate) fn utf8_text(bytes: Vec<u8>) -> (r: Option<String>)
    ensures
        r is Some <==> valid_utf8(bytes@),
        r matches Some(s) ==> s@ == decode_utf8(bytes@),
{
    String::from_utf8(bytes).ok()
}

/// The characters of each string of a list.
pub open spec fn texts(v: Seq<String>) -> Seq<Seq<char>> {
    v.map_values(|s: String| s@)
}

/// The text of an optional string.
pub open spec fn opt_text(s: Option<String>) -> Option<Seq<char>> {
    match s {
        Some(s) => Some(s@),
        None => None,
    }
}

/// The characters of a string as a vector.
pub(crate) fn chars_of(s: &str) -> (r: Vec<char>)
    ensures
        r@ == s@,
{
    let mut r: Vec<char> = Vec::new();
    for c in it: s.chars()
        invariant
            r@ == s@.take(it.index()),
            it.seq() == s@,
    {
        r.push(c);
    }
    r
}

/// The characters from `from` up to `to` as a string.
pub(crate) fn string_of(v: &Vec<char>, from: usize, to: usize) -> (r: String)
    requires
        from <= to <= v@.len(),
    ensures
        r@ == v@.subrange(from as int, to as int),
{
    let mut r = String::new();
    let mut i: usize = from;
    while i < to
        invariant
            from <= i <= to <= v@.len(),
            r@ == v@.subrange(from as int, i as int),
        decreases to - i,
    {
        r.push(v[i]);
        i += 1;
    }
    r
}

/// A number in decimal notation.
pub open spec fn decimal(n: nat) -> Seq<char>
    decreases n,
{
    if n < 10 {
        seq![(48 + n) as char]
    } else {
        decimal(n / 10).push((48 + n % 10) as char)
    }
}

/// Append a number in decimal notation.
pub(crate) fn push_decimal(s: &mut String, n: u128)
    ensures
        final(s)@ == old(s)@ + decimal(n as nat),
    decreases n,
{
    if n >= 10 {
        push_decimal(s, n / 10);
    }
    let digit: u8 = 48 + (n % 10) as u8;
    s.push(digit as char);
}

/// The first index from `from` on that holds `x`, or the length of the sequence.
pub open spec fn next_index<T>(s: Seq<T>, x: T, from: int) -> int
    decreases s.len() - from,
{
    if from >= s.len() || s[from] == x {
        from
    } else {
        next_index(s, x, from + 1)
    }
}

/// `next_index` is where the search stops.
pub proof fn lemma_next_index<T>(s: Seq<T>, x: T, from: int)
    requires
        0 <= from <= s.len(),
    ensures
        from <= next_index(s, x, from) <= s.len(),
        next_index(s, x, from) < s.len() ==> s[next_index(s, x, from)] == x,
        forall|j: int| from <= j < next_index(s, x, from) ==> s[j] != x,
    decreases s.len() - from,
{
    if from < s.len() && s[from] != x {
        lemma_next_index(s, x, from + 1);
    }
}

/// A position with no `x` before it, and with `x` or the end at it, is `next_index`.
pub proof fn lemma_next_index_is<T>(s: Seq<T>, x: T, from: int, e: int)
    requires
        0 <= from <= e <= s.len(),
        e < s.len() ==> s[e] == x,
        forall|j: int| from <= j < e ==> s[j] != x,
    ensures
        next_index(s, x, from) == e,
{
    lemma_next_index(s, x, from);
}

/// A line without the carriage return that ends it, if one does.
pub open spec fn chomp<T>(line: Seq<T>, cr: T) -> Seq<T> {
    if line.len() > 0 && line.last() == cr {
        line.drop_last()
    } else {
        line
    }
}

/// The lines of a text: the text before each line feed, without a carriage return in front of
/// it, and what stands behind the last line feed, if anything does.
pub open spec fn split_lines<T>(s: Seq<T>, nl: T, cr: T) -> Seq<Seq<T>>
    decreases s.len(),
{
    let e = next_index(s, nl, 0);
    if s.len() == 0 {
        Seq::empty()
    } else if e >= s.len() {
        seq![s]
    } else {
        proof {
            lemma_next_index(s, nl, 0);
        }
        seq![chomp(s.take(e), cr)] + split_lines(s.skip(e + 1), nl, cr)
    }
}

/// The lines of a byte sequence.
pub open spec fn byte_lines(b: Seq<u8>) -> Seq<Seq<u8>> {
    split_lines(b, 10u8, 13u8)
}

/// The lines of a text.
pub open spec fn text_lines(t: Seq<char>) -> Seq<Seq<char>> {
    split_lines(t, '\n', '\r')
}

/// The bytes from `from` up to `to`.
pub(crate) fn bytes_of(v: &Vec<u8>, from: usize, to: usize) -> (r: Vec<u8>)
    requires
        from <= to <= v@.len(),
    ensures
        r@ == v@.subrange(from as int, to as int),
{
    let mut r: Vec<u8> = Vec::new();
    let mut i: usize = from;
    while i < to
        invariant
            from <= i <= to <= v@.len(),
            r@ == v@.subrange(from as int, i as int),
        decreases to - i,
    {
        r.push(v[i]);
        i += 1;
    }
    r
}

/// The views of a list of byte vectors.
pub open spec fn byte_views(v: Seq<Vec<u8>>) -> Seq<Seq<u8>> {
    v.map_values(|l: Vec<u8>| l@)
}

/// Split bytes into lines.
pub fn split_byte_lines(b: &Vec<u8>) -> (r: Vec<Vec<u8>>)
    ensures
        byte_views(r@) == byte_lines(b@),
{
    let mut r: Vec<Vec<u8>> = Vec::new();
    let mut start: usize = 0;
    assert(b@.skip(0) == b@);
    assert(byte_views(r@) + byte_lines(b@) == byte_lines(b@));
    while start < b.len()
        invariant
            start <= b@.len(),
            byte_views(r@) + byte_lines(b@.skip(start as int)) == byte_lines(b@),
        decreases b@.len() - start,
    {
        let mut e: usize = start;
        while e < b.len() && b[e] != 10
            invariant
                start <= e <= b@.len(),
                forall|j: int| start <= j < e ==> b@[j] != 10,
            decreases b@.len() - e,
        {
            e += 1;
        }
        let ghost rest = b@.skip(start as int);
        let ghost before = r@;
        proof {
            lemma_next_index_is(rest, 10u8, 0, e - start);
            assert(rest.take(e - start) == b@.subrange(start as int, e as int));
        }
        if e >= b.len() {
            r.push(bytes_of(b, start, e));
            start = e;
            proof {
                assert(b@.skip(start as int) == Seq::<u8>::empty());
                assert(rest == b@.subrange(b@.len() - rest.len(), b@.len() as int));
                assert(byte_lines(rest) == seq![rest]);
                assert(byte_views(r@) == byte_views(before) + seq![rest]);
                assert(byte_views(r@) + byte_lines(b@.skip(start as int)) == byte_views(r@));
            }
        } else {
            let end: usize = if e > start && b[e - 1] == 13 {
                e - 1
            } else {
                e
            };
            r.push(bytes_of(b, start, end));
            proof {
                let line = b@.subrange(start as int, end as int);
                assert(line == chomp(rest.take(e - start), 13u8));
                assert(rest.skip(e - start + 1) == b@.skip(e + 1));
                assert(byte_lines(rest) == seq![line] + byte_lines(b@.skip(e + 1)));
                assert(byte_views(r@) == byte_views(before) + seq![line]);
                assert(byte_views(r@) + byte_lines(b@.skip(e + 1)) == byte_views(before)
                    + byte_lines(rest));
            }
            start = e + 1;
        }
    }
    proof {
        assert(b@.skip(start as int) == Seq::<u8>::empty());
        assert(byte_views(r@) + byte_lines(b@.skip(start as int)) == byte_views(r@));
    }
    r
}

/// Split a text into lines.
pub fn split_text_lines(text: &str) -> (r: Vec<String>)
    ensures
        texts(r@) == text_lines(text@),
{
    let b = chars_of(text);
    let mut r: Vec<String> = Vec::new();
    let mut start: usize = 0;
    assert(b@.skip(0) == b@);
    assert(texts(r@) + text_lines(b@) == text_lines(b@));
    while start < b.len()
        invariant
            start <= b@.len(),
            texts(r@) + text_lines(b@.skip(start as int)) == text_lines(b@),
        decreases b@.len() - start,
    {
        let mut e: usize = start;
        while e < b.len() && b[e] != '\n'
            invariant
                start <= e <= b@.len(),
                forall|j: int| start <= j < e ==> b@[j] != '\n',
            decreases b@.len() - e,
        {
            e += 1;
        }
        let ghost rest = b@.skip(start as int);
        let ghost before = r@;
        proof {
            lemma_next_index_is(rest, '\n', 0, e - start);
            assert(rest.take(e - start) == b@.subrange(start as int, e as int));
        }
        if e >= b.len() {
            r.push(string_of(&b, start, e));
            start = e;
            proof {
                assert(b@.skip(start as int) == Seq::<char>::empty());
                assert(rest == b@.subrange(b@.len() - rest.len(), b@.len() as int));
                assert(text_lines(rest) == seq![rest]);
                assert(texts(r@) == texts(before) + seq![rest]);
                assert(texts(r@) + text_lines(b@.skip(start as int)) == texts(r@));
            }
        } else {
            let end: usize = if e > start && b[e - 1] == '\r' {
                e - 1
            } else {
                e
            };
            r.push(string_of(&b, start, end));
            proof {
                let line = b@.subrange(start as int, end as int);
                assert(line == chomp(rest.take(e - start), '\r'));
                assert(rest.skip(e - start + 1) == b@.skip(e + 1));
                assert(text_lines(rest) == seq![line] + text_lines(b@.skip(e + 1)));
                assert(texts(r@) == texts(before) + seq![line]);
                assert(texts(r@) + text_lines(b@.skip(e + 1)) == texts(before) + text_lines(rest));
            }
            start = e + 1;
        }
    }
    proof {
        assert(b@.skip(start as int) == Seq::<char>::empty());
        assert(texts(r@) + text_lines(b@.skip(start as int)) == texts(r@));
    }
    r
}

/// Reading in pieces: when the first piece is empty or ends with a line feed, the lines of the
/// whole are the lines of the first piece followed by those of the second.
pub proof fn law_lines_of_pieces<T>(a: Seq<T>, b: Seq<T>, nl: T, cr: T)
    requires
        a.len() == 0 || a.last() == nl,
    ensures
        split_lines(a + b, nl, cr) == split_lines(a, nl, cr) + split_lines(b, nl, cr),
    decreases a.len(),
{
    if a.len() == 0 {
        assert(a + b == b);
        assert(split_lines(a, nl, cr) + split_lines(b, nl, cr) == split_lines(b, nl, cr));
    } else {
        lemma_next_index(a, nl, 0);
        let e = next_index(a, nl, 0);
        assert(e < a.len()) by {
            if e >= a.len() {
                assert(a[a.len() - 1] != nl);
            }
        }
        lemma_next_index_is(a + b, nl, 0, e);
        assert((a + b).take(e) == a.take(e));
        assert((a + b).skip(e + 1) == a.skip(e + 1) + b);
        law_lines_of_pieces(a.skip(e + 1), b, nl, cr);
        assert(split_lines(a + b, nl, cr) == split_lines(a, nl, cr) + split_lines(b, nl, cr));
    }
}

/// No line contains a line feed.
pub proof fn law_lines_hold_no_line_feed<T>(s: Seq<T>, nl: T, cr: T, i: int)
    requires
        0 <= i < split_lines(s, nl, cr).len(),
    ensures
        !split_lines(s, nl, cr)[i].contains(nl),
    decreases s.len(),
{
    lemma_next_index(s, nl, 0);
    let e = next_index(s, nl, 0);
    if s.len() > 0 && e < s.len() {
        if i > 0 {
            law_lines_hold_no_line_feed(s.skip(e + 1), nl, cr, i - 1);
        }
    }
}

/// A filter that every element passes changes nothing.
pub proof fn lemma_filter_all<T>(s: Seq<T>, keep: spec_fn(T) -> bool)
    requires
        forall|i: int| 0 <= i < s.len() ==> keep(#[trigger] s[i]),
    ensures
        s.filter(keep) == s,
    decreases s.len(),
{
    reveal(Seq::filter);
    if s.len() > 0 {
        lemma_filter_all(s.drop_last(), keep);
        assert(s.drop_last().push(s.last()) == s);
    }
}

/// A text that takes more than `limit` bytes, cut after `keep` bytes and marked; any other text
/// as it is.
pub open spec fn truncated(t: Seq<char>, limit: int, keep: int, mark: Seq<char>) -> Seq<char> {
    if encode_utf8(t).len() > limit {
        decode_utf8(encode_utf8(t).take(keep)) + mark
    } else {
        t
    }
}

/// Whether a text that has to be cut can be: the cut falls between two characters.
pub open spec fn can_truncate(t: Seq<char>, limit: int, keep: int) -> bool {
    encode_utf8(t).len() > limit ==> is_char_boundary(encode_utf8(t), keep)
}

/// Whether a text that has to be cut can be.
pub fn allows_truncation(s: &str, limit: usize, keep: usize) -> (r: bool)
    ensures
        r == can_truncate(s@, limit as int, keep as int),
{
    s.as_bytes().len() <= limit || s.is_char_boundary(keep)
}

/// Cut a text that takes more than `limit` bytes after `keep` bytes, and mark it.
pub(crate) fn truncate(s: &str, limit: usize, keep: usize, mark: &str) -> (r: String)
    requires
        can_truncate(s@, limit as int, keep as int),
        keep <= limit,
    ensures
        r@ == truncated(s@, limit as int, keep as int, mark@),
{
    if s.as_bytes().len() > limit {
        let (head, _tail) = s.split_at(keep);
        proof {
            encode_utf8_decode_utf8(head@);
        }
        let mut r = head.to_string();
        r.append(mark);
        r
    } else {
        s.to_string()
    }
}

/// A cut text is no longer than the limit allows, apart from the mark.
pub proof fn law_truncation_bounds_the_length(
    t: Seq<char>,
    limit: int,
    keep: int,
    mark: Seq<char>,
)
    requires
        0 <= keep <= limit,
        can_truncate(t, limit, keep),
    ensures
        encode_utf8(truncated(t, limit, keep, mark)).len() <= limit + encode_utf8(mark).len(),
{
    if encode_utf8(t).len() > limit {
        let bytes = encode_utf8(t);
        encode_utf8_valid_utf8(t);
        valid_utf8_split(bytes, keep);
        let head = decode_utf8(bytes.take(keep));
        assert(bytes.take(keep) == bytes.subrange(0, keep));
        decode_utf8_encode_utf8(bytes.take(keep));
        lemma_encode_concat(head, mark);
    }
}

/// The encoding of two texts is that of one behind that of the other.
pub proof fn lemma_encode_concat(a: Seq<char>, b: Seq<char>)
    ensures
        encode_utf8(a + b) == encode_utf8(a) + encode_utf8(b),
    decreases a.len(),
{
    if a.len() == 0 {
        assert(a + b == b);
        assert(encode_utf8(a) + encode_utf8(b) == encode_utf8(b));
    } else {
        assert((a + b).drop_first() == a.drop_first() + b);
        lemma_encode_concat(a.drop_first(), b);
        assert((a + b)[0] == a[0]);
    }
}

} // verus!
