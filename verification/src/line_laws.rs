//! What the lines of a text are.

use crate::tail_reader::{decoded_lines, last_n, law_following_equals_rereading, news_of, tail_of};
use crate::text::{
    byte_lines, chomp, law_lines_of_pieces, lemma_next_index, lemma_next_index_is, next_index,
    split_lines, text_lines, utf8_lossy,
};
use vstd::prelude::*;
use vstd::utf8::*;

verus! {

/// A line stands in a text from one position up to another: what lies there holds no line feed,
/// and is the line where the text ends there. Otherwise a line feed stands there, and the line is
/// what lies before it, less a carriage return at its end.
pub open spec fn line_stands<T>(s: Seq<T>, from: int, end: int, line: Seq<T>, nl: T, cr: T) -> bool {
    &&& 0 <= from <= end <= s.len()
    &&& !s.subrange(from, end).contains(nl)
    &&& end == s.len() ==> from < end && line == s.subrange(from, end)
    &&& end < s.len() ==> s[end] == nl
    &&& end < s.len() && from < end && s[end - 1] == cr ==> line == s.subrange(from, end - 1)
    &&& end < s.len() && !(from < end && s[end - 1] == cr) ==> line == s.subrange(from, end)
}

/// Every line stands in the text, one behind the other from the beginning to the end, blank ones
/// too: from where it starts up to a line feed, less the carriage return before that line feed if
/// there is one, or up to the end of the text. Nothing of the text lies outside of the lines and
/// what ends them.
///
/// Returns where the lines start, and where a line behind the last one would.
pub proof fn law_lines_stand_in_the_text<T>(s: Seq<T>, nl: T, cr: T) -> (starts: Seq<int>)
    ensures
        ({
            let lines = split_lines(s, nl, cr);
            &&& starts.len() == lines.len() + 1
            &&& starts[0] == 0
            &&& starts.last() == s.len() || starts.last() == s.len() + 1
            &&& forall|i: int|
                0 <= i < lines.len() ==> line_stands(
                    s,
                    starts[i],
                    starts[i + 1] - 1,
                    #[trigger] lines[i],
                    nl,
                    cr,
                )
        }),
    decreases s.len(),
{
    let lines = split_lines(s, nl, cr);
    lemma_next_index(s, nl, 0);
    let e = next_index(s, nl, 0);
    if s.len() == 0 {
        seq![0int]
    } else if e >= s.len() {
        let starts = seq![0int, s.len() as int + 1];
        assert(s.subrange(0, s.len() as int) == s);
        assert(!s.contains(nl));
        assert(lines[0] == s);
        starts
    } else {
        let rest = s.skip(e + 1);
        let later = law_lines_stand_in_the_text(rest, nl, cr);
        let more = split_lines(rest, nl, cr);
        let starts = seq![0int] + later.map_values(|p: int| p + e + 1);
        assert(lines == seq![chomp(s.take(e), cr)] + more);
        assert(starts.last() == later.last() + e + 1);
        assert forall|i: int| 0 <= i < lines.len() implies line_stands(
            s,
            starts[i],
            starts[i + 1] - 1,
            #[trigger] lines[i],
            nl,
            cr,
        ) by {
            let from = starts[i];
            let end = starts[i + 1] - 1;
            if i == 0 {
                assert(starts[1] == later[0] + e + 1);
                assert(s.take(e) == s.subrange(0, e));
                assert(!s.subrange(0, e).contains(nl));
                if e > 0 && s[e - 1] == cr {
                    assert(chomp(s.take(e), cr) == s.subrange(0, e - 1));
                } else {
                    assert(chomp(s.take(e), cr) == s.subrange(0, e));
                }
            } else {
                let k = i - 1;
                assert(lines[i] == more[k]);
                assert(starts[i] == later[k] + e + 1);
                assert(starts[i + 1] == later[k + 1] + e + 1);
                let (f, g) = (later[k], later[k + 1] - 1);
                assert(rest.subrange(f, g) == s.subrange(from, end));
                if f < g {
                    assert(rest.subrange(f, g - 1) == s.subrange(from, end - 1));
                }
            }
        }
        starts
    }
}

/// There are as many lines as line feeds, and one more where the text does not end with one.
pub proof fn law_line_feeds_count_lines<T>(s: Seq<T>, nl: T, cr: T)
    ensures
        split_lines(s, nl, cr).len() == s.filter(|x: T| x == nl).len() + if s.len() > 0 && s.last()
            != nl {
            1int
        } else {
            0int
        },
    decreases s.len(),
{
    let is_nl = |x: T| x == nl;
    reveal(Seq::filter);
    lemma_next_index(s, nl, 0);
    let e = next_index(s, nl, 0);
    if s.len() > 0 {
        if e >= s.len() {
            lemma_filter_none(s, is_nl);
        } else {
            let head = s.take(e);
            let rest = s.skip(e + 1);
            law_line_feeds_count_lines(rest, nl, cr);
            lemma_filter_none(head, is_nl);
            assert(s == head + seq![nl] + rest);
            Seq::filter_distributes_over_add(head + seq![nl], rest, is_nl);
            Seq::filter_distributes_over_add(head, seq![nl], is_nl);
            assert(seq![nl].drop_last() == Seq::<T>::empty());
            assert(seq![nl].filter(is_nl).len() == 1);
            if rest.len() > 0 {
                assert(rest.last() == s.last());
            }
        }
    }
}

/// A filter that no element passes leaves nothing.
proof fn lemma_filter_none<T>(s: Seq<T>, keep: spec_fn(T) -> bool)
    requires
        forall|i: int| 0 <= i < s.len() ==> !keep(#[trigger] s[i]),
    ensures
        s.filter(keep).len() == 0,
    decreases s.len(),
{
    reveal(Seq::filter);
    if s.len() > 0 {
        lemma_filter_none(s.drop_last(), keep);
    }
}

/// Lines of bytes and of text end with a line feed, with or without a carriage return before it.
pub proof fn law_line_ends(b: Seq<u8>, t: Seq<char>)
    ensures
        byte_lines(b) == split_lines(b, 10u8, 13u8),
        text_lines(t) == split_lines(t, '\n', '\r'),
{
}

/// One more line in a file is one more line that is shown, decoded as it is, or none where it is
/// not UTF-8; how it ends does not matter, nor, for a line that ends with no carriage return of
/// its own, whether it ends at all.
pub proof fn law_each_line_is_decoded_or_left_out(known: Seq<u8>, line: Seq<u8>)
    requires
        known.len() == 0 || known.last() == 10u8,
        !line.contains(10u8),
        line.len() == 0 || line.last() != 13u8,
    ensures
        ({
            let shown = if valid_utf8(line) {
                decoded_lines(known).push(decode_utf8(line))
            } else {
                decoded_lines(known)
            };
            &&& decoded_lines(known + line + seq![10u8]) == shown
            &&& decoded_lines(known + line + seq![13u8, 10u8]) == shown
            &&& line.len() > 0 ==> decoded_lines(known + line) == shown
        }),
        decoded_lines(Seq::empty()) == Seq::<Seq<char>>::empty(),
{
    let valid = |l: Seq<u8>| valid_utf8(l);
    let decode = |l: Seq<u8>| decode_utf8(l);
    let a = line + seq![10u8];
    let b = line + seq![13u8, 10u8];
    let n = line.len() as int;
    reveal(Seq::filter);
    assert(byte_lines(Seq::<u8>::empty()).filter(valid).map_values(decode)
        == Seq::<Seq<char>>::empty());
    assert forall|i: int| 0 <= i < line.len() implies line[i] != 10u8 by {
        assert(line.contains(line[i]));
    }
    lemma_next_index_is(a, 10u8, 0, n);
    lemma_next_index_is(b, 10u8, 0, n + 1);
    lemma_next_index_is(line, 10u8, 0, n);
    assert(a.take(n) == line);
    assert(a.skip(n + 1) == Seq::<u8>::empty());
    assert(b.take(n + 1) == line.push(13u8));
    assert(line.push(13u8).drop_last() == line);
    assert(b.skip(n + 2) == Seq::<u8>::empty());
    assert(byte_lines(a) == seq![line]);
    assert(byte_lines(b) == seq![line]);
    assert(line.len() > 0 ==> byte_lines(line) == seq![line]);
    let one = seq![line];
    assert(one.drop_last() == Seq::<Seq<u8>>::empty());
    let old_lines = byte_lines(known);
    law_lines_of_pieces(known, a, 10u8, 13u8);
    law_lines_of_pieces(known, b, 10u8, 13u8);
    law_lines_of_pieces(known, line, 10u8, 13u8);
    assert(known + line + seq![10u8] == known + a);
    assert(known + line + seq![13u8, 10u8] == known + b);
    Seq::filter_distributes_over_add(old_lines, one, valid);
    let kept = old_lines.filter(valid);
    if valid_utf8(line) {
        assert(one.filter(valid) == one);
        assert((kept + one).map_values(decode) == kept.map_values(decode).push(decode_utf8(line)));
    } else {
        assert(one.filter(valid) == Seq::<Seq<u8>>::empty());
        assert(kept + Seq::<Seq<u8>>::empty() == kept);
    }
}

/// The last `n` of some things are `n` of them, or all where there are fewer, and nothing comes
/// behind them.
pub proof fn law_the_last_end_the_whole<T>(s: Seq<T>, n: nat)
    ensures
        last_n(s, n).len() == if s.len() < n {
            s.len()
        } else {
            n
        },
        forall|i: int|
            0 <= i < last_n(s, n).len() ==> #[trigger] last_n(s, n)[i] == s[s.len() - last_n(
                s,
                n,
            ).len() + i],
{
}

/// Following a file shows what opening it again would: the lines read when it held one part and
/// the lines read when a second part was appended are together the lines read of the whole, as
/// long as all are asked for. Nothing is shown twice and nothing is lost, whatever the limit on the
/// lines of a file that is opened.
///
/// The first part has to end with a line feed, and the second has to be UTF-8, which decoding with
/// replacements decodes exactly.
pub proof fn law_following_shows_the_whole_file(
    known: Seq<u8>,
    appended: Seq<u8>,
    n: nat,
    limit: nat,
)
    requires
        known.len() > 0,
        known.last() == 10u8,
        appended.len() > 0,
        valid_utf8(appended),
        n >= decoded_lines(known + appended).len(),
    ensures
        utf8_lossy(appended) == decode_utf8(appended) ==> tail_of(
            (known + appended).len() as int,
            known + appended,
            n,
        ) == tail_of(
            known.len() as int,
            known,
            n,
        ) + news_of(known.len() as int, (known + appended).len() as int, appended, limit),
{
    law_following_equals_rereading(known, appended);
}

/// A file that has its old size has nothing new, and one that has shrunk is read as if it were
/// opened.
pub proof fn law_other_files_are_not_followed(size: int, smaller: int, content: Seq<u8>, n: nat)
    requires
        0 <= smaller < size,
    ensures
        news_of(size, size, content, n).len() == 0,
        news_of(size, smaller, content, n) == tail_of(smaller, content, n),
        tail_of(0, content, n).len() == 0,
        tail_of(size, content, n).len() <= n,
        decoded_lines(content).len() >= n ==> tail_of(size, content, n).len() == n,
        tail_of(size, content, n).is_suffix_of(decoded_lines(content)),
{
}

} // verus!
