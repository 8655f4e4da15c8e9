//! What a file's bytes show: its last lines, and the lines appended since it was last read.

use crate::encoding::law_decoding_keeps_lines;
use crate::text::{
    byte_lines, byte_views, bytes_of, law_lines_of_pieces, lemma_filter_all, lossy_text,
    split_byte_lines, split_text_lines, text_lines, texts, utf8_lossy, utf8_text,
};
use vstd::prelude::*;
use vstd::utf8::*;

verus! {

/// The last `n` elements of a sequence, or all of them where there are fewer.
pub open spec fn last_n<T>(s: Seq<T>, n: nat) -> Seq<T> {
    if s.len() > n {
        s.skip(s.len() - n)
    } else {
        s
    }
}

/// The lines of a file's content, without those that are not UTF-8.
pub open spec fn decoded_lines(content: Seq<u8>) -> Seq<Seq<char>> {
    byte_lines(content).filter(|l: Seq<u8>| valid_utf8(l)).map_values(
        |l: Seq<u8>| decode_utf8(l),
    )
}

/// Decode the lines of a file's content, leaving out those that are not UTF-8.
fn decode_lines(content: &Vec<u8>) -> (r: Vec<String>)
    ensures
        texts(r@) == decoded_lines(content@),
{
    let lines = split_byte_lines(content);
    let mut r: Vec<String> = Vec::new();
    let mut i: usize = 0;
    let ghost views = byte_views(lines@);
    let ghost valid = |l: Seq<u8>| valid_utf8(l);
    let ghost decode = |l: Seq<u8>| decode_utf8(l);
    proof {
        reveal(Seq::filter);
        assert(views.take(0) == Seq::<Seq<u8>>::empty());
        assert(texts(r@) == views.take(0).filter(valid).map_values(decode));
    }
    while i < lines.len()
        invariant
            i <= lines@.len(),
            views == byte_views(lines@),
            valid == (|l: Seq<u8>| valid_utf8(l)),
            decode == (|l: Seq<u8>| decode_utf8(l)),
            texts(r@) == views.take(i as int).filter(valid).map_values(decode),
        decreases lines@.len() - i,
    {
        let line = bytes_of(&lines[i], 0, lines[i].len());
        let ghost before = r@;
        proof {
            assert(line@ == views[i as int]);
            assert(views.take(i + 1).drop_last() == views.take(i as int));
            reveal(Seq::filter);
        }
        match utf8_text(line) {
            Some(s) => {
                r.push(s);
                proof {
                    assert(texts(r@) == texts(before).push(s@));
                    assert(texts(r@) == views.take(i + 1).filter(valid).map_values(decode));
                }
            },
            None => {},
        }
        i += 1;
    }
    proof {
        assert(views.take(i as int) == views);
    }
    r
}

/// The last lines of a file of some size with some content.
pub open spec fn tail_of(size: int, content: Seq<u8>, n: nat) -> Seq<Seq<char>> {
    if size == 0 {
        Seq::empty()
    } else {
        last_n(decoded_lines(content), n)
    }
}

/// The lines that are new in a file whose size went from one value to another.
pub open spec fn news_of(
    last_size: int,
    current_size: int,
    content: Seq<u8>,
    max_lines: nat,
) -> Seq<Seq<char>> {
    if current_size < last_size {
        tail_of(current_size, content, max_lines)
    } else if current_size == last_size {
        Seq::empty()
    } else {
        text_lines(utf8_lossy(content))
    }
}

/// The last `n` lines of a file, with its size.
///
/// `size` is the file's size as its metadata gives it, `content` the bytes read from it; the
/// content of a file of size zero is not looked at.
pub fn read_tail(size: u64, content: &Vec<u8>, n: usize) -> (r: (Vec<String>, u64))
    ensures
        r.1 == size,
        texts(r.0@) == tail_of(size as int, content@, n as nat),
        texts(r.0@) == if size == 0 {
            Seq::<Seq<char>>::empty()
        } else {
            last_n(decoded_lines(content@), n as nat)
        },
{
    if size == 0 {
        let none: Vec<String> = Vec::new();
        assert(texts(none@) == Seq::<Seq<char>>::empty());
        return (none, 0);
    }
    let mut all = decode_lines(content);
    let start: usize = if all.len() > n {
        all.len() - n
    } else {
        0
    };
    let ghost whole = all@;
    let tail = all.split_off(start);
    proof {
        assert(texts(tail@) == last_n(texts(whole), n as nat));
    }
    (tail, size)
}

/// What has to be read of a file whose size has changed from one value to another.
#[derive(Clone, Copy, Debug, PartialEq, Eq, Structural)]
pub enum ReadPlan {
    /// The file has shrunk: it was truncated, and is read again as a whole.
    Whole,
    /// The file has its old size: nothing is read.
    Nothing,
    /// The file has grown: what stands behind this offset is read.
    From(u64),
}

/// What to read of a file of which `last_size` bytes are known.
pub fn plan_read(last_size: u64, current_size: u64) -> (r: ReadPlan)
    ensures
        r is Whole <==> current_size < last_size,
        r is Nothing <==> current_size == last_size,
        current_size > last_size ==> r == ReadPlan::From(last_size),
{
    if current_size < last_size {
        ReadPlan::Whole
    } else if current_size == last_size {
        ReadPlan::Nothing
    } else {
        ReadPlan::From(last_size)
    }
}

/// The lines that are new in a file of which `last_size` bytes are known, with its size.
///
/// `content` holds the bytes that `plan_read` asks for. A file that has shrunk was truncated:
/// its last `max_lines` lines are new. Of a file that has grown, every line that stands behind
/// the known bytes is new.
pub fn read_new_content(
    last_size: u64,
    current_size: u64,
    content: &Vec<u8>,
    max_lines: usize,
) -> (r: (Vec<String>, u64))
    ensures
        r.1 == current_size,
        texts(r.0@) == news_of(
            last_size as int,
            current_size as int,
            content@,
            max_lines as nat,
        ),
        current_size < last_size ==> texts(r.0@) == if current_size == 0 {
            Seq::<Seq<char>>::empty()
        } else {
            last_n(decoded_lines(content@), max_lines as nat)
        },
        current_size == last_size ==> r.0@.len() == 0,
        current_size > last_size ==> texts(r.0@) == text_lines(utf8_lossy(content@)),
        current_size > last_size && valid_utf8(content@) ==> texts(r.0@) == text_lines(
            decode_utf8(content@),
        ),
{
    match plan_read(last_size, current_size) {
        ReadPlan::Whole => read_tail(current_size, content, max_lines),
        ReadPlan::Nothing => {
            let none: Vec<String> = Vec::new();
            (none, current_size)
        },
        ReadPlan::From(_) => {
            let text = lossy_text(content);
            (split_text_lines(text.as_str()), current_size)
        },
    }
}

/// Of a file that is UTF-8, every line is shown.
pub proof fn law_utf8_file_keeps_every_line(content: Seq<u8>)
    requires
        valid_utf8(content),
    ensures
        decoded_lines(content) == text_lines(decode_utf8(content)),
{
    law_decoding_keeps_lines(content);
    let valid = |l: Seq<u8>| valid_utf8(l);
    lemma_filter_all(byte_lines(content), valid);
}

/// Following a file gives what reading it again as a whole would give: where the part read
/// first is empty or ends with a line feed, and the appended part is UTF-8, the lines shown
/// first and the lines appended are together the lines of the whole file.
pub proof fn law_following_equals_rereading(known: Seq<u8>, appended: Seq<u8>)
    requires
        known.len() == 0 || known.last() == 10u8,
        valid_utf8(appended),
    ensures
        decoded_lines(known + appended) == decoded_lines(known) + text_lines(
            decode_utf8(appended),
        ),
{
    let valid = |l: Seq<u8>| valid_utf8(l);
    let decode = |l: Seq<u8>| decode_utf8(l);
    law_lines_of_pieces(known, appended, 10u8, 13u8);
    law_utf8_file_keeps_every_line(appended);
    let a = byte_lines(known);
    let b = byte_lines(appended);
    Seq::filter_distributes_over_add(a, b, valid);
    assert((a.filter(valid) + b.filter(valid)).map_values(decode) == a.filter(valid).map_values(
        decode,
    ) + b.filter(valid).map_values(decode));
}

/// A tail never has more lines than were asked for, and has all lines where there are no more.
pub proof fn law_tail_is_bounded(content: Seq<u8>, n: nat)
    ensures
        last_n(decoded_lines(content), n).len() <= n,
        decoded_lines(content).len() <= n ==> last_n(decoded_lines(content), n) == decoded_lines(
            content,
        ),
        last_n(decoded_lines(content), n).is_suffix_of(decoded_lines(content)),
{
}

} // verus!
