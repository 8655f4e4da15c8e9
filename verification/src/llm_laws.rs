//! What the model is asked and what is made of its answer.

use crate::event::AppEventView;
use crate::llm::{
    candidates, first_readable, is_absolute, json_texts, lemma_word_end, question, response_summary,
    script_of, summary_in, summary_ready, trim_end, trim_start, word_end, words, LlmError,
};
use crate::text::{truncated, white_space};
use vstd::prelude::*;

verus! {

/// White space separates the words of a text, and nothing else does: what stands before a white
/// space and what stands behind it are taken apart one by one, a run without white space is one
/// word, and nothing is none.
pub proof fn law_white_space_separates_words(a: Seq<char>, space: char, b: Seq<char>)
    requires
        white_space(space),
    ensures
        words(a + seq![space] + b) == words(a) + words(b),
        words(Seq::empty()) == Seq::<Seq<char>>::empty(),
        a.len() > 0 && (forall|i: int| 0 <= i < a.len() ==> !white_space(#[trigger] a[i]))
            ==> words(a) == seq![a],
    decreases a.len(),
{
    let c = a + seq![space] + b;
    if a.len() == 0 {
        assert(c.drop_first() == b);
        assert(words(a) + words(b) == words(b));
    } else if white_space(a[0]) {
        assert(c.drop_first() == a.drop_first() + seq![space] + b);
        law_white_space_separates_words(a.drop_first(), space, b);
    } else {
        lemma_word_end(a, 0);
        lemma_word_end(c, 0);
        let e = word_end(a, 0);
        let f = word_end(c, 0);
        assert(forall|i: int| 0 <= i < a.len() ==> c[i] == a[i]);
        assert(c[a.len() as int] == space);
        if f < e {
            assert(!white_space(a[f]));
        }
        if e < f {
            assert(!white_space(c[e]));
        }
        assert(e == f);
        assert(e > 0) by {
            if e == 0 {
                assert(white_space(a[0]));
            }
        }
        assert(c.take(e) == a.take(e));
        assert(c.skip(e) == a.skip(e) + seq![space] + b);
        law_white_space_separates_words(a.skip(e), space, b);
        assert(words(c) == words(a) + words(b));
        if forall|i: int| 0 <= i < a.len() ==> !white_space(#[trigger] a[i]) {
            assert(e == a.len());
            assert(a.take(e) == a);
            assert(a.skip(e) == Seq::<char>::empty());
            assert(words(a) == seq![a]);
        }
    }
}

/// The absolute paths of a command line are those of its words that begin with a slash, in order.
pub proof fn law_absolute_words_are_candidates(a: Seq<char>, space: char, b: Seq<char>)
    requires
        white_space(space),
    ensures
        candidates(a + seq![space] + b) == candidates(a) + candidates(b),
        a.len() > 0 && (forall|i: int| 0 <= i < a.len() ==> !white_space(#[trigger] a[i]))
            ==> candidates(a) == if a[0] == '/' {
            seq![a]
        } else {
            Seq::<Seq<char>>::empty()
        },
{
    let absolute = |w: Seq<char>| is_absolute(w);
    law_white_space_separates_words(a, space, b);
    Seq::filter_distributes_over_add(words(a), words(b), absolute);
    reveal(Seq::filter);
    let one = seq![a];
    let none = Seq::<Seq<char>>::empty();
    assert(one.drop_last() == none);
    assert(none.filter(absolute) == none);
    assert(one.filter(absolute) == if is_absolute(a) {
        none.push(a)
    } else {
        none
    });
}

/// The script of a command line is the first of its absolute paths that could be read, and there
/// is none where none could; it is sent as it is up to ten thousand bytes.
pub proof fn law_script_is_the_first_readable(
    cmd: Seq<char>,
    contents: Seq<Option<String>>,
    i: int,
)
    requires
        forall|k: int| 0 <= k < i && k < contents.len() ==> #[trigger] contents[k] is None,
        0 <= i,
    ensures
        i >= contents.len() ==> script_of(cmd, contents) is None,
        i < contents.len() && contents[i] is Some ==> script_of(cmd, contents) == Some(
            (
                candidates(cmd)[i],
                truncated(contents[i]->0@, 10_000, 10_000, "...(truncated)"@),
            ),
        ),
{
    lemma_first_readable(contents, 0, i);
}

/// The search for a file that could be read passes over those that could not.
proof fn lemma_first_readable(contents: Seq<Option<String>>, from: int, i: int)
    requires
        0 <= from <= i,
        forall|k: int| from <= k < i && k < contents.len() ==> #[trigger] contents[k] is None,
    ensures
        i >= contents.len() ==> first_readable(contents, from) >= contents.len(),
        i < contents.len() && contents[i] is Some ==> first_readable(contents, from) == i,
    decreases i - from,
{
    if from < i && from < contents.len() {
        assert(contents[from] is None);
        lemma_first_readable(contents, from + 1, i);
    }
}

/// The model is asked about the command line, and about its script where there is one, by its path
/// and what it holds.
pub proof fn law_question_names_the_command(cmd: Seq<char>, path: Seq<char>, content: Seq<char>)
    ensures
        question(cmd, None) == "Command line: "@ + cmd,
        question(cmd, Some((path, content))) == question(cmd, None) + "\n\nScript file ("@ + path
            + "):\n"@ + content,
{
    let plain = "Command line: "@ + cmd;
    assert(plain + Seq::<char>::empty() == plain);
    assert(question(cmd, Some((path, content))) == question(cmd, None) + "\n\nScript file ("@ + path
        + "):\n"@ + content);
}

/// All characters of a text are white space.
pub open spec fn is_blank(t: Seq<char>) -> bool {
    forall|i: int| 0 <= i < t.len() ==> white_space(#[trigger] t[i])
}

/// White space at the beginning goes.
proof fn lemma_trim_start_drops(a: Seq<char>, t: Seq<char>)
    requires
        is_blank(a),
        t.len() > 0 ==> !white_space(t[0]),
    ensures
        trim_start(a + t) == t,
    decreases a.len(),
{
    if a.len() == 0 {
        assert(a + t == t);
    } else {
        assert((a + t)[0] == a[0]);
        assert((a + t).drop_first() == a.drop_first() + t);
        lemma_trim_start_drops(a.drop_first(), t);
    }
}

/// White space at the end goes.
proof fn lemma_trim_end_drops(t: Seq<char>, b: Seq<char>)
    requires
        is_blank(b),
        t.len() > 0 ==> !white_space(t.last()),
    ensures
        trim_end(t + b) == t,
    decreases b.len(),
{
    if b.len() == 0 {
        assert(t + b == t);
    } else {
        assert((t + b).last() == b.last());
        assert((t + b).drop_last() == t + b.drop_last());
        lemma_trim_end_drops(t, b.drop_last());
    }
}

/// The summary is the content of the message, whatever its reasoning is, or the reasoning where
/// there is no content or an empty one, without the white space around it. Without either there is
/// none.
pub proof fn law_summary_is_the_content_or_the_reasoning(
    before: Seq<char>,
    t: Seq<char>,
    behind: Seq<char>,
    other: Option<Seq<char>>,
)
    requires
        is_blank(before),
        is_blank(behind),
        t.len() > 0,
        !white_space(t[0]),
        !white_space(t.last()),
    ensures
        ({
            let said = Some(before + t + behind);
            let none = Some(Seq::<char>::empty());
            &&& summary_in(said, other) == Ok::<Seq<char>, LlmError>(t)
            &&& summary_in(None, said) == Ok::<Seq<char>, LlmError>(t)
            &&& summary_in(none, said) == Ok::<Seq<char>, LlmError>(t)
            &&& summary_in(None, None) == Err::<Seq<char>, LlmError>(LlmError::UnexpectedFormat)
            &&& summary_in(none, None) == Err::<Seq<char>, LlmError>(LlmError::UnexpectedFormat)
        }),
{
    let all = before + t + behind;
    assert(all == before + (t + behind));
    assert((t + behind)[0] == t[0]);
    lemma_trim_start_drops(before, t + behind);
    lemma_trim_end_drops(t, behind);
}

/// A summary is sent for the file that it was asked for, as it is; without one nothing is sent.
pub proof fn law_summary_is_sent_for_its_file(path: Seq<u8>, summary: Seq<char>, error: LlmError)
    ensures
        summary_ready(path, Ok(summary)) == Some(
            AppEventView::ProcessSummaryReady { path, summary },
        ),
        summary_ready(path, Err(error)) is None,
{
}

/// The summary comes from the message of the first choice, from its content and its reasoning; a
/// response that is not JSON has none.
pub proof fn law_summary_is_in_the_first_choice(body: Seq<u8>)
    ensures
        match json_texts(body, "choices"@, 0, "message"@, "content"@, "reasoning_content"@) {
            Some((content, reasoning)) => response_summary(body) == summary_in(content, reasoning),
            None => response_summary(body) == Err::<Seq<char>, LlmError>(LlmError::InvalidJson),
        },
{
}

} // verus!
