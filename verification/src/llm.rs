//! Asking a language model what a process does.

use crate::event::{AppEvent, AppEventView};
use crate::path::FilePath;
use crate::text::{
    can_truncate, chars_of, opt_text, string_of, texts, truncate, truncated, white_space,
};
use vstd::prelude::*;
use vstd::utf8::*;

verus! {

/// The most bytes of a script that are sent.
pub const SCRIPT_LIMIT: usize = 10_000;

/// The first index from `from` on whose character is white space, or the length of the text.
pub open spec fn word_end(t: Seq<char>, from: int) -> int
    decreases t.len() - from,
{
    if from >= t.len() || white_space(t[from]) {
        from
    } else {
        word_end(t, from + 1)
    }
}

/// The words of a text, which white space separates.
pub open spec fn words(t: Seq<char>) -> Seq<Seq<char>>
    decreases t.len(),
{
    if t.len() == 0 {
        Seq::empty()
    } else if white_space(t[0]) {
        words(t.drop_first())
    } else {
        proof {
            lemma_word_end(t, 1);
        }
        seq![t.take(word_end(t, 0))] + words(t.skip(word_end(t, 0)))
    }
}

/// `word_end` is where the word stops.
pub proof fn lemma_word_end(t: Seq<char>, from: int)
    requires
        0 <= from <= t.len(),
    ensures
        from <= word_end(t, from) <= t.len(),
        word_end(t, from) < t.len() ==> white_space(t[word_end(t, from)]),
        forall|j: int| from <= j < word_end(t, from) ==> !white_space(#[trigger] t[j]),
    decreases t.len() - from,
{
    if from < t.len() && !white_space(t[from]) {
        lemma_word_end(t, from + 1);
    }
}

/// Whether a word is an absolute path.
pub open spec fn is_absolute(word: Seq<char>) -> bool {
    word.len() > 0 && word[0] == '/'
}

/// The absolute paths among the words of a command line.
pub open spec fn candidates(cmd: Seq<char>) -> Seq<Seq<char>> {
    words(cmd).filter(|w: Seq<char>| is_absolute(w))
}

/// The absolute paths among the words of a command line: where its script may be found.
pub fn script_candidates(cmd: &str) -> (r: Vec<String>)
    ensures
        texts(r@) == candidates(cmd@),
{
    let t = chars_of(cmd);
    let ghost absolute = |w: Seq<char>| is_absolute(w);
    let ghost mut found: Seq<Seq<char>> = Seq::empty();
    let mut r: Vec<String> = Vec::new();
    let mut i: usize = 0;
    proof {
        reveal(Seq::filter);
        assert(t@.skip(0) == t@);
        assert(found + words(t@) == words(t@));
        assert(texts(r@) == found.filter(absolute));
    }
    while i < t.len()
        invariant
            i <= t@.len(),
            absolute == (|w: Seq<char>| is_absolute(w)),
            found + words(t@.skip(i as int)) == words(t@),
            texts(r@) == found.filter(absolute),
        decreases t@.len() - i,
    {
        let ghost rest = t@.skip(i as int);
        if t[i].is_whitespace() {
            assert(rest.drop_first() == t@.skip(i + 1));
            i += 1;
        } else {
            let start: usize = i;
            i += 1;
            while i < t.len() && !t[i].is_whitespace()
                invariant
                    start < i <= t@.len(),
                    forall|j: int| start <= j < i ==> !white_space(#[trigger] t@[j]),
                decreases t@.len() - i,
            {
                i += 1;
            }
            let ghost before = r@;
            let ghost len = i - start;
            let ghost word = t@.subrange(start as int, i as int);
            proof {
                lemma_word_end(rest, 0);
                if word_end(rest, 0) < len {
                    assert(!white_space(t@[start + word_end(rest, 0)]));
                }
                if word_end(rest, 0) > len {
                    assert(!white_space(rest[len]));
                }
                assert(rest.take(len) == word);
                assert(rest.skip(len) == t@.skip(i as int));
                assert(found + (seq![word] + words(t@.skip(i as int))) == found.push(word) + words(
                    t@.skip(i as int),
                ));
                assert(found.push(word).drop_last() == found);
                reveal(Seq::filter);
            }
            if t[start] == '/' {
                r.push(string_of(&t, start, i));
                assert(texts(r@) == texts(before).push(word));
            }
            proof {
                found = found.push(word);
            }
        }
    }
    assert(found + words(t@.skip(i as int)) == found);
    r
}

/// The first file that could be read, from `from` on.
pub open spec fn first_readable(contents: Seq<Option<String>>, from: int) -> int
    decreases contents.len() - from,
{
    if from >= contents.len() || contents[from] is Some {
        from
    } else {
        first_readable(contents, from + 1)
    }
}

/// The script of a command line: the first of its absolute paths that could be read, with the
/// beginning of what it holds.
pub open spec fn script_of(cmd: Seq<char>, contents: Seq<Option<String>>) -> Option<
    (Seq<char>, Seq<char>),
> {
    let i = first_readable(contents, 0);
    if i < contents.len() {
        Some(
            (
                candidates(cmd)[i],
                truncated(
                    contents[i]->0@,
                    SCRIPT_LIMIT as int,
                    SCRIPT_LIMIT as int,
                    "...(truncated)"@,
                ),
            ),
        )
    } else {
        None
    }
}

/// Whether what a file holds can be cut to the size that is sent.
pub open spec fn script_fits(content: Option<String>) -> bool {
    content matches Some(c) ==> can_truncate(c@, SCRIPT_LIMIT as int, SCRIPT_LIMIT as int)
}

/// Find the script of a command line, with the beginning of what it holds.
///
/// `contents` says, for each of the first absolute paths of the command line, what the file there
/// holds, if it could be read.
pub fn read_script_content(cmd: &str, contents: &Vec<Option<String>>) -> (r: Option<
    (String, String),
>)
    requires
        contents@.len() <= candidates(cmd@).len(),
        forall|i: int| 0 <= i < contents@.len() ==> script_fits(#[trigger] contents@[i]),
    ensures
        r is Some <==> script_of(cmd@, contents@) is Some,
        r matches Some(s) ==> Some((s.0@, s.1@)) == script_of(cmd@, contents@),
{
    let paths = script_candidates(cmd);
    assert(texts(paths@).len() == paths@.len());
    let mut i: usize = 0;
    while i < contents.len()
        invariant
            i <= contents@.len() <= paths@.len(),
            texts(paths@) == candidates(cmd@),
            forall|k: int| 0 <= k < contents@.len() ==> script_fits(#[trigger] contents@[k]),
            first_readable(contents@, 0) == first_readable(contents@, i as int),
        decreases contents@.len() - i,
    {
        match &contents[i] {
            Some(content) => {
                assert(script_fits(contents@[i as int]));
                assert(texts(paths@)[i as int] == paths@[i as int]@);
                let text = truncate(
                    content.as_str(),
                    SCRIPT_LIMIT,
                    SCRIPT_LIMIT,
                    "...(truncated)",
                );
                return Some((paths[i].clone(), text));
            },
            None => {},
        }
        i += 1;
    }
    None
}

/// What the model is asked about a process.
pub open spec fn question(cmd: Seq<char>, script: Option<(Seq<char>, Seq<char>)>) -> Seq<char> {
    "Command line: "@ + cmd + match script {
        Some((path, content)) => "\n\nScript file ("@ + path + "):\n"@ + content,
        None => Seq::empty(),
    }
}

/// The path and the text of a script.
pub open spec fn opt_script(script: Option<(String, String)>) -> Option<(Seq<char>, Seq<char>)> {
    match script {
        Some((path, content)) => Some((path@, content@)),
        None => None,
    }
}

/// What the model is asked about a process.
pub fn user_message(cmd: &str, script: &Option<(String, String)>) -> (r: String)
    ensures
        r@ == question(cmd@, opt_script(*script)),
{
    let mut r = "Command line: ".to_string();
    r.append(cmd);
    match script {
        Some((path, content)) => {
            let ghost before = r@;
            r.append("\n\nScript file (");
            r.append(path.as_str());
            r.append("):\n");
            r.append(content.as_str());
            assert(r@ == before + ("\n\nScript file ("@ + path@ + "):\n"@ + content@));
        },
        None => {
            assert(r@ + Seq::<char>::empty() == r@);
        },
    }
    r
}

/// A hexadecimal digit.
pub open spec fn hex_digit(n: int) -> char {
    (if n < 10 {
        48 + n
    } else {
        87 + n
    }) as char
}

/// A character inside a JSON string.
pub open spec fn json_char(c: char) -> Seq<char> {
    if c == '"' || c == '\\' {
        seq!['\\', c]
    } else if c == '\u{8}' {
        seq!['\\', 'b']
    } else if c == '\t' {
        seq!['\\', 't']
    } else if c == '\n' {
        seq!['\\', 'n']
    } else if c == '\u{c}' {
        seq!['\\', 'f']
    } else if c == '\r' {
        seq!['\\', 'r']
    } else if c <= '\u{1f}' {
        seq!['\\', 'u', '0', '0', hex_digit(c as int / 16), hex_digit(c as int % 16)]
    } else {
        seq![c]
    }
}

/// The characters of a text inside a JSON string.
pub open spec fn json_chars(t: Seq<char>) -> Seq<char>
    decreases t.len(),
{
    if t.len() == 0 {
        Seq::empty()
    } else {
        json_char(t[0]) + json_chars(t.drop_first())
    }
}

/// A text as a JSON string.
pub open spec fn json_string(t: Seq<char>) -> Seq<char> {
    seq!['"'] + json_chars(t) + seq!['"']
}

/// `serde_json::to_string` writes a text as a JSON string: between quotes, with a backslash before
/// quotes and backslashes, with the short escapes of backspace, tab, line feed, form feed and
/// carriage return, with other characters before the space as `\u` and four digits, and with all
/// others as they are. Writing a text does not fail.
#[verifier::external_body]
fn json_quoted(text: &str) -> (r: String)
    ensures
        r@ == json_string(text@),
{
    serde_json::to_string(text).unwrap_or_default()
}

/// What the model is told to do.
pub open spec fn instructions() -> Seq<char> {
    "You are a Unix process identifier. Given a command line (and optionally the script it runs), reply with ONLY a single short summary (under 100 chars) of what the process does. No explanation, no quotes, no prefixes."@
}

/// The request to the model, with what it is told to do and what it is asked.
pub open spec fn request_json(user: Seq<char>) -> Seq<char> {
    "{\"max_tokens\":16384,\"messages\":[{\"content\":"@ + json_string(instructions())
        + ",\"role\":\"system\"},{\"content\":"@ + json_string(user) + ",\"role\":\"user\"}]}"@
}

/// The request to the model.
pub fn request_body(user_message: &str) -> (r: String)
    ensures
        r@ == request_json(user_message@),
{
    let mut r = "{\"max_tokens\":16384,\"messages\":[{\"content\":".to_string();
    let system = json_quoted(
        "You are a Unix process identifier. Given a command line (and optionally the script it runs), reply with ONLY a single short summary (under 100 chars) of what the process does. No explanation, no quotes, no prefixes.",
    );
    r.append(system.as_str());
    r.append(",\"role\":\"system\"},{\"content\":");
    r.append(json_quoted(user_message).as_str());
    r.append(",\"role\":\"user\"}]}");
    r
}

/// Why there is no summary.
#[derive(Clone, Copy, Debug, PartialEq, Eq, Structural)]
pub enum LlmError {
    /// The response is not JSON.
    InvalidJson,
    /// The response holds no message.
    UnexpectedFormat,
}

impl LlmError {
    /// The error in words.
    pub open spec fn text(self) -> Seq<char> {
        match self {
            LlmError::InvalidJson => "LLM response is not JSON"@,
            LlmError::UnexpectedFormat => "unexpected LLM response format"@,
        }
    }

    /// The error in words.
    pub fn message(&self) -> (r: String)
        ensures
            r@ == self.text(),
    {
        match self {
            LlmError::InvalidJson => "LLM response is not JSON".to_string(),
            LlmError::UnexpectedFormat => "unexpected LLM response format".to_string(),
        }
    }
}

/// A text without the white space that begins it.
pub open spec fn trim_start(t: Seq<char>) -> Seq<char>
    decreases t.len(),
{
    if t.len() > 0 && white_space(t[0]) {
        trim_start(t.drop_first())
    } else {
        t
    }
}

/// A text without the white space that ends it.
pub open spec fn trim_end(t: Seq<char>) -> Seq<char>
    decreases t.len(),
{
    if t.len() > 0 && white_space(t.last()) {
        trim_end(t.drop_last())
    } else {
        t
    }
}

/// A text without the white space around it.
fn trim(s: &str) -> (r: String)
    ensures
        r@ == trim_end(trim_start(s@)),
{
    let t = chars_of(s);
    let mut from: usize = 0;
    assert(t@.skip(0) == t@);
    while from < t.len() && t[from].is_whitespace()
        invariant
            from <= t@.len(),
            trim_start(t@.skip(from as int)) == trim_start(t@),
        decreases t@.len() - from,
    {
        assert(t@.skip(from as int).drop_first() == t@.skip(from + 1));
        from += 1;
    }
    let mut to: usize = t.len();
    let ghost rest = t@.skip(from as int);
    assert(t@.subrange(from as int, to as int) == rest);
    while to > from && t[to - 1].is_whitespace()
        invariant
            from <= to <= t@.len(),
            trim_end(t@.subrange(from as int, to as int)) == trim_end(rest),
        decreases to,
    {
        assert(t@.subrange(from as int, to as int).drop_last() == t@.subrange(
            from as int,
            to - 1,
        ));
        to -= 1;
    }
    string_of(&t, from, to)
}

/// The summary that a message holds: its content, or where that is missing or empty its
/// reasoning, without the white space around it.
pub open spec fn summary_in(
    content: Option<Seq<char>>,
    reasoning: Option<Seq<char>>,
) -> Result<Seq<char>, LlmError> {
    match (content, reasoning) {
        (Some(c), Some(r)) => Ok(
            trim_end(
                trim_start(
                    if c.len() > 0 {
                        c
                    } else {
                        r
                    },
                ),
            ),
        ),
        (Some(c), None) => if c.len() > 0 {
            Ok(trim_end(trim_start(c)))
        } else {
            Err(LlmError::UnexpectedFormat)
        },
        (None, Some(r)) => Ok(trim_end(trim_start(r))),
        (None, None) => Err(LlmError::UnexpectedFormat),
    }
}

/// What a summary is, apart from how it is stored.
pub open spec fn summary_view(summary: Result<String, LlmError>) -> Result<Seq<char>, LlmError> {
    match summary {
        Ok(s) => Ok(s@),
        Err(e) => Err(e),
    }
}

/// Take the summary out of a message: its content, or where that is missing or empty its
/// reasoning.
pub fn choose_summary(content: Option<String>, reasoning: Option<String>) -> (r: Result<
    String,
    LlmError,
>)
    ensures
        summary_view(r) == summary_in(opt_text(content), opt_text(reasoning)),
{
    match content {
        Some(c) => {
            if !c.as_str().is_empty() {
                return Ok(trim(c.as_str()));
            }
        },
        None => {},
    }
    match reasoning {
        Some(r) => Ok(trim(r.as_str())),
        None => Err(LlmError::UnexpectedFormat),
    }
}

/// `serde_json::Error`, the reason why a text is not JSON.
#[verifier::external_type_specification]
#[verifier::external_body]
pub struct ExJsonError(serde_json::Error);

/// The name of the two texts that `serde_json` finds in a JSON document: in the list under a key,
/// at an index, in the object under another key, under two more keys each. Nothing where the
/// bytes are not JSON.
pub uninterp spec fn json_texts(
    body: Seq<u8>,
    list: Seq<char>,
    index: int,
    item: Seq<char>,
    first: Seq<char>,
    second: Seq<char>,
) -> Option<(Option<Seq<char>>, Option<Seq<char>>)>;

/// `serde_json::from_slice` reads a JSON document, and `serde_json::Value` is indexed by keys and
/// positions, where what is not there is null; `as_str` gives the text of a string and nothing of
/// anything else. What is found depends on the bytes, the keys and the index alone.
#[verifier::external_body]
fn json_texts_at(
    body: &[u8],
    list: &str,
    index: usize,
    item: &str,
    first: &str,
    second: &str,
) -> (r: Result<(Option<String>, Option<String>), serde_json::Error>)
    ensures
        r is Ok <==> json_texts(body@, list@, index as int, item@, first@, second@) is Some,
        r matches Ok(t) ==> Some((opt_text(t.0), opt_text(t.1))) == json_texts(
            body@,
            list@,
            index as int,
            item@,
            first@,
            second@,
        ),
{
    let root: serde_json::Value = serde_json::from_slice(body)?;
    let found = &root[list][index][item];
    let a = found[first].as_str().map(|s| s.to_string());
    let b = found[second].as_str().map(|s| s.to_string());
    Ok((a, b))
}

/// What a response holds: the content and the reasoning of the message in its first choice.
pub open spec fn message_in(body: Seq<u8>) -> Option<(Option<Seq<char>>, Option<Seq<char>>)> {
    json_texts(body, "choices"@, 0, "message"@, "content"@, "reasoning_content"@)
}

/// The summary that a response holds.
pub open spec fn response_summary(body: Seq<u8>) -> Result<Seq<char>, LlmError> {
    match message_in(body) {
        Some((content, reasoning)) => summary_in(content, reasoning),
        None => Err(LlmError::InvalidJson),
    }
}

/// Take the summary out of a response.
pub fn summary_from_response(body: &[u8]) -> (r: Result<String, LlmError>)
    ensures
        summary_view(r) == response_summary(body@),
{
    match json_texts_at(body, "choices", 0, "message", "content", "reasoning_content") {
        Ok((content, reasoning)) => choose_summary(content, reasoning),
        Err(_) => Err(LlmError::InvalidJson),
    }
}

/// The event that a summary makes of a file: none where there is no summary.
pub open spec fn summary_ready(
    path: Seq<u8>,
    summary: Result<Seq<char>, LlmError>,
) -> Option<AppEventView> {
    match summary {
        Ok(summary) => Some(AppEventView::ProcessSummaryReady { path, summary }),
        Err(_) => None,
    }
}

/// The event to send when the model has answered. Where there is no summary nothing is sent, and
/// the panel goes on showing the command line.
pub fn summary_event(path: FilePath, summary: Result<String, LlmError>) -> (r: Option<AppEvent>)
    ensures
        r is Some <==> summary_ready(path@, summary_view(summary)) is Some,
        r matches Some(event) ==> Some(event@) == summary_ready(path@, summary_view(summary)),
{
    match summary {
        Ok(summary) => Some(AppEvent::ProcessSummaryReady { path, summary }),
        Err(_) => None,
    }
}

/// The name of the host that `reqwest::Url` finds in an address.
pub uninterp spec fn host_of(url: Seq<char>) -> Option<Seq<char>>;

/// `reqwest::Url::parse` and `reqwest::Url::host_str` give the host of an address, if it is one and
/// has one. The host depends on the text of the address alone.
#[verifier::external_body]
fn url_host(url: &str) -> (r: Option<String>)
    ensures
        opt_text(r) == host_of(url@),
{
    let parsed = reqwest::Url::parse(url).ok()?;
    parsed.host_str().map(|h| h.to_string())
}

/// A host, or an empty text where there is none.
pub fn host_or_empty(host: Option<String>) -> (r: String)
    ensures
        r@ == match opt_text(host) {
            Some(h) => h,
            None => Seq::empty(),
        },
{
    match host {
        Some(h) => h,
        None => String::new(),
    }
}

/// The host that is asked without a proxy.
pub fn no_proxy_host(api_url: &str) -> (r: String)
    ensures
        r@ == match host_of(api_url@) {
            Some(h) => h,
            None => Seq::empty(),
        },
{
    host_or_empty(url_host(api_url))
}

/// The name of what `serde_json` makes of a JSON document when it is to be read by people.
/// Nothing where the bytes are not JSON.
pub uninterp spec fn pretty_json(body: Seq<u8>) -> Option<Seq<char>>;

/// `serde_json::from_slice` reads a JSON document, and `serde_json::to_string_pretty` writes it over
/// several lines. The text depends on the bytes alone.
#[verifier::external_body]
fn json_pretty(body: &[u8]) -> (r: Option<String>)
    ensures
        opt_text(r) == pretty_json(body@),
{
    let value: serde_json::Value = serde_json::from_slice(body).ok()?;
    serde_json::to_string_pretty(&value).ok()
}

/// What is logged of a request, `pretty` being its body for people to read.
pub fn request_entry_of(api_url: &str, pretty: Option<String>) -> (r: String)
    ensures
        r@ == "REQUEST to "@ + api_url@ + "\n"@ + match opt_text(pretty) {
            Some(t) => t,
            None => Seq::empty(),
        },
{
    let mut r = "REQUEST to ".to_string();
    r.append(api_url);
    r.append("\n");
    match pretty {
        Some(t) => {
            r.append(t.as_str());
        },
        None => {
            assert(r@ + Seq::<char>::empty() == r@);
        },
    }
    r
}

/// What is logged of a request.
pub fn request_entry(api_url: &str, body: &str) -> (r: String)
    ensures
        r@ == "REQUEST to "@ + api_url@ + "\n"@ + match pretty_json(encode_utf8(body@)) {
            Some(t) => t,
            None => Seq::empty(),
        },
{
    request_entry_of(api_url, json_pretty(body.as_bytes()))
}

/// What is logged of a response, `pretty` being the response for people to read. Nothing where it
/// is not JSON.
pub fn response_entry_of(pretty: Option<String>) -> (r: Option<String>)
    ensures
        opt_text(r) == match opt_text(pretty) {
            Some(t) => Some("RESPONSE\n"@ + t),
            None => None,
        },
{
    match pretty {
        Some(t) => {
            let mut r = "RESPONSE\n".to_string();
            r.append(t.as_str());
            Some(r)
        },
        None => None,
    }
}

/// What is logged of a response. Nothing where it is not JSON.
pub fn response_entry(body: &[u8]) -> (r: Option<String>)
    ensures
        opt_text(r) == match pretty_json(body@) {
            Some(t) => Some("RESPONSE\n"@ + t),
            None => None,
        },
{
    response_entry_of(json_pretty(body))
}

/// What is logged of a summary.
pub fn summary_entry(summary: &str) -> (r: String)
    ensures
        r@ == "SUMMARY: "@ + summary@,
{
    let mut r = "SUMMARY: ".to_string();
    r.append(summary);
    r
}

/// An entry of the log with the time at which it is made.
pub fn log_line(timestamp: &str, entry: &str) -> (r: String)
    ensures
        r@ == "["@ + timestamp@ + "] "@ + entry@ + "\n"@,
{
    let mut r = "[".to_string();
    r.append(timestamp);
    r.append("] ");
    r.append(entry);
    r.append("\n");
    r
}

/// A summary neither begins nor ends with white space.
pub proof fn law_summary_is_trimmed(content: Option<Seq<char>>, reasoning: Option<Seq<char>>)
    ensures
        summary_in(content, reasoning) matches Ok(s) ==> s.len() > 0 ==> !white_space(s[0])
            && !white_space(s.last()),
{
    if content is Some {
        lemma_trimmed(content->0);
    }
    if reasoning is Some {
        lemma_trimmed(reasoning->0);
    }
}

/// What is left of a text neither begins nor ends with white space.
proof fn lemma_trimmed(t: Seq<char>)
    ensures
        ({
            let s = trim_end(trim_start(t));
            s.len() > 0 ==> !white_space(s[0]) && !white_space(s.last())
        }),
{
    lemma_trim_start(t);
    lemma_trim_end(trim_start(t));
}

/// What is left of a text does not begin with white space.
proof fn lemma_trim_start(t: Seq<char>)
    ensures
        trim_start(t).len() > 0 ==> !white_space(trim_start(t)[0]),
    decreases t.len(),
{
    if t.len() > 0 && white_space(t[0]) {
        lemma_trim_start(t.drop_first());
    }
}

/// What is left of a text does not end with white space, and begins as the text does.
proof fn lemma_trim_end(t: Seq<char>)
    ensures
        trim_end(t).len() <= t.len(),
        trim_end(t).len() > 0 ==> !white_space(trim_end(t).last()) && trim_end(t)[0] == t[0],
    decreases t.len(),
{
    if t.len() > 0 && white_space(t.last()) {
        lemma_trim_end(t.drop_last());
    }
}

/// Two questions that make the same request are the same: nothing of a question is lost or
/// mistaken for another on its way to the model.
pub proof fn law_request_keeps_the_question(a: Seq<char>, b: Seq<char>)
    requires
        request_json(a) == request_json(b),
    ensures
        a == b,
{
    let head = "{\"max_tokens\":16384,\"messages\":[{\"content\":"@ + json_string(instructions())
        + ",\"role\":\"system\"},{\"content\":"@;
    let tail = ",\"role\":\"user\"}]}"@;
    let (ja, jb) = (json_string(a), json_string(b));
    let (ra, rb) = (request_json(a), request_json(b));
    assert(ra == head + ja + tail);
    assert(rb == head + jb + tail);
    assert(ja.len() == jb.len());
    assert(ja == ra.subrange(head.len() as int, (head.len() + ja.len()) as int));
    assert(jb == rb.subrange(head.len() as int, (head.len() + jb.len()) as int));
    assert(json_chars(a) == ja.subrange(1, ja.len() - 1));
    assert(json_chars(b) == jb.subrange(1, jb.len() - 1));
    lemma_json_chars(a, b);
}

/// Texts that are written in the same way are the same.
proof fn lemma_json_chars(a: Seq<char>, b: Seq<char>)
    requires
        json_chars(a) == json_chars(b),
    ensures
        a == b,
    decreases a.len(),
{
    if a.len() > 0 && b.len() > 0 {
        lemma_json_char(a[0], json_chars(a.drop_first()), b[0], json_chars(b.drop_first()));
        lemma_json_chars(a.drop_first(), b.drop_first());
        assert(a == seq![a[0]] + a.drop_first());
        assert(b == seq![b[0]] + b.drop_first());
    } else if a.len() > 0 {
        assert(json_chars(a).len() >= json_char(a[0]).len());
        assert(json_chars(b).len() == 0);
    } else if b.len() > 0 {
        assert(json_chars(b).len() >= json_char(b[0]).len());
        assert(json_chars(a).len() == 0);
    }
}

/// Where a written character ends can be told from its beginning.
proof fn lemma_json_char(a: char, x: Seq<char>, b: char, y: Seq<char>)
    requires
        json_char(a) + x == json_char(b) + y,
    ensures
        a == b,
        x == y,
{
    let (s, t) = (json_char(a) + x, json_char(b) + y);
    let (m, n) = (json_char(a).len() as int, json_char(b).len() as int);
    assert(forall|i: int| 0 <= i < m ==> s[i] == #[trigger] json_char(a)[i]);
    assert(forall|i: int| 0 <= i < n ==> t[i] == #[trigger] json_char(b)[i]);
    assert(s[0] == json_char(a)[0] && t[0] == json_char(b)[0]);
    if m >= 2 && n >= 2 {
        assert(s[1] == json_char(a)[1] && t[1] == json_char(b)[1]);
        if m == 6 && n == 6 {
            assert(s[4] == json_char(a)[4] && t[4] == json_char(b)[4]);
            assert(s[5] == json_char(a)[5] && t[5] == json_char(b)[5]);
        }
    }
    assert(x == s.skip(m));
    assert(y == t.skip(n));
}

} // verus!
