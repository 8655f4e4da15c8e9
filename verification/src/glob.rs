//! Which files are watched: those whose name matches a pattern, or all.

use crate::path::{file_name_bytes, file_name_text, lemma_spans, parts, spans, FilePath};
use crate::text::opt_text;
use vstd::prelude::*;
use vstd::utf8::*;

verus! {

/// The name of what `glob_match::glob_match` says of a pattern and a file name.
pub uninterp spec fn glob_matches(pattern: Seq<char>, name: Seq<char>) -> bool;

/// `glob_match::glob_match` tells whether a name matches a glob pattern, and depends on nothing
/// but the two texts, where a slash separates the parts of a path. It counts positions in 32
/// bits, so both texts have to be shorter than that.
#[verifier::external_body]
fn glob_match(pattern: &str, name: &str) -> (r: bool)
    requires
        encode_utf8(pattern@).len() < u32::MAX,
        encode_utf8(name@).len() < u32::MAX,
    ensures
        r == glob_matches(pattern@, name@),
{
    glob_match::glob_match(pattern, name)
}

/// Whether a file is watched: there is no pattern, or the file has a name and it matches.
pub open spec fn passes(path: Seq<u8>, pattern: Option<Seq<char>>) -> bool {
    match pattern {
        None => true,
        Some(p) => match file_name_text(path) {
            Some(name) => glob_matches(p, name),
            None => false,
        },
    }
}

/// Whether a pattern is short enough to be matched.
pub open spec fn pattern_fits(pattern: Option<Seq<char>>) -> bool {
    pattern matches Some(p) ==> encode_utf8(p).len() < u32::MAX
}

/// Whether a path is short enough to be matched.
pub open spec fn path_fits(path: Seq<u8>) -> bool {
    path.len() < u32::MAX
}

/// Whether a file whose name was found passes a pattern: `matched` is what matching its name
/// gave, where it has one.
pub fn name_passes(has_pattern: bool, matched: Option<bool>) -> (r: bool)
    ensures
        r == (!has_pattern || matched == Some(true)),
{
    if !has_pattern {
        return true;
    }
    match matched {
        Some(m) => m,
        None => false,
    }
}

/// Whether a file is watched.
pub fn passes_glob(path: &FilePath, pattern: &Option<String>) -> (r: bool)
    requires
        path_fits(path@),
        pattern_fits(opt_text(*pattern)),
    ensures
        r == passes(path@, opt_text(*pattern)),
{
    match pattern {
        None => name_passes(false, None),
        Some(p) => {
            let matched: Option<bool> = match path.file_name() {
                None => None,
                Some(name) => {
                    proof {
                        lemma_name_is_no_longer(path@);
                    }
                    Some(glob_match(p.as_str(), name.as_str()))
                },
            };
            name_passes(true, matched)
        },
    }
}

/// A file name is no longer than the path that it ends.
proof fn lemma_name_is_no_longer(path: Seq<u8>)
    requires
        file_name_text(path) is Some,
    ensures
        encode_utf8(file_name_text(path)->0).len() <= path.len(),
{
    lemma_spans(path, 0);
    let n = file_name_bytes(path)->0;
    decode_utf8_encode_utf8(n);
    let s = spans(path, 0);
    assert(parts(path).last() == path.subrange(s.last().0, s.last().1));
    assert(0 <= s[s.len() - 1].0 <= s[s.len() - 1].1 <= path.len());
}

} // verus!
