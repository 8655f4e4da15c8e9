//! What paths name.

use crate::glob::{glob_matches, passes};
use crate::path::{
    components, counts, file_name_bytes, file_name_text, lead, lemma_part_end, lemma_spans,
    part_end, parts, relative_to, same_path, spans, DOT, SLASH,
};
use vstd::prelude::*;
use vstd::utf8::*;

verus! {

/// A name of a file or directory: not empty, without a slash, and not the current directory.
pub open spec fn is_name(name: Seq<u8>) -> bool {
    name.len() > 0 && !name.contains(47u8) && name != seq![46u8]
}

/// A path behind a directory.
pub open spec fn under(dir: Seq<u8>, rest: Seq<u8>) -> Seq<u8> {
    dir + seq![47u8] + rest
}

/// Spans moved on by some bytes.
spec fn moved(s: Seq<(int, int)>, by: int) -> Seq<(int, int)> {
    s.map_values(|p: (int, int)| (p.0 + by, p.1 + by))
}

/// A part of a path ends where it ends in the path alone.
proof fn lemma_part_end_before(a: Seq<u8>, b: Seq<u8>, from: int)
    requires
        0 <= from <= a.len(),
    ensures
        part_end(under(a, b), from) == part_end(a, from),
    decreases a.len() - from,
{
    if from < a.len() {
        assert(under(a, b)[from] == a[from]);
        if a[from] != SLASH {
            lemma_part_end_before(a, b, from + 1);
        }
    } else {
        assert(under(a, b)[from] == SLASH);
    }
}

/// A part of a path ends behind a directory where it ends in the path alone.
proof fn lemma_part_end_behind(a: Seq<u8>, b: Seq<u8>, from: int)
    requires
        0 <= from <= b.len(),
    ensures
        part_end(under(a, b), a.len() + 1 + from) == a.len() + 1 + part_end(b, from),
    decreases b.len() - from,
{
    if from < b.len() {
        assert(under(a, b)[a.len() + 1 + from] == b[from]);
        if b[from] != SLASH {
            lemma_part_end_behind(a, b, from + 1);
        }
    }
}

/// The parts of a path behind a directory are those of the path alone.
proof fn lemma_spans_behind(a: Seq<u8>, b: Seq<u8>, from: int)
    requires
        0 <= from <= b.len() + 1,
    ensures
        spans(under(a, b), a.len() + 1 + from) == moved(spans(b, from), a.len() as int + 1),
    decreases b.len() + 1 - from,
{
    let c = under(a, b);
    let by = a.len() as int + 1;
    if from <= b.len() {
        lemma_part_end(b, from);
        lemma_part_end_behind(a, b, from);
        let e = part_end(b, from);
        lemma_spans_behind(a, b, e + 1);
        if from < e {
            assert(c[by + from] == b[from]);
        }
        assert(counts(c, by + from, by + e) == counts(b, from, e));
        assert(spans(c, by + from) == moved(spans(b, from), by));
    } else {
        assert(spans(c, by + from) == moved(spans(b, from), by));
    }
}

/// The parts of a path behind a directory come behind those of the directory.
proof fn lemma_spans_join(a: Seq<u8>, b: Seq<u8>, from: int)
    requires
        0 <= from <= a.len(),
    ensures
        spans(under(a, b), from) == spans(a, from) + moved(spans(b, 0), a.len() as int + 1),
    decreases a.len() + 1 - from,
{
    let c = under(a, b);
    lemma_part_end(a, from);
    lemma_part_end_before(a, b, from);
    let e = part_end(a, from);
    if from < e {
        assert(c[from] == a[from]);
    }
    assert(counts(c, from, e) == counts(a, from, e));
    let later = moved(spans(b, 0), a.len() as int + 1);
    if e < a.len() {
        lemma_spans_join(a, b, e + 1);
    } else {
        lemma_spans_behind(a, b, 0);
        assert(spans(a, e + 1) == Seq::<(int, int)>::empty());
        assert(spans(a, e + 1) + later == later);
    }
    assert(spans(c, from) == spans(a, from) + later);
}

/// The parts of a path behind a directory are those of the directory and then its own.
proof fn lemma_parts_join(a: Seq<u8>, b: Seq<u8>)
    ensures
        parts(under(a, b)) == parts(a) + parts(b),
        a.len() > 0 ==> lead(under(a, b)) == lead(a),
        a.len() == 0 ==> lead(under(a, b)) == seq![seq![SLASH]] && parts(a) == Seq::<Seq<u8>>::empty(),
{
    let c = under(a, b);
    lemma_spans_join(a, b, 0);
    lemma_spans(a, 0);
    lemma_spans(b, 0);
    let (sa, sb) = (spans(a, 0), spans(b, 0));
    assert forall|i: int| 0 <= i < parts(c).len() implies parts(c)[i] == (parts(a) + parts(
        b,
    ))[i] by {
        if i < sa.len() {
            assert(spans(c, 0)[i] == sa[i]);
            assert(c.subrange(sa[i].0, sa[i].1) == a.subrange(sa[i].0, sa[i].1));
        } else {
            let k = i - sa.len();
            let by = a.len() as int + 1;
            assert(spans(c, 0)[i] == (sb[k].0 + by, sb[k].1 + by));
            assert(c.subrange(sb[k].0 + by, sb[k].1 + by) == b.subrange(sb[k].0, sb[k].1));
        }
    }
    assert(parts(c) =~= parts(a) + parts(b));
    assert(c[0] == if a.len() > 0 {
        a[0]
    } else {
        SLASH
    });
    if a.len() > 1 {
        assert(c[1] == a[1]);
    } else if a.len() == 1 {
        assert(c[1] == SLASH);
    } else {
        assert(spans(a, 0) == spans(a, 1)) by {
            lemma_part_end(a, 0);
        }
        assert(parts(a) =~= Seq::<Seq<u8>>::empty());
    }
}

/// A name is its own and only part, and the current directory has none.
proof fn lemma_parts_of_name(name: Seq<u8>)
    ensures
        is_name(name) ==> spans(name, 0) == seq![(0int, name.len() as int)] && parts(name) == seq![
            name,
        ],
        name.len() == 0 || name == seq![DOT] ==> parts(name) == Seq::<Seq<u8>>::empty(),
{
    lemma_part_end(name, 0);
    if !name.contains(47u8) {
        lemma_no_slash(name, 0);
        let n = name.len() as int;
        assert(part_end(name, 0) == n);
        assert(spans(name, n + 1) == Seq::<(int, int)>::empty());
        if is_name(name) {
            if n == 1 && name[0] == DOT {
                assert(name == seq![46u8]);
            }
            assert(spans(name, 0) =~= seq![(0int, n)]);
            assert(name.subrange(0, n) == name);
            assert(parts(name) =~= seq![name]);
        } else {
            assert(spans(name, 0) =~= Seq::<(int, int)>::empty());
            assert(parts(name) =~= Seq::<Seq<u8>>::empty());
        }
    } else if name == seq![DOT] {
        let k = choose|k: int| 0 <= k < name.len() && name[k] == 47u8;
        assert(name[k] == DOT);
    }
}

/// Without a slash a part ends at the end.
proof fn lemma_no_slash(name: Seq<u8>, from: int)
    requires
        !name.contains(47u8),
        0 <= from <= name.len(),
    ensures
        part_end(name, from) == name.len(),
    decreases name.len() - from,
{
    if from < name.len() {
        assert(name.contains(name[from]));
        lemma_no_slash(name, from + 1);
    }
}

/// More slashes than one, a slash at the end, and the current directory behind a slash make no
/// other path.
pub proof fn law_spellings_of_a_path(a: Seq<u8>, b: Seq<u8>)
    ensures
        same_path(a, a),
        same_path(under(a, b), under(a, seq![47u8] + b)),
        same_path(under(a, b), under(a, seq![46u8, 47u8] + b)),
        a.len() > 0 ==> same_path(a, a + seq![47u8]),
        a.len() > 0 ==> same_path(a, a + seq![47u8, 46u8]),
{
    let none = Seq::<u8>::empty();
    let dot = seq![46u8];
    lemma_parts_of_name(none);
    lemma_parts_of_name(dot);
    lemma_parts_join(a, b);
    assert(under(none, b) == seq![47u8] + b);
    lemma_parts_join(none, b);
    lemma_parts_join(a, seq![47u8] + b);
    assert(under(dot, b) == seq![46u8, 47u8] + b);
    lemma_parts_join(dot, b);
    lemma_parts_join(a, seq![46u8, 47u8] + b);
    assert(parts(none) + parts(b) == parts(b));
    assert(parts(dot) + parts(b) == parts(b));
    lemma_parts_join(a, none);
    lemma_parts_join(a, dot);
    assert(under(a, none) == a + seq![47u8]);
    assert(under(a, dot) == a + seq![47u8, 46u8]);
    assert(parts(a) + parts(none) == parts(a));
}

/// Files of one directory with different names are different files, none of them is the directory,
/// and an absolute path names nothing that a relative one does.
pub proof fn law_different_names_are_different_files(dir: Seq<u8>, x: Seq<u8>, y: Seq<u8>)
    requires
        is_name(x),
        is_name(y),
    ensures
        same_path(under(dir, x), under(dir, y)) <==> x == y,
        !same_path(under(dir, x), dir),
        dir.len() > 0 && dir[0] != 47u8 ==> !same_path(dir, seq![47u8] + x),
{
    lemma_parts_of_name(x);
    lemma_parts_of_name(y);
    lemma_parts_join(dir, x);
    lemma_parts_join(dir, y);
    let (cx, cy) = (components(under(dir, x)), components(under(dir, y)));
    assert(cx.last() == x);
    assert(cy.last() == y);
    if dir.len() == 0 {
        assert(components(dir).len() == 0) by {
            assert(lead(dir) == Seq::<Seq<u8>>::empty());
        }
        assert(cx.len() == 2);
    } else {
        assert(cx.len() == components(dir).len() + 1);
    }
    if dir.len() > 0 && dir[0] != 47u8 {
        let none = Seq::<u8>::empty();
        lemma_parts_join(none, x);
        assert(under(none, x) == seq![47u8] + x);
        let p = seq![47u8] + x;
        if same_path(dir, p) {
            assert(components(p)[0] == seq![SLASH]);
            assert(components(dir)[0] == seq![SLASH]);
            if lead(dir).len() == 1 {
                assert(lead(dir)[0] == seq![DOT]);
                assert(seq![DOT][0] != seq![SLASH][0]);
            } else {
                assert(parts(dir)[0] == seq![SLASH]);
                lemma_spans(dir, 0);
                let s = spans(dir, 0)[0];
                assert(dir.subrange(s.0, s.1)[0] == dir[s.0]);
                lemma_span_starts_without_slash(dir, 0, 0);
            }
        }
    }
}

/// A part does not begin with a slash.
proof fn lemma_span_starts_without_slash(b: Seq<u8>, from: int, i: int)
    requires
        0 <= from,
        0 <= i < spans(b, from).len(),
    ensures
        b[spans(b, from)[i].0] != SLASH,
    decreases b.len() + 1 - from,
{
    lemma_part_end(b, from);
    let e = part_end(b, from);
    if !(counts(b, from, e) && i == 0) {
        let k = if counts(b, from, e) {
            i - 1
        } else {
            i
        };
        lemma_span_starts_without_slash(b, e + 1, k);
        assert(spans(b, from)[i] == spans(b, e + 1)[k]);
    }
}

/// What lies under a directory is named, relative to it, by what is written behind it: a name, or
/// names with a slash between them. What lies under another directory has no such name.
pub proof fn law_names_relative_to_a_directory(dir: Seq<u8>, x: Seq<u8>, y: Seq<u8>)
    requires
        dir.len() > 0,
        is_name(x),
        is_name(y),
    ensures
        relative_to(under(dir, x), dir) == Some(x),
        relative_to(under(under(dir, x), y), dir) == Some(under(x, y)),
        relative_to(under(dir, x), under(dir, y)) is Some <==> x == y,
        relative_to(dir, under(dir, x)) is None,
        relative_to(dir, dir) == Some(Seq::<u8>::empty()),
{
    lemma_parts_of_name(x);
    lemma_parts_of_name(y);
    lemma_parts_join(dir, x);
    lemma_parts_join(dir, y);
    lemma_spans_join(dir, x, 0);
    let (px, py) = (under(dir, x), under(dir, y));
    let c = components(dir);
    let k = parts(dir).len() as int;
    assert(lead(px) == lead(dir));
    assert(components(px) == c.push(x));
    assert(components(py) == c.push(y));
    assert(c.is_prefix_of(components(px))) by {
        assert(components(px).subrange(0, c.len() as int) == c);
    }
    let sx = spans(px, 0);
    let by = dir.len() as int + 1;
    assert(sx.len() == k + 1);
    assert(sx.last() == (by, by + x.len()));
    assert(px.subrange(by, by + x.len()) == x);
    lemma_empty_components(dir);
    lemma_parts_join(px, y);
    lemma_spans_join(px, y, 0);
    let pxy = under(px, y);
    assert(components(pxy) == c.push(x).push(y));
    assert(c.is_prefix_of(components(pxy))) by {
        assert(components(pxy).subrange(0, c.len() as int) == c);
    }
    let sxy = spans(pxy, 0);
    assert(sxy.len() == k + 2);
    assert(sxy[k] == sx[k]);
    assert(sxy.last().1 == pxy.len());
    assert(pxy.subrange(by, pxy.len() as int) == under(x, y));
    if components(py).is_prefix_of(components(px)) {
        assert(components(px).subrange(0, components(px).len() as int) == components(px));
        assert(components(py).last() == components(px).last());
    }
    if x == y {
        assert(components(px).subrange(0, components(px).len() as int) == components(px));
    }
    assert(c.subrange(0, c.len() as int) == c);
}

/// Relative to the empty path, a path is named as it is.
pub proof fn law_names_relative_to_nothing(x: Seq<u8>, y: Seq<u8>)
    requires
        is_name(x),
        is_name(y),
    ensures
        ({
            let nothing = Seq::<u8>::empty();
            &&& relative_to(x, nothing) == Some(x)
            &&& relative_to(under(x, y), nothing) == Some(under(x, y))
            &&& relative_to(under(nothing, x), nothing) == Some(under(nothing, x))
            &&& relative_to(nothing, nothing) == Some(nothing)
            &&& relative_to(nothing, x) is None
        }),
{
    let nothing = Seq::<u8>::empty();
    lemma_parts_of_name(nothing);
    lemma_parts_of_name(x);
    lemma_parts_of_name(y);
    lemma_parts_join(x, y);
    lemma_spans_join(x, y, 0);
    lemma_parts_join(nothing, x);
    lemma_spans_join(nothing, x, 0);
    assert(components(nothing) == Seq::<Seq<u8>>::empty());
    assert(x.take(x.len() as int) == x);
    let xy = under(x, y);
    assert(spans(xy, 0).last().1 == xy.len());
    assert(xy.take(xy.len() as int) == xy);
    let rooted = under(nothing, x);
    assert(spans(rooted, 0).last().1 == rooted.len());
    assert(rooted.take(rooted.len() as int) == rooted);
    assert(spans(nothing, 0).len() == 0) by {
        assert(parts(nothing).len() == 0);
    }
    assert(components(x).len() > 0);
}

/// Only the empty path has no components.
proof fn lemma_empty_components(dir: Seq<u8>)
    requires
        dir.len() > 0,
    ensures
        components(dir).len() > 0,
{
    if lead(dir).len() == 0 {
        lemma_first_part_counts(dir);
        assert(parts(dir).len() > 0);
    }
}

/// A relative path that does not begin with the current directory begins with a part.
proof fn lemma_first_part_counts(b: Seq<u8>)
    requires
        b.len() > 0,
        lead(b).len() == 0,
    ensures
        spans(b, 0).len() > 0,
{
    lemma_part_end(b, 0);
    let e = part_end(b, 0);
    assert(b[0] != SLASH);
    assert(e >= 1) by {
        lemma_part_end(b, 1);
    }
    if e == 1 && b[0] == DOT {
        lemma_stops_at_slash(b, 0);
    }
    assert(counts(b, 0, e));
}

/// Where a part ends there is a slash, or the end.
proof fn lemma_stops_at_slash(b: Seq<u8>, from: int)
    requires
        0 <= from <= b.len(),
    ensures
        part_end(b, from) < b.len() ==> b[part_end(b, from)] == SLASH,
    decreases b.len() - from,
{
    if from < b.len() && b[from] != SLASH {
        lemma_stops_at_slash(b, from + 1);
    }
}

/// The name of a file is what stands behind the last slash, or the whole path where there is none.
/// The directory above has no name, and a pattern is held against the name alone.
pub proof fn law_file_names(dir: Seq<u8>, name: Seq<u8>, pattern: Seq<char>)
    requires
        is_name(name),
    ensures
        name != seq![46u8, 46u8] ==> file_name_bytes(under(dir, name)) == Some(name)
            && file_name_bytes(name) == Some(name),
        name == seq![46u8, 46u8] ==> file_name_bytes(under(dir, name)) is None,
        file_name_bytes(seq![47u8]) is None,
        passes(under(dir, name), None),
        name != seq![46u8, 46u8] && valid_utf8(name) ==> (passes(under(dir, name), Some(pattern))
            <==> glob_matches(pattern, decode_utf8(name))),
        !valid_utf8(name) ==> !passes(under(dir, name), Some(pattern)),
{
    lemma_parts_of_name(name);
    lemma_parts_join(dir, name);
    assert(parts(under(dir, name)).last() == name);
    assert(parts(name).last() == name);
    let none = Seq::<u8>::empty();
    lemma_parts_of_name(none);
    lemma_parts_join(none, none);
    assert(under(none, none) == seq![47u8]);
    if !valid_utf8(name) && name != seq![46u8, 46u8] {
        assert(file_name_text(under(dir, name)) is None);
    }
}

} // verus!
