//! File paths as their raw bytes, compared and taken apart component by component.

use crate::text::{bytes_of, lossy_text, opt_text, utf8_lossy, utf8_text};
use vstd::prelude::*;
use vstd::string::*;
use vstd::utf8::*;

verus! {

/// The byte that separates the parts of a path.
pub const SLASH: u8 = 47;

/// The byte that stands alone as the name of the current directory.
pub const DOT: u8 = 46;

/// Where the part of a path that starts at `from` ends: at the next slash, or at the end.
pub open spec fn part_end(b: Seq<u8>, from: int) -> int
    decreases b.len() - from,
{
    if from >= b.len() || b[from] == SLASH {
        from
    } else {
        part_end(b, from + 1)
    }
}

/// A part is passed over when it is empty or the current directory.
pub open spec fn counts(b: Seq<u8>, start: int, end: int) -> bool {
    start < end && !(end == start + 1 && b[start] == DOT)
}

/// Where the parts of a path that count lie, from `from` on.
pub open spec fn spans(b: Seq<u8>, from: int) -> Seq<(int, int)>
    decreases b.len() + 1 - from,
{
    if from < 0 || from > b.len() {
        Seq::empty()
    } else {
        let e = part_end(b, from);
        proof {
            lemma_part_end(b, from);
        }
        let later = spans(b, e + 1);
        if counts(b, from, e) {
            seq![(from, e)] + later
        } else {
            later
        }
    }
}

/// `part_end` is where the part stops.
pub proof fn lemma_part_end(b: Seq<u8>, from: int)
    requires
        0 <= from <= b.len(),
    ensures
        from <= part_end(b, from) <= b.len(),
    decreases b.len() - from,
{
    if from < b.len() && b[from] != SLASH {
        lemma_part_end(b, from + 1);
    }
}

/// Parts that count lie inside the path, one behind the other, and are not empty.
pub proof fn lemma_spans(b: Seq<u8>, from: int)
    requires
        0 <= from,
    ensures
        forall|i: int|
            0 <= i < spans(b, from).len() ==> from <= (#[trigger] spans(b, from)[i]).0
                < spans(b, from)[i].1 <= b.len(),
        forall|i: int, j: int|
            0 <= i < j < spans(b, from).len() ==> (#[trigger] spans(b, from)[i]).1 < (
            #[trigger] spans(b, from)[j]).0,
    decreases b.len() + 1 - from,
{
    if from <= b.len() {
        lemma_part_end(b, from);
        let e = part_end(b, from);
        lemma_spans(b, e + 1);
        let s = spans(b, from);
        let later = spans(b, e + 1);
        let own: int = if counts(b, from, e) {
            1
        } else {
            0
        };
        assert forall|i: int| own <= i < s.len() implies #[trigger] s[i] == later[i - own] by {}
        assert forall|i: int, j: int| 0 <= i < j < s.len() implies (#[trigger] s[i]).1 < (
        #[trigger] s[j]).0 by {
            assert(s[j] == later[j - own]);
            if i >= own {
                assert(s[i] == later[i - own]);
            }
        }
    }
}

/// What a path starts with before its parts: the root, the current directory, or nothing.
pub open spec fn lead(b: Seq<u8>) -> Seq<Seq<u8>> {
    if b.len() > 0 && b[0] == SLASH {
        seq![seq![SLASH]]
    } else if b.len() > 0 && b[0] == DOT && (b.len() == 1 || b[1] == SLASH) {
        seq![seq![DOT]]
    } else {
        Seq::empty()
    }
}

/// The parts of a path that count.
pub open spec fn parts(b: Seq<u8>) -> Seq<Seq<u8>> {
    spans(b, 0).map_values(|s: (int, int)| b.subrange(s.0, s.1))
}

/// The components of a path: repeated and trailing slashes do not matter, nor does the current
/// directory anywhere but at the start of a relative path.
pub open spec fn components(b: Seq<u8>) -> Seq<Seq<u8>> {
    lead(b) + parts(b)
}

/// Two paths are the same when their components are.
pub open spec fn same_path(a: Seq<u8>, b: Seq<u8>) -> bool {
    components(a) == components(b)
}

/// What is left of a path behind a base, exactly as written, from its first to its last part
/// that counts; `None` where the path does not lie under the base.
pub open spec fn relative_to(path: Seq<u8>, base: Seq<u8>) -> Option<Seq<u8>> {
    let s = spans(path, 0);
    let skipped = components(base).len() - lead(path).len();
    if !components(base).is_prefix_of(components(path)) {
        None
    } else if components(base).len() == 0 {
        // Nothing is taken off the front; slashes and dots at the end go.
        if s.len() == 0 {
            Some(path.take(lead(path).len() as int))
        } else {
            Some(path.take(s.last().1))
        }
    } else if skipped >= s.len() {
        Some(Seq::empty())
    } else {
        Some(path.subrange(s[skipped].0, s.last().1))
    }
}

/// The last component of a path, unless it is the root or a directory named by dots.
pub open spec fn file_name_bytes(b: Seq<u8>) -> Option<Seq<u8>> {
    let p = parts(b);
    if p.len() == 0 || p.last() == seq![DOT, DOT] {
        None
    } else {
        Some(p.last())
    }
}

/// A span of machine indices as mathematical integers.
pub open spec fn span_view(s: (usize, usize)) -> (int, int) {
    (s.0 as int, s.1 as int)
}

/// The path of a file, as the bytes that the operating system knows it by.
#[derive(Debug)]
pub struct FilePath {
    pub bytes: Vec<u8>,
}

impl View for FilePath {
    type V = Seq<u8>;

    open spec fn view(&self) -> Seq<u8> {
        self.bytes@
    }
}

/// The parts of a path that count.
fn find_spans(b: &Vec<u8>) -> (r: Vec<(usize, usize)>)
    ensures
        r@.map_values(|s: (usize, usize)| span_view(s)) == spans(b@, 0),
{
    let mut r: Vec<(usize, usize)> = Vec::new();
    let mut i: usize = 0;
    let mut done: bool = false;
    let ghost view = |s: (usize, usize)| span_view(s);
    assert(r@.map_values(view) + spans(b@, 0) == spans(b@, 0));
    while !done
        invariant
            i <= b@.len(),
            view == (|s: (usize, usize)| span_view(s)),
            !done ==> r@.map_values(view) + spans(b@, i as int) == spans(b@, 0),
            done ==> r@.map_values(view) == spans(b@, 0),
        decreases
            b@.len() - i + if done {
                0int
            } else {
                1int
            },
    {
        let mut e: usize = i;
        while e < b.len() && b[e] != SLASH
            invariant
                i <= e <= b@.len(),
                part_end(b@, i as int) == part_end(b@, e as int),
            decreases b@.len() - e,
        {
            e += 1;
        }
        let ghost before = r@;
        if i < e && !(e == i + 1 && b[i] == DOT) {
            r.push((i, e));
        }
        proof {
            assert(part_end(b@, i as int) == e);
            assert(r@.map_values(view) + spans(b@, e + 1) == before.map_values(view) + spans(
                b@,
                i as int,
            ));
        }
        if e < b.len() {
            i = e + 1;
        } else {
            done = true;
            assert(spans(b@, e + 1) == Seq::<(int, int)>::empty());
            assert(r@.map_values(view) + spans(b@, e + 1) == r@.map_values(view));
        }
    }
    r
}

/// Whether two runs of bytes are equal.
fn same_bytes(a: &Vec<u8>, sa: (usize, usize), b: &Vec<u8>, sb: (usize, usize)) -> (r: bool)
    requires
        sa.0 <= sa.1 <= a@.len(),
        sb.0 <= sb.1 <= b@.len(),
    ensures
        r == (a@.subrange(sa.0 as int, sa.1 as int) == b@.subrange(sb.0 as int, sb.1 as int)),
{
    let ghost x = a@.subrange(sa.0 as int, sa.1 as int);
    let ghost y = b@.subrange(sb.0 as int, sb.1 as int);
    if sa.1 - sa.0 != sb.1 - sb.0 {
        assert(x.len() != y.len());
        return false;
    }
    let n: usize = sa.1 - sa.0;
    let mut i: usize = 0;
    while i < n
        invariant
            i <= n,
            n == sa.1 - sa.0,
            n == sb.1 - sb.0,
            sa.0 <= sa.1 <= a@.len(),
            sb.0 <= sb.1 <= b@.len(),
            x == a@.subrange(sa.0 as int, sa.1 as int),
            y == b@.subrange(sb.0 as int, sb.1 as int),
            forall|j: int| 0 <= j < i ==> x[j] == y[j],
        decreases n - i,
    {
        if a[sa.0 + i] != b[sb.0 + i] {
            assert(x[i as int] != y[i as int]);
            return false;
        }
        i += 1;
    }
    assert(x == y);
    true
}

/// What a path starts with before its parts, as a number: 0 for nothing, 1 for the root, 2 for
/// the current directory.
fn lead_kind(b: &Vec<u8>) -> (r: u8)
    ensures
        r <= 2,
        r == 0 ==> lead(b@) == Seq::<Seq<u8>>::empty(),
        r == 1 ==> lead(b@) == seq![seq![SLASH]],
        r == 2 ==> lead(b@) == seq![seq![DOT]],
{
    if b.len() > 0 && b[0] == SLASH {
        1
    } else if b.len() > 0 && b[0] == DOT && (b.len() == 1 || b[1] == SLASH) {
        2
    } else {
        0
    }
}

/// The leads of two paths agree exactly when their kinds do.
proof fn lemma_leads(a: Seq<u8>, b: Seq<u8>, ka: u8, kb: u8)
    requires
        ka <= 2,
        kb <= 2,
        ka == 0 ==> lead(a) == Seq::<Seq<u8>>::empty(),
        ka == 1 ==> lead(a) == seq![seq![SLASH]],
        ka == 2 ==> lead(a) == seq![seq![DOT]],
        kb == 0 ==> lead(b) == Seq::<Seq<u8>>::empty(),
        kb == 1 ==> lead(b) == seq![seq![SLASH]],
        kb == 2 ==> lead(b) == seq![seq![DOT]],
    ensures
        ka == kb <==> lead(a) == lead(b),
{
    assert(seq![SLASH][0] != seq![DOT][0]);
    assert(seq![seq![SLASH]][0] != seq![seq![DOT]][0]);
}

/// A part is neither a lead nor holds a slash at its start.
proof fn lemma_part_is_no_lead(b: Seq<u8>, from: int, i: int)
    requires
        0 <= from,
        0 <= i < spans(b, from).len(),
    ensures
        b.subrange(spans(b, from)[i].0, spans(b, from)[i].1) != seq![SLASH],
        b.subrange(spans(b, from)[i].0, spans(b, from)[i].1) != seq![DOT],
    decreases b.len() + 1 - from,
{
    lemma_part_end(b, from);
    let e = part_end(b, from);
    if counts(b, from, e) && i == 0 {
        let part = b.subrange(from, e);
        assert(part[0] == b[from]);
        assert(b[from] != SLASH);
        if part == seq![DOT] {
            assert(part.len() == 1);
        }
    } else {
        let k = if counts(b, from, e) {
            i - 1
        } else {
            i
        };
        lemma_part_is_no_lead(b, e + 1, k);
        assert(spans(b, from)[i] == spans(b, e + 1)[k]);
    }
}

/// The components of one path are a prefix of those of another when the leads agree and the
/// parts are a prefix, or when the first path has no components.
proof fn lemma_components_prefix(base: Seq<u8>, path: Seq<u8>)
    ensures
        components(base).is_prefix_of(components(path)) <==> (components(base).len() == 0 || (
        lead(base) == lead(path) && parts(base).is_prefix_of(parts(path)))),
        components(base) == components(path) <==> lead(base) == lead(path) && parts(base)
            == parts(path),
{
    let cb = components(base);
    let cp = components(path);
    if cb.is_prefix_of(cp) && cb.len() > 0 {
        assert(cb[0] == cp[0]) by {
            assert(cp.subrange(0, cb.len() as int)[0] == cp[0]);
        }
        if lead(base).len() == 0 {
            assert(cb[0] == parts(base)[0]);
            lemma_part_is_no_lead(base, 0, 0);
        }
        if lead(path).len() == 0 {
            assert(cp[0] == parts(path)[0]);
            lemma_part_is_no_lead(path, 0, 0);
        }
        assert(lead(base) == lead(path));
        let n = lead(base).len();
        assert forall|i: int| 0 <= i < parts(base).len() implies parts(base)[i] == parts(
            path,
        )[i] by {
            assert(parts(base)[i] == cb[n + i]);
            assert(cp.subrange(0, cb.len() as int)[n + i] == cp[n + i]);
        }
        assert(parts(path).subrange(0, parts(base).len() as int) == parts(base));
    }
    if lead(base) == lead(path) && parts(base).is_prefix_of(parts(path)) {
        assert forall|i: int| 0 <= i < cb.len() implies cb[i] == cp[i] by {
            if i >= lead(base).len() {
                let k = i - lead(base).len();
                assert(parts(path).subrange(0, parts(base).len() as int)[k] == parts(path)[k]);
            }
        }
        assert(cp.subrange(0, cb.len() as int) == cb);
    }
    if cb.len() == 0 {
        assert(cp.subrange(0, 0) == cb);
    }
    if cb == cp {
        assert(cp.subrange(0, cb.len() as int) == cb);
        if cb.len() == 0 {
            assert(lead(base) == lead(path));
            assert(parts(base) == parts(path));
        } else {
            assert(parts(base).len() == parts(path).len());
            assert(parts(path).subrange(0, parts(base).len() as int) == parts(path));
        }
    }
}

/// Whether the parts of one path are the first parts of another.
fn parts_prefix(
    base: &Vec<u8>,
    sb: &Vec<(usize, usize)>,
    path: &Vec<u8>,
    sp: &Vec<(usize, usize)>,
) -> (r: bool)
    requires
        sb@.map_values(|s: (usize, usize)| span_view(s)) == spans(base@, 0),
        sp@.map_values(|s: (usize, usize)| span_view(s)) == spans(path@, 0),
    ensures
        r == parts(base@).is_prefix_of(parts(path@)),
{
    if sb.len() > sp.len() {
        assert(parts(base@).len() > parts(path@).len());
        return false;
    }
    proof {
        lemma_spans(base@, 0);
        lemma_spans(path@, 0);
    }
    let mut i: usize = 0;
    while i < sb.len()
        invariant
            i <= sb@.len() <= sp@.len(),
            sb@.map_values(|s: (usize, usize)| span_view(s)) == spans(base@, 0),
            sp@.map_values(|s: (usize, usize)| span_view(s)) == spans(path@, 0),
            forall|k: int|
                0 <= k < spans(base@, 0).len() ==> 0 <= (#[trigger] spans(base@, 0)[k]).0 < spans(
                    base@,
                    0,
                )[k].1 <= base@.len(),
            forall|k: int|
                0 <= k < spans(path@, 0).len() ==> 0 <= (#[trigger] spans(path@, 0)[k]).0 < spans(
                    path@,
                    0,
                )[k].1 <= path@.len(),
            forall|j: int| 0 <= j < i ==> parts(base@)[j] == parts(path@)[j],
        decreases sb@.len() - i,
    {
        proof {
            assert(span_view(sb@[i as int]) == spans(base@, 0)[i as int]);
            assert(span_view(sp@[i as int]) == spans(path@, 0)[i as int]);
        }
        if !same_bytes(base, sb[i], path, sp[i]) {
            proof {
                if parts(base@).is_prefix_of(parts(path@)) {
                    assert(parts(path@).subrange(0, parts(base@).len() as int)[i as int] == parts(
                        path@,
                    )[i as int]);
                }
            }
            return false;
        }
        i += 1;
    }
    assert(parts(path@).subrange(0, parts(base@).len() as int) == parts(base@));
    true
}

impl FilePath {
    /// The path with the given bytes.
    pub fn new(bytes: Vec<u8>) -> (r: FilePath)
        ensures
            r@ == bytes@,
    {
        FilePath { bytes }
    }

    /// The path that a text spells.
    pub fn from_text(text: &str) -> (r: FilePath)
        ensures
            r@ == encode_utf8(text@),
    {
        FilePath { bytes: text.as_bytes_vec() }
    }

    /// A copy of the path.
    pub fn duplicate(&self) -> (r: FilePath)
        ensures
            r@ == self@,
    {
        let bytes = bytes_of(&self.bytes, 0, self.bytes.len());
        assert(bytes@ == self@);
        FilePath { bytes }
    }

    /// Whether two paths have the same components.
    pub fn same_as(&self, other: &FilePath) -> (r: bool)
        ensures
            r == same_path(self@, other@),
    {
        let ka: u8 = lead_kind(&self.bytes);
        let kb: u8 = lead_kind(&other.bytes);
        let sa = find_spans(&self.bytes);
        let sb = find_spans(&other.bytes);
        proof {
            lemma_leads(self@, other@, ka, kb);
            lemma_components_prefix(self@, other@);
            assert(parts(self@).len() == sa@.len());
            assert(parts(other@).len() == sb@.len());
        }
        let r = ka == kb && sa.len() == sb.len() && parts_prefix(
            &self.bytes,
            &sa,
            &other.bytes,
            &sb,
        );
        proof {
            if parts(self@).len() == parts(other@).len() {
                assert(parts(other@).subrange(0, parts(self@).len() as int) == parts(other@));
            }
        }
        r
    }

    /// What is left of the path behind a base under which it lies.
    pub fn strip_prefix(&self, base: &FilePath) -> (r: Option<FilePath>)
        ensures
            r is Some <==> relative_to(self@, base@) is Some,
            r matches Some(p) ==> Some(p@) == relative_to(self@, base@),
    {
        let kb: u8 = lead_kind(&base.bytes);
        let kp: u8 = lead_kind(&self.bytes);
        let sb = find_spans(&base.bytes);
        let sp = find_spans(&self.bytes);
        proof {
            lemma_leads(base@, self@, kb, kp);
            lemma_components_prefix(base@, self@);
            lemma_spans(self@, 0);
            assert(parts(base@).len() == sb@.len());
            assert(parts(self@).len() == sp@.len());
            assert(spans(self@, 0).len() == sp@.len());
            assert forall|i: int| 0 <= i < sp@.len() implies span_view(#[trigger] sp@[i])
                == spans(self@, 0)[i] by {
                assert(sp@.map_values(|s: (usize, usize)| span_view(s))[i] == span_view(sp@[i]));
            }
        }
        if kb == 0 && sb.len() == 0 {
            let end: usize = if sp.len() > 0 {
                sp[sp.len() - 1].1
            } else if kp == 0 {
                0
            } else {
                1
            };
            let bytes = bytes_of(&self.bytes, 0, end);
            assert(bytes@ == self@.take(end as int));
            return Some(FilePath { bytes });
        }
        if kb != kp || !parts_prefix(&base.bytes, &sb, &self.bytes, &sp) {
            return None;
        }
        assert(components(base@).len() - lead(self@).len() == sb@.len());
        if sb.len() >= sp.len() {
            let bytes: Vec<u8> = Vec::new();
            assert(bytes@ == Seq::<u8>::empty());
            return Some(FilePath { bytes });
        }
        proof {
            let k = sb@.len() as int;
            assert(spans(self@, 0)[k].0 <= spans(self@, 0).last().1);
        }
        Some(FilePath { bytes: bytes_of(&self.bytes, sp[sb.len()].0, sp[sp.len() - 1].1) })
    }

    /// The name of the file, where the path ends with one and it is UTF-8.
    pub fn file_name(&self) -> (r: Option<String>)
        ensures
            opt_text(r) == file_name_text(self@),
    {
        let sp = find_spans(&self.bytes);
        proof {
            lemma_spans(self@, 0);
            assert(parts(self@).len() == sp@.len());
        }
        if sp.len() == 0 {
            return None;
        }
        let last = sp[sp.len() - 1];
        proof {
            assert(sp@.map_values(|s: (usize, usize)| span_view(s)).last() == span_view(last));
            assert(span_view(last) == spans(self@, 0).last());
        }
        let name = bytes_of(&self.bytes, last.0, last.1);
        assert(name@ == parts(self@).last());
        if name.len() == 2 && name[0] == DOT && name[1] == DOT {
            assert(name@ == seq![DOT, DOT]);
            return None;
        }
        proof {
            if name@ == seq![DOT, DOT] {
                assert(name@[0] == DOT && name@[1] == DOT && name@.len() == 2);
            }
        }
        utf8_text(name)
    }

    /// The path as text, with a replacement character for what is not UTF-8.
    pub fn display(&self) -> (r: String)
        ensures
            r@ == utf8_lossy(self@),
            valid_utf8(self@) ==> r@ == decode_utf8(self@),
    {
        lossy_text(&self.bytes)
    }
}

/// The name of the file at a path, where it has one that is UTF-8.
pub open spec fn file_name_text(b: Seq<u8>) -> Option<Seq<char>> {
    match file_name_bytes(b) {
        Some(n) => if valid_utf8(n) {
            Some(decode_utf8(n))
        } else {
            None
        },
        None => None,
    }
}

} // verus!
