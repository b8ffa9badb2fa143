//! Unix paths held as text, with the component rules of `std::path`.
use vstd::prelude::*;

use crate::sort::{
    lemma_text_lt_irreflexive, lemma_text_lt_total, lemma_text_lt_transitive, text_less, text_lt,
};
use crate::text::{chars_eq, chars_of, push_all, slice_chars, string_of};
use vstd::utf8::encode_utf8;

verus! {

/// A Unix path is absolute when it starts at the root.
pub open spec fn is_absolute(p: Seq<char>) -> bool {
    p.len() > 0 && p[0] == '/'
}

/// Whether a path is absolute.
pub fn path_is_absolute(p: &str) -> (r: bool)
    ensures
        r == is_absolute(p@),
{
    let cs = chars_of(p);
    cs.len() > 0 && cs[0] == '/'
}

/// A path given on the command line: accepted when absolute, else refused with the reason.
pub fn absolute_path(value: &str) -> (r: Result<String, String>)
    ensures
        match r {
            Ok(p) => is_absolute(value@) && p@ == value@,
            Err(m) => !is_absolute(value@) && m@ == "path must be absolute"@,
        },
{
    if path_is_absolute(value) {
        Ok(String::from_str(value))
    } else {
        Err(String::from_str("path must be absolute"))
    }
}

/// End of the segment that starts at `i`: the next `/` at or after `i`, or the end.
pub open spec fn seg_end(p: Seq<char>, i: int) -> int
    decreases p.len() - i,
{
    if i < 0 || i >= p.len() || p[i] == '/' {
        i
    } else {
        seg_end(p, i + 1)
    }
}

/// A segment ends at the next `/` or at the end of the path.
pub proof fn lemma_seg_end(p: Seq<char>, i: int)
    requires
        0 <= i <= p.len(),
    ensures
        i <= seg_end(p, i) <= p.len(),
        seg_end(p, i) < p.len() ==> p[seg_end(p, i)] == '/',
        forall|k: int| i <= k < seg_end(p, i) ==> p[k] != '/',
    decreases p.len() - i,
{
    if i < p.len() && p[i] != '/' {
        lemma_seg_end(p, i + 1);
    }
}

/// The segment starting at `i` ends at `j` when `j` is the first `/` from `i` (or the end).
pub proof fn lemma_seg_end_is(p: Seq<char>, i: int, j: int)
    requires
        0 <= i <= j <= p.len(),
        j < p.len() ==> p[j] == '/',
        forall|k: int| i <= k < j ==> p[k] != '/',
    ensures
        seg_end(p, i) == j,
    decreases j - i,
{
    if i < j {
        lemma_seg_end_is(p, i + 1, j);
    }
}

/// Whether the segment `p[i..j]` is a component: every segment but `.`, which counts only at
/// the very start of a relative path.
pub open spec fn is_component(p: Seq<char>, i: int, j: int) -> bool {
    !(j == i + 1 && p[i] == '.' && i > 0)
}

/// The components of `p` that start at or after `i`, as ranges of positions.
pub open spec fn comps_from(p: Seq<char>, i: int) -> Seq<(int, int)>
    decreases p.len() - i,
{
    if i < 0 || i >= p.len() {
        seq![]
    } else if p[i] == '/' {
        comps_from(p, i + 1)
    } else {
        let j = seg_end(p, i);
        proof {
            lemma_seg_end(p, i + 1);
        }
        if is_component(p, i, j) {
            seq![(i, j)] + comps_from(p, j)
        } else {
            comps_from(p, j)
        }
    }
}

/// The components of `p` (the root is not one of them; see `is_absolute`).
pub open spec fn components(p: Seq<char>) -> Seq<(int, int)> {
    comps_from(p, 0)
}

/// The text of a component.
pub open spec fn comp_text(p: Seq<char>, r: (int, int)) -> Seq<char> {
    p.subrange(r.0, r.1)
}

/// A component names a file unless it is `.` or `..`.
pub open spec fn name_of(t: Seq<char>) -> Option<Seq<char>> {
    if t == seq!['.'] || t == seq!['.', '.'] {
        None
    } else {
        Some(t)
    }
}

/// Which of a path's last two names are valid Unicode. Paths are held as text, with every byte
/// sequence that is not valid UTF-8 replaced by U+FFFD; a name that held such bytes is never
/// taken as a name.
#[derive(Clone, Copy, Debug, PartialEq, Eq, Structural)]
pub struct NameText {
    /// The path's own (last) name is valid Unicode, or it has none.
    pub name: bool,
    /// The name of the directory that holds it is valid Unicode, or it has none.
    pub parent: bool,
}

impl NameText {
    /// The names of a path that is valid Unicode throughout.
    pub fn text() -> (r: NameText)
        ensures
            r.name && r.parent,
    {
        NameText { name: true, parent: true }
    }
}

/// `Path::file_name` followed by `OsStr::to_str`: the path's own name, when it has one that is
/// valid Unicode.
pub open spec fn text_file_name(p: Seq<char>, t: NameText) -> Option<Seq<char>> {
    if t.name {
        file_name(p)
    } else {
        None
    }
}

/// `Path::parent`, `Path::file_name` and `OsStr::to_str`: the name of the directory holding the
/// path, when it has one that is valid Unicode.
pub open spec fn text_parent_file_name(p: Seq<char>, t: NameText) -> Option<Seq<char>> {
    if t.parent {
        parent_file_name(p)
    } else {
        None
    }
}

/// A path's bytes read one character per byte, so that comparing components compares bytes, as
/// `Path`s are compared.
pub open spec fn byte_text(b: Seq<u8>) -> Seq<char> {
    b.map_values(|x: u8| x as char)
}

/// The bytes of a path held as `text`: `bytes` when it is not valid UTF-8, else the text's UTF-8.
pub open spec fn path_bytes(text: Seq<char>, bytes: Option<Seq<u8>>) -> Seq<u8> {
    match bytes {
        Some(b) => b,
        None => encode_utf8(text),
    }
}

/// What a path is compared by: its bytes (see `byte_text`).
pub open spec fn path_id(text: Seq<char>, bytes: Option<Seq<u8>>) -> Seq<char> {
    byte_text(path_bytes(text, bytes))
}

/// Optional bytes as the contracts see them.
pub open spec fn opt_bytes(b: Option<Vec<u8>>) -> Option<Seq<u8>> {
    match b {
        Some(b) => Some(b@),
        None => None,
    }
}

/// What a path is compared by (see `path_id`).
pub fn path_identity(text: &str, bytes: &Option<Vec<u8>>) -> (r: String)
    ensures
        r@ == path_id(text@, opt_bytes(*bytes)),
{
    let owned;
    let b: &Vec<u8> = match bytes {
        Some(b) => b,
        None => {
            owned = text.as_bytes_vec();
            &owned
        },
    };
    let mut out: Vec<char> = Vec::new();
    let mut i: usize = 0;
    while i < b.len()
        invariant
            i <= b@.len(),
            out@ == byte_text(b@.take(i as int)),
        decreases b@.len() - i,
    {
        let c = b[i] as char;
        out.push(c);
        i = i + 1;
        assert(out@ =~= byte_text(b@.take(i as int)));
    }
    assert(b@.take(i as int) =~= b@);
    string_of(out.as_slice())
}

/// `Path::file_name`.
pub open spec fn file_name(p: Seq<char>) -> Option<Seq<char>> {
    let cs = components(p);
    if cs.len() == 0 {
        None
    } else {
        name_of(comp_text(p, cs.last()))
    }
}

/// `Path::parent` followed by `Path::file_name`.
pub open spec fn parent_file_name(p: Seq<char>) -> Option<Seq<char>> {
    let cs = components(p);
    if cs.len() < 2 {
        None
    } else {
        name_of(comp_text(p, cs[cs.len() - 2]))
    }
}

/// `Path::strip_prefix`: what follows `base` in `p` when the components of `base` begin those
/// of `p`.
pub open spec fn strip_path_prefix(p: Seq<char>, base: Seq<char>) -> Option<Seq<char>> {
    let pc = components(p);
    let bc = components(base);
    if is_absolute(p) == is_absolute(base) && bc.len() <= pc.len() && (forall|k: int|
        0 <= k < bc.len() ==> comp_text(p, #[trigger] pc[k]) == comp_text(base, bc[k])) {
        if bc.len() == pc.len() {
            Some(seq![])
        } else {
            Some(p.subrange(pc[bc.len() as int].0, pc.last().1))
        }
    } else {
        None
    }
}

/// `PathBuf::join` of a path that does not start at the root: a separator goes between unless
/// `base` is empty or already ends with one.
pub open spec fn join(base: Seq<char>, rel: Seq<char>) -> Seq<char> {
    if is_absolute(rel) {
        rel
    } else if base.len() == 0 || base.last() == '/' {
        base + rel
    } else {
        base + seq!['/'] + rel
    }
}

/// `base` joined with `rel` (see `join`).
pub fn join_path(base: &str, rel: &str) -> (r: String)
    ensures
        r@ == join(base@, rel@),
{
    let b = chars_of(base);
    let rl = chars_of(rel);
    if rl.len() > 0 && rl[0] == '/' {
        return string_of(rl.as_slice());
    }
    let mut out = b.clone();
    assert(out@ == b@);
    if b.len() > 0 && b[b.len() - 1] != '/' {
        out.push('/');
    }
    push_all(&mut out, rl.as_slice());
    string_of(out.as_slice())
}

/// Ranges of the components of `p`.
pub fn components_of(p: &[char]) -> (r: Vec<(usize, usize)>)
    ensures
        r@.len() == components(p@).len(),
        forall|k: int|
            0 <= k < r@.len() ==> (#[trigger] r@[k]).0 as int == components(p@)[k].0 && r@[k].1 as int
                == components(p@)[k].1,
        forall|k: int| 0 <= k < r@.len() ==> (#[trigger] r@[k]).0 < r@[k].1 <= p@.len(),
{
    let mut r: Vec<(usize, usize)> = Vec::new();
    let ghost mut acc: Seq<(int, int)> = seq![];
    let mut i: usize = 0;
    while i < p.len()
        invariant
            i <= p@.len(),
            components(p@) == acc + comps_from(p@, i as int),
            r@.len() == acc.len(),
            forall|k: int|
                0 <= k < r@.len() ==> (#[trigger] r@[k]).0 as int == acc[k].0 && r@[k].1 as int
                    == acc[k].1,
            forall|k: int| 0 <= k < r@.len() ==> (#[trigger] r@[k]).0 < r@[k].1 <= p@.len(),
        decreases p@.len() - i,
    {
        if p[i] == '/' {
            i = i + 1;
        } else {
            let mut j = i + 1;
            while j < p.len() && p[j] != '/'
                invariant
                    i < j <= p@.len(),
                    forall|k: int| i <= k < j ==> p@[k] != '/',
                decreases p@.len() - j,
            {
                j = j + 1;
            }
            proof {
                lemma_seg_end_is(p@, i as int, j as int);
            }
            if !(j == i + 1 && p[i] == '.' && i > 0) {
                proof {
                    acc = acc.push((i as int, j as int));
                }
                r.push((i, j));
            }
            i = j;
        }
    }
    proof {
        assert(acc + comps_from(p@, i as int) =~= acc);
    }
    r
}

/// The text of the last component when it names a file.
pub fn file_name_of(p: &[char]) -> (r: Option<Vec<char>>)
    ensures
        match (r, file_name(p@)) {
            (Some(a), Some(b)) => a@ == b,
            (None, None) => true,
            _ => false,
        },
{
    let cs = components_of(p);
    if cs.len() == 0 {
        return None;
    }
    let (s, e) = cs[cs.len() - 1];
    let t = slice_chars(p, s, e);
    name_from(t)
}

/// The name of the component just before the last one, when there is one and it names a file.
pub fn parent_file_name_of(p: &[char]) -> (r: Option<Vec<char>>)
    ensures
        match (r, parent_file_name(p@)) {
            (Some(a), Some(b)) => a@ == b,
            (None, None) => true,
            _ => false,
        },
{
    let cs = components_of(p);
    if cs.len() < 2 {
        return None;
    }
    let (s, e) = cs[cs.len() - 2];
    let t = slice_chars(p, s, e);
    name_from(t)
}

fn name_from(t: Vec<char>) -> (r: Option<Vec<char>>)
    ensures
        match (r, name_of(t@)) {
            (Some(a), Some(b)) => a@ == b,
            (None, None) => true,
            _ => false,
        },
{
    let dot = ['.'];
    let dots = ['.', '.'];
    assert(dot@ =~= seq!['.']);
    assert(dots@ =~= seq!['.', '.']);
    if chars_eq(t.as_slice(), dot.as_slice()) || chars_eq(t.as_slice(), dots.as_slice()) {
        None
    } else {
        Some(t)
    }
}

/// What follows `base` in `p`, when `p` lies under `base` component by component.
pub fn strip_path_prefix_of(p: &[char], base: &[char]) -> (r: Option<Vec<char>>)
    ensures
        match (r, strip_path_prefix(p@, base@)) {
            (Some(a), Some(b)) => a@ == b,
            (None, None) => true,
            _ => false,
        },
{
    let pc = components_of(p);
    let bc = components_of(base);
    let p_abs = p.len() > 0 && p[0] == '/';
    let b_abs = base.len() > 0 && base[0] == '/';
    if p_abs != b_abs || bc.len() > pc.len() {
        return None;
    }
    let mut k: usize = 0;
    while k < bc.len()
        invariant
            k <= bc@.len() <= pc@.len(),
            pc@.len() == components(p@).len(),
            bc@.len() == components(base@).len(),
            forall|m: int|
                0 <= m < pc@.len() ==> (#[trigger] pc@[m]).0 as int == components(p@)[m].0
                    && pc@[m].1 as int == components(p@)[m].1,
            forall|m: int| 0 <= m < pc@.len() ==> (#[trigger] pc@[m]).0 < pc@[m].1 <= p@.len(),
            forall|m: int|
                0 <= m < bc@.len() ==> (#[trigger] bc@[m]).0 as int == components(base@)[m].0
                    && bc@[m].1 as int == components(base@)[m].1,
            forall|m: int| 0 <= m < bc@.len() ==> (#[trigger] bc@[m]).0 < bc@[m].1 <= base@.len(),
            forall|m: int|
                0 <= m < k ==> comp_text(p@, #[trigger] components(p@)[m]) == comp_text(
                    base@,
                    components(base@)[m],
                ),
        decreases bc@.len() - k,
    {
        let (ps, pe) = pc[k];
        let (bs, be) = bc[k];
        let a = slice_chars(p, ps, pe);
        let b = slice_chars(base, bs, be);
        if !chars_eq(a.as_slice(), b.as_slice()) {
            return None;
        }
        k = k + 1;
    }
    if bc.len() == pc.len() {
        let empty: Vec<char> = Vec::new();
        assert(empty@ =~= seq![]);
        return Some(empty);
    }
    let start = pc[bc.len()].0;
    let end = pc[pc.len() - 1].1;
    proof {
        lemma_components_ordered(p@);
    }
    Some(slice_chars(p, start, end))
}

/// Component ranges from `i` on lie inside the path, after `i`, in order.
pub proof fn lemma_comps_from_bounds(p: Seq<char>, i: int)
    requires
        0 <= i,
    ensures
        forall|k: int|
            0 <= k < comps_from(p, i).len() ==> i <= (#[trigger] comps_from(p, i)[k]).0 < comps_from(
                p,
                i,
            )[k].1 <= p.len(),
        forall|k: int, m: int|
            0 <= k < m < comps_from(p, i).len() ==> (#[trigger] comps_from(p, i)[k]).1 <= (
            #[trigger] comps_from(p, i)[m]).0,
    decreases p.len() - i,
{
    if i < p.len() {
        if p[i] == '/' {
            lemma_comps_from_bounds(p, i + 1);
            assert(comps_from(p, i) == comps_from(p, i + 1));
        } else {
            let j = seg_end(p, i);
            lemma_seg_end(p, i + 1);
            lemma_seg_end(p, i);
            assert(j == seg_end(p, i + 1));
            lemma_comps_from_bounds(p, j);
            let rest = comps_from(p, j);
            if !is_component(p, i, j) {
                assert(comps_from(p, i) == rest);
            } else {
                let all = seq![(i, j)] + rest;
                assert(comps_from(p, i) == all);
                assert forall|k: int| 0 <= k < all.len() implies i <= (#[trigger] all[k]).0 < all[k].1
                    <= p.len() by {
                    if k > 0 {
                        assert(all[k] == rest[k - 1]);
                    }
                }
                assert forall|k: int, m: int| 0 <= k < m < all.len() implies (
                #[trigger] all[k]).1 <= (#[trigger] all[m]).0 by {
                    assert(all[m] == rest[m - 1]);
                    if k > 0 {
                        assert(all[k] == rest[k - 1]);
                    }
                }
            }
        }
    }
}

/// Components appear in order along the path.
pub proof fn lemma_components_ordered(p: Seq<char>)
    ensures
        forall|k: int|
            0 <= k < components(p).len() ==> 0 <= (#[trigger] components(p)[k]).0 < components(
                p,
            )[k].1 <= p.len(),
        forall|k: int, m: int|
            0 <= k < m < components(p).len() ==> (#[trigger] components(p)[k]).1 <= (
            #[trigger] components(p)[m]).0,
{
    lemma_comps_from_bounds(p, 0);
}


/// `Path` equality: both absolute or both relative, with the same components.
pub open spec fn path_eq(a: Seq<char>, b: Seq<char>) -> bool {
    let ac = components(a);
    let bc = components(b);
    is_absolute(a) == is_absolute(b) && ac.len() == bc.len() && forall|k: int|
        0 <= k < ac.len() ==> comp_text(a, #[trigger] ac[k]) == comp_text(b, bc[k])
}

/// Whether two paths are equal as `Path`s are compared.
pub fn paths_equal(a: &str, b: &str) -> (r: bool)
    ensures
        r == path_eq(a@, b@),
{
    let ac = chars_of(a);
    let bc = chars_of(b);
    let ca = components_of(ac.as_slice());
    let cb = components_of(bc.as_slice());
    if ca.len() != cb.len() {
        return false;
    }
    match strip_path_prefix_of(ac.as_slice(), bc.as_slice()) {
        Some(_) => true,
        None => false,
    }
}


/// Rank of a component in `std::path`'s order of component kinds: the root (1), `.` (2),
/// `..` (3), then names (4).
pub open spec fn part_rank(t: Seq<char>) -> int {
    if t == seq!['.'] {
        2
    } else if t == seq!['.', '.'] {
        3
    } else {
        4
    }
}

/// The components of `p` as `Path` compares them: the root first for an absolute path, then
/// each component with its rank and text.
pub open spec fn path_parts(p: Seq<char>) -> Seq<(int, Seq<char>)> {
    let cs = components(p);
    let names = Seq::new(
        cs.len(),
        |k: int| (part_rank(comp_text(p, cs[k])), comp_text(p, cs[k])),
    );
    if is_absolute(p) {
        seq![(1int, Seq::<char>::empty())] + names
    } else {
        names
    }
}

/// One component orders before another: by rank, then by text.
pub open spec fn part_lt(a: (int, Seq<char>), b: (int, Seq<char>)) -> bool {
    a.0 < b.0 || (a.0 == b.0 && text_lt(a.1, b.1))
}

/// Lexicographic order of component sequences, a proper prefix first.
pub open spec fn parts_lt(a: Seq<(int, Seq<char>)>, b: Seq<(int, Seq<char>)>) -> bool
    decreases a.len(),
{
    if a.len() == 0 {
        b.len() > 0
    } else if b.len() == 0 {
        false
    } else if a[0] != b[0] {
        part_lt(a[0], b[0])
    } else {
        parts_lt(a.drop_first(), b.drop_first())
    }
}

/// `a < b` as `Path`s are ordered: component by component.
pub open spec fn path_lt(a: Seq<char>, b: Seq<char>) -> bool {
    parts_lt(path_parts(a), path_parts(b))
}

fn rank_of(t: &[char]) -> (r: u8)
    ensures
        r as int == part_rank(t@),
{
    let dot = ['.'];
    let dots = ['.', '.'];
    assert(dot@ =~= seq!['.']);
    assert(dots@ =~= seq!['.', '.']);
    if chars_eq(t, dot.as_slice()) {
        2
    } else if chars_eq(t, dots.as_slice()) {
        3
    } else {
        4
    }
}

fn parts_of(p: &[char]) -> (r: Vec<(u8, Vec<char>)>)
    ensures
        r@.len() == path_parts(p@).len(),
        forall|k: int|
            0 <= k < r@.len() ==> (#[trigger] r@[k]).0 as int == path_parts(p@)[k].0 && r@[k].1@
                == path_parts(p@)[k].1,
{
    let cs = components_of(p);
    let ghost pp = path_parts(p@);
    let mut r: Vec<(u8, Vec<char>)> = Vec::new();
    let abs = p.len() > 0 && p[0] == '/';
    if abs {
        r.push((1, Vec::new()));
    }
    let ghost off: int = if abs { 1 } else { 0 };
    let mut k: usize = 0;
    while k < cs.len()
        invariant
            k <= cs@.len() == components(p@).len(),
            pp == path_parts(p@),
            off == (if is_absolute(p@) { 1int } else { 0int }),
            pp.len() == cs@.len() + off,
            r@.len() == k + off,
            forall|m: int|
                0 <= m < cs@.len() ==> (#[trigger] cs@[m]).0 as int == components(p@)[m].0
                    && cs@[m].1 as int == components(p@)[m].1,
            forall|m: int| 0 <= m < cs@.len() ==> (#[trigger] cs@[m]).0 < cs@[m].1 <= p@.len(),
            forall|m: int|
                0 <= m < r@.len() ==> (#[trigger] r@[m]).0 as int == pp[m].0 && r@[m].1@ == pp[m].1,
        decreases cs@.len() - k,
    {
        let (s, e) = cs[k];
        let t = slice_chars(p, s, e);
        let rank = rank_of(t.as_slice());
        proof {
            let cs_s = components(p@);
            assert(t@ == comp_text(p@, cs_s[k as int]));
            assert(pp[k + off] == (part_rank(comp_text(p@, cs_s[k as int])), comp_text(p@, cs_s[k as int])));
        }
        r.push((rank, t));
        k = k + 1;
    }
    r
}

/// Whether `a < b` as `Path`s are ordered.
pub fn path_less(a: &str, b: &str) -> (r: bool)
    ensures
        r == path_lt(a@, b@),
{
    let ac = chars_of(a);
    let bc = chars_of(b);
    let pa = parts_of(ac.as_slice());
    let pb = parts_of(bc.as_slice());
    let ghost sa = path_parts(a@);
    let ghost sb = path_parts(b@);
    let mut i: usize = 0;
    assert(sa.skip(0) =~= sa);
    assert(sb.skip(0) =~= sb);
    loop
        invariant
            i <= pa@.len() == sa.len(),
            i <= pb@.len() == sb.len(),
            sa == path_parts(a@),
            sb == path_parts(b@),
            forall|k: int|
                0 <= k < pa@.len() ==> (#[trigger] pa@[k]).0 as int == sa[k].0 && pa@[k].1@ == sa[k].1,
            forall|k: int|
                0 <= k < pb@.len() ==> (#[trigger] pb@[k]).0 as int == sb[k].0 && pb@[k].1@ == sb[k].1,
            parts_lt(sa, sb) == parts_lt(sa.skip(i as int), sb.skip(i as int)),
        decreases pa@.len() - i,
    {
        if i == pa.len() {
            return i < pb.len();
        }
        if i == pb.len() {
            return false;
        }
        let ghost x = sa.skip(i as int);
        let ghost y = sb.skip(i as int);
        assert(x[0] == sa[i as int]);
        assert(y[0] == sb[i as int]);
        let same = pa[i].0 == pb[i].0 && chars_eq(pa[i].1.as_slice(), pb[i].1.as_slice());
        if !same {
            assert(x[0] != y[0]);
            return pa[i].0 < pb[i].0 || (pa[i].0 == pb[i].0 && text_less(
                pa[i].1.as_slice(),
                pb[i].1.as_slice(),
            ));
        }
        assert(x[0] == y[0]);
        assert(x.drop_first() =~= sa.skip(i + 1));
        assert(y.drop_first() =~= sb.skip(i + 1));
        i = i + 1;
    }
}


/// No path orders before itself.
pub proof fn lemma_path_lt_irreflexive(a: Seq<char>)
    ensures
        !path_lt(a, a),
{
    lemma_parts_lt_irreflexive(path_parts(a));
}

proof fn lemma_parts_lt_irreflexive(a: Seq<(int, Seq<char>)>)
    ensures
        !parts_lt(a, a),
    decreases a.len(),
{
    if a.len() > 0 {
        lemma_parts_lt_irreflexive(a.drop_first());
    }
}


proof fn lemma_part_lt_facts(x: (int, Seq<char>), y: (int, Seq<char>), z: (int, Seq<char>))
    ensures
        !part_lt(x, x),
        part_lt(x, y) && part_lt(y, z) ==> part_lt(x, z),
        x == y || part_lt(x, y) || part_lt(y, x),
{
    lemma_text_lt_irreflexive(x.1);
    if part_lt(x, y) && part_lt(y, z) && x.0 == y.0 && y.0 == z.0 {
        lemma_text_lt_transitive(x.1, y.1, z.1);
    }
    lemma_text_lt_total(x.1, y.1);
}

proof fn lemma_parts_lt_transitive(
    a: Seq<(int, Seq<char>)>,
    b: Seq<(int, Seq<char>)>,
    c: Seq<(int, Seq<char>)>,
)
    requires
        parts_lt(a, b),
        parts_lt(b, c),
    ensures
        parts_lt(a, c),
    decreases a.len(),
{
    if a.len() > 0 && b.len() > 0 && c.len() > 0 {
        lemma_part_lt_facts(a[0], b[0], c[0]);
        lemma_part_lt_facts(b[0], a[0], c[0]);
        lemma_part_lt_facts(a[0], c[0], b[0]);
        if a[0] == b[0] && b[0] == c[0] {
            lemma_parts_lt_transitive(a.drop_first(), b.drop_first(), c.drop_first());
        }
    }
}

proof fn lemma_parts_lt_total(a: Seq<(int, Seq<char>)>, b: Seq<(int, Seq<char>)>)
    ensures
        a == b || parts_lt(a, b) || parts_lt(b, a),
    decreases a.len(),
{
    if a.len() > 0 && b.len() > 0 {
        lemma_part_lt_facts(a[0], b[0], b[0]);
        if a[0] == b[0] {
            lemma_parts_lt_total(a.drop_first(), b.drop_first());
            if a.drop_first() == b.drop_first() {
                assert(a =~= seq![a[0]] + a.drop_first());
                assert(b =~= seq![b[0]] + b.drop_first());
            }
        }
    } else if a.len() == 0 && b.len() == 0 {
        assert(a =~= b);
    }
}

/// Equal paths have the same components, rank and text, and the other way round.
pub proof fn lemma_path_eq_parts(a: Seq<char>, b: Seq<char>)
    ensures
        path_eq(a, b) <==> path_parts(a) == path_parts(b),
{
    let ac = components(a);
    let bc = components(b);
    let pa = path_parts(a);
    let pb = path_parts(b);
    if path_eq(a, b) {
        assert(pa =~= pb);
    }
    if pa == pb {
        let oa: int = if is_absolute(a) { 1 } else { 0 };
        let ob: int = if is_absolute(b) { 1 } else { 0 };
        assert(pa.len() == ac.len() + oa);
        assert(pb.len() == bc.len() + ob);
        if is_absolute(a) && !is_absolute(b) {
            assert(pa[0] == (1int, Seq::<char>::empty()));
            assert(pb[0] == (part_rank(comp_text(b, bc[0])), comp_text(b, bc[0])));
            assert(part_rank(comp_text(b, bc[0])) >= 2);
        }
        if is_absolute(b) && !is_absolute(a) {
            assert(pb[0] == (1int, Seq::<char>::empty()));
            assert(pa[0] == (part_rank(comp_text(a, ac[0])), comp_text(a, ac[0])));
            assert(part_rank(comp_text(a, ac[0])) >= 2);
        }
        assert(oa == ob);
        assert(ac.len() == bc.len());
        assert forall|k: int| 0 <= k < ac.len() implies comp_text(a, #[trigger] ac[k]) == comp_text(
            b,
            bc[k],
        ) by {
            assert(pa[k + oa] == pb[k + ob]);
        }
    }
}

/// The order of paths is transitive.
pub proof fn lemma_path_lt_transitive(a: Seq<char>, b: Seq<char>, c: Seq<char>)
    requires
        path_lt(a, b),
        path_lt(b, c),
    ensures
        path_lt(a, c),
{
    lemma_parts_lt_transitive(path_parts(a), path_parts(b), path_parts(c));
}

/// Of two paths that are not equal, one orders before the other.
pub proof fn lemma_path_lt_total(a: Seq<char>, b: Seq<char>)
    ensures
        path_eq(a, b) || path_lt(a, b) || path_lt(b, a),
{
    lemma_parts_lt_total(path_parts(a), path_parts(b));
    lemma_path_eq_parts(a, b);
}

/// The order of paths does not tell equal paths apart.
pub proof fn lemma_path_lt_respects_eq(a: Seq<char>, b: Seq<char>, c: Seq<char>)
    requires
        path_eq(b, c),
    ensures
        path_lt(a, b) == path_lt(a, c),
        path_lt(b, a) == path_lt(c, a),
{
    lemma_path_eq_parts(b, c);
}

} // verus!
