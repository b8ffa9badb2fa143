//! tmux sessions: their metadata, how they are shown, and the commands that manage them.
use vstd::prelude::*;

use crate::config::{
    clone_windows, window_views, DefaultSession, Pane, PaneView, Preset, Window, WindowView,
};
use crate::external::utf8_string;
use crate::git::{branch_label_text, row_texts, with_branch, Checkout, CheckoutView};
use crate::sort::{sort_by_number_desc, stable_sorted_by_number_desc};
use crate::text::{
    chars_of, clone_opt, clone_strings, contains, contains_chars, find_char, hex_char, index_of,
    lines, opt_text, parse_unsigned, parse_unsigned_chars, push_all, push_str, push_text,
    slice_chars, split_lines, split_once, string_of, texts, trim, trim_chars, trim_end,
    trim_end_chars,
};
use crate::words::{branch_marker_chars, gap};
use vstd::utf8::{decode_utf8, encode_utf8, valid_utf8};

verus! {

broadcast use vstd::string::group_string_axioms;

/// The two lower-case hexadecimal digits of a byte.
pub open spec fn hex_byte(b: u8) -> Seq<char> {
    seq![hex_char((b / 16) as nat), hex_char((b % 16) as nat)]
}

/// Lower-case hexadecimal text of a byte string, two digits per byte.
pub open spec fn hex_text(bytes: Seq<u8>) -> Seq<char>
    decreases bytes.len(),
{
    if bytes.len() == 0 {
        seq![]
    } else {
        hex_text(bytes.drop_last()) + hex_byte(bytes.last())
    }
}

/// The hexadecimal text of the UTF-8 bytes of `value`; tmux options hold metadata this way.
pub fn hex(value: &str) -> (r: String)
    ensures
        r@ == hex_text(encode_utf8(value@)),
{
    let bytes = value.as_bytes();
    let ghost b = bytes@;
    let mut out: Vec<char> = Vec::new();
    let mut i: usize = 0;
    while i < bytes.len()
        invariant
            i <= b.len(),
            b == bytes@,
            out@ == hex_text(b.take(i as int)),
        decreases b.len() - i,
    {
        let x = bytes[i];
        assert(b.take(i + 1).drop_last() =~= b.take(i as int));
        push_hex_byte(&mut out, x);
        i = i + 1;
    }
    assert(b.take(b.len() as int) =~= b);
    string_of(out.as_slice())
}

/// The two hexadecimal digits of a byte.
pub fn hex_pair(x: u8) -> (r: Vec<char>)
    ensures
        r@ == hex_byte(x),
{
    let mut r: Vec<char> = Vec::new();
    push_hex_byte(&mut r, x);
    r
}

fn push_hex_byte(out: &mut Vec<char>, x: u8)
    ensures
        final(out)@ == old(out)@ + hex_byte(x),
{
    let table = [
        '0', '1', '2', '3', '4', '5', '6', '7', '8', '9', 'a', 'b', 'c', 'd', 'e', 'f',
    ];
    assert(table@ =~= seq!['0', '1', '2', '3', '4', '5', '6', '7', '8', '9', 'a', 'b', 'c', 'd', 'e', 'f']);
    out.push(table[(x / 16) as usize]);
    out.push(table[(x % 16) as usize]);
    assert(final(out)@ =~= old(out)@ + hex_byte(x));
}

/// An ASCII hexadecimal digit of either case.
pub open spec fn is_hex_digit(c: char) -> bool {
    ('0' <= c && c <= '9') || ('a' <= c && c <= 'f') || ('A' <= c && c <= 'F')
}

/// The value of a hexadecimal digit.
pub open spec fn hex_value(c: char) -> int {
    if '0' <= c && c <= '9' {
        (c as u32) - 48
    } else if 'a' <= c && c <= 'f' {
        (c as u32) - 87
    } else {
        (c as u32) - 55
    }
}

/// The bytes that pairs of hexadecimal digits stand for.
pub open spec fn hex_pairs(v: Seq<char>) -> Seq<u8> {
    Seq::new(v.len() / 2, |i: int| (hex_value(v[2 * i]) * 16 + hex_value(v[2 * i + 1])) as u8)
}

/// The text whose UTF-8 bytes `v` spells in hexadecimal; nothing when `v` is not an even number
/// of hexadecimal digits or the bytes are not UTF-8.
pub open spec fn unhex_text(v: Seq<char>) -> Option<Seq<char>> {
    if v.len() % 2 == 0 && forall|i: int| 0 <= i < v.len() ==> is_hex_digit(#[trigger] v[i]) {
        if valid_utf8(hex_pairs(v)) {
            Some(decode_utf8(hex_pairs(v)))
        } else {
            None
        }
    } else {
        None
    }
}

fn hex_digit_value(c: char) -> (r: u8)
    requires
        is_hex_digit(c),
    ensures
        r as int == hex_value(c),
        r < 16,
{
    if '0' <= c && c <= '9' {
        (c as u32 - 48) as u8
    } else if 'a' <= c && c <= 'f' {
        (c as u32 - 87) as u8
    } else {
        (c as u32 - 55) as u8
    }
}

/// Reads back what `hex` wrote.
pub fn unhex(value: &str) -> (r: Option<String>)
    ensures
        opt_text(r) == unhex_text(value@),
{
    let v = chars_of(value);
    if v.len() % 2 != 0 {
        return None;
    }
    let mut k: usize = 0;
    while k < v.len()
        invariant
            k <= v@.len(),
            v@ == value@,
            forall|i: int| 0 <= i < k ==> is_hex_digit(#[trigger] v@[i]),
        decreases v@.len() - k,
    {
        let c = v[k];
        if !(('0' <= c && c <= '9') || ('a' <= c && c <= 'f') || ('A' <= c && c <= 'F')) {
            assert(!is_hex_digit(v@[k as int]));
            return None;
        }
        k = k + 1;
    }
    let mut bytes: Vec<u8> = Vec::new();
    let mut i: usize = 0;
    let half = v.len() / 2;
    while i < half
        invariant
            half == v@.len() / 2,
            v@.len() % 2 == 0,
            v@.len() == v.len(),
            i <= half,
            forall|m: int| 0 <= m < v@.len() ==> is_hex_digit(#[trigger] v@[m]),
            bytes@ == hex_pairs(v@).take(i as int),
        decreases half - i,
    {
        let hi = hex_digit_value(v[2 * i]);
        let lo = hex_digit_value(v[2 * i + 1]);
        bytes.push(hi * 16 + lo);
        i = i + 1;
        assert(bytes@ =~= hex_pairs(v@).take(i as int));
    }
    assert(bytes@ =~= hex_pairs(v@));
    utf8_string(bytes)
}

/// Hexadecimal text has two digits per byte, in order.
pub proof fn lemma_hex_text(b: Seq<u8>)
    ensures
        hex_text(b).len() == 2 * b.len(),
        forall|i: int|
            0 <= i < b.len() ==> hex_text(b)[2 * i] == hex_char((b[i] / 16) as nat) && hex_text(b)[2
                * i + 1] == hex_char((b[i] % 16) as nat),
    decreases b.len(),
{
    if b.len() > 0 {
        lemma_hex_text(b.drop_last());
        assert forall|i: int| 0 <= i < b.len() implies hex_text(b)[2 * i] == hex_char(
            (b[i] / 16) as nat,
        ) && hex_text(b)[2 * i + 1] == hex_char((b[i] % 16) as nat) by {
            if i < b.len() - 1 {
                assert(b.drop_last()[i] == b[i]);
            }
        }
    }
}

/// A hexadecimal digit reads back as its value.
pub proof fn lemma_hex_char_value(d: nat)
    requires
        d < 16,
    ensures
        is_hex_digit(hex_char(d)),
        hex_value(hex_char(d)) == d,
{
    let t = seq!['0', '1', '2', '3', '4', '5', '6', '7', '8', '9', 'a', 'b', 'c', 'd', 'e', 'f'];
    assert(hex_char(d) == t[d as int]);
    if d == 0 { assert(t[0] == '0'); } else if d == 1 { assert(t[1] == '1'); }
    else if d == 2 { assert(t[2] == '2'); } else if d == 3 { assert(t[3] == '3'); }
    else if d == 4 { assert(t[4] == '4'); } else if d == 5 { assert(t[5] == '5'); }
    else if d == 6 { assert(t[6] == '6'); } else if d == 7 { assert(t[7] == '7'); }
    else if d == 8 { assert(t[8] == '8'); } else if d == 9 { assert(t[9] == '9'); }
    else if d == 10 { assert(t[10] == 'a'); } else if d == 11 { assert(t[11] == 'b'); }
    else if d == 12 { assert(t[12] == 'c'); } else if d == 13 { assert(t[13] == 'd'); }
    else if d == 14 { assert(t[14] == 'e'); } else { assert(t[15] == 'f'); }
}

/// Metadata written with `hex` reads back unchanged with `unhex`.
pub proof fn hex_round_trip(s: Seq<char>)
    ensures
        unhex_text(hex_text(encode_utf8(s))) == Some(s),
{
    let b = encode_utf8(s);
    let h = hex_text(b);
    lemma_hex_text(b);
    assert forall|i: int| 0 <= i < h.len() implies is_hex_digit(#[trigger] h[i]) by {
        let j = i / 2;
        if i % 2 == 0 {
            assert(i == 2 * j);
            lemma_hex_char_value((b[j] / 16) as nat);
        } else {
            assert(i == 2 * j + 1);
            lemma_hex_char_value((b[j] % 16) as nat);
        }
    }
    assert forall|j: int| 0 <= j < b.len() implies #[trigger] hex_pairs(h)[j] == b[j] by {
        lemma_hex_char_value((b[j] / 16) as nat);
        lemma_hex_char_value((b[j] % 16) as nat);
    }
    assert(hex_pairs(h) =~= b);
    vstd::utf8::encode_utf8_valid_utf8(s);
    vstd::utf8::encode_utf8_decode_utf8(s);
}

/// What Grove stores in a session option comes back from the session listing as it was written
/// (a non-empty value; an empty field reads as no value).
pub proof fn lemma_stored_metadata_reads_back(value: Seq<char>)
    requires
        value.len() > 0,
    ensures
        meta_field(hex_text(encode_utf8(value))) == Some(value),
{
    let b = encode_utf8(value);
    hex_round_trip(value);
    lemma_hex_text(b);
    vstd::utf8::encode_utf8_decode_utf8(value);
    if b.len() == 0 {
        assert(b =~= Seq::<u8>::empty());
        assert(decode_utf8(b) =~= Seq::<char>::empty());
    }
}

/// `path` as tmux reads it in a format: `#` doubled.
pub open spec fn tmux_path_text(path: Seq<char>) -> Seq<char>
    decreases path.len(),
{
    if path.len() == 0 {
        seq![]
    } else {
        tmux_path_text(path.drop_last()) + if path.last() == '#' {
            seq!['#', '#']
        } else {
            seq![path.last()]
        }
    }
}

/// `path` with every `#` doubled, so tmux takes it literally.
pub fn tmux_path(path: &str) -> (r: String)
    ensures
        r@ == tmux_path_text(path@),
{
    let p = chars_of(path);
    let mut out: Vec<char> = Vec::new();
    let mut i: usize = 0;
    while i < p.len()
        invariant
            i <= p@.len(),
            out@ == tmux_path_text(p@.take(i as int)),
        decreases p@.len() - i,
    {
        assert(p@.take(i + 1).drop_last() =~= p@.take(i as int));
        if p[i] == '#' {
            out.push('#');
            out.push('#');
        } else {
            out.push(p[i]);
        }
        i = i + 1;
        assert(out@ =~= tmux_path_text(p@.take(i as int)));
    }
    assert(p@.take(p@.len() as int) =~= p@);
    string_of(out.as_slice())
}

/// A tmux session and the metadata Grove stored on it.
#[derive(Debug)]
pub struct Session {
    /// Stable tmux machine identifier (for example `$1`).
    pub id: String,
    pub name: String,
    pub repo: Option<String>,
    pub worktree: Option<String>,
    pub label_meta: Option<String>,
    pub name_meta: Option<String>,
    pub branch: Option<String>,
    pub activity: u64,
}

/// A session as the contracts see it.
pub struct SessionView {
    pub id: Seq<char>,
    pub name: Seq<char>,
    pub repo: Option<Seq<char>>,
    pub worktree: Option<Seq<char>>,
    pub label_meta: Option<Seq<char>>,
    pub name_meta: Option<Seq<char>>,
    pub branch: Option<Seq<char>>,
    pub activity: u64,
}

impl View for Session {
    type V = SessionView;

    open spec fn view(&self) -> SessionView {
        SessionView {
            id: self.id@,
            name: self.name@,
            repo: opt_text(self.repo),
            worktree: opt_text(self.worktree),
            label_meta: opt_text(self.label_meta),
            name_meta: opt_text(self.name_meta),
            branch: opt_text(self.branch),
            activity: self.activity,
        }
    }
}

impl Clone for Session {
    fn clone(&self) -> (r: Self)
        ensures
            r@ == self@,
    {
        Session {
            id: self.id.clone(),
            name: self.name.clone(),
            repo: clone_opt(&self.repo),
            worktree: clone_opt(&self.worktree),
            label_meta: clone_opt(&self.label_meta),
            name_meta: clone_opt(&self.name_meta),
            branch: clone_opt(&self.branch),
            activity: self.activity,
        }
    }
}

/// Views of sessions.
pub open spec fn session_views(v: Seq<Session>) -> Seq<SessionView> {
    v.map_values(|s: Session| s@)
}

/// A session's label: its stored label (or its name), then its branch when one is stored.
pub open spec fn session_label(s: SessionView, nerd_fonts: bool) -> Seq<char> {
    with_branch(
        match s.label_meta {
            Some(l) => l,
            None => s.name,
        },
        s.branch,
        nerd_fonts,
    )
}

/// A session's picker columns: stored name, path and branch, or only its label when the name or
/// path is not stored.
pub open spec fn session_columns(s: SessionView, nerd_fonts: bool) -> Seq<Seq<char>> {
    match (s.name_meta, s.worktree) {
        (Some(name), Some(path)) => seq![
            seq![],
            name,
            path,
            branch_label_text(s.branch, nerd_fonts),
        ],
        _ => seq![seq![], session_label(s, nerd_fonts), seq![], seq![]],
    }
}

impl Session {
    /// Picker fields: marker, name, path, branch.
    pub fn columns(&self, nerd_fonts: bool) -> (r: [String; 4])
        ensures
            row_texts(r) == session_columns(self@, nerd_fonts),
    {
        match (&self.name_meta, &self.worktree) {
            (Some(name), Some(path)) => {
                let label = match &self.branch {
                    Some(b) => crate::branch_label(Some(b.as_str()), nerd_fonts),
                    None => crate::branch_label(None, nerd_fonts),
                };
                let r = [String::new(), name.clone(), path.clone(), label];
                assert(row_texts(r) =~= session_columns(self@, nerd_fonts));
                r
            },
            _ => {
                let r = [String::new(), self.label(nerd_fonts), String::new(), String::new()];
                assert(row_texts(r) =~= session_columns(self@, nerd_fonts));
                r
            },
        }
    }

    /// The stored label (or the name), followed by the stored branch.
    pub fn label(&self, nerd_fonts: bool) -> (r: String)
        ensures
            r@ == session_label(self@, nerd_fonts),
    {
        let base = match &self.label_meta {
            Some(l) => l.clone(),
            None => self.name.clone(),
        };
        match &self.branch {
            Some(b) => {
                let mut out = chars_of(base.as_str());
                out.push(' ');
                out.push(' ');
                push_all(&mut out, branch_marker_chars(nerd_fonts).as_slice());
                out.push(' ');
                push_str(&mut out, b.as_str());
                string_of(out.as_slice())
            },
            None => base,
        }
    }
}


/// `str::splitn(n, c)`: at most `n` pieces, the last holding the rest of the text.
pub open spec fn split_n(s: Seq<char>, c: char, n: nat) -> Seq<Seq<char>>
    decreases n,
{
    if n <= 1 {
        seq![s]
    } else {
        match index_of(s, c) {
            None => seq![s],
            Some(i) => seq![s.take(i)] + split_n(s.skip(i + 1), c, (n - 1) as nat),
        }
    }
}

/// Pieces of `s` split at `c`, at most `n` of them.
pub fn split_n_chars(s: &[char], c: char, n: usize) -> (r: Vec<Vec<char>>)
    requires
        n >= 1,
    ensures
        r@.len() == split_n(s@, c, n as nat).len(),
        forall|k: int| 0 <= k < r@.len() ==> #[trigger] r@[k]@ == split_n(s@, c, n as nat)[k],
{
    let mut r: Vec<Vec<char>> = Vec::new();
    let ghost mut done: Seq<Seq<char>> = seq![];
    let mut pos: usize = 0;
    let mut left: usize = n;
    assert(s@.skip(0) =~= s@);
    assert(split_n(s@, c, n as nat) =~= done + split_n(s@.skip(0), c, n as nat));
    loop
        invariant
            pos <= s@.len(),
            s@.len() == s.len(),
            1 <= left <= n,
            r@.len() == done.len(),
            forall|k: int| 0 <= k < r@.len() ==> #[trigger] r@[k]@ == done[k],
            split_n(s@, c, n as nat) == done + split_n(s@.skip(pos as int), c, left as nat),
        decreases left,
    {
        let ghost rest = s@.skip(pos as int);
        if left == 1 {
            let piece = slice_chars(s, pos, s.len());
            proof {
                assert(piece@ =~= rest);
                done = done.push(piece@);
                assert(split_n(s@, c, n as nat) =~= done);
            }
            r.push(piece);
            return r;
        }
        match find_char(s, c, pos) {
            None => {
                let piece = slice_chars(s, pos, s.len());
                proof {
                    assert(piece@ =~= rest);
                    done = done.push(piece@);
                    assert(split_n(s@, c, n as nat) =~= done);
                }
                r.push(piece);
                return r;
            },
            Some(j) => {
                let piece = slice_chars(s, pos, j);
                proof {
                    assert(piece@ =~= rest.take(j - pos));
                    assert(rest.skip(j - pos + 1) =~= s@.skip(j + 1));
                    assert(split_n(rest, c, left as nat) == seq![piece@] + split_n(
                        rest.skip(j - pos + 1),
                        c,
                        (left - 1) as nat,
                    ));
                    done = done.push(piece@);
                    assert(split_n(s@, c, n as nat) =~= done + split_n(
                        s@.skip(j + 1),
                        c,
                        (left - 1) as nat,
                    ));
                }
                r.push(piece);
                pos = j + 1;
                left = left - 1;
            },
        }
    }
}

/// Why tmux's answer could not be used.
#[derive(Debug)]
pub enum TmuxError {
    /// A tmux command failed; its message.
    Command(String),
    InvalidSessionData,
    InvalidActivity,
    MissingIds,
}

/// The message of a failure.
pub open spec fn tmux_error_text(e: TmuxErrorView) -> Seq<char> {
    match e {
        TmuxErrorView::Command(m) => m,
        TmuxErrorView::InvalidSessionData => "tmux returned invalid session data"@,
        TmuxErrorView::InvalidActivity => "tmux returned invalid session activity"@,
        TmuxErrorView::MissingIds => "tmux did not return session and window IDs"@,
    }
}

impl TmuxError {
    /// The message that explains the failure.
    pub fn message(&self) -> (r: String)
        ensures
            r@ == tmux_error_text(self@),
    {
        match self {
            TmuxError::Command(m) => m.clone(),
            TmuxError::InvalidSessionData => String::from_str("tmux returned invalid session data"),
            TmuxError::InvalidActivity => String::from_str(
                "tmux returned invalid session activity",
            ),
            TmuxError::MissingIds => String::from_str(
                "tmux did not return session and window IDs",
            ),
        }
    }
}

/// Why a line of the session listing is not a session.
pub enum ListingFault {
    InvalidSessionData,
    InvalidActivity,
}

/// A metadata field: nothing when empty, else its hexadecimal text read back.
pub open spec fn meta_field(v: Seq<char>) -> Option<Seq<char>> {
    if v.len() == 0 {
        None
    } else {
        unhex_text(v)
    }
}

/// A listing line: eight `:`-separated fields (id, name, five metadata fields, activity).
pub open spec fn parse_session_line(line: Seq<char>) -> Result<SessionView, ListingFault> {
    let f = split_n(line, ':', 8);
    if f.len() < 8 {
        Err(ListingFault::InvalidSessionData)
    } else {
        match parse_unsigned(f[7], u64::MAX as nat) {
            Err(_) => Err(ListingFault::InvalidActivity),
            Ok(a) => Ok(
                SessionView {
                    id: f[0],
                    name: f[1],
                    repo: meta_field(f[2]),
                    worktree: meta_field(f[3]),
                    label_meta: meta_field(f[4]),
                    name_meta: meta_field(f[5]),
                    branch: meta_field(f[6]),
                    activity: a as u64,
                },
            ),
        }
    }
}

/// The sessions of listing lines, in order, or the fault of the first bad line.
pub open spec fn parse_session_lines(ls: Seq<Seq<char>>) -> Result<Seq<SessionView>, ListingFault>
    decreases ls.len(),
{
    if ls.len() == 0 {
        Ok(seq![])
    } else {
        match parse_session_line(ls[0]) {
            Err(e) => Err(e),
            Ok(s) => match parse_session_lines(ls.drop_first()) {
                Err(e) => Err(e),
                Ok(rest) => Ok(seq![s] + rest),
            },
        }
    }
}

/// Whether a failed listing only means that no tmux server is running.
pub open spec fn no_server(message: Seq<char>) -> bool {
    contains(message, "no server running on"@) || contains(message, "failed to connect to server"@)
        || (contains(message, "error connecting to"@) && contains(
        message,
        "(No such file or directory)"@,
    ))
}

/// A listing that fails because no tmux server runs lists no sessions. Such a failure is one whose
/// message says `no server running on`, or `failed to connect to server`, or both
/// `error connecting to` and `(No such file or directory)`; a message that says none of these is
/// a real failure.
pub proof fn lemma_missing_server_messages(m: Seq<char>)
    ensures
        contains(m, "no server running on"@) ==> no_server(m),
        contains(m, "failed to connect to server"@) ==> no_server(m),
        contains(m, "error connecting to"@) && contains(m, "(No such file or directory)"@)
            ==> no_server(m),
        !contains(m, "no server running on"@) && !contains(m, "failed to connect to server"@)
            && !(contains(m, "error connecting to"@) && contains(
            m,
            "(No such file or directory)"@,
        )) ==> !no_server(m),
{
}

fn meta(v: &Vec<char>) -> (r: Option<String>)
    ensures
        opt_text(r) == meta_field(v@),
{
    if v.len() == 0 {
        None
    } else {
        unhex(string_of(v.as_slice()).as_str())
    }
}

fn session_of_line(line: &Vec<char>) -> (r: Result<Session, ListingFault>)
    ensures
        match (r, parse_session_line(line@)) {
            (Ok(a), Ok(b)) => a@ == b,
            (Err(ListingFault::InvalidSessionData), Err(ListingFault::InvalidSessionData)) => true,
            (Err(ListingFault::InvalidActivity), Err(ListingFault::InvalidActivity)) => true,
            _ => false,
        },
{
    let f = split_n_chars(line.as_slice(), ':', 8);
    if f.len() < 8 {
        return Err(ListingFault::InvalidSessionData);
    }
    let activity = match parse_unsigned_chars(f[7].as_slice(), u64::MAX) {
        Ok(a) => a,
        Err(_) => return Err(ListingFault::InvalidActivity),
    };
    Ok(
        Session {
            id: string_of(f[0].as_slice()),
            name: string_of(f[1].as_slice()),
            repo: meta(&f[2]),
            worktree: meta(&f[3]),
            label_meta: meta(&f[4]),
            name_meta: meta(&f[5]),
            branch: meta(&f[6]),
            activity,
        },
    )
}

/// `out` holds the sessions `v`, most recently active first, sessions equally recent in their
/// order in `v`.
pub open spec fn recent_first_order(out: Seq<SessionView>, v: Seq<SessionView>) -> bool {
    exists|perm: Seq<int>| #[trigger] stable_sorted_by_number_desc(out, v, activities(v), perm)
}

/// The activity of each session.
pub open spec fn activities(v: Seq<SessionView>) -> Seq<u64> {
    v.map_values(|s: SessionView| s.activity)
}

/// The tmux client's settings: a configuration file and a socket name, when set.
#[derive(Debug)]
pub struct Tmux {
    pub socket: Option<String>,
    pub config: Option<String>,
}

impl Clone for Tmux {
    fn clone(&self) -> (r: Self)
        ensures
            opt_text(r.socket) == opt_text(self.socket),
            opt_text(r.config) == opt_text(self.config),
    {
        Tmux { socket: clone_opt(&self.socket), config: clone_opt(&self.config) }
    }
}

/// Format of the session listing: id, name, Grove's five metadata options, activity.
pub open spec fn listing_format() -> Seq<char> {
    "#{session_id}:#{session_name}:#{@grove_repo}:#{@grove_worktree}:#{@grove_label}:#{@grove_name}:#{@grove_branch}:#{session_activity}"@
}

impl Tmux {
    /// The client with socket name `socket` and configuration file `config`, when set.
    pub fn new(socket: Option<String>, config: Option<String>) -> (r: Self)
        ensures
            opt_text(r.socket) == opt_text(socket),
            opt_text(r.config) == opt_text(config),
    {
        Tmux { socket, config }
    }

    /// Arguments that select the configuration file and socket.
    pub open spec fn prefix(&self) -> Seq<Seq<char>> {
        (match self.config {
            Some(c) => seq!["-f"@, c@],
            None => seq![],
        }) + (match self.socket {
            Some(s) => seq!["-L"@, s@],
            None => seq![],
        })
    }

    /// The full argument list of a tmux invocation.
    pub fn argv(&self, args: Vec<String>) -> (r: Vec<String>)
        ensures
            texts(r@) == self.prefix() + texts(args@),
    {
        let mut r: Vec<String> = Vec::new();
        if let Some(c) = &self.config {
            r.push(String::from_str("-f"));
            r.push(c.clone());
        }
        if let Some(s) = &self.socket {
            r.push(String::from_str("-L"));
            r.push(s.clone());
        }
        let ghost pre = texts(r@);
        assert(pre =~= self.prefix());
        let ghost all = texts(args@);
        let mut i: usize = 0;
        let n = args.len();
        while i < n
            invariant
                n == all.len() == args@.len(),
                all == texts(args@),
                i <= n,
                texts(r@) == pre + all.take(i as int),
            decreases n - i,
        {
            push_text(&mut r, args[i].clone());
            i = i + 1;
            assert(texts(r@) =~= pre + all.take(i as int));
        }
        assert(all.take(n as int) =~= all);
        r
    }

    /// Arguments that list all sessions with Grove's metadata.
    pub fn list_sessions_args(&self) -> (r: Vec<String>)
        ensures
            texts(r@) == self.prefix() + seq!["list-sessions"@, "-F"@, listing_format()],
    {
        let mut args: Vec<String> = Vec::new();
        args.push(String::from_str("list-sessions"));
        args.push(String::from_str("-F"));
        args.push(
            String::from_str(
                "#{session_id}:#{session_name}:#{@grove_repo}:#{@grove_worktree}:#{@grove_label}:#{@grove_name}:#{@grove_branch}:#{session_activity}",
            ),
        );
        assert(texts(args@) =~= seq!["list-sessions"@, "-F"@, listing_format()]);
        self.argv(args)
    }

    /// The sessions that a listing reports, most recently active first (ties keep their order).
    /// A failed listing means no sessions when only the server is missing; otherwise it is the
    /// error.
    pub fn sessions(listing: Result<String, String>) -> (r: Result<Vec<Session>, TmuxError>)
        ensures
            match listing {
                Err(m) => (contains(m@, "no server running on"@) || contains(
                    m@,
                    "failed to connect to server"@,
                )) ==> (r matches Ok(v) && v@.len() == 0),
                Ok(_) => true,
            },
            match listing {
                Err(m) => if no_server(m@) {
                    r matches Ok(v) && v@.len() == 0
                } else {
                    r matches Err(TmuxError::Command(e)) && e@ == m@
                },
                Ok(_) => true,
            },
            match listing {
                Err(_) => true,
                Ok(text) => match parse_session_lines(lines(text@)) {
                    Err(ListingFault::InvalidSessionData) => r matches Err(
                        TmuxError::InvalidSessionData,
                    ),
                    Err(ListingFault::InvalidActivity) => r matches Err(TmuxError::InvalidActivity),
                    Ok(_) => true,
                },
            },
            match listing {
                Err(_) => true,
                Ok(text) => match parse_session_lines(lines(text@)) {
                    Ok(v) => r matches Ok(ss) && recent_first_order(session_views(ss@), v),
                    Err(_) => true,
                },
            },
    {
        let text = match listing {
            Err(m) => {
                proof {
                    lemma_missing_server_messages(m@);
                }
                if no_server_message(m.as_str()) {
                    return Ok(Vec::new());
                }
                return Err(TmuxError::Command(m));
            },
            Ok(t) => t,
        };
        let (sessions, keys) = match parse_listing(text.as_str()) {
            Err(ListingFault::InvalidSessionData) => return Err(TmuxError::InvalidSessionData),
            Err(ListingFault::InvalidActivity) => return Err(TmuxError::InvalidActivity),
            Ok(p) => p,
        };
        let ghost done = session_views(sessions@);
        let ghost inp = sessions@;
        assert(parse_session_lines(lines(text@)) == Ok::<Seq<SessionView>, ListingFault>(done));
        assert(keys@ == activities(done));
        let sorted = sort_by_number_desc(sessions, keys);
        proof {
            let perm = choose|perm: Seq<int>|
                stable_sorted_by_number_desc(sorted@, inp, activities(done), perm);
            assert(stable_sorted_by_number_desc(sorted@, inp, activities(done), perm));
            assert(stable_sorted_by_number_desc(session_views(sorted@), done, activities(done), perm))
                by {
                assert forall|k: int| 0 <= k < perm.len() implies #[trigger] session_views(
                    sorted@,
                )[k] == done[perm[k]] by {
                    assert(sorted@[k] == inp[perm[k]]);
                }
            }
            assert(recent_first_order(session_views(sorted@), done));
        }
        assert(listing matches Ok(t) && t@ == text@);
        Ok(sorted)
    }
}


/// The sessions of a listing, in order, with their activities; or the fault of the first bad line.
fn parse_listing(text: &str) -> (r: Result<(Vec<Session>, Vec<u64>), ListingFault>)
    ensures
        match (r, parse_session_lines(lines(text@))) {
            (Ok((ss, ks)), Ok(v)) => session_views(ss@) == v && ks@ == activities(v),
            (Err(ListingFault::InvalidSessionData), Err(ListingFault::InvalidSessionData)) => true,
            (Err(ListingFault::InvalidActivity), Err(ListingFault::InvalidActivity)) => true,
            _ => false,
        },
{
        let chars = chars_of(text);
        let ls = split_lines(chars.as_slice());
        let ghost lv = lines(text@);
        assert(ls@.len() == lv.len());
        let mut sessions: Vec<Session> = Vec::new();
        let mut keys: Vec<u64> = Vec::new();
        let ghost mut done: Seq<SessionView> = seq![];
        let mut i: usize = 0;
        assert(lv.skip(0) =~= lv);
        while i < ls.len()
            invariant
                i <= ls@.len() == lv.len(),
                lv == lines(text@),
                forall|k: int| 0 <= k < ls@.len() ==> #[trigger] ls@[k]@ == lv[k],
                session_views(sessions@) == done,
                keys@ == activities(done),
                parse_session_lines(lv) == (match parse_session_lines(lv.skip(i as int)) {
                    Err(e) => Err(e),
                    Ok(rest) => Ok(done + rest),
                }),
            decreases ls@.len() - i,
        {
            let ghost rest = lv.skip(i as int);
            proof {
                assert(rest[0] == lv[i as int]);
                assert(rest.drop_first() =~= lv.skip(i + 1));
            }
            match session_of_line(&ls[i]) {
                Err(ListingFault::InvalidSessionData) => {
                    assert(parse_session_lines(rest) matches Err(ListingFault::InvalidSessionData));
                    return Err(ListingFault::InvalidSessionData);
                },
                Err(ListingFault::InvalidActivity) => {
                    assert(parse_session_lines(rest) matches Err(ListingFault::InvalidActivity));
                    return Err(ListingFault::InvalidActivity);
                },
                Ok(s) => {
                    assert(parse_session_lines(rest) == match parse_session_lines(lv.skip(i + 1)) {
                        Err(e) => Err(e),
                        Ok(r2) => Ok(seq![s@] + r2),
                    });
                    let ghost old_done = done;
                    proof {
                        done = done.push(s@);
                        match parse_session_lines(lv.skip(i + 1)) {
                            Err(e) => {},
                            Ok(r2) => {
                                assert(old_done + (seq![s@] + r2) =~= done + r2);
                            },
                        }
                    }
                    keys.push(s.activity);
                    sessions.push(s);
                    assert(session_views(sessions@) =~= done);
                    assert(keys@ =~= activities(done));
                },
            }
            i = i + 1;
        }
        proof {
            assert(lv.skip(i as int) =~= Seq::<Seq<char>>::empty());
            assert(done + Seq::<SessionView>::empty() =~= done);
        }
    Ok((sessions, keys))
}

/// Whether a failed listing only means that no tmux server is running.
pub fn no_server_message(message: &str) -> (r: bool)
    ensures
        r == no_server(message@),
{
    let m = chars_of(message);
    let a = chars_of("no server running on");
    let b = chars_of("failed to connect to server");
    let c = chars_of("error connecting to");
    let d = chars_of("(No such file or directory)");
    contains_chars(m.as_slice(), a.as_slice()) || contains_chars(m.as_slice(), b.as_slice()) || (
    contains_chars(m.as_slice(), c.as_slice()) && contains_chars(m.as_slice(), d.as_slice()))
}


/// An argument of a pane's command as passed through tmux: one made of backslashes and a final
/// `;` gets one more backslash, since tmux reads a trailing `;` as a command separator and takes
/// one backslash before it away.
pub open spec fn escaped_arg(a: Seq<char>) -> Seq<char> {
    if a.len() > 0 && a.last() == ';' && (forall|i: int| 0 <= i < a.len() - 1 ==> a[i] == '\\') {
        seq!['\\'] + a
    } else {
        a
    }
}

/// What runs a pane's command: nothing for a shell, else `-- /usr/bin/env --` and the literal
/// argv, so that no shell reads it.
pub open spec fn pane_command_args(p: PaneView) -> Seq<Seq<char>> {
    if p.command.len() == 0 {
        seq![]
    } else {
        seq!["--"@, "/usr/bin/env"@, "--"@] + p.command.map_values(|a: Seq<char>| escaped_arg(a))
    }
}

/// The command of a window's first pane, when it has panes.
pub open spec fn first_pane_args(w: WindowView) -> Seq<Seq<char>> {
    if w.panes.len() == 0 {
        seq![]
    } else {
        pane_command_args(w.panes[0])
    }
}

fn escape_arg(a: &String) -> (r: String)
    ensures
        r@ == escaped_arg(a@),
{
    let cs = chars_of(a.as_str());
    let n = cs.len();
    if n == 0 || cs[n - 1] != ';' {
        return a.clone();
    }
    let mut i: usize = 0;
    while i < n - 1
        invariant
            n == cs@.len() == a@.len(),
            cs@ == a@,
            n > 0,
            i <= n - 1,
            forall|k: int| 0 <= k < i ==> cs@[k] == '\\',
        decreases n - 1 - i,
    {
        if cs[i] != '\\' {
            return a.clone();
        }
        i = i + 1;
    }
    let mut out: Vec<char> = Vec::new();
    out.push('\\');
    push_all(&mut out, cs.as_slice());
    string_of(out.as_slice())
}

fn push_pane_command(args: &mut Vec<String>, pane: &Pane)
    ensures
        texts(final(args)@) == texts(old(args)@) + pane_command_args(pane@),
{
    let ghost start = texts(args@);
    if pane.command.len() == 0 {
        assert(texts(args@) =~= start + pane_command_args(pane@));
        return;
    }
    push_text(args, String::from_str("--"));
    push_text(args, String::from_str("/usr/bin/env"));
    push_text(args, String::from_str("--"));
    let ghost cmd = pane@.command;
    let mut i: usize = 0;
    while i < pane.command.len()
        invariant
            i <= pane.command@.len() == cmd.len(),
            cmd == pane@.command,
            texts(args@) == start + seq!["--"@, "/usr/bin/env"@, "--"@] + cmd.take(i as int).map_values(
                |a: Seq<char>| escaped_arg(a),
            ),
        decreases pane.command@.len() - i,
    {
        let e = escape_arg(&pane.command[i]);
        push_text(args, e);
        assert(cmd[i as int] == pane.command@[i as int]@);
        assert(cmd.take(i + 1).map_values(|a: Seq<char>| escaped_arg(a)) =~= cmd.take(
            i as int,
        ).map_values(|a: Seq<char>| escaped_arg(a)).push(escaped_arg(cmd[i as int])));
        i = i + 1;
    }
    assert(cmd.take(i as int) =~= cmd);
    assert(texts(args@) =~= start + pane_command_args(pane@));
}

fn push_first_pane(args: &mut Vec<String>, window: &Window)
    ensures
        texts(final(args)@) == texts(old(args)@) + first_pane_args(window@),
{
    if window.panes.len() == 0 {
        assert(texts(args@) =~= texts(args@) + first_pane_args(window@));
    } else {
        assert(window@.panes[0] == window.panes@[0]@);
        push_pane_command(args, &window.panes[0]);
    }
}

/// Several argument lists as texts.
pub open spec fn argvs(v: Seq<Vec<String>>) -> Seq<Seq<Seq<char>>> {
    v.map_values(|a: Vec<String>| texts(a@))
}

/// The first window of a layout: its first, or a `shell` window with a shell pane.
pub open spec fn first_window(windows: Seq<WindowView>) -> WindowView {
    if windows.len() == 0 {
        WindowView { name: crate::config::shell_text(), panes: seq![] }
    } else {
        windows[0]
    }
}

/// `new-session` detached in `cwd_arg`, printing the session and first window ids, running the
/// first window's first pane.
pub open spec fn new_session_args(name: Seq<char>, cwd_arg: Seq<char>, first: WindowView) -> Seq<
    Seq<char>,
> {
    seq![
        "new-session"@,
        "-d"@,
        "-P"@,
        "-F"@,
        "#{session_id}\t#{window_id}"@,
        "-s"@,
        name,
        "-c"@,
        cwd_arg,
    ] + first_pane_args(first)
}

/// `new-window` for a later window of a layout, printing its id, running its first pane.
pub open spec fn new_window_args(session: Seq<char>, w: WindowView, cwd_arg: Seq<char>) -> Seq<
    Seq<char>,
> {
    seq![
        "new-window"@,
        "-d"@,
        "-P"@,
        "-F"@,
        "#{window_id}"@,
        "-t"@,
        session,
        "-n"@,
        w.name,
        "-c"@,
        cwd_arg,
    ] + first_pane_args(w)
}

/// `split-window` of window `id` for one more pane.
pub open spec fn split_args(id: Seq<char>, cwd_arg: Seq<char>, p: PaneView) -> Seq<Seq<char>> {
    seq!["split-window"@, "-d"@, "-t"@, id, "-c"@, cwd_arg] + pane_command_args(p)
}

/// The splits that give window `id` its panes after the first.
pub open spec fn splits(id: Seq<char>, cwd_arg: Seq<char>, panes: Seq<PaneView>) -> Seq<
    Seq<Seq<char>>,
> {
    Seq::new(
        if panes.len() > 0 {
            (panes.len() - 1) as nat
        } else {
            0
        },
        |k: int| split_args(id, cwd_arg, panes[k + 1]),
    )
}

fn split_commands(id: &str, cwd_arg: &str, panes: &Vec<Pane>) -> (r: Vec<Vec<String>>)
    ensures
        argvs(r@) == splits(id@, cwd_arg@, crate::config::pane_views(panes@)),
{
    let ghost pv = crate::config::pane_views(panes@);
    let ghost want = splits(id@, cwd_arg@, pv);
    let mut r: Vec<Vec<String>> = Vec::new();
    let mut k: usize = 1;
    if panes.len() == 0 {
        assert(argvs(r@) =~= want);
        return r;
    }
    while k < panes.len()
        invariant
            1 <= k <= panes@.len(),
            pv == crate::config::pane_views(panes@),
            want == splits(id@, cwd_arg@, pv),
            want.len() == panes@.len() - 1,
            argvs(r@) == want.take(k - 1),
        decreases panes@.len() - k,
    {
        let mut args: Vec<String> = Vec::new();
        args.push(String::from_str("split-window"));
        args.push(String::from_str("-d"));
        args.push(String::from_str("-t"));
        args.push(String::from_str(id));
        args.push(String::from_str("-c"));
        args.push(String::from_str(cwd_arg));
        assert(texts(args@) =~= seq!["split-window"@, "-d"@, "-t"@, id@, "-c"@, cwd_arg@]);
        push_pane_command(&mut args, &panes[k]);
        assert(pv[k as int] == panes@[k as int]@);
        assert(texts(args@) == want[k - 1]);
        let ghost before = r@;
        r.push(args);
        assert(argvs(r@) =~= argvs(before).push(texts(args@)));
        assert(want.take(k as int) =~= want.take(k - 1).push(want[k - 1]));
        k = k + 1;
    }
    assert(want.take(k - 1) =~= want);
    r
}

/// The metadata Grove stores on a session, as tmux options: repository identity, worktree,
/// label, name, and for a linked worktree its branch (or `detached`).
pub open spec fn session_metadata(c: CheckoutView) -> Seq<(Seq<char>, Seq<char>)> {
    seq![
        ("@grove_repo"@, c.repo),
        ("@grove_worktree"@, c.worktree),
        ("@grove_label"@, crate::git::checkout_name(c) + gap() + c.worktree),
        ("@grove_name"@, crate::git::checkout_name(c)),
    ] + if c.linked {
        seq![("@grove_branch"@, crate::git::shown_branch(c).unwrap())]
    } else {
        seq![]
    }
}

/// `set-option` of one metadata option on a session, its value in hexadecimal.
pub open spec fn option_args(session: Seq<char>, key: Seq<char>, value: Seq<char>) -> Seq<
    Seq<char>,
> {
    seq!["set-option"@, "-t"@, session, key, hex_text(encode_utf8(value))]
}

/// What follows `new-session` for session `session` with first window `window`: name the window,
/// store the metadata `meta`, split the window into its panes in `cwd_arg`.
pub open spec fn setup_commands(
    session: Seq<char>,
    window: Seq<char>,
    meta: Seq<(Seq<char>, Seq<char>)>,
    windows: Seq<WindowView>,
    cwd_arg: Seq<char>,
) -> Seq<Seq<Seq<char>>> {
    seq![seq!["rename-window"@, "-t"@, window, first_window(windows).name]] + Seq::new(
        meta.len(),
        |k: int| option_args(session, meta[k].0, meta[k].1),
    ) + splits(window, cwd_arg, first_window(windows).panes)
}

/// The texts of key and value pairs.
pub open spec fn pair_views(v: Seq<(String, String)>) -> Seq<(Seq<char>, Seq<char>)> {
    v.map_values(|p: (String, String)| (p.0@, p.1@))
}

fn push_pair(v: &mut Vec<(String, String)>, key: &str, value: String)
    ensures
        pair_views(final(v)@) == pair_views(old(v)@).push((key@, value@)),
{
    let ghost before = v@;
    v.push((String::from_str(key), value));
    assert(pair_views(v@) =~= pair_views(before).push((key@, value@)));
}

/// The metadata stored on a checkout's session (see `session_metadata`).
fn metadata_of(checkout: &Checkout) -> (r: Vec<(String, String)>)
    ensures
        pair_views(r@) == session_metadata(checkout@),
{
    let mut r: Vec<(String, String)> = Vec::new();
    push_pair(&mut r, "@grove_repo", checkout.repo.clone());
    push_pair(&mut r, "@grove_worktree", checkout.worktree.clone());
    push_pair(&mut r, "@grove_label", checkout.base_label());
    push_pair(&mut r, "@grove_name", checkout.display_name());
    if checkout.linked {
        let branch = match &checkout.branch {
            Some(b) => b.clone(),
            None => String::from_str("detached"),
        };
        proof {
            reveal_strlit("detached");
            assert("detached"@ =~= crate::words::detached_word());
        }
        push_pair(&mut r, "@grove_branch", branch);
    }
    assert(pair_views(r@) =~= session_metadata(checkout@));
    r
}

fn option_command(session: &str, key: &str, value: &str) -> (r: Vec<String>)
    ensures
        texts(r@) == option_args(session@, key@, value@),
{
    let mut args: Vec<String> = Vec::new();
    args.push(String::from_str("set-option"));
    args.push(String::from_str("-t"));
    args.push(String::from_str(session));
    args.push(String::from_str(key));
    args.push(hex(value));
    assert(texts(args@) =~= option_args(session@, key@, value@));
    args
}


fn setup_command_list(
    session: &str,
    window: &str,
    metadata: &Vec<(String, String)>,
    windows: &Vec<Window>,
    cwd_arg: &str,
) -> (r: Vec<Vec<String>>)
    ensures
        argvs(r@) == setup_commands(
            session@,
            window@,
            pair_views(metadata@),
            window_views(windows@),
            cwd_arg@,
        ),
{
    let ghost meta = pair_views(metadata@);
    let ghost ws = window_views(windows@);
    let ghost want = setup_commands(session@, window@, meta, ws, cwd_arg@);
    let mut r: Vec<Vec<String>> = Vec::new();
    let mut rename: Vec<String> = Vec::new();
    rename.push(String::from_str("rename-window"));
    rename.push(String::from_str("-t"));
    rename.push(String::from_str(window));
    if windows.len() == 0 {
        rename.push(String::from_str("shell"));
        proof {
            reveal_strlit("shell");
            assert("shell"@ =~= crate::config::shell_text());
        }
    } else {
        rename.push(windows[0].name.clone());
        assert(ws[0] == windows@[0]@);
    }
    assert(texts(rename@) =~= want[0]);
    r.push(rename);
    let ghost opts = Seq::new(meta.len(), |k: int| option_args(session@, meta[k].0, meta[k].1));
    let mut i: usize = 0;
    while i < metadata.len()
        invariant
            i <= metadata@.len(),
            meta == pair_views(metadata@),
            opts == Seq::new(meta.len(), |k: int| option_args(session@, meta[k].0, meta[k].1)),
            argvs(r@) == seq![want[0]] + opts.take(i as int),
        decreases metadata@.len() - i,
    {
        let command = option_command(session, metadata[i].0.as_str(), metadata[i].1.as_str());
        let ghost before = r@;
        r.push(command);
        assert(argvs(r@) =~= argvs(before).push(texts(command@)));
        assert(opts.take(i + 1) =~= opts.take(i as int).push(opts[i as int]));
        i = i + 1;
    }
    assert(opts.take(i as int) =~= opts);
    let empty: Vec<Pane> = Vec::new();
    let panes = if windows.len() == 0 {
        &empty
    } else {
        &windows[0].panes
    };
    assert(crate::config::pane_views(panes@) =~= first_window(ws).panes);
    let mut more = split_commands(window, cwd_arg, panes);
    let ghost head = r@;
    let ghost tail = more@;
    r.append(&mut more);
    assert(argvs(r@) =~= argvs(head) + argvs(tail));
    assert(argvs(r@) =~= want);
    r
}


/// A failure as the contracts see it.
pub enum TmuxErrorView {
    Command(Seq<char>),
    InvalidSessionData,
    InvalidActivity,
    MissingIds,
}

impl View for TmuxError {
    type V = TmuxErrorView;

    open spec fn view(&self) -> TmuxErrorView {
        match self {
            TmuxError::Command(m) => TmuxErrorView::Command(m@),
            TmuxError::InvalidSessionData => TmuxErrorView::InvalidSessionData,
            TmuxError::InvalidActivity => TmuxErrorView::InvalidActivity,
            TmuxError::MissingIds => TmuxErrorView::MissingIds,
        }
    }
}

/// How far the creation of a session has come.
#[derive(Clone, Copy, Debug, PartialEq, Eq, Structural)]
pub enum Stage {
    /// `new-session` is running.
    Opening,
    /// The session exists; its windows, metadata and panes are being set up.
    Building,
    /// A command failed after the session was created; it is being killed.
    RollingBack,
    /// Nothing more to run.
    Over,
}

/// What the caller does next while a session is created.
#[derive(Debug)]
pub enum CreateAction {
    /// Run tmux with these arguments and report the outcome to `Creation::step`.
    Run(Vec<String>),
    /// Creation is over: the new session's id, or why it failed.
    Finished(Result<String, TmuxError>),
}

/// An action as the contracts see it.
pub enum CreateActionView {
    Run(Seq<Seq<char>>),
    Finished(Result<Seq<char>, TmuxErrorView>),
}

impl View for CreateAction {
    type V = CreateActionView;

    open spec fn view(&self) -> CreateActionView {
        match self {
            CreateAction::Run(a) => CreateActionView::Run(texts(a@)),
            CreateAction::Finished(Ok(s)) => CreateActionView::Finished(Ok(s@)),
            CreateAction::Finished(Err(e)) => CreateActionView::Finished(Err(e@)),
        }
    }
}

/// The state of a session being created, between tmux commands.
pub struct CreationView {
    /// Arguments that select tmux's configuration file and socket.
    pub prefix: Seq<Seq<char>>,
    /// The session's working directory.
    pub cwd: Seq<char>,
    /// The layout's windows.
    pub windows: Seq<WindowView>,
    /// The options stored on the session, as key and value.
    pub metadata: Seq<(Seq<char>, Seq<char>)>,
    pub stage: Stage,
    /// The new session's id, once tmux reported it.
    pub session: Seq<char>,
    /// Commands still to run before the next window.
    pub pending: Seq<Seq<Seq<char>>>,
    /// The next later window to open.
    pub next_window: int,
    /// Whether the last command opened a window, whose id its output is.
    pub awaiting: bool,
    /// The message of the failure being rolled back.
    pub failure: Seq<char>,
}

/// The ids that `new-session` printed: session and window, separated by a tab.
pub open spec fn created_ids(out: Seq<char>) -> Option<(Seq<char>, Seq<char>)> {
    split_once(trim_end(out), '\t')
}

/// Runs the next pending command, else opens the next window, else ends with the session.
pub open spec fn issue(v: CreationView) -> (CreationView, CreateActionView) {
    if v.pending.len() > 0 {
        (
            CreationView { pending: v.pending.drop_first(), ..v },
            CreateActionView::Run(v.prefix + v.pending[0]),
        )
    } else if 0 <= v.next_window < v.windows.len() {
        (
            CreationView { next_window: v.next_window + 1, awaiting: true, ..v },
            CreateActionView::Run(
                v.prefix + new_window_args(
                    v.session,
                    v.windows[v.next_window],
                    tmux_path_text(v.cwd),
                ),
            ),
        )
    } else {
        (CreationView { stage: Stage::Over, ..v }, CreateActionView::Finished(Ok(v.session)))
    }
}

/// The next state and action after tmux answered the last command (`Ok` with its output, or
/// `Err` with its failure). A failure before the session exists ends creation; a failure after
/// it kills the session first. The session is named, stores Grove's metadata, and gets its
/// windows in layout order, each split into its panes.
pub open spec fn advance(v: CreationView, reply: Result<Seq<char>, Seq<char>>) -> (
    CreationView,
    CreateActionView,
) {
    match v.stage {
        Stage::Opening => match reply {
            Err(e) => (
                CreationView { stage: Stage::Over, ..v },
                CreateActionView::Finished(Err(TmuxErrorView::Command(e))),
            ),
            Ok(out) => match created_ids(out) {
                None => (
                    CreationView { stage: Stage::Over, ..v },
                    CreateActionView::Finished(Err(TmuxErrorView::MissingIds)),
                ),
                Some((s, w)) => issue(
                    CreationView {
                        stage: Stage::Building,
                        session: s,
                        pending: setup_commands(
                            s,
                            w,
                            v.metadata,
                            v.windows,
                            tmux_path_text(v.cwd),
                        ),
                        next_window: 1,
                        awaiting: false,
                        ..v
                    },
                ),
            },
        },
        Stage::Building => match reply {
            Err(e) => (
                CreationView { stage: Stage::RollingBack, failure: e, ..v },
                CreateActionView::Run(v.prefix + seq!["kill-session"@, "-t"@, v.session]),
            ),
            Ok(out) => issue(
                if v.awaiting {
                    CreationView {
                        pending: splits(
                            trim_end(out),
                            tmux_path_text(v.cwd),
                            v.windows[v.next_window - 1].panes,
                        ),
                        awaiting: false,
                        ..v
                    }
                } else {
                    v
                },
            ),
        },
        _ => (
            CreationView { stage: Stage::Over, ..v },
            CreateActionView::Finished(Err(TmuxErrorView::Command(v.failure))),
        ),
    }
}

/// A reply's texts.
pub open spec fn reply_view(reply: Result<String, String>) -> Result<Seq<char>, Seq<char>> {
    match reply {
        Ok(s) => Ok(s@),
        Err(e) => Err(e@),
    }
}

/// A session being created (see `advance`).
pub struct Creation {
    prefix: Vec<String>,
    cwd: String,
    windows: Vec<Window>,
    metadata: Vec<(String, String)>,
    cwd_arg: String,
    stage: Stage,
    session: String,
    pending: Vec<Vec<String>>,
    next: usize,
    next_window: usize,
    awaiting: bool,
    failure: String,
}

impl View for Creation {
    type V = CreationView;

    closed spec fn view(&self) -> CreationView {
        CreationView {
            prefix: texts(self.prefix@),
            cwd: self.cwd@,
            windows: window_views(self.windows@),
            metadata: pair_views(self.metadata@),
            stage: self.stage,
            session: self.session@,
            pending: argvs(self.pending@).skip(self.next as int),
            next_window: self.next_window as int,
            awaiting: self.awaiting,
            failure: self.failure@,
        }
    }
}

fn prefixed(prefix: &Vec<String>, args: &Vec<String>) -> (r: Vec<String>)
    ensures
        texts(r@) == texts(prefix@) + texts(args@),
{
    let mut r = clone_strings(prefix);
    let mut more = clone_strings(args);
    let ghost a = r@;
    let ghost b = more@;
    r.append(&mut more);
    assert(texts(r@) =~= texts(a) + texts(b));
    r
}

impl Creation {
    /// The state is consistent: pending commands are in range, a window being awaited was opened.
    pub closed spec fn wf(&self) -> bool {
        &&& self.next <= self.pending@.len()
        &&& self.cwd_arg@ == tmux_path_text(self.cwd@)
        &&& self.awaiting ==> 1 <= self.next_window <= self.windows@.len()
    }

    fn issue(self) -> (r: (Creation, CreateAction))
        requires
            self.wf(),
        ensures
            r.0.wf(),
            (r.0@, r.1@) == issue(self@),
    {
        let mut c = self;
        let ghost v = c@;
        if c.next < c.pending.len() {
            let ghost rest = argvs(c.pending@).skip(c.next as int);
            assert(rest[0] == texts(c.pending@[c.next as int]@));
            let action = prefixed(&c.prefix, &c.pending[c.next]);
            c.next = c.next + 1;
            assert(argvs(c.pending@).skip(c.next as int) =~= rest.drop_first());
            assert(c@ == CreationView { pending: v.pending.drop_first(), ..v });
            (c, CreateAction::Run(action))
        } else if c.next_window < c.windows.len() {
            assert(argvs(c.pending@).skip(c.next as int).len() == 0);
            let mut args: Vec<String> = Vec::new();
            args.push(String::from_str("new-window"));
            args.push(String::from_str("-d"));
            args.push(String::from_str("-P"));
            args.push(String::from_str("-F"));
            args.push(String::from_str("#{window_id}"));
            args.push(String::from_str("-t"));
            args.push(c.session.clone());
            args.push(String::from_str("-n"));
            args.push(c.windows[c.next_window].name.clone());
            args.push(String::from_str("-c"));
            args.push(c.cwd_arg.clone());
            let ghost w = c.windows@[c.next_window as int]@;
            assert(v.windows[v.next_window] == w);
            assert(texts(args@) =~= seq![
                "new-window"@,
                "-d"@,
                "-P"@,
                "-F"@,
                "#{window_id}"@,
                "-t"@,
                v.session,
                "-n"@,
                w.name,
                "-c"@,
                tmux_path_text(v.cwd),
            ]);
            push_first_pane(&mut args, &c.windows[c.next_window]);
            let action = prefixed(&c.prefix, &args);
            c.next_window = c.next_window + 1;
            c.awaiting = true;
            (c, CreateAction::Run(action))
        } else {
            assert(argvs(c.pending@).skip(c.next as int).len() == 0);
            c.stage = Stage::Over;
            let s = c.session.clone();
            (c, CreateAction::Finished(Ok(s)))
        }
    }

    /// Takes tmux's answer to the last command run and says what to do next (see `advance`).
    pub fn step(self, reply: Result<String, String>) -> (r: (Creation, CreateAction))
        requires
            self.wf(),
            self@.stage != Stage::Over,
        ensures
            r.0.wf(),
            (r.0@, r.1@) == advance(self@, reply_view(reply)),
    {
        let mut c = self;
        let ghost v = c@;
        match c.stage {
            Stage::Opening => match reply {
                Err(e) => {
                    c.stage = Stage::Over;
                    (c, CreateAction::Finished(Err(TmuxError::Command(e))))
                },
                Ok(out) => {
                    let t = trim_end_chars(chars_of(out.as_str()).as_slice());
                    match find_char(t.as_slice(), '\t', 0) {
                        None => {
                            assert(t@.skip(0) =~= t@);
                            c.stage = Stage::Over;
                            (c, CreateAction::Finished(Err(TmuxError::MissingIds)))
                        },
                        Some(j) => {
                            let n = t.len();
                            assert(j < n);
                            let s = string_of(slice_chars(t.as_slice(), 0, j).as_slice());
                            let w = string_of(slice_chars(t.as_slice(), j + 1, n).as_slice());
                            proof {
                                assert(t@.skip(0) =~= t@);
                                assert(s@ =~= t@.take(j as int));
                                assert(w@ =~= t@.skip(j + 1));
                                assert(created_ids(out@) == Some((s@, w@)));
                            }
                            let setup = setup_command_list(
                                s.as_str(),
                                w.as_str(),
                                &c.metadata,
                                &c.windows,
                                c.cwd_arg.as_str(),
                            );
                            c.stage = Stage::Building;
                            c.session = s;
                            c.pending = setup;
                            c.next = 0;
                            c.next_window = 1;
                            c.awaiting = false;
                            assert(argvs(c.pending@).skip(0) =~= argvs(c.pending@));
                            assert(c@ == CreationView {
                                stage: Stage::Building,
                                session: s@,
                                pending: setup_commands(
                                    s@,
                                    w@,
                                    v.metadata,
                                    v.windows,
                                    tmux_path_text(v.cwd),
                                ),
                                next_window: 1,
                                awaiting: false,
                                ..v
                            });
                            c.issue()
                        },
                    }
                },
            },
            Stage::Building => match reply {
                Err(e) => {
                    let mut args: Vec<String> = Vec::new();
                    args.push(String::from_str("kill-session"));
                    args.push(String::from_str("-t"));
                    args.push(c.session.clone());
                    let action = prefixed(&c.prefix, &args);
                    assert(texts(args@) =~= seq!["kill-session"@, "-t"@, v.session]);
                    c.stage = Stage::RollingBack;
                    c.failure = e;
                    (c, CreateAction::Run(action))
                },
                Ok(out) => {
                    if c.awaiting {
                        let id = trim_end_chars(chars_of(out.as_str()).as_slice());
                        let id = string_of(id.as_slice());
                        let more = split_commands(
                            id.as_str(),
                            c.cwd_arg.as_str(),
                            &c.windows[c.next_window - 1].panes,
                        );
                        assert(v.windows[v.next_window - 1] == c.windows@[c.next_window - 1]@);
                        c.pending = more;
                        c.next = 0;
                        c.awaiting = false;
                        assert(argvs(c.pending@).skip(0) =~= argvs(c.pending@));
                        assert(c@ == CreationView {
                            pending: splits(
                                trim_end(out@),
                                tmux_path_text(v.cwd),
                                v.windows[v.next_window - 1].panes,
                            ),
                            awaiting: false,
                            ..v
                        });
                    }
                    c.issue()
                },
            },
            _ => {
                c.stage = Stage::Over;
                let f = c.failure.clone();
                (c, CreateAction::Finished(Err(TmuxError::Command(f))))
            },
        }
    }
}

impl Tmux {
    /// Starts creating session `name` in `cwd` with layout `windows` and options `metadata`: the
    /// state, and the `new-session` command to run first.
    fn start_creation(
        &self,
        name: &str,
        cwd: String,
        windows: Vec<Window>,
        metadata: Vec<(String, String)>,
    ) -> (r: (Creation, Vec<String>))
        ensures
            r.0.wf(),
            r.0@ == (CreationView {
                prefix: self.prefix(),
                cwd: cwd@,
                windows: window_views(windows@),
                metadata: pair_views(metadata@),
                stage: Stage::Opening,
                session: seq![],
                pending: seq![],
                next_window: 0,
                awaiting: false,
                failure: seq![],
            }),
            texts(r.1@) == self.prefix() + new_session_args(
                name@,
                tmux_path_text(cwd@),
                first_window(window_views(windows@)),
            ),
    {
        let none: Vec<String> = Vec::new();
        assert(texts(none@) =~= Seq::<Seq<char>>::empty());
        let prefix = self.argv(none);
        assert(texts(prefix@) =~= self.prefix());
        let cwd_arg = tmux_path(cwd.as_str());
        let mut args: Vec<String> = Vec::new();
        args.push(String::from_str("new-session"));
        args.push(String::from_str("-d"));
        args.push(String::from_str("-P"));
        args.push(String::from_str("-F"));
        args.push(String::from_str("#{session_id}\t#{window_id}"));
        args.push(String::from_str("-s"));
        args.push(String::from_str(name));
        args.push(String::from_str("-c"));
        args.push(cwd_arg.clone());
        assert(texts(args@) =~= seq![
            "new-session"@,
            "-d"@,
            "-P"@,
            "-F"@,
            "#{session_id}\t#{window_id}"@,
            "-s"@,
            name@,
            "-c"@,
            cwd_arg@,
        ]);
        let ghost ws = window_views(windows@);
        if windows.len() > 0 {
            assert(first_window(ws) == windows@[0]@);
            push_first_pane(&mut args, &windows[0]);
        } else {
            assert(first_window(ws).panes.len() == 0);
            assert(texts(args@) =~= texts(args@) + first_pane_args(first_window(ws)));
        }
        let command = prefixed(&prefix, &args);
        let c = Creation {
            prefix,
            cwd,
            windows,
            metadata,
            cwd_arg,
            stage: Stage::Opening,
            session: String::new(),
            pending: Vec::new(),
            next: 0,
            next_window: 0,
            awaiting: false,
            failure: String::new(),
        };
        assert(argvs(c.pending@).skip(0) =~= Seq::<Seq<Seq<char>>>::empty());
        (c, command)
    }

    /// Starts creating session `name` for `checkout` with layout `preset`, storing Grove's
    /// metadata on it: the state, and the `new-session` command to run first.
    pub fn create(&self, name: &str, checkout: &Checkout, preset: &Preset) -> (r: (
        Creation,
        Vec<String>,
    ))
        ensures
            r.0.wf(),
            r.0@ == (CreationView {
                prefix: self.prefix(),
                cwd: checkout@.worktree,
                windows: preset@.windows,
                metadata: session_metadata(checkout@),
                stage: Stage::Opening,
                session: seq![],
                pending: seq![],
                next_window: 0,
                awaiting: false,
                failure: seq![],
            }),
            texts(r.1@) == self.prefix() + new_session_args(
                name@,
                tmux_path_text(checkout@.worktree),
                first_window(preset@.windows),
            ),
    {
        let p = preset.clone();
        self.start_creation(name, checkout.worktree.clone(), p.windows, metadata_of(checkout))
    }

    /// Starts creating a configured default session, with no Grove metadata: the state, and the
    /// `new-session` command to run first.
    pub fn create_default(&self, default: &DefaultSession) -> (r: (Creation, Vec<String>))
        ensures
            r.0.wf(),
            r.0@ == (CreationView {
                prefix: self.prefix(),
                cwd: default@.cwd,
                windows: default@.windows,
                metadata: seq![],
                stage: Stage::Opening,
                session: seq![],
                pending: seq![],
                next_window: 0,
                awaiting: false,
                failure: seq![],
            }),
            texts(r.1@) == self.prefix() + new_session_args(
                default@.name,
                tmux_path_text(default@.cwd),
                first_window(default@.windows),
            ),
    {
        let none: Vec<(String, String)> = Vec::new();
        assert(pair_views(none@) =~= Seq::<(Seq<char>, Seq<char>)>::empty());
        self.start_creation(
            default.name.as_str(),
            default.cwd.clone(),
            clone_windows(&default.windows),
            none,
        )
    }
}

/// Once tmux has reported the new session, a failed command makes creation kill exactly that
/// session, then end with that failure whatever the kill answered.
pub proof fn lemma_failure_rolls_back(
    v: CreationView,
    e: Seq<char>,
    kill_reply: Result<Seq<char>, Seq<char>>,
)
    requires
        v.stage == Stage::Building,
    ensures
        advance(v, Err(e)).1 == CreateActionView::Run(
            v.prefix + seq!["kill-session"@, "-t"@, v.session],
        ),
        advance(advance(v, Err(e)).0, kill_reply).1 == CreateActionView::Finished(
            Err(TmuxErrorView::Command(e)),
        ),
        advance(advance(v, Err(e)).0, kill_reply).0.stage == Stage::Over,
{
}

/// When `new-session` fails, or prints no ids, creation ends at once with that failure and
/// kills nothing.
pub proof fn lemma_failed_opening_kills_nothing(v: CreationView, reply: Result<Seq<char>, Seq<char>>)
    requires
        v.stage == Stage::Opening,
        reply is Err || created_ids(reply->Ok_0) is None,
    ensures
        advance(v, reply).0.stage == Stage::Over,
        advance(v, reply).1 == CreateActionView::Finished(
            Err(
                match reply {
                    Err(e) => TmuxErrorView::Command(e),
                    Ok(_) => TmuxErrorView::MissingIds,
                },
            ),
        ),
{
}

/// A creation that ends well answers with the session id that `new-session` printed.
pub proof fn lemma_success_names_the_session(v: CreationView, reply: Result<Seq<char>, Seq<char>>)
    requires
        v.stage != Stage::Over,
        advance(v, reply).1 matches CreateActionView::Finished(Ok(_)),
    ensures
        advance(v, reply).1 == CreateActionView::Finished(Ok(advance(v, reply).0.session)),
        v.stage == Stage::Opening ==> (reply matches Ok(out) && created_ids(out) matches Some(
            ids,
        ) && advance(v, reply).0.session == ids.0),
        v.stage == Stage::Building ==> advance(v, reply).0.session == v.session,
{
}

/// Sorts sessions so that the most recently active come first; equally recent ones keep their
/// order.
pub fn recent_first(sessions: &mut Vec<Session>)
    ensures
        recent_first_order(session_views(final(sessions)@), session_views(old(sessions)@)),
{
    let mut taken: Vec<Session> = Vec::new();
    std::mem::swap(&mut taken, sessions);
    let ghost inp = taken@;
    let ghost done = session_views(taken@);
    let mut keys: Vec<u64> = Vec::new();
    let mut i: usize = 0;
    while i < taken.len()
        invariant
            i <= taken@.len(),
            inp == taken@,
            done == session_views(taken@),
            keys@ == activities(done).take(i as int),
        decreases taken@.len() - i,
    {
        keys.push(taken[i].activity);
        assert(activities(done).take(i + 1) =~= activities(done).take(i as int).push(
            done[i as int].activity,
        ));
        i = i + 1;
    }
    assert(activities(done).take(i as int) =~= activities(done));
    let sorted = sort_by_number_desc(taken, keys);
    proof {
        let perm = choose|perm: Seq<int>|
            stable_sorted_by_number_desc(sorted@, inp, activities(done), perm);
        assert(stable_sorted_by_number_desc(session_views(sorted@), done, activities(done), perm))
            by {
            assert forall|k: int| 0 <= k < perm.len() implies #[trigger] session_views(sorted@)[k]
                == done[perm[k]] by {
                assert(sorted@[k] == inp[perm[k]]);
            }
        }
    }
    *sessions = sorted;
}

impl Tmux {
    /// The tmux invocation that kills session `id`.
    pub fn kill_session(&self, id: &str) -> (r: Vec<String>)
        ensures
            texts(r@) == self.prefix() + seq!["kill-session"@, "-t"@, id@],
    {
        let mut args: Vec<String> = Vec::new();
        args.push(String::from_str("kill-session"));
        args.push(String::from_str("-t"));
        args.push(String::from_str(id));
        assert(texts(args@) =~= seq!["kill-session"@, "-t"@, id@]);
        self.argv(args)
    }

    /// The tmux invocation that shows session `id`: switch the client from inside tmux, attach
    /// from outside.
    pub fn navigate(&self, id: &str, inside_tmux: bool) -> (r: Vec<String>)
        ensures
            texts(r@) == self.prefix() + seq![
                if inside_tmux {
                    "switch-client"@
                } else {
                    "attach-session"@
                },
                "-t"@,
                id@,
            ],
    {
        let mut args: Vec<String> = Vec::new();
        if inside_tmux {
            args.push(String::from_str("switch-client"));
        } else {
            args.push(String::from_str("attach-session"));
        }
        args.push(String::from_str("-t"));
        args.push(String::from_str(id));
        assert(texts(args@) =~= seq![
            if inside_tmux {
                "switch-client"@
            } else {
                "attach-session"@
            },
            "-t"@,
            id@,
        ]);
        self.argv(args)
    }

    /// The tmux invocation that prints the id of the current session: the one holding pane
    /// `pane` when the pane is known, else the client's.
    pub fn current_session_args(&self, pane: Option<&str>) -> (r: Vec<String>)
        ensures
            texts(r@) == self.prefix() + seq!["display-message"@, "-p"@] + (match pane {
                Some(p) => seq!["-t"@, p@],
                None => seq![],
            }) + seq!["#{session_id}"@],
    {
        let mut args: Vec<String> = Vec::new();
        args.push(String::from_str("display-message"));
        args.push(String::from_str("-p"));
        if let Some(p) = pane {
            args.push(String::from_str("-t"));
            args.push(String::from_str(p));
        }
        args.push(String::from_str("#{session_id}"));
        assert(texts(args@) =~= seq!["display-message"@, "-p"@] + (match pane {
            Some(p) => seq!["-t"@, p@],
            None => seq![],
        }) + seq!["#{session_id}"@]);
        self.argv(args)
    }

    /// The current session's id from what `display-message` printed, white space trimmed.
    pub fn current_session(output: &str) -> (r: String)
        ensures
            r@ == trim(output@),
    {
        string_of(trim_chars(chars_of(output).as_slice()).as_slice())
    }
}


impl Tmux {
}


/// Fields joined by `:`, as tmux prints a line of the session listing.
pub open spec fn joined(fields: Seq<Seq<char>>) -> Seq<char>
    decreases fields.len(),
{
    if fields.len() == 0 {
        seq![]
    } else if fields.len() == 1 {
        fields[0]
    } else {
        fields[0] + seq![':'] + joined(fields.drop_first())
    }
}

/// How a stored option appears in the listing: its hexadecimal text, or nothing when unset.
pub open spec fn stored_field(v: Option<Seq<char>>) -> Seq<char> {
    match v {
        Some(x) => hex_text(encode_utf8(x)),
        None => seq![],
    }
}

/// The listing line that tmux prints, in `listing_format`, for a session with Grove's options.
pub open spec fn listing_line(s: SessionView) -> Seq<char> {
    joined(
        seq![
            s.id,
            s.name,
            stored_field(s.repo),
            stored_field(s.worktree),
            stored_field(s.label_meta),
            stored_field(s.name_meta),
            stored_field(s.branch),
            crate::text::decimal(s.activity as nat),
        ],
    )
}

proof fn lemma_split_joined(fields: Seq<Seq<char>>, n: nat)
    requires
        n >= 1,
        fields.len() == n,
        forall|i: int| 0 <= i < n - 1 ==> !(#[trigger] fields[i]).contains(':'),
    ensures
        split_n(joined(fields), ':', n) == fields,
    decreases n,
{
    if n == 1 {
        assert(split_n(joined(fields), ':', n) =~= fields);
    } else {
        let f0 = fields[0];
        let rest = fields.drop_first();
        let line = joined(fields);
        assert(line == f0 + seq![':'] + joined(rest));
        assert forall|k: int| 0 <= k < f0.len() implies line[k] != ':' by {
            assert(line[k] == f0[k]);
            assert(f0.contains(f0[k]));
        }
        assert(line[f0.len() as int] == ':');
        crate::text::lemma_index_of_is(line, ':', f0.len() as int);
        assert(line.take(f0.len() as int) =~= f0);
        assert(line.skip(f0.len() + 1int) =~= joined(rest));
        assert forall|i: int| 0 <= i < n - 2 implies !(#[trigger] rest[i]).contains(':') by {
            assert(rest[i] == fields[i + 1]);
        }
        lemma_split_joined(rest, (n - 1) as nat);
        assert(split_n(line, ':', n) =~= fields);
    }
}

proof fn lemma_stored_field_has_no_colon(v: Option<Seq<char>>)
    ensures
        !stored_field(v).contains(':'),
{
    if let Some(x) = v {
        let b = encode_utf8(x);
        let h = hex_text(b);
        lemma_hex_text(b);
        assert forall|i: int| 0 <= i < h.len() implies h[i] != ':' by {
            let j = i / 2;
            if i % 2 == 0 {
                assert(i == 2 * j);
                lemma_hex_char_value((b[j] / 16) as nat);
            } else {
                assert(i == 2 * j + 1);
                lemma_hex_char_value((b[j] % 16) as nat);
            }
        }
    }
}

proof fn lemma_stored_field_reads_back(v: Option<Seq<char>>)
    requires
        v matches Some(x) ==> x.len() > 0,
    ensures
        meta_field(stored_field(v)) == v,
{
    if let Some(x) = v {
        lemma_stored_metadata_reads_back(x);
    }
}

/// The session listing gives back what Grove stored: the line tmux prints for a session (whose id
/// and name hold no `:`, and whose stored values are not empty) reads as that session.
pub proof fn lemma_listing_reads_back(s: SessionView)
    requires
        !s.id.contains(':'),
        !s.name.contains(':'),
        s.repo matches Some(x) ==> x.len() > 0,
        s.worktree matches Some(x) ==> x.len() > 0,
        s.label_meta matches Some(x) ==> x.len() > 0,
        s.name_meta matches Some(x) ==> x.len() > 0,
        s.branch matches Some(x) ==> x.len() > 0,
    ensures
        parse_session_line(listing_line(s)) == Ok::<SessionView, ListingFault>(s),
{
    let fields = seq![
        s.id,
        s.name,
        stored_field(s.repo),
        stored_field(s.worktree),
        stored_field(s.label_meta),
        stored_field(s.name_meta),
        stored_field(s.branch),
        crate::text::decimal(s.activity as nat),
    ];
    lemma_stored_field_has_no_colon(s.repo);
    lemma_stored_field_has_no_colon(s.worktree);
    lemma_stored_field_has_no_colon(s.label_meta);
    lemma_stored_field_has_no_colon(s.name_meta);
    lemma_stored_field_has_no_colon(s.branch);
    lemma_split_joined(fields, 8);
    lemma_stored_field_reads_back(s.repo);
    lemma_stored_field_reads_back(s.worktree);
    lemma_stored_field_reads_back(s.label_meta);
    lemma_stored_field_reads_back(s.name_meta);
    lemma_stored_field_reads_back(s.branch);
    crate::text::lemma_decimal_reads_back(s.activity as nat, u64::MAX as nat);
}

/// The session that tmux lists for a session created for checkout `c` (with tmux's `id`, `name`
/// and `activity`): it holds the metadata options that `session_metadata(c)` stores.
pub open spec fn created_session(id: Seq<char>, name: Seq<char>, c: CheckoutView, activity: u64) -> SessionView {
    SessionView {
        id,
        name,
        repo: Some(c.repo),
        worktree: Some(c.worktree),
        label_meta: Some(crate::git::checkout_name(c) + gap() + c.worktree),
        name_meta: Some(crate::git::checkout_name(c)),
        branch: crate::git::shown_branch(c),
        activity,
    }
}

/// A session created for a checkout reads back from the next listing as it was stored: its
/// options are exactly the metadata written for the checkout, the listing line parses back to
/// the session, and the session is shown with the checkout's own label and picker columns.
pub proof fn lemma_created_session_reads_back(
    id: Seq<char>,
    name: Seq<char>,
    c: CheckoutView,
    activity: u64,
    nerd_fonts: bool,
)
    requires
        !id.contains(':'),
        !name.contains(':'),
        c.repo.len() > 0,
        c.worktree.len() > 0,
        crate::git::checkout_name(c).len() > 0,
        crate::git::shown_branch(c) matches Some(b) ==> b.len() > 0,
    ensures
        ({
            let s = created_session(id, name, c, activity);
            &&& session_metadata(c) == seq![
                ("@grove_repo"@, s.repo.unwrap()),
                ("@grove_worktree"@, s.worktree.unwrap()),
                ("@grove_label"@, s.label_meta.unwrap()),
                ("@grove_name"@, s.name_meta.unwrap()),
            ] + match s.branch {
                Some(b) => seq![("@grove_branch"@, b)],
                None => seq![],
            }
            &&& parse_session_line(listing_line(s)) == Ok::<SessionView, ListingFault>(s)
            &&& session_label(s, nerd_fonts) == crate::git::repository_label(
                crate::git::RepositoryView::Checkout(c),
                nerd_fonts,
            )
            &&& session_columns(s, nerd_fonts) == crate::git::repository_columns(
                crate::git::RepositoryView::Checkout(c),
                nerd_fonts,
            )
        }),
{
    let s = created_session(id, name, c, activity);
    assert((crate::git::checkout_name(c) + gap() + c.worktree).len() > 0);
    lemma_listing_reads_back(s);
    let rest = match s.branch {
        Some(b) => seq![("@grove_branch"@, b)],
        None => seq![],
    };
    assert(session_metadata(c) =~= seq![
        ("@grove_repo"@, s.repo.unwrap()),
        ("@grove_worktree"@, s.worktree.unwrap()),
        ("@grove_label"@, s.label_meta.unwrap()),
        ("@grove_name"@, s.name_meta.unwrap()),
    ] + rest);
    assert(session_columns(s, nerd_fonts) =~= crate::git::repository_columns(
        crate::git::RepositoryView::Checkout(c),
        nerd_fonts,
    ));
}

} // verus!
