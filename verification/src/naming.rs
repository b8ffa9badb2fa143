//! Session names: readable, accepted by tmux, and never taken twice.
use vstd::prelude::*;

use crate::external::{sha256, sha256_digest};
use crate::git::{worktree_file_name, Checkout, CheckoutView};
use crate::path::file_name_of;
use crate::text::{
    char_is_control, chars_of, decimal, is_control, lemma_decimal_injective, push_all,
    push_decimal, string_of, texts, texts_contain,
};
use crate::tmux::hex_text;
use vstd::utf8::encode_utf8;

verus! {

/// A session-name character: `:`, `.` and control characters, which tmux refuses, become `-`.
pub open spec fn clean_char(c: char) -> char {
    if c == ':' || c == '.' || is_control(c) {
        '-'
    } else {
        c
    }
}

/// `value` made fit for a session name, or `fallback` when it is empty.
pub open spec fn clean(value: Seq<char>, fallback: Seq<char>) -> Seq<char> {
    if value.len() == 0 {
        fallback
    } else {
        value.map_values(|c: char| clean_char(c))
    }
}

/// The name a new session for `c` takes when it is free: the repository name, and for a linked
/// worktree `/` and the worktree's directory name (`worktree` when it has none that is valid
/// Unicode).
pub open spec fn base_session_name(c: CheckoutView) -> Seq<char> {
    clean(c.repo_name, "repo"@) + if c.linked {
        seq!['/'] + clean(
            match worktree_file_name(c) {
                Some(n) => n,
                None => seq![],
            },
            "worktree"@,
        )
    } else {
        seq![]
    }
}

/// The base name followed by `-` and the first ten hexadecimal digits of `digest`.
pub open spec fn hashed_name_with(c: CheckoutView, digest: Seq<u8>) -> Seq<char> {
    base_session_name(c) + seq!['-'] + hex_text(digest).take(10)
}

/// The base name followed by `-` and the first ten hexadecimal digits of the SHA-256 digest of
/// the worktree path.
pub open spec fn hashed_session_name(c: CheckoutView) -> Seq<char> {
    hashed_name_with(c, sha256(encode_utf8(c.worktree)))
}

/// The `k`-th name tried after the base name: the hashed name, then it with `-2`, `-3`, ...
pub open spec fn candidate_name(stem: Seq<char>, k: nat) -> Seq<char> {
    if k == 0 {
        stem
    } else {
        stem + seq!['-'] + decimal(k + 1)
    }
}

/// Whether candidate `k` is the first free one: it is not taken, all before it are.
pub open spec fn first_free(stem: Seq<char>, occ: Seq<Seq<char>>, k: nat) -> bool {
    !occ.contains(candidate_name(stem, k)) && forall|j: nat|
        j < k ==> occ.contains(#[trigger] candidate_name(stem, j))
}

/// The name a new session for `c` takes when the names `occ` are taken and the worktree path's
/// digest is `digest`: its base name when free, else the first free candidate after it.
pub open spec fn session_name_with(c: CheckoutView, occ: Seq<Seq<char>>, digest: Seq<u8>) -> Seq<
    char,
> {
    if !occ.contains(base_session_name(c)) {
        base_session_name(c)
    } else {
        candidate_name(
            hashed_name_with(c, digest),
            choose|k: nat| first_free(hashed_name_with(c, digest), occ, k),
        )
    }
}

/// The name a new session for `c` takes when the names `occ` are taken (see
/// `session_name_with`, with the SHA-256 digest of the worktree path).
pub open spec fn session_name_for(c: CheckoutView, occ: Seq<Seq<char>>) -> Seq<char> {
    session_name_with(c, occ, sha256(encode_utf8(c.worktree)))
}

proof fn lemma_first_free_unique(stem: Seq<char>, occ: Seq<Seq<char>>, a: nat, b: nat)
    requires
        first_free(stem, occ, a),
        first_free(stem, occ, b),
    ensures
        a == b,
{
    if a < b {
        assert(occ.contains(candidate_name(stem, a)));
    } else if b < a {
        assert(occ.contains(candidate_name(stem, b)));
    }
}

fn clean_chars(value: &[char], fallback: &str) -> (r: Vec<char>)
    ensures
        r@ == clean(value@, fallback@),
{
    if value.len() == 0 {
        return chars_of(fallback);
    }
    let mut out: Vec<char> = Vec::new();
    let mut i: usize = 0;
    while i < value.len()
        invariant
            i <= value@.len(),
            out@ == value@.take(i as int).map_values(|c: char| clean_char(c)),
        decreases value@.len() - i,
    {
        let c = value[i];
        if c == ':' || c == '.' || char_is_control(c) {
            out.push('-');
        } else {
            out.push(c);
        }
        i = i + 1;
        assert(out@ =~= value@.take(i as int).map_values(|c: char| clean_char(c)));
    }
    assert(value@.take(value@.len() as int) =~= value@);
    out
}

proof fn lemma_candidates_distinct(stem: Seq<char>, j: nat, k: nat)
    requires
        j != k,
    ensures
        candidate_name(stem, j) != candidate_name(stem, k),
{
    if j != 0 && k != 0 && candidate_name(stem, j) == candidate_name(stem, k) {
        let a = candidate_name(stem, j);
        let b = candidate_name(stem, k);
        assert(a.skip(stem.len() + 1int) =~= decimal(j + 1));
        assert(b.skip(stem.len() + 1int) =~= decimal(k + 1));
        lemma_decimal_injective(j + 1, k + 1);
    } else if j == 0 && k != 0 {
        assert(candidate_name(stem, k).len() > stem.len());
    } else if k == 0 && j != 0 {
        assert(candidate_name(stem, j).len() > stem.len());
    }
}

/// When the first `k + 1` candidates are all taken, there are at least `k + 1` names taken.
proof fn lemma_taken_bound(stem: Seq<char>, occ: Seq<Seq<char>>, k: nat)
    requires
        forall|j: nat| j <= k ==> occ.contains(#[trigger] candidate_name(stem, j)),
    ensures
        k + 1 <= occ.len(),
{
    let cands = Seq::new(k + 1, |j: int| candidate_name(stem, j as nat));
    assert(cands.no_duplicates()) by {
        assert forall|a: int, b: int| 0 <= a < cands.len() && 0 <= b < cands.len() && a != b implies cands[a]
            != cands[b] by {
            lemma_candidates_distinct(stem, a as nat, b as nat);
        }
    }
    cands.unique_seq_to_set();
    assert(cands.to_set().subset_of(occ.to_set())) by {
        assert forall|x: Seq<char>| cands.to_set().contains(x) implies occ.to_set().contains(x) by {
            let j = choose|j: int| 0 <= j < cands.len() && cands[j] == x;
            assert(occ.contains(candidate_name(stem, j as nat)));
        }
    }
    occ.lemma_cardinality_of_set();
    vstd::seq_lib::seq_to_set_is_finite(occ);
    vstd::set_lib::lemma_len_subset(cands.to_set(), occ.to_set());
}

fn base_name_of(checkout: &Checkout) -> (r: Vec<char>)
    ensures
        r@ == base_session_name(checkout@),
{
    let repo_name = chars_of(checkout.repo_name.as_str());
    let mut name = clean_chars(repo_name.as_slice(), "repo");
    if checkout.linked {
        name.push('/');
        let w = chars_of(checkout.worktree.as_str());
        let own = if checkout.name_is_text {
            file_name_of(w.as_slice())
        } else {
            None
        };
        let leaf = match own {
            Some(n) => n,
            None => Vec::new(),
        };
        let cleaned = clean_chars(leaf.as_slice(), "worktree");
        push_all(&mut name, cleaned.as_slice());
    }
    assert(name@ =~= base_session_name(checkout@));
    name
}

/// The name for a new session of `checkout` when the names `occupied` are taken and the digest
/// of its worktree path is `digest` (see `session_name_with`).
pub fn session_name_with_digest(checkout: &Checkout, occupied: &Vec<String>, digest: &Vec<u8>) -> (r:
    String)
    requires
        digest@.len() >= 5,
    ensures
        r@ == session_name_with(checkout@, texts(occupied@), digest@),
{
    let ghost occ = texts(occupied@);
    let name = base_name_of(checkout);
    if !texts_contain(occupied, name.as_slice()) {
        return string_of(name.as_slice());
    }
    let mut hex_chars: Vec<char> = Vec::new();
    let mut i: usize = 0;
    while i < 5
        invariant
            i <= 5,
            digest@.len() >= 5,
            hex_chars@ == hex_text(digest@).take(2 * i),
        decreases 5 - i,
    {
        proof {
            crate::tmux::lemma_hex_text(digest@);
            assert(hex_text(digest@).take(2 * (i + 1)) =~= hex_text(digest@).take(2 * i)
                + crate::tmux::hex_byte(digest@[i as int]));
        }
        let b = digest[i];
        push_all(&mut hex_chars, crate::tmux::hex_pair(b).as_slice());
        i = i + 1;
    }
    let mut stem = name;
    stem.push('-');
    push_all(&mut stem, hex_chars.as_slice());
    assert(stem@ =~= hashed_name_with(checkout@, digest@));
    let mut candidate = stem.clone();
    let mut n: u128 = 2;
    let total = occupied.len();
    assert(candidate@ == candidate_name(stem@, 0));
    while texts_contain(occupied, candidate.as_slice())
        invariant
            2 <= n,
            n - 2 < occ.len() + 1,
            occ == texts(occupied@),
            occ.len() == total,
            candidate@ == candidate_name(stem@, (n - 2) as nat),
            forall|j: nat| j < n - 2 ==> occ.contains(#[trigger] candidate_name(stem@, j)),
        decreases occ.len() + 2 - n,
    {
        proof {
            assert forall|j: nat| j <= n - 2 implies occ.contains(
                #[trigger] candidate_name(stem@, j),
            ) by {}
            lemma_taken_bound(stem@, occ, (n - 2) as nat);
        }
        candidate = stem.clone();
        candidate.push('-');
        push_decimal(&mut candidate, n);
        assert(candidate@ =~= candidate_name(stem@, (n - 1) as nat));
        n = n + 1;
    }
    proof {
        let stem_v = hashed_name_with(checkout@, digest@);
        let k = (n - 2) as nat;
        assert(first_free(stem_v, occ, k));
        let c = choose|k: nat| first_free(stem_v, occ, k);
        lemma_first_free_unique(stem_v, occ, k, c);
    }
    string_of(candidate.as_slice())
}

/// The name for a new session of `checkout`: its base name when no session in `occupied` has
/// it; else the hashed name, or the hashed name with `-2`, `-3`, ..., the first one free.
pub fn session_name(checkout: &Checkout, occupied: &Vec<String>) -> (r: String)
    ensures
        r@ == session_name_for(checkout@, texts(occupied@)),
{
    let name = base_name_of(checkout);
    if !texts_contain(occupied, name.as_slice()) {
        return string_of(name.as_slice());
    }
    let digest = sha256_digest(checkout.worktree.as_str().as_bytes());
    session_name_with_digest(checkout, occupied, &digest)
}


proof fn lemma_first_free_from(stem: Seq<char>, occ: Seq<Seq<char>>, k: nat)
    requires
        forall|j: nat| j < k ==> occ.contains(#[trigger] candidate_name(stem, j)),
    ensures
        exists|m: nat| first_free(stem, occ, m),
    decreases occ.len() + 1 - k,
{
    if !occ.contains(candidate_name(stem, k)) {
        assert(first_free(stem, occ, k));
    } else {
        assert forall|j: nat| j <= k implies occ.contains(#[trigger] candidate_name(stem, j)) by {
            if j < k {
            }
        }
        lemma_taken_bound(stem, occ, k);
        assert forall|j: nat| j < k + 1 implies occ.contains(#[trigger] candidate_name(stem, j)) by {
            if j < k {
            }
        }
        lemma_first_free_from(stem, occ, k + 1);
    }
}

/// A new session never takes a name that is already in use.
pub proof fn lemma_session_name_is_free(c: CheckoutView, occ: Seq<Seq<char>>)
    ensures
        !occ.contains(session_name_for(c, occ)),
{
    if occ.contains(base_session_name(c)) {
        lemma_first_free_from(hashed_session_name(c), occ, 0);
    }
}


/// A new session takes its base name when that is free. Otherwise it takes the first free
/// candidate after it, which always exists: the hashed name (the base name, `-` and the first
/// ten hexadecimal digits of the digest) when that is free, else the hashed name with `-n` for
/// the least `n >= 2` that is free. For `session_name_for` the digest is the SHA-256 digest of
/// the worktree path.
pub proof fn lemma_session_name_is_first_free(c: CheckoutView, occ: Seq<Seq<char>>, digest: Seq<u8>)
    ensures
        !occ.contains(base_session_name(c)) ==> session_name_with(c, occ, digest)
            == base_session_name(c),
        occ.contains(base_session_name(c)) ==> exists|k: nat|
            #[trigger] first_free(hashed_name_with(c, digest), occ, k) && session_name_with(
                c,
                occ,
                digest,
            ) == candidate_name(hashed_name_with(c, digest), k),
{
    if occ.contains(base_session_name(c)) {
        let stem = hashed_name_with(c, digest);
        lemma_first_free_from(stem, occ, 0);
        let k = choose|k: nat| first_free(stem, occ, k);
        assert(first_free(stem, occ, k) && session_name_with(c, occ, digest) == candidate_name(
            stem,
            k,
        ));
    }
}

/// A session's name does not depend on the checkout's branch: it stays across branch changes.
pub proof fn lemma_name_ignores_branch(c: CheckoutView, branch: Option<Seq<char>>, occ: Seq<Seq<char>>)
    ensures
        session_name_for(CheckoutView { branch, ..c }, occ) == session_name_for(c, occ),
{
    let d = CheckoutView { branch, ..c };
    assert(base_session_name(d) == base_session_name(c));
    assert(hashed_session_name(d) == hashed_session_name(c));
}

/// Whether tmux refuses a character in session names.
pub open spec fn refused_in_names(ch: char) -> bool {
    ch == ':' || ch == '.' || is_control(ch)
}

proof fn lemma_clean_is_safe(value: Seq<char>, fallback: Seq<char>)
    requires
        forall|i: int| 0 <= i < fallback.len() ==> !refused_in_names(#[trigger] fallback[i]),
    ensures
        forall|i: int|
            0 <= i < clean(value, fallback).len() ==> !refused_in_names(
                #[trigger] clean(value, fallback)[i],
            ),
{
    if value.len() > 0 {
        assert forall|i: int| 0 <= i < clean(value, fallback).len() implies !refused_in_names(
            #[trigger] clean(value, fallback)[i],
        ) by {
            assert(clean(value, fallback)[i] == clean_char(value[i]));
        }
    }
}

/// Cleaning changes only what tmux refuses: every character other than `:`, `.` and control
/// characters (letters of either case, digits, `/`, spaces, any other Unicode) is kept in place,
/// and each refused one becomes a single `-`.
pub proof fn lemma_clean_keeps_allowed(value: Seq<char>, fallback: Seq<char>)
    requires
        value.len() > 0,
    ensures
        clean(value, fallback).len() == value.len(),
        forall|i: int|
            0 <= i < value.len() && !(value[i] == ':' || value[i] == '.' || is_control(value[i]))
                ==> #[trigger] clean(value, fallback)[i] == value[i],
        forall|i: int|
            0 <= i < value.len() && (value[i] == ':' || value[i] == '.' || is_control(value[i]))
                ==> #[trigger] clean(value, fallback)[i] == '-',
{
}

/// A repository whose name holds nothing tmux refuses keeps that name: the base name of its main
/// checkout is the repository name itself, and so is the session name while it is not taken.
pub proof fn lemma_plain_name_kept(c: CheckoutView, occ: Seq<Seq<char>>)
    requires
        !c.linked,
        c.repo_name.len() > 0,
        forall|i: int|
            #![trigger c.repo_name[i]]
            0 <= i < c.repo_name.len() ==> !(c.repo_name[i] == ':' || c.repo_name[i] == '.'
                || is_control(c.repo_name[i])),
    ensures
        base_session_name(c) == c.repo_name,
        !occ.contains(c.repo_name) ==> session_name_for(c, occ) == c.repo_name,
{
    lemma_clean_keeps_allowed(c.repo_name, "repo"@);
    assert(clean(c.repo_name, "repo"@) =~= c.repo_name);
    assert(base_session_name(c) =~= c.repo_name);
}

/// A base session name holds no `:`, `.` or control character, which tmux refuses.
pub proof fn lemma_base_name_is_safe(c: CheckoutView)
    ensures
        forall|i: int|
            0 <= i < base_session_name(c).len() ==> !refused_in_names(
                #[trigger] base_session_name(c)[i],
            ),
{
    reveal_strlit("repo");
    reveal_strlit("worktree");
    lemma_clean_is_safe(c.repo_name, "repo"@);
    let leaf = match worktree_file_name(c) {
        Some(n) => n,
        None => seq![],
    };
    lemma_clean_is_safe(leaf, "worktree"@);
    let head = clean(c.repo_name, "repo"@);
    let tail = if c.linked {
        seq!['/'] + clean(leaf, "worktree"@)
    } else {
        seq![]
    };
    assert(base_session_name(c) == head + tail);
    assert forall|i: int| 0 <= i < base_session_name(c).len() implies !refused_in_names(
        #[trigger] base_session_name(c)[i],
    ) by {
        if i < head.len() {
            assert(base_session_name(c)[i] == head[i]);
        } else if c.linked {
            assert(base_session_name(c)[i] == tail[i - head.len()]);
            if i > head.len() {
                assert(tail[i - head.len()] == clean(leaf, "worktree"@)[i - head.len() - 1]);
            }
        }
    }
}

} // verus!
