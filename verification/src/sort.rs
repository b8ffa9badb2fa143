//! Stable sorting by a text key (ordered as `str` orders) or by a number, largest first.
use vstd::prelude::*;

verus! {

/// `a` orders before `b` in the lexicographic order of their characters, which is the order of
/// their UTF-8 bytes.
pub open spec fn text_lt(a: Seq<char>, b: Seq<char>) -> bool
    decreases a.len(),
{
    if a.len() == 0 {
        b.len() > 0
    } else if b.len() == 0 {
        false
    } else if a[0] != b[0] {
        (a[0] as u32) < (b[0] as u32)
    } else {
        text_lt(a.drop_first(), b.drop_first())
    }
}

/// No text orders before itself.
pub proof fn lemma_text_lt_irreflexive(a: Seq<char>)
    ensures
        !text_lt(a, a),
    decreases a.len(),
{
    if a.len() > 0 {
        lemma_text_lt_irreflexive(a.drop_first());
    }
}

/// The order of texts is transitive.
pub proof fn lemma_text_lt_transitive(a: Seq<char>, b: Seq<char>, c: Seq<char>)
    requires
        text_lt(a, b),
        text_lt(b, c),
    ensures
        text_lt(a, c),
    decreases a.len(),
{
    if a.len() > 0 && b.len() > 0 && c.len() > 0 && a[0] == b[0] && b[0] == c[0] {
        lemma_text_lt_transitive(a.drop_first(), b.drop_first(), c.drop_first());
    }
}

/// Of two different texts, one orders before the other.
pub proof fn lemma_text_lt_total(a: Seq<char>, b: Seq<char>)
    ensures
        a == b || text_lt(a, b) || text_lt(b, a),
    decreases a.len(),
{
    if a.len() > 0 && b.len() > 0 && a[0] == b[0] {
        lemma_text_lt_total(a.drop_first(), b.drop_first());
        if a.drop_first() == b.drop_first() {
            assert(a =~= seq![a[0]] + a.drop_first());
            assert(b =~= seq![b[0]] + b.drop_first());
        }
    } else if a.len() == 0 && b.len() == 0 {
        assert(a =~= b);
    } else if a.len() > 0 && b.len() > 0 {
        let x = a[0] as u32;
        let y = b[0] as u32;
        assert(x != y) by {
            vstd::utf8::char_u32_cast(a[0], x);
            vstd::utf8::char_u32_cast(b[0], y);
        }
    }
}

/// Whether `a` orders before `b` (see `text_lt`).
pub fn text_less(a: &[char], b: &[char]) -> (r: bool)
    ensures
        r == text_lt(a@, b@),
{
    let mut i: usize = 0;
    assert(a@.skip(0) =~= a@);
    assert(b@.skip(0) =~= b@);
    while i < a.len() && i < b.len() && a[i] == b[i]
        invariant
            i <= a@.len(),
            i <= b@.len(),
            text_lt(a@, b@) == text_lt(a@.skip(i as int), b@.skip(i as int)),
        decreases a@.len() - i,
    {
        assert(a@.skip(i as int).drop_first() =~= a@.skip(i + 1));
        assert(b@.skip(i as int).drop_first() =~= b@.skip(i + 1));
        i = i + 1;
    }
    if i == a.len() {
        i < b.len()
    } else if i == b.len() {
        false
    } else {
        assert(a@.skip(i as int)[0] == a@[i as int]);
        assert(b@.skip(i as int)[0] == b@[i as int]);
        (a[i] as u32) < (b[i] as u32)
    }
}

/// The texts held by a sequence of character vectors.
pub open spec fn char_views(v: Seq<Vec<char>>) -> Seq<Seq<char>> {
    v.map_values(|k: Vec<char>| k@)
}

/// `out` is `inp` rearranged by `perm` so that keys never decrease and items with equal keys
/// keep their order: what a stable sort by `keys` gives.
pub open spec fn stable_sorted_by_text<T>(
    out: Seq<T>,
    inp: Seq<T>,
    keys: Seq<Seq<char>>,
    perm: Seq<int>,
) -> bool {
    &&& keys.len() == inp.len()
    &&& perm.len() == inp.len()
    &&& out.len() == inp.len()
    &&& forall|k: int| 0 <= k < perm.len() ==> 0 <= #[trigger] perm[k] < inp.len()
    &&& forall|k: int| 0 <= k < perm.len() ==> #[trigger] out[k] == inp[perm[k]]
    &&& forall|k: int, m: int| 0 <= k < m < perm.len() ==> perm[k] != perm[m]
    &&& forall|k: int, m: int|
        0 <= k < m < perm.len() ==> !text_lt(keys[#[trigger] perm[m]], keys[#[trigger] perm[k]])
    &&& forall|k: int, m: int|
        0 <= k < m < perm.len() && keys[#[trigger] perm[k]] == keys[#[trigger] perm[m]] ==> perm[k]
            < perm[m]
}

/// Sorts `items` stably by `keys` (one key per item).
pub fn sort_by_text<T>(items: Vec<T>, keys: Vec<Vec<char>>) -> (r: Vec<T>)
    requires
        keys@.len() == items@.len(),
    ensures
        exists|perm: Seq<int>|
            #[trigger] stable_sorted_by_text(r@, items@, char_views(keys@), perm),
{
    let ghost inp = items@;
    let ghost ks = char_views(keys@);
    let n = items.len();
    let mut items = items;
    let mut keys = keys;
    let mut out: Vec<T> = Vec::new();
    let mut out_keys: Vec<Vec<char>> = Vec::new();
    let ghost mut perm: Seq<int> = seq![];
    let mut i: usize = 0;
    while i < n
        invariant
            n == inp.len() == ks.len(),
            i <= n,
            items@ == inp.skip(i as int),
            char_views(keys@) == ks.skip(i as int),
            keys@.len() == items@.len(),
            out@.len() == i,
            out_keys@.len() == i,
            perm.len() == i,
            forall|k: int| 0 <= k < i ==> 0 <= #[trigger] perm[k] < i,
            forall|k: int| 0 <= k < i ==> #[trigger] out@[k] == inp[perm[k]],
            forall|k: int| 0 <= k < i ==> #[trigger] out_keys@[k]@ == ks[perm[k]],
            forall|k: int, m: int| 0 <= k < m < i ==> perm[k] != perm[m],
            forall|k: int, m: int|
                0 <= k < m < i ==> !text_lt(ks[#[trigger] perm[m]], ks[#[trigger] perm[k]]),
            forall|k: int, m: int|
                0 <= k < m < i && ks[#[trigger] perm[k]] == ks[#[trigger] perm[m]] ==> perm[k]
                    < perm[m],
        decreases n - i,
    {
        let ghost old_keys = keys@;
        let item = items.remove(0);
        let key = keys.remove(0);
        proof {
            assert(char_views(old_keys) == ks.skip(i as int));
            assert forall|k: int| 0 <= k < keys@.len() implies #[trigger] char_views(keys@)[k]
                == ks.skip(i + 1)[k] by {
                assert(keys@[k] == old_keys[k + 1]);
                assert(char_views(old_keys)[k + 1] == old_keys[k + 1]@);
            }
            assert(inp.skip(i as int)[0] == item);
            assert(items@ =~= inp.skip(i + 1));
            assert(ks.skip(i as int)[0] == key@);
            assert(char_views(keys@) =~= ks.skip(i + 1));
        }
        // First position whose key orders after `key`.
        let mut pos: usize = 0;
        while pos < out_keys.len() && !text_less(key.as_slice(), out_keys[pos].as_slice())
            invariant
                pos <= out_keys@.len() == i,
                key@ == ks[i as int],
                forall|k: int| 0 <= k < i ==> #[trigger] out_keys@[k]@ == ks[perm[k]],
                forall|k: int| 0 <= k < pos ==> !text_lt(key@, #[trigger] out_keys@[k]@),
            decreases i - pos,
        {
            pos = pos + 1;
        }
        proof {
            // Keys after `pos` order after `key`.
            assert forall|k: int| pos <= k < i implies text_lt(key@, #[trigger] ks[perm[k]]) by {
                if k > pos {
                    assert(!text_lt(ks[perm[k]], ks[perm[pos as int]]));
                    lemma_text_lt_total(ks[perm[k]], ks[perm[pos as int]]);
                    if ks[perm[k]] != ks[perm[pos as int]] {
                        lemma_text_lt_transitive(key@, ks[perm[pos as int]], ks[perm[k]]);
                    }
                }
            }
            let new_perm = perm.insert(pos as int, i as int);
            assert forall|k: int| 0 <= k < pos implies !text_lt(key@, #[trigger] ks[perm[k]]) by {
                assert(out_keys@[k]@ == ks[perm[k]]);
            }
            assert forall|k: int, m: int| 0 <= k < m < i + 1 implies !text_lt(
                ks[#[trigger] new_perm[m]],
                ks[#[trigger] new_perm[k]],
            ) by {
                if k < pos && m < pos {
                } else if k < pos && m == pos {
                    assert(new_perm[m] == i);
                    assert(new_perm[k] == perm[k]);
                } else if k < pos && m > pos {
                    assert(new_perm[m] == perm[m - 1]);
                    assert(new_perm[k] == perm[k]);
                } else if k == pos {
                    assert(new_perm[m] == perm[m - 1]);
                    assert(new_perm[k] == i);
                    lemma_text_lt_irreflexive(ks[i as int]);
                    if text_lt(ks[perm[m - 1]], key@) {
                        lemma_text_lt_transitive(key@, ks[perm[m - 1]], key@);
                    }
                } else {
                    assert(new_perm[m] == perm[m - 1]);
                    assert(new_perm[k] == perm[k - 1]);
                }
            }
            assert forall|k: int, m: int|
                0 <= k < m < i + 1 && ks[#[trigger] new_perm[k]] == ks[#[trigger] new_perm[m]]
                implies new_perm[k] < new_perm[m] by {
                if k < pos && m < pos {
                } else if k < pos && m == pos {
                    assert(new_perm[k] == perm[k]);
                } else if k < pos && m > pos {
                    assert(new_perm[m] == perm[m - 1]);
                    assert(new_perm[k] == perm[k]);
                } else if k == pos {
                    assert(new_perm[m] == perm[m - 1]);
                    lemma_text_lt_irreflexive(key@);
                } else {
                    assert(new_perm[m] == perm[m - 1]);
                    assert(new_perm[k] == perm[k - 1]);
                }
            }
            assert forall|k: int, m: int| 0 <= k < m < i + 1 implies new_perm[k] != new_perm[m] by {
                if k < pos && m > pos {
                    assert(new_perm[m] == perm[m - 1]);
                } else if k > pos {
                    assert(new_perm[m] == perm[m - 1]);
                    assert(new_perm[k] == perm[k - 1]);
                } else if k == pos {
                    assert(new_perm[m] == perm[m - 1]);
                }
            }
            perm = new_perm;
        }
        out.insert(pos, item);
        out_keys.insert(pos, key);
        proof {
            assert forall|k: int| 0 <= k < i + 1 implies #[trigger] out@[k] == inp[perm[k]] by {
                if k > pos {
                    assert(perm[k] == perm.remove(pos as int)[k - 1]);
                }
            }
            assert forall|k: int| 0 <= k < i + 1 implies #[trigger] out_keys@[k]@ == ks[perm[k]] by {}
            assert forall|k: int| 0 <= k < i + 1 implies 0 <= #[trigger] perm[k] < i + 1 by {}
        }
        i = i + 1;
    }
    proof {
        assert(stable_sorted_by_text(out@, inp, ks, perm));
    }
    out
}


/// `out` is `inp` rearranged by `perm` so that keys never increase and items with equal keys
/// keep their order: what a stable sort by the reversed key gives.
pub open spec fn stable_sorted_by_number_desc<T>(
    out: Seq<T>,
    inp: Seq<T>,
    keys: Seq<u64>,
    perm: Seq<int>,
) -> bool {
    &&& keys.len() == inp.len()
    &&& perm.len() == inp.len()
    &&& out.len() == inp.len()
    &&& forall|k: int| 0 <= k < perm.len() ==> 0 <= #[trigger] perm[k] < inp.len()
    &&& forall|k: int| 0 <= k < perm.len() ==> #[trigger] out[k] == inp[perm[k]]
    &&& forall|k: int, m: int| 0 <= k < m < perm.len() ==> perm[k] != perm[m]
    &&& forall|k: int, m: int|
        0 <= k < m < perm.len() ==> keys[#[trigger] perm[m]] <= keys[#[trigger] perm[k]]
    &&& forall|k: int, m: int|
        0 <= k < m < perm.len() && keys[#[trigger] perm[k]] == keys[#[trigger] perm[m]] ==> perm[k]
            < perm[m]
}

/// Sorts `items` stably so that the largest keys come first (one key per item).
pub fn sort_by_number_desc<T>(items: Vec<T>, keys: Vec<u64>) -> (r: Vec<T>)
    requires
        keys@.len() == items@.len(),
    ensures
        exists|perm: Seq<int>| #[trigger] stable_sorted_by_number_desc(r@, items@, keys@, perm),
{
    let ghost inp = items@;
    let ghost ks = keys@;
    let n = items.len();
    let mut items = items;
    let mut keys = keys;
    let mut out: Vec<T> = Vec::new();
    let mut out_keys: Vec<u64> = Vec::new();
    let ghost mut perm: Seq<int> = seq![];
    let mut i: usize = 0;
    while i < n
        invariant
            n == inp.len() == ks.len(),
            i <= n,
            items@ == inp.skip(i as int),
            keys@ == ks.skip(i as int),
            keys@.len() == items@.len(),
            out@.len() == i,
            out_keys@.len() == i,
            perm.len() == i,
            forall|k: int| 0 <= k < i ==> 0 <= #[trigger] perm[k] < i,
            forall|k: int| 0 <= k < i ==> #[trigger] out@[k] == inp[perm[k]],
            forall|k: int| 0 <= k < i ==> #[trigger] out_keys@[k] == ks[perm[k]],
            forall|k: int, m: int| 0 <= k < m < i ==> perm[k] != perm[m],
            forall|k: int, m: int| 0 <= k < m < i ==> ks[#[trigger] perm[m]] <= ks[#[trigger] perm[k]],
            forall|k: int, m: int|
                0 <= k < m < i && ks[#[trigger] perm[k]] == ks[#[trigger] perm[m]] ==> perm[k]
                    < perm[m],
        decreases n - i,
    {
        let item = items.remove(0);
        let key = keys.remove(0);
        proof {
            assert(inp.skip(i as int)[0] == item);
            assert(items@ =~= inp.skip(i + 1));
            assert(ks.skip(i as int)[0] == key);
            assert(keys@ =~= ks.skip(i + 1));
        }
        // First position whose key is smaller than `key`.
        let mut pos: usize = 0;
        while pos < out_keys.len() && !(out_keys[pos] < key)
            invariant
                pos <= out_keys@.len() == i,
                key == ks[i as int],
                forall|k: int| 0 <= k < i ==> #[trigger] out_keys@[k] == ks[perm[k]],
                forall|k: int| 0 <= k < pos ==> key <= #[trigger] out_keys@[k],
            decreases i - pos,
        {
            pos = pos + 1;
        }
        proof {
            assert forall|k: int| pos <= k < i implies #[trigger] ks[perm[k]] < key by {
                if k > pos {
                    assert(ks[perm[k]] <= ks[perm[pos as int]]);
                }
            }
            let new_perm = perm.insert(pos as int, i as int);
            assert forall|k: int| 0 <= k < pos implies key <= #[trigger] ks[perm[k]] by {
                assert(out_keys@[k] == ks[perm[k]]);
            }
            assert forall|k: int, m: int| 0 <= k < m < i + 1 implies ks[#[trigger] new_perm[m]]
                <= ks[#[trigger] new_perm[k]] by {
                if k < pos && m < pos {
                } else if k < pos && m == pos {
                    assert(new_perm[k] == perm[k]);
                } else if k < pos && m > pos {
                    assert(new_perm[m] == perm[m - 1]);
                    assert(new_perm[k] == perm[k]);
                } else if k == pos {
                    assert(new_perm[m] == perm[m - 1]);
                } else {
                    assert(new_perm[m] == perm[m - 1]);
                    assert(new_perm[k] == perm[k - 1]);
                }
            }
            assert forall|k: int, m: int|
                0 <= k < m < i + 1 && ks[#[trigger] new_perm[k]] == ks[#[trigger] new_perm[m]]
                implies new_perm[k] < new_perm[m] by {
                if k < pos && m < pos {
                } else if k < pos && m == pos {
                    assert(new_perm[k] == perm[k]);
                } else if k < pos && m > pos {
                    assert(new_perm[m] == perm[m - 1]);
                    assert(new_perm[k] == perm[k]);
                } else if k == pos {
                    assert(new_perm[m] == perm[m - 1]);
                } else {
                    assert(new_perm[m] == perm[m - 1]);
                    assert(new_perm[k] == perm[k - 1]);
                }
            }
            assert forall|k: int, m: int| 0 <= k < m < i + 1 implies new_perm[k] != new_perm[m] by {
                if k < pos && m > pos {
                    assert(new_perm[m] == perm[m - 1]);
                } else if k > pos {
                    assert(new_perm[m] == perm[m - 1]);
                    assert(new_perm[k] == perm[k - 1]);
                } else if k == pos {
                    assert(new_perm[m] == perm[m - 1]);
                }
            }
            perm = new_perm;
        }
        out.insert(pos, item);
        out_keys.insert(pos, key);
        proof {
            assert forall|k: int| 0 <= k < i + 1 implies #[trigger] out@[k] == inp[perm[k]] by {}
            assert forall|k: int| 0 <= k < i + 1 implies #[trigger] out_keys@[k] == ks[perm[k]] by {}
            assert forall|k: int| 0 <= k < i + 1 implies 0 <= #[trigger] perm[k] < i + 1 by {}
        }
        i = i + 1;
    }
    proof {
        assert(stable_sorted_by_number_desc(out@, inp, ks, perm));
    }
    out
}

} // verus!
