//! Sort keys and a stable sort of positions by them.
use vstd::prelude::*;
use crate::text::{compare_texts, lemma_texts_cmp_antisym, texts_cmp};

verus! {

/// What an item is ordered by: a number first, then a sequence of strings.
pub struct SortKey {
    pub num: u64,
    pub text: Vec<Vec<char>>,
}

pub open spec fn texts_view(t: Seq<Vec<char>>) -> Seq<Seq<char>> {
    t.map_values(|v: Vec<char>| v@)
}

impl View for SortKey {
    type V = (int, Seq<Seq<char>>);

    open spec fn view(&self) -> (int, Seq<Seq<char>>) {
        (self.num as int, texts_view(self.text@))
    }
}

/// Three-way comparison of keys: by the number, then by the strings.
pub open spec fn key_cmp(a: (int, Seq<Seq<char>>), b: (int, Seq<Seq<char>>)) -> int {
    if a.0 < b.0 {
        -1
    } else if a.0 > b.0 {
        1
    } else {
        texts_cmp(a.1, b.1)
    }
}

/// Whether position `i` comes before position `j` in a stable ascending
/// sort by `keys`: a smaller key, or an equal key and a smaller position.
pub open spec fn key_before(keys: Seq<(int, Seq<Seq<char>>)>, i: int, j: int) -> bool {
    let c = key_cmp(keys[i], keys[j]);
    c < 0 || (c == 0 && i < j)
}

pub open spec fn keys_view(keys: Seq<SortKey>) -> Seq<(int, Seq<Seq<char>>)> {
    keys.map_values(|k: SortKey| k@)
}

/// `key_cmp` is antisymmetric.
pub proof fn lemma_key_cmp_antisym(a: (int, Seq<Seq<char>>), b: (int, Seq<Seq<char>>))
    ensures
        key_cmp(a, b) == -key_cmp(b, a),
{
    lemma_texts_cmp_antisym(a.1, b.1);
}

/// Compares two keys; the result is `key_cmp` of them.
pub fn compare_keys(a: &SortKey, b: &SortKey) -> (r: i8)
    ensures
        r as int == key_cmp(a@, b@),
{
    if a.num < b.num {
        -1
    } else if a.num > b.num {
        1
    } else {
        compare_texts(&a.text, &b.text)
    }
}

/// A key made of one string.
pub open spec fn text_key(s: Seq<char>) -> (int, Seq<Seq<char>>) {
    (0, seq![s])
}

proof fn lemma_insert_contains(s: Seq<usize>, p: int, x: usize, y: usize)
    requires
        0 <= p <= s.len(),
        s.contains(y),
    ensures
        s.insert(p, x).contains(y),
{
    let k = choose|k: int| 0 <= k < s.len() && s[k] == y;
    if k < p {
        assert(s.insert(p, x)[k] == y);
    } else {
        assert(s.insert(p, x)[k + 1] == y);
    }
}

/// Orders the positions `idx`, given in increasing order, by their keys,
/// keeping positions with equal keys in their order.
pub fn sort_indices(keys: &Vec<SortKey>, idx: &Vec<usize>) -> (r: Vec<usize>)
    requires
        forall|k: int| 0 <= k < idx@.len() ==> idx@[k] < keys@.len(),
        forall|a: int, b: int| 0 <= a < b < idx@.len() ==> idx@[a] < idx@[b],
    ensures
        r@.len() == idx@.len(),
        r@.no_duplicates(),
        forall|k: int| 0 <= k < r@.len() ==> idx@.contains(#[trigger] r@[k]),
        forall|k: int| 0 <= k < idx@.len() ==> r@.contains(#[trigger] idx@[k]),
        forall|k: int|
            0 <= k < r@.len() - 1 ==> key_before(keys_view(keys@), #[trigger] r@[k] as int, r@[k + 1] as int),
{
    let ghost kv = keys_view(keys@);
    let mut r: Vec<usize> = Vec::new();
    let mut n: usize = 0;
    while n < idx.len()
        invariant
            kv == keys_view(keys@),
            forall|k: int| 0 <= k < idx@.len() ==> idx@[k] < keys@.len(),
            forall|a: int, b: int| 0 <= a < b < idx@.len() ==> idx@[a] < idx@[b],
            n <= idx@.len(),
            r@.len() == n,
            r@.no_duplicates(),
            forall|k: int| 0 <= k < r@.len() ==> idx@.take(n as int).contains(#[trigger] r@[k]),
            forall|k: int| 0 <= k < n ==> r@.contains(#[trigger] idx@[k]),
            forall|k: int|
                0 <= k < r@.len() - 1 ==> key_before(kv, #[trigger] r@[k] as int, r@[k + 1] as int),
        decreases idx.len() - n,
    {
        let x = idx[n];
        // every position placed so far is smaller than x
        assert forall|k: int| 0 <= k < r@.len() implies r@[k] < x by {
            let j = choose|j: int| 0 <= j < n && idx@.take(n as int)[j] == r@[k];
            assert(idx@[j] < idx@[n as int]);
        }
        let mut p: usize = r.len();
        while p > 0 && compare_keys(&keys[x], &keys[r[p - 1]]) < 0
            invariant
                kv == keys_view(keys@),
                x < keys@.len(),
                forall|k: int| 0 <= k < r@.len() ==> r@[k] < keys@.len(),
                p <= r@.len(),
                forall|k: int| p <= k < r@.len() ==> key_cmp(kv[x as int], kv[#[trigger] r@[k] as int]) < 0,
            decreases p,
        {
            assert(kv[x as int] == keys@[x as int]@);
            assert(kv[r@[p - 1] as int] == keys@[r@[p - 1] as int]@);
            p = p - 1;
        }
        let ghost old_r = r@;
        proof {
            if p > 0 {
                assert(kv[x as int] == keys@[x as int]@);
                assert(kv[r@[p - 1] as int] == keys@[r@[p - 1] as int]@);
                lemma_key_cmp_antisym(kv[x as int], kv[r@[p - 1] as int]);
                assert(key_before(kv, r@[p - 1] as int, x as int));
            }
        }
        r.insert(p, x);
        proof {
            assert(r@ == old_r.insert(p as int, x));
            assert forall|k: int| 0 <= k < r@.len() - 1 implies key_before(kv, #[trigger] r@[k] as int, r@[k + 1] as int) by {
                if k + 1 < p {
                    assert(key_before(kv, old_r[k] as int, old_r[k + 1] as int));
                } else if k + 1 == p {
                } else if k == p {
                } else {
                    assert(key_before(kv, old_r[k - 1] as int, old_r[k] as int));
                }
            }
            assert(r@.no_duplicates()) by {
                assert forall|a: int, b: int| 0 <= a < b < r@.len() implies r@[a] != r@[b] by {
                    if a != p && b != p {
                        let oa = if a < p { a } else { a - 1 };
                        let ob = if b < p { b } else { b - 1 };
                        assert(old_r[oa] != old_r[ob]);
                    }
                }
            }
            assert(idx@.take(n + 1) == idx@.take(n as int).push(x));
            assert forall|k: int| 0 <= k < r@.len() implies idx@.take(n + 1).contains(#[trigger] r@[k]) by {
                if k == p {
                    assert(idx@.take(n + 1)[n as int] == x);
                } else {
                    let ok = if k < p { k } else { k - 1 };
                    assert(old_r[ok] == r@[k]);
                    let j = choose|j: int| 0 <= j < n && idx@.take(n as int)[j] == old_r[ok];
                    assert(idx@.take(n + 1)[j] == r@[k]);
                }
            }
            assert forall|k: int| 0 <= k < n + 1 implies r@.contains(#[trigger] idx@[k]) by {
                if k == n {
                    assert(r@[p as int] == x);
                } else {
                    lemma_insert_contains(old_r, p as int, x, idx@[k]);
                }
            }
        }
        n = n + 1;
    }
    proof {
        assert forall|k: int| 0 <= k < r@.len() implies idx@.contains(#[trigger] r@[k]) by {
            assert(idx@.take(n as int) =~= idx@);
        }
    }
    r
}

} // verus!
