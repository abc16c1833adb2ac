//! Removal of repeated entries, keeping the first occurrence of each.
use vstd::prelude::*;

verus! {

/// The entries of `s` in order, each kept only at its first occurrence.
pub open spec fn dedup<A>(s: Seq<A>) -> Seq<A>
    decreases s.len(),
{
    if s.len() == 0 {
        s
    } else if s.drop_last().contains(s.last()) {
        dedup(s.drop_last())
    } else {
        dedup(s.drop_last()).push(s.last())
    }
}

/// The character views of a sequence of strings.
pub open spec fn texts(v: Seq<String>) -> Seq<Seq<char>> {
    v.map_values(|s: String| s@)
}

/// Deduplication keeps exactly the entries that occur in the input.
pub proof fn lemma_dedup_contains<A>(s: Seq<A>, x: A)
    ensures
        dedup(s).contains(x) <==> s.contains(x),
    decreases s.len(),
{
    if s.len() > 0 {
        let p = s.drop_last();
        lemma_dedup_contains(p, x);
        lemma_dedup_contains(p, s.last());
        assert(s =~= p.push(s.last()));
        if s.contains(x) {
            let k = choose|k: int| 0 <= k < s.len() && s[k] == x;
            if k < p.len() {
                assert(p[k] == x);
            }
        }
        if p.contains(x) {
            let k = choose|k: int| 0 <= k < p.len() && p[k] == x;
            assert(s[k] == x);
        }
        if !p.contains(s.last()) {
            let d = dedup(p);
            assert(d.push(s.last())[d.len() as int] == s.last());
            if d.push(s.last()).contains(x) {
                let k = choose|k: int| 0 <= k < d.len() + 1 && d.push(s.last())[k] == x;
                if k < d.len() {
                    assert(d[k] == x);
                }
            }
            if d.contains(x) {
                let k = choose|k: int| 0 <= k < d.len() && d[k] == x;
                assert(d.push(s.last())[k] == x);
            }
        }
    }
}

/// Deduplication leaves no entry twice.
pub proof fn lemma_dedup_no_duplicates<A>(s: Seq<A>)
    ensures
        dedup(s).no_duplicates(),
    decreases s.len(),
{
    if s.len() > 0 {
        let p = s.drop_last();
        lemma_dedup_no_duplicates(p);
        if !p.contains(s.last()) {
            lemma_dedup_contains(p, s.last());
            let d = dedup(p);
            let e = d.push(s.last());
            assert forall|i: int, j: int| 0 <= i < e.len() && 0 <= j < e.len() && i != j implies e[i]
                != e[j] by {
                if i < d.len() && j < d.len() {
                } else if i < d.len() {
                    assert(d.contains(e[i]));
                } else if j < d.len() {
                    assert(d.contains(e[j]));
                }
            }
        }
    }
}

/// Some entry of `s` has key `k`.
pub open spec fn has_key<A, K>(s: Seq<A>, key: spec_fn(A) -> K, k: K) -> bool {
    exists|j: int| 0 <= j < s.len() && key(#[trigger] s[j]) == k
}

/// The entries of `s` in order, each kept only when no earlier entry has the
/// same key.
pub open spec fn dedup_by<A, K>(s: Seq<A>, key: spec_fn(A) -> K) -> Seq<A>
    decreases s.len(),
{
    if s.len() == 0 {
        s
    } else if has_key(s.drop_last(), key, key(s.last())) {
        dedup_by(s.drop_last(), key)
    } else {
        dedup_by(s.drop_last(), key).push(s.last())
    }
}

/// Keyed deduplication keeps exactly the keys that occur in the input.
pub proof fn lemma_dedup_by_keys<A, K>(s: Seq<A>, key: spec_fn(A) -> K, k: K)
    ensures
        has_key(dedup_by(s, key), key, k) <==> has_key(s, key, k),
    decreases s.len(),
{
    if s.len() > 0 {
        let p = s.drop_last();
        let d = dedup_by(p, key);
        lemma_dedup_by_keys(p, key, k);
        lemma_dedup_by_keys(p, key, key(s.last()));
        if has_key(s, key, k) {
            let j = choose|j: int| 0 <= j < s.len() && key(#[trigger] s[j]) == k;
            if j < p.len() {
                assert(key(p[j]) == k);
            } else if !has_key(p, key, key(s.last())) {
                assert(key(d.push(s.last())[d.len() as int]) == k);
            }
        }
        if has_key(p, key, k) {
            let j = choose|j: int| 0 <= j < p.len() && key(#[trigger] p[j]) == k;
            assert(key(s[j]) == k);
        }
        if !has_key(p, key, key(s.last())) {
            let e = d.push(s.last());
            if has_key(e, key, k) {
                let j = choose|j: int| 0 <= j < e.len() && key(#[trigger] e[j]) == k;
                if j < d.len() {
                    assert(key(d[j]) == k);
                } else {
                    assert(key(s[s.len() - 1]) == k);
                }
            }
            if has_key(d, key, k) {
                let j = choose|j: int| 0 <= j < d.len() && key(#[trigger] d[j]) == k;
                assert(key(e[j]) == k);
            }
        }
    }
}

/// No two entries left by keyed deduplication share a key.
pub proof fn lemma_dedup_by_distinct<A, K>(s: Seq<A>, key: spec_fn(A) -> K)
    ensures
        forall|i: int, j: int|
            0 <= i < j < dedup_by(s, key).len() ==> key(#[trigger] dedup_by(s, key)[i]) != key(
                #[trigger] dedup_by(s, key)[j],
            ),
    decreases s.len(),
{
    if s.len() > 0 {
        let p = s.drop_last();
        lemma_dedup_by_distinct(p, key);
        if !has_key(p, key, key(s.last())) {
            lemma_dedup_by_keys(p, key, key(s.last()));
            let d = dedup_by(p, key);
            let e = d.push(s.last());
            assert forall|i: int, j: int| 0 <= i < j < e.len() implies key(#[trigger] e[i]) != key(#[trigger] e[j]) by {
                if j == d.len() {
                    if key(e[i]) == key(e[j]) {
                        assert(key(d[i]) == key(s.last()));
                    }
                } else {
                    assert(e[i] == d[i] && e[j] == d[j]);
                }
            }
        }
    }
}

/// Keyed deduplication only keeps entries of its input.
pub proof fn lemma_dedup_by_subset<A, K>(s: Seq<A>, key: spec_fn(A) -> K, x: A)
    requires
        dedup_by(s, key).contains(x),
    ensures
        s.contains(x),
    decreases s.len(),
{
    if s.len() > 0 {
        let p = s.drop_last();
        let d = dedup_by(p, key);
        let j = choose|j: int| 0 <= j < dedup_by(s, key).len() && dedup_by(s, key)[j] == x;
        if j < d.len() {
            assert(d[j] == x);
            lemma_dedup_by_subset(p, key, x);
            let k = choose|k: int| 0 <= k < p.len() && p[k] == x;
            assert(s[k] == x);
        } else {
            assert(s[s.len() - 1] == x);
        }
    }
}

/// Whether some entry of `v` reads the same as `s`.
pub fn contains_text(v: &Vec<String>, s: &String) -> (r: bool)
    ensures
        r == texts(v@).contains(s@),
{
    let mut k: usize = 0;
    while k < v.len()
        invariant
            k <= v.len(),
            forall|j: int| 0 <= j < k ==> v@[j]@ != s@,
        decreases v.len() - k,
    {
        if v[k] == *s {
            assert(texts(v@)[k as int] == s@);
            return true;
        }
        k = k + 1;
    }
    proof {
        if texts(v@).contains(s@) {
            let j = choose|j: int| 0 <= j < texts(v@).len() && texts(v@)[j] == s@;
            assert(v@[j]@ == s@);
        }
    }
    false
}

/// The strings of `v` in order, each kept only at its first occurrence.
pub fn dedup_strings(v: &Vec<String>) -> (r: Vec<String>)
    ensures
        texts(r@) == dedup(texts(v@)),
{
    let mut out: Vec<String> = Vec::new();
    let mut i: usize = 0;
    while i < v.len()
        invariant
            i <= v.len(),
            texts(out@) == dedup(texts(v@).take(i as int)),
        decreases v.len() - i,
    {
        let ghost pre = texts(v@).take(i as int);
        let ghost next = texts(v@).take(i + 1);
        assert(next.drop_last() =~= pre);
        assert(next.last() == v@[i as int]@);
        proof {
            lemma_dedup_contains(pre, v@[i as int]@);
        }
        if !contains_text(&out, &v[i]) {
            out.push(v[i].clone());
            assert(texts(out@) =~= dedup(pre).push(v@[i as int]@));
        }
        i = i + 1;
    }
    assert(texts(v@).take(v.len() as int) =~= texts(v@));
    out
}

} // verus!
