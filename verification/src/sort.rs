//! Stable sorting by a total preorder, as `slice::sort_by` does it.
use vstd::prelude::*;

verus! {

/// A total preorder on values, with an executable comparison.
pub trait SortKey: Sized {
    spec fn key_le(self, other: Self) -> bool;

    proof fn lemma_key_total(a: Self, b: Self)
        ensures
            a.key_le(b) || b.key_le(a),
    ;

    proof fn lemma_key_trans(a: Self, b: Self, c: Self)
        requires
            a.key_le(b),
            b.key_le(c),
        ensures
            a.key_le(c),
    ;

    fn key_le_exec(&self, other: &Self) -> (r: bool)
        ensures
            r == self.key_le(*other),
    ;
}

pub open spec fn sorted_by_key<T: SortKey>(s: Seq<T>) -> bool {
    forall|i: int, j: int| 0 <= i < j < s.len() ==> #[trigger] s[i].key_le(#[trigger] s[j])
}

/// Some position of `p` holds `j`.
pub open spec fn index_taken(p: Seq<int>, j: int) -> bool {
    exists|i: int| 0 <= i < p.len() && #[trigger] p[i] == j
}

/// `output` is `input` rearranged by the index map `p`, ordered by the key, and
/// elements with equal keys keep their relative order.
pub open spec fn stable_perm<T: SortKey>(input: Seq<T>, output: Seq<T>, p: Seq<int>) -> bool {
    &&& output.len() == input.len()
    &&& p.len() == input.len()
    &&& forall|i: int| 0 <= i < p.len() ==> 0 <= #[trigger] p[i] < input.len()
    &&& forall|i: int| 0 <= i < p.len() ==> #[trigger] output[i] == input[p[i]]
    &&& forall|i: int, j: int| 0 <= i < j < p.len() ==> #[trigger] p[i] != #[trigger] p[j]
    &&& forall|j: int| 0 <= j < p.len() ==> #[trigger] index_taken(p, j)
    &&& sorted_by_key(output)
    &&& forall|i: int, j: int|
        0 <= i < j < p.len() && (#[trigger] output[j]).key_le(#[trigger] output[i]) ==> p[i] < p[j]
}

/// `output` is the stable sort of `input` by the key.
pub open spec fn stable_sorted<T: SortKey>(input: Seq<T>, output: Seq<T>) -> bool {
    exists|p: Seq<int>| stable_perm(input, output, p)
}

/// Stable insertion sort: each element is placed after every element that is
/// not greater than it.
pub fn stable_sort<T: SortKey>(input: Vec<T>) -> (r: Vec<T>)
    ensures
        stable_sorted(input@, r@),
{
    let ghost inp = input@;
    let n = input.len();
    let mut out: Vec<T> = Vec::new();
    let ghost mut p: Seq<int> = seq![];
    let mut k: usize = 0;
    let mut src = input;
    let mut rest: Vec<T> = Vec::new();
    while src.len() > 0
        invariant
            src@.len() + rest@.len() == inp.len(),
            forall|i: int| 0 <= i < src@.len() ==> #[trigger] src@[i] == inp[i],
            forall|i: int| 0 <= i < rest@.len() ==> #[trigger] rest@[i] == inp[inp.len() - 1 - i],
        decreases src@.len(),
    {
        let y = src.pop().unwrap();
        rest.push(y);
    }
    while rest.len() > 0
        invariant
            k + rest@.len() == inp.len(),
            inp.len() == n,
            forall|i: int| 0 <= i < rest@.len() ==> #[trigger] rest@[i] == inp[inp.len() - 1 - i],
            stable_perm(inp.take(k as int), out@, p),
        decreases rest@.len(),
    {
        let x = rest.pop().unwrap();
        assert(x == inp[k as int]);
        let mut j = out.len();
        while j > 0 && !out[j - 1].key_le_exec(&x)
            invariant
                j <= out@.len(),
                forall|m: int| j <= m < out@.len() ==> !(#[trigger] out@[m]).key_le(x),
            decreases j,
        {
            j = j - 1;
        }
        proof {
            lemma_insert_keeps_stable(inp, out@, p, k as int, j as int, x);
        }
        out.insert(j, x);
        proof {
            p = p.insert(j as int, k as int);
        }
        k = k + 1;
    }
    assert(inp.take(k as int) == inp);
    out
}

proof fn lemma_insert_keeps_stable<T: SortKey>(
    inp: Seq<T>,
    out: Seq<T>,
    p: Seq<int>,
    k: int,
    j: int,
    x: T,
)
    requires
        0 <= k < inp.len(),
        x == inp[k],
        0 <= j <= out.len(),
        stable_perm(inp.take(k), out, p),
        forall|m: int| j <= m < out.len() ==> !(#[trigger] out[m]).key_le(x),
        j > 0 ==> out[j - 1].key_le(x),
    ensures
        stable_perm(inp.take(k + 1), out.insert(j, x), p.insert(j, k)),
{
    let o2 = out.insert(j, x);
    let p2 = p.insert(j, k);
    let i2 = inp.take(k + 1);
    assert(o2.len() == i2.len());
    assert forall|i: int| 0 <= i < p2.len() implies #[trigger] o2[i] == i2[p2[i]] by {
        if i < j {
            assert(o2[i] == out[i]);
        } else if i > j {
            assert(o2[i] == out[i - 1]);
        }
    }
    assert forall|i: int| 0 <= i < p2.len() implies 0 <= #[trigger] p2[i] < i2.len() by {
        if i < j {
        } else if i > j {
            assert(p2[i] == p[i - 1]);
        }
    }
    assert forall|a: int, b: int| 0 <= a < b < p2.len() implies #[trigger] p2[a] != #[trigger] p2[b] by {
        if a < j && b > j {
            assert(p2[b] == p[b - 1]);
        } else if a > j {
            assert(p2[a] == p[a - 1]);
            assert(p2[b] == p[b - 1]);
        } else if a == j {
            assert(p2[b] == p[b - 1]);
        }
    }
    assert forall|m: int| 0 <= m < p2.len() implies #[trigger] index_taken(p2, m) by {
        if m == k {
            assert(p2[j] == k);
        } else {
            assert(index_taken(p, m));
            let i = choose|i: int| 0 <= i < p.len() && #[trigger] p[i] == m;
            if i < j {
                assert(p2[i] == m);
            } else {
                assert(p2[i + 1] == m);
            }
        }
    }
    // the inserted element is not below its left neighbours and below its right ones
    assert forall|m: int| 0 <= m < j implies (#[trigger] out[m]).key_le(x) by {
        if m < j - 1 {
            T::lemma_key_trans(out[m], out[j - 1], x);
        }
    }
    assert forall|m: int| j <= m < out.len() implies x.key_le(#[trigger] out[m]) by {
        T::lemma_key_total(x, out[m]);
    }
    assert forall|a: int, b: int| 0 <= a < b < o2.len() implies (#[trigger] o2[a]).key_le(
        #[trigger] o2[b],
    ) by {
        if a < j && b > j {
            assert(o2[a] == out[a]);
            assert(o2[b] == out[b - 1]);
            T::lemma_key_trans(out[a], x, out[b - 1]);
        } else if a > j {
            assert(o2[a] == out[a - 1]);
            assert(o2[b] == out[b - 1]);
        } else if a == j {
            assert(o2[b] == out[b - 1]);
        } else if b == j {
            assert(o2[a] == out[a]);
        } else {
            assert(o2[a] == out[a]);
            assert(o2[b] == out[b]);
        }
    }
    assert forall|a: int, b: int|
        0 <= a < b < p2.len() && (#[trigger] o2[b]).key_le(#[trigger] o2[a]) implies p2[a]
        < p2[b] by {
        if a < j && b > j {
            assert(o2[a] == out[a]);
            assert(o2[b] == out[b - 1]);
            assert(p2[b] == p[b - 1]);
            assert(p2[a] == p[a]);
        } else if a > j {
            assert(o2[a] == out[a - 1]);
            assert(o2[b] == out[b - 1]);
            assert(p2[b] == p[b - 1]);
            assert(p2[a] == p[a - 1]);
        } else if a == j {
            assert(o2[b] == out[b - 1]);
            T::lemma_key_trans(out[b - 1], x, out[b - 1]);
            assert(!out[b - 1].key_le(x));
        } else if b == j {
            assert(p2[a] == p[a]);
            assert(p[a] < k);
        } else {
            assert(o2[a] == out[a]);
            assert(o2[b] == out[b]);
            assert(p2[b] == p[b]);
            assert(p2[a] == p[a]);
        }
    }
}

/// Every element of `s` that `f` keeps appears in `s.filter_map(f)`.
pub proof fn lemma_filter_map_keeps<A, B>(s: Seq<A>, f: spec_fn(A) -> Option<B>, c: int)
    requires
        0 <= c < s.len(),
        f(s[c]) is Some,
    ensures
        s.filter_map(f).contains(f(s[c])->0),
    decreases s.len(),
{
    let rest = s.drop_last();
    let fr = rest.filter_map(f);
    if c == s.len() - 1 {
        assert(s.filter_map(f) == fr + seq![f(s[c])->0]);
        assert(s.filter_map(f)[fr.len() as int] == f(s[c])->0);
    } else {
        assert(rest[c] == s[c]);
        lemma_filter_map_keeps(rest, f, c);
        let j = choose|j: int| 0 <= j < fr.len() && fr[j] == f(rest[c])->0;
        match f(s.last()) {
            Some(b) => {
                assert(s.filter_map(f) == fr + seq![b]);
                assert(s.filter_map(f)[j] == fr[j]);
            },
            None => {},
        }
    }
}

/// A stable sort holds exactly the elements of its input.
pub proof fn lemma_sorted_same_elements<T: SortKey>(input: Seq<T>, output: Seq<T>, x: T)
    requires
        stable_sorted(input, output),
    ensures
        output.len() == input.len(),
        output.contains(x) <==> input.contains(x),
{
    let p = choose|p: Seq<int>| stable_perm(input, output, p);
    if output.contains(x) {
        let i = choose|i: int| 0 <= i < output.len() && output[i] == x;
        assert(output[i] == input[p[i]]);
    }
    if input.contains(x) {
        let j = choose|j: int| 0 <= j < input.len() && input[j] == x;
        assert(index_taken(p, j));
        let i = choose|i: int| 0 <= i < p.len() && #[trigger] p[i] == j;
        assert(output[i] == input[p[i]]);
    }
}

/// In a stable sort, an element is never above one that comes after it.
pub proof fn lemma_sorted_pair<T: SortKey>(input: Seq<T>, output: Seq<T>, i: int, j: int)
    requires
        stable_sorted(input, output),
        0 <= i < j < output.len(),
    ensures
        output[i].key_le(output[j]),
{
    let p = choose|p: Seq<int>| stable_perm(input, output, p);
}

/// Keeping some elements of a sorted sequence leaves it sorted.
pub proof fn lemma_filter_sorted<T: SortKey>(s: Seq<T>, keep: spec_fn(T) -> bool)
    requires
        sorted_by_key(s),
    ensures
        sorted_by_key(s.filter(keep)),
    decreases s.len(),
{
    reveal(Seq::filter);
    if s.len() > 0 {
        let rest = s.drop_last();
        assert(sorted_by_key(rest)) by {
            assert forall|i: int, j: int| 0 <= i < j < rest.len() implies #[trigger] rest[i].key_le(
                #[trigger] rest[j],
            ) by {
                assert(rest[i] == s[i] && rest[j] == s[j]);
            }
        }
        lemma_filter_sorted(rest, keep);
        let f = rest.filter(keep);
        if keep(s.last()) {
            let g = f.push(s.last());
            assert(s.filter(keep) == g);
            assert forall|i: int, j: int| 0 <= i < j < g.len() implies #[trigger] g[i].key_le(
                #[trigger] g[j],
            ) by {
                if j == f.len() {
                    rest.lemma_filter_contains_rev(keep, f[i]);
                    let k = choose|k: int| 0 <= k < rest.len() && rest[k] == f[i];
                    assert(s[k] == rest[k]);
                    assert(s[k].key_le(s[s.len() - 1]));
                } else {
                    assert(g[i] == f[i] && g[j] == f[j]);
                }
            }
        }
    }
}

/// Each result of `s.filter_map(f)` comes from its own element of `s`, and
/// the results keep the order of their sources.
pub proof fn lemma_filter_map_sources<A, B>(s: Seq<A>, f: spec_fn(A) -> Option<B>) -> (idx: Seq<int>)
    ensures
        idx.len() == s.filter_map(f).len(),
        forall|k: int|
            0 <= k < idx.len() ==> 0 <= #[trigger] idx[k] < s.len() && f(s[idx[k]]) == Some(
                s.filter_map(f)[k],
            ),
        forall|k: int, m: int| 0 <= k < m < idx.len() ==> #[trigger] idx[k] < #[trigger] idx[m],
    decreases s.len(),
{
    if s.len() == 0 {
        seq![]
    } else {
        let rest = s.drop_last();
        let ir = lemma_filter_map_sources(rest, f);
        let fr = rest.filter_map(f);
        assert forall|k: int| 0 <= k < ir.len() implies rest[ir[k]] == s[ir[k]] by {}
        match f(s.last()) {
            Some(b) => {
                let idx = ir.push(s.len() - 1);
                assert(s.filter_map(f) == fr + seq![b]);
                assert forall|k: int| 0 <= k < idx.len() implies 0 <= #[trigger] idx[k] < s.len()
                    && f(s[idx[k]]) == Some(s.filter_map(f)[k]) by {
                    if k < ir.len() {
                        assert(idx[k] == ir[k]);
                        assert(s.filter_map(f)[k] == fr[k]);
                    }
                }
                assert forall|k: int, m: int| 0 <= k < m < idx.len() implies #[trigger] idx[k]
                    < #[trigger] idx[m] by {
                    if m < ir.len() {
                        assert(idx[k] == ir[k] && idx[m] == ir[m]);
                    } else {
                        assert(idx[k] == ir[k]);
                    }
                }
                idx
            },
            None => {
                ir
            },
        }
    }
}

/// Two `filter_map`s that keep the same elements have the same length.
pub proof fn lemma_filter_map_same_len<A, B, C>(
    s: Seq<A>,
    f: spec_fn(A) -> Option<B>,
    g: spec_fn(A) -> Option<C>,
)
    requires
        forall|x: A| (#[trigger] f(x) is Some) == (g(x) is Some),
    ensures
        s.filter_map(f).len() == s.filter_map(g).len(),
    decreases s.len(),
{
    if s.len() > 0 {
        lemma_filter_map_same_len(s.drop_last(), f, g);
        assert((f(s.last()) is Some) == (g(s.last()) is Some));
    }
}

} // verus!
