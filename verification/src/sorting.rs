//! Stable sorting by a key, as `slice::sort_by_key` / `slice::sort_by` do it.

use vstd::prelude::*;

verus! {

/// Values that are sorted by a key under a total preorder.
pub trait SortKey: Sized {
    /// Whether the key of `a` is at most the key of `b`.
    spec fn key_le(a: Self, b: Self) -> bool;

    fn key_le_exec(&self, other: &Self) -> (r: bool)
        ensures
            r == Self::key_le(*self, *other);

    proof fn lemma_key_le_total(a: Self, b: Self)
        ensures
            Self::key_le(a, b) || Self::key_le(b, a);

    proof fn lemma_key_le_transitive(a: Self, b: Self, c: Self)
        requires
            Self::key_le(a, b),
            Self::key_le(b, c),
        ensures
            Self::key_le(a, c);
}

/// The place where `x` goes in `s`: after the leading elements whose key is at most its key.
pub open spec fn insert_pos<T: SortKey>(s: Seq<T>, x: T) -> nat
    decreases s.len(),
{
    if s.len() == 0 {
        0
    } else if !T::key_le(s[0], x) {
        0
    } else {
        1 + insert_pos(s.drop_first(), x)
    }
}

/// `s` with `x` inserted after every element whose key is not greater than its key.
pub open spec fn sorted_insert<T: SortKey>(s: Seq<T>, x: T) -> Seq<T> {
    s.insert(insert_pos(s, x) as int, x)
}

/// The stable sort of `s` by key: elements in key order, equal keys in the order they came in.
pub open spec fn stable_sort<T: SortKey>(s: Seq<T>) -> Seq<T>
    decreases s.len(),
{
    if s.len() == 0 {
        s
    } else {
        sorted_insert(stable_sort(s.drop_last()), s.last())
    }
}

/// Whether the keys of `s` never decrease.
pub open spec fn is_sorted<T: SortKey>(s: Seq<T>) -> bool {
    forall|i: int, j: int| 0 <= i < j < s.len() ==> T::key_le(#[trigger] s[i], #[trigger] s[j])
}

proof fn lemma_insert_pos<T: SortKey>(s: Seq<T>, x: T, j: int)
    requires
        0 <= j <= s.len(),
        forall|k: int| 0 <= k < j ==> T::key_le(#[trigger] s[k], x),
        j < s.len() ==> !T::key_le(s[j], x),
    ensures
        insert_pos(s, x) == j,
    decreases j,
{
    if j > 0 {
        let r = s.drop_first();
        assert forall|k: int| 0 <= k < j - 1 implies T::key_le(#[trigger] r[k], x) by {
            assert(r[k] == s[k + 1]);
        }
        if j - 1 < r.len() {
            assert(r[j - 1] == s[j]);
        }
        lemma_insert_pos(r, x, j - 1);
    }
}

proof fn lemma_insert_pos_bounds<T: SortKey>(s: Seq<T>, x: T)
    ensures
        insert_pos(s, x) <= s.len(),
        forall|k: int| 0 <= k < insert_pos(s, x) ==> T::key_le(#[trigger] s[k], x),
        insert_pos(s, x) < s.len() ==> !T::key_le(s[insert_pos(s, x) as int], x),
    decreases s.len(),
{
    if s.len() > 0 && T::key_le(s[0], x) {
        let r = s.drop_first();
        lemma_insert_pos_bounds(r, x);
        assert forall|k: int| 0 <= k < insert_pos(s, x) implies T::key_le(#[trigger] s[k], x) by {
            if k > 0 {
                assert(s[k] == r[k - 1]);
            }
        }
        if insert_pos(s, x) < s.len() {
            assert(s[insert_pos(s, x) as int] == r[insert_pos(r, x) as int]);
        }
    }
}

/// Inserting at the sorted position keeps a sorted sequence sorted.
pub proof fn lemma_sorted_insert_sorted<T: SortKey>(s: Seq<T>, x: T)
    requires
        is_sorted(s),
    ensures
        is_sorted(sorted_insert(s, x)),
{
    lemma_insert_pos_bounds(s, x);
    let p = insert_pos(s, x) as int;
    let r = sorted_insert(s, x);
    assert forall|i: int, j: int| 0 <= i < j < r.len() implies T::key_le(#[trigger] r[i], #[trigger] r[j]) by {
        if j < p {
            assert(r[i] == s[i] && r[j] == s[j]);
        } else if j == p {
            assert(r[i] == s[i]);
        } else if i < p {
            assert(r[i] == s[i] && r[j] == s[j - 1]);
            T::lemma_key_le_total(s[p], x);
            T::lemma_key_le_transitive(s[i], x, s[p]);
            if p < j - 1 {
                T::lemma_key_le_transitive(s[i], s[p], s[j - 1]);
            }
        } else if i == p {
            assert(r[j] == s[j - 1]);
            T::lemma_key_le_total(s[p], x);
            if p < j - 1 {
                T::lemma_key_le_transitive(x, s[p], s[j - 1]);
            }
        } else {
            assert(r[i] == s[i - 1] && r[j] == s[j - 1]);
        }
    }
}

/// The stable sort is sorted and holds the same elements, each as often.
pub proof fn lemma_stable_sort<T: SortKey>(s: Seq<T>)
    ensures
        is_sorted(stable_sort(s)),
        stable_sort(s).to_multiset() == s.to_multiset(),
        stable_sort(s).len() == s.len(),
    decreases s.len(),
{
    broadcast use vstd::seq_lib::group_to_multiset_ensures;
    if s.len() > 0 {
        let t = stable_sort(s.drop_last());
        lemma_stable_sort(s.drop_last());
        lemma_sorted_insert_sorted(t, s.last());
        lemma_insert_pos_bounds(t, s.last());
        assert(s.drop_last().push(s.last()) =~= s);
        vstd::seq_lib::to_multiset_insert(t, insert_pos(t, s.last()) as int, s.last());
    }
}

/// Text ordered lexicographically.
pub open spec fn text_le(a: Seq<char>, b: Seq<char>) -> bool {
    !crate::text::lex_lt(b, a)
}

pub proof fn lemma_text_le_total(a: Seq<char>, b: Seq<char>)
    ensures
        text_le(a, b) || text_le(b, a),
{
    crate::text::lemma_lex_total(a, b);
}

pub proof fn lemma_text_le_transitive(a: Seq<char>, b: Seq<char>, c: Seq<char>)
    requires
        text_le(a, b),
        text_le(b, c),
    ensures
        text_le(a, c),
{
    crate::text::lemma_lex_total(a, b);
    if crate::text::lex_lt(c, a) {
        if crate::text::lex_lt(a, b) {
            crate::text::lemma_lex_transitive(c, a, b);
        }
    }
}

impl SortKey for String {
    open spec fn key_le(a: Self, b: Self) -> bool {
        text_le(a@, b@)
    }

    fn key_le_exec(&self, other: &Self) -> (r: bool) {
        let c = crate::text::compare_text(other.as_str(), self.as_str());
        match c {
            crate::text::Cmp::Less => false,
            _ => true,
        }
    }

    proof fn lemma_key_le_total(a: Self, b: Self) {
        lemma_text_le_total(a@, b@);
    }

    proof fn lemma_key_le_transitive(a: Self, b: Self, c: Self) {
        lemma_text_le_transitive(a@, b@, c@);
    }
}

/// Sorts `v` stably by key (insertion sort).
pub fn sort_by_key<T: SortKey>(v: Vec<T>) -> (r: Vec<T>)
    ensures
        r@ == stable_sort(v@),
{
    let ghost orig = v@;
    let mut input = v;
    let mut out: Vec<T> = Vec::new();
    let n = input.len();
    let mut i: usize = 0;
    assert(orig.take(0) =~= Seq::<T>::empty());
    assert(orig.skip(0) =~= orig);
    while i < n
        invariant
            n == orig.len(),
            0 <= i <= n,
            input@ == orig.skip(i as int),
            out@ == stable_sort(orig.take(i as int)),
        decreases n - i,
    {
        let x = input.remove(0);
        assert(x == orig[i as int]);
        assert(input@ =~= orig.skip(i + 1));
        let mut j: usize = 0;
        while j < out.len() && out[j].key_le_exec(&x)
            invariant
                0 <= j <= out.len(),
                forall|k: int| 0 <= k < j ==> T::key_le(#[trigger] out@[k], x),
            decreases out.len() - j,
        {
            j = j + 1;
        }
        proof {
            lemma_insert_pos(out@, x, j as int);
            assert(orig.take(i + 1).drop_last() =~= orig.take(i as int));
            assert(orig.take(i + 1).last() == x);
        }
        out.insert(j, x);
        i = i + 1;
    }
    assert(orig.take(n as int) =~= orig);
    out
}

} // verus!
