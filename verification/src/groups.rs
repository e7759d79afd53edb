//! Values grouped under text keys, kept in key order (the library's ordered map from a
//! parent device name to the devices or types found under it).

use vstd::prelude::*;
use crate::text::{lex_lt, compare_text, Cmp, lemma_lex_total, lemma_lex_transitive, lemma_lex_irreflexive};

verus! {

/// Whether the keys strictly increase.
pub open spec fn keys_increasing<T>(g: Seq<(Seq<char>, Seq<T>)>) -> bool {
    forall|i: int, j: int| 0 <= i < j < g.len() ==> lex_lt(#[trigger] g[i].0, #[trigger] g[j].0)
}

/// The index of the first key that is not below `k`.
pub open spec fn lower_bound<T>(g: Seq<(Seq<char>, Seq<T>)>, k: Seq<char>) -> nat
    decreases g.len(),
{
    if g.len() == 0 {
        0
    } else if !lex_lt(g[0].0, k) {
        0
    } else {
        1 + lower_bound(g.drop_first(), k)
    }
}

/// Whether the group `k` is present.
pub open spec fn has_group<T>(g: Seq<(Seq<char>, Seq<T>)>, k: Seq<char>) -> bool {
    lower_bound(g, k) < g.len() && g[lower_bound(g, k) as int].0 == k
}

/// The members of group `k`, if it is present.
pub open spec fn group_get<T>(g: Seq<(Seq<char>, Seq<T>)>, k: Seq<char>) -> Option<Seq<T>> {
    if has_group(g, k) {
        Some(g[lower_bound(g, k) as int].1)
    } else {
        None
    }
}

/// The groups with group `k` set to `v` (replacing it, or added in key order).
pub open spec fn group_set<T>(g: Seq<(Seq<char>, Seq<T>)>, k: Seq<char>, v: Seq<T>) -> Seq<(Seq<char>, Seq<T>)> {
    let p = lower_bound(g, k) as int;
    if has_group(g, k) {
        g.update(p, (k, v))
    } else {
        g.insert(p, (k, v))
    }
}

/// The groups with `x` appended to group `k` (created when absent).
pub open spec fn group_push<T>(g: Seq<(Seq<char>, Seq<T>)>, k: Seq<char>, x: T) -> Seq<(Seq<char>, Seq<T>)> {
    match group_get(g, k) {
        Some(v) => group_set(g, k, v.push(x)),
        None => group_set(g, k, seq![x]),
    }
}

/// The number of members over all groups.
pub open spec fn total_len<T>(g: Seq<(Seq<char>, Seq<T>)>) -> nat
    decreases g.len(),
{
    if g.len() == 0 {
        0
    } else {
        total_len(g.drop_last()) + g.last().1.len()
    }
}

/// All members, group after group.
pub open spec fn flatten<T>(g: Seq<(Seq<char>, Seq<T>)>) -> Seq<T>
    decreases g.len(),
{
    if g.len() == 0 {
        Seq::empty()
    } else {
        flatten(g.drop_last()) + g.last().1
    }
}

/// The members of the first `i` groups come first among all members, and each further group
/// adds its members after them.
pub proof fn lemma_flatten_prefix<T>(g: Seq<(Seq<char>, Seq<T>)>, i: int)
    requires
        0 <= i <= g.len(),
    ensures
        flatten(g.take(i)).is_prefix_of(flatten(g)),
        i < g.len() ==> flatten(g.take(i + 1)) == flatten(g.take(i)) + g[i].1,
        total_len(g) == flatten(g).len(),
    decreases g.len(),
{
    if i < g.len() {
        assert(g.take(i + 1).drop_last() =~= g.take(i));
        assert(g.take(i + 1).last() == g[i]);
    }
    if g.len() > 0 {
        lemma_flatten_prefix(g.drop_last(), if i < g.len() { i } else { g.len() - 1 });
        if i < g.len() {
            assert(g.drop_last().take(i) =~= g.take(i));
        } else {
            assert(g.take(i) =~= g);
        }
    } else {
        assert(g.take(i) =~= g);
    }
}

proof fn lemma_lower_bound<T>(g: Seq<(Seq<char>, Seq<T>)>, k: Seq<char>, j: int)
    requires
        0 <= j <= g.len(),
        forall|i: int| 0 <= i < j ==> lex_lt(#[trigger] g[i].0, k),
        j < g.len() ==> !lex_lt(g[j].0, k),
    ensures
        lower_bound(g, k) == j,
    decreases j,
{
    if j > 0 {
        let r = g.drop_first();
        assert forall|i: int| 0 <= i < j - 1 implies lex_lt(#[trigger] r[i].0, k) by {
            assert(r[i] == g[i + 1]);
        }
        if j - 1 < r.len() {
            assert(r[j - 1] == g[j]);
        }
        lemma_lower_bound(r, k, j - 1);
    }
}

proof fn lemma_lower_bound_facts<T>(g: Seq<(Seq<char>, Seq<T>)>, k: Seq<char>)
    ensures
        lower_bound(g, k) <= g.len(),
        forall|i: int| 0 <= i < lower_bound(g, k) ==> lex_lt(#[trigger] g[i].0, k),
        lower_bound(g, k) < g.len() ==> !lex_lt(g[lower_bound(g, k) as int].0, k),
    decreases g.len(),
{
    if g.len() > 0 && lex_lt(g[0].0, k) {
        let r = g.drop_first();
        lemma_lower_bound_facts(r, k);
        assert forall|i: int| 0 <= i < lower_bound(g, k) implies lex_lt(#[trigger] g[i].0, k) by {
            if i > 0 {
                assert(g[i] == r[i - 1]);
            }
        }
        if lower_bound(g, k) < g.len() {
            assert(g[lower_bound(g, k) as int] == r[lower_bound(r, k) as int]);
        }
    }
}

/// In groups with increasing keys, the keys from the lower bound on are not below `k`, and
/// every group named `k` sits at the lower bound.
proof fn lemma_lower_bound_sorted<T>(g: Seq<(Seq<char>, Seq<T>)>, k: Seq<char>)
    requires
        keys_increasing(g),
    ensures
        forall|i: int| lower_bound(g, k) <= i < g.len() ==> !lex_lt(#[trigger] g[i].0, k),
        forall|i: int| 0 <= i < g.len() && g[i].0 == k ==> i == lower_bound(g, k),
{
    lemma_lower_bound_facts(g, k);
    let p = lower_bound(g, k) as int;
    assert forall|i: int| p <= i < g.len() implies !lex_lt(#[trigger] g[i].0, k) by {
        if i > p && lex_lt(g[i].0, k) {
            assert(lex_lt(g[p].0, g[i].0));
            lemma_lex_transitive(g[p].0, g[i].0, k);
        }
    }
    assert forall|i: int| 0 <= i < g.len() && g[i].0 == k implies i == lower_bound(g, k) by {
        if i < p {
            lemma_lex_irreflexive(k);
        } else if i > p {
            assert(lex_lt(g[p].0, g[i].0));
            lemma_lex_total(g[p].0, k);
        }
    }
}

/// Setting a group keeps the keys increasing.
pub proof fn lemma_group_set_increasing<T>(g: Seq<(Seq<char>, Seq<T>)>, k: Seq<char>, v: Seq<T>)
    requires
        keys_increasing(g),
    ensures
        keys_increasing(group_set(g, k, v)),
{
    lemma_lower_bound_facts(g, k);
    lemma_lower_bound_sorted(g, k);
    let p = lower_bound(g, k) as int;
    let r = group_set(g, k, v);
    if has_group(g, k) {
        assert forall|i: int, j: int| 0 <= i < j < r.len() implies lex_lt(#[trigger] r[i].0, #[trigger] r[j].0) by {
            assert(r[i].0 == g[i].0 && r[j].0 == g[j].0);
        }
    } else {
        assert forall|i: int, j: int| 0 <= i < j < r.len() implies lex_lt(#[trigger] r[i].0, #[trigger] r[j].0) by {
            if j < p {
                assert(r[i] == g[i] && r[j] == g[j]);
            } else if j == p {
                assert(r[i] == g[i]);
            } else if i < p {
                assert(r[i] == g[i] && r[j] == g[j - 1]);
                lemma_lex_total(g[j - 1].0, k);
                lemma_lex_transitive(g[i].0, k, g[j - 1].0);
            } else if i == p {
                assert(r[j] == g[j - 1]);
                lemma_lex_total(g[j - 1].0, k);
                if j - 1 > p {
                    assert(lex_lt(g[p].0, g[j - 1].0));
                    lemma_lex_total(g[p].0, k);
                    if g[p].0 != k {
                        lemma_lex_transitive(k, g[p].0, g[j - 1].0);
                    }
                }
            } else {
                assert(r[i] == g[i - 1] && r[j] == g[j - 1]);
            }
        }
    }
}

/// Reading a group back after setting it gives what was set; other groups are unchanged.
pub proof fn lemma_group_set_get<T>(g: Seq<(Seq<char>, Seq<T>)>, k: Seq<char>, v: Seq<T>, k2: Seq<char>)
    requires
        keys_increasing(g),
    ensures
        group_get(group_set(g, k, v), k) == Some(v),
        k2 != k ==> group_get(group_set(g, k, v), k2) == group_get(g, k2),
{
    let r = group_set(g, k, v);
    let p = lower_bound(g, k) as int;
    lemma_group_set_increasing(g, k, v);
    lemma_lower_bound_facts(g, k);
    lemma_lower_bound_sorted(g, k);
    lemma_lower_bound_facts(r, k);
    lemma_lower_bound_sorted(r, k);
    assert(r[p].0 == k);
    assert(lower_bound(r, k) == p);
    if k2 != k {
        lemma_lower_bound_facts(g, k2);
        lemma_lower_bound_sorted(g, k2);
        lemma_lower_bound_facts(r, k2);
        lemma_lower_bound_sorted(r, k2);
        let q = lower_bound(g, k2) as int;
        let q2 = lower_bound(r, k2) as int;
        if has_group(g, k2) {
            // the group k2 is still present, at a shifted index when k was added before it
            let idx = if !has_group(g, k) && q >= p { q + 1 } else { q };
            assert(r[idx] == g[q]);
            assert(idx == q2);
        } else {
            if has_group(r, k2) {
                let j = if !has_group(g, k) && q2 > p { q2 - 1 } else { q2 };
                assert(q2 != p);
                assert(g[j].0 == k2);
                assert(j == q);
                assert(false);
            }
        }
    }
}

/// Setting a group keeps every group either one that was there or the new one: what holds of
/// all groups before and of the new group holds of all groups after.
pub proof fn lemma_group_set_all<T>(g: Seq<(Seq<char>, Seq<T>)>, k: Seq<char>, v: Seq<T>,
    pred: spec_fn((Seq<char>, Seq<T>)) -> bool)
    requires
        forall|j: int| 0 <= j < g.len() ==> #[trigger] pred(g[j]),
        pred((k, v)),
    ensures
        forall|i: int| 0 <= i < group_set(g, k, v).len() ==> #[trigger] pred(group_set(g, k, v)[i]),
{
    lemma_lower_bound_facts(g, k);
    let p = lower_bound(g, k) as int;
    let r = group_set(g, k, v);
    assert forall|i: int| 0 <= i < r.len() implies #[trigger] pred(r[i]) by {
        if has_group(g, k) {
            if i != p {
                assert(r[i] == g[i]);
            }
        } else {
            if i < p {
                assert(r[i] == g[i]);
            } else if i > p {
                assert(r[i] == g[i - 1]);
            }
        }
    }
}

/// Every member of every group is among all members.
pub proof fn lemma_flatten_contains<T>(g: Seq<(Seq<char>, Seq<T>)>, j: int, m: int)
    requires
        0 <= j < g.len(),
        0 <= m < g[j].1.len(),
    ensures
        flatten(g).contains(g[j].1[m]),
{
    lemma_flatten_prefix(g, j);
    lemma_flatten_prefix(g, j + 1);
    let pre = flatten(g.take(j + 1));
    let idx = flatten(g.take(j)).len() + m;
    assert(pre[idx] == g[j].1[m]);
    assert(flatten(g)[idx] == pre[idx]);
}

/// What holds of every member of every group holds of all members.
pub proof fn lemma_flatten_all<T>(g: Seq<(Seq<char>, Seq<T>)>, q: spec_fn(T) -> bool)
    requires
        forall|j: int, m: int| 0 <= j < g.len() && 0 <= m < g[j].1.len() ==> #[trigger] q(g[j].1[m]),
    ensures
        forall|i: int| 0 <= i < flatten(g).len() ==> #[trigger] q(flatten(g)[i]),
    decreases g.len(),
{
    if g.len() > 0 {
        let g2 = g.drop_last();
        assert forall|j: int, m: int| 0 <= j < g2.len() && 0 <= m < g2[j].1.len() implies #[trigger] q(g2[j].1[m]) by {
            assert(g2[j] == g[j]);
        }
        lemma_flatten_all(g2, q);
        let f2 = flatten(g2);
        let last = g.last().1;
        assert forall|i: int| 0 <= i < flatten(g).len() implies #[trigger] q(flatten(g)[i]) by {
            if i >= f2.len() {
                assert(flatten(g)[i] == last[i - f2.len()]);
                assert(g[g.len() - 1].1 == last);
                assert(q(g[g.len() - 1].1[i - f2.len()]));
            } else {
                assert(flatten(g)[i] == f2[i]);
            }
        }
    }
}

/// A group that is present is the group at the lower bound of its key.
pub proof fn lemma_group_get_entry<T>(g: Seq<(Seq<char>, Seq<T>)>, k: Seq<char>)
    ensures
        group_get(g, k) matches Some(v) ==> 0 <= lower_bound(g, k) < g.len() && g[lower_bound(g, k) as int] == (k, v),
{
}

/// Values grouped under text keys, in increasing key order, each key once.
#[derive(Debug)]
pub struct Groups<T> {
    entries: Vec<(String, Vec<T>)>,
}

/// The content of a group list.
pub open spec fn groups_view<T>(e: Seq<(String, Vec<T>)>) -> Seq<(Seq<char>, Seq<T>)> {
    e.map_values(|p: (String, Vec<T>)| (p.0@, p.1@))
}

impl<T> View for Groups<T> {
    type V = Seq<(Seq<char>, Seq<T>)>;

    closed spec fn view(&self) -> Seq<(Seq<char>, Seq<T>)> {
        groups_view(self.entries@)
    }
}

impl<T> Groups<T> {
    /// Whether the keys strictly increase.
    pub open spec fn wf(&self) -> bool {
        keys_increasing(self@)
    }

    /// No groups.
    pub fn new() -> (g: Groups<T>)
        ensures
            g.wf(),
            g@ == Seq::<(Seq<char>, Seq<T>)>::empty(),
    {
        let g = Groups { entries: Vec::new() };
        assert(g@ =~= Seq::<(Seq<char>, Seq<T>)>::empty());
        g
    }

    /// The groups in key order.
    pub fn entries(&self) -> (r: &Vec<(String, Vec<T>)>)
        ensures
            groups_view(r@) == self@,
    {
        &self.entries
    }

    /// The groups in key order, taken out.
    pub fn into_entries(self) -> (r: Vec<(String, Vec<T>)>)
        ensures
            groups_view(r@) == self@,
    {
        self.entries
    }

    /// The number of groups.
    pub fn len(&self) -> (n: usize)
        ensures
            n == self@.len(),
    {
        self.entries.len()
    }

    /// The index of the first key not below `key`.
    fn find(&self, key: &str) -> (p: usize)
        requires
            self.wf(),
        ensures
            p == lower_bound(self@, key@),
            p <= self@.len(),
    {
        let mut i: usize = 0;
        while i < self.entries.len()
            invariant
                0 <= i <= self.entries.len(),
                self@.len() == self.entries.len(),
                forall|j: int| 0 <= j < i ==> lex_lt(#[trigger] self@[j].0, key@),
            decreases self.entries.len() - i,
        {
            let c = compare_text(self.entries[i].0.as_str(), key);
            assert(self@[i as int].0 == self.entries@[i as int].0@);
            match c {
                Cmp::Less => {},
                _ => {
                    proof { lemma_lower_bound(self@, key@, i as int); }
                    return i;
                },
            }
            i = i + 1;
        }
        proof { lemma_lower_bound(self@, key@, i as int); }
        i
    }

    /// Sets group `key` to `v`, replacing what it held.
    pub fn set(&mut self, key: String, v: Vec<T>)
        requires
            old(self).wf(),
        ensures
            final(self).wf(),
            final(self)@ == group_set(old(self)@, key@, v@),
    {
        proof { lemma_group_set_increasing(self@, key@, v@); }
        let p = self.find(key.as_str());
        let ghost g = self@;
        let ghost kv = key@;
        let ghost vv = v@;
        let found = p < self.entries.len() && {
            let c = compare_text(self.entries[p].0.as_str(), key.as_str());
            match c { Cmp::Equal => true, _ => false }
        };
        if found {
            assert(g[p as int].0 == self.entries@[p as int].0@);
            self.entries.remove(p);
            self.entries.insert(p, (key, v));
            assert(self@ =~= g.update(p as int, (kv, vv)));
        } else {
            if p < self.entries.len() {
                assert(g[p as int].0 == self.entries@[p as int].0@);
            }
            self.entries.insert(p, (key, v));
            assert(self@ =~= g.insert(p as int, (kv, vv)));
        }
    }

    /// Appends `x` to group `key`, creating the group when it is absent.
    pub fn push(&mut self, key: String, x: T)
        requires
            old(self).wf(),
        ensures
            final(self).wf(),
            final(self)@ == group_push(old(self)@, key@, x),
    {
        let p = self.find(key.as_str());
        let ghost g = self@;
        let found = p < self.entries.len() && {
            let c = compare_text(self.entries[p].0.as_str(), key.as_str());
            match c { Cmp::Equal => true, _ => false }
        };
        if found {
            assert(g[p as int].0 == self.entries@[p as int].0@);
            let (k, mut v) = self.entries.remove(p);
            let ghost rest = self@;
            assert(rest =~= g.remove(p as int));
            v.push(x);
            proof {
                lemma_group_set_increasing(g, key@, v@);
            }
            self.entries.insert(p, (k, v));
            assert(self@ =~= g.update(p as int, (key@, v@)));
        } else {
            if p < self.entries.len() {
                assert(g[p as int].0 == self.entries@[p as int].0@);
            }
            let mut v: Vec<T> = Vec::new();
            v.push(x);
            proof {
                lemma_group_set_increasing(g, key@, v@);
            }
            let ghost vv = v@;
            assert(vv =~= seq![x]);
            self.entries.insert(p, (key, v));
            assert(self@ =~= g.insert(p as int, (key@, vv)));
        }
    }

    /// Groups made from entries whose keys strictly increase.
    pub fn from_sorted(entries: Vec<(String, Vec<T>)>) -> (g: Groups<T>)
        requires
            keys_increasing(groups_view(entries@)),
        ensures
            g.wf(),
            g@ == groups_view(entries@),
    {
        Groups { entries }
    }

    /// Whether the groups hold more than one member in all.
    pub fn more_than_one(&self) -> (r: bool)
        ensures
            r == (total_len(self@) > 1),
    {
        let mut n: usize = 0;
        let mut i: usize = 0;
        while i < self.entries.len()
            invariant
                0 <= i <= self.entries.len(),
                self@.len() == self.entries.len(),
                n <= 1,
                n == total_len(self@.take(i as int)),
            decreases self.entries.len() - i,
        {
            proof {
                assert(self@.take(i + 1).drop_last() =~= self@.take(i as int));
                assert(self@.take(i + 1).last() == self@[i as int]);
                assert(self@[i as int].1 == self.entries@[i as int].1@);
            }
            let m = self.entries[i].1.len();
            if m > 1 || n + m > 1 {
                proof {
                    lemma_total_len_prefix(self@, i + 1);
                }
                return true;
            }
            n = n + m;
            i = i + 1;
        }
        assert(self@.take(i as int) =~= self@);
        false
    }
}

/// Each group's members stably sorted by key.
pub open spec fn sort_groups<T: crate::sorting::SortKey>(g: Seq<(Seq<char>, Seq<T>)>) -> Seq<(Seq<char>, Seq<T>)> {
    g.map_values(|e: (Seq<char>, Seq<T>)| (e.0, crate::sorting::stable_sort(e.1)))
}

/// Sorting the members of each group keeps the groups and their keys, and leaves each group
/// sorted by key and holding the same members, each as often.
pub proof fn lemma_sort_groups<T: crate::sorting::SortKey>(g: Seq<(Seq<char>, Seq<T>)>)
    ensures
        sort_groups(g).len() == g.len(),
        forall|i: int| 0 <= i < g.len() ==> (#[trigger] sort_groups(g)[i]).0 == g[i].0
            && crate::sorting::is_sorted(sort_groups(g)[i].1)
            && sort_groups(g)[i].1.to_multiset() == g[i].1.to_multiset(),
        keys_increasing(g) ==> keys_increasing(sort_groups(g)),
{
    assert forall|i: int| 0 <= i < g.len() implies (#[trigger] sort_groups(g)[i]).0 == g[i].0
        && crate::sorting::is_sorted(sort_groups(g)[i].1)
        && sort_groups(g)[i].1.to_multiset() == g[i].1.to_multiset() by {
        crate::sorting::lemma_stable_sort(g[i].1);
    }
}

impl<T: crate::sorting::SortKey> Groups<T> {
    /// Sorts the members of every group stably by key.
    pub fn sort_members(self) -> (r: Groups<T>)
        requires
            self.wf(),
        ensures
            r.wf(),
            r@ == sort_groups(self@),
    {
        let ghost g = self@;
        let mut input = self.entries;
        let mut out: Vec<(String, Vec<T>)> = Vec::new();
        let n = input.len();
        let mut i: usize = 0;
        while i < n
            invariant
                n == g.len(),
                0 <= i <= n,
                input@.len() == n - i,
                groups_view(input@) == g.skip(i as int),
                groups_view(out@) == sort_groups(g.take(i as int)),
            decreases n - i,
        {
            let ghost before_in = input@;
            let (k, v) = input.remove(0);
            let ghost gi = g[i as int];
            assert(groups_view(before_in)[0] == (k@, v@));
            assert(g.skip(i as int)[0] == gi);
            assert(groups_view(input@) =~= g.skip(i + 1)) by {
                assert(input@ =~= before_in.drop_first());
                assert forall|j: int| 0 <= j < input@.len() implies groups_view(input@)[j] == g.skip(i + 1)[j] by {
                    assert(groups_view(before_in)[j + 1] == g.skip(i as int)[j + 1]);
                }
            }
            let sorted = crate::sorting::sort_by_key(v);
            let ghost before = out@;
            out.push((k, sorted));
            assert(gi == (k@, v@));
            assert(groups_view(out@) =~= sort_groups(g.take(i + 1))) by {
                assert(groups_view(out@) =~= groups_view(before).push((k@, sorted@)));
                assert(g.take(i + 1) =~= g.take(i as int).push(gi));
                assert(sort_groups(g.take(i + 1)) =~= sort_groups(g.take(i as int)).push((gi.0, crate::sorting::stable_sort(gi.1))));
            }
            i = i + 1;
        }
        assert(g.take(n as int) =~= g);
        let r = Groups { entries: out };
        assert forall|a: int, b: int| 0 <= a < b < r@.len() implies crate::text::lex_lt(#[trigger] r@[a].0, #[trigger] r@[b].0) by {
            assert(r@[a].0 == g[a].0 && r@[b].0 == g[b].0);
        }
        r
    }
}

proof fn lemma_total_len_prefix<T>(g: Seq<(Seq<char>, Seq<T>)>, i: int)
    requires
        0 <= i <= g.len(),
    ensures
        total_len(g.take(i)) <= total_len(g),
    decreases g.len(),
{
    if i < g.len() {
        assert(g.drop_last().take(i) =~= g.take(i));
        lemma_total_len_prefix(g.drop_last(), i);
    } else {
        assert(g.take(i) =~= g);
    }
}

} // verus!
