//! Vector clocks: one counter per node id, merged by taking the larger counter
//! of each node.
use vstd::prelude::*;

verus! {

/// The counter of `id` in `m`, which is 0 for a node that `m` has not seen.
pub open spec fn version_of(m: Map<u128, u128>, id: u128) -> u128 {
    if m.contains_key(id) {
        m[id]
    } else {
        0
    }
}

/// The merge of two clocks: every node that either has seen, with the larger
/// of its two counters.
pub open spec fn merge_maps(a: Map<u128, u128>, b: Map<u128, u128>) -> Map<u128, u128> {
    Map::new(
        |id: u128| a.contains_key(id) || b.contains_key(id),
        |id: u128|
            if version_of(a, id) >= version_of(b, id) {
                version_of(a, id)
            } else {
                version_of(b, id)
            },
    )
}

/// `m` merged with each clock of `others` in turn.
pub open spec fn merge_all(m: Map<u128, u128>, others: Seq<Map<u128, u128>>) -> Map<u128, u128>
    decreases others.len(),
{
    if others.len() == 0 {
        m
    } else {
        merge_maps(merge_all(m, others.drop_last()), others.last())
    }
}

/// `a` has seen every node that `b` has seen, each at least as far.
pub open spec fn dominates(a: Map<u128, u128>, b: Map<u128, u128>) -> bool {
    forall|id: u128| b.contains_key(id) ==> a.contains_key(id) && a[id] >= b[id]
}

/// The map that a list of (node, counter) entries stands for, later entries
/// first.
pub open spec fn entries_map(s: Seq<(u128, u128)>) -> Map<u128, u128>
    decreases s.len(),
{
    if s.len() == 0 {
        Map::empty()
    } else {
        entries_map(s.drop_last()).insert(s.last().0, s.last().1)
    }
}

/// No node appears twice among the entries.
pub open spec fn ids_distinct(s: Seq<(u128, u128)>) -> bool {
    forall|i: int, j: int| 0 <= i < j < s.len() ==> s[i].0 != s[j].0
}

/// A vector clock.
pub struct Clock {
    entries: Vec<(u128, u128)>,
}

impl View for Clock {
    type V = Map<u128, u128>;

    closed spec fn view(&self) -> Map<u128, u128> {
        entries_map(self.entries@)
    }
}

impl Clock {
    #[verifier::type_invariant]
    closed spec fn inv(self) -> bool {
        ids_distinct(self.entries@)
    }

    /// A clock that has seen no node.
    pub fn new() -> (c: Clock)
        ensures
            c@ == Map::<u128, u128>::empty(),
    {
        Clock { entries: Vec::new() }
    }

    /// The counter of node `id`.
    pub fn get_version(&self, id: u128) -> (v: u128)
        ensures
            v == version_of(self@, id),
    {
        proof {
            use_type_invariant(self);
            lemma_entries_map_index(self.entries@);
        }
        match find_entry(&self.entries, id) {
            Some(j) => self.entries[j].1,
            None => 0,
        }
    }

    /// The clock's entries, each node once.
    pub fn entries(&self) -> (res: Vec<(u128, u128)>)
        ensures
            ids_distinct(res@),
            entries_map(res@) == self@,
    {
        proof {
            use_type_invariant(self);
        }
        copy_entries(&self.entries)
    }

    /// The clock that has merged each of `entries` as a one-node clock.
    pub fn from_entries(entries: &Vec<(u128, u128)>) -> (c: Clock)
        ensures
            c@ == merge_all(
                Map::empty(),
                entries@.map_values(|e: (u128, u128)| map![e.0 => e.1]),
            ),
    {
        let mut acc: Vec<(u128, u128)> = Vec::new();
        let ghost singles = entries@.map_values(|e: (u128, u128)| map![e.0 => e.1]);
        for i in 0..entries.len()
            invariant
                ids_distinct(acc@),
                singles == entries@.map_values(|e: (u128, u128)| map![e.0 => e.1]),
                entries_map(acc@) == merge_all(Map::empty(), singles.take(i as int)),
        {
            let (id, v) = entries[i];
            merge_entry(&mut acc, id, v);
            assert(singles.take(i + 1).drop_last() =~= singles.take(i as int));
        }
        assert(singles.take(entries.len() as int) =~= singles);
        Clock { entries: acc }
    }

    /// Merges each of `others` into this clock in turn.
    pub fn merge(&mut self, others: &Vec<&Clock>)
        ensures
            final(self)@ == merge_all(old(self)@, others@.map_values(|c: &Clock| c@)),
            dominates(final(self)@, old(self)@),
            forall|i: int| 0 <= i < others@.len() ==> dominates(final(self)@, #[trigger] others@[i]@),
    {
        proof {
            use_type_invariant(&*self);
        }
        let ghost start = self@;
        let ghost views = others@.map_values(|c: &Clock| c@);
        let mut acc = copy_entries(&self.entries);
        for i in 0..others.len()
            invariant
                ids_distinct(acc@),
                views == others@.map_values(|c: &Clock| c@),
                entries_map(acc@) == merge_all(start, views.take(i as int)),
        {
            let other: &Clock = others[i];
            proof {
                use_type_invariant(other);
            }
            let ghost before = entries_map(acc@);
            for j in 0..other.entries.len()
                invariant
                    ids_distinct(acc@),
                    ids_distinct(other.entries@),
                    entries_map(acc@) == merge_maps(before, entries_map(other.entries@.take(j as int))),
            {
                let (id, v) = other.entries[j];
                let ghost part = entries_map(other.entries@.take(j as int));
                proof {
                    let t = other.entries@.take(j + 1);
                    assert(t.drop_last() =~= other.entries@.take(j as int));
                    lemma_entries_map_index(other.entries@.take(j as int));
                    if part.contains_key(id) {
                        let k = choose|k: int|
                            0 <= k < j && #[trigger] other.entries@.take(j as int)[k].0 == id;
                        assert(other.entries@[k].0 == id);
                    }
                    lemma_merge_insert(before, part, id, v);
                }
                merge_entry(&mut acc, id, v);
            }
            proof {
                assert(other.entries@.take(other.entries@.len() as int) =~= other.entries@);
                assert(views.take(i + 1).drop_last() =~= views.take(i as int));
            }
        }
        proof {
            assert(views.take(others@.len() as int) =~= views);
            lemma_merge_all_least_upper_bound(start, views, start);
            assert forall|i: int| 0 <= i < others@.len() implies dominates(
                entries_map(acc@),
                #[trigger] others@[i]@,
            ) by {
                assert(views[i] == others@[i]@);
            }
        }
        self.entries = acc;
    }
}

impl Clone for Clock {
    fn clone(&self) -> (c: Clock)
        ensures
            c@ == self@,
    {
        proof {
            use_type_invariant(self);
        }
        Clock { entries: copy_entries(&self.entries) }
    }
}

/// A copy of a list of entries.
fn copy_entries(entries: &Vec<(u128, u128)>) -> (res: Vec<(u128, u128)>)
    ensures
        res@ == entries@,
{
    let mut res: Vec<(u128, u128)> = Vec::new();
    for i in 0..entries.len()
        invariant
            res@ == entries@.take(i as int),
    {
        res.push(entries[i]);
        assert(res@ =~= entries@.take(i + 1));
    }
    assert(res@ =~= entries@);
    res
}

/// The index of the entry for node `id`, if there is one.
fn find_entry(entries: &Vec<(u128, u128)>, id: u128) -> (res: Option<usize>)
    ensures
        res matches Some(j) ==> j < entries@.len() && entries@[j as int].0 == id,
        res is None ==> forall|j: int| 0 <= j < entries@.len() ==> entries@[j].0 != id,
{
    for i in 0..entries.len()
        invariant
            forall|j: int| 0 <= j < i ==> entries@[j].0 != id,
    {
        if entries[i].0 == id {
            return Some(i);
        }
    }
    None
}

/// Merges the one-node clock `id => v` into the entries.
fn merge_entry(acc: &mut Vec<(u128, u128)>, id: u128, v: u128)
    requires
        ids_distinct(old(acc)@),
    ensures
        ids_distinct(final(acc)@),
        entries_map(final(acc)@) == merge_maps(entries_map(old(acc)@), map![id => v]),
{
    proof {
        lemma_entries_map_index(acc@);
        lemma_merge_single(entries_map(acc@), id, v);
    }
    match find_entry(acc, id) {
        Some(j) => {
            let cur: u128 = acc[j].1;
            let w: u128 = if cur >= v {
                cur
            } else {
                v
            };
            proof {
                lemma_entries_map_update(acc@, j as int, w);
            }
            acc.set(j, (id, w));
        },
        None => {
            proof {
                if entries_map(acc@).contains_key(id) {
                    let k = choose|k: int| 0 <= k < acc@.len() && #[trigger] acc@[k].0 == id;
                    assert(acc@[k].0 == id);
                }
            }
            let ghost old_acc = acc@;
            acc.push((id, v));
            assert(acc@.drop_last() =~= old_acc);
        },
    }
}

/// Where the entries are distinct, each entry is what the map holds for its
/// node, and the map holds nothing else.
proof fn lemma_entries_map_index(s: Seq<(u128, u128)>)
    requires
        ids_distinct(s),
    ensures
        forall|j: int|
            0 <= j < s.len() ==> #[trigger] entries_map(s).contains_key(s[j].0) && entries_map(s)[s[j].0]
                == s[j].1,
        forall|id: u128|
            #[trigger] entries_map(s).contains_key(id) ==> exists|k: int|
                0 <= k < s.len() && #[trigger] s[k].0 == id,
    decreases s.len(),
{
    if s.len() > 0 {
        let p = s.drop_last();
        let last = s.last();
        assert(ids_distinct(p));
        lemma_entries_map_index(p);
        assert forall|j: int| 0 <= j < s.len() implies #[trigger] entries_map(s).contains_key(s[j].0)
            && entries_map(s)[s[j].0] == s[j].1 by {
            if j < s.len() - 1 {
                assert(p[j] == s[j]);
                assert(s[j].0 != last.0);
                assert(entries_map(p).contains_key(p[j].0));
            }
        }
        assert forall|id: u128| #[trigger] entries_map(s).contains_key(id) implies exists|k: int|
            0 <= k < s.len() && #[trigger] s[k].0 == id by {
            if id != last.0 {
                assert(entries_map(p).contains_key(id));
                let k = choose|k: int| 0 <= k < p.len() && #[trigger] p[k].0 == id;
                assert(s[k] == p[k]);
            } else {
                assert(s[s.len() - 1].0 == id);
            }
        }
    }
}

/// Changing the counter of an entry changes the map at that entry's node.
proof fn lemma_entries_map_update(s: Seq<(u128, u128)>, j: int, w: u128)
    requires
        ids_distinct(s),
        0 <= j < s.len(),
    ensures
        ids_distinct(s.update(j, (s[j].0, w))),
        entries_map(s.update(j, (s[j].0, w))) == entries_map(s).insert(s[j].0, w),
    decreases s.len(),
{
    let t = s.update(j, (s[j].0, w));
    assert(t.drop_last() =~= if j == s.len() - 1 {
        s.drop_last()
    } else {
        s.drop_last().update(j, (s[j].0, w))
    });
    if j < s.len() - 1 {
        lemma_entries_map_update(s.drop_last(), j, w);
        assert(s.last().0 != s[j].0);
        assert(entries_map(t) =~= entries_map(s).insert(s[j].0, w));
    } else {
        assert(entries_map(t) =~= entries_map(s).insert(s[j].0, w));
    }
}

/// Merging a one-node clock sets that node's counter to the larger of the two.
proof fn lemma_merge_single(m: Map<u128, u128>, id: u128, v: u128)
    ensures
        merge_maps(m, map![id => v]) == m.insert(
            id,
            if version_of(m, id) >= v {
                version_of(m, id)
            } else {
                v
            },
        ),
{
    assert(merge_maps(m, map![id => v]) =~= m.insert(
        id,
        if version_of(m, id) >= v {
            version_of(m, id)
        } else {
            v
        },
    ));
}

/// Merging a map with one more node is merging the map, then that node alone.
proof fn lemma_merge_insert(a: Map<u128, u128>, m: Map<u128, u128>, id: u128, v: u128)
    requires
        !m.contains_key(id),
    ensures
        merge_maps(a, m.insert(id, v)) == merge_maps(merge_maps(a, m), map![id => v]),
{
    assert(merge_maps(a, m.insert(id, v)) =~= merge_maps(merge_maps(a, m), map![id => v]));
}

/// Merging is commutative.
pub proof fn lemma_merge_commutative(a: Map<u128, u128>, b: Map<u128, u128>)
    ensures
        merge_maps(a, b) == merge_maps(b, a),
{
    assert(merge_maps(a, b) =~= merge_maps(b, a));
}

/// Merging is associative.
pub proof fn lemma_merge_associative(a: Map<u128, u128>, b: Map<u128, u128>, c: Map<u128, u128>)
    ensures
        merge_maps(merge_maps(a, b), c) == merge_maps(a, merge_maps(b, c)),
{
    assert(merge_maps(merge_maps(a, b), c) =~= merge_maps(a, merge_maps(b, c)));
}

/// Merging a clock with itself leaves it as it is.
pub proof fn lemma_merge_idempotent(a: Map<u128, u128>)
    ensures
        merge_maps(a, a) == a,
{
    assert(merge_maps(a, a) =~= a);
}

/// The merge of two clocks dominates both, and any clock that dominates both
/// dominates their merge.
pub proof fn lemma_merge_least_upper_bound(a: Map<u128, u128>, b: Map<u128, u128>, c: Map<u128, u128>)
    ensures
        dominates(merge_maps(a, b), a),
        dominates(merge_maps(a, b), b),
        dominates(c, a) && dominates(c, b) ==> dominates(c, merge_maps(a, b)),
{
}

/// Domination is transitive.
proof fn lemma_dominates_transitive(a: Map<u128, u128>, b: Map<u128, u128>, c: Map<u128, u128>)
    requires
        dominates(a, b),
        dominates(b, c),
    ensures
        dominates(a, c),
{
}

/// Merging a clock with a list of clocks gives their least upper bound: the
/// result dominates the clock and every clock of the list, and any clock that
/// dominates all of them dominates the result.
pub proof fn lemma_merge_all_least_upper_bound(
    m: Map<u128, u128>,
    others: Seq<Map<u128, u128>>,
    c: Map<u128, u128>,
)
    ensures
        dominates(merge_all(m, others), m),
        forall|i: int| 0 <= i < others.len() ==> dominates(merge_all(m, others), #[trigger] others[i]),
        dominates(c, m) && (forall|i: int| 0 <= i < others.len() ==> dominates(c, #[trigger] others[i]))
            ==> dominates(c, merge_all(m, others)),
    decreases others.len(),
{
    if others.len() > 0 {
        let init = others.drop_last();
        let prev = merge_all(m, init);
        let r = merge_all(m, others);
        lemma_merge_all_least_upper_bound(m, init, c);
        lemma_merge_least_upper_bound(prev, others.last(), c);
        lemma_dominates_transitive(r, prev, m);
        assert forall|i: int| 0 <= i < others.len() implies dominates(r, #[trigger] others[i]) by {
            if i < others.len() - 1 {
                assert(init[i] == others[i]);
                lemma_dominates_transitive(r, prev, init[i]);
            }
        }
        if dominates(c, m) && (forall|i: int| 0 <= i < others.len() ==> dominates(c, #[trigger] others[i])) {
            assert forall|i: int| 0 <= i < init.len() implies dominates(c, #[trigger] init[i]) by {
                assert(init[i] == others[i]);
            }
            assert(dominates(c, others[others.len() - 1]));
        }
    }
}

} // verus!
