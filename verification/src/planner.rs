//! The sorted-insertion planner: sort a sibling group alphabetically by
//! display name, then walk the sorted group and give the owned channel the
//! position its alphabetical predecessor held — or leave it alone when it
//! sorts first.

use vstd::multiset::Multiset;
use vstd::prelude::*;

use crate::channel::{first_owned_index, has_owned, owned_by, Channel};
use crate::channel::lemma_find_owned_is_first;
use crate::order::{lemma_lex_le_total, lemma_lex_le_trans, lex_le, name_le};

verus! {

/// Order on channels: by display name, code point by code point.
pub open spec fn name_leq(a: Channel, b: Channel) -> bool {
    lex_le(a.name@, b.name@)
}

/// A sibling group in alphabetical order by display name.
pub open spec fn sorted_by_name(s: Seq<Channel>) -> bool {
    forall|i: int, j: int| 0 <= i < j < s.len() ==> name_leq(s[i], s[j])
}

/// Inserting an element into a sequence adds it to the multiset of
/// elements.
proof fn lemma_insert_to_multiset(s: Seq<Channel>, j: int, c: Channel)
    requires
        0 <= j <= s.len(),
    ensures
        s.insert(j, c).to_multiset() == s.to_multiset().insert(c),
{
    broadcast use vstd::seq_lib::group_to_multiset_ensures;

    let pre = s.take(j);
    let post = s.skip(j);
    assert(s.insert(j, c) =~= pre + (seq![c] + post));
    assert(s =~= pre + post);
    vstd::seq_lib::lemma_multiset_commutative(pre, seq![c] + post);
    vstd::seq_lib::lemma_multiset_commutative(seq![c], post);
    vstd::seq_lib::lemma_multiset_commutative(pre, post);
    assert(seq![c].to_multiset() =~= Multiset::<Channel>::empty().insert(c)) by {
        assert(seq![c] =~= Seq::<Channel>::empty().push(c));
        assert(Seq::<Channel>::empty().to_multiset() =~= Multiset::<Channel>::empty());
    }
    assert(s.insert(j, c).to_multiset() =~= s.to_multiset().insert(c));
}

/// Sort a sibling group alphabetically by display name. The result holds
/// exactly the channels of the input, in sorted order.
pub fn sort_by_name(v: &Vec<Channel>) -> (r: Vec<Channel>)
    ensures
        r@.to_multiset() == v@.to_multiset(),
        r@.len() == v@.len(),
        sorted_by_name(r@),
{
    let mut r: Vec<Channel> = Vec::new();
    let mut i: usize = 0;
    proof {
        broadcast use vstd::seq_lib::group_to_multiset_ensures;

        assert(v@.take(0int) =~= Seq::<Channel>::empty());
        assert(Seq::<Channel>::empty().to_multiset() =~= Multiset::<Channel>::empty());
    }
    while i < v.len()
        invariant
            i <= v@.len(),
            r@.len() == i,
            r@.to_multiset() == v@.take(i as int).to_multiset(),
            sorted_by_name(r@),
        decreases v@.len() - i,
    {
        let c = v[i].clone();
        let mut j: usize = 0;
        while j < r.len() && name_le(r[j].name.as_str(), c.name.as_str())
            invariant
                j <= r@.len(),
                forall|k: int| 0 <= k < j ==> name_leq(r@[k], c),
                r@.len() == i,
                i < v@.len(),
                c == v@[i as int],
                sorted_by_name(r@),
            decreases r@.len() - j,
        {
            j = j + 1;
        }
        proof {
            let old_r = r@;
            let newseq = r@.insert(j as int, c);
            assert forall|i1: int, j1: int| 0 <= i1 < j1 < newseq.len() implies name_leq(
                newseq[i1],
                newseq[j1],
            ) by {
                if j1 < j {
                    assert(newseq[i1] == old_r[i1] && newseq[j1] == old_r[j1]);
                } else if i1 < j && j1 == j {
                    assert(newseq[i1] == old_r[i1] && newseq[j1] == c);
                } else if i1 == j {
                    assert(newseq[i1] == c && newseq[j1] == old_r[j1 - 1]);
                    assert(j < old_r.len() && !name_leq(old_r[j as int], c));
                    lemma_lex_le_total(old_r[j as int].name@, c.name@);
                    assert(name_leq(c, old_r[j as int]));
                    if j1 - 1 > j {
                        assert(name_leq(old_r[j as int], old_r[j1 - 1]));
                        lemma_lex_le_trans(
                            c.name@,
                            old_r[j as int].name@,
                            old_r[j1 - 1].name@,
                        );
                    }
                } else if i1 < j {
                    assert(newseq[i1] == old_r[i1] && newseq[j1] == old_r[j1 - 1]);
                    assert(i1 < j1 - 1 < old_r.len());
                } else {
                    assert(newseq[i1] == old_r[i1 - 1] && newseq[j1] == old_r[j1 - 1]);
                }
            }
            lemma_insert_to_multiset(r@, j as int, c);
            broadcast use vstd::seq_lib::group_to_multiset_ensures;

            assert(v@.take(i + 1) =~= v@.take(i as int).push(v@[i as int]));
        }
        r.insert(j, c);
        i = i + 1;
    }
    proof {
        assert(v@.take(v@.len() as int) =~= v@);
    }
    r
}

/// What the planner decides for the owned channel within a sorted sibling
/// group: it already sorts first (and keeps its position), it belongs
/// right after the predecessor that held the carried position, or the
/// group holds no channel of this owner.
#[derive(PartialEq, Eq, Structural, Clone, Copy, Debug)]
pub enum Slot {
    /// The owned channel sorts first; the carried value is its own
    /// current position, which it keeps.
    First(u16),
    /// The owned channel follows another one; the carried value is the
    /// position its alphabetical predecessor held before the walk.
    After(u16),
    /// No channel of the group carries the marker.
    Absent,
}

/// The planner's decision over a sorted group, stated directly: the first
/// channel carrying the marker takes the position of its predecessor, or
/// keeps its own when it is first.
pub open spec fn spec_slot(s: Seq<Channel>, marker: Seq<char>) -> Slot {
    if !has_owned(s, marker) {
        Slot::Absent
    } else if first_owned_index(s, marker) == 0 {
        Slot::First(s[0].position)
    } else {
        Slot::After(s[first_owned_index(s, marker) - 1].position)
    }
}

/// Walk a non-empty sorted sibling group and decide the owned channel's
/// slot. The walk tracks the last position seen; the first channel whose
/// topic equals the marker adopts it.
pub fn slot_position(sorted: &Vec<Channel>, marker: &String) -> (r: Slot)
    requires
        sorted@.len() > 0,
    ensures
        r == spec_slot(sorted@, marker@),
{
    let mut last_pos: u16 = sorted[0].position;
    let mut i: usize = 0;
    while i < sorted.len()
        invariant
            i <= sorted@.len(),
            sorted@.len() > 0,
            forall|j: int| 0 <= j < i ==> !owned_by(sorted@[j], marker@),
            last_pos == if i == 0 {
                sorted@[0].position
            } else {
                sorted@[i - 1].position
            },
        decreases sorted@.len() - i,
    {
        let c = &sorted[i];
        let is_owned = match &c.topic {
            Some(t) => crate::order::str_eq(t.as_str(), marker.as_str()),
            None => false,
        };
        if is_owned {
            proof {
                lemma_find_owned_is_first(sorted@, marker@, i as int);
            }
            if i == 0 {
                return Slot::First(last_pos);
            } else {
                return Slot::After(last_pos);
            }
        }
        last_pos = c.position;
        i = i + 1;
    }
    Slot::Absent
}

/// Whether all display names of a group differ.
pub open spec fn distinct_names(s: Seq<Channel>) -> bool {
    forall|i: int, j: int| 0 <= i < j < s.len() ==> s[i].name@ != s[j].name@
}

/// Re-running the planner meets one single alphabetical order: when the
/// display names of a sibling group are distinct, any two sorted
/// arrangements of the group are equal. So after a rename, the sorted
/// walk of `plan_position` sees exactly the order a fresh alphabetical
/// sort by name yields, and the owned channel's slot is its position
/// relative to exactly those neighbours.
pub proof fn lemma_sorted_order_unique(a: Seq<Channel>, b: Seq<Channel>)
    requires
        a.to_multiset() == b.to_multiset(),
        sorted_by_name(a),
        sorted_by_name(b),
        distinct_names(a),
    ensures
        a == b,
    decreases a.len(),
{
    broadcast use vstd::seq_lib::group_to_multiset_ensures;

    if a.len() == 0 || b.len() == 0 {
        assert(a.len() == a.to_multiset().len());
        assert(b.len() == b.to_multiset().len());
        assert(a =~= b);
    } else {
        assert(a.contains(b[0])) by {
            assert(b.contains(b[0]));
            assert(a.to_multiset().count(b[0]) > 0);
        }
        let i = choose|i: int| 0 <= i < a.len() && a[i] == b[0];
        assert(b.contains(a[0])) by {
            assert(a.contains(a[0]));
            assert(b.to_multiset().count(a[0]) > 0);
        }
        let j = choose|j: int| 0 <= j < b.len() && b[j] == a[0];
        assert(name_leq(a[0], a[i]) || i == 0);
        assert(name_leq(b[0], b[j]) || j == 0);
        assert(a[0].name@ == b[0].name@) by {
            crate::order::lemma_lex_le_total(a[0].name@, b[0].name@);
            crate::order::lemma_lex_le_antisym(a[0].name@, b[0].name@);
        }
        assert(a[0] == b[0]) by {
            if i > 0 {
                assert(a[0].name@ != a[i].name@);
            }
        }
        let a1 = a.drop_first();
        let b1 = b.drop_first();
        assert(a1 =~= a.remove(0));
        assert(b1 =~= b.remove(0));
        assert(a1.to_multiset() == b1.to_multiset()) by {
            assert(a.remove(0).to_multiset() =~= a.to_multiset().remove(a[0]));
            assert(b.remove(0).to_multiset() =~= b.to_multiset().remove(b[0]));
        }
        assert(sorted_by_name(a1) && distinct_names(a1)) by {
            assert(forall|k: int| 0 <= k < a1.len() ==> a1[k] == a[k + 1]);
        }
        assert(sorted_by_name(b1)) by {
            assert(forall|k: int| 0 <= k < b1.len() ==> b1[k] == b[k + 1]);
        }
        lemma_sorted_order_unique(a1, b1);
        assert(a.len() == b.len()) by {
            assert(a.len() == a.to_multiset().len());
            assert(b.len() == b.to_multiset().len());
        }
        assert forall|k: int| 0 <= k < a.len() implies a[k] == b[k] by {
            if k > 0 {
                assert(a[k] == a1[k - 1]);
                assert(b[k] == b1[k - 1]);
            }
        }
        assert(a =~= b);
    }
}

/// The owned channel's planned slot, stated directly: in a sorted group
/// whose first channel carrying the marker stands at index `k`, the
/// planner assigns the position the predecessor holds, or the channel's
/// own position (no change) when it sorts first.
pub proof fn lemma_slot_is_predecessor_position(s: Seq<Channel>, marker: Seq<char>, k: int)
    requires
        0 <= k < s.len(),
        owned_by(s[k], marker),
        forall|j: int| 0 <= j < k ==> !owned_by(s[j], marker),
    ensures
        k > 0 ==> spec_slot(s, marker) == Slot::After(s[k - 1].position),
        k == 0 ==> spec_slot(s, marker) == Slot::First(s[0].position),
{
    lemma_find_owned_is_first(s, marker, k);
}

/// Under distinct display names the planner's slot is pinned: any two
/// sorted arrangements of one sibling group are the same arrangement, so
/// the slot does not depend on which sorted arrangement the planner
/// walked. With tied names the sorted order itself is ambiguous, and so
/// is the "alphabetical predecessor"; this statement assumes no ties.
pub proof fn lemma_planned_slot_unique(t1: Seq<Channel>, t2: Seq<Channel>, marker: Seq<char>)
    requires
        t1.to_multiset() == t2.to_multiset(),
        sorted_by_name(t1),
        sorted_by_name(t2),
        distinct_names(t1),
    ensures
        spec_slot(t1, marker) == spec_slot(t2, marker),
{
    lemma_sorted_order_unique(t1, t2);
}

/// Whether a group holds an owned channel depends only on which channels
/// it holds, not on their order.
pub proof fn lemma_has_owned_multiset(a: Seq<Channel>, b: Seq<Channel>, marker: Seq<char>)
    requires
        a.to_multiset() == b.to_multiset(),
    ensures
        has_owned(a, marker) == has_owned(b, marker),
{
    broadcast use vstd::seq_lib::group_to_multiset_ensures;

    if has_owned(a, marker) {
        let i = choose|i: int| 0 <= i < a.len() && owned_by(a[i], marker);
        assert(a.contains(a[i]));
        assert(b.to_multiset().count(a[i]) > 0);
        assert(b.contains(a[i]));
        let j = choose|j: int| 0 <= j < b.len() && b[j] == a[i];
        assert(owned_by(b[j], marker));
    }
    if has_owned(b, marker) {
        let i = choose|i: int| 0 <= i < b.len() && owned_by(b[i], marker);
        assert(b.contains(b[i]));
        assert(a.to_multiset().count(b[i]) > 0);
        assert(a.contains(b[i]));
        let j = choose|j: int| 0 <= j < a.len() && a[j] == b[i];
        assert(owned_by(a[j], marker));
    }
}

} // verus!
