//! The delegation path: the ordered (parent, child) pairs of zone names to
//! walk from an origin down to a target name.
//!
//! Each pair is a label-boundary truncation of the target: at level L the
//! parent is the target's rightmost L labels and the child its rightmost
//! L + 1 labels. The walk starts at the origin's label count and ends when
//! the child is the target itself.

use vstd::prelude::*;
use crate::name::{is_label_suffix, labels_wf, spec_trim, DnsName};

verus! {

/// The full delegation path for a target, starting at an origin with
/// `origin_labels` labels: one (parent, child) pair per remaining label.
pub open spec fn delegation_path(target: Seq<Seq<u8>>, origin_labels: int) -> Seq<
    (Seq<Seq<u8>>, Seq<Seq<u8>>),
> {
    if 0 <= origin_labels <= target.len() {
        Seq::new(
            (target.len() - origin_labels) as nat,
            |i: int| (spec_trim(target, origin_labels + i), spec_trim(target, origin_labels + i + 1)),
        )
    } else {
        Seq::empty()
    }
}

/// Walks the delegation steps of a target name, one (parent, child) pair at
/// a time, from the starting level upward.
pub struct ZoneIterator {
    target: DnsName,
    current_level: u8,
}

impl ZoneIterator {
    /// The target name's labels.
    pub closed spec fn target_spec(self) -> Seq<Seq<u8>> {
        self.target@
    }

    /// The level the next step starts from: the label count of the next
    /// pair's parent.
    pub closed spec fn level_spec(self) -> int {
        self.current_level as int
    }

    pub open spec fn wf(self) -> bool {
        labels_wf(self.target_spec())
    }

    /// The next (parent, child) pair, or nothing once the child has reached
    /// the target.
    pub fn next(&mut self) -> (r: Option<(DnsName, DnsName)>)
        requires
            old(self).wf(),
        ensures
            final(self).wf(),
            final(self).target_spec() == old(self).target_spec(),
            old(self).level_spec() >= old(self).target_spec().len() ==> r is None
                && final(self).level_spec() == old(self).level_spec(),
            old(self).level_spec() < old(self).target_spec().len() ==> {
                &&& final(self).level_spec() == old(self).level_spec() + 1
                &&& match r {
                    Some(pair) => pair.0@ == spec_trim(
                        old(self).target_spec(),
                        old(self).level_spec(),
                    ) && pair.1@ == spec_trim(old(self).target_spec(), old(self).level_spec() + 1)
                        && pair.0.wf() && pair.1.wf(),
                    None => false,
                }
            },
    {
        if self.current_level >= self.target.num_labels() {
            return None;
        }
        self.current_level = self.current_level + 1;
        Some((self.target.trim_to(self.current_level - 1), self.target.trim_to(self.current_level)))
    }
}

/// Starts the delegation walk for `name` at the level of `origin`: the
/// first pair's parent is the origin's label count deep, and the walk runs
/// until the child is `name` itself.
pub fn iter(name: DnsName, origin: DnsName) -> (r: ZoneIterator)
    requires
        name.wf(),
        origin.wf(),
    ensures
        r.wf(),
        r.target_spec() == name@,
        r.level_spec() == origin@.len(),
{
    let current_level = origin.num_labels();
    ZoneIterator { target: name, current_level }
}

/// A truncation to a level within the name keeps exactly that many labels.
proof fn lemma_trim_len(t: Seq<Seq<u8>>, n: int)
    requires
        0 <= n <= t.len(),
    ensures
        spec_trim(t, n).len() == n,
{
}

/// For an origin that is a label suffix of the target, the delegation path
/// has exactly one step per label the target adds to the origin; each step's
/// parent and child are successive truncations of the target, the child one
/// label longer than its parent; the first parent is the origin and the last
/// child is the target itself.
pub proof fn lemma_delegation_path_steps(target: Seq<Seq<u8>>, origin: Seq<Seq<u8>>)
    requires
        is_label_suffix(origin, target),
    ensures
        delegation_path(target, origin.len() as int).len() == target.len() - origin.len(),
        forall|i: int|
            0 <= i < target.len() - origin.len()
                ==> (#[trigger] delegation_path(target, origin.len() as int)[i]) == (
            spec_trim(target, origin.len() + i),
            spec_trim(target, origin.len() + i + 1),
            ),
        forall|i: int|
            0 <= i < target.len() - origin.len()
                ==> (#[trigger] delegation_path(target, origin.len() as int)[i]).0.len()
                == origin.len() + i && delegation_path(target, origin.len() as int)[i].1.len()
                == origin.len() + i + 1,
        target.len() > origin.len() ==> delegation_path(target, origin.len() as int)[0].0
            == origin,
        target.len() > origin.len() ==> delegation_path(target, origin.len() as int).last().1
            == target,
{
    let n = origin.len() as int;
    assert forall|i: int| 0 <= i < target.len() - n implies (#[trigger] delegation_path(
        target,
        n,
    )[i]).0.len() == n + i && delegation_path(target, n)[i].1.len() == n + i + 1 by {
        lemma_trim_len(target, n + i);
        lemma_trim_len(target, n + i + 1);
    }
    if target.len() > origin.len() {
        assert(delegation_path(target, n)[0].0 == spec_trim(target, n));
        assert(spec_trim(target, n) == origin);
        let last = target.len() - n - 1;
        assert(delegation_path(target, n).last() == delegation_path(target, n)[last]);
        assert(delegation_path(target, n)[last].1 == spec_trim(target, target.len() as int));
    }
}

/// A walk whose origin is the target itself has no steps to check.
pub proof fn lemma_delegation_path_empty(target: Seq<Seq<u8>>)
    ensures
        delegation_path(target, target.len() as int).len() == 0,
{
}

} // verus!
