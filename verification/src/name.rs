//! Fully-qualified DNS names modelled as an ordered list of labels.
//!
//! A name is stored leftmost-label first, so `child.example.` is the label
//! list `[child, example]` and the root is the empty list. The rightmost
//! labels of a name are the suffix of that list.

use vstd::prelude::*;

verus! {

/// The byte sequences held by a list of labels.
pub open spec fn label_views(s: Seq<Vec<u8>>) -> Seq<Seq<u8>> {
    s.map_values(|l: Vec<u8>| l@)
}

/// A fully-qualified DNS name: an ordered list of labels, leftmost first.
/// The root name has no labels.
pub struct DnsName {
    labels: Vec<Vec<u8>>,
}

/// Well-formedness of a name's label list: at most 127 labels, each label
/// between 1 and 63 bytes, following the DNS limits on name shape.
pub open spec fn labels_wf(labels: Seq<Seq<u8>>) -> bool {
    &&& labels.len() <= 127
    &&& forall|i: int| 0 <= i < labels.len() ==> 1 <= (#[trigger] labels[i]).len() <= 63
}

/// The rightmost `n` labels of `t`; the whole of `t` when `n` is not smaller
/// than its label count.
pub open spec fn spec_trim(t: Seq<Seq<u8>>, n: int) -> Seq<Seq<u8>> {
    if n >= t.len() {
        t
    } else {
        t.subrange(t.len() - n, t.len() as int)
    }
}

/// `o` is a label suffix of `t`: it consists of the rightmost `o.len()`
/// labels of `t`.
pub open spec fn is_label_suffix(o: Seq<Seq<u8>>, t: Seq<Seq<u8>>) -> bool {
    o.len() <= t.len() && o == spec_trim(t, o.len() as int)
}

impl View for DnsName {
    type V = Seq<Seq<u8>>;

    /// The mathematical value of a name: its labels as a sequence of byte
    /// sequences.
    closed spec fn view(&self) -> Seq<Seq<u8>> {
        label_views(self.labels@)
    }
}

impl DnsName {
    pub open spec fn wf(self) -> bool {
        labels_wf(self@)
    }

    /// The root name, with no labels.
    pub fn root() -> (r: DnsName)
        ensures
            r@ =~= Seq::<Seq<u8>>::empty(),
            r.wf(),
    {
        let r = DnsName { labels: Vec::new() };
        assert(r@ =~= Seq::<Seq<u8>>::empty());
        r
    }

    /// Builds a name from its labels, leftmost first; rejects label lists
    /// outside the DNS shape limits.
    pub fn new(labels: Vec<Vec<u8>>) -> (r: Option<DnsName>)
        ensures
            match r {
                Some(n) => n@ == label_views(labels@) && n.wf(),
                None => !labels_wf(label_views(labels@)),
            },
    {
        if labels.len() > 127 {
            return None;
        }
        let mut i: usize = 0;
        while i < labels.len()
            invariant
                0 <= i <= labels.len(),
                labels.len() <= 127,
                forall|k: int|
                    0 <= k < i ==> 1 <= (#[trigger] label_views(labels@)[k]).len() <= 63,
            decreases labels.len() - i,
        {
            if labels[i].len() < 1 || labels[i].len() > 63 {
                assert(label_views(labels@)[i as int].len() == labels@[i as int]@.len());
                return None;
            }
            assert(label_views(labels@)[i as int].len() == labels@[i as int]@.len());
            i += 1;
        }
        let r = DnsName { labels };
        Some(r)
    }

    /// The number of labels in the name; the root has 0.
    pub fn num_labels(&self) -> (r: u8)
        requires
            self.wf(),
        ensures
            r as int == self@.len(),
    {
        self.labels.len() as u8
    }

    /// The name truncated to its rightmost `n` labels; the name itself when
    /// it has no more than `n` labels.
    pub fn trim_to(&self, n: u8) -> (r: DnsName)
        requires
            self.wf(),
        ensures
            r@ == spec_trim(self@, n as int),
            r.wf(),
    {
        let len = self.labels.len();
        let keep: usize = if (n as usize) >= len {
            len
        } else {
            n as usize
        };
        let mut out: Vec<Vec<u8>> = Vec::new();
        let mut i: usize = len - keep;
        while i < len
            invariant
                len == self.labels.len(),
                len - keep <= i <= len,
                keep <= len,
                label_views(out@) =~= self@.subrange(len - keep, i as int),
            decreases len - i,
        {
            let ghost pre = out@;
            let label = clone_label(&self.labels[i]);
            out.push(label);
            proof {
                assert(out@ == pre.push(label));
                assert(label_views(out@) =~= label_views(pre).push(label@));
                assert(label@ == self@[i as int]);
                assert(label_views(out@) =~= self@.subrange(len - keep, i + 1));
            }
            i += 1;
        }
        let r = DnsName { labels: out };
        assert(r@ =~= spec_trim(self@, n as int));
        r
    }

    /// A fresh copy of the name.
    pub fn duplicate(&self) -> (r: DnsName)
        ensures
            r@ == self@,
    {
        let mut out: Vec<Vec<u8>> = Vec::new();
        let mut i: usize = 0;
        while i < self.labels.len()
            invariant
                0 <= i <= self.labels.len(),
                label_views(out@) =~= self@.subrange(0, i as int),
            decreases self.labels.len() - i,
        {
            let ghost pre = out@;
            let label = clone_label(&self.labels[i]);
            out.push(label);
            proof {
                assert(out@ == pre.push(label));
                assert(label_views(out@) =~= label_views(pre).push(label@));
                assert(label@ == self@[i as int]);
                assert(label_views(out@) =~= self@.subrange(0, i + 1));
            }
            i += 1;
        }
        let r = DnsName { labels: out };
        assert(r@ =~= self@);
        r
    }

    /// The name's labels, leftmost first, as fresh byte vectors.
    pub fn labels(&self) -> (r: Vec<Vec<u8>>)
        ensures
            label_views(r@) == self@,
    {
        let copy = self.duplicate();
        let DnsName { labels } = copy;
        labels
    }

    /// Whether two names are equal, label for label.
    pub fn same_name(&self, other: &DnsName) -> (r: bool)
        ensures
            r == (self@ == other@),
    {
        if self.labels.len() != other.labels.len() {
            assert(self@.len() != other@.len());
            return false;
        }
        let mut i: usize = 0;
        while i < self.labels.len()
            invariant
                0 <= i <= self.labels.len(),
                self.labels.len() == other.labels.len(),
                forall|k: int| 0 <= k < i ==> self@[k] == #[trigger] other@[k],
            decreases self.labels.len() - i,
        {
            if !same_label(&self.labels[i], &other.labels[i]) {
                assert(self@[i as int] == self.labels@[i as int]@);
                assert(other@[i as int] == other.labels@[i as int]@);
                assert(self@[i as int] != other@[i as int]);
                return false;
            }
            assert(self@[i as int] == self.labels@[i as int]@);
            assert(other@[i as int] == other.labels@[i as int]@);
            i += 1;
        }
        assert(self@ =~= other@);
        true
    }
}

/// Whether two labels hold the same bytes.
fn same_label(a: &Vec<u8>, b: &Vec<u8>) -> (r: bool)
    ensures
        r == (a@ == b@),
{
    if a.len() != b.len() {
        return false;
    }
    let mut i: usize = 0;
    while i < a.len()
        invariant
            0 <= i <= a.len(),
            a.len() == b.len(),
            forall|k: int| 0 <= k < i ==> a@[k] == #[trigger] b@[k],
        decreases a.len() - i,
    {
        if a[i] != b[i] {
            return false;
        }
        i += 1;
    }
    assert(a@ =~= b@);
    true
}

/// A fresh copy of a label's bytes.
fn clone_label(a: &Vec<u8>) -> (r: Vec<u8>)
    ensures
        r@ == a@,
{
    let mut out: Vec<u8> = Vec::new();
    let mut i: usize = 0;
    while i < a.len()
        invariant
            0 <= i <= a.len(),
            out@ =~= a@.subrange(0, i as int),
        decreases a.len() - i,
    {
        out.push(a[i]);
        i += 1;
    }
    assert(out@ =~= a@);
    out
}

} // verus!
