//! The rolling window behind the utilization trend display.
//!
//! One utilization ratio is produced per refresh tick; the window keeps the
//! most recent `GRAPH_SIZE` of them, oldest first, pre-filled with zeros at
//! construction. It is a FIFO with fixed capacity: every push appends the
//! newest value and evicts the oldest, so the length never changes.

use vstd::prelude::*;

use crate::ratio::Ratio;

verus! {

/// Number of slots in the trend window.
pub const GRAPH_SIZE: usize = 51;

/// A fixed-capacity rolling window of utilization ratios, oldest first.
#[derive(Debug)]
pub struct Graph {
    data: Vec<Ratio>,
}

/// One step of the window: drop the oldest value, append the newest.
pub open spec fn shifted(s: Seq<Ratio>, v: Ratio) -> Seq<Ratio> {
    s.subrange(1, s.len() as int).push(v)
}

/// The window after a whole sequence of pushes, oldest push first.
pub open spec fn pushed_all(s: Seq<Ratio>, vs: Seq<Ratio>) -> Seq<Ratio>
    decreases vs.len(),
{
    if vs.len() == 0 {
        s
    } else {
        shifted(pushed_all(s, vs.drop_last()), vs.last())
    }
}

impl Graph {
    /// The stored ratios, oldest first.
    pub closed spec fn values(self) -> Seq<Ratio> {
        self.data@
    }

    /// The window always holds exactly `GRAPH_SIZE` well-formed ratios.
    pub open spec fn wf(self) -> bool {
        self.values().len() == GRAPH_SIZE
            && forall|i: int| 0 <= i < self.values().len() ==> (#[trigger] self.values()[i]).wf()
    }

    /// A window pre-filled with zero ratios.
    pub fn new() -> (g: Graph)
        ensures
            g.wf(),
            forall|i: int|
                0 <= i < GRAPH_SIZE ==> #[trigger] g.values()[i] == (Ratio { num: 0u64, den: 1u128 }),
    {
        let mut data: Vec<Ratio> = Vec::new();
        let mut i: usize = 0;
        while i < GRAPH_SIZE
            invariant
                i <= GRAPH_SIZE,
                data@.len() == i,
                forall|j: int| 0 <= j < i ==> #[trigger] data@[j] == (Ratio { num: 0u64, den: 1u128 }),
            decreases GRAPH_SIZE - i,
        {
            data.push(Ratio::zero());
            i += 1;
        }
        Graph { data }
    }

    /// Append `entry` and evict the oldest value. The stored ratios are
    /// documented to come from the utilization computation, which always
    /// yields a well-formed ratio; the window itself does no clamping.
    pub fn push(&mut self, entry: Ratio)
        requires
            old(self).wf(),
            entry.wf(),
        ensures
            final(self).wf(),
            final(self).values() == shifted(old(self).values(), entry),
    {
        let mut i: usize = 0;
        while i < GRAPH_SIZE - 1
            invariant
                i <= GRAPH_SIZE - 1,
                self.data@.len() == GRAPH_SIZE,
                old(self).data@.len() == GRAPH_SIZE,
                forall|j: int| 0 <= j < i ==> #[trigger] self.data@[j] == old(self).data@[j + 1],
                forall|j: int| i <= j < GRAPH_SIZE ==> #[trigger] self.data@[j] == old(self).data@[j],
            decreases GRAPH_SIZE - i,
        {
            let v = self.data[i + 1];
            self.data.set(i, v);
            i += 1;
        }
        self.data.set(GRAPH_SIZE - 1, entry);
        proof {
            assert(self.data@ =~= shifted(old(self).data@, entry));
        }
    }

    /// The discrete column heights of the window: `floor(ratio * max)` for
    /// each slot, oldest first. Pure: the window is not changed, and equal
    /// windows give equal heights.
    pub fn height_values(&self, max: usize) -> (r: Vec<usize>)
        requires
            self.wf(),
        ensures
            r@.len() == GRAPH_SIZE,
            forall|i: int|
                0 <= i < GRAPH_SIZE ==> #[trigger] r@[i] == self.values()[i].spec_scaled(max as int)
                    && r@[i] <= max,
    {
        let mut result: Vec<usize> = Vec::new();
        let mut i: usize = 0;
        while i < GRAPH_SIZE
            invariant
                i <= GRAPH_SIZE,
                self.wf(),
                result@.len() == i,
                forall|j: int|
                    0 <= j < i ==> #[trigger] result@[j] == self.values()[j].spec_scaled(max as int)
                        && result@[j] <= max,
            decreases GRAPH_SIZE - i,
        {
            let h = self.data[i].scaled(max);
            result.push(h);
            i += 1;
        }
        result
    }
}

/// Helper for the window law: as long as no more values were pushed than the
/// window holds, the window is the tail of its old contents followed by the
/// pushed values.
proof fn lemma_pushed_all_partial(s: Seq<Ratio>, vs: Seq<Ratio>)
    requires
        1 <= s.len(),
        vs.len() <= s.len(),
    ensures
        pushed_all(s, vs) == s.subrange(vs.len() as int, s.len() as int) + vs,
    decreases vs.len(),
{
    if vs.len() == 0 {
        assert(s.subrange(0, s.len() as int) + vs =~= s);
    } else {
        lemma_pushed_all_partial(s, vs.drop_last());
        let prev = s.subrange(vs.len() as int - 1, s.len() as int) + vs.drop_last();
        assert(shifted(prev, vs.last()) =~= s.subrange(vs.len() as int, s.len() as int) + vs);
    }
}

/// Law: after at least `GRAPH_SIZE` pushes the window holds exactly the last
/// `GRAPH_SIZE` pushed values, in push order — whatever it held before the
/// pushes is gone, and the length is still exactly `GRAPH_SIZE`.
pub proof fn lemma_window_holds_last_pushes(s: Seq<Ratio>, vs: Seq<Ratio>)
    requires
        s.len() == GRAPH_SIZE,
        vs.len() >= GRAPH_SIZE,
    ensures
        pushed_all(s, vs) == vs.subrange(vs.len() - GRAPH_SIZE as int, vs.len() as int),
        pushed_all(s, vs).len() == GRAPH_SIZE,
    decreases vs.len(),
{
    if vs.len() == GRAPH_SIZE {
        lemma_pushed_all_partial(s, vs);
        assert(s.subrange(vs.len() as int, s.len() as int) + vs =~= vs.subrange(
            vs.len() - GRAPH_SIZE as int,
            vs.len() as int,
        ));
    } else {
        lemma_window_holds_last_pushes(s, vs.drop_last());
        let prev = vs.drop_last().subrange(
            vs.drop_last().len() - GRAPH_SIZE as int,
            vs.drop_last().len() as int,
        );
        assert(shifted(prev, vs.last()) =~= vs.subrange(
            vs.len() - GRAPH_SIZE as int,
            vs.len() as int,
        ));
    }
}

} // verus!
