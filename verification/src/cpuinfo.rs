//! CPU counter snapshots and the delta engine.
//!
//! A snapshot is one capture of the kernel's cumulative per-core tick
//! counters: for every core the busy ticks (user, niced and system time) and
//! the idle ticks, the aggregate over all cores, and the number of running
//! processes. Counters are cumulative since boot, so a single snapshot is
//! meaningless on its own; the delta engine subtracts two snapshots taken at
//! different times to obtain the work done in the interval between them.

use vstd::prelude::*;

use crate::error::SampleError;
use crate::parse::{
    digits_val, fields_of, lines_of, parse_ok, parse_u64, split_fields, split_lines, views_of,
};

verus! {

/// Busy and idle ticks of one core, or summed over all cores.
#[derive(Clone, Copy, Debug, PartialEq, Eq, Structural)]
pub struct CPULoad {
    /// Ticks spent on user, niced and system time.
    pub busy: u64,
    /// Ticks spent idle.
    pub idle: u64,
}

/// One capture of the CPU counters, or the delta between two captures.
#[derive(Debug)]
pub struct CPUInfo {
    /// Number of cores; always the length of `cores_load`.
    pub cores: usize,
    /// Per-core loads, indexed by core id in the order the source lists them.
    pub cores_load: Vec<CPULoad>,
    /// Element-wise sum over `cores_load`; derived, never read from the source.
    pub total_load: CPULoad,
    /// Number of currently running processes.
    pub processes: usize,
}

/// Sum of the busy ticks of a sequence of loads.
pub open spec fn sum_busy(s: Seq<CPULoad>) -> int
    decreases s.len(),
{
    if s.len() == 0 {
        0
    } else {
        sum_busy(s.drop_last()) + s.last().busy
    }
}

/// Sum of the idle ticks of a sequence of loads.
pub open spec fn sum_idle(s: Seq<CPULoad>) -> int
    decreases s.len(),
{
    if s.len() == 0 {
        0
    } else {
        sum_idle(s.drop_last()) + s.last().idle
    }
}

/// A line describing a single core: it starts with `cpu` immediately followed
/// by something other than a space (the core id). The aggregate row, which
/// starts with `cpu `, is excluded: the aggregate is derived, not read.
pub open spec fn is_core_line(l: Seq<u8>) -> bool {
    l.len() >= 3 && l[0] == 99 && l[1] == 112 && l[2] == 117 && !(l.len() >= 4 && l[3] == 32)
}

/// The line carrying the running-process count: it starts with
/// `procs_running`.
pub open spec fn is_procs_line(l: Seq<u8>) -> bool {
    l.len() >= 13 && l[0] == 112 && l[1] == 114 && l[2] == 111 && l[3] == 99 && l[4] == 115
        && l[5] == 95 && l[6] == 114 && l[7] == 117 && l[8] == 110 && l[9] == 110 && l[10] == 105
        && l[11] == 110 && l[12] == 103
}

/// A core line is well formed when it has at least five fields (the label,
/// the three busy counters and the idle counter), fields one through four are
/// decimal numbers, and the three busy counters sum within a `u64`.
pub open spec fn core_line_ok(l: Seq<u8>) -> bool {
    let fs = fields_of(l);
    fs.len() >= 5 && parse_ok(fs[1]) && parse_ok(fs[2]) && parse_ok(fs[3]) && parse_ok(fs[4])
        && digits_val(fs[1]) + digits_val(fs[2]) + digits_val(fs[3]) <= u64::MAX
}

/// The load a well-formed core line describes: busy is user plus niced plus
/// system time, idle is the fourth counter.
pub open spec fn core_line_load(l: Seq<u8>) -> CPULoad {
    let fs = fields_of(l);
    CPULoad {
        busy: (digits_val(fs[1]) + digits_val(fs[2]) + digits_val(fs[3])) as u64,
        idle: digits_val(fs[4]) as u64,
    }
}

/// A process-count line is well formed when its second field is a decimal
/// number that fits the process-count type.
pub open spec fn procs_line_ok(l: Seq<u8>) -> bool {
    let fs = fields_of(l);
    fs.len() >= 2 && parse_ok(fs[1]) && digits_val(fs[1]) <= usize::MAX
}

/// The process count a well-formed process-count line carries.
pub open spec fn procs_line_val(l: Seq<u8>) -> nat {
    digits_val(fields_of(l)[1])
}

/// The loads of all core lines, in the order the lines appear.
pub open spec fn core_loads_of(ls: Seq<Seq<u8>>) -> Seq<CPULoad>
    decreases ls.len(),
{
    if ls.len() == 0 {
        Seq::empty()
    } else {
        let rest = core_loads_of(ls.drop_last());
        if is_core_line(ls.last()) {
            rest.push(core_line_load(ls.last()))
        } else {
            rest
        }
    }
}

/// Every core line is well formed.
pub open spec fn cores_ok(ls: Seq<Seq<u8>>) -> bool {
    forall|k: int|
        #![trigger ls[k]]
        0 <= k < ls.len() ==> (is_core_line(ls[k]) ==> core_line_ok(ls[k]))
}

/// Every process-count line is well formed.
pub open spec fn procs_ok(ls: Seq<Seq<u8>>) -> bool {
    forall|k: int|
        #![trigger ls[k]]
        0 <= k < ls.len() ==> (is_procs_line(ls[k]) ==> procs_line_ok(ls[k]))
}

/// At least one process-count line is present.
pub open spec fn has_procs(ls: Seq<Seq<u8>>) -> bool {
    exists|k: int| 0 <= k < ls.len() && is_procs_line(#[trigger] ls[k])
}

/// The process count of the last process-count line; later lines win, as the
/// last assignment would.
pub open spec fn last_procs_val(ls: Seq<Seq<u8>>) -> nat
    decreases ls.len(),
{
    if ls.len() == 0 {
        0
    } else if is_procs_line(ls.last()) {
        procs_line_val(ls.last())
    } else {
        last_procs_val(ls.drop_last())
    }
}

/// The raw counter text has the expected shape: every core line and every
/// process-count line parses, a process count is present, and the per-core
/// loads sum within a `u64`.
pub open spec fn stat_ok(raw: Seq<u8>) -> bool {
    let ls = lines_of(raw);
    cores_ok(ls) && procs_ok(ls) && has_procs(ls)
        && sum_busy(core_loads_of(ls)) <= u64::MAX && sum_idle(core_loads_of(ls)) <= u64::MAX
}

/// The per-core loads the raw counter text describes.
pub open spec fn stat_loads(raw: Seq<u8>) -> Seq<CPULoad> {
    core_loads_of(lines_of(raw))
}

/// The process count the raw counter text describes.
pub open spec fn stat_processes(raw: Seq<u8>) -> nat {
    last_procs_val(lines_of(raw))
}

/// `new - old`, clamped to zero when the counter ran backwards.
pub open spec fn clamped_sub(old_v: u64, new_v: u64) -> u64 {
    if new_v >= old_v {
        (new_v - old_v) as u64
    } else {
        0
    }
}

/// The delta entry for core `i`: a clamped subtraction where the old
/// snapshot has the core, and the new value taken as a fresh zero baseline
/// where it does not (the core was hot-plugged since the old snapshot).
pub open spec fn delta_core(old_loads: Seq<CPULoad>, new_core: CPULoad, i: int) -> CPULoad {
    if 0 <= i < old_loads.len() {
        CPULoad {
            busy: clamped_sub(old_loads[i].busy, new_core.busy),
            idle: clamped_sub(old_loads[i].idle, new_core.idle),
        }
    } else {
        new_core
    }
}

/// The per-core deltas: one entry per core of the new snapshot, so cores
/// beyond the new count are dropped entirely.
pub open spec fn delta_loads(old_loads: Seq<CPULoad>, new_loads: Seq<CPULoad>) -> Seq<CPULoad> {
    Seq::new(new_loads.len(), |i: int| delta_core(old_loads, new_loads[i], i))
}

/// A counter of core `i` ran backwards between the two snapshots.
pub open spec fn core_regressed(os: Seq<CPULoad>, ns: Seq<CPULoad>, i: int) -> bool {
    0 <= i < ns.len() && i < os.len() && (ns[i].busy < os[i].busy || ns[i].idle < os[i].idle)
}

/// The sample pair is degraded: some aggregate or per-core counter ran
/// backwards, so at least one delta was clamped to zero.
pub open spec fn delta_degraded(o: CPUInfo, n: CPUInfo) -> bool {
    n.total_load.busy < o.total_load.busy || n.total_load.idle < o.total_load.idle
        || exists|i: int| #[trigger] core_regressed(o.cores_load@, n.cores_load@, i)
}

impl CPUInfo {
    /// A snapshot is well formed when its core count matches its per-core
    /// list and its aggregate is the element-wise sum over that list.
    pub open spec fn wf(self) -> bool {
        self.cores == self.cores_load@.len()
            && self.total_load.busy == sum_busy(self.cores_load@)
            && self.total_load.idle == sum_idle(self.cores_load@)
    }

    /// The empty snapshot: no cores, zero totals, zero processes.
    pub fn new() -> (r: CPUInfo)
        ensures
            r.cores == 0,
            r.cores_load@.len() == 0,
            r.total_load == (CPULoad { busy: 0, idle: 0 }),
            r.processes == 0,
            r.wf(),
    {
        CPUInfo { cores: 0, cores_load: Vec::new(), total_load: CPULoad { busy: 0, idle: 0 }, processes: 0 }
    }
}

/// Whether `line` describes a single core.
fn line_is_core(line: &Vec<u8>) -> (r: bool)
    ensures
        r == is_core_line(line@),
{
    if line.len() < 3 {
        return false;
    }
    if !(line[0] == 99 && line[1] == 112 && line[2] == 117) {
        return false;
    }
    if line.len() >= 4 && line[3] == 32 {
        return false;
    }
    true
}

/// Whether `line` carries the running-process count.
fn line_is_procs(line: &Vec<u8>) -> (r: bool)
    ensures
        r == is_procs_line(line@),
{
    if line.len() < 13 {
        return false;
    }
    line[0] == 112 && line[1] == 114 && line[2] == 111 && line[3] == 99 && line[4] == 115
        && line[5] == 95 && line[6] == 114 && line[7] == 117 && line[8] == 110 && line[9] == 110
        && line[10] == 105 && line[11] == 110 && line[12] == 103
}

impl CPUInfo {
    /// Rebuild this snapshot from the raw counter text.
    ///
    /// Each core line must carry at least five fields with numeric counters
    /// in positions one through four; the aggregate row is skipped and the
    /// aggregate recomputed as the sum of the per-core loads; the core count
    /// is the number of core lines; the process count must be present. Any
    /// missing or non-numeric field is a malformed-source error, and the
    /// snapshot is then left unchanged.
    pub fn update(&mut self, raw: &[u8]) -> (r: Result<(), SampleError>)
        ensures
            r is Ok <==> stat_ok(raw@),
            stat_ok(raw@) ==> {
                &&& final(self).cores_load@ == stat_loads(raw@)
                &&& final(self).cores == stat_loads(raw@).len()
                &&& final(self).total_load.busy == sum_busy(stat_loads(raw@))
                &&& final(self).total_load.idle == sum_idle(stat_loads(raw@))
                &&& final(self).processes == stat_processes(raw@)
                &&& final(self).wf()
            },
            !stat_ok(raw@) ==> r == Err::<(), SampleError>(SampleError::MalformedSource)
                && *final(self) == *old(self),
    {
        let lines = split_lines(raw);
        let ghost ls = lines_of(raw@);
        proof {
            assert(views_of(lines@) == ls);
        }
        let mut loads: Vec<CPULoad> = Vec::new();
        let mut processes: usize = 0;
        let mut found_procs: bool = false;
        let mut i: usize = 0;
        while i < lines.len()
            invariant
                i <= lines@.len(),
                ls == lines_of(raw@),
                views_of(lines@) == ls,
                ls.len() == lines@.len(),
                loads@ == core_loads_of(ls.take(i as int)),
                forall|k: int|
                    #![trigger ls[k]]
                    0 <= k < i ==> (is_core_line(ls[k]) ==> core_line_ok(ls[k])),
                forall|k: int|
                    #![trigger ls[k]]
                    0 <= k < i ==> (is_procs_line(ls[k]) ==> procs_line_ok(ls[k])),
                found_procs == exists|k: int|
                    0 <= k < i && is_procs_line(#[trigger] ls[k]),
                found_procs ==> processes == last_procs_val(ls.take(i as int)),
            decreases lines@.len() - i,
        {
            let line = &lines[i];
            proof {
                assert(line@ == ls[i as int]);
                assert(ls.take(i as int + 1).drop_last() =~= ls.take(i as int));
                assert(ls.take(i as int + 1).last() == ls[i as int]);
            }
            if line_is_core(line) {
                let fields = split_fields(line.as_slice());
                let ghost fs = fields_of(ls[i as int]);
                proof {
                    assert(views_of(fields@) == fs);
                    assert(fields@.len() == fs.len());
                }
                if fields.len() < 5 {
                    proof {
                        assert(!core_line_ok(ls[i as int]));
                        assert(!cores_ok(ls));
                    }
                    return Err(SampleError::MalformedSource);
                }
                proof {
                    assert(fields@[1]@ == fs[1]);
                    assert(fields@[2]@ == fs[2]);
                    assert(fields@[3]@ == fs[3]);
                    assert(fields@[4]@ == fs[4]);
                }
                let v1 = match parse_u64(&fields[1]) {
                    Some(v) => v,
                    None => {
                        proof {
                            assert(!core_line_ok(ls[i as int]));
                            assert(!cores_ok(ls));
                        }
                        return Err(SampleError::MalformedSource);
                    },
                };
                let v2 = match parse_u64(&fields[2]) {
                    Some(v) => v,
                    None => {
                        proof {
                            assert(!core_line_ok(ls[i as int]));
                            assert(!cores_ok(ls));
                        }
                        return Err(SampleError::MalformedSource);
                    },
                };
                let v3 = match parse_u64(&fields[3]) {
                    Some(v) => v,
                    None => {
                        proof {
                            assert(!core_line_ok(ls[i as int]));
                            assert(!cores_ok(ls));
                        }
                        return Err(SampleError::MalformedSource);
                    },
                };
                let v4 = match parse_u64(&fields[4]) {
                    Some(v) => v,
                    None => {
                        proof {
                            assert(!core_line_ok(ls[i as int]));
                            assert(!cores_ok(ls));
                        }
                        return Err(SampleError::MalformedSource);
                    },
                };
                if v2 > u64::MAX - v1 {
                    proof {
                        assert(!core_line_ok(ls[i as int]));
                        assert(!cores_ok(ls));
                    }
                    return Err(SampleError::MalformedSource);
                }
                let busy12 = v1 + v2;
                if v3 > u64::MAX - busy12 {
                    proof {
                        assert(!core_line_ok(ls[i as int]));
                        assert(!cores_ok(ls));
                    }
                    return Err(SampleError::MalformedSource);
                }
                let busy = busy12 + v3;
                loads.push(CPULoad { busy, idle: v4 });
                proof {
                    assert(loads@.last() == core_line_load(ls[i as int]));
                    assert(loads@ =~= core_loads_of(ls.take(i as int + 1)));
                    assert(last_procs_val(ls.take(i as int + 1))
                        == last_procs_val(ls.take(i as int)));
                }
            } else if line_is_procs(line) {
                let fields = split_fields(line.as_slice());
                let ghost fs = fields_of(ls[i as int]);
                proof {
                    assert(views_of(fields@) == fs);
                    assert(fields@.len() == fs.len());
                }
                if fields.len() < 2 {
                    proof {
                        assert(!procs_line_ok(ls[i as int]));
                        assert(!procs_ok(ls));
                    }
                    return Err(SampleError::MalformedSource);
                }
                proof {
                    assert(fields@[1]@ == fs[1]);
                }
                let v = match parse_u64(&fields[1]) {
                    Some(v) => v,
                    None => {
                        proof {
                            assert(!procs_line_ok(ls[i as int]));
                            assert(!procs_ok(ls));
                        }
                        return Err(SampleError::MalformedSource);
                    },
                };
                if v > usize::MAX as u64 {
                    proof {
                        assert(!procs_line_ok(ls[i as int]));
                        assert(!procs_ok(ls));
                    }
                    return Err(SampleError::MalformedSource);
                }
                processes = v as usize;
                found_procs = true;
                proof {
                    assert(core_loads_of(ls.take(i as int + 1)) == loads@);
                    assert(last_procs_val(ls.take(i as int + 1)) == procs_line_val(ls[i as int]));
                    assert(is_procs_line(ls[i as int]));
                }
            } else {
                proof {
                    assert(core_loads_of(ls.take(i as int + 1)) == loads@);
                    assert(last_procs_val(ls.take(i as int + 1))
                        == last_procs_val(ls.take(i as int)));
                }
            }
            i += 1;
        }
        proof {
            assert(ls.take(ls.len() as int) =~= ls);
        }
        if !found_procs {
            proof {
                assert(!has_procs(ls));
            }
            return Err(SampleError::MalformedSource);
        }
        let mut total_busy: u64 = 0;
        let mut total_idle: u64 = 0;
        let mut k: usize = 0;
        while k < loads.len()
            invariant
                k <= loads@.len(),
                ls == lines_of(raw@),
                loads@ == core_loads_of(ls),
                total_busy == sum_busy(loads@.take(k as int)),
                total_idle == sum_idle(loads@.take(k as int)),
            decreases loads@.len() - k,
        {
            let c = loads[k];
            proof {
                assert(loads@.take(k as int + 1).drop_last() =~= loads@.take(k as int));
                assert(loads@.take(k as int + 1).last() == loads@[k as int]);
            }
            if c.busy > u64::MAX - total_busy {
                proof {
                    lemma_sum_prefix(loads@, k as int + 1);
                }
                return Err(SampleError::MalformedSource);
            }
            if c.idle > u64::MAX - total_idle {
                proof {
                    lemma_sum_prefix(loads@, k as int + 1);
                }
                return Err(SampleError::MalformedSource);
            }
            total_busy = total_busy + c.busy;
            total_idle = total_idle + c.idle;
            k += 1;
        }
        proof {
            assert(loads@.take(loads@.len() as int) =~= loads@);
        }
        self.cores = loads.len();
        self.cores_load = loads;
        self.total_load = CPULoad { busy: total_busy, idle: total_idle };
        self.processes = processes;
        Ok(())
    }

    /// Compute the delta snapshot of two captures.
    ///
    /// Core count and process count are copied from the newer capture; the
    /// aggregate and every per-core load are subtracted old from new. A core
    /// the old capture lacks is treated as a fresh zero baseline, a core the
    /// new capture lacks is dropped, and a counter that ran backwards is
    /// clamped to zero. The returned flag reports whether any clamping
    /// happened, marking the sample pair as degraded.
    pub fn calculate_delta(delta: &mut CPUInfo, old_info: &CPUInfo, new_info: &CPUInfo) -> (degraded: bool)
        requires
            new_info.cores == new_info.cores_load@.len(),
        ensures
            final(delta).cores == new_info.cores,
            final(delta).processes == new_info.processes,
            final(delta).total_load.busy
                == clamped_sub(old_info.total_load.busy, new_info.total_load.busy),
            final(delta).total_load.idle
                == clamped_sub(old_info.total_load.idle, new_info.total_load.idle),
            final(delta).cores_load@ == delta_loads(old_info.cores_load@, new_info.cores_load@),
            degraded == delta_degraded(*old_info, *new_info),
    {
        let ghost os = old_info.cores_load@;
        let ghost ns = new_info.cores_load@;
        delta.cores = new_info.cores;
        delta.processes = new_info.processes;
        let mut degraded = false;
        if new_info.total_load.busy >= old_info.total_load.busy {
            delta.total_load.busy = new_info.total_load.busy - old_info.total_load.busy;
        } else {
            delta.total_load.busy = 0;
            degraded = true;
        }
        if new_info.total_load.idle >= old_info.total_load.idle {
            delta.total_load.idle = new_info.total_load.idle - old_info.total_load.idle;
        } else {
            delta.total_load.idle = 0;
            degraded = true;
        }
        let mut loads: Vec<CPULoad> = Vec::new();
        let mut i: usize = 0;
        while i < new_info.cores
            invariant
                i <= new_info.cores,
                new_info.cores == ns.len(),
                ns == new_info.cores_load@,
                os == old_info.cores_load@,
                loads@.len() == i,
                forall|j: int| 0 <= j < i ==> loads@[j] == delta_core(os, ns[j], j),
                degraded == (new_info.total_load.busy < old_info.total_load.busy
                    || new_info.total_load.idle < old_info.total_load.idle
                    || exists|j: int| j < i && #[trigger] core_regressed(os, ns, j)),
            decreases new_info.cores - i,
        {
            let ncore = new_info.cores_load[i];
            if i < old_info.cores_load.len() {
                let ocore = old_info.cores_load[i];
                let dbusy: u64;
                let didle: u64;
                if ncore.busy >= ocore.busy {
                    dbusy = ncore.busy - ocore.busy;
                } else {
                    dbusy = 0;
                    degraded = true;
                    proof {
                        assert(core_regressed(os, ns, i as int));
                    }
                }
                if ncore.idle >= ocore.idle {
                    didle = ncore.idle - ocore.idle;
                } else {
                    didle = 0;
                    degraded = true;
                    proof {
                        assert(core_regressed(os, ns, i as int));
                    }
                }
                proof {
                    if ncore.busy >= ocore.busy && ncore.idle >= ocore.idle {
                        assert(!core_regressed(os, ns, i as int));
                    }
                }
                loads.push(CPULoad { busy: dbusy, idle: didle });
            } else {
                proof {
                    assert(!core_regressed(os, ns, i as int));
                }
                loads.push(ncore);
            }
            i += 1;
        }
        delta.cores_load = loads;
        proof {
            assert(final(delta).cores_load@ =~= delta_loads(os, ns));
        }
        degraded
    }
}

/// A prefix of a load sequence never sums to more than the whole sequence.
proof fn lemma_sum_prefix(s: Seq<CPULoad>, m: int)
    requires
        0 <= m <= s.len(),
    ensures
        sum_busy(s.take(m)) <= sum_busy(s),
        sum_idle(s.take(m)) <= sum_idle(s),
    decreases s.len() - m,
{
    if m == s.len() {
        assert(s.take(m) =~= s);
    } else {
        lemma_sum_prefix(s, m + 1);
        assert(s.take(m + 1).drop_last() =~= s.take(m));
        assert(sum_busy(s.take(m + 1)) == sum_busy(s.take(m)) + s[m].busy);
        assert(sum_idle(s.take(m + 1)) == sum_idle(s.take(m)) + s[m].idle);
    }
}

/// Sums of unsigned loads are never negative.
proof fn lemma_sum_nonneg(s: Seq<CPULoad>)
    ensures
        sum_busy(s) >= 0,
        sum_idle(s) >= 0,
    decreases s.len(),
{
    if s.len() > 0 {
        lemma_sum_nonneg(s.drop_last());
    }
}

/// The per-core delta sums equal the difference of the per-core sums, as
/// long as no core vanished and no common counter regressed.
proof fn lemma_delta_sum(os: Seq<CPULoad>, ns: Seq<CPULoad>)
    requires
        os.len() <= ns.len(),
        forall|i: int|
            0 <= i < os.len() ==> (#[trigger] ns[i]).busy >= os[i].busy && ns[i].idle
                >= os[i].idle,
    ensures
        sum_busy(delta_loads(os, ns)) == sum_busy(ns) - sum_busy(os),
        sum_idle(delta_loads(os, ns)) == sum_idle(ns) - sum_idle(os),
    decreases ns.len(),
{
    let ds = delta_loads(os, ns);
    if ns.len() == 0 {
        assert(ds =~= Seq::<CPULoad>::empty());
    } else if os.len() == ns.len() {
        let os1 = os.drop_last();
        let ns1 = ns.drop_last();
        assert forall|i: int| 0 <= i < os1.len() implies (#[trigger] ns1[i]).busy >= os1[i].busy
            && ns1[i].idle >= os1[i].idle by {
            assert(ns1[i] == ns[i]);
            assert(os1[i] == os[i]);
        }
        lemma_delta_sum(os1, ns1);
        assert(delta_loads(os1, ns1) =~= ds.drop_last());
        assert(ds.last() == delta_core(os, ns.last(), ns.len() - 1));
        assert(ns[ns.len() - 1].busy >= os[ns.len() - 1].busy);
        assert(sum_busy(ds) == sum_busy(ds.drop_last()) + ds.last().busy);
        assert(sum_idle(ds) == sum_idle(ds.drop_last()) + ds.last().idle);
    } else {
        let ns1 = ns.drop_last();
        lemma_delta_sum(os, ns1);
        assert(delta_loads(os, ns1) =~= ds.drop_last());
        assert(ds.last() == delta_core(os, ns.last(), ns.len() - 1));
        assert(sum_busy(ds) == sum_busy(ds.drop_last()) + ds.last().busy);
        assert(sum_idle(ds) == sum_idle(ds.drop_last()) + ds.last().idle);
    }
}

/// Law: between two well-formed snapshots whose common counters did not
/// regress and whose core count did not shrink, the aggregate delta equals
/// the sum of the per-core deltas, and the sample pair is not degraded.
pub proof fn lemma_delta_aggregate_is_core_sum(o: CPUInfo, n: CPUInfo)
    requires
        o.wf(),
        n.wf(),
        o.cores_load@.len() <= n.cores_load@.len(),
        forall|i: int|
            0 <= i < o.cores_load@.len() ==> (#[trigger] n.cores_load@[i]).busy
                >= o.cores_load@[i].busy && n.cores_load@[i].idle >= o.cores_load@[i].idle,
    ensures
        sum_busy(delta_loads(o.cores_load@, n.cores_load@))
            == clamped_sub(o.total_load.busy, n.total_load.busy),
        sum_idle(delta_loads(o.cores_load@, n.cores_load@))
            == clamped_sub(o.total_load.idle, n.total_load.idle),
        !delta_degraded(o, n),
{
    let os = o.cores_load@;
    let ns = n.cores_load@;
    lemma_delta_sum(os, ns);
    lemma_sum_nonneg(delta_loads(os, ns));
    assert(sum_busy(ns) >= sum_busy(os));
    assert(sum_idle(ns) >= sum_idle(os));
    assert forall|i: int| !core_regressed(os, ns, i) by {
        if 0 <= i < ns.len() && i < os.len() {
            assert(ns[i].busy >= os[i].busy && ns[i].idle >= os[i].idle);
        }
    }
}

} // verus!
