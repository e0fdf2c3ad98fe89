//! Preparing the report, and the decisions of one invocation.
//!
//! `compute` turns two snapshots into a prepared report: per-category
//! deltas on raw names, the label policy applied afterwards, and the widest
//! display name for column alignment. `plan_invocation` strings the whole
//! run together as a pure decision: whatever else happens, a successful
//! capture is always handed back serialized for persisting.

use vstd::prelude::*;
use crate::codec::{ser_spec, serialize_snapshot};
use crate::cpustat::ReadError;
use crate::delta::{
    DeltaError, PreparedStat, StatModel, category_delta, delta_spec, stats_view,
};
use crate::labels::{system_display_spec, user_display_spec, system_display_name, user_display_name};
use crate::snapshot::{SnapModel, Snapshot};

verus! {

/// Configuration of the CPU-accounting component: where the previous
/// snapshot is persisted, and the visibility threshold in parts per million
/// of one core.
#[derive(Clone, Debug, PartialEq, Eq)]
pub struct CgStats {
    pub state_file: String,
    pub threshold_ppm: i64,
}

/// The prepared, filtered, labeled result set handed to rendering.
#[derive(Clone, Debug, PartialEq, Eq)]
pub struct PreparedCgStats {
    /// Wall time between the two captures, microseconds.
    pub time_span_usec: u64,
    /// Length of the longest display name over both categories.
    pub max_name_width: usize,
    /// User-category lines, sorted by raw entity name.
    pub users: Vec<PreparedStat>,
    /// System-category lines, sorted by raw entity name.
    pub services: Vec<PreparedStat>,
}

impl Default for PreparedCgStats {
    /// The report of a run with no usable baseline: empty, zero-width,
    /// zero elapsed time.
    fn default() -> (r: Self)
        ensures
            r.time_span_usec == 0,
            r.max_name_width == 0,
            r.users@.len() == 0,
            r.services@.len() == 0,
    {
        PreparedCgStats {
            time_span_usec: 0,
            max_name_width: 0,
            users: Vec::new(),
            services: Vec::new(),
        }
    }
}

/// `out` is `raw` with the user label policy applied: loads kept, each name
/// either resolved through the host or left unchanged.
pub open spec fn labeled_users(raw: Seq<StatModel>, out: Seq<StatModel>) -> bool {
    &&& out.len() == raw.len()
    &&& forall|i: int| #![trigger out[i]] 0 <= i < raw.len() ==> {
        &&& out[i].load == raw[i].load
        &&& exists|res: Option<Seq<u8>>| out[i].name == user_display_spec(raw[i].name, res)
    }
}

/// `out` is `raw` with the system label policy applied: loads kept, names
/// stripped and truncated.
pub open spec fn labeled_services(raw: Seq<StatModel>, out: Seq<StatModel>) -> bool {
    &&& out.len() == raw.len()
    &&& forall|i: int| #![trigger out[i]] 0 <= i < raw.len() ==> {
        &&& out[i].load == raw[i].load
        &&& out[i].name == system_display_spec(raw[i].name)
    }
}

/// Length of the longest name in a line list.
pub open spec fn max_width_spec(s: Seq<StatModel>) -> int
    decreases s.len(),
{
    if s.len() == 0 {
        0
    } else {
        let rest = max_width_spec(s.drop_last());
        if s.last().name.len() > rest {
            s.last().name.len() as int
        } else {
            rest
        }
    }
}

/// Everything `compute` promises of a successful preparation.
pub open spec fn compute_post(
    now: SnapModel,
    before: SnapModel,
    cpu_count: u32,
    threshold_ppm: i64,
    rep: PreparedCgStats,
) -> bool {
    let elapsed = (now.captured_at_usec - before.captured_at_usec) as u64;
    &&& rep.time_span_usec == now.captured_at_usec - before.captured_at_usec
    &&& labeled_users(
        delta_spec(now.user, before.user, elapsed, cpu_count, threshold_ppm),
        stats_view(rep.users@),
    )
    &&& labeled_services(
        delta_spec(now.system, before.system, elapsed, cpu_count, threshold_ppm),
        stats_view(rep.services@),
    )
    &&& rep.max_name_width == if max_width_spec(stats_view(rep.users@)) > max_width_spec(
        stats_view(rep.services@),
    ) {
        max_width_spec(stats_view(rep.users@))
    } else {
        max_width_spec(stats_view(rep.services@))
    }
}

fn label_users(raw: Vec<PreparedStat>) -> (r: Vec<PreparedStat>)
    ensures
        labeled_users(stats_view(raw@), stats_view(r@)),
{
    let mut out: Vec<PreparedStat> = Vec::new();
    let mut i: usize = 0;
    while i < raw.len()
        invariant
            0 <= i <= raw@.len(),
            out@.len() == i,
            forall|j: int| #![trigger out@[j]] 0 <= j < i ==> {
                &&& out@[j]@.load == raw@[j]@.load
                &&& exists|res: Option<Seq<u8>>| out@[j]@.name == user_display_spec(raw@[j]@.name, res)
            },
        decreases raw.len() - i,
    {
        let nm = user_display_name(&raw[i].name);
        let ghost nmv = nm@;
        out.push(PreparedStat { name: nm, load: raw[i].load });
        proof {
            let res = choose|res: Option<Seq<u8>>|
                nmv == user_display_spec(raw@[i as int].name@, res);
            assert(out@[i as int]@.name == user_display_spec(raw@[i as int]@.name, res));
        }
        i = i + 1;
    }
    proof {
        assert forall|j: int| 0 <= j < stats_view(raw@).len() implies {
            &&& (#[trigger] stats_view(out@)[j]).load == stats_view(raw@)[j].load
            &&& exists|res: Option<Seq<u8>>|
                stats_view(out@)[j].name == user_display_spec(stats_view(raw@)[j].name, res)
        } by {
            assert(stats_view(out@)[j] == out@[j]@);
            assert(stats_view(raw@)[j] == raw@[j]@);
            let res = choose|res: Option<Seq<u8>>|
                out@[j]@.name == user_display_spec(raw@[j]@.name, res);
            assert(stats_view(out@)[j].name == user_display_spec(stats_view(raw@)[j].name, res));
        }
    }
    out
}

fn label_services(raw: Vec<PreparedStat>) -> (r: Vec<PreparedStat>)
    ensures
        labeled_services(stats_view(raw@), stats_view(r@)),
{
    let mut out: Vec<PreparedStat> = Vec::new();
    let mut i: usize = 0;
    while i < raw.len()
        invariant
            0 <= i <= raw@.len(),
            out@.len() == i,
            forall|j: int| #![trigger out@[j]] 0 <= j < i ==> {
                &&& out@[j]@.load == raw@[j]@.load
                &&& out@[j]@.name == system_display_spec(raw@[j]@.name)
            },
        decreases raw.len() - i,
    {
        let nm = system_display_name(&raw[i].name);
        out.push(PreparedStat { name: nm, load: raw[i].load });
        i = i + 1;
    }
    proof {
        assert forall|j: int| 0 <= j < stats_view(raw@).len() implies {
            &&& (#[trigger] stats_view(out@)[j]).load == stats_view(raw@)[j].load
            &&& stats_view(out@)[j].name == system_display_spec(stats_view(raw@)[j].name)
        } by {
            assert(stats_view(out@)[j] == out@[j]@);
            assert(stats_view(raw@)[j] == raw@[j]@);
        }
    }
    out
}

fn max_width_of(s: &Vec<PreparedStat>) -> (r: usize)
    ensures
        r == max_width_spec(stats_view(s@)),
{
    let ghost sv = stats_view(s@);
    let mut r: usize = 0;
    let mut i: usize = 0;
    proof {
        assert(sv.take(0) =~= Seq::<StatModel>::empty());
    }
    while i < s.len()
        invariant
            0 <= i <= s@.len(),
            sv == stats_view(s@),
            sv.len() == s@.len(),
            r == max_width_spec(sv.take(i as int)),
        decreases s.len() - i,
    {
        proof {
            assert(sv.take(i + 1).drop_last() =~= sv.take(i as int));
            assert(sv.take(i + 1).last() == sv[i as int]);
            assert(sv[i as int] == s@[i as int]@);
        }
        let l = s[i].name.len();
        if l > r {
            r = l;
        }
        i = i + 1;
    }
    proof {
        assert(sv.take(i as int) =~= sv);
    }
    r
}

/// Prepare the report from two snapshots.
///
/// Success is owed exactly when a usable CPU count is given and "now" was
/// captured strictly later than "before"; the two failure modes are pinned
/// to their inputs.
pub fn compute(
    now: &Snapshot,
    before: &Snapshot,
    cpu_count: Option<u32>,
    threshold_ppm: i64,
) -> (r: Result<PreparedCgStats, DeltaError>)
    ensures
        (cpu_count is None || cpu_count->0 == 0) ==> r == Result::<
            PreparedCgStats,
            DeltaError,
        >::Err(DeltaError::CpuCountUnavailable),
        (cpu_count is Some && cpu_count->0 >= 1 && now@.captured_at_usec
            <= before@.captured_at_usec) ==> r == Result::<PreparedCgStats, DeltaError>::Err(
            DeltaError::NonMonotonicClock,
        ),
        (cpu_count is Some && cpu_count->0 >= 1 && now@.captured_at_usec
            > before@.captured_at_usec) ==> r is Ok && compute_post(
            now@,
            before@,
            cpu_count->0,
            threshold_ppm,
            r->Ok_0,
        ),
{
    let c: u32 = match cpu_count {
        None => {
            return Err(DeltaError::CpuCountUnavailable);
        },
        Some(c) => c,
    };
    if c == 0 {
        return Err(DeltaError::CpuCountUnavailable);
    }
    if now.captured_at_usec <= before.captured_at_usec {
        return Err(DeltaError::NonMonotonicClock);
    }
    let elapsed = now.captured_at_usec - before.captured_at_usec;
    let raw_users = category_delta(&now.user, &before.user, elapsed, c, threshold_ppm);
    let raw_services = category_delta(&now.system, &before.system, elapsed, c, threshold_ppm);
    let users = label_users(raw_users);
    let services = label_services(raw_services);
    let wu = max_width_of(&users);
    let ws = max_width_of(&services);
    let mw = if wu > ws {
        wu
    } else {
        ws
    };
    Ok(PreparedCgStats { time_span_usec: elapsed, max_name_width: mw, users, services })
}

/// How one invocation ends, once its inputs are known.
pub enum PrepareOutcome {
    /// The capture itself failed: nothing to persist, render a diagnostic.
    CaptureFailed(ReadError),
    /// No usable prior snapshot: persist the capture, render the empty report.
    NoBaseline(PreparedCgStats),
    /// The delta could not be computed: persist the capture, render a diagnostic.
    ComputeFailed(DeltaError),
    /// Persist the capture and render the prepared report.
    Ready(PreparedCgStats),
}

/// Everything one invocation decides.
pub struct InvocationPlan {
    pub outcome: PrepareOutcome,
    /// Bytes to write to the state file, owed whenever capture succeeded.
    pub persist: Option<Vec<u8>>,
}

/// The decisions of one invocation, as a pure function of what the capture,
/// the prior-state load and the host lookups yielded.
///
/// Persistence is unconditional: every successful capture is serialized and
/// handed back for writing, whether or not a baseline existed and whether or
/// not the delta computation failed.
pub fn plan_invocation(
    capture: Result<Snapshot, ReadError>,
    prior: Option<Snapshot>,
    cpu_count: Option<u32>,
    threshold_ppm: i64,
) -> (r: InvocationPlan)
    ensures
        capture is Err ==> r.outcome == PrepareOutcome::CaptureFailed(capture->Err_0)
            && r.persist is None,
        capture is Ok ==> r.persist is Some && r.persist->0@ == ser_spec(capture->Ok_0@),
        capture is Ok && prior is None ==> r.outcome is NoBaseline && {
            let rep = r.outcome->NoBaseline_0;
            &&& rep.time_span_usec == 0
            &&& rep.max_name_width == 0
            &&& rep.users@.len() == 0
            &&& rep.services@.len() == 0
        },
        capture is Ok && prior is Some && (cpu_count is None || cpu_count->0 == 0)
            ==> r.outcome == PrepareOutcome::ComputeFailed(DeltaError::CpuCountUnavailable),
        capture is Ok && prior is Some && cpu_count is Some && cpu_count->0 >= 1
            && capture->Ok_0@.captured_at_usec <= prior->0@.captured_at_usec
            ==> r.outcome == PrepareOutcome::ComputeFailed(DeltaError::NonMonotonicClock),
        capture is Ok && prior is Some && cpu_count is Some && cpu_count->0 >= 1
            && capture->Ok_0@.captured_at_usec > prior->0@.captured_at_usec
            ==> r.outcome is Ready && compute_post(
            capture->Ok_0@,
            prior->0@,
            cpu_count->0,
            threshold_ppm,
            r.outcome->Ready_0,
        ),
{
    match capture {
        Err(e) => InvocationPlan { outcome: PrepareOutcome::CaptureFailed(e), persist: None },
        Ok(now) => {
            let bytes = serialize_snapshot(&now);
            let outcome = match prior {
                None => PrepareOutcome::NoBaseline(PreparedCgStats::default()),
                Some(before) => match compute(&now, &before, cpu_count, threshold_ppm) {
                    Err(e) => PrepareOutcome::ComputeFailed(e),
                    Ok(rep) => PrepareOutcome::Ready(rep),
                },
            };
            InvocationPlan { outcome, persist: Some(bytes) }
        },
    }
}

} // verus!
