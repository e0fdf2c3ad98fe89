//! Delta engine: per-entity CPU utilization between two snapshots.
//!
//! The load of an entity is the exact rational
//! `(now_counter - before_counter) / (elapsed_usec * cpu_count)`, kept as a
//! signed numerator and positive denominator so no precision is lost. The
//! visibility threshold is given in parts per million of one core and the
//! test is greater-or-equal, so a load exactly at the threshold is kept.

use vstd::prelude::*;
use crate::bytes::{lex_lt, lemma_lex_lt_neq};
use crate::snapshot::{
    Entry, EntryModel, entries_view, entries_sorted, lookup, contains_name, lemma_sorted_pair,
    lookup_entry,
};

verus! {

#[derive(Clone, Copy, Debug, PartialEq, Eq, Structural)]
pub enum DeltaError {
    /// "now" was not captured strictly later than "before".
    NonMonotonicClock,
    /// The host reported no usable logical CPU count.
    CpuCountUnavailable,
}

/// An exact load fraction `num / den`, in units of one fully used core.
/// Negative when a counter appears to have decreased (a recycled group).
#[derive(Clone, Copy, Debug, PartialEq, Eq, Structural)]
pub struct LoadRatio {
    pub num: i128,
    pub den: u128,
}

impl LoadRatio {
    /// Shape every load produced by the engine has: the numerator is a
    /// difference of two 64-bit counters and the denominator is a positive
    /// product of a 64-bit microsecond span and a 32-bit CPU count.
    pub open spec fn wf(&self) -> bool {
        &&& 1 <= self.den <= 0xFFFF_FFFF_FFFF_FFFFu128 * 0xFFFF_FFFFu128
        &&& -0xFFFF_FFFF_FFFF_FFFFi128 <= self.num <= 0xFFFF_FFFF_FFFF_FFFFi128
    }
}

/// The visibility test: `delta / (elapsed * cpus) >= threshold_ppm / 10^6`,
/// multiplied out so it is stated over integers only.
pub open spec fn meets_threshold(
    delta: int,
    elapsed_usec: int,
    cpu_count: int,
    threshold_ppm: int,
) -> bool {
    delta * 1000000 >= threshold_ppm * elapsed_usec * cpu_count
}

/// Decide the visibility test without floating point and without overflow.
pub fn load_meets_threshold(
    delta: i128,
    elapsed_usec: u64,
    cpu_count: u32,
    threshold_ppm: i64,
) -> (r: bool)
    requires
        1 <= elapsed_usec,
        1 <= cpu_count,
        -0xFFFF_FFFF_FFFF_FFFFi128 <= delta <= 0xFFFF_FFFF_FFFF_FFFFi128,
    ensures
        r == meets_threshold(delta as int, elapsed_usec as int, cpu_count as int, threshold_ppm as int),
{
    proof {
        assert((elapsed_usec as int) * (cpu_count as int) <= 0xFFFF_FFFF_FFFF_FFFF * 0xFFFF_FFFF)
            by (nonlinear_arith)
            requires
                elapsed_usec <= 0xFFFF_FFFF_FFFF_FFFFu64,
                cpu_count <= 0xFFFF_FFFFu32,
        ;
        assert((elapsed_usec as int) * (cpu_count as int) >= 1) by (nonlinear_arith)
            requires
                elapsed_usec >= 1,
                cpu_count >= 1,
        ;
    }
    let lhs: i128 = delta * 1_000_000;
    let ec: u128 = (elapsed_usec as u128) * (cpu_count as u128);
    let ghost p: int = threshold_ppm as int;
    let ghost rhs: int = p * (elapsed_usec as int) * (cpu_count as int);
    proof {
        assert(rhs == p * (ec as int)) by (nonlinear_arith)
            requires
                rhs == p * (elapsed_usec as int) * (cpu_count as int),
                ec == (elapsed_usec as int) * (cpu_count as int),
        ;
    }
    if threshold_ppm >= 0 {
        if lhs < 0 {
            proof {
                assert(p * (ec as int) >= 0) by (nonlinear_arith)
                    requires
                        p >= 0,
                        ec >= 1,
                ;
            }
            false
        } else {
            let q: u128 = (lhs as u128) / ec;
            proof {
                vstd::arithmetic::div_mod::lemma_fundamental_div_mod(lhs as int, ec as int);
                let m = (lhs as int) % (ec as int);
                if p <= q {
                    assert(p * (ec as int) <= lhs) by (nonlinear_arith)
                        requires
                            p <= q as int,
                            lhs == (ec as int) * (q as int) + m,
                            m >= 0,
                            ec >= 1,
                    ;
                } else {
                    assert(p * (ec as int) > lhs) by (nonlinear_arith)
                        requires
                            p >= q + 1,
                            lhs == (ec as int) * (q as int) + m,
                            m < ec,
                            ec >= 1,
                    ;
                }
            }
            (threshold_ppm as u128) <= q
        }
    } else {
        if lhs >= 0 {
            proof {
                assert(p * (ec as int) < 0) by (nonlinear_arith)
                    requires
                        p <= -1,
                        ec >= 1,
                ;
            }
            true
        } else {
            let np: u128 = (-(threshold_ppm as i128)) as u128;
            let nl: u128 = (-lhs) as u128;
            let q2: u128 = (nl - 1) / ec;
            proof {
                vstd::arithmetic::div_mod::lemma_fundamental_div_mod((nl - 1) as int, ec as int);
                let m = ((nl - 1) as int) % (ec as int);
                // meets  <==>  (-p) * ec >= nl  <==>  !((-p) * ec <= nl - 1)
                if np <= q2 {
                    assert((np as int) * (ec as int) <= nl - 1) by (nonlinear_arith)
                        requires
                            np <= q2 as int,
                            (nl - 1) as int == (ec as int) * (q2 as int) + m,
                            m >= 0,
                            ec >= 1,
                    ;
                    assert(p * (ec as int) >= 1 - (nl as int)) by (nonlinear_arith)
                        requires
                            (np as int) * (ec as int) <= (nl as int) - 1,
                            np == -p,
                    ;
                } else {
                    assert((np as int) * (ec as int) > nl - 1) by (nonlinear_arith)
                        requires
                            np >= q2 + 1,
                            (nl - 1) as int == (ec as int) * (q2 as int) + m,
                            m < ec,
                            ec >= 1,
                    ;
                    assert(p * (ec as int) < 1 - (nl as int)) by (nonlinear_arith)
                        requires
                            (np as int) * (ec as int) > (nl as int) - 1,
                            np == -p,
                    ;
                }
            }
            !(np <= q2)
        }
    }
}

/// One line of the prepared report: a display name and its exact load.
#[derive(Clone, Debug, PartialEq, Eq)]
pub struct PreparedStat {
    pub name: Vec<u8>,
    pub load: LoadRatio,
}

/// Mathematical model of a prepared line.
pub struct StatModel {
    pub name: Seq<u8>,
    pub load: LoadRatio,
}

impl View for PreparedStat {
    type V = StatModel;

    open spec fn view(&self) -> StatModel {
        StatModel { name: self.name@, load: self.load }
    }
}

pub open spec fn stats_view(s: Seq<PreparedStat>) -> Seq<StatModel> {
    s.map_values(|p: PreparedStat| p@)
}

pub open spec fn stats_sorted(ds: Seq<StatModel>) -> bool {
    forall|i: int| #![trigger ds[i]] 0 <= i && i + 1 < ds.len() ==> lex_lt(ds[i].name, ds[i + 1].name)
}

pub open spec fn result_has(ds: Seq<StatModel>, n: Seq<u8>) -> bool {
    exists|i: int| 0 <= i < ds.len() && ds[i].name == n
}

/// What one category's delta computation yields: one line per entry of `now`
/// whose raw name also occurs in `before` and whose load meets the threshold,
/// in the order of `now`.
pub open spec fn delta_spec(
    now: Seq<EntryModel>,
    before: Seq<EntryModel>,
    elapsed_usec: u64,
    cpu_count: u32,
    threshold_ppm: i64,
) -> Seq<StatModel>
    decreases now.len(),
{
    if now.len() == 0 {
        Seq::empty()
    } else {
        let rest = delta_spec(now.skip(1), before, elapsed_usec, cpu_count, threshold_ppm);
        match lookup(before, now[0].name) {
            Some(b) => {
                let d = now[0].usage_usec - b;
                if meets_threshold(d, elapsed_usec as int, cpu_count as int, threshold_ppm as int) {
                    seq![
                        StatModel {
                            name: now[0].name,
                            load: LoadRatio {
                                num: d as i128,
                                den: ((elapsed_usec as int) * (cpu_count as int)) as u128,
                            },
                        },
                    ] + rest
                } else {
                    rest
                }
            },
            None => rest,
        }
    }
}

/// A name is found by lookup exactly when some entry carries it.
pub proof fn lemma_lookup_index(es: Seq<EntryModel>, n: Seq<u8>)
    ensures
        contains_name(es, n) <==> exists|i: int| 0 <= i < es.len() && es[i].name == n,
    decreases es.len(),
{
    if es.len() > 0 {
        lemma_lookup_index(es.skip(1), n);
        if es[0].name == n {
            assert(es[0].name == n);
        } else {
            if exists|i: int| 0 <= i < es.skip(1).len() && es.skip(1)[i].name == n {
                let i = choose|i: int| 0 <= i < es.skip(1).len() && es.skip(1)[i].name == n;
                assert(es[i + 1].name == n);
            }
            if exists|i: int| 0 <= i < es.len() && es[i].name == n {
                let i = choose|i: int| 0 <= i < es.len() && es[i].name == n;
                assert(es.skip(1)[i - 1].name == n);
            }
        }
    }
}

/// An entity key present on only one side never appears in the result.
pub proof fn lemma_delta_excludes(
    now: Seq<EntryModel>,
    before: Seq<EntryModel>,
    elapsed_usec: u64,
    cpu_count: u32,
    threshold_ppm: i64,
    n: Seq<u8>,
)
    requires
        !contains_name(now, n) || !contains_name(before, n),
    ensures
        !result_has(delta_spec(now, before, elapsed_usec, cpu_count, threshold_ppm), n),
    decreases now.len(),
{
    let ds = delta_spec(now, before, elapsed_usec, cpu_count, threshold_ppm);
    if now.len() > 0 {
        if !contains_name(now, n) {
            assert(now[0].name != n);
            assert(!contains_name(now.skip(1), n));
        } else {
            // n is missing from `before`, so the head line (if any) is not n
            assert(lookup(before, n) is None);
        }
        lemma_delta_excludes(now.skip(1), before, elapsed_usec, cpu_count, threshold_ppm, n);
        let rest = delta_spec(now.skip(1), before, elapsed_usec, cpu_count, threshold_ppm);
        if result_has(ds, n) {
            let i = choose|i: int| 0 <= i < ds.len() && ds[i].name == n;
            if ds.len() == rest.len() {
                assert(rest[i].name == n);
            } else {
                assert(ds[0].name == now[0].name);
                assert(now[0].name != n);
                assert(rest[i - 1].name == n);
            }
        }
    }
}

/// An entity key present on both sides whose load meets the threshold
/// (equality included) always appears in the result.
pub proof fn lemma_delta_includes(
    now: Seq<EntryModel>,
    before: Seq<EntryModel>,
    elapsed_usec: u64,
    cpu_count: u32,
    threshold_ppm: i64,
    n: Seq<u8>,
)
    requires
        lookup(now, n) is Some,
        lookup(before, n) is Some,
        meets_threshold(
            lookup(now, n)->Some_0 - lookup(before, n)->Some_0,
            elapsed_usec as int,
            cpu_count as int,
            threshold_ppm as int,
        ),
    ensures
        result_has(delta_spec(now, before, elapsed_usec, cpu_count, threshold_ppm), n),
    decreases now.len(),
{
    let ds = delta_spec(now, before, elapsed_usec, cpu_count, threshold_ppm);
    let rest = delta_spec(now.skip(1), before, elapsed_usec, cpu_count, threshold_ppm);
    if now[0].name == n {
        assert(ds[0].name == n);
    } else {
        lemma_delta_includes(now.skip(1), before, elapsed_usec, cpu_count, threshold_ppm, n);
        let i = choose|i: int| 0 <= i < rest.len() && rest[i].name == n;
        if ds.len() == rest.len() {
            assert(ds[i].name == n);
        } else {
            assert(ds[i + 1].name == n);
        }
    }
}

/// On a sorted `now`, the result is sorted by name and each line carries the
/// exact load `(now - before) / (elapsed * cpus)` of its entity.
pub proof fn lemma_delta_sorted_exact(
    now: Seq<EntryModel>,
    before: Seq<EntryModel>,
    elapsed_usec: u64,
    cpu_count: u32,
    threshold_ppm: i64,
)
    requires
        entries_sorted(now),
    ensures
        ({
            let ds = delta_spec(now, before, elapsed_usec, cpu_count, threshold_ppm);
            &&& stats_sorted(ds)
            &&& forall|i: int| #![trigger ds[i]] 0 <= i < ds.len() ==> {
                &&& lookup(now, ds[i].name) is Some
                &&& lookup(before, ds[i].name) is Some
                &&& ds[i].load.num == lookup(now, ds[i].name)->Some_0 - lookup(before, ds[i].name)->Some_0
                &&& ds[i].load.den == (elapsed_usec as int) * (cpu_count as int)
                &&& meets_threshold(ds[i].load.num as int, elapsed_usec as int, cpu_count as int, threshold_ppm as int)
            }
        }),
    decreases now.len(),
{
    let ds = delta_spec(now, before, elapsed_usec, cpu_count, threshold_ppm);
    assert(0 <= (elapsed_usec as int) * (cpu_count as int) <= 0xFFFF_FFFF_FFFF_FFFF * 0xFFFF_FFFF)
        by (nonlinear_arith)
        requires
            0 <= elapsed_usec <= 0xFFFF_FFFF_FFFF_FFFFu64,
            0 <= cpu_count <= 0xFFFF_FFFFu32,
    ;
    if now.len() > 0 {
        let tail = now.skip(1);
        assert(entries_sorted(tail)) by {
            assert(forall|i: int| #![trigger tail[i]] 0 <= i && i + 1 < tail.len()
                ==> tail[i] == now[i + 1] && tail[i + 1] == now[i + 2]);
        }
        lemma_delta_sorted_exact(tail, before, elapsed_usec, cpu_count, threshold_ppm);
        let rest = delta_spec(tail, before, elapsed_usec, cpu_count, threshold_ppm);
        // every name of `rest` sits strictly above now[0].name, and its lookup
        // in `now` passes through the unequal head
        assert forall|j: int| 0 <= j < rest.len() implies lex_lt(now[0].name, #[trigger] rest[j].name)
            && lookup(now, rest[j].name) == lookup(tail, rest[j].name) by {
            lemma_lookup_index(tail, rest[j].name);
            let k = choose|k: int| 0 <= k < tail.len() && tail[k].name == rest[j].name;
            assert(now[k + 1].name == rest[j].name);
            lemma_sorted_pair(now, 0, k + 1);
            lemma_lex_lt_neq(now[0].name, rest[j].name);
        };
        if ds.len() != rest.len() {
            assert(ds == seq![ds[0]] + rest) by {
                assert(ds =~= seq![ds[0]] + rest);
            }
            assert(ds[0].name == now[0].name);
            assert(lookup(now, now[0].name) == Some(now[0].usage_usec));
            assert(forall|i: int| #![trigger ds[i]] 1 <= i < ds.len() ==> ds[i] == rest[i - 1]);
            assert(stats_sorted(ds)) by {
                assert(forall|i: int| #![trigger ds[i]] 1 <= i && i + 1 < ds.len()
                    ==> lex_lt(ds[i].name, ds[i + 1].name));
            }
        }
    }
}

/// Compute one category's report lines. The result is exactly what
/// `delta_spec` states: matched on raw names, threshold-filtered, in the
/// order of `now`.
pub fn category_delta(
    now: &Vec<Entry>,
    before: &Vec<Entry>,
    elapsed_usec: u64,
    cpu_count: u32,
    threshold_ppm: i64,
) -> (r: Vec<PreparedStat>)
    requires
        1 <= elapsed_usec,
        1 <= cpu_count,
    ensures
        stats_view(r@) == delta_spec(
            entries_view(now@),
            entries_view(before@),
            elapsed_usec,
            cpu_count,
            threshold_ppm,
        ),
{
    let ghost nv = entries_view(now@);
    let ghost bv = entries_view(before@);
    let ghost full = delta_spec(nv, bv, elapsed_usec, cpu_count, threshold_ppm);
    proof {
        assert((elapsed_usec as int) * (cpu_count as int) <= 0xFFFF_FFFF_FFFF_FFFF * 0xFFFF_FFFF)
            by (nonlinear_arith)
            requires
                elapsed_usec <= 0xFFFF_FFFF_FFFF_FFFFu64,
                cpu_count <= 0xFFFF_FFFFu32,
        ;
        assert((elapsed_usec as int) * (cpu_count as int) >= 1) by (nonlinear_arith)
            requires
                elapsed_usec >= 1,
                cpu_count >= 1,
        ;
    }
    let den: u128 = (elapsed_usec as u128) * (cpu_count as u128);
    let mut out: Vec<PreparedStat> = Vec::new();
    let mut i: usize = 0;
    proof {
        assert(nv.skip(0) =~= nv);
        assert(stats_view(out@) + full =~= full);
    }
    while i < now.len()
        invariant
            0 <= i <= now.len(),
            nv == entries_view(now@),
            bv == entries_view(before@),
            nv.len() == now@.len(),
            den == (elapsed_usec as int) * (cpu_count as int),
            1 <= elapsed_usec,
            1 <= cpu_count,
            full == delta_spec(nv, bv, elapsed_usec, cpu_count, threshold_ppm),
            stats_view(out@) + delta_spec(nv.skip(i as int), bv, elapsed_usec, cpu_count, threshold_ppm)
                == full,
        decreases now.len() - i,
    {
        let ghost pre = nv.skip(i as int);
        proof {
            assert(pre[0] == nv[i as int]);
            assert(nv[i as int] == now@[i as int]@);
            assert(pre.skip(1) =~= nv.skip(i + 1));
        }
        let b = lookup_entry(before, &now[i].name);
        match b {
            Some(busage) => {
                let d: i128 = (now[i].stat.usage_usec as i128) - (busage as i128);
                let keep = load_meets_threshold(d, elapsed_usec, cpu_count, threshold_ppm);
                if keep {
                    let nm = crate::bytes::clone_bytes(&now[i].name);
                    let ghost prev = out@;
                    out.push(PreparedStat { name: nm, load: LoadRatio { num: d, den } });
                    proof {
                        let stat = StatModel {
                            name: nv[i as int].name,
                            load: LoadRatio { num: d, den },
                        };
                        assert(stats_view(out@) =~= stats_view(prev).push(stat));
                        assert(stats_view(prev).push(stat)
                            + delta_spec(nv.skip(i + 1), bv, elapsed_usec, cpu_count, threshold_ppm)
                            =~= stats_view(prev)
                            + (seq![stat] + delta_spec(nv.skip(i + 1), bv, elapsed_usec, cpu_count, threshold_ppm)));
                    }
                }
            },
            None => {},
        }
        i = i + 1;
    }
    proof {
        assert(nv.skip(i as int) =~= Seq::<EntryModel>::empty());
        assert(stats_view(out@) + Seq::<StatModel>::empty() =~= stats_view(out@));
    }
    out
}

} // verus!
