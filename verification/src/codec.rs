//! Persisted form of a snapshot.
//!
//! The state file holds one snapshot: a four-byte tag naming the schema,
//! the capture time, then each category as a count followed by
//! length-prefixed name/counter records. All integers are eight bytes,
//! least significant byte first. Parsing is strict — wrong tag, truncated
//! or trailing bytes, or unsorted entries all yield `None` — and loading a
//! snapshot back from its own serialization is proved to be lossless.

use vstd::prelude::*;
use crate::bytes::copy_range;
use crate::snapshot::{Entry, EntryModel, Snapshot, SnapModel, CgStat, entries_view, entries_sorted};

verus! {

/// The schema tag, `"CGS1"`.
pub open spec fn magic() -> Seq<u8> {
    seq![67u8, 71u8, 83u8, 49u8]
}

/// A `u64` as eight bytes, least significant first.
pub open spec fn le8(x: u64) -> Seq<u8> {
    seq![
        (x & 0xff) as u8,
        ((x >> 8) & 0xff) as u8,
        ((x >> 16) & 0xff) as u8,
        ((x >> 24) & 0xff) as u8,
        ((x >> 32) & 0xff) as u8,
        ((x >> 40) & 0xff) as u8,
        ((x >> 48) & 0xff) as u8,
        ((x >> 56) & 0xff) as u8,
    ]
}

/// The `u64` denoted by the eight bytes at position `i`.
pub open spec fn u64_at(b: Seq<u8>, i: int) -> u64 {
    (b[i] as u64) | ((b[i + 1] as u64) << 8) | ((b[i + 2] as u64) << 16)
        | ((b[i + 3] as u64) << 24) | ((b[i + 4] as u64) << 32) | ((b[i + 5] as u64) << 40)
        | ((b[i + 6] as u64) << 48) | ((b[i + 7] as u64) << 56)
}

proof fn lemma_u64_at_le8(b: Seq<u8>, i: int, x: u64)
    requires
        0 <= i,
        i + 8 <= b.len(),
        forall|k: int| 0 <= k < 8 ==> b[i + k] == #[trigger] le8(x)[k],
    ensures
        u64_at(b, i) == x,
{
    assert(((x & 0xff) as u8 as u64) | (((x >> 8) & 0xff) as u8 as u64) << 8
        | (((x >> 16) & 0xff) as u8 as u64) << 16 | (((x >> 24) & 0xff) as u8 as u64) << 24
        | (((x >> 32) & 0xff) as u8 as u64) << 32 | (((x >> 40) & 0xff) as u8 as u64) << 40
        | (((x >> 48) & 0xff) as u8 as u64) << 48 | (((x >> 56) & 0xff) as u8 as u64) << 56
        == x) by (bit_vector);
    assert(b[i] == le8(x)[0]);
    assert(b[i + 1] == le8(x)[1]);
    assert(b[i + 2] == le8(x)[2]);
    assert(b[i + 3] == le8(x)[3]);
    assert(b[i + 4] == le8(x)[4]);
    assert(b[i + 5] == le8(x)[5]);
    assert(b[i + 6] == le8(x)[6]);
    assert(b[i + 7] == le8(x)[7]);
}

/// Serialized form of an entry list.
pub open spec fn ser_entries(es: Seq<EntryModel>) -> Seq<u8>
    decreases es.len(),
{
    if es.len() == 0 {
        Seq::empty()
    } else {
        le8(es[0].name.len() as u64) + es[0].name + le8(es[0].usage_usec)
            + ser_entries(es.skip(1))
    }
}

/// Serialized form of a snapshot.
pub open spec fn ser_spec(m: SnapModel) -> Seq<u8> {
    magic() + le8(m.captured_at_usec) + le8(m.user.len() as u64) + ser_entries(m.user)
        + le8(m.system.len() as u64) + ser_entries(m.system)
}

/// `n` length-prefixed records starting at `i`: the entries and the
/// position after them, or `None` when the bytes run out first.
pub open spec fn parse_entries(b: Seq<u8>, i: int, n: u64) -> Option<(Seq<EntryModel>, int)>
    decreases n,
{
    if n == 0 {
        Some((Seq::empty(), i))
    } else if !(0 <= i && i + 8 <= b.len()) {
        None
    } else {
        let nl = u64_at(b, i) as int;
        if i + 8 + nl + 8 > b.len() {
            None
        } else {
            let name = b.subrange(i + 8, i + 8 + nl);
            let usage = u64_at(b, i + 8 + nl);
            match parse_entries(b, i + 8 + nl + 8, (n - 1) as u64) {
                Some((rest, end)) => Some(
                    (seq![EntryModel { name, usage_usec: usage }] + rest, end),
                ),
                None => None,
            }
        }
    }
}

/// What loading accepts: a complete, well-tagged record whose entry lists
/// are strictly sorted.
pub open spec fn parse_spec(b: Seq<u8>) -> Option<SnapModel> {
    if b.len() < 20 || b.subrange(0, 4) != magic() {
        None
    } else {
        let at = u64_at(b, 4);
        let nu = u64_at(b, 12);
        match parse_entries(b, 20, nu) {
            None => None,
            Some((user, p)) => if p + 8 > b.len() {
                None
            } else {
                let ns = u64_at(b, p);
                match parse_entries(b, p + 8, ns) {
                    None => None,
                    Some((system, end)) => if end != b.len() || !entries_sorted(user)
                        || !entries_sorted(system) {
                        None
                    } else {
                        Some(SnapModel { captured_at_usec: at, user, system })
                    },
                }
            },
        }
    }
}

/// Lengths the serialized form can carry.
pub open spec fn entries_bounded(es: Seq<EntryModel>) -> bool {
    &&& es.len() <= u64::MAX
    &&& forall|i: int| #![trigger es[i]] 0 <= i < es.len() ==> es[i].name.len() <= u64::MAX
}

proof fn lemma_entries_roundtrip(b: Seq<u8>, i: int, es: Seq<EntryModel>)
    requires
        0 <= i,
        entries_bounded(es),
        i + ser_entries(es).len() <= b.len(),
        b.subrange(i, i + ser_entries(es).len()) == ser_entries(es),
    ensures
        parse_entries(b, i, es.len() as u64) == Some((es, i + ser_entries(es).len())),
    decreases es.len(),
{
    if es.len() > 0 {
        let e = es[0];
        let nl = e.name.len() as int;
        let len64 = e.name.len() as u64;
        let rest = es.skip(1);
        let ser = ser_entries(es);
        let chunk = le8(len64) + e.name + le8(e.usage_usec);
        let total = ser.len() as int;
        assert(ser == chunk + ser_entries(rest));
        assert forall|k: int| 0 <= k < total implies b[i + k] == ser[k] by {
            assert(b.subrange(i, i + total)[k] == b[i + k]);
        }
        assert forall|k: int| 0 <= k < 8 implies b[i + k] == #[trigger] le8(len64)[k] by {
            assert(ser[k] == chunk[k]);
            assert(chunk[k] == (le8(len64) + e.name)[k]);
            assert((le8(len64) + e.name)[k] == le8(len64)[k]);
        }
        lemma_u64_at_le8(b, i, len64);
        assert(u64_at(b, i) as int == nl);
        assert(b.subrange(i + 8, i + 8 + nl) =~= e.name) by {
            assert forall|k: int| 0 <= k < nl implies b[i + 8 + k] == e.name[k] by {
                assert(ser[8 + k] == chunk[8 + k]);
                assert(chunk[8 + k] == (le8(len64) + e.name)[8 + k]);
                assert((le8(len64) + e.name)[8 + k] == e.name[k]);
            }
        }
        assert forall|k: int| 0 <= k < 8 implies b[i + 8 + nl + k] == #[trigger] le8(e.usage_usec)[k] by {
            assert(ser[8 + nl + k] == chunk[8 + nl + k]);
            assert(chunk[8 + nl + k] == le8(e.usage_usec)[k]);
        }
        lemma_u64_at_le8(b, i + 8 + nl, e.usage_usec);
        let i2 = i + 8 + nl + 8;
        let ser_rest = ser_entries(rest);
        assert(b.subrange(i2, i2 + ser_rest.len() as int) =~= ser_rest) by {
            assert forall|k: int| 0 <= k < ser_rest.len() implies b[i2 + k] == ser_rest[k] by {
                assert(ser[16 + nl + k] == ser_rest[k]);
            }
        }
        lemma_entries_roundtrip(b, i2, rest);
        assert(seq![EntryModel { name: b.subrange(i + 8, i + 8 + nl), usage_usec: u64_at(b, i + 8 + nl) }]
            + rest =~= es);
    }
}

/// Loading a snapshot back from its own serialization loses nothing.
pub proof fn lemma_round_trip(m: SnapModel)
    requires
        entries_sorted(m.user),
        entries_sorted(m.system),
        entries_bounded(m.user),
        entries_bounded(m.system),
    ensures
        parse_spec(ser_spec(m)) == Some(m),
{
    let b = ser_spec(m);
    let su = ser_entries(m.user);
    let ss = ser_entries(m.system);
    let a1 = magic() + le8(m.captured_at_usec);
    let a2 = a1 + le8(m.user.len() as u64);
    let a3 = a2 + su;
    let a4 = a3 + le8(m.system.len() as u64);
    assert(b == a4 + ss);
    let p = 20 + su.len() as int;
    assert(b.len() == p + 8 + ss.len());
    assert(b.subrange(0, 4) =~= magic()) by {
        assert forall|k: int| 0 <= k < 4 implies b[k] == magic()[k] by {
            assert(b[k] == a4[k]);
            assert(a4[k] == a3[k]);
            assert(a3[k] == a2[k]);
            assert(a2[k] == a1[k]);
            assert(a1[k] == magic()[k]);
        }
    }
    assert forall|k: int| 0 <= k < 8 implies b[4 + k] == #[trigger] le8(m.captured_at_usec)[k] by {
        assert(b[4 + k] == a4[4 + k]);
        assert(a4[4 + k] == a3[4 + k]);
        assert(a3[4 + k] == a2[4 + k]);
        assert(a2[4 + k] == a1[4 + k]);
        assert(a1[4 + k] == le8(m.captured_at_usec)[k]);
    }
    lemma_u64_at_le8(b, 4, m.captured_at_usec);
    assert forall|k: int| 0 <= k < 8 implies b[12 + k] == #[trigger] le8(m.user.len() as u64)[k] by {
        assert(b[12 + k] == a4[12 + k]);
        assert(a4[12 + k] == a3[12 + k]);
        assert(a3[12 + k] == a2[12 + k]);
        assert(a2[12 + k] == le8(m.user.len() as u64)[k]);
    }
    lemma_u64_at_le8(b, 12, m.user.len() as u64);
    assert(b.subrange(20, 20 + su.len() as int) =~= su) by {
        assert forall|k: int| 0 <= k < su.len() implies b[20 + k] == su[k] by {
            assert(b[20 + k] == a4[20 + k]);
            assert(a4[20 + k] == a3[20 + k]);
            assert(a3[20 + k] == su[k]);
        }
    }
    lemma_entries_roundtrip(b, 20, m.user);
    assert forall|k: int| 0 <= k < 8 implies b[p + k] == #[trigger] le8(m.system.len() as u64)[k] by {
        assert(b[p + k] == a4[p + k]);
        assert(a4[p + k] == le8(m.system.len() as u64)[k]);
    }
    lemma_u64_at_le8(b, p, m.system.len() as u64);
    assert(b.subrange(p + 8, p + 8 + ss.len() as int) =~= ss) by {
        assert forall|k: int| 0 <= k < ss.len() implies b[p + 8 + k] == ss[k] by {
            assert(b[p + 8 + k] == ss[k]);
        }
    }
    lemma_entries_roundtrip(b, p + 8, m.system);
}

/// Append `x` as eight bytes, least significant first.
fn push_u64(out: &mut Vec<u8>, x: u64)
    ensures
        final(out)@ == old(out)@ + le8(x),
{
    out.push((x & 0xff) as u8);
    out.push(((x >> 8) & 0xff) as u8);
    out.push(((x >> 16) & 0xff) as u8);
    out.push(((x >> 24) & 0xff) as u8);
    out.push(((x >> 32) & 0xff) as u8);
    out.push(((x >> 40) & 0xff) as u8);
    out.push(((x >> 48) & 0xff) as u8);
    out.push(((x >> 56) & 0xff) as u8);
    proof {
        assert(out@ =~= old(out)@ + le8(x));
    }
}

/// Append the records of one entry list.
fn push_entries(out: &mut Vec<u8>, es: &Vec<Entry>)
    ensures
        final(out)@ == old(out)@ + ser_entries(entries_view(es@)),
{
    let ghost ev = entries_view(es@);
    let ghost base = out@;
    let mut i: usize = 0;
    proof {
        assert(ev.skip(0) =~= ev);
    }
    while i < es.len()
        invariant
            0 <= i <= es.len(),
            ev == entries_view(es@),
            ev.len() == es@.len(),
            base + ser_entries(ev) == out@ + ser_entries(ev.skip(i as int)),
        decreases es.len() - i,
    {
        let ghost pre = ev.skip(i as int);
        proof {
            assert(pre[0] == ev[i as int]);
            assert(ev[i as int] == es@[i as int]@);
            assert(pre.skip(1) =~= ev.skip(i + 1));
        }
        let ghost before_step = out@;
        push_u64(out, es[i].name.len() as u64);
        let mut nm = crate::bytes::clone_bytes(&es[i].name);
        out.append(&mut nm);
        push_u64(out, es[i].stat.usage_usec);
        proof {
            assert(out@ =~= before_step + (le8(pre[0].name.len() as u64) + pre[0].name
                + le8(pre[0].usage_usec)));
            assert(before_step + ser_entries(pre) =~= out@ + ser_entries(ev.skip(i + 1)));
        }
        i = i + 1;
    }
    proof {
        assert(ev.skip(i as int) =~= Seq::<EntryModel>::empty());
        assert(out@ + Seq::<u8>::empty() =~= out@);
    }
}

/// Serialize a snapshot for the state file.
pub fn serialize_snapshot(s: &Snapshot) -> (r: Vec<u8>)
    ensures
        r@ == ser_spec(s@),
{
    let mut out: Vec<u8> = Vec::new();
    out.push(67);
    out.push(71);
    out.push(83);
    out.push(49);
    proof {
        assert(out@ =~= magic());
    }
    push_u64(&mut out, s.captured_at_usec);
    push_u64(&mut out, s.user.len() as u64);
    push_entries(&mut out, &s.user);
    push_u64(&mut out, s.system.len() as u64);
    push_entries(&mut out, &s.system);
    proof {
        assert(out@ =~= ser_spec(s@));
    }
    out
}

/// Read the `u64` at position `i`.
fn read_u64_at(b: &Vec<u8>, i: usize) -> (r: u64)
    requires
        i + 8 <= b@.len(),
    ensures
        r == u64_at(b@, i as int),
{
    let n = b.len();
    proof {
        assert(i + 8 <= n);
    }
    (b[i] as u64) | ((b[i + 1] as u64) << 8) | ((b[i + 2] as u64) << 16)
        | ((b[i + 3] as u64) << 24) | ((b[i + 4] as u64) << 32) | ((b[i + 5] as u64) << 40)
        | ((b[i + 6] as u64) << 48) | ((b[i + 7] as u64) << 56)
}

/// Entry names strictly increase.
pub fn check_sorted(es: &Vec<Entry>) -> (r: bool)
    ensures
        r == entries_sorted(entries_view(es@)),
{
    let ghost ev = entries_view(es@);
    let n = es.len();
    if n == 0 {
        return true;
    }
    let mut i: usize = 0;
    while i < n - 1
        invariant
            1 <= n == es@.len(),
            0 <= i <= n - 1,
            ev == entries_view(es@),
            ev.len() == es@.len(),
            forall|j: int| #![trigger ev[j]] 0 <= j && j + 1 <= i ==> crate::bytes::lex_lt(ev[j].name, ev[j + 1].name),
        decreases n - i,
    {
        let c = crate::bytes::lex_cmp(&es[i].name, &es[i + 1].name);
        proof {
            assert(ev[i as int] == es@[i as int]@);
            assert(ev[i + 1] == es@[i + 1]@);
        }
        if c != -1 {
            return false;
        }
        i = i + 1;
    }
    true
}

/// Parse `n` records starting at `i`.
fn parse_entries_exec(b: &Vec<u8>, i: usize, n: u64) -> (r: Option<(Vec<Entry>, usize)>)
    requires
        i <= b@.len(),
    ensures
        r is Some <==> parse_entries(b@, i as int, n) is Some,
        r is Some ==> {
            &&& entries_view(r->Some_0.0@) == parse_entries(b@, i as int, n)->Some_0.0
            &&& r->Some_0.1 as int == parse_entries(b@, i as int, n)->Some_0.1
            &&& r->Some_0.1 <= b@.len()
        },
    decreases n,
{
    if n == 0 {
        let v: Vec<Entry> = Vec::new();
        proof {
            assert(entries_view(v@) =~= Seq::<EntryModel>::empty());
        }
        return Some((v, i));
    }
    if b.len() - i < 8 {
        return None;
    }
    let nl64 = read_u64_at(b, i);
    let rem = b.len() - (i + 8);
    if rem < 8 || nl64 > (rem - 8) as u64 {
        return None;
    }
    let nl = nl64 as usize;
    let name = copy_range(b, i + 8, i + 8 + nl);
    let usage = read_u64_at(b, i + 8 + nl);
    match parse_entries_exec(b, i + 8 + nl + 8, n - 1) {
        None => None,
        Some((mut rest, end)) => {
            let mut v: Vec<Entry> = Vec::new();
            v.push(Entry { name, stat: CgStat { usage_usec: usage } });
            v.append(&mut rest);
            proof {
                let sp = parse_entries(b@, i as int, n);
                let head = EntryModel {
                    name: b@.subrange(i + 8, i + 8 + nl as int),
                    usage_usec: u64_at(b@, i + 8 + nl as int),
                };
                assert(entries_view(v@) =~= seq![head] + sp->Some_0.0.skip(1));
                assert(seq![head] + sp->Some_0.0.skip(1) =~= sp->Some_0.0);
            }
            Some((v, end))
        },
    }
}

/// Load a snapshot from state-file bytes; `None` on anything malformed.
pub fn parse_snapshot(b: &Vec<u8>) -> (r: Option<Snapshot>)
    ensures
        r is Some <==> parse_spec(b@) is Some,
        r is Some ==> r->Some_0@ == parse_spec(b@)->Some_0,
        r is Some ==> r->Some_0.wf(),
{
    if b.len() < 20 {
        return None;
    }
    if !(b[0] == 67 && b[1] == 71 && b[2] == 83 && b[3] == 49) {
        proof {
            assert(b@.subrange(0, 4) != magic()) by {
                if b@.subrange(0, 4) == magic() {
                    assert(b@.subrange(0, 4)[0] == 67u8);
                    assert(b@.subrange(0, 4)[1] == 71u8);
                    assert(b@.subrange(0, 4)[2] == 83u8);
                    assert(b@.subrange(0, 4)[3] == 49u8);
                }
            }
        }
        return None;
    }
    proof {
        assert(b@.subrange(0, 4) =~= magic());
    }
    let at = read_u64_at(b, 4);
    let nu = read_u64_at(b, 12);
    match parse_entries_exec(b, 20, nu) {
        None => None,
        Some((user, p)) => {
            if b.len() - p < 8 {
                return None;
            }
            let ns = read_u64_at(b, p);
            match parse_entries_exec(b, p + 8, ns) {
                None => None,
                Some((system, end)) => {
                    if end != b.len() {
                        return None;
                    }
                    if !check_sorted(&user) {
                        return None;
                    }
                    if !check_sorted(&system) {
                        return None;
                    }
                    Some(Snapshot { captured_at_usec: at, user, system })
                },
            }
        },
    }
}

} // verus!
