//! Snapshots of the accounting hierarchy.
//!
//! A snapshot pairs a capture timestamp with one entry list per category
//! ("user" session groups and "system" service groups). Entry lists are kept
//! strictly sorted by raw entry name, so a snapshot is a map from names to
//! counters with a canonical representation.

use vstd::prelude::*;
use crate::bytes::{lex_lt, lemma_lex_lt_neq};

verus! {

/// Counters read from a single accounting group: cumulative CPU time in
/// microseconds. Monotonically non-decreasing on a live group, but a name
/// can be recycled by a new group with a smaller counter.
#[derive(Clone, Copy, Debug, PartialEq, Eq, Structural)]
pub struct CgStat {
    pub usage_usec: u64,
}

/// One accounting entry: the raw hierarchy name and its counters.
#[derive(Clone, Debug, PartialEq, Eq)]
pub struct Entry {
    pub name: Vec<u8>,
    pub stat: CgStat,
}

/// Mathematical model of an entry.
pub struct EntryModel {
    pub name: Seq<u8>,
    pub usage_usec: u64,
}

impl View for Entry {
    type V = EntryModel;

    open spec fn view(&self) -> EntryModel {
        EntryModel { name: self.name@, usage_usec: self.stat.usage_usec }
    }
}

pub open spec fn entries_view(es: Seq<Entry>) -> Seq<EntryModel> {
    es.map_values(|e: Entry| e@)
}

/// Entry names are strictly increasing, so each name occurs at most once.
pub open spec fn entries_sorted(es: Seq<EntryModel>) -> bool {
    forall|i: int| #![trigger es[i]] 0 <= i && i + 1 < es.len() ==> lex_lt(es[i].name, es[i + 1].name)
}

/// First-match association of a name with its counter.
pub open spec fn lookup(es: Seq<EntryModel>, name: Seq<u8>) -> Option<u64>
    decreases es.len(),
{
    if es.len() == 0 {
        None
    } else if es[0].name == name {
        Some(es[0].usage_usec)
    } else {
        lookup(es.skip(1), name)
    }
}

pub open spec fn contains_name(es: Seq<EntryModel>, name: Seq<u8>) -> bool {
    lookup(es, name) is Some
}

/// All counters of one capture, keyed by raw hierarchy entry name.
#[derive(Clone, Debug, PartialEq, Eq)]
pub struct Snapshot {
    /// Wall-clock capture time, in microseconds since the epoch. Every
    /// counter of the snapshot was read at this one time.
    pub captured_at_usec: u64,
    pub user: Vec<Entry>,
    pub system: Vec<Entry>,
}

/// Mathematical model of a snapshot.
pub struct SnapModel {
    pub captured_at_usec: u64,
    pub user: Seq<EntryModel>,
    pub system: Seq<EntryModel>,
}

impl View for Snapshot {
    type V = SnapModel;

    open spec fn view(&self) -> SnapModel {
        SnapModel {
            captured_at_usec: self.captured_at_usec,
            user: entries_view(self.user@),
            system: entries_view(self.system@),
        }
    }
}

impl Snapshot {
    /// Both entry lists strictly sorted by name.
    pub open spec fn wf(&self) -> bool {
        entries_sorted(self@.user) && entries_sorted(self@.system)
    }

    /// An empty capture at the given time.
    pub fn new(captured_at_usec: u64) -> (r: Snapshot)
        ensures
            r.wf(),
            r@.captured_at_usec == captured_at_usec,
            r@.user.len() == 0,
            r@.system.len() == 0,
    {
        Snapshot { captured_at_usec, user: Vec::new(), system: Vec::new() }
    }
}

pub proof fn lemma_sorted_pair(es: Seq<EntryModel>, i: int, j: int)
    requires
        entries_sorted(es),
        0 <= i < j < es.len(),
    ensures
        lex_lt(es[i].name, es[j].name),
    decreases j - i,
{
    if i + 1 < j {
        lemma_sorted_pair(es, i + 1, j);
        crate::bytes::lemma_lex_lt_trans(es[i].name, es[i + 1].name, es[j].name);
    }
}

/// First-match lookup finds position `i` when no earlier entry shares its name.
pub proof fn lemma_lookup_found(es: Seq<EntryModel>, i: int)
    requires
        0 <= i < es.len(),
        forall|j: int| #![trigger es[j]] 0 <= j < i ==> es[j].name != es[i].name,
    ensures
        lookup(es, es[i].name) == Some(es[i].usage_usec),
    decreases i,
{
    if i > 0 {
        assert(es.skip(1)[i - 1] == es[i]);
        assert(forall|j: int| #![trigger es.skip(1)[j]] 0 <= j < i - 1 ==> es.skip(1)[j] == es[j + 1]);
        lemma_lookup_found(es.skip(1), i - 1);
    }
}

/// Inserting an entry with a different name does not change what a lookup finds.
pub proof fn lemma_lookup_insert(es: Seq<EntryModel>, i: int, e: EntryModel, n: Seq<u8>)
    requires
        0 <= i <= es.len(),
        n != e.name,
    ensures
        lookup(es.insert(i, e), n) == lookup(es, n),
    decreases i,
{
    let new = es.insert(i, e);
    if i == 0 {
        assert(new.skip(1) =~= es);
    } else {
        assert(new[0] == es[0]);
        if es[0].name != n {
            assert(new.skip(1) =~= es.skip(1).insert(i - 1, e));
            lemma_lookup_insert(es.skip(1), i - 1, e, n);
        }
    }
}

/// Overwriting the entry at `i` in place changes no other name's lookup.
pub proof fn lemma_lookup_update(es: Seq<EntryModel>, i: int, e: EntryModel, n: Seq<u8>)
    requires
        0 <= i < es.len(),
        es[i].name == e.name,
        n != e.name,
    ensures
        lookup(es.update(i, e), n) == lookup(es, n),
    decreases i,
{
    let new = es.update(i, e);
    if i == 0 {
        assert(new.skip(1) =~= es.skip(1));
    } else {
        assert(new[0] == es[0]);
        if es[0].name != n {
            assert(new.skip(1) =~= es.skip(1).update(i - 1, e));
            lemma_lookup_update(es.skip(1), i - 1, e, n);
        }
    }
}

/// Look a raw name up in an entry list.
pub fn lookup_entry(es: &Vec<Entry>, name: &Vec<u8>) -> (r: Option<u64>)
    ensures
        r == lookup(entries_view(es@), name@),
{
    let ghost full = entries_view(es@);
    proof {
        assert(full.skip(0) =~= full);
    }
    let mut i: usize = 0;
    while i < es.len()
        invariant
            0 <= i <= es.len(),
            full == entries_view(es@),
            full.len() == es@.len(),
            lookup(full, name@) == lookup(full.skip(i as int), name@),
        decreases es.len() - i,
    {
        let c = crate::bytes::lex_cmp(&es[i].name, name);
        proof {
            assert(full.skip(i as int)[0] == full[i as int]);
            assert(full[i as int] == es@[i as int]@);
        }
        if c == 0 {
            return Some(es[i].stat.usage_usec);
        }
        proof {
            assert(full.skip(i as int).skip(1) =~= full.skip(i + 1));
        }
        i = i + 1;
    }
    proof {
        assert(full.skip(i as int) =~= Seq::<EntryModel>::empty());
    }
    None
}

/// Insert a counter under `name`, keeping the list sorted; an entry that
/// already carries the name is overwritten (the newest reading wins).
pub fn sorted_insert(es: Vec<Entry>, name: Vec<u8>, usage_usec: u64) -> (r: Vec<Entry>)
    requires
        entries_sorted(entries_view(es@)),
    ensures
        entries_sorted(entries_view(r@)),
        lookup(entries_view(r@), name@) == Some(usage_usec),
        forall|n: Seq<u8>| n != name@ ==> lookup(entries_view(r@), n) == lookup(entries_view(es@), n),
{
    let ghost old_view = entries_view(es@);
    let mut es = es;
    let mut i: usize = 0;
    while i < es.len() && crate::bytes::lex_cmp(&es[i].name, &name) == -1
        invariant
            0 <= i <= es.len(),
            entries_view(es@) == old_view,
            entries_sorted(old_view),
            old_view.len() == es@.len(),
            forall|j: int| #![trigger old_view[j]] 0 <= j < i ==> lex_lt(old_view[j].name, name@),
        decreases es.len() - i,
    {
        proof {
            assert(old_view[i as int] == es@[i as int]@);
        }
        i = i + 1;
    }
    let e = Entry { name, stat: CgStat { usage_usec } };
    proof {
        assert(forall|j: int| #![trigger old_view[j]] 0 <= j < i ==> old_view[j].name != e.name@) by {
            assert forall|j: int| 0 <= j < i implies #[trigger] old_view[j].name != e.name@ by {
                lemma_lex_lt_neq(old_view[j].name, e.name@);
            }
        }
    }
    if i < es.len() {
        let c2 = crate::bytes::lex_cmp(&es[i].name, &e.name);
        proof {
            assert(old_view[i as int] == es@[i as int]@);
        }
        if c2 == 0 {
            // overwrite in place
            let ghost em = e@;
            es[i] = e;
            proof {
                let new_view = old_view.update(i as int, em);
                assert(entries_view(es@) =~= new_view);
                assert(entries_sorted(new_view)) by {
                    assert(forall|k: int| #![trigger new_view[k]] 0 <= k < new_view.len()
                        ==> new_view[k].name == old_view[k].name);
                }
                lemma_lookup_found(new_view, i as int);
                assert(forall|n: Seq<u8>| n != em.name
                    ==> lookup(new_view, n) == lookup(old_view, n)) by {
                    assert forall|n: Seq<u8>| n != em.name
                        implies lookup(new_view, n) == lookup(old_view, n) by {
                        lemma_lookup_update(old_view, i as int, em, n);
                    }
                }
            }
            return es;
        }
        // strictly greater: insert before position i
        let ghost em = e@;
        es.insert(i, e);
        proof {
            let new_view = old_view.insert(i as int, em);
            assert(entries_view(es@) =~= new_view);
            assert(lex_lt(em.name, old_view[i as int].name));
            assert(entries_sorted(new_view)) by {
                assert(forall|k: int| #![trigger new_view[k]] 0 <= k < i ==> new_view[k] == old_view[k]);
                assert(new_view[i as int] == em);
                assert(forall|k: int| #![trigger new_view[k]] i < k < new_view.len()
                    ==> new_view[k] == old_view[k - 1]);
            }
            lemma_lookup_found(new_view, i as int);
            assert(forall|n: Seq<u8>| n != em.name
                ==> lookup(new_view, n) == lookup(old_view, n)) by {
                assert forall|n: Seq<u8>| n != em.name
                    implies lookup(new_view, n) == lookup(old_view, n) by {
                    lemma_lookup_insert(old_view, i as int, em, n);
                }
            }
        }
        return es;
    }
    // name is greater than every present name: append
    let ghost em = e@;
    es.push(e);
    proof {
        let new_view = old_view.insert(old_view.len() as int, em);
        assert(entries_view(es@) =~= new_view);
        assert(entries_sorted(new_view)) by {
            assert(forall|k: int| #![trigger new_view[k]] 0 <= k < old_view.len() ==> new_view[k] == old_view[k]);
            assert(new_view[new_view.len() - 1] == em);
        }
        lemma_lookup_found(new_view, new_view.len() - 1);
        assert(forall|n: Seq<u8>| n != em.name
            ==> lookup(new_view, n) == lookup(old_view, n)) by {
            assert forall|n: Seq<u8>| n != em.name
                implies lookup(new_view, n) == lookup(old_view, n) by {
                lemma_lookup_insert(old_view, old_view.len() as int, em, n);
            }
        }
    }
    es
}

} // verus!
