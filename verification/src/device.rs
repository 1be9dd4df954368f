//! The device registry: at most one live session per device id. Entries
//! are inserted after a successful handshake and removed by the same
//! session's teardown, guarded by the connection id it was issued, so a
//! newer session is never evicted by an older session's teardown.

use vstd::prelude::*;
use crate::codec::bytes_eq;

verus! {

/// Ghost model of one registry entry.
#[verifier::ext_equal]
pub struct EntryModel {
    pub device_id: Seq<u8>,
    pub device_name: Seq<u8>,
    pub conn_id: u64,
}

/// One registry entry: the back-reference the manager keeps for a live
/// session.
#[derive(Debug)]
pub struct DeviceEntry {
    pub device_id: Vec<u8>,
    pub device_name: Vec<u8>,
    pub conn_id: u64,
}

impl View for DeviceEntry {
    type V = EntryModel;

    open spec fn view(&self) -> EntryModel {
        EntryModel {
            device_id: self.device_id@,
            device_name: self.device_name@,
            conn_id: self.conn_id,
        }
    }
}

/// The first entry for `d`, if any. Under `DeviceManager::wf` it is the
/// only one.
pub open spec fn find_entry(entries: Seq<EntryModel>, d: Seq<u8>) -> Option<EntryModel>
    decreases entries.len(),
{
    if entries.len() == 0 {
        None
    } else if entries[0].device_id == d {
        Some(entries[0])
    } else {
        find_entry(entries.drop_first(), d)
    }
}

/// No entry carries the id `d`.
pub open spec fn absent(entries: Seq<EntryModel>, d: Seq<u8>) -> bool {
    forall|j: int| 0 <= j < entries.len() ==> (#[trigger] entries[j]).device_id != d
}

/// A lookup misses exactly when no entry has the id.
proof fn lemma_find_entry_absent_iff(entries: Seq<EntryModel>, d: Seq<u8>)
    ensures
        (find_entry(entries, d) is None) <==> absent(entries, d),
    decreases entries.len(),
{
    if entries.len() == 0 {
    } else {
        let dd = entries.drop_first();
        lemma_find_entry_absent_iff(dd, d);
        assert(forall|j: int| 0 <= j < dd.len() ==> #[trigger] dd[j] == entries[j + 1]);
        if entries[0].device_id == d {
            assert(!absent(entries, d)) by {
                assert(entries[0].device_id == d);
            }
        } else {
            if find_entry(entries, d) is None {
                assert(absent(dd, d));
                assert forall|j: int| 0 <= j < entries.len() implies (
                #[trigger] entries[j]).device_id != d by {
                    if j > 0 {
                        assert(dd[j - 1] == entries[j]);
                    }
                }
            } else {
                assert(!absent(dd, d));
                let w = choose|j: int| 0 <= j < dd.len() && (#[trigger] dd[j]).device_id == d;
                assert(entries[w + 1].device_id == d);
            }
        }
    }
}

/// Removing an entry whose id is not `x` leaves the lookup of `x`
/// unchanged.
proof fn lemma_find_entry_unaffected(entries: Seq<EntryModel>, i: int, x: Seq<u8>)
    requires
        0 <= i < entries.len(),
        entries[i].device_id != x,
    ensures
        find_entry(entries.remove(i), x) == find_entry(entries, x),
    decreases entries.len(),
{
    if i == 0 {
        assert(entries.remove(0) =~= entries.drop_first());
    } else {
        assert(entries.remove(i)[0] == entries[0]);
        if entries[0].device_id == x {
            assert(entries.remove(i).len() > 0);
        } else {
            assert(entries.remove(i).drop_first() =~= entries.drop_first().remove(i - 1));
            lemma_find_entry_unaffected(entries.drop_first(), i - 1, x);
        }
    }
}

/// Appending an entry: it is found under its own id where that id was
/// absent, and no other lookup changes.
proof fn lemma_find_entry_push(entries: Seq<EntryModel>, e: EntryModel)
    ensures
        find_entry(entries, e.device_id) is None ==> find_entry(entries.push(e), e.device_id)
            == Some(e),
        forall|x: Seq<u8>|
            x != e.device_id ==> #[trigger] find_entry(entries.push(e), x) == find_entry(
                entries,
                x,
            ),
    decreases entries.len(),
{
    if entries.len() == 0 {
        assert(entries.push(e)[0] == e);
        assert(entries.push(e).drop_first() =~= Seq::<EntryModel>::empty());
        assert forall|x: Seq<u8>| x != e.device_id implies #[trigger] find_entry(
            entries.push(e),
            x,
        ) == find_entry(entries, x) by {
            assert(find_entry(entries.push(e).drop_first(), x) is None);
        }
    } else {
        assert(entries.push(e)[0] == entries[0]);
        assert(entries.push(e).drop_first() =~= entries.drop_first().push(e));
        lemma_find_entry_push(entries.drop_first(), e);
        if find_entry(entries, e.device_id) is None {
            assert(entries[0].device_id != e.device_id);
            assert(find_entry(entries.drop_first(), e.device_id) is None);
            assert(find_entry(entries.drop_first().push(e), e.device_id) == Some(e));
        }
        assert forall|x: Seq<u8>| x != e.device_id implies #[trigger] find_entry(
            entries.push(e),
            x,
        ) == find_entry(entries, x) by {
            if entries[0].device_id != x {
                assert(find_entry(entries.drop_first().push(e), x) == find_entry(
                    entries.drop_first(),
                    x,
                ));
            }
        }
    }
}

/// The process-wide registry of active sessions.
#[derive(Debug)]
pub struct DeviceManager {
    pub local_device_id: Vec<u8>,
    pub entries: Vec<DeviceEntry>,
    pub next_conn_id: u64,
}

/// What to do with a discovered peer candidate.
#[derive(Debug, PartialEq, Eq, Structural)]
pub enum CandidateDecision {
    /// The candidate is this process itself: ignore it.
    DropSelf,
    /// A session with that device is already registered: ignore it.
    DropDuplicate,
    /// The identity advertises no TCP port to dial.
    DropNoPort,
    /// Dial the advertised port at the datagram's source address.
    Dial(u16),
}

impl DeviceManager {
    pub open spec fn entries_m(self) -> Seq<EntryModel> {
        self.entries@.map_values(|e: DeviceEntry| e@)
    }

    pub open spec fn local_id(self) -> Seq<u8> {
        self.local_device_id@
    }

    pub open spec fn next_id(self) -> u64 {
        self.next_conn_id
    }

    /// The registry invariant: device ids are pairwise distinct,
    /// connection ids are pairwise distinct, and every issued
    /// connection id is below the next one.
    pub open spec fn wf(self) -> bool {
        &&& forall|i: int, j: int|
            0 <= i < j < self.entries_m().len() ==> (#[trigger] self.entries_m()[i]).device_id != (
            #[trigger] self.entries_m()[j]).device_id
        &&& forall|i: int, j: int|
            0 <= i < j < self.entries_m().len() ==> (#[trigger] self.entries_m()[i]).conn_id != (
            #[trigger] self.entries_m()[j]).conn_id
        &&& forall|i: int|
            0 <= i < self.entries_m().len() ==> (#[trigger] self.entries_m()[i]).conn_id
                < self.next_conn_id
    }

    pub open spec fn contains_device(self, d: Seq<u8>) -> bool {
        find_entry(self.entries_m(), d) is Some
    }

    pub fn new(local_device_id: Vec<u8>) -> (r: DeviceManager)
        ensures
            r.wf(),
            r.entries_m() =~= Seq::<EntryModel>::empty(),
            r.local_id() == local_device_id@,
            r.next_id() == 1,
    {
        let r = DeviceManager { local_device_id, entries: Vec::new(), next_conn_id: 1 };
        proof {
            assert(r.entries_m() =~= Seq::<EntryModel>::empty());
        }
        r
    }

    /// How many sessions are registered.
    pub fn active_device_count(&self) -> (r: usize)
        ensures
            r == self.entries_m().len(),
    {
        self.entries.len()
    }

    fn find_index(&self, device_id: &Vec<u8>) -> (r: Option<usize>)
        ensures
            match r {
                Some(i) => i < self.entries_m().len() && self.entries_m()[i as int].device_id
                    == device_id@ && find_entry(self.entries_m(), device_id@) == Some(
                    self.entries_m()[i as int],
                ),
                None => find_entry(self.entries_m(), device_id@) is None,
            },
    {
        let ghost m = self.entries_m();
        proof {
            assert(m.skip(0) =~= m);
        }
        let mut i: usize = 0;
        while i < self.entries.len()
            invariant
                0 <= i <= m.len(),
                m == self.entries_m(),
                m.len() == self.entries@.len(),
                find_entry(m, device_id@) == find_entry(m.skip(i as int), device_id@),
                forall|j: int| 0 <= j < i ==> (#[trigger] m[j]).device_id != device_id@,
            decreases m.len() - i,
        {
            proof {
                assert(m[i as int] == self.entries@[i as int]@);
                assert(m.skip(i as int).len() > 0);
                assert(m.skip(i as int)[0] == m[i as int]);
            }
            if bytes_eq(&self.entries[i].device_id, device_id) {
                return Some(i);
            }
            proof {
                assert(m.skip(i as int).drop_first() =~= m.skip(i + 1 as int));
            }
            i = i + 1;
        }
        proof {
            assert(m.skip(i as int) =~= Seq::<EntryModel>::empty());
        }
        None
    }

    /// Whether a session for `device_id` is currently registered.
    pub fn query_device(&self, device_id: &Vec<u8>) -> (r: bool)
        ensures
            r == self.contains_device(device_id@),
    {
        self.find_index(device_id).is_some()
    }

    /// Registers a session after a successful handshake: issues a fresh
    /// connection id and makes the entry for `device_id` the new one.
    /// When an entry already existed it is replaced, and its connection
    /// id is handed back so the caller can close the superseded
    /// session's channel; the old session's own removal then misses the
    /// guard and is a no-op.
    pub fn add_device(&mut self, device_id: &Vec<u8>, device_name: &Vec<u8>) -> (r: (
        u64,
        Option<u64>,
    ))
        requires
            old(self).wf(),
            old(self).next_id() < u64::MAX,
        ensures
            final(self).wf(),
            final(self).local_id() == old(self).local_id(),
            final(self).next_id() == old(self).next_id() + 1,
            r.0 == old(self).next_id(),
            r.1 == match find_entry(old(self).entries_m(), device_id@) {
                Some(e) => Some(e.conn_id),
                None => None::<u64>,
            },
            find_entry(final(self).entries_m(), device_id@) == Some(
                EntryModel { device_id: device_id@, device_name: device_name@, conn_id: r.0 },
            ),
            forall|d: Seq<u8>|
                d != device_id@ ==> #[trigger] find_entry(final(self).entries_m(), d) == find_entry(
                    old(self).entries_m(),
                    d,
                ),
            final(self).entries_m().len() == old(self).entries_m().len() + (
            if old(self).contains_device(device_id@) {
                0int
            } else {
                1int
            }),
    {
        let ghost before = self.entries_m();
        let conn_id = self.next_conn_id;
        let evicted = match self.find_index(device_id) {
            Some(i) => {
                let old_entry = self.entries.remove(i);
                proof {
                    lemma_mid_facts_after_remove(before, i as int, device_id@, old(self).next_id());
                    assert(self.entries_m() =~= before.remove(i as int));
                }
                Some(old_entry.conn_id)
            },
            None => {
                proof {
                    lemma_find_entry_absent_iff(before, device_id@);
                }
                None
            },
        };
        let ghost mid = self.entries_m();
        proof {
            assert(find_entry(mid, device_id@) is None) by {
                lemma_find_entry_absent_iff(mid, device_id@);
            }
        }
        let entry = DeviceEntry {
            device_id: clone_bytes(device_id),
            device_name: clone_bytes(device_name),
            conn_id,
        };
        self.entries.push(entry);
        self.next_conn_id = conn_id + 1;
        proof {
            let newe = EntryModel {
                device_id: device_id@,
                device_name: device_name@,
                conn_id: conn_id,
            };
            assert(self.entries_m() =~= mid.push(newe));
            lemma_find_entry_push(mid, newe);
            assert(find_entry(self.entries_m(), device_id@) == Some(newe));
            assert forall|d: Seq<u8>| d != device_id@ implies #[trigger] find_entry(
                self.entries_m(),
                d,
            ) == find_entry(before, d) by {
                assert(find_entry(mid.push(newe), d) == find_entry(mid, d));
            }
            assert(self.wf()) by {
                let f = self.entries_m();
                assert forall|p: int, q: int| 0 <= p < q < f.len() implies (
                #[trigger] f[p]).device_id != (#[trigger] f[q]).device_id by {
                    if q == f.len() - 1 {
                        assert(f[q] == newe);
                        assert(f[p] == mid[p]);
                        assert(absent(mid, device_id@)) by {
                            lemma_find_entry_absent_iff(mid, device_id@);
                        }
                    } else {
                        assert(f[p] == mid[p] && f[q] == mid[q]);
                    }
                }
                assert forall|p: int, q: int| 0 <= p < q < f.len() implies (
                #[trigger] f[p]).conn_id != (#[trigger] f[q]).conn_id by {
                    if q == f.len() - 1 {
                        assert(f[q] == newe);
                        assert(f[p] == mid[p]);
                        assert(mid[p].conn_id < conn_id);
                    } else {
                        assert(f[p] == mid[p] && f[q] == mid[q]);
                    }
                }
                assert forall|p: int| 0 <= p < f.len() implies (#[trigger] f[p]).conn_id
                    < self.next_conn_id by {
                    if p < f.len() - 1 {
                        assert(f[p] == mid[p]);
                    } else {
                        assert(f[p] == newe);
                    }
                }
            }
            lemma_find_entry_absent_iff(before, device_id@);
        }
        (conn_id, evicted)
    }

    /// Removes the entry for `device_id` only when the stored connection
    /// id matches; a stale teardown is a no-op.
    pub fn remove_device(&mut self, device_id: &Vec<u8>, conn_id: u64) -> (r: bool)
        requires
            old(self).wf(),
        ensures
            final(self).wf(),
            final(self).local_id() == old(self).local_id(),
            final(self).next_id() == old(self).next_id(),
            r == remove_succeeds(*old(self), device_id@, conn_id),
            r ==> find_entry(final(self).entries_m(), device_id@) is None
                && final(self).entries_m().len() == old(self).entries_m().len() - 1,
            !r ==> *final(self) == *old(self),
            forall|d: Seq<u8>|
                d != device_id@ ==> #[trigger] find_entry(final(self).entries_m(), d) == find_entry(
                    old(self).entries_m(),
                    d,
                ),
    {
        let ghost before = self.entries_m();
        match self.find_index(device_id) {
            Some(i) => {
                if self.entries[i].conn_id == conn_id {
                    self.entries.remove(i);
                    proof {
                        lemma_mid_facts_after_remove(
                            before,
                            i as int,
                            device_id@,
                            old(self).next_id(),
                        );
                        assert(self.entries_m() =~= before.remove(i as int));
                        lemma_find_entry_absent_iff(self.entries_m(), device_id@);
                    }
                    true
                } else {
                    false
                }
            },
            None => false,
        }
    }

    /// Decides what to do with a peer candidate surfaced by discovery:
    /// the local device itself and already-connected devices are
    /// dropped, an identity without a port cannot be dialed, anything
    /// else is dialed at its advertised port.
    pub fn consider_candidate(&self, device_id: &Vec<u8>, tcp_port: Option<u16>) -> (r:
        CandidateDecision)
        ensures
            r == (if device_id@ == self.local_id() {
                CandidateDecision::DropSelf
            } else if self.contains_device(device_id@) {
                CandidateDecision::DropDuplicate
            } else {
                match tcp_port {
                    None => CandidateDecision::DropNoPort,
                    Some(p) => CandidateDecision::Dial(p),
                }
            }),
    {
        if bytes_eq(device_id, &self.local_device_id) {
            CandidateDecision::DropSelf
        } else if self.query_device(device_id) {
            CandidateDecision::DropDuplicate
        } else {
            match tcp_port {
                None => CandidateDecision::DropNoPort,
                Some(p) => CandidateDecision::Dial(p),
            }
        }
    }

    /// The connection ids of every registered session, in registry
    /// order: the targets of one broadcast.
    pub fn broadcast_targets(&self) -> (r: Vec<u64>)
        ensures
            r@ == self.entries_m().map_values(|e: EntryModel| e.conn_id),
    {
        let ghost m = self.entries_m();
        let mut out: Vec<u64> = Vec::new();
        let mut i: usize = 0;
        while i < self.entries.len()
            invariant
                0 <= i <= m.len(),
                m == self.entries_m(),
                m.len() == self.entries@.len(),
                out@ =~= m.map_values(|e: EntryModel| e.conn_id).take(i as int),
            decreases m.len() - i,
        {
            proof {
                assert(m[i as int] == self.entries@[i as int]@);
            }
            out.push(self.entries[i].conn_id);
            i = i + 1;
        }
        proof {
            assert(m.map_values(|e: EntryModel| e.conn_id).take(m.len() as int) =~= m.map_values(
                |e: EntryModel| e.conn_id,
            ));
        }
        out
    }
}

/// After removing the unique entry for `d` at index `i`: `d` is absent,
/// other lookups are unchanged, and distinctness and the conn-id bound
/// survive.
proof fn lemma_mid_facts_after_remove(before: Seq<EntryModel>, i: int, d: Seq<u8>, next: u64)
    requires
        0 <= i < before.len(),
        before[i].device_id == d,
        forall|p: int, q: int|
            0 <= p < q < before.len() ==> (#[trigger] before[p]).device_id != (
            #[trigger] before[q]).device_id,
        forall|p: int, q: int|
            0 <= p < q < before.len() ==> (#[trigger] before[p]).conn_id != (
            #[trigger] before[q]).conn_id,
        forall|p: int| 0 <= p < before.len() ==> (#[trigger] before[p]).conn_id < next,
    ensures
        absent(before.remove(i), d),
        find_entry(before.remove(i), d) is None,
        forall|x: Seq<u8>|
            x != d ==> #[trigger] find_entry(before.remove(i), x) == find_entry(before, x),
        forall|p: int, q: int|
            0 <= p < q < before.remove(i).len() ==> (#[trigger] before.remove(i)[p]).device_id != (
            #[trigger] before.remove(i)[q]).device_id,
        forall|p: int, q: int|
            0 <= p < q < before.remove(i).len() ==> (#[trigger] before.remove(i)[p]).conn_id != (
            #[trigger] before.remove(i)[q]).conn_id,
        forall|p: int|
            0 <= p < before.remove(i).len() ==> (#[trigger] before.remove(i)[p]).conn_id < next,
{
    let rm = before.remove(i);
    assert forall|j: int| 0 <= j < rm.len() implies (#[trigger] rm[j]).device_id != d by {
        if j < i {
            assert(rm[j] == before[j]);
        } else {
            assert(rm[j] == before[j + 1]);
        }
    }
    lemma_find_entry_absent_iff(rm, d);
    assert forall|x: Seq<u8>| x != d implies #[trigger] find_entry(rm, x) == find_entry(
        before,
        x,
    ) by {
        lemma_find_entry_unaffected(before, i, x);
    }
    assert forall|p: int, q: int| 0 <= p < q < rm.len() implies (#[trigger] rm[p]).device_id != (
    #[trigger] rm[q]).device_id && (#[trigger] rm[p]).conn_id != (#[trigger] rm[q]).conn_id by {
        let p2: int = if p < i {
            p
        } else {
            p + 1
        };
        let q2: int = if q < i {
            q
        } else {
            q + 1
        };
        assert(rm[p] == before[p2]);
        assert(rm[q] == before[q2]);
    }
    assert forall|p: int| 0 <= p < rm.len() implies (#[trigger] rm[p]).conn_id < next by {
        if p < i {
            assert(rm[p] == before[p]);
        } else {
            assert(rm[p] == before[p + 1]);
        }
    }
}

/// Copies a byte string.
pub fn clone_bytes(v: &Vec<u8>) -> (r: Vec<u8>)
    ensures
        r@ == v@,
{
    let mut out: Vec<u8> = Vec::new();
    let mut i: usize = 0;
    while i < v.len()
        invariant
            0 <= i <= v@.len(),
            out@ =~= v@.take(i as int),
        decreases v@.len() - i,
    {
        out.push(v[i]);
        i = i + 1;
    }
    proof {
        assert(v@.take(v@.len() as int) =~= v@);
    }
    out
}

/// At most one entry per device id: any two entries that carry the same
/// id are the same entry.
pub proof fn lemma_registry_at_most_one(m: DeviceManager, i: int, j: int)
    requires
        m.wf(),
        0 <= i < m.entries_m().len(),
        0 <= j < m.entries_m().len(),
        m.entries_m()[i].device_id == m.entries_m()[j].device_id,
    ensures
        i == j,
{
}

/// Whether a `remove_device(d, c)` call would evict the entry for `d`.
pub open spec fn remove_succeeds(m: DeviceManager, d: Seq<u8>, c: u64) -> bool {
    match find_entry(m.entries_m(), d) {
        Some(e) => e.conn_id == c,
        None => false,
    }
}

/// Exactly one connection id evicts a registered session: removals with
/// two different connection ids cannot both succeed, so only the
/// session that was issued the stored id takes its entry out and every
/// other teardown is a no-op.
pub proof fn lemma_remove_exclusive(m: DeviceManager, d: Seq<u8>, c1: u64, c2: u64)
    requires
        m.wf(),
        c1 != c2,
    ensures
        !(remove_succeeds(m, d, c1) && remove_succeeds(m, d, c2)),
{
}

proof fn lemma_find_entry_member(entries: Seq<EntryModel>, d: Seq<u8>)
    ensures
        find_entry(entries, d) matches Some(e) ==> exists|i: int|
            0 <= i < entries.len() && entries[i] == e && e.device_id == d,
    decreases entries.len(),
{
    if entries.len() > 0 {
        if entries[0].device_id == d {
            assert(entries[0] == entries[0]);
        } else {
            lemma_find_entry_member(entries.drop_first(), d);
            if find_entry(entries, d) is Some {
                let e = find_entry(entries.drop_first(), d).unwrap();
                let w = choose|i: int|
                    0 <= i < entries.drop_first().len() && entries.drop_first()[i] == e
                        && e.device_id == d;
                assert(entries[w + 1] == e);
            }
        }
    }
}

/// A connection id belongs to one session: removals of two different
/// devices under the same connection id cannot both succeed.
pub proof fn lemma_conn_id_owned_by_one_device(m: DeviceManager, d1: Seq<u8>, d2: Seq<u8>, c: u64)
    requires
        m.wf(),
        d1 != d2,
    ensures
        !(remove_succeeds(m, d1, c) && remove_succeeds(m, d2, c)),
{
    if remove_succeeds(m, d1, c) && remove_succeeds(m, d2, c) {
        lemma_find_entry_member(m.entries_m(), d1);
        lemma_find_entry_member(m.entries_m(), d2);
        let e1 = find_entry(m.entries_m(), d1).unwrap();
        let e2 = find_entry(m.entries_m(), d2).unwrap();
        let i1 = choose|i: int|
            0 <= i < m.entries_m().len() && m.entries_m()[i] == e1 && e1.device_id == d1;
        let i2 = choose|i: int|
            0 <= i < m.entries_m().len() && m.entries_m()[i] == e2 && e2.device_id == d2;
        assert(i1 != i2);
        assert(m.entries_m()[i1].conn_id == c && m.entries_m()[i2].conn_id == c);
        if i1 < i2 {
            assert(m.entries_m()[i1].conn_id != m.entries_m()[i2].conn_id);
        } else {
            assert(m.entries_m()[i2].conn_id != m.entries_m()[i1].conn_id);
        }
    }
}

} // verus!
