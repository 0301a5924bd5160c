//! Which other instances are on the network.

use vstd::prelude::*;

use crate::share::{PeerAddr, PeerInfo, ANNOUNCE_EVERY_MS, PEER_TIMEOUT_MS};

verus! {

/// `Uuid::new_v4` and `Uuid::as_bytes`: sixteen random bytes, except for the
/// bits that mark a random identifier of version 4.
#[verifier::external_body]
fn new_uuid() -> (id: [u8; 16])
    ensures
        0x40 <= id@[6] <= 0x4f,
        0x80 <= id@[8] <= 0xbf,
{
    *uuid::Uuid::new_v4().as_bytes()
}

/// A fresh identifier for this run, by which it knows its own announcements.
pub fn random_session_id() -> (id: [u8; 16])
    ensures
        0x40 <= id@[6] <= 0x4f,
        0x80 <= id@[8] <= 0xbf,
{
    new_uuid()
}

#[derive(Debug, PartialEq, Eq)]
pub enum DiscoveryEvent {
    PeerFound(PeerInfo),
    PeerLost(PeerAddr),
}

/// The peers heard of, and when each was last heard, in milliseconds.
#[derive(Debug)]
pub struct PeerTable {
    seen: Vec<(PeerAddr, u64)>,
}

/// When an address was last heard according to a list of hearings.
pub open spec fn heard_at(seen: Seq<(PeerAddr, u64)>, a: PeerAddr, n: int) -> Option<u64>
    decreases n,
{
    if n <= 0 {
        None
    } else if seen[n - 1].0 == a {
        Some(seen[n - 1].1)
    } else {
        heard_at(seen, a, n - 1)
    }
}

proof fn lemma_heard_at(seen: Seq<(PeerAddr, u64)>, a: PeerAddr, n: int)
    requires
        0 <= n <= seen.len(),
    ensures
        heard_at(seen, a, n) is None <==> forall|i: int| 0 <= i < n ==> (#[trigger] seen[i]).0 != a,
        heard_at(seen, a, n) is Some ==> exists|i: int|
            0 <= i < n && #[trigger] seen[i] == (a, heard_at(seen, a, n)->0),
    decreases n,
{
    if n > 0 {
        lemma_heard_at(seen, a, n - 1);
        if seen[n - 1].0 == a {
            assert(seen[n - 1] == (a, seen[n - 1].1));
        } else if heard_at(seen, a, n - 1) is Some {
            let i = choose|i: int|
                0 <= i < n - 1 && #[trigger] seen[i] == (a, heard_at(seen, a, n - 1)->0);
            assert(seen[i].0 == a);
        }
    }
}

proof fn lemma_heard_is(seen: Seq<(PeerAddr, u64)>, i: int, n: int)
    requires
        0 <= i < n <= seen.len(),
        forall|i: int, j: int|
            0 <= i < j < seen.len() ==> (#[trigger] seen[i]).0 != (#[trigger] seen[j]).0,
    ensures
        heard_at(seen, seen[i].0, n) == Some(seen[i].1),
    decreases n,
{
    if i < n - 1 {
        lemma_heard_is(seen, i, n - 1);
        assert(seen[i].0 != seen[n - 1].0);
    }
}

/// Whether a peer last heard at `seen` counts as gone at `now`.
pub open spec fn stale(seen: u64, now: u64) -> bool {
    now - seen > PEER_TIMEOUT_MS
}

impl PeerTable {
    /// No address is listed twice.
    pub closed spec fn wf(self) -> bool {
        forall|i: int, j: int|
            0 <= i < j < self.seen@.len() ==> (#[trigger] self.seen@[i]).0 != (
            #[trigger] self.seen@[j]).0
    }

    /// When an address was last heard; `None` when it is not known.
    pub closed spec fn last_seen(self, a: PeerAddr) -> Option<u64> {
        heard_at(self.seen@, a, self.seen@.len() as int)
    }

    pub fn new() -> (r: PeerTable)
        ensures
            r.wf(),
            forall|a: PeerAddr| r.last_seen(a) is None,
    {
        PeerTable { seen: Vec::new() }
    }

    /// Whether `after` differs only in that `addr` was heard at `now`.
    pub open spec fn renewed(self, after: PeerTable, addr: PeerAddr, now: u64) -> bool {
        forall|a: PeerAddr| #[trigger]
            after.last_seen(a) == (if a == addr {
                Some(now)
            } else {
                self.last_seen(a)
            })
    }

    /// Whether `after` lacks exactly the peers that were not heard for too
    /// long, and these are listed.
    pub open spec fn cleared(self, after: PeerTable, lost: Seq<PeerAddr>, now: u64) -> bool {
        &&& forall|a: PeerAddr| #[trigger]
            after.last_seen(a) == (match self.last_seen(a) {
                Some(t) if !stale(t, now) => Some(t),
                _ => None,
            })
        &&& forall|a: PeerAddr| #[trigger]
            lost.contains(a) <==> self.last_seen(a) is Some && stale(self.last_seen(a)->0, now)
    }

    /// Takes note of a peer heard at `now`. The event comes when it was not
    /// known before.
    pub fn heard(&mut self, peer: PeerInfo, now: u64) -> (event: Option<DiscoveryEvent>)
        requires
            old(self).wf(),
        ensures
            final(self).wf(),
            forall|a: PeerAddr|
                final(self).last_seen(a) == (if a == peer.addr {
                    Some(now)
                } else {
                    old(self).last_seen(a)
                }),
            old(self).last_seen(peer.addr) is Some ==> event is None,
            old(self).last_seen(peer.addr) is None ==> event == Some(
                DiscoveryEvent::PeerFound(peer),
            ),
            old(self).renewed(*final(self), peer.addr, now),
    {
        let ghost before = self.seen@;
        let addr = peer.addr;
        let mut i: usize = 0;
        while i < self.seen.len()
            invariant
                before == old(self).seen@,
                self.seen@ == before,
                self.wf(),
                i <= before.len(),
                addr == peer.addr,
                forall|j: int| 0 <= j < i ==> (#[trigger] before[j]).0 != addr,
            decreases before.len() - i,
        {
            let (known, _) = self.seen[i];
            if known == addr {
                self.seen.set(i, (addr, now));
                proof {
                    let after = self.seen@;
                    assert(self.wf()) by {
                        assert forall|x: int, y: int| 0 <= x < y < after.len() implies (
                        #[trigger] after[x]).0 != (#[trigger] after[y]).0 by {
                            assert(before[x].0 == after[x].0);
                            assert(before[y].0 == after[y].0);
                        }
                    }
                    assert forall|a: PeerAddr|
                        self.last_seen(a) == (if a == addr {
                            Some(now)
                        } else {
                            heard_at(before, a, before.len() as int)
                        }) by {
                        lemma_heard_is(after, i as int, after.len() as int);
                        if a != addr {
                            lemma_set_keeps(before, after, i as int, a, after.len() as int);
                        }
                    }
                    lemma_heard_is(before, i as int, before.len() as int);
                }
                return None;
            }
            i = i + 1;
        }
        self.seen.push((addr, now));
        proof {
            let after = self.seen@;
            lemma_heard_at(before, addr, before.len() as int);
            assert(after.drop_last() =~= before);
            assert forall|a: PeerAddr|
                self.last_seen(a) == (if a == addr {
                    Some(now)
                } else {
                    heard_at(before, a, before.len() as int)
                }) by {
                lemma_prefix_keeps(before, after, a, before.len() as int);
            }
        }
        Some(DiscoveryEvent::PeerFound(peer))
    }

    /// Forgets the peers that were not heard for too long and lists them.
    pub fn expire(&mut self, now: u64) -> (lost: Vec<PeerAddr>)
        requires
            old(self).wf(),
        ensures
            final(self).wf(),
            forall|a: PeerAddr|
                final(self).last_seen(a) == (match old(self).last_seen(a) {
                    Some(t) if !stale(t, now) => Some(t),
                    _ => None,
                }),
            forall|a: PeerAddr|
                lost@.contains(a) <==> old(self).last_seen(a) is Some && stale(
                    old(self).last_seen(a)->0,
                    now,
                ),
            lost@.no_duplicates(),
            old(self).cleared(*final(self), lost@, now),
    {
        let ghost before = self.seen@;
        let mut kept: Vec<(PeerAddr, u64)> = Vec::new();
        let mut lost: Vec<PeerAddr> = Vec::new();
        let mut i: usize = 0;
        while i < self.seen.len()
            invariant
                self.seen@ == before,
                self.wf(),
                i <= before.len(),
                forall|x: int, y: int|
                    0 <= x < y < kept@.len() ==> (#[trigger] kept@[x]).0 != (#[trigger] kept@[y]).0,
                forall|x: int|
                    0 <= x < kept@.len() ==> exists|j: int|
                        0 <= j < i && #[trigger] before[j] == #[trigger] kept@[x],
                forall|x: int|
                    0 <= x < lost@.len() ==> exists|j: int|
                        0 <= j < i && (#[trigger] before[j]).0 == #[trigger] lost@[x],
                lost@.no_duplicates(),
                forall|a: PeerAddr|
                    #[trigger] heard_at(kept@, a, kept@.len() as int) == (match heard_at(
                        before,
                        a,
                        i as int,
                    ) {
                        Some(t) if !stale(t, now) => Some(t),
                        _ => None,
                    }),
                forall|a: PeerAddr|
                    lost@.contains(a) <==> heard_at(before, a, i as int) is Some && stale(
                        heard_at(before, a, i as int)->0,
                        now,
                    ),
            decreases before.len() - i,
        {
            let (addr, t) = self.seen[i];
            let ghost old_kept = kept@;
            let ghost old_lost = lost@;
            proof {
                lemma_heard_at(before, addr, i as int);
                assert(heard_at(before, addr, i as int) is None) by {
                    assert forall|j: int| 0 <= j < i implies (#[trigger] before[j]).0 != addr by {
                        assert(before[i as int].0 == addr);
                    }
                }
            }
            if now > t && now - t > PEER_TIMEOUT_MS {
                lost.push(addr);
                proof {
                    assert(!old_lost.contains(addr));
                    assert forall|a: PeerAddr|
                        lost@.contains(a) <==> heard_at(before, a, i + 1) is Some && stale(
                            heard_at(before, a, i + 1)->0,
                            now,
                        ) by {
                        if a == addr {
                            assert(lost@[old_lost.len() as int] == addr);
                        } else {
                            if old_lost.contains(a) {
                                let x = choose|x: int| 0 <= x < old_lost.len() && old_lost[x] == a;
                                assert(lost@[x] == a);
                            }
                            if lost@.contains(a) {
                                let x = choose|x: int| 0 <= x < lost@.len() && lost@[x] == a;
                                assert(old_lost[x] == a);
                            }
                        }
                    }
                    assert forall|x: int| 0 <= x < lost@.len() implies exists|j: int|
                        0 <= j < i + 1 && (#[trigger] before[j]).0 == #[trigger] lost@[x] by {
                        if x < old_lost.len() {
                            let j = choose|j: int|
                                0 <= j < i && (#[trigger] before[j]).0 == old_lost[x];
                            assert(before[j].0 == lost@[x]);
                        } else {
                            assert(before[i as int].0 == lost@[x]);
                        }
                    }
                }
            } else {
                kept.push((addr, t));
                proof {
                    assert forall|x: int| 0 <= x < old_kept.len() implies (
                    #[trigger] old_kept[x]).0 != addr by {
                        let j = choose|j: int| 0 <= j < i && #[trigger] before[j] == old_kept[x];
                        assert(before[j].0 != before[i as int].0);
                    }
                    assert forall|a: PeerAddr|
                        #[trigger] heard_at(kept@, a, kept@.len() as int) == (match heard_at(
                            before,
                            a,
                            i + 1,
                        ) {
                            Some(u) if !stale(u, now) => Some(u),
                            _ => None,
                        }) by {
                        lemma_prefix_keeps(old_kept, kept@, a, old_kept.len() as int);
                    }
                    assert forall|x: int| 0 <= x < kept@.len() implies exists|j: int|
                        0 <= j < i + 1 && #[trigger] before[j] == #[trigger] kept@[x] by {
                        if x < old_kept.len() {
                            let j = choose|j: int| 0 <= j < i && #[trigger] before[j] == old_kept[x];
                            assert(before[j] == kept@[x]);
                        } else {
                            assert(before[i as int] == kept@[x]);
                        }
                    }
                }
            }
            i = i + 1;
        }
        self.seen = kept;
        lost
    }
}

proof fn lemma_prefix_keeps(
    before: Seq<(PeerAddr, u64)>,
    after: Seq<(PeerAddr, u64)>,
    a: PeerAddr,
    n: int,
)
    requires
        0 <= n <= before.len() <= after.len(),
        forall|i: int| 0 <= i < before.len() ==> before[i] == after[i],
    ensures
        heard_at(before, a, n) == heard_at(after, a, n),
    decreases n,
{
    if n > 0 {
        lemma_prefix_keeps(before, after, a, n - 1);
    }
}

proof fn lemma_set_keeps(
    before: Seq<(PeerAddr, u64)>,
    after: Seq<(PeerAddr, u64)>,
    at: int,
    a: PeerAddr,
    n: int,
)
    requires
        0 <= at < before.len(),
        before.len() == after.len(),
        0 <= n <= before.len(),
        after == before.update(at, after[at]),
        before[at].0 != a,
        after[at].0 != a,
    ensures
        heard_at(before, a, n) == heard_at(after, a, n),
    decreases n,
{
    if n > 0 {
        lemma_set_keeps(before, after, at, a, n - 1);
    }
}

/// Whether it is time for our next announcement.
pub fn announce_due(last: Option<u64>, now: u64) -> (r: bool)
    ensures
        r == (match last {
            None => true,
            Some(t) => now - t >= ANNOUNCE_EVERY_MS,
        }),
{
    match last {
        None => true,
        Some(t) => now >= t && now - t >= ANNOUNCE_EVERY_MS,
    }
}

/// A peer is announced once, when it is first heard; hearing it again only
/// renews it, and no other peer is touched.
pub proof fn law_peers_are_found_once(
    table: &mut PeerTable,
    peer: PeerInfo,
    now: u64,
    event: Option<DiscoveryEvent>,
    other: PeerAddr,
)
    requires
        call_ensures(PeerTable::heard, (table, peer, now), event),
        table.wf(),
        other != peer.addr,
    ensures
        event is Some == old(table).last_seen(peer.addr) is None,
        event is Some ==> event->0 == DiscoveryEvent::PeerFound(peer),
        final(table).last_seen(peer.addr) == Some(now),
        final(table).last_seen(other) == old(table).last_seen(other),
{
}

/// A peer is lost exactly when nothing was heard of it for more than ten
/// seconds; one that is lost is forgotten, and every other stays as it was.
pub proof fn law_silent_peers_are_lost(
    table: &mut PeerTable,
    now: u64,
    lost: Vec<PeerAddr>,
    addr: PeerAddr,
)
    requires
        call_ensures(PeerTable::expire, (table, now), lost),
        table.wf(),
    ensures
        lost@.contains(addr) == (old(table).last_seen(addr) is Some && now - old(
            table).last_seen(addr)->0 > 10_000),
        lost@.contains(addr) ==> final(table).last_seen(addr) is None,
        !lost@.contains(addr) ==> final(table).last_seen(addr) == old(table).last_seen(addr),
{
    assert(final(table).last_seen(addr) == (match table.last_seen(addr) {
        Some(t) if !stale(t, now) => Some(t),
        _ => None,
    }));
    assert(lost@.contains(addr) == (table.last_seen(addr) is Some && stale(
        table.last_seen(addr)->0,
        now,
    )));
}

/// An instance announces itself at once and then every two seconds, so that a
/// peer hears it several times before it would take it for gone.
pub proof fn law_announcements_come_in_time(
    last: Option<u64>,
    now: u64,
    later: u64,
    r: bool,
    s: bool,
)
    requires
        call_ensures(announce_due, (last, now), r),
        call_ensures(announce_due, (last, later), s),
        now <= later,
    ensures
        last is None ==> r,
        r ==> s,
        last is Some ==> r == (now >= last->0 + 2_000),
        ANNOUNCE_EVERY_MS * 2 < PEER_TIMEOUT_MS,
{
}

} // verus!
