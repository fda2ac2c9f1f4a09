//! The bookkeeping of a UDP relay: which clients have an upstream socket,
//! when each was last heard from, and which have been idle long enough to
//! be dropped.
use vstd::prelude::*;

verus! {

/// A client's socket address: IPv4 or IPv6 address, port, and for IPv6 the
/// flow label and scope, which take part in telling addresses apart.
#[derive(Debug, Clone, Copy, PartialEq, Eq, Hash, Structural)]
pub struct PeerAddr {
    pub v6: bool,
    pub ip: u128,
    pub port: u16,
    pub flowinfo: u32,
    pub scope_id: u32,
}

/// How long a client may stay silent before its session is dropped, in
/// nanoseconds (sixty seconds).
pub const SESSION_IDLE_NANOS: u64 = 60_000_000_000u64;

/// How often idle sessions are swept, in seconds.
pub const SWEEP_INTERVAL_SECS: u64 = 30u64;

/// Time from `last` to `now`, nothing when the clock reads earlier.
pub open spec fn elapsed(last: u64, now: u64) -> int {
    if now >= last {
        now - last
    } else {
        0
    }
}

/// A session heard from within the idle limit.
pub open spec fn is_fresh(last: u64, now: u64) -> bool {
    elapsed(last, now) < SESSION_IDLE_NANOS
}

/// Position of `peer` among the sessions.
pub open spec fn session_index(s: Seq<(PeerAddr, u64)>, peer: PeerAddr) -> Option<int>
    decreases s.len(),
{
    if s.len() == 0 {
        None
    } else {
        match session_index(s.drop_last(), peer) {
            Some(k) => Some(k),
            None => if s.last().0 == peer {
                Some(s.len() - 1)
            } else {
                None
            },
        }
    }
}

/// No client has two sessions.
pub open spec fn distinct_peers(s: Seq<(PeerAddr, u64)>) -> bool {
    forall|i: int, j: int| 0 <= i < j < s.len() ==> (#[trigger] s[i]).0 != (#[trigger] s[j]).0
}

/// The sessions that are still fresh at `now`, in order.
pub open spec fn fresh_sessions(s: Seq<(PeerAddr, u64)>, now: u64) -> Seq<(PeerAddr, u64)>
    decreases s.len(),
{
    if s.len() == 0 {
        seq![]
    } else if is_fresh(s.last().1, now) {
        fresh_sessions(s.drop_last(), now).push(s.last())
    } else {
        fresh_sessions(s.drop_last(), now)
    }
}

/// The clients whose sessions are idle at `now`, in order.
pub open spec fn idle_peers(s: Seq<(PeerAddr, u64)>, now: u64) -> Seq<PeerAddr>
    decreases s.len(),
{
    if s.len() == 0 {
        seq![]
    } else if is_fresh(s.last().1, now) {
        idle_peers(s.drop_last(), now)
    } else {
        idle_peers(s.drop_last(), now).push(s.last().0)
    }
}

/// The relay's sessions: each client with the time it was last heard from.
pub struct UdpSessions {
    entries: Vec<(PeerAddr, u64)>,
}

impl View for UdpSessions {
    type V = Seq<(PeerAddr, u64)>;

    closed spec fn view(&self) -> Seq<(PeerAddr, u64)> {
        self.entries@
    }
}

proof fn lemma_session_index_prefix(s: Seq<(PeerAddr, u64)>, peer: PeerAddr, n: int)
    requires
        0 <= n <= s.len(),
        session_index(s.take(n), peer) is Some,
    ensures
        session_index(s, peer) == session_index(s.take(n), peer),
    decreases s.len() - n,
{
    if n == s.len() {
        assert(s.take(n) =~= s);
    } else {
        assert(s.take(n + 1).drop_last() =~= s.take(n));
        lemma_session_index_prefix(s, peer, n + 1);
    }
}

proof fn lemma_session_index_some(s: Seq<(PeerAddr, u64)>, peer: PeerAddr)
    ensures
        session_index(s, peer) matches Some(k) ==> 0 <= k < s.len() && s[k].0 == peer,
    decreases s.len(),
{
    if s.len() > 0 {
        lemma_session_index_some(s.drop_last(), peer);
        if let Some(k) = session_index(s.drop_last(), peer) {
            assert(s[k] == s.drop_last()[k]);
        }
    }
}

proof fn lemma_session_index_none(s: Seq<(PeerAddr, u64)>, peer: PeerAddr)
    requires
        session_index(s, peer) is None,
    ensures
        forall|m: int| 0 <= m < s.len() ==> (#[trigger] s[m]).0 != peer,
    decreases s.len(),
{
    if s.len() > 0 {
        lemma_session_index_none(s.drop_last(), peer);
        assert forall|m: int| 0 <= m < s.len() implies (#[trigger] s[m]).0 != peer by {
            if m < s.len() - 1 {
                assert(s[m] == s.drop_last()[m]);
            }
        }
    }
}

proof fn lemma_fresh_sessions_subseq(s: Seq<(PeerAddr, u64)>, now: u64)
    ensures
        forall|i: int|
            0 <= i < fresh_sessions(s, now).len() ==> s.contains(#[trigger] fresh_sessions(s, now)[i]),
        forall|i: int|
            0 <= i < fresh_sessions(s, now).len() ==> is_fresh(#[trigger] fresh_sessions(s, now)[i].1, now),
    decreases s.len(),
{
    if s.len() > 0 {
        let init = s.drop_last();
        lemma_fresh_sessions_subseq(init, now);
        let f = fresh_sessions(s, now);
        assert forall|i: int| 0 <= i < f.len() implies s.contains(#[trigger] f[i]) by {
            let fi = fresh_sessions(init, now);
            if i < fi.len() {
                assert(f[i] == fi[i]);
                let j = choose|j: int| 0 <= j < init.len() && init[j] == fi[i];
                assert(s[j] == init[j]);
            } else {
                assert(f[i] == s.last());
                assert(s[s.len() - 1] == s.last());
            }
        }
        assert forall|i: int| 0 <= i < f.len() implies is_fresh(#[trigger] f[i].1, now) by {
            let fi = fresh_sessions(init, now);
            if i < fi.len() {
                assert(f[i] == fi[i]);
            }
        }
    }
}

/// Keeping an order-preserving part of sessions keeps clients distinct.
proof fn lemma_fresh_sessions_distinct(s: Seq<(PeerAddr, u64)>, now: u64)
    requires
        distinct_peers(s),
    ensures
        distinct_peers(fresh_sessions(s, now)),
    decreases s.len(),
{
    if s.len() > 0 {
        let init = s.drop_last();
        assert(distinct_peers(init)) by {
            assert forall|i: int, j: int| 0 <= i < j < init.len() implies (#[trigger] init[i]).0 != (
            #[trigger] init[j]).0 by {
                assert(init[i] == s[i] && init[j] == s[j]);
            }
        }
        lemma_fresh_sessions_distinct(init, now);
        lemma_fresh_sessions_subseq(init, now);
        let fi = fresh_sessions(init, now);
        if is_fresh(s.last().1, now) {
            let f = fi.push(s.last());
            assert forall|i: int, j: int| 0 <= i < j < f.len() implies (#[trigger] f[i]).0 != (
            #[trigger] f[j]).0 by {
                if j == f.len() - 1 {
                    assert(f[i] == fi[i]);
                    assert(init.contains(fi[i]));
                    let m = choose|m: int| 0 <= m < init.len() && init[m] == fi[i];
                    assert(s[m] == init[m]);
                    assert(s[s.len() - 1] == s.last());
                } else {
                    assert(f[i] == fi[i] && f[j] == fi[j]);
                }
            }
        }
    }
}

impl UdpSessions {
    /// The sessions are well formed: no client has two.
    pub open spec fn wf(&self) -> bool {
        distinct_peers(self@)
    }

    /// No sessions.
    pub fn new() -> (res: Self)
        ensures
            res@ == Seq::<(PeerAddr, u64)>::empty(),
            res.wf(),
    {
        UdpSessions { entries: Vec::new() }
    }

    /// The number of sessions.
    pub fn len(&self) -> (res: usize)
        ensures
            res == self@.len(),
    {
        self.entries.len()
    }

    fn position(&self, peer: PeerAddr) -> (res: Option<usize>)
        ensures
            match res {
                Some(k) => k < self@.len() && session_index(self@, peer) == Some(k as int),
                None => session_index(self@, peer) is None,
            },
    {
        let ghost s = self@;
        let mut i: usize = 0;
        while i < self.entries.len()
            invariant
                s == self.entries@,
                0 <= i <= s.len(),
                session_index(s.take(i as int), peer) is None,
            decreases s.len() - i,
        {
            assert(s.take(i + 1).drop_last() =~= s.take(i as int));
            if self.entries[i].0 == peer {
                proof {
                    lemma_session_index_prefix(s, peer, i + 1);
                }
                return Some(i);
            }
            i = i + 1;
        }
        assert(s.take(i as int) =~= s);
        None
    }

    /// A datagram from `peer` at `now`: when `peer` has a session, it is
    /// marked as heard from now and `true` is returned; otherwise nothing
    /// changes and `false` is returned.
    pub fn touch(&mut self, peer: PeerAddr, now: u64) -> (known: bool)
        requires
            old(self).wf(),
        ensures
            final(self).wf(),
            known == (session_index(old(self)@, peer) is Some),
            match session_index(old(self)@, peer) {
                Some(k) => final(self)@ == old(self)@.update(k, (peer, now)),
                None => final(self)@ == old(self)@,
            },
    {
        match self.position(peer) {
            Some(k) => {
                self.entries.set(k, (peer, now));
                proof {
                    let s = self.entries@;
                    let o = old(self).entries@;
                    lemma_session_index_some(o, peer);
                    assert forall|i: int, j: int| 0 <= i < j < s.len() implies (#[trigger] s[i]).0 != (
                    #[trigger] s[j]).0 by {
                        assert(o[k as int].0 == peer);
                        if i == k {
                            assert(o[i].0 != o[j].0);
                        } else if j == k {
                            assert(o[i].0 != o[j].0);
                        } else {
                            assert(o[i].0 != o[j].0);
                        }
                    }
                }
                true
            },
            None => false,
        }
    }

    /// Records `peer` as heard from at `now`, adding a session for it when
    /// it has none (`HashMap::insert`).
    pub fn insert(&mut self, peer: PeerAddr, now: u64)
        requires
            old(self).wf(),
        ensures
            final(self).wf(),
            match session_index(old(self)@, peer) {
                Some(k) => final(self)@ == old(self)@.update(k, (peer, now)),
                None => final(self)@ == old(self)@.push((peer, now)),
            },
    {
        if !self.touch(peer, now) {
            proof {
                lemma_session_index_none(self.entries@, peer);
            }
            self.entries.push((peer, now));
            proof {
                let s = self.entries@;
                let o = old(self).entries@;
                assert forall|i: int, j: int| 0 <= i < j < s.len() implies (#[trigger] s[i]).0 != (
                #[trigger] s[j]).0 by {
                    if j == s.len() - 1 {
                        assert(s[i] == o[i]);
                    } else {
                        assert(s[i] == o[i] && s[j] == o[j]);
                    }
                }
            }
        }
    }

    /// Drops the sessions idle at `now` and returns their clients, in order.
    pub fn sweep(&mut self, now: u64) -> (expired: Vec<PeerAddr>)
        requires
            old(self).wf(),
        ensures
            final(self).wf(),
            final(self)@ == fresh_sessions(old(self)@, now),
            expired@ == idle_peers(old(self)@, now),
    {
        let ghost s = self.entries@;
        let mut kept: Vec<(PeerAddr, u64)> = Vec::new();
        let mut gone: Vec<PeerAddr> = Vec::new();
        for i in 0..self.entries.len()
            invariant
                s == self.entries@,
                kept@ == fresh_sessions(s.take(i as int), now),
                gone@ == idle_peers(s.take(i as int), now),
        {
            assert(s.take(i + 1).drop_last() =~= s.take(i as int));
            let (peer, last) = self.entries[i];
            let idle = if now >= last {
                now - last
            } else {
                0
            };
            if idle < SESSION_IDLE_NANOS {
                kept.push((peer, last));
            } else {
                gone.push(peer);
            }
        }
        assert(s.take(s.len() as int) =~= s);
        proof {
            lemma_fresh_sessions_distinct(s, now);
        }
        self.entries = kept;
        gone
    }
}

/// After a sweep, every session left is fresh, and every session that was
/// fresh is still there with the same time.
pub proof fn lemma_sweep_keeps_exactly_fresh(s: Seq<(PeerAddr, u64)>, now: u64)
    ensures
        forall|i: int|
            0 <= i < fresh_sessions(s, now).len() ==> is_fresh(#[trigger] fresh_sessions(s, now)[i].1, now),
        forall|i: int| 0 <= i < s.len() && is_fresh(s[i].1, now) ==> fresh_sessions(s, now).contains(#[trigger] s[i]),
    decreases s.len(),
{
    lemma_fresh_sessions_subseq(s, now);
    if s.len() > 0 {
        let init = s.drop_last();
        lemma_sweep_keeps_exactly_fresh(init, now);
        assert forall|i: int| 0 <= i < s.len() && is_fresh(s[i].1, now) implies fresh_sessions(s, now).contains(
            #[trigger] s[i],
        ) by {
            let fi = fresh_sessions(init, now);
            if i < init.len() {
                assert(init[i] == s[i]);
                assert(fi.contains(init[i]));
                let j = choose|j: int| 0 <= j < fi.len() && fi[j] == init[i];
                if is_fresh(s.last().1, now) {
                    assert(fi.push(s.last())[j] == fi[j]);
                }
            } else {
                assert(s[i] == s.last());
                assert(fi.push(s.last())[fi.len() as int] == s.last());
            }
        }
    }
}

} // verus!
