//! Connection policies: per-peer exponential backoff, a per-cycle budget of
//! connection attempts, bootstrap retry delays and isolation detection.
use vstd::prelude::*;
use vstd::string::*;

verus! {

/// Longest backoff after repeated failures, in seconds.
pub const MAX_BACKOFF_SECS: u64 = 300;

/// Connection attempts allowed per cycle.
pub const MAX_CONNECTIONS_PER_CYCLE: u32 = 8;

/// Length of a connection-budget cycle, in seconds.
pub const CYCLE_SECS: u64 = 30;

/// First delay between bootstrap connection attempts, in milliseconds.
pub const INITIAL_RETRY_DELAY_MS: u64 = 1000;

/// Longest delay between bootstrap connection attempts, in milliseconds.
pub const MAX_RETRY_DELAY_MS: u64 = 30000;

/// Bootstrap connection attempts per peer at startup.
pub const MAX_BOOTSTRAP_RETRIES: u32 = 5;

/// Consecutive isolated checks after which the node reconnects.
pub const ISOLATION_CHECKS_BEFORE_RECONNECT: u32 = 3;

/// `min(2^(failures - 1), 300)` seconds.
pub open spec fn backoff_spec(failures: nat) -> nat
    decreases failures,
{
    if failures <= 1 {
        1
    } else {
        let prev = backoff_spec((failures - 1) as nat);
        if 2 * prev >= MAX_BACKOFF_SECS {
            MAX_BACKOFF_SECS as nat
        } else {
            2 * prev
        }
    }
}

/// How long a peer waits after its `failures`-th failure in a row, in seconds.
pub fn backoff_secs(failures: u32) -> (r: u64)
    requires
        failures >= 1,
    ensures
        r == backoff_spec(failures as nat),
        1 <= r <= MAX_BACKOFF_SECS,
{
    let mut secs: u64 = 1;
    let mut k: u32 = 1;
    while k < failures
        invariant
            1 <= k <= failures,
            secs == backoff_spec(k as nat),
            1 <= secs <= MAX_BACKOFF_SECS,
        decreases failures - k,
    {
        secs = if 2 * secs >= MAX_BACKOFF_SECS { MAX_BACKOFF_SECS } else { 2 * secs };
        k += 1;
    }
    secs
}

/// The next delay between bootstrap attempts: doubled, at most 30 s.
pub fn next_retry_delay_ms(delay_ms: u64) -> (r: u64)
    requires
        delay_ms <= MAX_RETRY_DELAY_MS,
    ensures
        r == if 2 * delay_ms > MAX_RETRY_DELAY_MS { MAX_RETRY_DELAY_MS as int } else { 2 * delay_ms },
{
    if 2 * delay_ms > MAX_RETRY_DELAY_MS {
        MAX_RETRY_DELAY_MS
    } else {
        2 * delay_ms
    }
}

/// A node is isolated when no peer is connected, or when nothing has been
/// received and no relay is known.
pub open spec fn isolated(connected: nat, messages_received: nat, has_relay: bool) -> bool {
    connected == 0 || (messages_received == 0 && !has_relay)
}

pub fn is_isolated(connected: usize, messages_received: u64, has_relay: bool) -> (r: bool)
    ensures
        r == isolated(connected as nat, messages_received as nat, has_relay),
{
    connected == 0 || (messages_received == 0 && !has_relay)
}

/// Counts consecutive isolated checks.
pub struct IsolationMonitor {
    consecutive: u32,
}

impl IsolationMonitor {
    pub closed spec fn count(&self) -> u32 {
        self.consecutive
    }

    pub fn new() -> (r: Self)
        ensures
            r.count() == 0,
    {
        IsolationMonitor { consecutive: 0 }
    }

    /// Isolated checks in a row so far.
    pub fn consecutive(&self) -> (r: u32)
        ensures
            r == self.count(),
    {
        self.consecutive
    }

    /// Take one periodic check. Returns whether to reconnect now: on the
    /// third isolated check in a row, after which the count starts over.
    pub fn observe(&mut self, connected: usize, messages_received: u64, has_relay: bool) -> (r: bool)
        ensures
            old(self).count() < ISOLATION_CHECKS_BEFORE_RECONNECT ==> final(self).count() < ISOLATION_CHECKS_BEFORE_RECONNECT,
            r == (isolated(connected as nat, messages_received as nat, has_relay) && old(self).count() + 1
                >= ISOLATION_CHECKS_BEFORE_RECONNECT),
            final(self).count() == if isolated(connected as nat, messages_received as nat, has_relay) && !r {
                old(self).count() + 1
            } else {
                0
            },
    {
        if is_isolated(connected, messages_received, has_relay) {
            if self.consecutive >= ISOLATION_CHECKS_BEFORE_RECONNECT - 1 {
                self.consecutive = 0;
                return true;
            }
            self.consecutive = self.consecutive + 1;
            false
        } else {
            self.consecutive = 0;
            false
        }
    }
}

/// Backoff record of one peer: failures in a row and when it may be tried again (ms).
pub struct PeerBackoff {
    pub peer: String,
    pub failures: u32,
    pub next_allowed_ms: i64,
}

/// Shared connection policy: per-peer backoff and a per-cycle attempt budget.
pub struct NetworkResilience {
    peer_backoff: Vec<PeerBackoff>,
    connection_attempts: u32,
    max_connections_per_cycle: u32,
    cycle_secs: u64,
}

pub open spec fn backoff_of(entries: Seq<PeerBackoff>, peer: Seq<char>) -> Option<PeerBackoff>
    decreases entries.len(),
{
    if entries.len() == 0 {
        None
    } else if entries.last().peer@ == peer {
        Some(entries.last())
    } else {
        backoff_of(entries.drop_last(), peer)
    }
}

pub open spec fn without_peer(entries: Seq<PeerBackoff>, peer: Seq<char>) -> Seq<PeerBackoff>
    decreases entries.len(),
{
    if entries.len() == 0 {
        Seq::empty()
    } else if entries.last().peer@ == peer {
        without_peer(entries.drop_last(), peer)
    } else {
        without_peer(entries.drop_last(), peer).push(entries.last())
    }
}

proof fn lemma_without_peer(entries: Seq<PeerBackoff>, peer: Seq<char>, other: Seq<char>)
    ensures
        backoff_of(without_peer(entries, peer), peer) is None,
        other != peer ==> backoff_of(without_peer(entries, peer), other) == backoff_of(entries, other),
    decreases entries.len(),
{
    if entries.len() > 0 {
        lemma_without_peer(entries.drop_last(), peer, other);
        if entries.last().peer@ != peer {
            assert(without_peer(entries, peer).drop_last() =~= without_peer(entries.drop_last(), peer));
        }
    }
}

impl NetworkResilience {
    pub closed spec fn entries(&self) -> Seq<PeerBackoff> {
        self.peer_backoff@
    }

    pub closed spec fn attempts(&self) -> u32 {
        self.connection_attempts
    }

    pub closed spec fn budget(&self) -> u32 {
        self.max_connections_per_cycle
    }

    pub closed spec fn cycle(&self) -> u64 {
        self.cycle_secs
    }

    pub fn new() -> (r: Self)
        ensures
            r.entries() == Seq::<PeerBackoff>::empty(),
            r.attempts() == 0,
            r.budget() == MAX_CONNECTIONS_PER_CYCLE,
            r.cycle() == CYCLE_SECS,
    {
        NetworkResilience {
            peer_backoff: Vec::new(),
            connection_attempts: 0,
            max_connections_per_cycle: MAX_CONNECTIONS_PER_CYCLE,
            cycle_secs: CYCLE_SECS,
        }
    }

    /// Seconds between resets of the attempt budget.
    pub fn cycle_secs(&self) -> (r: u64)
        ensures
            r == self.cycle(),
    {
        self.cycle_secs
    }

    /// Take one attempt from this cycle's budget, if any is left.
    pub fn allow_connection_attempt(&mut self) -> (r: bool)
        ensures
            r == (old(self).attempts() < old(self).budget()),
            final(self).attempts() == if r { old(self).attempts() + 1 } else { old(self).attempts() as int },
            final(self).budget() == old(self).budget(),
            final(self).cycle() == old(self).cycle(),
            final(self).entries() == old(self).entries(),
    {
        if self.connection_attempts < self.max_connections_per_cycle {
            self.connection_attempts = self.connection_attempts + 1;
            true
        } else {
            false
        }
    }

    /// Start a new cycle with the full budget.
    pub fn reset_cycle(&mut self)
        ensures
            final(self).attempts() == 0,
            final(self).budget() == old(self).budget(),
            final(self).cycle() == old(self).cycle(),
            final(self).entries() == old(self).entries(),
    {
        self.connection_attempts = 0;
    }

    fn find(&self, peer: &String) -> (r: Option<usize>)
        ensures
            r matches Some(i) ==> i < self.entries().len() && backoff_of(self.entries(), peer@) == Some(
                self.entries()[i as int],
            ),
            r is None ==> backoff_of(self.entries(), peer@) is None,
    {
        let mut i: usize = self.peer_backoff.len();
        assert(self.entries().subrange(0, i as int) =~= self.entries());
        while i > 0
            invariant
                i <= self.peer_backoff@.len(),
                backoff_of(self.entries(), peer@) == backoff_of(self.entries().subrange(0, i as int), peer@),
            decreases i,
        {
            assert(self.entries().subrange(0, i as int).drop_last() =~= self.entries().subrange(0, i - 1));
            if self.peer_backoff[i - 1].peer == *peer {
                return Some(i - 1);
            }
            i -= 1;
        }
        None
    }

    /// Whether a peer may be tried at `now_ms`: it has no backoff, or its
    /// backoff has run out.
    pub fn may_attempt(&self, peer: &String, now_ms: i64) -> (r: bool)
        ensures
            r == match backoff_of(self.entries(), peer@) {
                None => true,
                Some(b) => now_ms >= b.next_allowed_ms,
            },
    {
        match self.find(peer) {
            None => true,
            Some(i) => now_ms >= self.peer_backoff[i].next_allowed_ms,
        }
    }

    /// A connection succeeded: the peer's backoff is cleared.
    pub fn record_success(&mut self, peer: &String)
        ensures
            final(self).entries() == without_peer(old(self).entries(), peer@),
            backoff_of(final(self).entries(), peer@) is None,
            final(self).attempts() == old(self).attempts(),
            final(self).budget() == old(self).budget(),
            final(self).cycle() == old(self).cycle(),
    {
        let n = self.peer_backoff.len();
        let mut kept: Vec<PeerBackoff> = Vec::new();
        let ghost all = self.peer_backoff@;
        let mut i: usize = 0;
        while i < n
            invariant
                n == all.len(),
                all == self.peer_backoff@,
                i <= n,
                kept@ == without_peer(all.subrange(0, i as int), peer@),
            decreases n - i,
        {
            assert(all.subrange(0, i + 1).drop_last() =~= all.subrange(0, i as int));
            let e = &self.peer_backoff[i];
            if e.peer != *peer {
                kept.push(PeerBackoff { peer: e.peer.clone(), failures: e.failures, next_allowed_ms: e.next_allowed_ms });
            }
            i += 1;
        }
        assert(all.subrange(0, n as int) =~= all);
        self.peer_backoff = kept;
        proof {
            lemma_without_peer(all, peer@, peer@);
        }
    }

    /// A connection failed at `now_ms`: one more failure in a row, and the
    /// peer waits `min(2^(failures - 1), 300)` seconds.
    pub fn record_failure(&mut self, peer: &String, now_ms: i64)
        requires
            now_ms <= i64::MAX - 1000 * MAX_BACKOFF_SECS,
        ensures
            final(self).attempts() == old(self).attempts(),
            final(self).budget() == old(self).budget(),
            final(self).cycle() == old(self).cycle(),
            ({
                let failures: int = match backoff_of(old(self).entries(), peer@) {
                    None => 1,
                    Some(b) => if b.failures == u32::MAX {
                        u32::MAX as int
                    } else {
                        b.failures + 1
                    },
                };
                backoff_of(final(self).entries(), peer@) matches Some(b) && b.failures == failures
                    && b.next_allowed_ms == now_ms + 1000 * backoff_spec(failures as nat)
            }),
            forall|other: Seq<char>| other != peer@ ==> #[trigger] backoff_of(final(self).entries(), other)
                == backoff_of(old(self).entries(), other),
    {
        let failures: u32 = match self.find(peer) {
            None => 1,
            Some(i) => if self.peer_backoff[i].failures == u32::MAX {
                u32::MAX
            } else {
                self.peer_backoff[i].failures + 1
            },
        };
        let wait = backoff_secs(failures);
        let next_allowed_ms = now_ms + 1000 * (wait as i64);
        self.record_success(peer);
        let ghost before = self.peer_backoff@;
        self.peer_backoff.push(PeerBackoff { peer: peer.clone(), failures, next_allowed_ms });
        proof {
            assert(self.peer_backoff@.drop_last() =~= before);
            assert forall|other: Seq<char>| other != peer@ implies #[trigger] backoff_of(self.entries(), other)
                == backoff_of(old(self).entries(), other) by {
                lemma_without_peer(old(self).entries(), peer@, other);
            }
        }
    }

    /// The backoff records, one per peer that failed and has not connected since.
    pub fn peer_backoff(&self) -> (r: &Vec<PeerBackoff>)
        ensures
            r@ == self.entries(),
    {
        &self.peer_backoff
    }
}

/// Split `node_id@address` into its two parts, at the first `@`.
pub fn split_peer_address(s: &str) -> (r: Option<(String, String)>)
    ensures
        r matches Some(p) ==> s@ == p.0@ + seq!['@'] + p.1@ && !p.0@.contains('@'),
        r is None ==> !s@.contains('@'),
{
    let n = s.unicode_len();
    let mut i: usize = 0;
    while i < n
        invariant
            n == s@.len(),
            i <= n,
            forall|j: int| 0 <= j < i ==> s@[j] != '@',
        decreases n - i,
    {
        if s.get_char(i) == '@' {
            let head = String::from_str(s.substring_char(0, i));
            let tail = String::from_str(s.substring_char(i + 1, n));
            assert(s@ =~= head@ + seq!['@'] + tail@);
            assert(!head@.contains('@')) by {
                if head@.contains('@') {
                    let j = choose|j: int| 0 <= j < head@.len() && head@[j] == '@';
                    assert(s@[j] == '@');
                }
            }
            return Some((head, tail));
        }
        i += 1;
    }
    None
}

} // verus!
