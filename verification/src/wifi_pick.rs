//! Choice of a configured network by the results of a scan.

use vstd::prelude::*;

use crate::text;

verus! {

/// Signal strength of an access point in dBm: the closer to zero, the stronger.
#[derive(Clone, Copy, PartialEq, Eq, Structural, PartialOrd, Ord, Debug)]
pub struct Rssi(pub i8);

/// A configured network: name and password.
pub type Network<'n> = (&'n str, &'n str);

/// The first configured network of a name.
pub open spec fn configured(networks: Seq<Network>, ssid: Seq<char>) -> Option<int>
    decreases networks.len(),
{
    if networks.len() == 0 {
        None
    } else if networks[0].0@ == ssid {
        Some(0)
    } else {
        match configured(networks.drop_first(), ssid) {
            Some(i) => Some(i + 1),
            None => None,
        }
    }
}

/// Is the `k`-th access point seen one of a configured network.
pub open spec fn is_own(networks: Seq<Network>, seen: Seq<(&str, Rssi)>, k: int) -> bool {
    configured(networks, seen[k].0@) is Some
}

/// Is the `k`-th access point the strongest of the configured networks, and the
/// first seen of those as strong.
pub open spec fn is_strongest(networks: Seq<Network>, seen: Seq<(&str, Rssi)>, k: int) -> bool {
    &&& 0 <= k < seen.len()
    &&& is_own(networks, seen, k)
    &&& forall|j: int|
        0 <= j < seen.len() && #[trigger] is_own(networks, seen, j) ==> seen[j].1.0 <= seen[k].1.0 && (j < k
            ==> seen[j].1.0 < seen[k].1.0)
}

proof fn lemma_configured(networks: Seq<Network>, ssid: Seq<char>)
    ensures
        match configured(networks, ssid) {
            Some(i) => {
                &&& 0 <= i < networks.len()
                &&& networks[i].0@ == ssid
                &&& forall|j: int| 0 <= j < i ==> (#[trigger] networks[j]).0@ != ssid
            },
            None => forall|j: int| 0 <= j < networks.len() ==> (#[trigger] networks[j]).0@ != ssid,
        },
    decreases networks.len(),
{
    if networks.len() > 0 && networks[0].0@ != ssid {
        let rest = networks.drop_first();
        lemma_configured(rest, ssid);
        assert forall|j: int| 0 < j < networks.len() implies #[trigger] networks[j] == rest[j - 1] by {}
    }
}

fn find(networks: &[Network<'_>], ssid: &str) -> (r: Option<usize>)
    ensures
        match (r, configured(networks@, ssid@)) {
            (Some(i), Some(j)) => i == j && i < networks@.len(),
            (None, None) => true,
            _ => false,
        },
{
    proof {
        lemma_configured(networks@, ssid@);
    }
    let mut i: usize = 0;
    while i < networks.len()
        invariant
            i <= networks@.len(),
            forall|j: int| 0 <= j < i ==> (#[trigger] networks@[j]).0@ != ssid@,
            match configured(networks@, ssid@) {
                Some(i) => {
                    &&& 0 <= i < networks@.len()
                    &&& networks@[i].0@ == ssid@
                    &&& forall|j: int| 0 <= j < i ==> (#[trigger] networks@[j]).0@ != ssid@
                },
                None => forall|j: int| 0 <= j < networks@.len() ==> (#[trigger] networks@[j]).0@ != ssid@,
            },
        decreases networks@.len() - i,
    {
        if text::same_text(networks[i].0, ssid) {
            return Some(i);
        }
        i = i + 1;
    }
    None
}

/// The configured network with the strongest signal among the access points
/// seen. Foreign names are ignored; of a network with several access points the
/// strongest counts; of equally strong ones the first seen wins. `None`: no
/// configured network is on the air.
pub fn strongest<'n>(networks: &'n [Network<'n>], seen: &[(&str, Rssi)]) -> (r: Option<(&'n Network<'n>, Rssi)>)
    ensures
        match r {
            Some((net, rssi)) => exists|k: int|
                #![trigger seen@[k]]
                is_strongest(networks@, seen@, k) && *net == networks@[configured(networks@, seen@[k].0@)->0] && rssi
                    == seen@[k].1,
            None => forall|k: int| 0 <= k < seen@.len() ==> !(#[trigger] is_own(networks@, seen@, k)),
        },
{
    let mut best: Option<(usize, Rssi)> = None;
    let ghost mut at: int = 0;
    let mut k: usize = 0;
    while k < seen.len()
        invariant
            k <= seen@.len(),
            match best {
                Some((i, rssi)) => {
                    &&& 0 <= at < k
                    &&& is_strongest(networks@, seen@.take(k as int), at)
                    &&& i < networks@.len()
                    &&& configured(networks@, seen@[at].0@) == Some(i as int)
                    &&& rssi == seen@[at].1
                },
                None => forall|j: int| 0 <= j < k ==> !(#[trigger] is_own(networks@, seen@, j)),
            },
        decreases seen@.len() - k,
    {
        let (ssid, rssi) = seen[k];
        let ghost before = seen@.take(k as int);
        let ghost upto = seen@.take(k + 1);
        assert(forall|j: int| 0 <= j < k ==> upto[j] == before[j]);
        assert(upto[k as int] == seen@[k as int]);
        let ghost was = at;
        if let Some(i) = find(networks, ssid) {
            let better = match best {
                Some((_, b)) => rssi.0 > b.0,
                None => true,
            };
            if better {
                best = Some((i, rssi));
                proof {
                    at = k as int;
                }
            }
        }
        proof {
            if let Some(b) = best {
                assert forall|j: int| 0 <= j < upto.len() && #[trigger] is_own(networks@, upto, j) implies upto[j].1.0
                    <= upto[at].1.0 && (j < at ==> upto[j].1.0 < upto[at].1.0) by {
                    if j < k {
                        assert(is_own(networks@, before, j) == is_own(networks@, upto, j));
                        assert(is_own(networks@, seen@, j) == is_own(networks@, upto, j));
                    }
                }
                assert(is_own(networks@, upto, at));
                assert(is_strongest(networks@, upto, at));
            }
        }
        k = k + 1;
    }
    assert(seen@.take(seen@.len() as int) =~= seen@);
    match best {
        Some((i, rssi)) => {
            assert(seen@[at].1 == rssi);
            Some((&networks[i], rssi))
        },
        None => None,
    }
}

/// The network of attempt `attempt` when a scan was no help: all of them in
/// turn, so that a broken scan leaves none untried.
pub fn round_robin<'n>(networks: &'n [Network<'n>], attempt: usize) -> (net: &'n Network<'n>)
    requires
        networks@.len() > 0,
    ensures
        *net == networks@[attempt as int % networks@.len() as int],
{
    &networks[attempt % networks.len()]
}

/// As many attempts in a row as there are networks try each of them.
pub proof fn round_robin_tries_all(networks: Seq<Network>, attempt: nat, i: int)
    requires
        0 <= i < networks.len(),
    ensures
        exists|a: int|
            attempt <= a < attempt + networks.len() && #[trigger] networks[a % networks.len() as int] == networks[i],
{
    let n = networks.len() as int;
    let q = attempt as int / n;
    let first = q * n + i;
    assert(attempt as int == q * n + attempt as int % n) by (nonlinear_arith)
        requires
            n > 0,
            q == attempt as int / n,
    ;
    let a = if first >= attempt {
        first
    } else {
        first + n
    };
    assert((q + 1) * n == q * n + n) by (nonlinear_arith);
    assert(a % n == i) by {
        assert(0 <= attempt as int % n < n) by (nonlinear_arith)
            requires
                n > 0,
        ;
        vstd::arithmetic::div_mod::lemma_fundamental_div_mod_converse(
            a,
            n,
            if first >= attempt {
                q
            } else {
                q + 1
            },
            i,
        );
    }
    assert(0 <= attempt as int % n < n) by (nonlinear_arith)
        requires
            n > 0,
    ;
    assert(networks[a % n] == networks[i]);
}

/// Access points that a scan is to return at most.
pub const SCAN_MAX_APS: usize = 20;

/// Seconds before the next attempt to connect.
pub const RECONNECT_PAUSE: u64 = 5;

/// Is a scan worth its time: with a single network there is nothing to choose.
pub fn needs_scan(networks: &[Network<'_>]) -> (needed: bool)
    ensures
        needed <==> networks@.len() >= 2,
{
    networks.len() >= 2
}

/// The network of attempt `attempt`: the strongest of a scan, or the next in
/// turn where there was no scan, it failed, or no configured network is on the
/// air. `seen` is `None` where there was no scan or it failed.
pub fn pick_network<'n>(networks: &'n [Network<'n>], attempt: usize, seen: Option<&[(&str, Rssi)]>) -> (net: &'n Network<
    'n,
>)
    requires
        networks@.len() > 0,
    ensures
        match seen {
            Some(aps) => if exists|k: int| is_strongest(networks@, aps@, k) {
                exists|k: int|
                    #[trigger] is_strongest(networks@, aps@, k) && *net == networks@[configured(
                        networks@,
                        aps@[k].0@,
                    )->0]
            } else {
                *net == networks@[attempt as int % networks@.len() as int]
            },
            None => *net == networks@[attempt as int % networks@.len() as int],
        },
{
    let best = match seen {
        Some(aps) => strongest(networks, aps),
        None => None,
    };
    match best {
        Some((net, _)) => net,
        None => round_robin(networks, attempt),
    }
}

/// What the connection task waits for.
#[derive(Clone, Copy, PartialEq, Eq, Structural, Debug)]
pub enum WifiPhase {
    /// The choice of a network and the outcome of connecting to it.
    Connecting,
    /// The end of the connection.
    Connected,
    /// The end of the pause.
    Resting,
}

/// What happened to the connection.
#[derive(Clone, Copy, PartialEq, Eq, Structural, Debug)]
pub enum WifiEvent {
    Connected,
    Failed,
    Disconnected,
    Woke,
}

/// What the connection task is to do next.
#[derive(Clone, Copy, PartialEq, Eq, Structural, Debug)]
pub enum WifiAction {
    /// Pick a network for this attempt and connect to it.
    Connect { attempt: usize },
    /// The network is up: take back the report of a missing one and wait for its
    /// end.
    AwaitEnd,
    /// Report a missing network and wait so many seconds.
    Rest(u64),
}

/// The connection task.
#[derive(Clone, Copy, PartialEq, Eq, Structural, Debug)]
pub struct WifiTask {
    pub phase: WifiPhase,
    /// Number of the attempt that is under way or comes next.
    pub attempt: usize,
}

impl WifiTask {
    /// Before the first attempt.
    pub fn new() -> (r: (WifiTask, WifiAction))
        ensures
            r.0 == (WifiTask { phase: WifiPhase::Connecting, attempt: 0 }),
            r.1 == (WifiAction::Connect { attempt: 0 }),
    {
        (WifiTask { phase: WifiPhase::Connecting, attempt: 0 }, WifiAction::Connect { attempt: 0 })
    }

    /// The state and the action after an event; `None`: it cannot happen in this
    /// phase.
    pub open spec fn next(self, event: WifiEvent) -> Option<(WifiTask, WifiAction)> {
        match (self.phase, event) {
            (WifiPhase::Connecting, WifiEvent::Connected) => Some(
                (WifiTask { phase: WifiPhase::Connected, ..self }, WifiAction::AwaitEnd),
            ),
            (WifiPhase::Connecting, WifiEvent::Failed) => Some(
                (WifiTask { phase: WifiPhase::Resting, ..self }, WifiAction::Rest(RECONNECT_PAUSE)),
            ),
            (WifiPhase::Connected, WifiEvent::Disconnected) => Some(
                (WifiTask { phase: WifiPhase::Resting, ..self }, WifiAction::Rest(RECONNECT_PAUSE)),
            ),
            (WifiPhase::Resting, WifiEvent::Woke) => {
                let attempt = if self.attempt == usize::MAX {
                    0usize
                } else {
                    (self.attempt + 1) as usize
                };
                Some((WifiTask { phase: WifiPhase::Connecting, attempt }, WifiAction::Connect { attempt }))
            },
            _ => None,
        }
    }

    /// Takes an event and gives the next action.
    pub fn step(&mut self, event: WifiEvent) -> (a: WifiAction)
        requires
            old(self).next(event) is Some,
        ensures
            old(self).next(event) == Some((*final(self), a)),
    {
        match (self.phase, event) {
            (WifiPhase::Connecting, WifiEvent::Connected) => {
                self.phase = WifiPhase::Connected;
                WifiAction::AwaitEnd
            },
            (WifiPhase::Resting, WifiEvent::Woke) => {
                self.phase = WifiPhase::Connecting;
                self.attempt = self.attempt.wrapping_add(1);
                WifiAction::Connect { attempt: self.attempt }
            },
            _ => {
                self.phase = WifiPhase::Resting;
                WifiAction::Rest(RECONNECT_PAUSE)
            },
        }
    }
}

/// A name stands for the first configured network of that name, and for none
/// where no network has it.
pub proof fn names_stand_for_their_first_network(networks: Seq<Network>, ssid: Seq<char>, i: int)
    ensures
        configured(networks, ssid) == Some(i) <==> 0 <= i < networks.len() && networks[i].0@ == ssid && forall|j: int|
            0 <= j < i ==> (#[trigger] networks[j]).0@ != ssid,
        configured(networks, ssid) is None <==> forall|j: int|
            0 <= j < networks.len() ==> (#[trigger] networks[j]).0@ != ssid,
{
    lemma_configured(networks, ssid);
    if let Some(k) = configured(networks, ssid) {
        assert(networks[k].0@ == ssid);
        if 0 <= i < networks.len() && networks[i].0@ == ssid && (forall|j: int|
            0 <= j < i ==> (#[trigger] networks[j]).0@ != ssid) {
            if k < i {
                assert(networks[k].0@ != ssid);
            }
            if i < k {
                assert(networks[i].0@ != ssid);
            }
        }
    } else if 0 <= i < networks.len() {
        assert(networks[i].0@ != ssid);
    }
}

/// Of the configured networks on the air the strongest is chosen, of equally
/// strong ones the first seen, and there is just one such choice; foreign ones
/// count for nothing, however strong.
pub proof fn the_strongest_is_chosen(networks: Seq<Network>, seen: Seq<(&str, Rssi)>, k: int, j: int)
    requires
        is_strongest(networks, seen, k),
        0 <= j < seen.len(),
        configured(networks, seen[j].0@) is Some,
    ensures
        0 <= k < seen.len(),
        configured(networks, seen[k].0@) is Some,
        seen[j].1.0 <= seen[k].1.0,
        seen[j].1.0 == seen[k].1.0 ==> k <= j,
        is_strongest(networks, seen, j) ==> j == k,
{
    assert(is_own(networks, seen, j));
    assert(is_own(networks, seen, k));
}

/// Each attempt to connect ends in a connection or in a pause of five seconds;
/// after the end of a connection, or a failure, the next attempt has the next
/// number, without end.
pub proof fn attempts_follow_each_other(t: WifiTask)
    ensures
        t.phase is Connecting ==> t.next(WifiEvent::Connected) == Some(
            (WifiTask { phase: WifiPhase::Connected, attempt: t.attempt }, WifiAction::AwaitEnd),
        ),
        t.phase is Connecting ==> t.next(WifiEvent::Failed) == Some(
            (WifiTask { phase: WifiPhase::Resting, attempt: t.attempt }, WifiAction::Rest(5)),
        ),
        t.phase is Connected ==> t.next(WifiEvent::Disconnected) == Some(
            (WifiTask { phase: WifiPhase::Resting, attempt: t.attempt }, WifiAction::Rest(5)),
        ),
        t.phase is Resting ==> (t.next(WifiEvent::Woke) matches Some((u, a)) && u.phase is Connecting && a == (
        WifiAction::Connect { attempt: u.attempt }) && (t.attempt < usize::MAX ==> u.attempt == t.attempt + 1) && (
        t.attempt == usize::MAX ==> u.attempt == 0)),
{
}

} // verus!
