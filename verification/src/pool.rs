//! One connection per peer, re-established whenever it drops.
//!
//! The decisions of the pool stand here; who holds which lock, waits and sleeps is left
//! to the program around it.

use vstd::arithmetic::power::pow;
use vstd::prelude::*;

use crate::auth::{AuthDetails, BadAuth, SignedAuthHeader};
use crate::node_id::NodeId;
use crate::noise::TransportPrivateKey;
use crate::packets::ConnectionError;
use crate::sign::SignatureVerificationKey;

verus! {

/// Local node credentials required for the handshake.
pub struct Credentials {
    pub private_key: TransportPrivateKey,
    pub auth_header: SignedAuthHeader,
    pub verification_key: SignatureVerificationKey,
}

/// Where a plain TCP stream to a peer leads.
#[derive(Debug)]
pub struct TcpConnector {
    pub hostname: String,
    pub port: u16,
}

/// Returned when a link is currently establishing (or re-establishing) a connection.
#[derive(Debug, Clone, Copy, PartialEq, Eq, Structural)]
pub struct NotReady;

/// The wait after the first failed attempt to connect.
pub const FIRST_BACKOFF_MILLIS: u64 = 50;

/// The longest wait between two attempts.
pub const MAX_BACKOFF_MILLIS: u64 = 30_000;

/// The wait after a wait: twice as long, up to the longest.
pub open spec fn longer(millis: int) -> int {
    if 2 * millis < MAX_BACKOFF_MILLIS {
        2 * millis
    } else {
        MAX_BACKOFF_MILLIS as int
    }
}

/// The wait after `n` earlier failures in a row.
pub open spec fn backoff_after(n: nat) -> int
    decreases n,
{
    if n == 0 {
        FIRST_BACKOFF_MILLIS as int
    } else {
        longer(backoff_after((n - 1) as nat))
    }
}

/// What to do after an attempt to connect.
#[derive(Debug)]
pub enum ReconnectStep<T> {
    /// Install the connection.
    Install(T),
    /// Wait this long and try again; the attempt failed for this reason.
    Retry { millis: u64, error: ConnectionError },
}

/// The attempts to (re)connect to a peer, from the loss of a connection until the next
/// one. Its view is the wait that the next failure is followed by.
#[derive(Debug)]
pub struct Reconnect {
    backoff_millis: u64,
}

impl View for Reconnect {
    type V = int;

    closed spec fn view(&self) -> int {
        self.backoff_millis as int
    }
}

impl Reconnect {
    #[verifier::type_invariant]
    spec fn within_limit(self) -> bool {
        self.backoff_millis <= MAX_BACKOFF_MILLIS
    }

    pub fn new() -> (reconnect: Self)
        ensures
            reconnect@ == FIRST_BACKOFF_MILLIS,
    {
        Reconnect { backoff_millis: FIRST_BACKOFF_MILLIS }
    }

    /// Decide on the outcome of an attempt: a connection to the right peer is installed,
    /// and anything else is retried after a wait that doubles each time.
    pub fn on_attempt<T>(
        &mut self,
        target: &NodeId,
        attempt: Result<(T, AuthDetails), ConnectionError>,
    ) -> (step: ReconnectStep<T>)
        ensures
            match attempt {
                Ok((connection, details)) => if details.node_id@ == target@ {
                    &&& step == ReconnectStep::Install(connection)
                    &&& final(self)@ == old(self)@
                } else {
                    &&& step matches ReconnectStep::Retry {
                        millis,
                        error: ConnectionError::BadAuth(
                            BadAuth::NodeIdMismatch { expected, actual },
                        ),
                    }
                    &&& millis == old(self)@
                    &&& expected@ == target@
                    &&& actual@ == details.node_id@
                    &&& final(self)@ == longer(old(self)@)
                },
                Err(e) => {
                    &&& step matches ReconnectStep::Retry { millis, error }
                    &&& millis == old(self)@
                    &&& error == e
                    &&& final(self)@ == longer(old(self)@)
                },
            },
    {
        let error = match attempt {
            Ok((connection, details)) => match expect_peer(connection, &details, target) {
                Ok(connection) => return ReconnectStep::Install(connection),
                Err(e) => e,
            },
            Err(e) => e,
        };
        proof {
            use_type_invariant(&*self);
        }
        let millis: u64 = self.backoff_millis;
        self.backoff_millis = if 2 * millis < MAX_BACKOFF_MILLIS {
            2 * millis
        } else {
            MAX_BACKOFF_MILLIS
        };
        ReconnectStep::Retry { millis, error }
    }
}

/// A connection, if it is one to the expected peer.
pub fn expect_peer<T>(connection: T, details: &AuthDetails, target: &NodeId) -> (r: Result<
    T,
    ConnectionError,
>)
    ensures
        if details.node_id@ == target@ {
            r == Ok::<T, ConnectionError>(connection)
        } else {
            &&& r matches Err(
                ConnectionError::BadAuth(BadAuth::NodeIdMismatch { expected, actual }),
            )
            &&& expected@ == target@
            &&& actual@ == details.node_id@
        },
{
    match details.check_node_id(target.clone()) {
        Ok(()) => Ok(connection),
        Err(e) => Err(ConnectionError::BadAuth(e)),
    }
}

/// The waits between attempts grow from one failure to the next, and are never shorter
/// than the first nor longer than the limit.
pub proof fn lemma_backoff_grows(n: nat)
    ensures
        FIRST_BACKOFF_MILLIS <= backoff_after(n) <= MAX_BACKOFF_MILLIS,
        backoff_after(n) <= backoff_after(n + 1),
        backoff_after(n) < MAX_BACKOFF_MILLIS ==> backoff_after(n) < backoff_after(n + 1),
    decreases n,
{
    if n > 0 {
        lemma_backoff_grows((n - 1) as nat);
    }
}

/// Each wait is twice as long as the one before, from 50 milliseconds up to 30 seconds.
pub proof fn lemma_backoff_doubles(n: nat)
    ensures
        backoff_after(n) == (if 50 * pow(2, n) < 30_000 {
            50 * pow(2, n)
        } else {
            30_000
        }),
        longer(backoff_after(n)) == backoff_after(n + 1),
    decreases n,
{
    reveal(pow);
    if n > 0 {
        lemma_backoff_doubles((n - 1) as nat);
    }
}

/// A wait is doubled where that stays below 30 seconds, and otherwise 30 seconds.
pub proof fn lemma_longer(millis: int)
    requires
        millis >= 0,
    ensures
        millis <= 15_000 ==> longer(millis) == millis + millis,
        millis >= 15_000 ==> longer(millis) == 30_000,
{
}

/// From the tenth failure in a row on, the wait is the longest one.
pub proof fn lemma_backoff_levels_off(n: nat)
    requires
        n >= 10,
    ensures
        backoff_after(n) == MAX_BACKOFF_MILLIS,
    decreases n,
{
    if n == 10 {
        reveal_with_fuel(backoff_after, 11);
    } else {
        lemma_backoff_levels_off((n - 1) as nat);
    }
}

/// The state of a link to a peer.
#[derive(Debug)]
pub enum LinkState<T> {
    Connected(T),
    Reconnecting,
}

impl<T> LinkState<T> {
    /// Claim exclusive use of the connection for one exchange, if there is a connection.
    ///
    /// The claim ends with [`Guard::release`].
    pub fn acquire(&self) -> (r: Result<Guard, NotReady>)
        ensures
            match r {
                Ok(guard) => *self is Connected && !guard@,
                Err(_) => *self is Reconnecting,
            },
    {
        match self {
            LinkState::Connected(_) => Ok(Guard { committed: false }),
            LinkState::Reconnecting => Err(NotReady),
        }
    }

    /// The connection of a link that has one.
    pub fn transport(&mut self) -> (connection: &mut T)
        requires
            *old(self) is Connected,
        ensures
            *old(self) == LinkState::Connected(*connection),
            *final(self) == LinkState::Connected(*final(connection)),
    {
        match self {
            LinkState::Connected(connection) => connection,
            LinkState::Reconnecting => {
                // Only a connected link is claimed.
                assert(false);
                vstd::pervasive::unreached()
            },
        }
    }

    /// Put a new connection in place.
    pub fn install(&mut self, connection: T)
        ensures
            *final(self) == LinkState::Connected(connection),
    {
        *self = LinkState::Connected(connection);
    }
}

/// A claim on a connection for one exchange. Its view is whether the exchange was
/// committed.
#[derive(Debug)]
pub struct Guard {
    committed: bool,
}

impl View for Guard {
    type V = bool;

    closed spec fn view(&self) -> bool {
        self.committed
    }
}

impl Guard {
    /// Mark the exchange as complete: the connection is in a clean state.
    pub fn commit(&mut self)
        ensures
            final(self)@,
    {
        self.committed = true;
    }

    /// End the claim. Without a commit the connection may be in an inconsistent state: it
    /// is dropped, and the result says that it must be established anew.
    pub fn release<T>(self, state: &mut LinkState<T>) -> (reconnect: bool)
        ensures
            reconnect == !self@,
            if self@ {
                *final(state) == *old(state)
            } else {
                *final(state) == LinkState::<T>::Reconnecting
            },
    {
        if !self.committed {
            *state = LinkState::Reconnecting;
        }
        !self.committed
    }
}

/// What to do while waiting for a connection.
#[derive(Debug, Clone, Copy, PartialEq, Eq, Structural)]
pub enum WaitStep {
    /// The link is connected.
    Ready,
    /// Wait up to this long for the link to be connected, then ask again.
    Wait { nanos: u128 },
}

/// A wait until a link is connected or a deadline has passed. Its times are in
/// nanoseconds from any fixed start.
#[derive(Debug, Clone, Copy)]
pub struct WaitConnected {
    pub deadline: u128,
}

impl WaitConnected {
    /// Start waiting at `now` for up to `timeout`.
    pub fn new(now: u128, timeout: u128) -> (wait: Self)
        requires
            now + timeout <= u128::MAX,
        ensures
            wait.deadline == now + timeout,
    {
        WaitConnected { deadline: now + timeout }
    }

    /// Whether the link is connected, or how long there is left to wait. Looking at a link
    /// never changes it.
    pub fn check<T>(&self, state: &LinkState<T>, now: u128) -> (step: WaitStep)
        ensures
            step == (if *state is Connected {
                WaitStep::Ready
            } else if self.deadline > now {
                WaitStep::Wait { nanos: (self.deadline - now) as u128 }
            } else {
                WaitStep::Wait { nanos: 0 }
            }),
    {
        match state {
            LinkState::Connected(_) => WaitStep::Ready,
            LinkState::Reconnecting => WaitStep::Wait { nanos: self.deadline.saturating_sub(now) },
        }
    }

    /// What the end of a wait means: nothing if the link was announced to be connected,
    /// which is then checked, and otherwise that it is not ready in time.
    pub fn on_wake(&self, announced: bool) -> (r: Result<(), NotReady>)
        ensures
            r == (if announced {
                Ok::<(), NotReady>(())
            } else {
                Err(NotReady)
            }),
    {
        if announced {
            Ok(())
        } else {
            Err(NotReady)
        }
    }
}

/// The links of a node, one for each peer. [`ConnectionPool::link`] is the link for the
/// bytes of a peer's node id.
pub struct ConnectionPool<L> {
    peers: Vec<(NodeId, L)>,
}

/// The link for a node id in a list of links.
pub open spec fn link_for<L>(peers: Seq<(NodeId, L)>, id: Seq<u8>) -> Option<L>
    decreases peers.len(),
{
    if peers.len() == 0 {
        None
    } else if peers.last().0@ == id {
        Some(peers.last().1)
    } else {
        link_for(peers.drop_last(), id)
    }
}

impl<L> ConnectionPool<L> {
    #[verifier::type_invariant]
    spec fn one_link_per_peer(self) -> bool {
        forall|i: int, j: int|
            0 <= i < j < self.peers@.len() ==> #[trigger] self.peers@[i].0@
                != #[trigger] self.peers@[j].0@
    }

    /// The link to a peer, if the pool has one.
    pub closed spec fn link(&self, id: Seq<u8>) -> Option<L> {
        link_for(self.peers@, id)
    }

    pub fn new() -> (pool: Self)
        ensures
            forall|id: Seq<u8>| #[trigger] pool.link(id) is None,
    {
        ConnectionPool { peers: Vec::new() }
    }

    /// The link to `target`, made if there is none. `make` is only called on the first
    /// access for a given target.
    pub fn peer<F: FnOnce() -> L>(&mut self, target: NodeId, make: F) -> (link: &L)
        requires
            old(self).link(target@) is None ==> call_requires(make, ()),
        ensures
            peer_asked(*old(self), *final(self), target@, *link),
            old(self).link(target@) is None ==> call_ensures(make, (), *link),
    {
        proof {
            use_type_invariant(&*self);
        }
        let mut i: usize = 0;
        while i < self.peers.len()
            invariant
                i <= self.peers@.len(),
                self.peers@ == old(self).peers@,
                forall|j: int| 0 <= j < i ==> #[trigger] self.peers@[j].0@ != target@,
                forall|j: int, k: int|
                    0 <= j < k < self.peers@.len() ==> #[trigger] self.peers@[j].0@
                        != #[trigger] self.peers@[k].0@,
            decreases self.peers@.len() - i,
        {
            if self.peers[i].0 == target {
                proof {
                    lemma_link_at(self.peers@, i as int);
                }
                return &self.peers[i].1;
            }
            i = i + 1;
        }
        proof {
            lemma_no_link(self.peers@, target@);
        }
        let link = make();
        let mut peers: Vec<(NodeId, L)> = Vec::new();
        std::mem::swap(&mut peers, &mut self.peers);
        peers.push((target, link));
        proof {
            let before = old(self).peers@;
            assert(peers@.drop_last() =~= before);
            assert forall|id: Seq<u8>| id != target@ implies #[trigger] link_for(peers@, id)
                == link_for(before, id) by {}
        }
        self.peers = peers;
        &self.peers[self.peers.len() - 1].1
    }
}

/// What asking a pool for a peer does to its links: the peer has the link that was given
/// out, which is the one that it had if it had one, and the other links are unchanged.
pub open spec fn peer_asked<L>(
    before: ConnectionPool<L>,
    after: ConnectionPool<L>,
    id: Seq<u8>,
    link: L,
) -> bool {
    &&& after.link(id) == Some(link)
    &&& before.link(id) matches Some(known) ==> link == known
    &&& forall|other: Seq<u8>|
        other != id ==> #[trigger] after.link(other) == before.link(other)
}

/// Whether a new pool was asked for peers one after the other: `pools[i]` was asked for
/// `ids[i]`, gave out `links[i]` and became `pools[i + 1]`.
pub open spec fn asked_in_turn<L>(
    pools: Seq<ConnectionPool<L>>,
    ids: Seq<Seq<u8>>,
    links: Seq<L>,
) -> bool {
    &&& pools.len() == ids.len() + 1
    &&& links.len() == ids.len()
    &&& forall|id: Seq<u8>| #[trigger] pools[0].link(id) is None
    &&& forall|i: int|
        0 <= i < ids.len() ==> peer_asked(pools[i], pools[i + 1], #[trigger] ids[i], links[i])
}

/// Over any sequence of requests, a link is made for a peer exactly at the first request
/// for it, and every later request for the same peer is given that link.
pub proof fn lemma_one_link_per_peer<L>(
    pools: Seq<ConnectionPool<L>>,
    ids: Seq<Seq<u8>>,
    links: Seq<L>,
    j: int,
)
    requires
        asked_in_turn(pools, ids, links),
        0 <= j < ids.len(),
    ensures
        pools[j].link(ids[j]) is None <==> (forall|i: int| 0 <= i < j ==> #[trigger] ids[i] != ids[j]),
        forall|i: int| 0 <= i < j && #[trigger] ids[i] == ids[j] ==> links[i] == links[j],
{
    assert(peer_asked(pools[j], pools[j + 1], ids[j], links[j]));
    lemma_links_before(pools, ids, links, ids[j], j);
}

/// The link of a peer after some requests is the one that any of them for it was given.
proof fn lemma_links_before<L>(
    pools: Seq<ConnectionPool<L>>,
    ids: Seq<Seq<u8>>,
    links: Seq<L>,
    id: Seq<u8>,
    n: int,
)
    requires
        asked_in_turn(pools, ids, links),
        0 <= n <= ids.len(),
    ensures
        pools[n].link(id) is None <==> (forall|i: int| 0 <= i < n ==> #[trigger] ids[i] != id),
        forall|i: int| 0 <= i < n && #[trigger] ids[i] == id ==> pools[n].link(id) == Some(links[i]),
    decreases n,
{
    if n > 0 {
        lemma_links_before(pools, ids, links, id, n - 1);
        assert(peer_asked(pools[n - 1], pools[n - 1 + 1], ids[n - 1], links[n - 1]));
        if ids[n - 1] != id {
            assert(pools[n].link(id) == pools[n - 1].link(id));
        }
    }
}

proof fn lemma_no_link<L>(peers: Seq<(NodeId, L)>, id: Seq<u8>)
    requires
        forall|j: int| 0 <= j < peers.len() ==> #[trigger] peers[j].0@ != id,
    ensures
        link_for(peers, id) is None,
    decreases peers.len(),
{
    if peers.len() > 0 {
        assert forall|j: int| 0 <= j < peers.drop_last().len() implies #[trigger] peers.drop_last()[j].0@
            != id by {
            assert(peers.drop_last()[j] == peers[j]);
        }
        lemma_no_link(peers.drop_last(), id);
    }
}

proof fn lemma_link_at<L>(peers: Seq<(NodeId, L)>, i: int)
    requires
        0 <= i < peers.len(),
        forall|j: int, k: int|
            0 <= j < k < peers.len() ==> #[trigger] peers[j].0@ != #[trigger] peers[k].0@,
    ensures
        link_for(peers, peers[i].0@) == Some(peers[i].1),
    decreases peers.len(),
{
    if i < peers.len() - 1 {
        let shorter = peers.drop_last();
        assert(peers[i].0@ != peers[peers.len() - 1].0@);
        assert forall|j: int, k: int| 0 <= j < k < shorter.len() implies #[trigger] shorter[j].0@
            != #[trigger] shorter[k].0@ by {
            assert(shorter[j] == peers[j] && shorter[k] == peers[k]);
        }
        lemma_link_at(shorter, i);
    }
}

} // verus!
