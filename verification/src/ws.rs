//! The registry of live connections: every socket with the identity bound
//! to it, and for every bound identity the sockets that carry it.

use crate::cache::{got, put};
use crate::messages::ServerErrors;
use vstd::prelude::*;

verus! {

/// Identifies one live connection.
pub type SocketId = usize;

/// A decoded command with the socket it came from and the identity that
/// the socket carried when the command was received.
#[derive(Clone, Debug, PartialEq, Eq)]
pub struct TaggedMessage<T> {
    pub socket_id: SocketId,
    pub user_id: Option<u128>,
    pub message: T,
}

/// A message with the sockets that it is to be written to, in order. A
/// socket that occurs twice gets the message twice.
#[derive(Debug, PartialEq, Eq)]
pub struct Outgoing<M> {
    pub targets: Vec<SocketId>,
    pub message: M,
}

/// One live connection: its id and the identity bound to it, if any.
#[derive(Clone, Copy, Debug, PartialEq, Eq)]
pub struct SocketInner {
    pub id: SocketId,
    pub user_id: Option<u128>,
}

/// `fastrand::usize(..)`: any `usize`.
#[verifier::external_body]
fn random_socket_id() -> usize {
    fastrand::usize(..)
}

impl SocketInner {
    /// A socket without an identity, under an id drawn at random.
    pub fn new() -> (made: (SocketInner, SocketId))
        ensures
            made.0.id == made.1,
            made.0.user_id is None,
    {
        let id: SocketId = random_socket_id();
        (SocketInner { id, user_id: None }, id)
    }

    /// Binds `user_id` to the socket.
    pub fn authenticate(&mut self, user_id: u128)
        ensures
            final(self).id == old(self).id,
            final(self).user_id == Some(user_id),
    {
        self.user_id = Some(user_id);
    }

    /// The identity bound to the socket, if any.
    pub fn user_id(&self) -> (bound: Option<u128>)
        ensures
            bound == self.user_id,
    {
        self.user_id
    }
}

/// `sockets` without the first occurrence of `id`.
pub open spec fn without_first(sockets: Seq<SocketId>, id: SocketId) -> Seq<SocketId>
    decreases sockets.len(),
{
    if sockets.len() == 0 {
        sockets
    } else if sockets.first() == id {
        sockets.drop_first()
    } else {
        seq![sockets.first()] + without_first(sockets.drop_first(), id)
    }
}

/// Taking out the first occurrence of `id` is taking out position `at`,
/// where `at` is the first position that holds `id`.
pub proof fn lemma_without_first_at(sockets: Seq<SocketId>, id: SocketId, at: int)
    requires
        0 <= at < sockets.len(),
        sockets[at] == id,
        forall|i: int| 0 <= i < at ==> sockets[i] != id,
    ensures
        without_first(sockets, id) == sockets.remove(at),
    decreases sockets.len(),
{
    if at == 0 {
        assert(sockets.drop_first() =~= sockets.remove(0));
    } else {
        lemma_without_first_at(sockets.drop_first(), id, at - 1);
        assert(seq![sockets.first()] + sockets.drop_first().remove(at - 1) =~= sockets.remove(at));
    }
}

/// Taking `id` out of sockets that do not hold it changes nothing.
pub proof fn lemma_without_first_absent(sockets: Seq<SocketId>, id: SocketId)
    requires
        forall|i: int| 0 <= i < sockets.len() ==> sockets[i] != id,
    ensures
        without_first(sockets, id) == sockets,
    decreases sockets.len(),
{
    if sockets.len() > 0 {
        lemma_without_first_absent(sockets.drop_first(), id);
        assert(seq![sockets.first()] + sockets.drop_first() =~= sockets);
    }
}

/// The sockets that carry one identity, in the order in which they were
/// bound to it.
#[derive(Debug, PartialEq, Eq)]
pub struct ClientInner(Vec<SocketId>);

impl Clone for ClientInner {
    fn clone(&self) -> (copy: Self)
        ensures
            copy@ == self@,
    {
        let sockets = self.0.clone();
        assert(sockets@ =~= self.0@);
        ClientInner(sockets)
    }
}

impl View for ClientInner {
    type V = Seq<SocketId>;

    closed spec fn view(&self) -> Seq<SocketId> {
        self.0@
    }
}

impl ClientInner {
    /// The client of an identity that `socket` is the first to carry.
    pub fn new(socket: SocketId) -> (client: ClientInner)
        ensures
            client@ == seq![socket],
    {
        let mut sockets: Vec<SocketId> = Vec::new();
        sockets.push(socket);
        ClientInner(sockets)
    }

    /// Adds `socket` as the newest socket of the client.
    pub fn add_socket(&mut self, socket: SocketId)
        ensures
            final(self)@ == old(self)@.push(socket),
    {
        self.0.push(socket);
    }

    /// Takes the first occurrence of `socket_id` out, if there is one, and
    /// returns how many sockets are left.
    pub fn remove_socket(&mut self, socket_id: SocketId) -> (left: usize)
        ensures
            final(self)@ == without_first(old(self)@, socket_id),
            left == final(self)@.len(),
    {
        let mut at: usize = 0;
        while at < self.0.len() && self.0[at] != socket_id
            invariant
                at <= self.0@.len(),
                self.0@ == old(self).0@,
                forall|i: int| 0 <= i < at ==> self.0@[i] != socket_id,
            decreases self.0@.len() - at,
        {
            at += 1;
        }
        if at < self.0.len() {
            proof {
                lemma_without_first_at(self.0@, socket_id, at as int);
            }
            self.0.remove(at);
        } else {
            proof {
                lemma_without_first_absent(self.0@, socket_id);
            }
        }
        self.0.len()
    }

    /// The delivery of `message` to every socket of the client.
    pub fn send<M>(&self, message: M) -> (delivery: Outgoing<M>)
        ensures
            delivery.targets@ == self@,
            delivery.message == message,
    {
        let targets = self.0.clone();
        assert(targets@ =~= self.0@);
        Outgoing { targets, message }
    }
}

/// The cache that holds the live sockets, by id.
pub type SocketCache = moka::sync::Cache<SocketId, SocketInner>;

/// The cache that holds the clients, by identity.
pub type ClientCache = moka::sync::Cache<u128, ClientInner>;

/// The entries that a cache of sockets holds.
pub uninterp spec fn socket_entries(cache: SocketCache) -> Map<SocketId, SocketInner>;

/// The entries that a cache of clients holds.
pub uninterp spec fn client_entries(cache: ClientCache) -> Map<u128, ClientInner>;

/// `Cache::builder().build()` of moka: a cache without entries, without a
/// bound on their number and without expiry, so that an entry stays until
/// it is replaced or removed.
#[verifier::external_body]
fn sockets_new() -> (made: SocketCache)
    ensures
        socket_entries(made) == (Map::<SocketId, SocketInner>::empty()),
{
    moka::sync::Cache::builder().build()
}

/// `Cache::get` of moka: a clone of the entry under `key`, if there is one.
#[verifier::external_body]
fn sockets_get(cache: &SocketCache, key: SocketId) -> (found: Option<SocketInner>)
    ensures
        got(socket_entries(*cache), key, found),
{
    cache.get(&key)
}

/// `Cache::insert` of moka: a clone of `value` becomes the entry under
/// `key`, in place of an earlier one if there was one.
#[verifier::external_body]
fn sockets_insert(cache: &mut SocketCache, key: SocketId, value: SocketInner)
    ensures
        put(socket_entries(*old(cache)), socket_entries(*final(cache)), key, value),
{
    cache.insert(key, value)
}

/// `Cache::remove` of moka: the entry under `key` leaves the cache and a
/// clone of it is returned, if there was one.
#[verifier::external_body]
fn sockets_remove(cache: &mut SocketCache, key: SocketId) -> (removed: Option<SocketInner>)
    ensures
        socket_entries(*final(cache)) == socket_entries(*old(cache)).remove(key),
        got(socket_entries(*old(cache)), key, removed),
{
    cache.remove(&key)
}

/// `Cache::builder().build()` of moka: a cache without entries, without a
/// bound on their number and without expiry.
#[verifier::external_body]
fn clients_new() -> (made: ClientCache)
    ensures
        client_entries(made) == (Map::<u128, ClientInner>::empty()),
{
    moka::sync::Cache::builder().build()
}

/// `Cache::get` of moka: a clone of the entry under `key`, if there is one.
#[verifier::external_body]
fn clients_get(cache: &ClientCache, key: u128) -> (found: Option<ClientInner>)
    ensures
        got(client_entries(*cache), key, found),
{
    cache.get(&key)
}

/// `Cache::insert` of moka: a clone of `value` becomes the entry under
/// `key`, in place of an earlier one if there was one.
#[verifier::external_body]
fn clients_insert(cache: &mut ClientCache, key: u128, value: ClientInner)
    ensures
        put(client_entries(*old(cache)), client_entries(*final(cache)), key, value),
{
    cache.insert(key, value)
}

/// `Cache::invalidate` of moka: the entry under `key` leaves the cache, if
/// there was one.
#[verifier::external_body]
fn clients_remove(cache: &mut ClientCache, key: u128)
    ensures
        client_entries(*final(cache)) == client_entries(*old(cache)).remove(key),
{
    cache.invalidate(&key)
}

/// What a registry holds: for every live socket the identity bound to it,
/// and for every identity that a live socket carries, those sockets.
pub struct PoolState {
    pub sockets: Map<SocketId, Option<u128>>,
    pub clients: Map<u128, Seq<SocketId>>,
}

impl PoolState {
    /// The registry without any socket.
    pub open spec fn empty() -> PoolState {
        PoolState { sockets: Map::empty(), clients: Map::empty() }
    }

    /// The two maps agree: a client exists only with sockets, holds none
    /// twice, and holds exactly the live sockets bound to its identity.
    pub open spec fn valid(self) -> bool {
        &&& self.sockets.dom().finite()
        &&& forall|user: u128| #[trigger]
            self.clients.contains_key(user) ==> self.clients[user].len() > 0
                && self.clients[user].no_duplicates()
        &&& forall|user: u128, at: int|
            self.clients.contains_key(user) && 0 <= at < self.clients[user].len()
                ==> self.carries(#[trigger] self.clients[user][at], user)
        &&& forall|id: SocketId, user: u128| #[trigger]
            self.carries(id, user) ==> self.clients.contains_key(user)
                && self.clients[user].contains(id)
    }

    /// Whether `id` is a live socket bound to `user`.
    pub open spec fn carries(self, id: SocketId, user: u128) -> bool {
        self.sockets.contains_key(id) && self.sockets[id] == Some(user)
    }

    /// The identity bound to socket `id`; `None` also for a socket that is
    /// not live.
    pub open spec fn identity_of(self, id: SocketId) -> Option<u128> {
        if self.sockets.contains_key(id) {
            self.sockets[id]
        } else {
            None
        }
    }

    /// The sockets that a message for socket `id` goes to: the socket
    /// itself if it is live, else none.
    pub open spec fn socket_targets(self, id: SocketId) -> Seq<SocketId> {
        if self.sockets.contains_key(id) {
            seq![id]
        } else {
            Seq::empty()
        }
    }

    /// The sockets that a message for `user` goes to.
    pub open spec fn targets(self, user: u128) -> Seq<SocketId> {
        if self.clients.contains_key(user) {
            self.clients[user]
        } else {
            Seq::empty()
        }
    }

    /// The sockets that a message for each of `users` goes to, user by user.
    pub open spec fn fan_out(self, users: Seq<u128>) -> Seq<SocketId>
        decreases users.len(),
    {
        if users.len() == 0 {
            Seq::empty()
        } else {
            self.fan_out(users.drop_last()) + self.targets(users.last())
        }
    }

    /// The registry after socket `id` was registered, without an identity.
    pub open spec fn registered(self, id: SocketId) -> PoolState {
        PoolState { sockets: self.sockets.insert(id, None), clients: self.clients }
    }

    /// The registry after `user` was bound to socket `id`. Nothing changes
    /// for a socket that is not live or already carries an identity.
    pub open spec fn bound(self, id: SocketId, user: u128) -> PoolState {
        if self.sockets.contains_key(id) && self.sockets[id] is None {
            PoolState {
                sockets: self.sockets.insert(id, Some(user)),
                clients: self.clients.insert(user, self.targets(user).push(id)),
            }
        } else {
            self
        }
    }

    /// The registry after socket `id` left it: the socket is gone, also
    /// from the client of its identity, and that client is gone if it was
    /// the client's last socket.
    pub open spec fn deregistered(self, id: SocketId) -> PoolState {
        if !self.sockets.contains_key(id) {
            self
        } else if self.sockets[id] is Some && self.clients.contains_key(self.sockets[id]->0) {
            let user = self.sockets[id]->0;
            let left = without_first(self.clients[user], id);
            PoolState {
                sockets: self.sockets.remove(id),
                clients: if left.len() == 0 {
                    self.clients.remove(user)
                } else {
                    self.clients.insert(user, left)
                },
            }
        } else {
            PoolState { sockets: self.sockets.remove(id), clients: self.clients }
        }
    }
}

/// Registering a socket under an id that is not live keeps the registry
/// valid.
pub proof fn lemma_registered_valid(state: PoolState, id: SocketId)
    requires
        state.valid(),
        !state.sockets.contains_key(id),
    ensures
        state.registered(id).valid(),
{
    let after = state.registered(id);
    assert forall|user: u128, at: int|
        after.clients.contains_key(user) && 0 <= at < after.clients[user].len() implies after.carries(
        #[trigger] after.clients[user][at],
        user,
    ) by {
        assert(state.carries(state.clients[user][at], user));
    }
    assert forall|other: SocketId, user: u128| #[trigger]
        after.carries(other, user) implies after.clients.contains_key(user)
        && after.clients[user].contains(other) by {
        assert(state.carries(other, user));
    }
}

/// Binding an identity to a socket keeps the registry valid: the socket
/// joins the one client of that identity, and no other.
pub proof fn lemma_bound_valid(state: PoolState, id: SocketId, user: u128)
    requires
        state.valid(),
    ensures
        state.bound(id, user).valid(),
{
    if state.sockets.contains_key(id) && state.sockets[id] is None {
        let after = state.bound(id, user);
        let before = state.targets(user);
        let joined = before.push(id);
        assert(after.sockets.dom() =~= state.sockets.dom().insert(id));
        assert forall|i: int| 0 <= i < before.len() implies before[i] != id by {
            assert(state.carries(state.clients[user][i], user));
        }
        assert(joined.no_duplicates());
        assert forall|who: u128, at: int|
            after.clients.contains_key(who) && 0 <= at < after.clients[who].len() implies after.carries(
            #[trigger] after.clients[who][at],
            who,
        ) by {
            if who == user {
                if at < before.len() {
                    assert(state.carries(state.clients[user][at], user));
                }
            } else {
                assert(state.carries(state.clients[who][at], who));
            }
        }
        assert forall|other: SocketId, who: u128| #[trigger]
            after.carries(other, who) implies after.clients.contains_key(who)
            && after.clients[who].contains(other) by {
            if other == id {
                assert(joined[joined.len() - 1] == id);
            } else {
                assert(state.carries(other, who));
                if who == user {
                    let at = choose|at: int| 0 <= at < before.len() && before[at] == other;
                    assert(joined[at] == other);
                }
            }
        }
    }
}

/// A socket's leaving keeps the registry valid: no client is left without
/// sockets, and none keeps the socket that left.
pub proof fn lemma_deregistered_valid(state: PoolState, id: SocketId)
    requires
        state.valid(),
    ensures
        state.deregistered(id).valid(),
{
    let after = state.deregistered(id);
    if state.sockets.contains_key(id) {
        assert(after.sockets.dom() =~= state.sockets.dom().remove(id));
        if state.sockets[id] is Some {
            let user = state.sockets[id]->0;
            assert(state.carries(id, user));
            let held = state.clients[user];
            let at = choose|at: int| 0 <= at < held.len() && held[at] == id;
            lemma_without_first_at(held, id, at);
            let left = held.remove(at);
            assert forall|i: int| 0 <= i < left.len() implies left[i] != id && state.carries(
                left[i],
                user,
            ) by {
                let from = if i < at {
                    i
                } else {
                    i + 1
                };
                assert(left[i] == held[from]);
                assert(state.carries(state.clients[user][from], user));
            }
            assert(left.no_duplicates()) by {
                assert forall|i: int, j: int|
                    0 <= i < left.len() && 0 <= j < left.len() && i != j implies left[i]
                    != left[j] by {
                    let from_i = if i < at {
                        i
                    } else {
                        i + 1
                    };
                    let from_j = if j < at {
                        j
                    } else {
                        j + 1
                    };
                    assert(left[i] == held[from_i] && left[j] == held[from_j]);
                }
            }
            assert forall|who: u128, k: int|
                after.clients.contains_key(who) && 0 <= k < after.clients[who].len() implies after.carries(
                #[trigger] after.clients[who][k],
                who,
            ) by {
                if who != user {
                    assert(state.carries(state.clients[who][k], who));
                }
            }
            assert forall|other: SocketId, who: u128| #[trigger]
                after.carries(other, who) implies after.clients.contains_key(who)
                && after.clients[who].contains(other) by {
                assert(state.carries(other, who));
                if who == user {
                    let k = choose|k: int| 0 <= k < held.len() && held[k] == other;
                    let to = if k < at {
                        k
                    } else {
                        k - 1
                    };
                    assert(left[to] == other);
                }
            }
        } else {
            assert forall|who: u128, k: int|
                after.clients.contains_key(who) && 0 <= k < after.clients[who].len() implies after.carries(
                #[trigger] after.clients[who][k],
                who,
            ) by {
                assert(state.carries(state.clients[who][k], who));
            }
            assert forall|other: SocketId, who: u128| #[trigger]
                after.carries(other, who) implies after.clients.contains_key(who)
                && after.clients[who].contains(other) by {
                assert(state.carries(other, who));
            }
        }
    }
}

/// No socket is held by the clients of two identities.
pub proof fn lemma_one_client_per_socket(state: PoolState, id: SocketId, one: u128, other: u128)
    requires
        state.valid(),
        state.targets(one).contains(id),
        state.targets(other).contains(id),
    ensures
        one == other,
{
    let at = choose|at: int| 0 <= at < state.targets(one).len() && state.targets(one)[at] == id;
    assert(state.carries(state.clients[one][at], one));
    let to = choose|to: int| 0 <= to < state.targets(other).len() && state.targets(other)[to] == id;
    assert(state.carries(state.clients[other][to], other));
}

/// The first sockets that bind an identity make one client between them:
/// the second joins the client that the first one made.
pub proof fn lemma_client_made_once(state: PoolState, first: SocketId, second: SocketId, user: u128)
    requires
        state.valid(),
        !state.clients.contains_key(user),
        first != second,
        state.sockets.contains_key(first) && state.sockets[first] is None,
        state.sockets.contains_key(second) && state.sockets[second] is None,
    ensures
        state.bound(first, user).bound(second, user).clients.dom() == state.clients.dom().insert(
            user,
        ),
        state.bound(first, user).targets(user) == seq![first],
        state.bound(first, user).bound(second, user).targets(user) == seq![first, second],
{
    let once = state.bound(first, user);
    let twice = once.bound(second, user);
    assert(once.targets(user) =~= seq![first]);
    assert(twice.targets(user) =~= seq![first, second]);
    assert(twice.clients.dom() =~= state.clients.dom().insert(user));
}

/// A socket that leaves, as one does to which a write failed, is taken
/// out of the client of its identity and out of no other: every other
/// socket of that identity still gets what is sent to it, and the sockets
/// of every other identity are as before.
pub proof fn lemma_failure_spares_siblings(state: PoolState, failed: SocketId, user: u128)
    requires
        state.valid(),
        state.carries(failed, user),
    ensures
        state.deregistered(failed).targets(user) == without_first(state.targets(user), failed),
        !state.deregistered(failed).targets(user).contains(failed),
        forall|other: SocketId|
            other != failed && state.targets(user).contains(other) ==> #[trigger] state.deregistered(
                failed,
            ).targets(user).contains(other),
        forall|who: u128|
            who != user ==> #[trigger] state.deregistered(failed).targets(who) == state.targets(
                who,
            ),
{
    let after = state.deregistered(failed);
    lemma_deregistered_valid(state, failed);
    if after.targets(user).contains(failed) {
        let at = choose|at: int|
            0 <= at < after.targets(user).len() && after.targets(user)[at] == failed;
        assert(after.carries(after.clients[user][at], user));
    }
    assert forall|other: SocketId|
        other != failed && state.targets(user).contains(other) implies #[trigger] after.targets(
        user,
    ).contains(other) by {
        let at = choose|at: int|
            0 <= at < state.targets(user).len() && state.targets(user)[at] == other;
        assert(state.carries(state.clients[user][at], user));
        assert(after.carries(other, user));
    }
}

/// When the only socket of an identity leaves, the client of that
/// identity is gone, and what is sent to the identity goes to no socket.
pub proof fn lemma_last_socket_ends_client(state: PoolState, id: SocketId, user: u128)
    requires
        state.valid(),
        state.clients.contains_key(user),
        state.clients[user] == seq![id],
    ensures
        !state.deregistered(id).clients.contains_key(user),
        state.deregistered(id).targets(user) == Seq::<SocketId>::empty(),
        state.deregistered(id).fan_out(seq![user]) == Seq::<SocketId>::empty(),
{
    let after = state.deregistered(id);
    assert(state.carries(state.clients[user][0], user));
    assert(without_first(seq![id], id) =~= Seq::empty());
    assert(seq![user].drop_last() =~= Seq::<u128>::empty());
    assert(after.fan_out(seq![user]) =~= Seq::empty()) by {
        reveal_with_fuel(PoolState::fan_out, 2);
    }
}

/// A socket's leaving twice is its leaving once.
pub proof fn lemma_deregistered_again(state: PoolState, id: SocketId)
    ensures
        state.deregistered(id).deregistered(id) == state.deregistered(id),
{
}

/// The id that is `steps` ids after `start`, going round from the largest
/// id to 0.
pub open spec fn probe(start: SocketId, steps: int) -> SocketId {
    if start + steps <= usize::MAX {
        (start + steps) as usize
    } else {
        (start + steps - usize::MAX - 1) as usize
    }
}

/// A finite set that holds the first `count` ids from `start` on holds at
/// least `count` ids.
proof fn lemma_probes_fit(taken: Set<SocketId>, start: SocketId, count: nat)
    requires
        taken.finite(),
        count <= usize::MAX,
        forall|steps: int| 0 <= steps < count ==> taken.contains(#[trigger] probe(start, steps)),
    ensures
        count <= taken.len(),
    decreases count,
{
    if count > 0 {
        let last = probe(start, count - 1);
        let rest = taken.remove(last);
        assert forall|steps: int| 0 <= steps < count - 1 implies rest.contains(
            #[trigger] probe(start, steps),
        ) by {
            assert(taken.contains(probe(start, steps)));
        }
        lemma_probes_fit(rest, start, (count - 1) as nat);
    }
}

/// What a frame read from a connection holds.
#[derive(Debug, PartialEq, Eq)]
pub enum Frame<T> {
    /// A text frame: the command that it decodes to, or `None` for text
    /// that decodes to none.
    Text(Option<T>),
    /// The peer closes the connection.
    Close,
    /// A frame of another kind.
    Other,
    /// Reading failed.
    Failed,
}

/// What becomes of a frame.
#[derive(Debug, PartialEq, Eq)]
pub enum Ingest<T> {
    /// The command goes to the dispatcher.
    Forward(TaggedMessage<T>),
    /// The frame is dropped and reading goes on.
    Skip,
    /// Reading ends and the socket leaves the registry.
    Stop,
}

/// The registry of live connections.
pub struct WsPool {
    authenticated: ClientCache,
    sockets: SocketCache,
    live: usize,
}

impl View for WsPool {
    type V = PoolState;

    closed spec fn view(&self) -> PoolState {
        PoolState {
            sockets: socket_entries(self.sockets).map_values(|socket: SocketInner| socket.user_id),
            clients: client_entries(self.authenticated).map_values(|client: ClientInner| client@),
        }
    }
}

impl WsPool {
    /// The registry is valid, holds every socket under its own id, and
    /// knows how many sockets are live. `new` establishes this and every
    /// method keeps it.
    pub closed spec fn wf(&self) -> bool {
        &&& self@.valid()
        &&& self.live == self@.sockets.dom().len()
        &&& forall|id: SocketId| #[trigger]
            socket_entries(self.sockets).contains_key(id) ==> socket_entries(self.sockets)[id].id
                == id
    }

    /// A well-formed registry is valid: no client is without sockets,
    /// none holds a socket twice, and each holds exactly the live sockets
    /// bound to its identity, so that no socket is in two clients.
    pub proof fn lemma_wf_valid(&self)
        requires
            self.wf(),
        ensures
            self@.valid(),
    {
    }

    /// A registry without sockets.
    pub fn new() -> (pool: WsPool)
        ensures
            pool.wf(),
            pool@ == PoolState::empty(),
    {
        let pool = WsPool { authenticated: clients_new(), sockets: sockets_new(), live: 0 };
        proof {
            assert(pool@.sockets =~= Map::empty());
            assert(pool@.clients =~= Map::empty());
            assert(pool@.sockets.dom() =~= Set::empty());
        }
        pool
    }

    /// How many sockets are live.
    pub fn socket_count(&self) -> (count: usize)
        requires
            self.wf(),
        ensures
            count == self@.sockets.dom().len(),
    {
        self.live
    }

    /// The first id from `start` on, going round, that no live socket has.
    fn free_from(&self, start: SocketId) -> (id: SocketId)
        requires
            self.wf(),
            self@.sockets.dom().len() < usize::MAX,
        ensures
            !self@.sockets.contains_key(id),
    {
        let ghost taken = self@.sockets.dom();
        let mut id: SocketId = start;
        let mut steps: usize = 0;
        while sockets_get(&self.sockets, id).is_some()
            invariant
                taken == self@.sockets.dom(),
                taken.finite(),
                taken.len() < usize::MAX,
                steps <= taken.len(),
                id == probe(start, steps as int),
                forall|earlier: int|
                    0 <= earlier < steps ==> taken.contains(#[trigger] probe(start, earlier)),
            decreases taken.len() - steps,
        {
            proof {
                assert(taken.contains(id));
                lemma_probes_fit(taken, start, (steps + 1) as nat);
            }
            id = if id == usize::MAX {
                0
            } else {
                id + 1
            };
            steps = steps + 1;
        }
        id
    }

    /// Enters `socket` into the registry.
    fn add_socket(&mut self, socket: SocketInner)
        requires
            old(self).wf(),
            old(self)@.sockets.dom().len() < usize::MAX,
            !old(self)@.sockets.contains_key(socket.id),
            socket.user_id is None,
        ensures
            final(self).wf(),
            final(self)@ == old(self)@.registered(socket.id),
    {
        sockets_insert(&mut self.sockets, socket.id, socket);
        self.live = self.live + 1;
        proof {
            assert(self@.sockets =~= old(self)@.sockets.insert(socket.id, None));
            assert(self@.sockets.dom() =~= old(self)@.sockets.dom().insert(socket.id));
            assert(self@.clients =~= old(self)@.clients);
            lemma_registered_valid(old(self)@, socket.id);
        }
    }

    /// Registers a new connection and returns its id, which no other live
    /// socket has. The socket carries no identity yet.
    pub fn add_connection(&mut self) -> (id: SocketId)
        requires
            old(self).wf(),
            old(self)@.sockets.dom().len() < usize::MAX,
        ensures
            final(self).wf(),
            !old(self)@.sockets.contains_key(id),
            final(self)@ == old(self)@.registered(id),
    {
        let (drawn, start) = SocketInner::new();
        let id = self.free_from(start);
        let socket = SocketInner { id, user_id: drawn.user_id };
        self.add_socket(socket);
        id
    }

    /// Takes socket `socket_id` out of the registry, also out of the client
    /// of its identity; a client left without sockets goes too. Does
    /// nothing for a socket that is not live.
    pub fn remove_socket(&mut self, socket_id: SocketId)
        requires
            old(self).wf(),
        ensures
            final(self).wf(),
            final(self)@ == old(self)@.deregistered(socket_id),
    {
        proof {
            lemma_deregistered_valid(old(self)@, socket_id);
        }
        match sockets_remove(&mut self.sockets, socket_id) {
            None => {
                proof {
                    assert(self@.sockets =~= old(self)@.sockets);
                    assert(self@.clients =~= old(self)@.clients);
                }
            },
            Some(socket) => {
                self.live = self.live - 1;
                proof {
                    assert(self@.sockets =~= old(self)@.sockets.remove(socket_id));
                    assert(self@.sockets.dom() =~= old(self)@.sockets.dom().remove(socket_id));
                }
                match socket.user_id() {
                    None => {
                        proof {
                            assert(self@.clients =~= old(self)@.clients);
                        }
                    },
                    Some(user_id) => {
                        match clients_get(&self.authenticated, user_id) {
                            None => {
                                proof {
                                    assert(self@.clients =~= old(self)@.clients);
                                }
                            },
                            Some(client) => {
                                let mut client = client;
                                let open_sockets = client.remove_socket(socket_id);
                                if open_sockets == 0 {
                                    clients_remove(&mut self.authenticated, user_id);
                                    proof {
                                        assert(self@.clients =~= old(self)@.clients.remove(
                                            user_id,
                                        ));
                                    }
                                } else {
                                    clients_insert(&mut self.authenticated, user_id, client);
                                    proof {
                                        assert(self@.clients =~= old(self)@.clients.insert(
                                            user_id,
                                            without_first(old(self)@.clients[user_id], socket_id),
                                        ));
                                    }
                                }
                            },
                        }
                    },
                }
            },
        }
    }

    /// Binds `user_id` to socket `socket_id` and adds the socket to the
    /// client of `user_id`, which is made if this is its first socket. A
    /// socket that already carries an identity keeps it, and the call is
    /// turned down; nothing happens for a socket that is not live.
    pub fn authenticate(&mut self, user_id: u128, socket_id: SocketId) -> (done: Result<
        (),
        ServerErrors,
    >)
        requires
            old(self).wf(),
        ensures
            final(self).wf(),
            final(self)@ == old(self)@.bound(socket_id, user_id),
            done == if old(self)@.identity_of(socket_id) is Some {
                Err::<(), ServerErrors>(ServerErrors::AlreadyAuthenticated)
            } else {
                Ok::<(), ServerErrors>(())
            },
    {
        proof {
            lemma_bound_valid(old(self)@, socket_id, user_id);
        }
        match sockets_get(&self.sockets, socket_id) {
            None => Ok(()),
            Some(socket) => {
                if socket.user_id().is_some() {
                    return Err(ServerErrors::AlreadyAuthenticated);
                }
                let mut socket = socket;
                socket.authenticate(user_id);
                sockets_insert(&mut self.sockets, socket_id, socket);
                match clients_get(&self.authenticated, user_id) {
                    Some(client) => {
                        let mut client = client;
                        client.add_socket(socket_id);
                        clients_insert(&mut self.authenticated, user_id, client);
                    },
                    None => {
                        let client = ClientInner::new(socket_id);
                        clients_insert(&mut self.authenticated, user_id, client);
                    },
                }
                proof {
                    assert(self@.sockets =~= old(self)@.sockets.insert(socket_id, Some(user_id)));
                    assert(self@.sockets.dom() =~= old(self)@.sockets.dom());
                    assert(self@.clients =~= old(self)@.clients.insert(
                        user_id,
                        old(self)@.targets(user_id).push(socket_id),
                    ));
                }
                Ok(())
            },
        }
    }

    /// The identity that socket `socket_id` carries; `None` also for a
    /// socket that is not live.
    pub fn user_id(&self, socket_id: SocketId) -> (bound: Option<u128>)
        ensures
            bound == self@.identity_of(socket_id),
    {
        match sockets_get(&self.sockets, socket_id) {
            Some(socket) => socket.user_id(),
            None => None,
        }
    }

    /// Decides what becomes of a frame read from socket `socket_id`. A
    /// decoded command is tagged with the identity that the socket
    /// carries now. Text that decodes to no command and frames of other
    /// kinds are dropped. A close frame or a failed read ends the reading.
    pub fn ingest<T>(&self, socket_id: SocketId, frame: Frame<T>) -> (step: Ingest<T>)
        ensures
            step == match frame {
                Frame::Text(Some(message)) => Ingest::Forward(
                    TaggedMessage {
                        socket_id,
                        user_id: self@.identity_of(socket_id),
                        message,
                    },
                ),
                Frame::Text(None) => Ingest::Skip,
                Frame::Other => Ingest::Skip,
                Frame::Close => Ingest::Stop,
                Frame::Failed => Ingest::Stop,
            },
    {
        match frame {
            Frame::Text(Some(message)) => {
                let user_id = self.user_id(socket_id);
                Ingest::Forward(TaggedMessage { socket_id, user_id, message })
            },
            Frame::Text(None) => Ingest::Skip,
            Frame::Other => Ingest::Skip,
            Frame::Close => Ingest::Stop,
            Frame::Failed => Ingest::Stop,
        }
    }

    /// The delivery of `message` to socket `socket_id`; to no socket if it
    /// is not live.
    pub fn send_to_socket<M>(&self, socket_id: SocketId, message: M) -> (delivery: Outgoing<M>)
        ensures
            delivery.message == message,
            delivery.targets@ == self@.socket_targets(socket_id),
    {
        let mut targets: Vec<SocketId> = Vec::new();
        if sockets_get(&self.sockets, socket_id).is_some() {
            targets.push(socket_id);
        }
        Outgoing { targets, message }
    }

    /// The delivery of `message` to every socket that carries `user_id`;
    /// to no socket if none does.
    pub fn send_to_user<M>(&self, user_id: u128, message: M) -> (delivery: Outgoing<M>)
        ensures
            delivery.message == message,
            delivery.targets@ == self@.targets(user_id),
    {
        match clients_get(&self.authenticated, user_id) {
            Some(client) => client.send(message),
            None => Outgoing { targets: Vec::new(), message },
        }
    }

    /// The delivery of one `message` to every socket of each of
    /// `user_ids`, user by user.
    pub fn send_to_users<M>(&self, user_ids: &[u128], message: M) -> (delivery: Outgoing<M>)
        ensures
            delivery.message == message,
            delivery.targets@ == self@.fan_out(user_ids@),
    {
        let mut targets: Vec<SocketId> = Vec::new();
        let mut at: usize = 0;
        while at < user_ids.len()
            invariant
                at <= user_ids@.len(),
                targets@ == self@.fan_out(user_ids@.take(at as int)),
            decreases user_ids@.len() - at,
        {
            let mut found = self.send_to_user(user_ids[at], ());
            targets.append(&mut found.targets);
            proof {
                assert(user_ids@.take(at + 1).drop_last() =~= user_ids@.take(at as int));
            }
            at += 1;
        }
        proof {
            assert(user_ids@.take(at as int) =~= user_ids@);
        }
        Outgoing { targets, message }
    }

    /// Records that a write to socket `socket_id` failed: the socket
    /// leaves the registry as in `remove_socket`, and no other socket is
    /// touched.
    pub fn write_failed(&mut self, socket_id: SocketId)
        requires
            old(self).wf(),
        ensures
            final(self).wf(),
            final(self)@ == old(self)@.deregistered(socket_id),
    {
        self.remove_socket(socket_id);
    }
}

/// `Box::leak` of std: a reference to what the box holds, which is never
/// freed.
#[verifier::external_body]
fn leak_box<T>(boxed: Box<T>) -> (kept: &'static T)
    ensures
        *kept == *boxed,
{
    Box::leak(boxed)
}

/// A reference to `value` that holds for the rest of the process: the
/// value is never freed.
pub fn leak<T>(value: T) -> (kept: &'static T)
    ensures
        *kept == value,
{
    leak_box(Box::new(value))
}

} // verus!
