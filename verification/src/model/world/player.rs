use vstd::prelude::*;

use vstd::set_lib::{lemma_int_range, lemma_len_subset, lemma_map_size, set_int_range};

use crate::formatting::{decimal, push_decimal};
use crate::model::world::names::{candidate_name, lemma_free_candidate_exists};
use crate::model::Subscription;
use crate::networking::NetAddress;

verus! {

#[derive(Clone, Copy, Debug, PartialEq, Eq, Structural, Hash)]
pub struct TeamID(pub i32);

/// Hands out team IDs in increasing order, starting at 0.
#[derive(Debug)]
pub struct TeamIDGenerator(pub i32);

impl TeamIDGenerator {
    pub fn new() -> (g: Self)
        ensures
            g.0 == 0,
    {
        TeamIDGenerator(0)
    }

    /// Hands out the next team ID.
    pub fn generate(&mut self) -> (id: TeamID)
        requires
            old(self).0 < i32::MAX,
        ensures
            id == TeamID(old(self).0),
            final(self).0 == old(self).0 + 1,
    {
        self.0 = self.0 + 1;
        TeamID(self.0 - 1)
    }
}

impl Default for TeamIDGenerator {
    fn default() -> (g: Self)
        ensures
            g.0 == 0,
    {
        Self::new()
    }
}

#[derive(Debug)]
pub struct Team {
    pub id: TeamID,
    pub name: String,
}

#[derive(Clone, Copy, Debug, PartialEq, Eq, Structural, Hash)]
pub struct PlayerID(pub i32);

/// Hands out player IDs in increasing order, starting at 0.
#[derive(Debug)]
pub struct PlayerIDGenerator(pub i32);

impl PlayerIDGenerator {
    pub fn new() -> (g: Self)
        ensures
            g.0 == 0,
    {
        PlayerIDGenerator(0)
    }

    /// Hands out the next player ID.
    pub fn generate(&mut self) -> (id: PlayerID)
        requires
            old(self).0 < i32::MAX,
        ensures
            id == PlayerID(old(self).0),
            final(self).0 == old(self).0 + 1,
    {
        self.0 = self.0 + 1;
        PlayerID(self.0 - 1)
    }
}

impl Default for PlayerIDGenerator {
    fn default() -> (g: Self)
        ensures
            g.0 == 0,
    {
        Self::new()
    }
}

#[derive(Debug)]
pub struct Player {
    pub id: PlayerID,
    pub name: String,
}

impl Clone for Player {
    fn clone(&self) -> (p: Self)
        ensures
            p == *self,
    {
        Player { id: self.id, name: self.name.clone() }
    }
}

/// Whether some player in `players` has the ID `id`.
pub open spec fn has_id(players: Seq<Player>, id: PlayerID) -> bool {
    exists|i: int| 0 <= i < players.len() && players[i].id == id
}

/// Whether `i` is the first position in `players` of a player with ID `id`.
pub open spec fn is_first_with_id(players: Seq<Player>, id: PlayerID, i: int) -> bool {
    &&& 0 <= i < players.len()
    &&& players[i].id == id
    &&& forall|j: int| 0 <= j < i ==> players[j].id != id
}

/// The first position in `players` of a player with ID `id`.
pub open spec fn id_index(players: Seq<Player>, id: PlayerID) -> int {
    choose|i: int| is_first_with_id(players, id, i)
}

/// Whether some player in `players` is called `name`.
pub open spec fn has_name(players: Seq<Player>, name: Seq<char>) -> bool {
    exists|i: int| 0 <= i < players.len() && players[i].name@ == name
}

/// Whether `i` is the first position in `players` of a player called `name`.
pub open spec fn is_first_with_name(players: Seq<Player>, name: Seq<char>, i: int) -> bool {
    &&& 0 <= i < players.len()
    &&& players[i].name@ == name
    &&& forall|j: int| 0 <= j < i ==> players[j].name@ != name
}

/// The first position in `players` of a player called `name`.
pub open spec fn name_index(players: Seq<Player>, name: Seq<char>) -> int {
    choose|i: int| is_first_with_name(players, name, i)
}

pub proof fn lemma_id_index(players: Seq<Player>, id: PlayerID, i: int)
    requires
        is_first_with_id(players, id, i),
    ensures
        id_index(players, id) == i,
{
    let c = id_index(players, id);
    assert(is_first_with_id(players, id, c));
    if c < i {
        assert(players[c].id != id);
    } else if i < c {
        assert(players[i].id != id);
    }
}

/// Where IDs are distinct, a player with ID `id` is the first one.
pub proof fn lemma_distinct_id_index(players: Seq<Player>, id: PlayerID)
    requires
        has_id(players, id),
        forall|i: int, j: int|
            0 <= i < players.len() && 0 <= j < players.len() && i != j ==> players[i].id
                != players[j].id,
    ensures
        is_first_with_id(players, id, id_index(players, id)),
{
    let w = choose|i: int| 0 <= i < players.len() && players[i].id == id;
    assert forall|j: int| 0 <= j < w implies players[j].id != id by {
        assert(players[j].id != players[w].id);
    }
    lemma_id_index(players, id, w);
}

pub proof fn lemma_name_index(players: Seq<Player>, name: Seq<char>, i: int)
    requires
        is_first_with_name(players, name, i),
    ensures
        name_index(players, name) == i,
{
    let c = name_index(players, name);
    assert(is_first_with_name(players, name, c));
    if c < i {
        assert(players[c].name@ != name);
    } else if i < c {
        assert(players[i].name@ != name);
    }
}

/// The position of the first player with ID `id`, if there is one.
fn find_id(players: &Vec<Player>, id: PlayerID) -> (r: Option<usize>)
    ensures
        match r {
            Some(i) => is_first_with_id(players@, id, i as int) && id_index(players@, id) == i,
            None => !has_id(players@, id),
        },
{
    let mut i: usize = 0;
    while i < players.len()
        invariant
            i <= players@.len(),
            forall|j: int| 0 <= j < i ==> players@[j].id != id,
        decreases players@.len() - i,
    {
        if players[i].id == id {
            proof {
                lemma_id_index(players@, id, i as int);
            }
            return Some(i);
        }
        i = i + 1;
    }
    None
}

/// The position of the first player called `name`, if there is one.
fn find_name(players: &Vec<Player>, name: &String) -> (r: Option<usize>)
    ensures
        match r {
            Some(i) => is_first_with_name(players@, name@, i as int) && name_index(players@, name@) == i,
            None => !has_name(players@, name@),
        },
{
    let mut i: usize = 0;
    while i < players.len()
        invariant
            i <= players@.len(),
            forall|j: int| 0 <= j < i ==> players@[j].name@ != name@,
        decreases players@.len() - i,
    {
        if players[i].name == *name {
            proof {
                lemma_name_index(players@, name@, i as int);
            }
            return Some(i);
        }
        i = i + 1;
    }
    None
}

/// Looking players up, by ID or by name, in the order in which they were
/// listed.
pub trait PlayerDataView {
    /// The players, in the order in which they were listed.
    spec fn listed_players(&self) -> Seq<Player>;

    /// The first player with the ID `id`.
    fn get_player(&self, id: &PlayerID) -> (r: Option<&Player>)
        ensures
            r == (if has_id(self.listed_players(), *id) {
                Some(&self.listed_players()[id_index(self.listed_players(), *id)])
            } else {
                None
            }),
    ;

    /// The first player called `name`.
    fn get_player_with_name(&self, name: &str) -> (r: Option<&Player>)
        ensures
            r == (if has_name(self.listed_players(), name@) {
                Some(&self.listed_players()[name_index(self.listed_players(), name@)])
            } else {
                None
            }),
    ;

    /// The IDs of all players, in order.
    fn all_player_ids(&self) -> (ids: Vec<PlayerID>)
        ensures
            ids@ == self.listed_players().map_values(|p: Player| p.id),
    ;
}

fn player_ids(players: &Vec<Player>) -> (ids: Vec<PlayerID>)
    ensures
        ids@ == players@.map_values(|p: Player| p.id),
{
    let mut ids: Vec<PlayerID> = Vec::new();
    let mut i: usize = 0;
    while i < players.len()
        invariant
            i <= players@.len(),
            ids@ == players@.take(i as int).map_values(|p: Player| p.id),
        decreases players@.len() - i,
    {
        ids.push(players[i].id);
        assert(players@.take(i + 1).map_values(|p: Player| p.id) =~= players@.take(i as int).map_values(
            |p: Player| p.id,
        ).push(players@[i as int].id));
        i = i + 1;
    }
    assert(players@.take(players@.len() as int) =~= players@);
    ids
}

/// The players a side knows, in the order in which they were listed.
#[derive(Debug)]
pub struct PlayerData {
    pub players: Vec<Player>,
}

impl PlayerDataView for PlayerData {
    open spec fn listed_players(&self) -> Seq<Player> {
        self.players@
    }

    fn get_player(&self, id: &PlayerID) -> (r: Option<&Player>) {
        match find_id(&self.players, *id) {
            Some(i) => Some(&self.players[i]),
            None => None,
        }
    }

    fn get_player_with_name(&self, name: &str) -> (r: Option<&Player>) {
        let name = name.to_owned();
        match find_name(&self.players, &name) {
            Some(i) => Some(&self.players[i]),
            None => None,
        }
    }

    fn all_player_ids(&self) -> (ids: Vec<PlayerID>) {
        player_ids(&self.players)
    }
}

/// A change in who is logged in, for the rest of the program to act on.
#[derive(Clone, Copy, Debug, PartialEq, Eq, Structural)]
pub enum PlayerManagerUpdate {
    PlayerLogIn(PlayerID, NetAddress),
    PlayerLogOut(PlayerID, NetAddress),
}

/// Whether some entry of `connections` is the connection `con`.
pub open spec fn holds_connection(connections: Seq<Option<NetAddress>>, con: NetAddress) -> bool {
    exists|i: int| 0 <= i < connections.len() && connections[i] == Some(con)
}

/// The entry of `connections` that is the connection `con`.
pub open spec fn connection_index(connections: Seq<Option<NetAddress>>, con: NetAddress) -> int {
    choose|i: int| 0 <= i < connections.len() && connections[i] == Some(con)
}

/// Logging out the player at `i`: its connection is dropped and reported.
pub open spec fn log_out_at(
    players: Seq<Player>,
    connections: Seq<Option<NetAddress>>,
    updates: Seq<PlayerManagerUpdate>,
    i: int,
) -> (Seq<Option<NetAddress>>, Seq<PlayerManagerUpdate>) {
    match connections[i] {
        Some(c) => (
            connections.update(i, None),
            updates.push(PlayerManagerUpdate::PlayerLogOut(players[i].id, c)),
        ),
        None => (connections, updates),
    }
}

/// What mapping a connection and a player does, as the new connections,
/// the new list of updates and the position of the player handed back:
/// - both given: the connection's previous player, if another, is logged
///   out; the player, if it exists, is logged out of its previous
///   connection and logged in on this one;
/// - only a connection: whoever is on it is logged out;
/// - only a player: it is logged out, and handed back only if it was
///   logged in.
pub open spec fn mapping_outcome(
    players: Seq<Player>,
    connections: Seq<Option<NetAddress>>,
    updates: Seq<PlayerManagerUpdate>,
    con: Option<NetAddress>,
    player: Option<PlayerID>,
) -> (Seq<Option<NetAddress>>, Seq<PlayerManagerUpdate>, Option<int>) {
    match (con, player) {
        (Some(c), Some(p)) => {
            let owned = holds_connection(connections, c);
            let oi = connection_index(connections, c);
            if owned && players[oi].id == p {
                (connections, updates, Some(oi))
            } else {
                let first = if owned {
                    log_out_at(players, connections, updates, oi)
                } else {
                    (connections, updates)
                };
                if has_id(players, p) {
                    let pi = id_index(players, p);
                    let logged_out = match first.0[pi] {
                        Some(pc) => first.1.push(PlayerManagerUpdate::PlayerLogOut(p, pc)),
                        None => first.1,
                    };
                    (
                        first.0.update(pi, Some(c)),
                        logged_out.push(PlayerManagerUpdate::PlayerLogIn(p, c)),
                        Some(pi),
                    )
                } else {
                    (first.0, first.1, None)
                }
            }
        },
        (Some(c), None) => {
            if holds_connection(connections, c) {
                let out = log_out_at(players, connections, updates, connection_index(connections, c));
                (out.0, out.1, None)
            } else {
                (connections, updates, None)
            }
        },
        (None, Some(p)) => {
            if has_id(players, p) && connections[id_index(players, p)] is Some {
                let out = log_out_at(players, connections, updates, id_index(players, p));
                (out.0, out.1, Some(id_index(players, p)))
            } else {
                (connections, updates, None)
            }
        },
        (None, None) => (connections, updates, None),
    }
}

pub open spec fn viewed(o: Option<String>) -> Option<Seq<char>> {
    match o {
        Some(s) => Some(s@),
        None => None,
    }
}

pub open spec fn copied<T>(o: Option<&T>) -> Option<T> {
    match o {
        Some(x) => Some(*x),
        None => None,
    }
}

/// The name a new player asks for: the given one, else `Player` and its ID.
pub open spec fn requested_name(name: Option<Seq<char>>, id: PlayerID) -> Seq<char> {
    match name {
        Some(n) => n,
        None => seq!['P', 'l', 'a', 'y', 'e', 'r'] + decimal(id.0 as nat),
    }
}

/// Whether `k` is the first number whose candidate name `base (k)` is free.
pub open spec fn is_first_free(players: Seq<Player>, base: Seq<char>, k: nat) -> bool {
    &&& k >= 1
    &&& !has_name(players, candidate_name(base, k))
    &&& forall|j: nat| 1 <= j < k ==> has_name(players, #[trigger] candidate_name(base, j))
}

/// The name a new player gets: `base` if free, else the first free `base (k)`.
pub open spec fn free_name(players: Seq<Player>, base: Seq<char>) -> Seq<char> {
    if !has_name(players, base) {
        base
    } else {
        candidate_name(base, choose|k: nat| is_first_free(players, base, k))
    }
}

proof fn lemma_first_free(players: Seq<Player>, base: Seq<char>, k: nat)
    requires
        is_first_free(players, base, k),
    ensures
        (choose|m: nat| is_first_free(players, base, m)) == k,
{
    let c = choose|m: nat| is_first_free(players, base, m);
    assert(is_first_free(players, base, c));
    if c < k {
        assert(has_name(players, candidate_name(base, c)));
    } else if k < c {
        assert(has_name(players, candidate_name(base, k)));
    }
}

/// Players with distinct IDs in `0..n` are at most `n`.
proof fn lemma_ids_bound(players: Seq<Player>, n: int)
    requires
        0 <= n,
        forall|i: int| 0 <= i < players.len() ==> 0 <= #[trigger] players[i].id.0 < n,
        forall|i: int, j: int|
            0 <= i < players.len() && 0 <= j < players.len() && i != j ==> players[i].id
                != players[j].id,
    ensures
        players.len() <= n,
{
    let idx = set_int_range(0, players.len() as int);
    lemma_int_range(0, players.len() as int);
    let f = |i: int| players[i].id.0 as int;
    assert(vstd::relations::injective_on(f, idx));
    let ids = idx.map(f);
    lemma_map_size(idx, ids, f);
    lemma_int_range(0, n);
    assert(ids.subset_of(set_int_range(0, n)));
    lemma_len_subset(ids, set_int_range(0, n));
}

/// A name `free_name` gives is held by no player.
pub proof fn lemma_free_name_is_free(players: Seq<Player>, base: Seq<char>)
    ensures
        !has_name(players, free_name(players, base)),
{
    if has_name(players, base) {
        let names = players.map_values(|p: Player| p.name@);
        lemma_free_candidate_exists(names, base);
        let k = choose|k: nat| 1 <= k <= names.len() + 1 && !names.contains(#[trigger] candidate_name(base, k));
        assert(!has_name(players, candidate_name(base, k))) by {
            if has_name(players, candidate_name(base, k)) {
                let w = choose|w: int| 0 <= w < players.len() && players[w].name@ == candidate_name(base, k);
                assert(names[w] == candidate_name(base, k));
            }
        }
        lemma_first_free_exists(players, base, k);
        let f = choose|m: nat| is_first_free(players, base, m);
        assert(is_first_free(players, base, f));
    }
}

/// If `base (k)` is free, some number is the first whose candidate is free.
proof fn lemma_first_free_exists(players: Seq<Player>, base: Seq<char>, k: nat)
    requires
        k >= 1,
        !has_name(players, candidate_name(base, k)),
    ensures
        exists|m: nat| is_first_free(players, base, m),
    decreases k,
{
    if forall|j: nat| 1 <= j < k ==> has_name(players, #[trigger] candidate_name(base, j)) {
        assert(is_first_free(players, base, k));
    } else {
        let j = choose|j: nat| 1 <= j < k && !has_name(players, #[trigger] candidate_name(base, j));
        lemma_first_free_exists(players, base, j);
    }
}

/// The players, their connections and subscriptions, and what changed in
/// who is logged in.
pub struct PlayerManager {
    players: Vec<Player>,
    id_gen: PlayerIDGenerator,
    connections: Vec<Option<NetAddress>>,
    subscriptions: Vec<Vec<Subscription>>,
    pub updates: Vec<PlayerManagerUpdate>,
}

impl PlayerManager {
    /// The players, in the order in which they were created.
    pub closed spec fn players(&self) -> Seq<Player> {
        self.players@
    }

    /// The connection of each player, by position.
    pub closed spec fn connections(&self) -> Seq<Option<NetAddress>> {
        self.connections@
    }

    /// The subscriptions of each player, by position.
    pub closed spec fn subscriptions(&self) -> Seq<Seq<Subscription>> {
        Seq::new(self.subscriptions@.len(), |i: int| self.subscriptions@[i]@)
    }

    /// The changes in who is logged in, oldest first.
    pub closed spec fn update_log(&self) -> Seq<PlayerManagerUpdate> {
        self.updates@
    }

    /// The ID the next player will get.
    pub closed spec fn next_id(&self) -> int {
        self.id_gen.0 as int
    }

    pub closed spec fn wf(&self) -> bool {
        &&& self.connections@.len() == self.players@.len()
        &&& self.subscriptions@.len() == self.players@.len()
        &&& 0 <= self.id_gen.0
        &&& forall|i: int| 0 <= i < self.players@.len() ==> 0 <= #[trigger] self.players@[i].id.0 < self.id_gen.0
        &&& forall|i: int, j: int|
            0 <= i < self.players@.len() && 0 <= j < self.players@.len() && i != j
                ==> self.players@[i].id != self.players@[j].id
        &&& forall|i: int, j: int|
            0 <= i < self.connections@.len() && 0 <= j < self.connections@.len() && i != j
                && self.connections@[i] is Some ==> self.connections@[i] != self.connections@[j]
    }

    /// What a well-formed manager keeps: one connection and one set of
    /// subscriptions per player, every ID below the next one and none twice,
    /// and no connection held by two players.
    pub proof fn lemma_wf(&self)
        requires
            self.wf(),
        ensures
            self.connections().len() == self.players().len(),
            self.subscriptions().len() == self.players().len(),
            0 <= self.next_id(),
            forall|i: int| 0 <= i < self.players().len() ==> 0 <= #[trigger] self.players()[i].id.0 < self.next_id(),
            forall|i: int, j: int|
                0 <= i < self.players().len() && 0 <= j < self.players().len() && i != j
                    ==> self.players()[i].id != self.players()[j].id,
            forall|i: int, j: int|
                0 <= i < self.connections().len() && 0 <= j < self.connections().len() && i != j
                    && self.connections()[i] is Some ==> self.connections()[i] != self.connections()[j],
    {
    }

    /// What `map_existing_player(con, player)` makes of this manager.
    pub open spec fn after_mapping(&self, con: Option<NetAddress>, player: Option<PlayerID>) -> (
        Seq<Option<NetAddress>>,
        Seq<PlayerManagerUpdate>,
        Option<int>,
    ) {
        mapping_outcome(self.players(), self.connections(), self.update_log(), con, player)
    }

    /// Once an existing player is mapped onto a connection, the connection
    /// leads to that player, that player has that connection, and it is the
    /// player handed back.
    pub proof fn lemma_log_in_then_lookup(&self, con: NetAddress, id: PlayerID)
        requires
            self.wf(),
            has_id(self.players(), id),
        ensures
            holds_connection(self.after_mapping(Some(con), Some(id)).0, con),
            connection_index(self.after_mapping(Some(con), Some(id)).0, con) == id_index(self.players(), id),
            self.after_mapping(Some(con), Some(id)).0[id_index(self.players(), id)] == Some(con),
            self.after_mapping(Some(con), Some(id)).2 == Some(id_index(self.players(), id)),
    {
        let players = self.players@;
        let conns = self.connections@;
        let pi = id_index(players, id);
        lemma_distinct_id_index(players, id);
        let out = self.after_mapping(Some(con), Some(id));
        let owned = holds_connection(conns, con);
        let oi = connection_index(conns, con);
        if owned && players[oi].id == id {
            assert(is_first_with_id(players, id, oi)) by {
                assert forall|j: int| 0 <= j < oi implies players[j].id != id by {
                    assert(players[j].id != players[oi].id);
                }
            }
            lemma_id_index(players, id, oi);
            assert(out.0 == conns);
        } else {
            let first = if owned {
                log_out_at(players, conns, self.updates@, oi)
            } else {
                (conns, self.updates@)
            };
            assert forall|k: int| 0 <= k < first.0.len() implies first.0[k] != Some(con) by {
                if owned {
                    if k != oi {
                        assert(conns[k] != conns[oi]);
                    }
                }
            }
            assert(out.0 == first.0.update(pi, Some(con)));
            assert(out.0[pi] == Some(con));
            let c = connection_index(out.0, con);
            assert(0 <= c < out.0.len() && out.0[c] == Some(con));
            if c != pi {
                assert(first.0[c] == Some(con));
            }
        }
    }

    /// Mapping an existing player onto a connection gives the player that
    /// connection, and no other player keeps it. If the connection was
    /// already the player's, nothing is logged; otherwise the log gains, in
    /// order, the log-out of the connection's previous holder (if any), the
    /// log-out of the player's previous connection (if any), and the log-in.
    pub proof fn lemma_map_existing_player(&self, con: NetAddress, id: PlayerID)
        requires
            self.wf(),
            has_id(self.players(), id),
        ensures
            ({
                let out = self.after_mapping(Some(con), Some(id));
                let pi = id_index(self.players(), id);
                let conns = self.connections();
                let holder_out = if holds_connection(conns, con) {
                    seq![
                        PlayerManagerUpdate::PlayerLogOut(
                            self.players()[connection_index(conns, con)].id,
                            con,
                        ),
                    ]
                } else {
                    Seq::empty()
                };
                let own_out = match conns[pi] {
                    Some(c0) => seq![PlayerManagerUpdate::PlayerLogOut(id, c0)],
                    None => Seq::empty(),
                };
                &&& 0 <= pi < self.players().len()
                &&& self.players()[pi].id == id
                &&& out.0.len() == conns.len()
                &&& out.0[pi] == Some(con)
                &&& forall|k: int| 0 <= k < out.0.len() && k != pi ==> out.0[k] != Some(con)
                &&& conns[pi] == Some(con) ==> out.1 == self.update_log()
                &&& conns[pi] != Some(con) ==> out.1 == self.update_log() + holder_out + own_out + seq![
                    PlayerManagerUpdate::PlayerLogIn(id, con),
                ]
            }),
    {
        let players = self.players@;
        let conns = self.connections@;
        let ups = self.updates@;
        let pi = id_index(players, id);
        lemma_distinct_id_index(players, id);
        self.lemma_log_in_then_lookup(con, id);
        let out = self.after_mapping(Some(con), Some(id));
        let owned = holds_connection(conns, con);
        let oi = connection_index(conns, con);
        if conns[pi] == Some(con) {
            assert(owned);
            if oi != pi {
                assert(conns[oi] != conns[pi]);
            }
            assert(players[oi].id == id);
        } else {
            if owned {
                assert(oi != pi);
                if players[oi].id == id {
                    assert(players[oi].id != players[pi].id);
                }
                let first = log_out_at(players, conns, ups, oi);
                assert(first.0[pi] == conns[pi]);
                assert(first.1 == ups.push(PlayerManagerUpdate::PlayerLogOut(players[oi].id, con)));
            }
            let holder_out = if owned {
                seq![PlayerManagerUpdate::PlayerLogOut(players[oi].id, con)]
            } else {
                Seq::<PlayerManagerUpdate>::empty()
            };
            let own_out = match conns[pi] {
                Some(c0) => seq![PlayerManagerUpdate::PlayerLogOut(id, c0)],
                None => Seq::<PlayerManagerUpdate>::empty(),
            };
            assert(out.1 =~= ups + holder_out + own_out + seq![PlayerManagerUpdate::PlayerLogIn(id, con)]);
        }
        assert forall|k: int| 0 <= k < out.0.len() && k != pi implies out.0[k] != Some(con) by {
            assert(connection_index(out.0, con) == pi);
            if out.0[k] == Some(con) {
                assert(holds_connection(out.0, con));
                // the connection is held only once after the mapping
                if owned && players[oi].id == id {
                    assert(conns[k] != conns[pi]);
                } else {
                    let first = if owned {
                        log_out_at(players, conns, ups, oi)
                    } else {
                        (conns, ups)
                    };
                    assert(out.0 == first.0.update(pi, Some(con)));
                    if owned && k != oi {
                        assert(conns[k] != conns[oi]);
                    }
                }
            }
        }
    }

    /// Once a connection is logged out, no player is on it.
    pub proof fn lemma_log_out_connection(&self, con: NetAddress)
        requires
            self.wf(),
        ensures
            !holds_connection(self.after_mapping(Some(con), None).0, con),
            self.after_mapping(Some(con), None).2 is None,
    {
        let conns = self.connections@;
        let out = self.after_mapping(Some(con), None);
        if holds_connection(conns, con) {
            let oi = connection_index(conns, con);
            assert forall|k: int| 0 <= k < out.0.len() implies out.0[k] != Some(con) by {
                if k != oi {
                    assert(conns[k] != conns[oi]);
                }
            }
        }
    }

    /// Once a player is logged out, it has no connection.
    pub proof fn lemma_log_out_player(&self, id: PlayerID)
        requires
            self.wf(),
            has_id(self.players(), id),
        ensures
            self.after_mapping(None, Some(id)).0[id_index(self.players(), id)] is None,
    {
        lemma_distinct_id_index(self.players@, id);
    }

    pub fn new() -> (m: PlayerManager)
        ensures
            m.wf(),
            m.players() == Seq::<Player>::empty(),
            m.connections() == Seq::<Option<NetAddress>>::empty(),
            m.subscriptions() == Seq::<Seq<Subscription>>::empty(),
            m.next_id() == 0,
            m.update_log() == Seq::<PlayerManagerUpdate>::empty(),
    {
        let m = PlayerManager {
            players: Vec::new(),
            id_gen: PlayerIDGenerator::new(),
            connections: Vec::new(),
            subscriptions: Vec::new(),
            updates: Vec::new(),
        };
        assert(m.subscriptions() =~= Seq::<Seq<Subscription>>::empty());
        m
    }

    /// The position of the player on the connection `con`, if any.
    fn connected_index(&self, con: &NetAddress) -> (r: Option<usize>)
        requires
            self.wf(),
        ensures
            match r {
                Some(i) => holds_connection(self.connections@, *con) && i == connection_index(
                    self.connections@,
                    *con,
                ) && i < self.players@.len(),
                None => !holds_connection(self.connections@, *con),
            },
    {
        let mut i: usize = 0;
        while i < self.connections.len()
            invariant
                self.wf(),
                i <= self.connections@.len(),
                forall|j: int| 0 <= j < i ==> self.connections@[j] != Some(*con),
            decreases self.connections@.len() - i,
        {
            if self.connections[i] == Some(*con) {
                proof {
                    let c = connection_index(self.connections@, *con);
                    assert(0 <= c < self.connections@.len() && self.connections@[c] == Some(*con));
                }
                return Some(i);
            }
            i = i + 1;
        }
        None
    }

    /// The player on the connection `con`, if any.
    pub fn get_connected_player(&mut self, con_id: &NetAddress) -> (r: Option<PlayerID>)
        requires
            old(self).wf(),
        ensures
            *final(self) == *old(self),
            r == (if holds_connection(old(self).connections(), *con_id) {
                Some(old(self).players()[connection_index(old(self).connections(), *con_id)].id)
            } else {
                None
            }),
    {
        match self.connected_index(con_id) {
            Some(i) => Some(self.players[i].id),
            None => None,
        }
    }

    /// Maps a connection and a player onto each other as `mapping_outcome`
    /// says, and gives the position of the player handed back.
    fn map_connection(&mut self, con_id: Option<&NetAddress>, player_id: Option<&PlayerID>) -> (r: Option<usize>)
        requires
            old(self).wf(),
        ensures
            final(self).wf(),
            final(self).connections@ == mapping_outcome(
                old(self).players@,
                old(self).connections@,
                old(self).updates@,
                copied(con_id),
                copied(player_id),
            ).0,
            final(self).updates@ == mapping_outcome(
                old(self).players@,
                old(self).connections@,
                old(self).updates@,
                copied(con_id),
                copied(player_id),
            ).1,
            match r {
                Some(i) => mapping_outcome(
                    old(self).players@,
                    old(self).connections@,
                    old(self).updates@,
                    copied(con_id),
                    copied(player_id),
                ).2 == Some(i as int) && i < old(self).players@.len(),
                None => mapping_outcome(
                    old(self).players@,
                    old(self).connections@,
                    old(self).updates@,
                    copied(con_id),
                    copied(player_id),
                ).2 is None,
            },
            final(self).players@ == old(self).players@,
            final(self).subscriptions@ == old(self).subscriptions@,
            final(self).id_gen == old(self).id_gen,
    {
        match (con_id, player_id) {
            (Some(con), Some(pid)) => {
                let owner = self.connected_index(con);
                if let Some(oi) = owner {
                    if self.players[oi].id == *pid {
                        return Some(oi);
                    }
                    self.log_out_index(oi);
                }
                proof {
                    if let Some(oi) = owner {
                        assert(!holds_connection(self.connections@, *con)) by {
                            if holds_connection(self.connections@, *con) {
                                let k = connection_index(self.connections@, *con);
                                if k != oi {
                                    assert(old(self).connections@[k] == Some(*con));
                                }
                            }
                        }
                    }
                }
                match find_id(&self.players, *pid) {
                    Some(pi) => {
                        if let Some(prev) = self.connections[pi] {
                            self.updates.push(PlayerManagerUpdate::PlayerLogOut(*pid, prev));
                        }
                        self.updates.push(PlayerManagerUpdate::PlayerLogIn(*pid, *con));
                        self.connections.set(pi, Some(*con));
                        Some(pi)
                    },
                    None => None,
                }
            },
            (Some(con), None) => {
                if let Some(oi) = self.connected_index(con) {
                    self.log_out_index(oi);
                }
                None
            },
            (None, Some(pid)) => {
                match find_id(&self.players, *pid) {
                    Some(pi) => {
                        if let Some(c) = self.connections[pi] {
                            self.updates.push(PlayerManagerUpdate::PlayerLogOut(*pid, c));
                            self.connections.set(pi, None);
                            Some(pi)
                        } else {
                            None
                        }
                    },
                    None => None,
                }
            },
            (None, None) => None,
        }
    }

    /// Maps a connection and a player onto each other, as `mapping_outcome`
    /// says, and hands back the player it names.
    pub fn map_existing_player(&mut self, con_id: Option<&NetAddress>, player_id: Option<&PlayerID>) -> (r: Option<&mut Player>)
        requires
            old(self).wf(),
        ensures
            final(self).connections() == mapping_outcome(
                old(self).players(),
                old(self).connections(),
                old(self).update_log(),
                copied(con_id),
                copied(player_id),
            ).0,
            final(self).update_log() == mapping_outcome(
                old(self).players(),
                old(self).connections(),
                old(self).update_log(),
                copied(con_id),
                copied(player_id),
            ).1,
            final(self).subscriptions() == old(self).subscriptions(),
            final(self).next_id() == old(self).next_id(),
            match r {
                Some(p) => {
                    let i = mapping_outcome(
                        old(self).players(),
                        old(self).connections(),
                        old(self).update_log(),
                        copied(con_id),
                        copied(player_id),
                    ).2->0;
                    &&& mapping_outcome(
                        old(self).players(),
                        old(self).connections(),
                        old(self).update_log(),
                        copied(con_id),
                        copied(player_id),
                    ).2 is Some
                    &&& 0 <= i < old(self).players().len()
                    &&& *p == old(self).players()[i]
                    &&& final(self).players() == old(self).players().update(i, *final(p))
                    &&& final(p).id == p.id ==> final(self).wf()
                },
                None => {
                    &&& mapping_outcome(
                        old(self).players(),
                        old(self).connections(),
                        old(self).update_log(),
                        copied(con_id),
                        copied(player_id),
                    ).2 is None
                    &&& final(self).players() == old(self).players()
                    &&& final(self).wf()
                },
            },
    {
        match self.map_connection(con_id, player_id) {
            Some(i) => Some(&mut self.players[i]),
            None => None,
        }
    }

    /// The name a new player with ID `id` gets, asking for `name`.
    fn choose_name(&self, name: Option<String>, id: PlayerID) -> (r: String)
        requires
            self.wf(),
            0 <= id.0,
        ensures
            r@ == free_name(
                self.players@,
                requested_name(
                    viewed(name),
                    id,
                ),
            ),
    {
        let ghost req = requested_name(
            viewed(name),
            id,
        );
        let base_name = match name {
            None => {
                let mut s = String::from_str("Player");
                proof {
                    reveal_strlit("Player");
                }
                push_decimal(&mut s, id.0 as u128);
                assert(s@ =~= seq!['P', 'l', 'a', 'y', 'e', 'r'] + decimal(id.0 as nat));
                s
            },
            Some(n) => n,
        };
        assert(base_name@ == req);
        if find_name(&self.players, &base_name).is_none() {
            return base_name;
        }
        proof {
            lemma_free_candidate_exists(self.players@.map_values(|p: Player| p.name@), base_name@);
            lemma_ids_bound(self.players@, self.id_gen.0 as int);
        }
        let mut i: u64 = 1;
        loop
            invariant
                1 <= i <= self.players@.len() + 1,
                self.players@.len() <= i32::MAX,
                base_name@ == req,
                req == requested_name(viewed(name), id),
                forall|j: nat| 1 <= j < i ==> has_name(self.players@, #[trigger] candidate_name(base_name@, j)),
                has_name(self.players@, base_name@),
                exists|k: nat|
                    1 <= k <= self.players@.len() + 1 && !self.players@.map_values(|p: Player| p.name@).contains(
                        #[trigger] candidate_name(base_name@, k),
                    ),
            decreases self.players@.len() + 1 - i,
        {
            let mut candidate = base_name.clone();
            candidate.append(" (");
            push_decimal(&mut candidate, i as u128);
            candidate.append(")");
            proof {
                reveal_strlit(" (");
                reveal_strlit(")");
                assert(candidate@ =~= candidate_name(base_name@, i as nat));
            }
            if find_name(&self.players, &candidate).is_none() {
                proof {
                    lemma_first_free(self.players@, base_name@, i as nat);
                    assert(free_name(self.players@, base_name@) == candidate_name(base_name@, i as nat));
                }
                return candidate;
            }
            proof {
                if i == self.players@.len() + 1 {
                    let k = choose|k: nat|
                        1 <= k <= self.players@.len() + 1 && !self.players@.map_values(
                            |p: Player| p.name@,
                        ).contains(#[trigger] candidate_name(base_name@, k));
                    assert(has_name(self.players@, candidate_name(base_name@, k)));
                    let w = choose|w: int|
                        0 <= w < self.players@.len() && self.players@[w].name@ == candidate_name(base_name@, k);
                    assert(self.players@.map_values(|p: Player| p.name@)[w] == candidate_name(base_name@, k));
                }
            }
            i = i + 1;
        }
    }

    /// Creates a player with the next ID and a free name (see `free_name`),
    /// maps it onto `con` as `map_existing_player` does, and hands it back.
    pub fn create_player(&mut self, con: Option<NetAddress>, name: Option<String>) -> (p: &mut Player)
        requires
            old(self).wf(),
            old(self).next_id() < i32::MAX,
        ensures
            p.id == PlayerID(old(self).next_id() as i32),
            p.name@ == free_name(
                old(self).players(),
                requested_name(
                    viewed(name),
                    PlayerID(old(self).next_id() as i32),
                ),
            ),
            final(self).players() == old(self).players().push(*final(p)),
            final(self).next_id() == old(self).next_id() + 1,
            final(self).subscriptions() == old(self).subscriptions().push(Seq::<Subscription>::empty()),
            final(self).connections() == mapping_outcome(
                old(self).players().push(*p),
                old(self).connections().push(None),
                old(self).update_log(),
                con,
                Some(PlayerID(old(self).next_id() as i32)),
            ).0,
            final(self).update_log() == mapping_outcome(
                old(self).players().push(*p),
                old(self).connections().push(None),
                old(self).update_log(),
                con,
                Some(PlayerID(old(self).next_id() as i32)),
            ).1,
            final(p).id == p.id ==> final(self).wf(),
    {
        let id = self.id_gen.generate();
        let name = self.choose_name(name, id);
        self.players.push(Player { id, name });
        self.connections.push(None);
        self.subscriptions.push(Vec::new());
        let last = self.players.len() - 1;
        proof {
            assert(self.wf()) by {
                assert forall|i: int| 0 <= i < self.players@.len() implies 0 <= #[trigger] self.players@[i].id.0 < self.id_gen.0 by {
                    if i < last {
                        assert(self.players@[i] == old(self).players@[i]);
                    }
                }
                assert forall|i: int, j: int|
                    0 <= i < self.players@.len() && 0 <= j < self.players@.len() && i != j
                    implies self.players@[i].id != self.players@[j].id by {
                    assert(self.players@[last as int].id == id);
                    if i < last {
                        assert(old(self).players@[i].id.0 < id.0);
                        assert(self.players@[i] == old(self).players@[i]);
                    }
                    if j < last {
                        assert(self.players@[j] == old(self).players@[j]);
                        assert(old(self).players@[j].id.0 < id.0);
                    }
                }
            }
            assert(self.subscriptions() =~= old(self).subscriptions().push(Seq::<Subscription>::empty()));
        }
        let con_ref = match &con {
            Some(c) => Some(c),
            None => None,
        };
        self.map_connection(con_ref, Some(&id));
        &mut self.players[last]
    }

    /// The connection of the player with ID `player_id`, if it is logged in.
    pub fn is_connected(&self, player_id: &PlayerID) -> (r: Option<NetAddress>)
        requires
            self.wf(),
        ensures
            r == (if has_id(self.players(), *player_id) {
                self.connections()[id_index(self.players(), *player_id)]
            } else {
                None
            }),
    {
        self.get_player_connection(player_id)
    }

    /// The connection of the player with ID `player_id`, if it is logged in.
    pub fn get_player_connection(&self, player_id: &PlayerID) -> (r: Option<NetAddress>)
        requires
            self.wf(),
        ensures
            r == (if has_id(self.players(), *player_id) {
                self.connections()[id_index(self.players(), *player_id)]
            } else {
                None
            }),
    {
        match find_id(&self.players, *player_id) {
            Some(i) => self.connections[i],
            None => None,
        }
    }

    /// The players, to hand to the other side.
    pub fn get_view(&self) -> (r: PlayerData)
        ensures
            r.players@ == self.players(),
    {
        let players = self.players.clone();
        assert(players@ =~= self.players@);
        PlayerData { players }
    }

    /// The player with ID `id`, to change.
    pub fn get_player_mut(&mut self, id: &PlayerID) -> (r: Option<&mut Player>)
        requires
            old(self).wf(),
        ensures
            final(self).connections() == old(self).connections(),
            final(self).subscriptions() == old(self).subscriptions(),
            final(self).update_log() == old(self).update_log(),
            final(self).next_id() == old(self).next_id(),
            match r {
                Some(p) => {
                    let i = id_index(old(self).players(), *id);
                    &&& has_id(old(self).players(), *id)
                    &&& *p == old(self).players()[i]
                    &&& final(self).players() == old(self).players().update(i, *final(p))
                    &&& final(p).id == p.id ==> final(self).wf()
                },
                None => !has_id(old(self).players(), *id) && *final(self) == *old(self),
            },
    {
        match find_id(&self.players, *id) {
            Some(i) => Some(&mut self.players[i]),
            None => None,
        }
    }

    /// The first player called `name`, to change.
    pub fn get_player_with_name_mut(&mut self, name: &str) -> (r: Option<&mut Player>)
        requires
            old(self).wf(),
        ensures
            final(self).connections() == old(self).connections(),
            final(self).subscriptions() == old(self).subscriptions(),
            final(self).update_log() == old(self).update_log(),
            final(self).next_id() == old(self).next_id(),
            match r {
                Some(p) => {
                    let i = name_index(old(self).players(), name@);
                    &&& has_name(old(self).players(), name@)
                    &&& *p == old(self).players()[i]
                    &&& final(self).players() == old(self).players().update(i, *final(p))
                    &&& final(p).id == p.id ==> final(self).wf()
                },
                None => !has_name(old(self).players(), name@) && *final(self) == *old(self),
            },
    {
        let name = name.to_owned();
        match find_name(&self.players, &name) {
            Some(i) => Some(&mut self.players[i]),
            None => None,
        }
    }

    /// The subscriptions of the player with ID `id`, to change.
    pub fn get_player_subscriptions_mut(&mut self, id: &PlayerID) -> (r: Option<&mut Vec<Subscription>>)
        requires
            old(self).wf(),
        ensures
            final(self).wf(),
            final(self).players() == old(self).players(),
            final(self).connections() == old(self).connections(),
            final(self).update_log() == old(self).update_log(),
            final(self).next_id() == old(self).next_id(),
            match r {
                Some(subs) => {
                    let i = id_index(old(self).players(), *id);
                    &&& has_id(old(self).players(), *id)
                    &&& subs@ == old(self).subscriptions()[i]
                    &&& final(self).subscriptions() == old(self).subscriptions().update(i, final(subs)@)
                },
                None => !has_id(old(self).players(), *id) && final(self).subscriptions() == old(self).subscriptions(),
            },
    {
        match find_id(&self.players, *id) {
            Some(i) => {
                let r = &mut self.subscriptions[i];
                Some(r)
            },
            None => None,
        }
    }

    /// The subscriptions of the player with ID `id`.
    pub fn get_player_subscriptions(&self, id: &PlayerID) -> (r: Option<Vec<Subscription>>)
        requires
            self.wf(),
        ensures
            r matches Some(subs) ==> subs@ == self.subscriptions()[id_index(self.players(), *id)],
            r is Some <==> has_id(self.players(), *id),
    {
        match find_id(&self.players, *id) {
            Some(i) => {
                let subs = self.subscriptions[i].clone();
                assert(subs@ =~= self.subscriptions@[i as int]@);
                Some(subs)
            },
            None => None,
        }
    }

    /// Logs out the player at `i`, if it is logged in.
    fn log_out_index(&mut self, i: usize)
        requires
            old(self).wf(),
            i < old(self).players@.len(),
        ensures
            final(self).wf(),
            (final(self).connections@, final(self).updates@) == log_out_at(
                old(self).players@,
                old(self).connections@,
                old(self).updates@,
                i as int,
            ),
            final(self).players@ == old(self).players@,
            final(self).subscriptions@ == old(self).subscriptions@,
            final(self).id_gen == old(self).id_gen,
    {
        if let Some(c) = self.connections[i] {
            self.updates.push(PlayerManagerUpdate::PlayerLogOut(self.players[i].id, c));
            self.connections.set(i, None);
        }
    }
}

impl Default for PlayerManager {
    fn default() -> (m: Self)
        ensures
            m.wf(),
            m.players() == Seq::<Player>::empty(),
            m.connections() == Seq::<Option<NetAddress>>::empty(),
            m.subscriptions() == Seq::<Seq<Subscription>>::empty(),
            m.next_id() == 0,
            m.update_log() == Seq::<PlayerManagerUpdate>::empty(),
    {
        Self::new()
    }
}

impl PlayerDataView for PlayerManager {
    open spec fn listed_players(&self) -> Seq<Player> {
        self.players()
    }

    fn get_player(&self, id: &PlayerID) -> (r: Option<&Player>) {
        match find_id(&self.players, *id) {
            Some(i) => Some(&self.players[i]),
            None => None,
        }
    }

    fn get_player_with_name(&self, name: &str) -> (r: Option<&Player>) {
        let name = name.to_owned();
        match find_name(&self.players, &name) {
            Some(i) => Some(&self.players[i]),
            None => None,
        }
    }

    fn all_player_ids(&self) -> (ids: Vec<PlayerID>) {
        player_ids(&self.players)
    }
}

} // verus!
