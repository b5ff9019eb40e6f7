//! Server-level state: the session map, the room registry and the top-level
//! connection state machine that routes each session between username entry,
//! lobby selection and its room.
use vstd::prelude::*;
use vstd::string::*;

use crate::cards::{CodenamesPlayer, PlayerModel};
use crate::codenames::RoomModel;

verus! {

/// Where a session stands in the server's connection state machine.
#[derive(Copy, Clone, Debug, PartialEq, Eq, Structural)]
pub enum ServerState {
    Joined,
    UsernameEntry,
    LobbySelection,
    InvalidInput,
    InRoom,
    FatalError,
}

/// One session's server-side record.
pub struct User {
    pub prev_prompt: String,
    pub state: ServerState,
    pub prev_state: ServerState,
    pub user_name: String,
    pub session_id: u64,
    pub game_room_key: Option<i32>,
    pub player: Option<CodenamesPlayer>,
}

/// Mathematical image of a session record.
#[verifier::ext_equal]
pub ghost struct UserModel {
    pub prev_prompt: Seq<char>,
    pub state: ServerState,
    pub prev_state: ServerState,
    pub name: Seq<char>,
    pub id: u64,
    pub room_key: Option<i32>,
    pub player: Option<PlayerModel>,
}

impl View for User {
    type V = UserModel;

    open spec fn view(&self) -> UserModel {
        UserModel {
            prev_prompt: self.prev_prompt@,
            state: self.state,
            prev_state: self.prev_state,
            name: self.user_name@,
            id: self.session_id,
            room_key: self.game_room_key,
            player: match self.player {
                Some(p) => Some(p@),
                None => None,
            },
        }
    }
}

/// The session map: every connected session's record, keyed by its opaque
/// session identity.
pub struct UserMap {
    pub users: Vec<User>,
}

impl View for UserMap {
    type V = Seq<UserModel>;

    open spec fn view(&self) -> Seq<UserModel> {
        self.users@.map_values(|u: User| u@)
    }
}

/// Whether the map holds an entry for the given session.
pub open spec fn contains_id(m: Seq<UserModel>, id: u64) -> bool {
    exists|j: int| 0 <= j < m.len() && m[j].id == id
}

/// Session identities are unique within the map.
pub open spec fn user_map_wf(m: Seq<UserModel>) -> bool {
    forall|i: int, j: int| 0 <= i < j < m.len() ==> m[i].id != m[j].id
}

/// The record a session gets on first contact.
pub open spec fn default_user_model(id: u64) -> UserModel {
    UserModel {
        prev_prompt: Seq::empty(),
        state: ServerState::Joined,
        prev_state: ServerState::Joined,
        name: "default"@,
        id: id,
        room_key: None,
        player: None,
    }
}

impl UserMap {
    pub fn new() -> (m: UserMap)
        ensures
            m@ =~= Seq::<UserModel>::empty(),
    {
        UserMap { users: Vec::new() }
    }

    /// Index of the entry with the given session identity, if present.
    #[verifier::loop_isolation(false)]
    pub fn find_user(&self, id: u64) -> (r: Option<usize>)
        ensures
            match r {
                Some(i) => i < self@.len() && self@[i as int].id == id,
                None => !contains_id(self@, id),
            },
    {
        let n = self.users.len();
        let mut i: usize = 0;
        while i < n
            invariant
                0 <= i <= n,
                forall|j: int| 0 <= j < i ==> self@[j].id != id,
            decreases n - i,
        {
            if self.users[i].session_id == id {
                return Some(i);
            }
            i = i + 1;
        }
        None
    }
}

/// Looks up the session's record, creating a fresh default record on first
/// contact, and returns its index in the map.
pub fn get_user_state(user_state: &mut UserMap, id: u64) -> (i: usize)
    requires
        user_map_wf(old(user_state)@),
    ensures
        user_map_wf(final(user_state)@),
        i < final(user_state)@.len(),
        final(user_state)@[i as int].id == id,
        contains_id(old(user_state)@, id) ==> final(user_state)@ == old(user_state)@,
        !contains_id(old(user_state)@, id) ==> final(user_state)@ == old(user_state)@.push(
            default_user_model(id),
        ) && i == old(user_state)@.len(),
{
    match user_state.find_user(id) {
        Some(i) => i,
        None => {
            let u = User {
                prev_prompt: String::new(),
                state: ServerState::Joined,
                prev_state: ServerState::Joined,
                user_name: String::from_str("default"),
                session_id: id,
                game_room_key: None,
                player: None,
            };
            proof {
                assert(u@ =~= default_user_model(id));
            }
            user_state.users.push(u);
            proof {
                assert(user_state@ =~= old(user_state)@.push(default_user_model(id)));
            }
            user_state.users.len() - 1
        },
    }
}


/// One lobby slot: its display name and, once a session has entered it,
/// the live game.
pub struct GameRoom {
    pub name: String,
    pub impl_room: Option<crate::codenames::CodenamesRoom>,
}

/// A registry entry: the room id together with the room.
pub struct RoomEntry {
    pub id: i32,
    pub room: GameRoom,
}

/// Mathematical image of a registry entry.
#[verifier::ext_equal]
pub ghost struct RoomEntryModel {
    pub id: i32,
    pub name: Seq<char>,
    pub game: Option<RoomModel>,
}

impl View for RoomEntry {
    type V = RoomEntryModel;

    open spec fn view(&self) -> RoomEntryModel {
        RoomEntryModel {
            id: self.id,
            name: self.room.name@,
            game: match self.room.impl_room {
                Some(r) => Some(r@),
                None => None,
            },
        }
    }
}

/// The room registry: every open room, keyed by a positive id.  Entries
/// stay sorted by id, so ids are unique and the lobby listing needs no
/// extra ordering pass.
pub struct RoomMap {
    pub rooms: Vec<RoomEntry>,
}

impl View for RoomMap {
    type V = Seq<RoomEntryModel>;

    open spec fn view(&self) -> Seq<RoomEntryModel> {
        self.rooms@.map_values(|e: RoomEntry| e@)
    }
}

/// Registry invariant: ids positive and strictly increasing, and every
/// live game well formed.
pub open spec fn room_map_wf(rs: Seq<RoomEntryModel>) -> bool {
    &&& forall|i: int, j: int| 0 <= i < j < rs.len() ==> rs[i].id < rs[j].id
    &&& forall|i: int| 0 <= i < rs.len() ==> rs[i].id >= 1
    &&& forall|i: int| 0 <= i < rs.len() ==> #[trigger] room_entry_ok(rs[i])
}

/// A registry entry's own invariant: a live game is well formed.
pub open spec fn room_entry_ok(e: RoomEntryModel) -> bool {
    match e.game {
        Some(g) => crate::codenames::room_wf(g),
        None => true,
    }
}

/// Whether the registry holds a room with the given id.
pub open spec fn contains_room(rs: Seq<RoomEntryModel>, id: i32) -> bool {
    exists|j: int| 0 <= j < rs.len() && rs[j].id == id
}

pub proof fn lemma_room_views_update(s: Seq<RoomEntry>, i: int, e: RoomEntry)
    requires
        0 <= i < s.len(),
    ensures
        s.update(i, e).map_values(|x: RoomEntry| x@) =~= s.map_values(|x: RoomEntry| x@).update(
            i,
            e@,
        ),
{
}

impl RoomMap {
    pub fn new() -> (m: RoomMap)
        ensures
            m@ =~= Seq::<RoomEntryModel>::empty(),
            room_map_wf(m@),
    {
        RoomMap { rooms: Vec::new() }
    }

    /// Index of the room with the given id, if present.
    #[verifier::loop_isolation(false)]
    pub fn find_room(&self, id: i32) -> (r: Option<usize>)
        ensures
            match r {
                Some(i) => i < self@.len() && self@[i as int].id == id,
                None => !contains_room(self@, id),
            },
    {
        let n = self.rooms.len();
        let mut i: usize = 0;
        while i < n
            invariant
                0 <= i <= n,
                forall|j: int| 0 <= j < i ==> self@[j].id != id,
            decreases n - i,
        {
            if self.rooms[i].id == id {
                return Some(i);
            }
            i = i + 1;
        }
        None
    }
}


/// The registry entry bearing the given id.
pub open spec fn room_with_id(rs: Seq<RoomEntryModel>, id: i32) -> RoomEntryModel {
    rs[choose|i: int| 0 <= i < rs.len() && rs[i].id == id]
}

pub proof fn lemma_room_index_is(rs: Seq<RoomEntryModel>, id: i32, i: int)
    requires
        room_map_wf(rs),
        0 <= i < rs.len(),
        rs[i].id == id,
    ensures
        room_with_id(rs, id) == rs[i],
{
    assert(exists|j: int| 0 <= j < rs.len() && rs[j].id == id);
    let j = choose|j: int| 0 <= j < rs.len() && rs[j].id == id;
    if i != j {
        if i < j {
            assert(rs[i].id < rs[j].id);
        } else {
            assert(rs[j].id < rs[i].id);
        }
        assert(false);
    }
}


/// A session in the fatal state asked for another step; the connection is
/// to be dropped.
#[derive(Debug)]
pub struct GameError {}

/// One lobby listing row.
pub open spec fn listing_row(e: RoomEntryModel) -> Seq<char> {
    crate::text::int_str(e.id as int) + ": "@ + crate::text::pad_left_spec(e.name, 15)
        + crate::render::crlf()
}

pub open spec fn listing_rows(rs: Seq<RoomEntryModel>, n: int) -> Seq<char>
    decreases n,
{
    if n <= 0 {
        Seq::empty()
    } else {
        listing_rows(rs, n - 1) + listing_row(rs[n - 1])
    }
}

/// The lobby listing: the slot for opening a new room, then every open
/// room in id order.
pub open spec fn lobby_listing(rs: Seq<RoomEntryModel>) -> Seq<char> {
    "0: New Lobby\r\n"@ + listing_rows(rs, rs.len() as int)
}

/// The smallest positive id no open room uses.
#[verifier::loop_isolation(false)]
pub fn find_empty_slot(game_rooms: &RoomMap) -> (r: i32)
    requires
        room_map_wf(game_rooms@),
        game_rooms@.len() < 0x7fffffff,
    ensures
        r >= 1,
        !contains_room(game_rooms@, r),
        forall|k: i32| 1 <= k < r ==> contains_room(game_rooms@, k),
{
    let ghost rs = game_rooms@;
    let n = game_rooms.rooms.len();
    let mut i: usize = 0;
    while i < n && game_rooms.rooms[i].id == (i as i32) + 1
        invariant
            0 <= i <= n,
            n == rs.len(),
            forall|t: int| 0 <= t < i ==> #[trigger] rs[t].id == t + 1,
        decreases n - i,
    {
        i = i + 1;
    }
    let cand = (i as i32) + 1;
    proof {
        assert forall|k: i32| 1 <= k < cand implies contains_room(rs, k) by {
            assert(rs[k - 1].id == k);
        }
        if i < n {
            assert(rs[i as int].id != cand);
            assert(rs[i as int].id >= cand) by {
                if i > 0 {
                    assert(rs[i - 1].id == i as i32);
                    assert(rs[i - 1].id < rs[i as int].id);
                }
            }
            assert forall|t: int| 0 <= t < rs.len() implies rs[t].id != cand by {
                if t < i {
                    assert(rs[t].id == t + 1);
                } else if t > i {
                    assert(rs[i as int].id < rs[t].id);
                }
            }
        } else {
            assert forall|t: int| 0 <= t < rs.len() implies rs[t].id != cand by {
                assert(rs[t].id == t + 1);
            }
        }
    }
    cand
}

/// Opens a new empty room under the given id, keeping the registry in id
/// order.
#[verifier::loop_isolation(false)]
fn insert_room(game_rooms: &mut RoomMap, id: i32, name: String)
    requires
        room_map_wf(old(game_rooms)@),
        id >= 1,
        !contains_room(old(game_rooms)@, id),
    ensures
        room_map_wf(final(game_rooms)@),
        final(game_rooms)@.len() == old(game_rooms)@.len() + 1,
        contains_room(final(game_rooms)@, id),
        ({
            exists|pos: int|
                0 <= pos <= old(game_rooms)@.len() && final(game_rooms)@ == old(
                    game_rooms,
                )@.insert(
                    pos,
                    RoomEntryModel { id: id, name: name@, game: None },
                )
        }),
{
    let ghost rs = game_rooms@;
    let n = game_rooms.rooms.len();
    let mut pos: usize = 0;
    while pos < n && game_rooms.rooms[pos].id < id
        invariant
            0 <= pos <= n,
            n == rs.len(),
            forall|t: int| 0 <= t < pos ==> #[trigger] rs[t].id < id,
        decreases n - pos,
    {
        pos = pos + 1;
    }
    proof {
        if pos < n {
            assert(rs[pos as int].id != id);
            assert(rs[pos as int].id > id);
        }
    }
    let ghost epre = game_rooms.rooms@;
    game_rooms.rooms.insert(pos, RoomEntry { id, room: GameRoom { name, impl_room: None } });
    proof {
        assert(game_rooms@ =~~= rs.insert(
            pos as int,
            RoomEntryModel { id: id, name: game_rooms.rooms@[pos as int].room.name@, game: None },
        ));
        let rs1 = game_rooms@;
        assert forall|a: int, b: int| 0 <= a < b < rs1.len() implies rs1[a].id < rs1[b].id by {
            if a < pos && b > pos {
                assert(rs1[a] == rs[a] && rs1[b] == rs[b - 1]);
            }
        }
        assert forall|t: int| 0 <= t < rs1.len() implies #[trigger] room_entry_ok(rs1[t]) by {
            if t < pos {
                assert(room_entry_ok(rs[t]));
            } else if t > pos {
                assert(room_entry_ok(rs[t - 1]));
            }
        }
        assert(rs1[pos as int].id == id);
    }
}

/// Everything one lobby-selection step does, from the caller's view.
pub open spec fn lobby_post(
    u0: UserModel,
    rs0: Seq<RoomEntryModel>,
    line: Option<Seq<char>>,
    u1: UserModel,
    rs1: Seq<RoomEntryModel>,
) -> bool {
    match line {
        None => u1 == u0 && rs1 == rs0,
        Some(l) => match crate::text::parse_i32_spec(crate::text::trim_spec(l)) {
            None => u1 == (UserModel { state: ServerState::InvalidInput, ..u0 }) && rs1 == rs0,
            Some(idx) => if idx == 0 {
                exists|nid: i32, pos: int|
                    {
                        &&& nid >= 1 && !contains_room(rs0, nid)
                        &&& 0 <= pos <= rs0.len()
                        &&& rs1 == #[trigger] rs0.insert(
                            pos,
                            RoomEntryModel { id: nid, name: u0.name + "'s Room"@, game: None },
                        )
                        &&& u1 == (UserModel {
                            room_key: Some(nid),
                            state: ServerState::InRoom,
                            ..u0
                        })
                    }
            } else if contains_room(rs0, idx) {
                u1 == (UserModel { room_key: Some(idx), state: ServerState::InRoom, ..u0 }) && rs1
                    == rs0
            } else {
                u1 == (UserModel { state: ServerState::InvalidInput, ..u0 }) && rs1 == rs0
            },
        },
    }
}

/// Picks or opens the room a session asked for from the lobby: `0` opens a
/// fresh room under the smallest free id; any other number joins that room
/// if it exists.  Anything else is invalid input.
pub fn lobby_selection_logic(
    user_state: &mut User,
    game_rooms: &mut RoomMap,
    line: &Option<String>,
)
    requires
        room_map_wf(old(game_rooms)@),
        old(game_rooms)@.len() < 0x7fffffff,
    ensures
        room_map_wf(final(game_rooms)@),
        lobby_post(
            old(user_state)@,
            old(game_rooms)@,
            match line {
                Some(l) => Some(l@),
                None => None,
            },
            final(user_state)@,
            final(game_rooms)@,
        ),
{
    let l = match line {
        Some(l) => l,
        None => {
            return ;
        },
    };
    let trimmed = crate::text::trim_str(l.as_str());
    match crate::text::parse_i32(trimmed.as_str()) {
        Some(mut room_idx) => {
            if room_idx == 0 {
                let mut room_name = user_state.user_name.clone();
                room_name.append("'s Room");
                room_idx = find_empty_slot(game_rooms);
                insert_room(game_rooms, room_idx, room_name);
            }
            match game_rooms.find_room(room_idx) {
                Some(_) => {
                    user_state.game_room_key = Some(room_idx);
                    user_state.state = ServerState::InRoom;
                },
                None => {
                    user_state.state = ServerState::InvalidInput;
                    return ;
                },
            }
        },
        None => {
            user_state.state = ServerState::InvalidInput;
        },
    }
}


/// The whole server's state: every session and every room.
pub struct GameServerState {
    pub user_state: UserMap,
    pub game_rooms: RoomMap,
}

/// A session record with its connection-level history fields adjusted
/// after one step: `prev_state` remembers the state the step began in
/// whenever the step moved the session elsewhere.
pub open spec fn track_prev(u: UserModel, st0: ServerState) -> UserModel {
    if u.state != st0 {
        UserModel { prev_state: st0, ..u }
    } else {
        u
    }
}

/// Everything one `client_logic` step does, from the caller's view.
pub open spec fn client_step_post(
    m0: Seq<UserModel>,
    rs0: Seq<RoomEntryModel>,
    session: u64,
    lv: Option<Seq<char>>,
    r_ok: bool,
    mfin: Seq<UserModel>,
    rsfin: Seq<RoomEntryModel>,
) -> bool {
    let m1 = crate::codenames::ensure_user_spec(m0, session);
    let i = crate::codenames::idx_of(m1, session);
    let st0 = m1[i].state;
    match st0 {
                    ServerState::Joined => {
                        &&& r_ok
                        &&& rsfin == rs0
                        &&& mfin == m1.update(
                            i,
                            UserModel {
                                state: ServerState::UsernameEntry,
                                prev_state: ServerState::Joined,
                                ..m1[i]
                            },
                        )
                    },
                    ServerState::UsernameEntry => {
                        &&& r_ok
                        &&& rsfin == rs0
                        &&& mfin == (match lv {
                            None => m1,
                            Some(l) => if l.len() <= 25 {
                                m1.update(
                                    i,
                                    UserModel {
                                        name: crate::text::trim_spec(l),
                                        state: ServerState::LobbySelection,
                                        prev_state: ServerState::UsernameEntry,
                                        ..m1[i]
                                    },
                                )
                            } else {
                                m1.update(
                                    i,
                                    UserModel {
                                        state: ServerState::InvalidInput,
                                        prev_state: ServerState::UsernameEntry,
                                        ..m1[i]
                                    },
                                )
                            },
                        })
                    },
                    ServerState::LobbySelection => {
                        &&& r_ok
                        &&& mfin.len() == m1.len()
                        &&& (forall|j: int|
                            0 <= j < m1.len() && j != i ==> #[trigger] mfin[j]
                                == m1[j])
                        &&& lobby_post(
                            m1[i],
                            rs0,
                            lv,
                            UserModel {
                                prev_state: m1[i].prev_state,
                                ..mfin[i]
                            },
                            rsfin,
                        )
                        &&& mfin[i].prev_state == (if mfin[i].state != st0 {
                            st0
                        } else {
                            m1[i].prev_state
                        })
                    },
                    ServerState::InvalidInput => {
                        &&& r_ok
                        &&& rsfin == rs0
                        &&& mfin == m1.update(
                            i,
                            crate::game::track_prev(
                                UserModel { state: m1[i].prev_state, ..m1[i] },
                                ServerState::InvalidInput,
                            ),
                        )
                    },
                    ServerState::FatalError => {
                        &&& !r_ok
                        &&& rsfin == rs0
                        &&& mfin == m1
                    },
                    ServerState::InRoom => {
                        &&& r_ok
                        &&& exists|mmid: Seq<UserModel>|
                            #[trigger] crate::codenames::logic_post(
                                m1,
                                rs0,
                                session,
                                lv,
                                mmid,
                                rsfin,
                            ) && mfin == mmid.update(
                                i,
                                track_prev(mmid[i], ServerState::InRoom),
                            )
                    },
    }
}

impl GameServerState {

    pub fn new() -> (s: GameServerState)
        ensures
            s.user_state@ =~= Seq::<UserModel>::empty(),
            s.game_rooms@ =~= Seq::<RoomEntryModel>::empty(),
            user_map_wf(s.user_state@),
            room_map_wf(s.game_rooms@),
    {
        GameServerState { user_state: UserMap::new(), game_rooms: RoomMap::new() }
    }

    /// The lobby listing shown while a session picks a room.
    #[verifier::loop_isolation(false)]
    fn get_lobby_listing(&self) -> (out: String)
        ensures
            out@ == lobby_listing(self.game_rooms@),
    {
        let ghost rs = self.game_rooms@;
        let mut out = String::from_str("0: New Lobby\r\n");
        let n = self.game_rooms.rooms.len();
        let mut i: usize = 0;
        proof {
            assert(out@ + listing_rows(rs, 0) =~= out@);
        }
        let ghost head = out@;
        while i < n
            invariant
                0 <= i <= n,
                n == rs.len(),
                out@ == head + listing_rows(rs, i as int),
            decreases n - i,
        {
            let mut row = crate::text::i32_to_string(self.game_rooms.rooms[i].id);
            row.append(": ");
            let padded = crate::text::pad_left(self.game_rooms.rooms[i].room.name.as_str(), 15);
            row.append(padded.as_str());
            row.append(crate::render::crlf_str());
            proof {
                assert(row@ =~= listing_row(rs[i as int]));
            }
            out.append(row.as_str());
            i = i + 1;
            proof {
                assert(out@ =~= head + listing_rows(rs, i as int));
            }
        }
        out
    }

    /// What to show a session right now, given where it stands: a fixed
    /// banner in the connection states, the lobby listing while picking a
    /// room, and the room's own prompt once inside.
    pub fn get_client_prompt(&mut self, session: u64) -> (r: Option<String>)
        requires
            user_map_wf(old(self).user_state@),
            room_map_wf(old(self).game_rooms@),
        ensures
            user_map_wf(final(self).user_state@),
            room_map_wf(final(self).game_rooms@),
            ({
                let m1 = crate::codenames::ensure_user_spec(old(self).user_state@, session);
                let i = crate::codenames::idx_of(m1, session);
                match m1[i].state {
                    ServerState::InRoom => crate::codenames::prompt_post(
                        m1,
                        old(self).game_rooms@,
                        session,
                        final(self).user_state@,
                        final(self).game_rooms@,
                        match r {
                            Some(s) => Some(s@),
                            None => None,
                        },
                    ),
                    _ => {
                        &&& final(self).user_state@ == m1
                        &&& final(self).game_rooms@ == old(self).game_rooms@
                        &&& match r {
                            Some(s) => s@ == (match m1[i].state {
                                ServerState::Joined => "Connected to Telnet Codenames\r\n"@,
                                ServerState::UsernameEntry => "Enter in your username, maximum of 25 characters\r\n"@,
                                ServerState::LobbySelection => "Which lobby do you want to join? Or create a new lobby\r\n"@
                                    + lobby_listing(old(self).game_rooms@),
                                ServerState::InvalidInput => "Invalid input, please try again\r\n"@,
                                _ => "A fatal error has occurred, disconnecting...\r\n"@,
                            }),
                            None => false,
                        }
                    },
                }
            }),
    {
        let ghost m0 = self.user_state@;
        let ui = get_user_state(&mut self.user_state, session);
        let ghost m1 = self.user_state@;
        proof {
            assert(m1 =~= crate::codenames::ensure_user_spec(m0, session));
            crate::codenames::lemma_user_index_is(m1, session, ui as int);
            let i = crate::codenames::idx_of(m1, session);
            if i != ui {
                assert(false);
            }
        }
        match self.user_state.users[ui].state {
            ServerState::Joined => Some(String::from_str("Connected to Telnet Codenames\r\n")),
            ServerState::UsernameEntry => Some(
                String::from_str("Enter in your username, maximum of 25 characters\r\n"),
            ),
            ServerState::LobbySelection => {
                let mut s = String::from_str(
                    "Which lobby do you want to join? Or create a new lobby\r\n",
                );
                let listing = self.get_lobby_listing();
                s.append(listing.as_str());
                Some(s)
            },
            ServerState::InvalidInput => Some(
                String::from_str("Invalid input, please try again\r\n"),
            ),
            ServerState::InRoom => crate::codenames::codenames_prompt(
                session,
                &mut self.user_state,
                &mut self.game_rooms,
            ),
            ServerState::FatalError => Some(
                String::from_str("A fatal error has occurred, disconnecting...\r\n"),
            ),
        }
    }

    /// Drives one step of a session's connection state machine with one
    /// line of input (or an idle tick).  Fails only for a session already
    /// in the fatal state, whose connection is then dropped.
    #[verifier::rlimit(100)]
    #[verifier::spinoff_prover]
    pub fn client_logic(&mut self, session: u64, line: Option<String>) -> (r: Result<
        (),
        GameError,
    >)
        requires
            user_map_wf(old(self).user_state@),
            room_map_wf(old(self).game_rooms@),
            old(self).game_rooms@.len() < 0x7fffffff,
        ensures
            user_map_wf(final(self).user_state@),
            room_map_wf(final(self).game_rooms@),
            client_step_post(
                old(self).user_state@,
                old(self).game_rooms@,
                session,
                match line {
                    Some(l) => Some(l@),
                    None => None::<Seq<char>>,
                },
                r is Ok,
                final(self).user_state@,
                final(self).game_rooms@,
            ),
    {
        let ghost m0 = self.user_state@;
        let ghost rs0 = self.game_rooms@;
        let ui = get_user_state(&mut self.user_state, session);
        let ghost m1 = self.user_state@;
        proof {
            assert(m1 =~= crate::codenames::ensure_user_spec(m0, session));
            crate::codenames::lemma_user_index_is(m1, session, ui as int);
            let i = crate::codenames::idx_of(m1, session);
            if i != ui {
                assert(false);
            }
        }
        let starting_state = self.user_state.users[ui].state;
        let ghost upre = self.user_state.users@;
        match starting_state {
            ServerState::Joined => {
                self.user_state.users[ui].state = ServerState::UsernameEntry;
            },
            ServerState::UsernameEntry => {
                match &line {
                    Some(l) => {
                        if l.as_str().unicode_len() <= 25 {
                            self.user_state.users[ui].user_name = crate::text::trim_str(
                                l.as_str(),
                            );
                            self.user_state.users[ui].state = ServerState::LobbySelection;
                        } else {
                            self.user_state.users[ui].state = ServerState::InvalidInput;
                        }
                    },
                    None => {},
                }
            },
            ServerState::LobbySelection => {
                lobby_selection_logic(
                    &mut self.user_state.users[ui],
                    &mut self.game_rooms,
                    &line,
                );
            },
            ServerState::InvalidInput => {
                let prev = self.user_state.users[ui].prev_state;
                self.user_state.users[ui].state = prev;
            },
            ServerState::FatalError => {
                proof {
                    assert(client_step_post(
                        m0,
                        rs0,
                        session,
                        match line {
                            Some(l) => Some(l@),
                            None => None::<Seq<char>>,
                        },
                        false,
                        self.user_state@,
                        self.game_rooms@,
                    ));
                }
                return Err(GameError {  });
            },
            ServerState::InRoom => {
                crate::codenames::codenames_logic(
                    session,
                    &mut self.user_state,
                    &mut self.game_rooms,
                    &line,
                );
            },
        }
        let ghost mmid = self.user_state@;
        proof {
            if starting_state == ServerState::LobbySelection || starting_state
                == ServerState::UsernameEntry || starting_state == ServerState::Joined
                || starting_state == ServerState::InvalidInput {
                crate::codenames::lemma_user_views_update(upre, ui as int, self.user_state.users@[ui as int]);
            }
            if starting_state == ServerState::InRoom {
                assert(crate::codenames::ensure_user_spec(m1, session) =~= m1);
                crate::codenames::lemma_user_index_is(mmid, session, ui as int);
            }
        }
        let ui2 = match self.user_state.find_user(session) {
            Some(i) => i,
            None => {
                proof {
                    assert(false);
                }
                return Ok(());
            },
        };
        proof {
            if ui2 != ui {
                assert(mmid[ui2 as int].id == mmid[ui as int].id);
                assert(false);
            }
        }
        let ghost upost = self.user_state.users@;
        if self.user_state.users[ui2].state != starting_state {
            self.user_state.users[ui2].prev_state = starting_state;
        }
        proof {
            crate::codenames::lemma_user_views_update(upost, ui as int, self.user_state.users@[ui as int]);
            assert(self.user_state@ =~~= mmid.update(
                ui as int,
                track_prev(mmid[ui as int], starting_state),
            ));
            let lv = match line {
                Some(l) => Some(l@),
                None => None::<Seq<char>>,
            };
            match starting_state {
                ServerState::Joined => {
                    assert(self.user_state@ =~~= m1.update(
                        ui as int,
                        UserModel {
                            state: ServerState::UsernameEntry,
                            prev_state: ServerState::Joined,
                            ..m1[ui as int]
                        },
                    ));
                },
                ServerState::UsernameEntry => {
                    match lv {
                        None => {
                            assert(self.user_state@ =~~= m1);
                        },
                        Some(l) => {
                            if l.len() <= 25 {
                                assert(self.user_state@ =~~= m1.update(
                                    ui as int,
                                    UserModel {
                                        name: crate::text::trim_spec(l),
                                        state: ServerState::LobbySelection,
                                        prev_state: ServerState::UsernameEntry,
                                        ..m1[ui as int]
                                    },
                                ));
                            } else {
                                assert(self.user_state@ =~~= m1.update(
                                    ui as int,
                                    UserModel {
                                        state: ServerState::InvalidInput,
                                        prev_state: ServerState::UsernameEntry,
                                        ..m1[ui as int]
                                    },
                                ));
                            }
                        },
                    }
                },
                ServerState::LobbySelection => {
                    assert(lobby_post(
                        m1[ui as int],
                        rs0,
                        lv,
                        UserModel {
                            prev_state: m1[ui as int].prev_state,
                            ..self.user_state@[ui as int]
                        },
                        self.game_rooms@,
                    ));
                },
                ServerState::InvalidInput => {
                    assert(self.user_state@ =~~= m1.update(
                        ui as int,
                        crate::game::track_prev(
                            UserModel { state: m1[ui as int].prev_state, ..m1[ui as int] },
                            ServerState::InvalidInput,
                        ),
                    ));
                },
                ServerState::InRoom => {
                    assert(crate::codenames::logic_post(
                        m1,
                        rs0,
                        session,
                        lv,
                        mmid,
                        self.game_rooms@,
                    ) && self.user_state@ == mmid.update(
                        ui as int,
                        track_prev(mmid[ui as int], ServerState::InRoom),
                    ));
                },
                ServerState::FatalError => {},
            }
            assert(client_step_post(
                m0,
                rs0,
                session,
                match line {
                    Some(l) => Some(l@),
                    None => None::<Seq<char>>,
                },
                true,
                self.user_state@,
                self.game_rooms@,
            ));
        }
        Ok(())
    }

    /// Cleans up after a dropped connection: the session leaves every room
    /// (each hears that it left) and its record is forgotten.
    pub fn client_disconnect(&mut self, session: u64)
        requires
            user_map_wf(old(self).user_state@),
            room_map_wf(old(self).game_rooms@),
        ensures
            user_map_wf(final(self).user_state@),
            room_map_wf(final(self).game_rooms@),
            ({
                let m0 = old(self).user_state@;
                if contains_id(m0, session) {
                    let i = crate::codenames::idx_of(m0, session);
                    exists|mmid: Seq<UserModel>|
                        {
                            &&& mmid.len() == m0.len()
                            &&& (forall|j: int| 0 <= j < m0.len() ==> #[trigger] mmid[j]
                                == crate::codenames::deliver_left(
                                m0[j],
                                old(self).game_rooms@,
                                session,
                                crate::codenames::user_with_id(m0, session).name,
                            ))
                            &&& final(self).user_state@ == mmid.remove(i)
                        }
                } else {
                    final(self).user_state@ == m0 && final(self).game_rooms@ == old(self).game_rooms@
                }
            }),
            contains_id(old(self).user_state@, session) ==> (forall|k: int|
                0 <= k < old(self).game_rooms@.len() ==> #[trigger] final(self).game_rooms@[k] == (
                match old(self).game_rooms@[k].game {
                    Some(g) => if g.players.contains(session) {
                        RoomEntryModel {
                            game: Some(crate::codenames::drop_member(g, session)),
                            ..old(self).game_rooms@[k]
                        }
                    } else {
                        old(self).game_rooms@[k]
                    },
                    None => old(self).game_rooms@[k],
                })),
    {
        let ghost m0 = self.user_state@;
        match self.user_state.find_user(session) {
            Some(ui) => {
                proof {
                    crate::codenames::lemma_user_index_is(m0, session, ui as int);
                    let i = crate::codenames::idx_of(m0, session);
                    if i != ui {
                        assert(false);
                    }
                }
                let ghost rsbefore = self.game_rooms@;
                crate::codenames::codenames_disconnect(
                    session,
                    &mut self.game_rooms,
                    &mut self.user_state,
                );
                proof {
                    assert forall|t: int|
                        0 <= t < self.game_rooms@.len() implies #[trigger] room_entry_ok(
                        self.game_rooms@[t],
                    ) by {
                        assert(room_entry_ok(rsbefore[t]));
                        match rsbefore[t].game {
                            Some(g) => {
                                if g.players.contains(session) {
                                    crate::codenames::lemma_drop_member_wf(g, session);
                                }
                            },
                            None => {},
                        }
                    }
                }
                let ghost mmid = self.user_state@;
                let ui2 = match self.user_state.find_user(session) {
                    Some(i) => i,
                    None => {
                        proof {
                            assert(mmid[ui as int].id == session);
                            assert(false);
                        }
                        return ;
                    },
                };
                proof {
                    if ui2 != ui {
                        assert(mmid[ui2 as int].id == mmid[ui as int].id);
                        assert(false);
                    }
                }
                let ghost upre = self.user_state.users@;
                self.user_state.users.remove(ui2);
                proof {
                    lemma_user_views_remove(upre, ui as int);
                    assert(self.user_state@ =~~= mmid.remove(ui as int));
                }
            },
            None => {},
        }
    }
}

proof fn lemma_user_views_remove(s: Seq<User>, i: int)
    requires
        0 <= i < s.len(),
    ensures
        s.remove(i).map_values(|x: User| x@) =~= s.map_values(|x: User| x@).remove(i),
{
    s.remove_ensures(i);
    s.map_values(|x: User| x@).remove_ensures(i);
}

} // verus!
