//! The room game engine: the hidden board, the alternating-turn state
//! machine, guess resolution, the chat/broadcast queues and the
//! prompt-refresh bookkeeping.
use vstd::multiset::Multiset;
use vstd::prelude::*;
use vstd::seq_lib::*;
use vstd::string::*;

use crate::cards::{
    board_wf, card_views, string_views, CardModel, ClueModel, CodenamesCard, CodenamesCardType,
    CodenamesClue, CodenamesPlayer, CodenamesRole, CodenamesState, CodenamesTeam, PlayerModel,
};
use crate::game::{contains_id, user_map_wf, User, UserMap, UserModel};
use crate::text::trim_spec;
use crate::text::trim_str;

verus! {

/// One running game: its phase, the sessions sitting in the room, both
/// scores, the guesses spent this turn, who flipped the assassin (if
/// anyone), the standing clue and the hidden board.
pub struct CodenamesRoom {
    pub state: CodenamesState,
    pub players: Vec<u64>,
    pub red_score: u32,
    pub blue_score: u32,
    pub guesses: u32,
    pub assassin_found_by: Option<CodenamesTeam>,
    pub clue: Option<CodenamesClue>,
    pub board: Vec<CodenamesCard>,
}

/// Mathematical image of a room.
#[verifier::ext_equal]
pub ghost struct RoomModel {
    pub state: CodenamesState,
    pub players: Seq<u64>,
    pub red: u32,
    pub blue: u32,
    pub guesses: u32,
    pub assassin: Option<CodenamesTeam>,
    pub clue: Option<ClueModel>,
    pub board: Seq<CardModel>,
}

impl View for CodenamesRoom {
    type V = RoomModel;

    open spec fn view(&self) -> RoomModel {
        RoomModel {
            state: self.state,
            players: self.players@,
            red: self.red_score,
            blue: self.blue_score,
            guesses: self.guesses,
            assassin: self.assassin_found_by,
            clue: match self.clue {
                Some(c) => Some(c@),
                None => None,
            },
            board: card_views(self.board@),
        }
    }
}

/// A well-formed room: its board is well formed and no session sits in it
/// twice.
pub open spec fn room_wf(r: RoomModel) -> bool {
    &&& board_wf(r.board)
    &&& r.players.no_duplicates()
}

/// The model of a freshly opened room holding the given board.
pub open spec fn fresh_room(board: Seq<CardModel>) -> RoomModel {
    RoomModel {
        state: CodenamesState::WaitingToStart,
        players: Seq::empty(),
        red: 0,
        blue: 0,
        guesses: 0,
        assassin: None,
        clue: None,
        board: board,
    }
}

impl CodenamesRoom {
    /// Renders this room's board as one viewer with the given team and
    /// role sees it; only the role decides what is revealed.
    pub fn get_board(&self, team: CodenamesTeam, role: CodenamesRole) -> (out: String)
        requires
            self.board@.len() == 25,
        ensures
            out@ == crate::render::board_text(self@.board, role),
    {
        let _ = team;
        crate::render::render_board(&self.board, role)
    }

    /// Opens a room around the given 25-card board, checking that the board
    /// is well formed; the room waits in the lobby phase with no members.
    pub fn with_board(board: Vec<CodenamesCard>) -> (r: Option<CodenamesRoom>)
        ensures
            r is Some <==> board_wf(card_views(board@)),
            match r {
                Some(room) => room@ == fresh_room(card_views(board@)),
                None => true,
            },
    {
        if !check_board(&board) {
            return None;
        }
        let room = CodenamesRoom {
            state: CodenamesState::WaitingToStart,
            players: Vec::new(),
            red_score: 0,
            blue_score: 0,
            guesses: 0,
            assassin_found_by: None,
            clue: None,
            board,
        };
        proof {
            assert(room@ =~= fresh_room(card_views(room.board@)));
        }
        Some(room)
    }
}

/// Counts how often a kind occurs among the first `n` cards.
#[verifier::loop_isolation(false)]
fn count_kind(board: &Vec<CodenamesCard>, kind: CodenamesCardType) -> (c: usize)
    ensures
        c == crate::cards::kinds_of(card_views(board@)).to_multiset().count(kind),
{
    broadcast use to_multiset_build;
    broadcast use vstd::multiset::group_multiset_axioms;

    let ghost ks = crate::cards::kinds_of(card_views(board@));
    let n = board.len();
    let mut c: usize = 0;
    let mut i: usize = 0;
    proof {
        assert(ks.subrange(0, 0) =~= Seq::<CodenamesCardType>::empty());
        lemma_kinds_multiset_empty(ks.subrange(0, 0));
    }
    while i < n
        invariant
            0 <= i <= n,
            n == ks.len(),
            c <= i,
            c == ks.subrange(0, i as int).to_multiset().count(kind),
        decreases n - i,
    {
        proof {
            assert(ks.subrange(0, i + 1) =~= ks.subrange(0, i as int).push(ks[i as int]));
            assert(ks[i as int] == board@[i as int]@.kind);
        }
        if board[i].card_type == kind {
            c = c + 1;
        }
        i = i + 1;
    }
    proof {
        assert(ks.subrange(0, n as int) =~= ks);
    }
    c
}

proof fn lemma_kinds_multiset_empty(s: Seq<CodenamesCardType>)
    requires
        s.len() == 0,
    ensures
        forall|k: CodenamesCardType| s.to_multiset().count(k) == 0,
{
    broadcast use to_multiset_contains;
    broadcast use vstd::multiset::group_multiset_axioms;

    assert forall|k: CodenamesCardType| s.to_multiset().count(k) == 0 by {
        assert(!s.contains(k));
    }
}

/// Whether every card word on the board is distinct.
#[verifier::loop_isolation(false)]
fn board_words_distinct(board: &Vec<CodenamesCard>) -> (r: bool)
    ensures
        r == crate::cards::words_of(card_views(board@)).no_duplicates(),
{
    let ghost ws = crate::cards::words_of(card_views(board@));
    let n = board.len();
    let mut i: usize = 0;
    while i < n
        invariant
            0 <= i <= n,
            n == ws.len(),
            forall|a: int, b: int| 0 <= a < b < i ==> ws[a] != ws[b],
        decreases n - i,
    {
        let mut j: usize = 0;
        while j < i
            invariant
                0 <= j <= i < n,
                forall|b: int| 0 <= b < j ==> ws[b] != ws[i as int],
            decreases i - j,
        {
            if board[j].word == board[i].word {
                assert(ws[j as int] == ws[i as int]);
                assert(!ws.no_duplicates());
                return false;
            }
            j = j + 1;
        }
        i = i + 1;
    }
    true
}

/// Whether the board meets the board invariant, checked at run time.
fn check_board(board: &Vec<CodenamesCard>) -> (r: bool)
    ensures
        r == board_wf(card_views(board@)),
{
    if board.len() != 25 {
        return false;
    }
    if count_kind(board, CodenamesCardType::RedAgent) != 9 {
        return false;
    }
    if count_kind(board, CodenamesCardType::BlueAgent) != 8 {
        return false;
    }
    if count_kind(board, CodenamesCardType::Bystander) != 7 {
        return false;
    }
    if count_kind(board, CodenamesCardType::Assassin) != 1 {
        return false;
    }
    board_words_distinct(board)
}

/// Whether the vector holds the given identity.
#[verifier::loop_isolation(false)]
pub(crate) fn contains_u64(v: &Vec<u64>, x: u64) -> (r: bool)
    ensures
        r == v@.contains(x),
{
    let n = v.len();
    let mut i: usize = 0;
    while i < n
        invariant
            0 <= i <= n,
            forall|j: int| 0 <= j < i ==> v@[j] != x,
        decreases n - i,
    {
        if v[i] == x {
            return true;
        }
        i = i + 1;
    }
    false
}

/// First board index whose word matches the guess exactly, if any.
pub open spec fn find_card_spec(b: Seq<CardModel>, w: Seq<char>) -> Option<int>
    decreases b.len(),
{
    if b.len() == 0 {
        None
    } else if b[0].word == w {
        Some(0)
    } else {
        match find_card_spec(b.drop_first(), w) {
            Some(i) => Some(i + 1),
            None => None,
        }
    }
}

proof fn lemma_find_card_at(b: Seq<CardModel>, w: Seq<char>, i: int)
    requires
        0 <= i <= b.len(),
        forall|j: int| 0 <= j < i ==> b[j].word != w,
        i < b.len() ==> b[i].word == w,
    ensures
        i < b.len() ==> find_card_spec(b, w) == Some(i),
        i == b.len() ==> find_card_spec(b, w) is None,
    decreases i,
{
    if i == 0 {
    } else {
        lemma_find_card_at(b.drop_first(), w, i - 1);
    }
}

/// Finds the card with the given name on the board.
#[verifier::loop_isolation(false)]
pub(crate) fn find_card(board: &Vec<CodenamesCard>, name: &str) -> (r: Option<usize>)
    ensures
        match r {
            Some(i) => i < board@.len() && card_views(board@)[i as int].word == name@
                && find_card_spec(card_views(board@), name@) == Some(i as int),
            None => find_card_spec(card_views(board@), name@) is None,
        },
{
    let ghost b = card_views(board@);
    let n = board.len();
    let mut i: usize = 0;
    while i < n
        invariant
            0 <= i <= n,
            n == b.len(),
            forall|j: int| 0 <= j < i ==> b[j].word != name@,
        decreases n - i,
    {
        if crate::text::str_eq(board[i].word.as_str(), name) {
            proof {
                lemma_find_card_at(b, name@, i as int);
            }
            return Some(i);
        }
        i = i + 1;
    }
    proof {
        lemma_find_card_at(b, name@, n as int);
    }
    None
}


/// Saturating bump used for scores and guess counts; the counters never
/// wrap and in any real game never reach the cap.
pub open spec fn inc_sat(x: u32) -> u32 {
    if x < 0xffffffffu32 {
        (x + 1) as u32
    } else {
        x
    }
}

fn inc_sat_exec(x: u32) -> (r: u32)
    ensures
        r == inc_sat(x),
{
    if x < 0xffffffff {
        x + 1
    } else {
        x
    }
}

/// The turn that follows the given team's turn.
pub open spec fn other_turn(team: CodenamesTeam) -> CodenamesState {
    if team == CodenamesTeam::Blue {
        CodenamesState::RedTurn
    } else {
        CodenamesState::BlueTurn
    }
}

/// Ends the acting team's turn: play passes to the other team and the guess
/// counter resets; if either winning score has been reached the game ends
/// instead.  Red hunts nine agents and blue eight, since red moves first.
pub open spec fn end_turn(room: RoomModel, team: CodenamesTeam) -> RoomModel {
    let sw = RoomModel { state: other_turn(team), guesses: 0, ..room };
    if room.red == 9 || room.blue == 8 {
        RoomModel { state: CodenamesState::GameEnd, ..sw }
    } else {
        sw
    }
}

/// Whether the guess counter has passed the clue's licensed count (one
/// extra guess is allowed: the turn ends strictly beyond the count).
pub open spec fn past_clue_limit(guesses: u32, count: i32) -> bool {
    guesses as int > count as int
}

/// What one room turn does: the room afterwards, the lines broadcast to
/// every member (in order), an optional chat line for the other members,
/// and whether every member's prompt must be re-rendered.
#[verifier::ext_equal]
pub ghost struct TurnOutcome {
    pub room: RoomModel,
    pub msgs: Seq<Seq<char>>,
    pub chat: Option<Seq<char>>,
    pub refresh: bool,
}

pub open spec fn guessed_msg(name: Seq<char>, guess: Seq<char>) -> Seq<char> {
    name + " Guessed "@ + guess + "\r\n"@
}

pub open spec fn invalid_card_msg(guess: Seq<char>) -> Seq<char> {
    guess + " is not a valid card name to guess\r\n"@
}

pub open spec fn clue_msg(word: Seq<char>, n: i32) -> Seq<char> {
    "Spymaster Clue: "@ + word + ", "@ + crate::text::int_str(n as int) + "\r\n"@
}

pub open spec fn chat_line_msg(name: Seq<char>, line: Seq<char>) -> Seq<char> {
    name + ": "@ + trim_spec(line)
}

/// The board with the card at `i` turned face up.
pub open spec fn flip_at(b: Seq<CardModel>, i: int) -> Seq<CardModel> {
    b.update(i, CardModel { flipped: true, ..b[i] })
}

/// A clue line split at its single comma: the clue word (kept as typed)
/// and the licensed guess count; nothing if the shape or number is wrong.
pub open spec fn clue_parse(line: Seq<char>) -> Option<(Seq<char>, i32)> {
    match crate::text::find_char_spec(line, ',') {
        Some(ci) => {
            let word = line.subrange(0, ci);
            let rest = line.subrange(ci + 1, line.len() as int);
            if crate::text::find_char_spec(rest, ',') is None {
                match crate::text::parse_i32_spec(trim_spec(rest)) {
                    Some(n) => Some((word, n)),
                    None => None,
                }
            } else {
                None
            }
        },
        None => None,
    }
}

/// Resolution of one guess by the acting team's teammate: the guess is
/// announced to the room, then the named card (if any) flips and scores.
pub open spec fn guess_outcome(
    team: CodenamesTeam,
    line: Seq<char>,
    name: Seq<char>,
    room: RoomModel,
) -> TurnOutcome {
    let guess = trim_spec(line.drop_first());
    let room1 = RoomModel { guesses: inc_sat(room.guesses), ..room };
    let gm = trim_spec(guessed_msg(name, guess));
    match find_card_spec(room.board, guess) {
        None => TurnOutcome {
            room: room1,
            msgs: seq![gm, trim_spec(invalid_card_msg(guess))],
            chat: None,
            refresh: false,
        },
        Some(ci) => {
            let card = room.board[ci];
            let room2 = RoomModel { board: flip_at(room1.board, ci), ..room1 };
            if card.kind == CodenamesCardType::Assassin {
                TurnOutcome {
                    room: RoomModel {
                        assassin: Some(team),
                        state: CodenamesState::GameEnd,
                        ..room2
                    },
                    msgs: seq![gm],
                    chat: None,
                    refresh: false,
                }
            } else {
                let room3 = if card.kind == CodenamesCardType::RedAgent {
                    RoomModel { red: inc_sat(room2.red), ..room2 }
                } else if card.kind == CodenamesCardType::BlueAgent {
                    RoomModel { blue: inc_sat(room2.blue), ..room2 }
                } else {
                    room2
                };
                let switch = (card.kind == CodenamesCardType::RedAgent && team
                    == CodenamesTeam::Blue) || (card.kind == CodenamesCardType::BlueAgent && team
                    == CodenamesTeam::Red) || card.kind == CodenamesCardType::Bystander || (
                room.clue is Some && past_clue_limit(room3.guesses, room.clue.unwrap().count));
                TurnOutcome {
                    room: if switch {
                        end_turn(room3, team)
                    } else {
                        room3
                    },
                    msgs: seq![gm],
                    chat: None,
                    refresh: true,
                }
            }
        },
    }
}

/// One line of input handled during the given team's turn, as a function of
/// the sender's overlay: the acting teammate guesses or ends the turn, the
/// acting spymaster sets the clue, everyone else chats.
pub open spec fn turn_step(
    team: CodenamesTeam,
    line: Seq<char>,
    sender: PlayerModel,
    name: Seq<char>,
    room: RoomModel,
) -> TurnOutcome {
    let unchanged = TurnOutcome { room, msgs: Seq::empty(), chat: None, refresh: false };
    if sender.team == team && sender.role == CodenamesRole::Teammate {
        if "!!"@.is_prefix_of(line) {
            if room.guesses > 0 {
                TurnOutcome { room: end_turn(room, team), msgs: Seq::empty(), chat: None, refresh: false }
            } else {
                unchanged
            }
        } else if "!"@.is_prefix_of(line) {
            guess_outcome(team, line, name, room)
        } else {
            unchanged
        }
    } else if sender.team == team && sender.role == CodenamesRole::Spymaster {
        match clue_parse(line) {
            Some((w, n)) => TurnOutcome {
                room: RoomModel { clue: Some(ClueModel { count: n, word: w }), ..room },
                msgs: seq![trim_spec(clue_msg(w, n))],
                chat: None,
                refresh: false,
            },
            None => unchanged,
        }
    } else {
        TurnOutcome { room, msgs: Seq::empty(), chat: Some(chat_line_msg(name, line)), refresh: false }
    }
}

/// How one session's record absorbs a turn outcome: members with an overlay
/// receive the broadcast lines in order, other members than the sender also
/// receive the chat line, and a refresh clears the prompt marker.
pub open spec fn deliver(
    u: UserModel,
    members: Seq<u64>,
    sender: u64,
    oc: TurnOutcome,
) -> UserModel {
    if u.player is Some && members.contains(u.id) {
        let p = u.player.unwrap();
        let q = p.queue + oc.msgs + (if oc.chat is Some && u.id != sender {
            seq![oc.chat.unwrap()]
        } else {
            Seq::empty()
        });
        UserModel {
            player: Some(
                PlayerModel {
                    queue: q,
                    shown: if oc.refresh {
                        None
                    } else {
                        p.shown
                    },
                    ..p
                },
            ),
            ..u
        }
    } else {
        u
    }
}

/// The map entry bearing the given session identity.
pub open spec fn user_with_id(m: Seq<UserModel>, id: u64) -> UserModel {
    m[choose|i: int| 0 <= i < m.len() && m[i].id == id]
}

pub proof fn lemma_user_index_is(m: Seq<UserModel>, id: u64, i: int)
    requires
        user_map_wf(m),
        0 <= i < m.len(),
        m[i].id == id,
    ensures
        user_with_id(m, id) == m[i],
{
    assert(exists|j: int| 0 <= j < m.len() && m[j].id == id);
    let j = choose|j: int| 0 <= j < m.len() && m[j].id == id;
    if i != j {
        assert(false);
    }
}

/// A session's overlay queue gets the (trimmed) line appended when the
/// session sits in the room and has an overlay.
pub open spec fn enqueue_member(u: UserModel, members: Seq<u64>, msg: Seq<char>) -> UserModel {
    if u.player is Some && members.contains(u.id) {
        let p = u.player.unwrap();
        UserModel { player: Some(PlayerModel { queue: p.queue.push(msg), ..p }), ..u }
    } else {
        u
    }
}

/// As `enqueue_member`, but the sending session is skipped.
pub open spec fn enqueue_other(
    u: UserModel,
    members: Seq<u64>,
    sender: u64,
    msg: Seq<char>,
) -> UserModel {
    if u.id != sender {
        enqueue_member(u, members, msg)
    } else {
        u
    }
}

/// The prompt marker cleared for members holding an overlay.
pub open spec fn clear_shown(u: UserModel, members: Seq<u64>) -> UserModel {
    if u.player is Some && members.contains(u.id) {
        let p = u.player.unwrap();
        UserModel { player: Some(PlayerModel { shown: None, ..p }), ..u }
    } else {
        u
    }
}

pub proof fn lemma_user_views_update(s: Seq<User>, i: int, u: User)
    requires
        0 <= i < s.len(),
    ensures
        s.update(i, u).map_values(|x: User| x@) =~= s.map_values(|x: User| x@).update(i, u@),
{
}

proof fn lemma_string_views_push(s: Seq<String>, x: String)
    ensures
        string_views(s.push(x)) =~= string_views(s).push(x@),
{
}

/// Appends the trimmed line to every room member's queue; members outside
/// the session map, and sessions with no overlay, are unaffected.
#[verifier::loop_isolation(false)]
fn broadcast_chat_everyone(chat_line: String, room: &CodenamesRoom, user_state_map: &mut UserMap)
    ensures
        final(user_state_map)@.len() == old(user_state_map)@.len(),
        forall|j: int| 0 <= j < old(user_state_map)@.len() ==> final(user_state_map)@[j]
            == enqueue_member(old(user_state_map)@[j], room.players@, trim_spec(chat_line@)),
{
    let msg = trim_str(chat_line.as_str());
    let n = user_state_map.users.len();
    let mut i: usize = 0;
    while i < n
        invariant
            0 <= i <= n,
            n == user_state_map@.len(),
            user_state_map@.len() == old(user_state_map)@.len(),
            forall|j: int| 0 <= j < i ==> user_state_map@[j] == enqueue_member(
                old(user_state_map)@[j],
                room.players@,
                trim_spec(chat_line@),
            ),
            forall|j: int| i <= j < n ==> user_state_map@[j] == old(user_state_map)@[j],
        decreases n - i,
    {
        let uid = user_state_map.users[i].session_id;
        let ghost pre = user_state_map.users@;
        if contains_u64(&room.players, uid) {
            match &mut user_state_map.users[i].player {
                Some(p) => {
                    let ghost qpre = p.chat_queue@;
                    p.chat_queue.push_back(msg.clone());
                    proof {
                        lemma_string_views_push(qpre, msg);
                    }
                },
                None => {},
            }
            proof {
                lemma_user_views_update(pre, i as int, user_state_map.users@[i as int]);
                assert(user_state_map@[i as int] =~~= enqueue_member(
                    old(user_state_map)@[i as int],
                    room.players@,
                    trim_spec(chat_line@),
                ));
                assert(forall|j: int|
                    0 <= j < n && j != i ==> user_state_map@[j] == pre.map_values(
                        |x: User| x@,
                    )[j]);
            }
        } else {
            proof {
                assert(user_state_map@[i as int] =~~= enqueue_member(
                    old(user_state_map)@[i as int],
                    room.players@,
                    trim_spec(chat_line@),
                ));
            }
        }
        i = i + 1;
    }
}

/// Appends the chat line, prefixed by the speaker's name, to every other
/// room member's queue; the speaker does not hear their own line again.
#[verifier::loop_isolation(false)]
fn broadcast_chat(
    user_addr: u64,
    user_name: String,
    chat_line: String,
    room: &CodenamesRoom,
    user_state_map: &mut UserMap,
)
    ensures
        final(user_state_map)@.len() == old(user_state_map)@.len(),
        forall|j: int| 0 <= j < old(user_state_map)@.len() ==> final(user_state_map)@[j]
            == enqueue_other(
            old(user_state_map)@[j],
            room.players@,
            user_addr,
            chat_line_msg(user_name@, chat_line@),
        ),
{
    let mut msg = user_name;
    msg.append(": ");
    let trimmed = trim_str(chat_line.as_str());
    msg.append(trimmed.as_str());
    let n = user_state_map.users.len();
    let mut i: usize = 0;
    while i < n
        invariant
            0 <= i <= n,
            n == user_state_map@.len(),
            user_state_map@.len() == old(user_state_map)@.len(),
            msg@ == chat_line_msg(user_name@, chat_line@),
            forall|j: int| 0 <= j < i ==> user_state_map@[j] == enqueue_other(
                old(user_state_map)@[j],
                room.players@,
                user_addr,
                chat_line_msg(user_name@, chat_line@),
            ),
            forall|j: int| i <= j < n ==> user_state_map@[j] == old(user_state_map)@[j],
        decreases n - i,
    {
        let uid = user_state_map.users[i].session_id;
        let ghost pre = user_state_map.users@;
        if uid != user_addr && contains_u64(&room.players, uid) {
            match &mut user_state_map.users[i].player {
                Some(p) => {
                    let ghost qpre = p.chat_queue@;
                    p.chat_queue.push_back(msg.clone());
                    proof {
                        lemma_string_views_push(qpre, msg);
                    }
                },
                None => {},
            }
            proof {
                lemma_user_views_update(pre, i as int, user_state_map.users@[i as int]);
                assert(user_state_map@[i as int] =~~= enqueue_other(
                    old(user_state_map)@[i as int],
                    room.players@,
                    user_addr,
                    chat_line_msg(user_name@, chat_line@),
                ));
            }
        } else {
            proof {
                assert(user_state_map@[i as int] =~~= enqueue_other(
                    old(user_state_map)@[i as int],
                    room.players@,
                    user_addr,
                    chat_line_msg(user_name@, chat_line@),
                ));
            }
        }
        i = i + 1;
    }
}

/// Clears every member's prompt marker, forcing the next prompt query to
/// re-render the room for them.
#[verifier::loop_isolation(false)]
fn refresh_prompt(room: &CodenamesRoom, user_state_map: &mut UserMap)
    ensures
        final(user_state_map)@.len() == old(user_state_map)@.len(),
        forall|j: int| 0 <= j < old(user_state_map)@.len() ==> final(user_state_map)@[j]
            == clear_shown(old(user_state_map)@[j], room.players@),
{
    let n = user_state_map.users.len();
    let mut i: usize = 0;
    while i < n
        invariant
            0 <= i <= n,
            n == user_state_map@.len(),
            user_state_map@.len() == old(user_state_map)@.len(),
            forall|j: int| 0 <= j < i ==> user_state_map@[j] == clear_shown(
                old(user_state_map)@[j],
                room.players@,
            ),
            forall|j: int| i <= j < n ==> user_state_map@[j] == old(user_state_map)@[j],
        decreases n - i,
    {
        let uid = user_state_map.users[i].session_id;
        let ghost pre = user_state_map.users@;
        if contains_u64(&room.players, uid) {
            match &mut user_state_map.users[i].player {
                Some(p) => {
                    p.state_prompted = None;
                },
                None => {},
            }
            proof {
                lemma_user_views_update(pre, i as int, user_state_map.users@[i as int]);
                assert(user_state_map@[i as int] =~~= clear_shown(
                    old(user_state_map)@[i as int],
                    room.players@,
                ));
            }
        } else {
            proof {
                assert(user_state_map@[i as int] =~~= clear_shown(
                    old(user_state_map)@[i as int],
                    room.players@,
                ));
            }
        }
        i = i + 1;
    }
}


proof fn lemma_card_views_update(s: Seq<CodenamesCard>, i: int, c: CodenamesCard)
    requires
        0 <= i < s.len(),
    ensures
        card_views(s.update(i, c)) =~= card_views(s).update(i, c@),
{
}

/// Passes the turn to the other team, resetting the guess counter, and
/// ends the game instead when either team has reached its winning score.
fn end_turn_exec(room: &mut CodenamesRoom, team: CodenamesTeam)
    ensures
        final(room)@ == end_turn(old(room)@, team),
{
    room.state = if team == CodenamesTeam::Blue {
        CodenamesState::RedTurn
    } else {
        CodenamesState::BlueTurn
    };
    room.guesses = 0;
    if room.red_score == 9 || room.blue_score == 8 {
        room.state = CodenamesState::GameEnd;
    }
    proof {
        assert(room@ =~~= end_turn(old(room)@, team));
    }
}

/// Handles one line of input while the given team is acting, exactly as
/// `turn_step` describes: the acting teammate may guess (`!word`) or end
/// the turn (`!!`), the acting spymaster may set a clue (`word,count`),
/// and everyone else chats to the rest of the room.
#[verifier::loop_isolation(false)]
pub fn turn_logic(
    team: CodenamesTeam,
    line: &Option<String>,
    user_state_map: &mut UserMap,
    room: &mut CodenamesRoom,
    user_addr: u64,
)
    requires
        user_map_wf(old(user_state_map)@),
        contains_id(old(user_state_map)@, user_addr),
        user_with_id(old(user_state_map)@, user_addr).player is Some,
    ensures
        final(user_state_map)@.len() == old(user_state_map)@.len(),
        ({
            let sender = user_with_id(old(user_state_map)@, user_addr);
            match line {
                Some(l) => {
                    let oc = turn_step(team, l@, sender.player.unwrap(), sender.name, old(room)@);
                    final(room)@ == oc.room && (forall|j: int|
                        0 <= j < old(user_state_map)@.len() ==> final(user_state_map)@[j]
                            == deliver(
                            old(user_state_map)@[j],
                            old(room)@.players,
                            user_addr,
                            oc,
                        ))
                },
                None => final(room)@ == old(room)@ && final(user_state_map)@ == old(
                    user_state_map,
                )@,
            }
        }),
{
    let l = match line {
        Some(l) => l,
        None => {
            return ;
        },
    };
    let ghost m0 = user_state_map@;
    let ghost r0 = room@;
    let ghost sender = user_with_id(m0, user_addr);
    let si = match user_state_map.find_user(user_addr) {
        Some(i) => i,
        None => {
            proof {
                assert(false);
            }
            return ;
        },
    };
    proof {
        lemma_user_index_is(m0, user_addr, si as int);
    }
    let (pteam, prole) = match &user_state_map.users[si].player {
        Some(p) => (p.team, p.role),
        None => {
            proof {
                assert(false);
            }
            (CodenamesTeam::Floating, CodenamesRole::Spectator)
        },
    };
    let user_name = user_state_map.users[si].user_name.clone();
    let ghost oc = turn_step(team, l@, sender.player.unwrap(), sender.name, r0);
    proof {
        reveal_strlit("!");
        reveal_strlit("!!");
    }
    if pteam == team && prole == CodenamesRole::Teammate {
        if crate::text::starts_with_str(l.as_str(), "!!") {
            if room.guesses > 0 {
                end_turn_exec(room, team);
            }
            proof {
                assert(room@ =~~= oc.room);
                assert forall|j: int| 0 <= j < m0.len() implies user_state_map@[j] == deliver(
                    m0[j],
                    r0.players,
                    user_addr,
                    oc,
                ) by {
                    assert(user_state_map@[j] =~~= deliver(m0[j], r0.players, user_addr, oc));
                }
            }
        } else if crate::text::starts_with_str(l.as_str(), "!") {
            // a guess: announce it, then flip and resolve the named card
            room.guesses = inc_sat_exec(room.guesses);
            let llen = l.as_str().unicode_len();
            let guess = trim_str(l.as_str().substring_char(1, llen));
            proof {
                assert(l@.subrange(1, llen as int) =~= l@.drop_first());
            }
            let mut gm = user_name.clone();
            gm.append(" Guessed ");
            gm.append(guess.as_str());
            gm.append("\r\n");
            proof {
                assert(gm@ == guessed_msg(sender.name, guess@));
            }
            broadcast_chat_everyone(gm, &*room, user_state_map);
            let ghost m1 = user_state_map@;
            match find_card(&room.board, guess.as_str()) {
                Some(ci) => {
                    let ghost board_pre = room.board@;
                    let card = &mut room.board[ci];
                    card.flipped = true;
                    proof {
                        lemma_card_views_update(board_pre, ci as int, room.board@[ci as int]);
                    }
                    let mut switch_turn = false;
                    let mut ended = false;
                    match room.board[ci].card_type {
                        CodenamesCardType::RedAgent => {
                            room.red_score = inc_sat_exec(room.red_score);
                            if team == CodenamesTeam::Blue {
                                switch_turn = true;
                            }
                        },
                        CodenamesCardType::BlueAgent => {
                            room.blue_score = inc_sat_exec(room.blue_score);
                            if team == CodenamesTeam::Red {
                                switch_turn = true;
                            }
                        },
                        CodenamesCardType::Bystander => {
                            switch_turn = true;
                        },
                        CodenamesCardType::Assassin => {
                            room.assassin_found_by = Some(team);
                            room.state = CodenamesState::GameEnd;
                            ended = true;
                        },
                    }
                    if ended {
                        proof {
                            assert(room@ =~~= oc.room);
                            assert forall|j: int| 0 <= j < m0.len() implies user_state_map@[j]
                                == deliver(m0[j], r0.players, user_addr, oc) by {
                                assert(user_state_map@[j] =~~= deliver(
                                    m0[j],
                                    r0.players,
                                    user_addr,
                                    oc,
                                ));
                            }
                        }
                        return ;
                    }
                    match &room.clue {
                        Some(clue) => {
                            if clue.cards_to_match < 0 || room.guesses > (clue.cards_to_match
                                as u32) {
                                switch_turn = true;
                            }
                        },
                        None => {},
                    }
                    if switch_turn {
                        end_turn_exec(room, team);
                    }
                    refresh_prompt(&*room, user_state_map);
                    proof {
                        assert(room@ =~~= oc.room);
                        assert forall|j: int| 0 <= j < m0.len() implies user_state_map@[j]
                            == deliver(m0[j], r0.players, user_addr, oc) by {
                            assert(m1[j] == enqueue_member(
                                m0[j],
                                r0.players,
                                trim_spec(guessed_msg(sender.name, trim_spec(l@.drop_first()))),
                            ));
                            assert(user_state_map@[j] =~~= deliver(
                                m0[j],
                                r0.players,
                                user_addr,
                                oc,
                            ));
                        }
                    }
                },
                None => {
                    let mut im = guess.clone();
                    im.append(" is not a valid card name to guess\r\n");
                    proof {
                        assert(im@ == invalid_card_msg(guess@));
                    }
                    broadcast_chat_everyone(im, &*room, user_state_map);
                    proof {
                        assert(room@ =~~= oc.room);
                        assert forall|j: int| 0 <= j < m0.len() implies user_state_map@[j]
                            == deliver(m0[j], r0.players, user_addr, oc) by {
                            assert(m1[j] == enqueue_member(
                                m0[j],
                                r0.players,
                                trim_spec(guessed_msg(sender.name, trim_spec(l@.drop_first()))),
                            ));
                            assert(user_state_map@[j] =~~= deliver(
                                m0[j],
                                r0.players,
                                user_addr,
                                oc,
                            ));
                        }
                    }
                },
            }
        } else {
            proof {
                assert(room@ =~~= oc.room);
                assert forall|j: int| 0 <= j < m0.len() implies user_state_map@[j] == deliver(
                    m0[j],
                    r0.players,
                    user_addr,
                    oc,
                ) by {
                    assert(user_state_map@[j] =~~= deliver(m0[j], r0.players, user_addr, oc));
                }
            }
        }
    } else if pteam == team && prole == CodenamesRole::Spymaster {
        // the acting spymaster's line must read `word,count`
        let lstr = l.as_str();
        let llen = lstr.unicode_len();
        let mut parsed: Option<(String, i32)> = None;
        match crate::text::find_char(lstr, ',') {
            Some(ci) => {
                let word = lstr.substring_char(0, ci);
                let rest = lstr.substring_char(ci + 1, llen);
                match crate::text::find_char(rest, ',') {
                    None => {
                        let trimmed = trim_str(rest);
                        match crate::text::parse_i32(trimmed.as_str()) {
                            Some(n) => {
                                parsed = Some((String::from_str(word), n));
                            },
                            None => {},
                        }
                    },
                    Some(_) => {},
                }
            },
            None => {},
        }
        match parsed {
            Some((word, n)) => {
                proof {
                    assert(clue_parse(l@) == Some((word@, n)));
                }
                let mut cm = String::from_str("Spymaster Clue: ");
                cm.append(word.as_str());
                cm.append(", ");
                let ns = crate::text::i32_to_string(n);
                cm.append(ns.as_str());
                cm.append("\r\n");
                proof {
                    assert(cm@ == clue_msg(word@, n));
                }
                room.clue = Some(CodenamesClue { cards_to_match: n, clue: word });
                broadcast_chat_everyone(cm, &*room, user_state_map);
                proof {
                    assert(room@ =~~= oc.room);
                    assert forall|j: int| 0 <= j < m0.len() implies user_state_map@[j] == deliver(
                        m0[j],
                        r0.players,
                        user_addr,
                        oc,
                    ) by {
                        assert(user_state_map@[j] =~~= deliver(m0[j], r0.players, user_addr, oc));
                    }
                }
            },
            None => {
                proof {
                    assert(clue_parse(l@) is None);
                    assert(room@ =~~= oc.room);
                    assert forall|j: int| 0 <= j < m0.len() implies user_state_map@[j] == deliver(
                        m0[j],
                        r0.players,
                        user_addr,
                        oc,
                    ) by {
                        assert(user_state_map@[j] =~~= deliver(m0[j], r0.players, user_addr, oc));
                    }
                }
            },
        }
    } else {
        // everyone else: the line is chat for the rest of the room
        broadcast_chat(user_addr, user_name, l.clone(), &*room, user_state_map);
        proof {
            assert(room@ =~~= oc.room);
            assert forall|j: int| 0 <= j < m0.len() implies user_state_map@[j] == deliver(
                m0[j],
                r0.players,
                user_addr,
                oc,
            ) by {
                assert(user_state_map@[j] =~~= deliver(m0[j], r0.players, user_addr, oc));
            }
        }
    }
}


/// Whether this session record fills the given (team, role) slot for the
/// room: it sits in the room and its overlay carries exactly that pair.
pub open spec fn is_pair(
    u: UserModel,
    members: Seq<u64>,
    team: CodenamesTeam,
    role: CodenamesRole,
) -> bool {
    &&& members.contains(u.id)
    &&& u.player is Some
    &&& u.player.unwrap().team == team
    &&& u.player.unwrap().role == role
}

/// Whether some member of the room holds the given (team, role) pair.
pub open spec fn has_pair(
    m: Seq<UserModel>,
    members: Seq<u64>,
    team: CodenamesTeam,
    role: CodenamesRole,
) -> bool {
    exists|i: int| 0 <= i < m.len() && is_pair(m[i], members, team, role)
}

/// The game may start only when each of red and blue has at least one
/// spymaster and at least one teammate among the room's members.
pub open spec fn room_ready(m: Seq<UserModel>, members: Seq<u64>) -> bool {
    &&& has_pair(m, members, CodenamesTeam::Red, CodenamesRole::Spymaster)
    &&& has_pair(m, members, CodenamesTeam::Red, CodenamesRole::Teammate)
    &&& has_pair(m, members, CodenamesTeam::Blue, CodenamesRole::Spymaster)
    &&& has_pair(m, members, CodenamesTeam::Blue, CodenamesRole::Teammate)
}

/// Checks readiness: both teams must field a spymaster and a teammate.
#[verifier::loop_isolation(false)]
pub fn verify_room(room: &CodenamesRoom, user_state_map: &UserMap) -> (r: bool)
    ensures
        r == room_ready(user_state_map@, room.players@),
{
    let ghost m = user_state_map@;
    let n = user_state_map.users.len();
    let mut red_spy = false;
    let mut red_team = false;
    let mut blue_spy = false;
    let mut blue_team = false;
    let mut i: usize = 0;
    while i < n
        invariant
            0 <= i <= n,
            n == m.len(),
            red_spy == (exists|k: int|
                0 <= k < i && is_pair(m[k], room.players@, CodenamesTeam::Red, CodenamesRole::Spymaster)),
            red_team == (exists|k: int|
                0 <= k < i && is_pair(m[k], room.players@, CodenamesTeam::Red, CodenamesRole::Teammate)),
            blue_spy == (exists|k: int|
                0 <= k < i && is_pair(m[k], room.players@, CodenamesTeam::Blue, CodenamesRole::Spymaster)),
            blue_team == (exists|k: int|
                0 <= k < i && is_pair(m[k], room.players@, CodenamesTeam::Blue, CodenamesRole::Teammate)),
        decreases n - i,
    {
        let uid = user_state_map.users[i].session_id;
        if contains_u64(&room.players, uid) {
            match &user_state_map.users[i].player {
                Some(p) => {
                    if p.team == CodenamesTeam::Red && p.role == CodenamesRole::Spymaster {
                        red_spy = true;
                        assert(is_pair(m[i as int], room.players@, CodenamesTeam::Red, CodenamesRole::Spymaster));
                    }
                    if p.team == CodenamesTeam::Red && p.role == CodenamesRole::Teammate {
                        red_team = true;
                        assert(is_pair(m[i as int], room.players@, CodenamesTeam::Red, CodenamesRole::Teammate));
                    }
                    if p.team == CodenamesTeam::Blue && p.role == CodenamesRole::Spymaster {
                        blue_spy = true;
                        assert(is_pair(m[i as int], room.players@, CodenamesTeam::Blue, CodenamesRole::Spymaster));
                    }
                    if p.team == CodenamesTeam::Blue && p.role == CodenamesRole::Teammate {
                        blue_team = true;
                        assert(is_pair(m[i as int], room.players@, CodenamesTeam::Blue, CodenamesRole::Teammate));
                    }
                },
                None => {},
            }
        }
        i = i + 1;
    }
    red_spy && red_team && blue_spy && blue_team
}

/// Turn-switch law: while red acts, flipping a blue agent raises blue's
/// score and passes the turn, while flipping a red agent raises red's
/// score and (inside the clue limit, short of the winning score) keeps
/// red acting.
pub proof fn lemma_turn_switch(room: RoomModel, line: Seq<char>, sender: PlayerModel, name: Seq<char>, ci: int)
    requires
        room.state == CodenamesState::RedTurn,
        sender.team == CodenamesTeam::Red,
        sender.role == CodenamesRole::Teammate,
        "!"@.is_prefix_of(line),
        !"!!"@.is_prefix_of(line),
        find_card_spec(room.board, trim_spec(line.drop_first())) == Some(ci),
        0 <= ci < room.board.len(),
    ensures
        room.board[ci].kind == CodenamesCardType::BlueAgent ==> {
            let oc = turn_step(CodenamesTeam::Red, line, sender, name, room);
            oc.room.blue == inc_sat(room.blue) && oc.room.state == (if inc_sat(room.blue) == 8 || room.red == 9 {
                CodenamesState::GameEnd
            } else {
                CodenamesState::BlueTurn
            })
        },
        (room.board[ci].kind == CodenamesCardType::RedAgent && inc_sat(room.red) != 9 && room.blue
            != 8 && (room.clue is Some ==> !past_clue_limit(
            inc_sat(room.guesses),
            room.clue.unwrap().count,
        ))) ==> {
            let oc = turn_step(CodenamesTeam::Red, line, sender, name, room);
            oc.room.red == inc_sat(room.red) && oc.room.state == CodenamesState::RedTurn
        },
{
}

/// Guess-limit law: a correct guess beyond the clue's licensed count still
/// ends the acting team's turn.
pub proof fn lemma_guess_limit(room: RoomModel, line: Seq<char>, sender: PlayerModel, name: Seq<char>, ci: int)
    requires
        room.state == CodenamesState::RedTurn,
        sender.team == CodenamesTeam::Red,
        sender.role == CodenamesRole::Teammate,
        "!"@.is_prefix_of(line),
        !"!!"@.is_prefix_of(line),
        find_card_spec(room.board, trim_spec(line.drop_first())) == Some(ci),
        0 <= ci < room.board.len(),
        room.board[ci].kind == CodenamesCardType::RedAgent,
        room.clue is Some,
        past_clue_limit(inc_sat(room.guesses), room.clue.unwrap().count),
    ensures
        ({
            let oc = turn_step(CodenamesTeam::Red, line, sender, name, room);
            oc.room.state != CodenamesState::RedTurn && oc.room.guesses == 0
        }),
{
}

/// Assassin law: whatever the scores, the acting team flipping the
/// assassin ends the game at once and marks that team as its finder.
pub proof fn lemma_assassin_terminal(room: RoomModel, line: Seq<char>, sender: PlayerModel, name: Seq<char>, team: CodenamesTeam, ci: int)
    requires
        sender.team == team,
        sender.role == CodenamesRole::Teammate,
        "!"@.is_prefix_of(line),
        !"!!"@.is_prefix_of(line),
        find_card_spec(room.board, trim_spec(line.drop_first())) == Some(ci),
        0 <= ci < room.board.len(),
        room.board[ci].kind == CodenamesCardType::Assassin,
    ensures
        ({
            let oc = turn_step(team, line, sender, name, room);
            oc.room.state == CodenamesState::GameEnd && oc.room.assassin == Some(team)
        }),
{
}

/// Win-threshold law: at a turn switch, red having reached 9 or blue 8
/// forces the game to end rather than passing the turn.
pub proof fn lemma_win_threshold(room: RoomModel, team: CodenamesTeam)
    requires
        room.red == 9 || room.blue == 8,
    ensures
        end_turn(room, team).state == CodenamesState::GameEnd,
{
}


pub open spec fn left_msg(name: Seq<char>) -> Seq<char> {
    name + " has left the game!"@
}

/// A room after one session leaves it: the first occurrence of the session
/// among the members is dropped.
pub open spec fn drop_member(g: RoomModel, addr: u64) -> RoomModel {
    RoomModel { players: g.players.remove_value(addr), ..g }
}

/// How many of the rooms hold both the leaving session and the given one:
/// that many leave notices land in the latter's queue.
pub open spec fn rooms_with_both(
    rooms: Seq<crate::game::RoomEntryModel>,
    addr: u64,
    uid: u64,
) -> nat
    decreases rooms.len(),
{
    if rooms.len() == 0 {
        0
    } else {
        let here: nat = match rooms[0].game {
            Some(g) => if g.players.contains(addr) && g.players.contains(uid) {
                1
            } else {
                0
            },
            None => 0,
        };
        here + rooms_with_both(rooms.drop_first(), addr, uid)
    }
}

/// A session record after the disconnect sweep: the leave notice arrives
/// once for every shared room.
pub open spec fn deliver_left(
    u: UserModel,
    rooms: Seq<crate::game::RoomEntryModel>,
    addr: u64,
    name: Seq<char>,
) -> UserModel {
    if u.player is Some {
        let p = u.player.unwrap();
        UserModel {
            player: Some(
                PlayerModel {
                    queue: p.queue + Seq::new(
                        rooms_with_both(rooms, addr, u.id),
                        |i: int| trim_spec(left_msg(name)),
                    ),
                    ..p
                },
            ),
            ..u
        }
    } else {
        u
    }
}

/// Removes the value from the vector's first position holding it.
#[verifier::loop_isolation(false)]
fn remove_value_u64(v: &mut Vec<u64>, x: u64)
    ensures
        final(v)@ == old(v)@.remove_value(x),
{
    let n = v.len();
    let mut i: usize = 0;
    while i < n
        invariant
            0 <= i <= n,
            n == v@.len(),
            v@ == old(v)@,
            forall|j: int| 0 <= j < i ==> v@[j] != x,
        decreases n - i,
    {
        if v[i] == x {
            v.remove(i);
            proof {
                assert(old(v)@.index_of_first(x) == Some(i as int)) by {
                    old(v)@.index_of_first_ensures(x);
                    if old(v)@.index_of_first(x) is None {
                        assert(false);
                    }
                }
                old(v)@.index_of_first_ensures(x);
            }
            return ;
        }
        i = i + 1;
    }
    proof {
        assert(!old(v)@.contains(x));
        old(v)@.index_of_first_ensures(x);
        if old(v)@.index_of_first(x) is Some {
            assert(false);
        }
    }
}

/// Sweeps every room after a session disconnects: the session leaves each
/// room it sat in, and each such room hears that it left.  The session's
/// own record stays; the caller removes it from the session map.
#[verifier::loop_isolation(false)]
pub fn codenames_disconnect(
    addr: u64,
    game_rooms: &mut crate::game::RoomMap,
    user_state_map: &mut UserMap,
)
    requires
        contains_id(old(user_state_map)@, addr),
        user_map_wf(old(user_state_map)@),
    ensures
        final(user_state_map)@.len() == old(user_state_map)@.len(),
        final(game_rooms)@.len() == old(game_rooms)@.len(),
        ({
            let name = user_with_id(old(user_state_map)@, addr).name;
            &&& (forall|k: int| 0 <= k < old(game_rooms)@.len() ==> final(game_rooms)@[k] == (
            match old(game_rooms)@[k].game {
                Some(g) => if g.players.contains(addr) {
                    crate::game::RoomEntryModel {
                        game: Some(drop_member(g, addr)),
                        ..old(game_rooms)@[k]
                    }
                } else {
                    old(game_rooms)@[k]
                },
                None => old(game_rooms)@[k],
            }))
            &&& (forall|j: int| 0 <= j < old(user_state_map)@.len() ==> final(user_state_map)@[j]
                == deliver_left(old(user_state_map)@[j], old(game_rooms)@, addr, name))
        }),
{
    let ghost m0 = user_state_map@;
    let ghost rs0 = game_rooms@;
    let ghost name = user_with_id(m0, addr).name;
    let si = match user_state_map.find_user(addr) {
        Some(i) => i,
        None => {
            proof {
                assert(false);
            }
            return ;
        },
    };
    proof {
        lemma_user_index_is(m0, addr, si as int);
    }
    let user_name = user_state_map.users[si].user_name.clone();
    let n = game_rooms.rooms.len();
    let mut k: usize = 0;
    while k < n
        invariant
            0 <= k <= n,
            n == game_rooms@.len(),
            game_rooms@.len() == rs0.len(),
            user_state_map@.len() == m0.len(),
            user_name@ == name,
            forall|t: int| k <= t < n ==> game_rooms@[t] == rs0[t],
            forall|t: int| 0 <= t < k ==> game_rooms@[t] == (match rs0[t].game {
                Some(g) => if g.players.contains(addr) {
                    crate::game::RoomEntryModel { game: Some(drop_member(g, addr)), ..rs0[t] }
                } else {
                    rs0[t]
                },
                None => rs0[t],
            }),
            forall|j: int| 0 <= j < m0.len() ==> user_state_map@[j] == deliver_left(
                m0[j],
                rs0.subrange(0, k as int),
                addr,
                name,
            ),
        decreases n - k,
    {
        proof {
            assert(rs0.subrange(0, k + 1).drop_last() =~= rs0.subrange(0, k as int));
        }
        let ghost rooms_pre = game_rooms.rooms@;
        let ghost mpre = user_state_map@;
        let mut touched = false;
        match &mut game_rooms.rooms[k].room.impl_room {
            Some(room) => {
                if contains_u64(&room.players, addr) {
                    let mut lm = user_name.clone();
                    lm.append(" has left the game!");
                    proof {
                        assert(lm@ == left_msg(name));
                    }
                    broadcast_chat_everyone(lm, &*room, user_state_map);
                    remove_value_u64(&mut room.players, addr);
                    touched = true;
                }
            },
            None => {},
        }
        k = k + 1;
        proof {
            crate::game::lemma_room_views_update(
                rooms_pre,
                k - 1,
                game_rooms.rooms@[k - 1],
            );
            assert(game_rooms@[k - 1] =~~= (match rs0[k - 1].game {
                Some(g) => if g.players.contains(addr) {
                    crate::game::RoomEntryModel { game: Some(drop_member(g, addr)), ..rs0[k - 1] }
                } else {
                    rs0[k - 1]
                },
                None => rs0[k - 1],
            }));
            assert(forall|t: int| 0 <= t < k - 1 ==> game_rooms@[t] == rooms_pre.map_values(
                |x: crate::game::RoomEntry| x@,
            )[t]);
            assert forall|j: int| 0 <= j < m0.len() implies user_state_map@[j] == deliver_left(
                m0[j],
                rs0.subrange(0, k as int),
                addr,
                name,
            ) by {
                lemma_rooms_with_both_snoc(rs0.subrange(0, k as int), addr, m0[j].id);
                assert(user_state_map@[j] =~~= deliver_left(
                    m0[j],
                    rs0.subrange(0, k as int),
                    addr,
                    name,
                ));
            }
        }
    }
    proof {
        assert(rs0.subrange(0, n as int) =~= rs0);
    }
}

proof fn lemma_rooms_with_both_snoc(rooms: Seq<crate::game::RoomEntryModel>, addr: u64, uid: u64)
    requires
        rooms.len() > 0,
    ensures
        rooms_with_both(rooms, addr, uid) == rooms_with_both(rooms.drop_last(), addr, uid) + (
        match rooms.last().game {
            Some(g) => if g.players.contains(addr) && g.players.contains(uid) {
                1nat
            } else {
                0nat
            },
            None => 0nat,
        }),
    decreases rooms.len(),
{
    reveal_with_fuel(rooms_with_both, 3);
    if rooms.len() == 1 {
        assert(rooms.drop_first().len() == 0);
        assert(rooms.drop_last().len() == 0);
        assert(rooms[0] == rooms.last());
    } else {
        lemma_rooms_with_both_snoc(rooms.drop_first(), addr, uid);
        assert(rooms.drop_first().drop_last() =~= rooms.drop_last().drop_first());
        assert(rooms.drop_first().last() == rooms.last());
        assert(rooms.drop_last()[0] == rooms[0]);
    }
}


/// The overlay a session gets when it first touches a room.
pub open spec fn default_player() -> PlayerModel {
    PlayerModel {
        team: CodenamesTeam::Floating,
        role: CodenamesRole::Spectator,
        queue: Seq::empty(),
        shown: None,
    }
}

/// The session record with its overlay defaulted if it had none.
pub open spec fn init_player(u: UserModel) -> UserModel {
    if u.player is Some {
        u
    } else {
        UserModel { player: Some(default_player()), ..u }
    }
}

/// The room with the session among its members.
pub open spec fn join_room(g: RoomModel, uid: u64) -> RoomModel {
    if g.players.contains(uid) {
        g
    } else {
        RoomModel { players: g.players.push(uid), ..g }
    }
}

/// A just-dealt board: well formed and fully face down.
pub open spec fn fresh_board_ok(b: Seq<CardModel>) -> bool {
    board_wf(b) && (forall|i: int| 0 <= i < b.len() ==> !(#[trigger] b[i]).flipped)
}

/// Makes sure the session has an overlay and its room has a live game,
/// dealing a fresh board on the room's first touch; hands back the room's
/// registry index, or pushes the session into the fatal state when its room
/// key dangles.
#[verifier::loop_isolation(false)]
pub fn initialize_user_board(
    ui: usize,
    user_state_map: &mut UserMap,
    game_rooms: &mut crate::game::RoomMap,
) -> (r: Result<usize, ()>)
    requires
        ui < old(user_state_map)@.len(),
        user_map_wf(old(user_state_map)@),
        crate::game::room_map_wf(old(game_rooms)@),
    ensures
        user_map_wf(final(user_state_map)@),
        crate::game::room_map_wf(final(game_rooms)@),
        final(user_state_map)@.len() == old(user_state_map)@.len(),
        final(game_rooms)@.len() == old(game_rooms)@.len(),
        forall|j: int| 0 <= j < old(user_state_map)@.len() && j != ui ==> final(user_state_map)@[j]
            == old(user_state_map)@[j],
        ({
            let u0 = old(user_state_map)@[ui as int];
            match r {
                Ok(ri) => {
                    &&& final(user_state_map)@[ui as int] == init_player(u0)
                    &&& ri < old(game_rooms)@.len()
                    &&& u0.room_key == Some(old(game_rooms)@[ri as int].id)
                    &&& (forall|t: int|
                        0 <= t < old(game_rooms)@.len() && t != ri
                            ==> #[trigger] final(game_rooms)@[t] == old(game_rooms)@[t])
                    &&& final(game_rooms)@[ri as int].id == old(game_rooms)@[ri as int].id
                    &&& final(game_rooms)@[ri as int].name == old(game_rooms)@[ri as int].name
                    &&& match old(game_rooms)@[ri as int].game {
                        Some(g0) => final(game_rooms)@[ri as int].game == Some(
                            join_room(g0, u0.id),
                        ),
                        None => {
                            let g1 = final(game_rooms)@[ri as int].game;
                            &&& g1 is Some
                            &&& g1.unwrap().state == CodenamesState::WaitingToStart
                            &&& g1.unwrap().players == seq![u0.id]
                            &&& g1.unwrap().red == 0 && g1.unwrap().blue == 0 && g1.unwrap().guesses
                                == 0
                            &&& g1.unwrap().assassin is None && g1.unwrap().clue is None
                            &&& fresh_board_ok(g1.unwrap().board)
                        },
                    }
                },
                Err(_) => {
                    &&& final(user_state_map)@[ui as int] == (UserModel {
                        state: crate::game::ServerState::FatalError,
                        ..init_player(u0)
                    })
                    &&& final(game_rooms)@ == old(game_rooms)@
                },
            }
        }),
        r is Ok <==> ({
            let u0 = old(user_state_map)@[ui as int];
            &&& u0.room_key is Some
            &&& crate::game::contains_room(old(game_rooms)@, u0.room_key.unwrap())
            &&& (crate::game::room_with_id(old(game_rooms)@, u0.room_key.unwrap()).game is Some
                || crate::cards::default_words_ok())
        }),
{
    let ghost m0 = user_state_map@;
    let ghost rs0 = game_rooms@;
    let ghost upre = user_state_map@[ui as int];
    let needs_player = match &user_state_map.users[ui].player {
        Some(_) => false,
        None => true,
    };
    if needs_player {
        let ghost pre = user_state_map.users@;
        user_state_map.users[ui].player = Some(CodenamesPlayer::default());
        proof {
            lemma_user_views_update(pre, ui as int, user_state_map.users@[ui as int]);
            assert(user_state_map@[ui as int] =~~= init_player(upre));
        }
    }
    let key = match user_state_map.users[ui].game_room_key {
        Some(k) => k,
        None => {
            let ghost pre = user_state_map.users@;
            user_state_map.users[ui].state = crate::game::ServerState::FatalError;
            proof {
                lemma_user_views_update(pre, ui as int, user_state_map.users@[ui as int]);
                assert(user_state_map@[ui as int] =~~= (UserModel {
                    state: crate::game::ServerState::FatalError,
                    ..init_player(upre)
                }));
            }
            return Err(());
        },
    };
    let ri = match game_rooms.find_room(key) {
        Some(ri) => ri,
        None => {
            let ghost pre = user_state_map.users@;
            user_state_map.users[ui].state = crate::game::ServerState::FatalError;
            proof {
                lemma_user_views_update(pre, ui as int, user_state_map.users@[ui as int]);
                assert(user_state_map@[ui as int] =~~= (UserModel {
                    state: crate::game::ServerState::FatalError,
                    ..init_player(upre)
                }));
            }
            return Err(());
        },
    };
    proof {
        crate::game::lemma_room_index_is(rs0, key, ri as int);
    }
    let uid = user_state_map.users[ui].session_id;
    let has_game = match &game_rooms.rooms[ri].room.impl_room {
        Some(_) => true,
        None => false,
    };
    if !has_game {
        match crate::cards::gen_board(crate::cards::default_words()) {
            Some(board) => {
                let mut players: Vec<u64> = Vec::new();
                players.push(uid);
                let ghost rpre = game_rooms.rooms@;
                game_rooms.rooms[ri].room.impl_room = Some(
                    CodenamesRoom {
                        state: CodenamesState::WaitingToStart,
                        players,
                        red_score: 0,
                        blue_score: 0,
                        guesses: 0,
                        assassin_found_by: None,
                        clue: None,
                        board,
                    },
                );
                proof {
                    crate::game::lemma_room_views_update(
                        rpre,
                        ri as int,
                        game_rooms.rooms@[ri as int],
                    );
                    let g1 = game_rooms@[ri as int].game;
                    assert(g1.unwrap().players =~= seq![upre.id]);
                    assert forall|t: int|
                        0 <= t < game_rooms@.len() implies #[trigger] crate::game::room_entry_ok(
                        game_rooms@[t],
                    ) by {
                        assert(crate::game::room_entry_ok(rs0[t]));
                    }
                }
                Ok(ri)
            },
            None => {
                let ghost pre = user_state_map.users@;
                user_state_map.users[ui].state = crate::game::ServerState::FatalError;
                proof {
                    lemma_user_views_update(pre, ui as int, user_state_map.users@[ui as int]);
                    assert(user_state_map@[ui as int] =~~= (UserModel {
                        state: crate::game::ServerState::FatalError,
                        ..init_player(upre)
                    }));
                }
                Err(())
            },
        }
    } else {
        let present = match &game_rooms.rooms[ri].room.impl_room {
            Some(r) => contains_u64(&r.players, uid),
            None => false,
        };
        if !present {
            let ghost rpre = game_rooms.rooms@;
            match &mut game_rooms.rooms[ri].room.impl_room {
                Some(r) => {
                    r.players.push(uid);
                },
                None => {},
            }
            proof {
                crate::game::lemma_room_views_update(
                    rpre,
                    ri as int,
                    game_rooms.rooms@[ri as int],
                );
                assert(game_rooms@[ri as int].game =~~= Some(
                    join_room(rs0[ri as int].game.unwrap(), upre.id),
                ));
                assert forall|t: int|
                    0 <= t < game_rooms@.len() implies #[trigger] crate::game::room_entry_ok(
                    game_rooms@[t],
                ) by {
                    assert(crate::game::room_entry_ok(rs0[t]));
                }
            }
        } else {
            proof {
                assert(game_rooms@[ri as int].game =~~= Some(
                    join_room(rs0[ri as int].game.unwrap(), upre.id),
                ));
            }
        }
        Ok(ri)
    }
}


pub open spec fn team_name(t: CodenamesTeam) -> Seq<char> {
    match t {
        CodenamesTeam::Red => "Red"@,
        CodenamesTeam::Blue => "Blue"@,
        CodenamesTeam::Floating => "Floating"@,
    }
}

pub open spec fn role_name(r: CodenamesRole) -> Seq<char> {
    match r {
        CodenamesRole::Spymaster => "Spymaster"@,
        CodenamesRole::Teammate => "Teammate"@,
        CodenamesRole::Spectator => "Spectator"@,
    }
}

fn team_name_str(t: CodenamesTeam) -> (s: &'static str)
    ensures
        s@ == team_name(t),
{
    match t {
        CodenamesTeam::Red => "Red",
        CodenamesTeam::Blue => "Blue",
        CodenamesTeam::Floating => "Floating",
    }
}

fn role_name_str(r: CodenamesRole) -> (s: &'static str)
    ensures
        s@ == role_name(r),
{
    match r {
        CodenamesRole::Spymaster => "Spymaster",
        CodenamesRole::Teammate => "Teammate",
        CodenamesRole::Spectator => "Spectator",
    }
}

/// The overlay shown for a session in the roster: its own, or the default
/// for sessions that have not touched the room yet.
pub open spec fn overlay_or_default(u: UserModel) -> PlayerModel {
    if u.player is Some {
        u.player.unwrap()
    } else {
        default_player()
    }
}

/// One roster row: marker column, name, role and team, right-aligned.
pub open spec fn roster_line(cur: bool, name: Seq<char>, p: PlayerModel) -> Seq<char> {
    crate::text::pad_left_spec(if cur { "YOU"@ } else { Seq::empty() }, 3) + " "@
        + crate::text::pad_left_spec(name, 25) + " "@ + crate::text::pad_left_spec(
        role_name(p.role),
        10,
    ) + ", "@ + crate::text::pad_left_spec(team_name(p.team), 10) + crate::render::crlf()
}

/// The roster rows for the first `n` members, in member order; members
/// missing from the session map are skipped.
pub open spec fn roster_rows(m: Seq<UserModel>, members: Seq<u64>, cur: u64, n: int) -> Seq<char>
    decreases n,
{
    if n <= 0 {
        Seq::empty()
    } else {
        roster_rows(m, members, cur, n - 1) + (if contains_id(m, members[n - 1]) {
            let u = user_with_id(m, members[n - 1]);
            roster_line(members[n - 1] == cur, u.name, overlay_or_default(u))
        } else {
            Seq::empty()
        })
    }
}

/// The whole roster block: header, rule, one row per member, rule.
pub open spec fn roster_text(m: Seq<UserModel>, members: Seq<u64>, cur: u64) -> Seq<char> {
    crate::text::pad_left_spec("User Name"@, 29) + " "@ + crate::text::pad_left_spec("Role"@, 9)
        + " "@ + crate::text::pad_left_spec("Team"@, 9) + crate::render::crlf()
        + crate::text::repeat_char('-', 49) + crate::render::crlf() + roster_rows(
        m,
        members,
        cur,
        members.len() as int,
    ) + crate::text::repeat_char('-', 49) + crate::render::crlf()
}

/// Renders the roster of the room's members for one viewer.
#[verifier::loop_isolation(false)]
#[verifier::rlimit(100)]
#[verifier::spinoff_prover]
pub fn get_player_roles(
    room: &CodenamesRoom,
    user_state_map: &UserMap,
    cur_user_addr: u64,
) -> (out: String)
    requires
        user_map_wf(user_state_map@),
    ensures
        out@ == roster_text(user_state_map@, room.players@, cur_user_addr),
{
    let ghost m = user_state_map@;
    let mut out = crate::text::pad_left("User Name", 29);
    out.append(" ");
    let c1 = crate::text::pad_left("Role", 9);
    out.append(c1.as_str());
    out.append(" ");
    let c2 = crate::text::pad_left("Team", 9);
    out.append(c2.as_str());
    out.append(crate::render::crlf_str());
    let rule = crate::text::dashes_string(49);
    out.append(rule.as_str());
    out.append(crate::render::crlf_str());
    let n = room.players.len();
    let mut i: usize = 0;
    proof {
        assert(roster_rows(m, room.players@, cur_user_addr, 0) =~= Seq::<char>::empty());
        assert(out@ + roster_rows(m, room.players@, cur_user_addr, 0) =~= out@);
    }
    let ghost head = out@;
    proof {
        reveal_strlit("");
    }
    while i < n
        invariant
            0 <= i <= n,
            n == room.players@.len(),
            out@ == head + roster_rows(m, room.players@, cur_user_addr, i as int),
        decreases n - i,
    {
        let ghost prefix = out@;
        let pid = room.players[i];
        match user_state_map.find_user(pid) {
            Some(uidx) => {
                proof {
                    lemma_user_index_is(m, pid, uidx as int);
                }
                let marker = if pid == cur_user_addr {
                    "YOU"
                } else {
                    ""
                };
                proof {
                    assert(""@ =~= Seq::<char>::empty());
                }
                let mut row = crate::text::pad_left(marker, 3);
                row.append(" ");
                let nc = crate::text::pad_left(user_state_map.users[uidx].user_name.as_str(), 25);
                row.append(nc.as_str());
                row.append(" ");
                let (prole, pteam) = match &user_state_map.users[uidx].player {
                    Some(p) => (p.role, p.team),
                    None => (CodenamesRole::Spectator, CodenamesTeam::Floating),
                };
                let rc = crate::text::pad_left(role_name_str(prole), 10);
                row.append(rc.as_str());
                row.append(", ");
                let tc = crate::text::pad_left(team_name_str(pteam), 10);
                row.append(tc.as_str());
                row.append(crate::render::crlf_str());
                proof {
                    assert(row@ =~= roster_line(
                        pid == cur_user_addr,
                        user_with_id(m, pid).name,
                        overlay_or_default(user_with_id(m, pid)),
                    ));
                }
                out.append(row.as_str());
            },
            None => {},
        }
        i = i + 1;
        proof {
            assert(out@ =~= head + roster_rows(m, room.players@, cur_user_addr, i as int));
        }
    }
    let rule2 = crate::text::dashes_string(49);
    out.append(rule2.as_str());
    out.append(crate::render::crlf_str());
    out
}

pub open spec fn spymaster_instructions() -> Seq<char> {
    "Type in your clue in the format 'clue,number' where a clue is a single wordand the number is the number of guesses your team has. Keep in mind you can't usethe word you would like them to choose in the guess\r\n"@
}

pub open spec fn teammate_instructions(team: CodenamesTeam) -> Seq<char> {
    "Use chat to talk to everyone but "@ + "the spymaster on the "@ + team_name(team) + " team. "@
        + "Guess by submitting your guess word with a '!' in front. End your turn with '!!' after making at least one guess.\r\n"@
}

pub open spec fn bystander_instructions() -> Seq<char> {
    "Continue to talk to everyone, it's not your turn\r\n"@
}

pub open spec fn score_line(red: u32, blue: u32) -> Seq<char> {
    "Score: "@ + crate::text::dec_str(red as int) + "-"@ + crate::text::dec_str(blue as int)
        + " (R-B)\r\n"@
}

/// The full prompt shown when a turn starts or the board changes: whose
/// turn it is, what the viewer may do, the score and the rendered board.
pub open spec fn turn_prompt_text(
    team: CodenamesTeam,
    viewer: PlayerModel,
    room: RoomModel,
) -> Seq<char> {
    team_name(team) + " Team's Turn:\r\n"@ + (if viewer.role == CodenamesRole::Spymaster
        && viewer.team == team {
        spymaster_instructions()
    } else if viewer.role == CodenamesRole::Teammate && viewer.team == team {
        teammate_instructions(team)
    } else {
        bystander_instructions()
    }) + score_line(room.red, room.blue) + crate::render::board_text(room.board, viewer.role)
}

/// Renders the in-turn prompt for one viewer.
#[verifier::rlimit(100)]
#[verifier::spinoff_prover]
pub fn codenames_turn_prompt(
    team: CodenamesTeam,
    player: &CodenamesPlayer,
    room: &CodenamesRoom,
) -> (out: String)
    requires
        room.board@.len() == 25,
    ensures
        out@ == turn_prompt_text(team, player@, room@),
{
    let mut out = String::from_str(team_name_str(team));
    out.append(" Team's Turn:\r\n");
    if player.role == CodenamesRole::Spymaster && player.team == team {
        out.append(
            "Type in your clue in the format 'clue,number' where a clue is a single wordand the number is the number of guesses your team has. Keep in mind you can't usethe word you would like them to choose in the guess\r\n",
        );
    } else if player.role == CodenamesRole::Teammate && player.team == team {
        out.append("Use chat to talk to everyone but ");
        out.append("the spymaster on the ");
        out.append(team_name_str(team));
        out.append(" team. ");
        out.append(
            "Guess by submitting your guess word with a '!' in front. End your turn with '!!' after making at least one guess.\r\n",
        );
    } else {
        out.append("Continue to talk to everyone, it's not your turn\r\n");
    }
    out.append("Score: ");
    let rs = crate::text::u64_to_string(room.red_score as u64);
    out.append(rs.as_str());
    out.append("-");
    let bs = crate::text::u64_to_string(room.blue_score as u64);
    out.append(bs.as_str());
    out.append(" (R-B)\r\n");
    let b = crate::render::render_board(&room.board, player.role);
    out.append(b.as_str());
    out
}


pub open spec fn end_text() -> Seq<char> {
    "The game has ended, thanks for playing!\r\n"@
}

pub open spec fn assassin_text(t: CodenamesTeam) -> Seq<char> {
    "The "@ + team_name(t) + " team found the assassin, so they lost!"@
}

pub open spec fn final_score_text(red: u32, blue: u32) -> Seq<char> {
    "The final score was "@ + crate::text::dec_str(red as int) + "-"@ + crate::text::dec_str(
        blue as int,
    ) + " (R-B)\r\n"@
}

pub open spec fn waiting_options_text(m: Seq<UserModel>, members: Seq<u64>, cur: u64) -> Seq<
    char,
> {
    "Available Options:\r\n"@ + "teammate/spymaster: Put yourself in one of these roles\r\n"@
        + "red/blue: Put yourself into one of these teams\r\n"@
        + "show: Show the current state of the room if there are any changes\r\n"@
        + "start: Start the game if the correct roles are filled\r\n"@
        + "Otherwise, any other input will be a chat message to the room\r\n"@ + roster_text(
        m,
        members,
        cur,
    )
}

/// The lines appended to a session's prompt when the room state it last saw
/// differs from the room's current state.
pub open spec fn state_prompt_texts(
    g: RoomModel,
    viewer: PlayerModel,
    m: Seq<UserModel>,
    cur: u64,
) -> Seq<Seq<char>> {
    match g.state {
        CodenamesState::WaitingToStart => seq![waiting_options_text(m, g.players, cur)],
        CodenamesState::RedTurn => seq![turn_prompt_text(CodenamesTeam::Red, viewer, g)],
        CodenamesState::BlueTurn => seq![turn_prompt_text(CodenamesTeam::Blue, viewer, g)],
        CodenamesState::GameEnd => seq![end_text()] + (match g.assassin {
            Some(t) => seq![assassin_text(t)],
            None => seq![final_score_text(g.red, g.blue)],
        }),
    }
}

/// The prompt lines joined for the wire, each closed by the transport's
/// line terminator.
pub open spec fn joined_lines(items: Seq<Seq<char>>) -> Seq<char>
    decreases items.len(),
{
    if items.len() == 0 {
        Seq::empty()
    } else {
        joined_lines(items.drop_last()) + items.last() + crate::render::crlf()
    }
}

/// The session map entry index holding the given identity.
pub open spec fn idx_of(m: Seq<UserModel>, id: u64) -> int {
    choose|i: int| 0 <= i < m.len() && m[i].id == id
}

/// The session map once the given session surely has an entry.
pub open spec fn ensure_user_spec(m: Seq<UserModel>, id: u64) -> Seq<UserModel> {
    if contains_id(m, id) {
        m
    } else {
        m.push(crate::game::default_user_model(id))
    }
}

/// The record with its pending queue emptied.
pub open spec fn drain_queue(u: UserModel) -> UserModel {
    if u.player is Some {
        UserModel {
            player: Some(PlayerModel { queue: Seq::empty(), ..u.player.unwrap() }),
            ..u
        }
    } else {
        u
    }
}

/// Whether the session's room key leads to a usable room (so that touching
/// the room succeeds rather than pushing the session into the fatal state).
pub open spec fn room_resolves(
    u: UserModel,
    rs: Seq<crate::game::RoomEntryModel>,
) -> bool {
    &&& u.room_key is Some
    &&& crate::game::contains_room(rs, u.room_key.unwrap())
    &&& (crate::game::room_with_id(rs, u.room_key.unwrap()).game is Some
        || crate::cards::default_words_ok())
}

/// How the registry changes when a session touches its room: the room's
/// entry gains the session (and a fresh game on first touch), all else
/// stays.
pub open spec fn rooms_after_touch(
    rs0: Seq<crate::game::RoomEntryModel>,
    rs1: Seq<crate::game::RoomEntryModel>,
    k: i32,
    uid: u64,
) -> bool {
    &&& rs1.len() == rs0.len()
    &&& (forall|t: int| 0 <= t < rs0.len() && rs0[t].id != k ==> rs1[t] == rs0[t])
    &&& (forall|t: int|
        0 <= t < rs0.len() && rs0[t].id == k ==> #[trigger] rs1[t].id == rs0[t].id && rs1[t].name
            == rs0[t].name && (match rs0[t].game {
            Some(g0) => rs1[t].game == Some(join_room(g0, uid)),
            None => {
                let g1 = rs1[t].game;
                &&& g1 is Some
                &&& g1.unwrap().state == CodenamesState::WaitingToStart
                &&& g1.unwrap().players == seq![uid]
                &&& g1.unwrap().red == 0 && g1.unwrap().blue == 0 && g1.unwrap().guesses == 0
                &&& g1.unwrap().assassin is None && g1.unwrap().clue is None
                &&& fresh_board_ok(g1.unwrap().board)
            },
        }))
}

/// Moves every queued line, in order, from the overlay's queue to the end
/// of the prompt list.
#[verifier::loop_isolation(false)]
fn drain_player_queue(p: &mut CodenamesPlayer, prompt: &mut Vec<String>)
    ensures
        final(p)@ == (PlayerModel { queue: Seq::empty(), ..old(p)@ }),
        string_views(final(prompt)@) == string_views(old(prompt)@) + old(p)@.queue,
{
    loop
        invariant
            p.team == old(p).team,
            p.role == old(p).role,
            p.state_prompted == old(p).state_prompted,
            string_views(prompt@) + string_views(p.chat_queue@) == string_views(old(prompt)@)
                + old(p)@.queue,
        decreases p.chat_queue.len(),
    {
        match p.chat_queue.pop_front() {
            Some(msg) => {
                let ghost ppre = prompt@;
                prompt.push(msg);
                proof {
                    lemma_string_views_push(ppre, prompt@.last());
                    assert(string_views(prompt@) + string_views(p.chat_queue@) =~= string_views(
                        old(prompt)@,
                    ) + old(p)@.queue);
                }
            },
            None => {
                break ;
            },
        }
    }
    proof {
        assert(string_views(p.chat_queue@).len() == 0);
        assert(p@ =~~= (PlayerModel { queue: Seq::empty(), ..old(p)@ }));
        assert(string_views(prompt@) =~= string_views(old(prompt)@) + old(p)@.queue);
    }
}

/// Everything one prompt query does: the queue drained into the result,
/// a state view appended exactly when due, the dedup marker updated, and
/// the room touched (or the session failed when its room key dangles).
pub open spec fn prompt_post(
    m0: Seq<UserModel>,
    rs0: Seq<crate::game::RoomEntryModel>,
    user_addr: u64,
    mfin: Seq<UserModel>,
    rsfin: Seq<crate::game::RoomEntryModel>,
    r: Option<Seq<char>>,
) -> bool {
    let m1 = ensure_user_spec(m0, user_addr);
    let i = idx_of(m1, user_addr);
    let u1 = init_player(drain_queue(m1[i]));
    let q0 = if m1[i].player is Some {
        m1[i].player.unwrap().queue
    } else {
        Seq::<Seq<char>>::empty()
    };
    &&& mfin.len() == m1.len()
    &&& (forall|j: int| 0 <= j < m1.len() && j != i ==> #[trigger] mfin[j] == m1[j])
    &&& if room_resolves(m1[i], rs0) {
        let k = m1[i].room_key.unwrap();
        let g1 = crate::game::room_with_id(rsfin, k).game.unwrap();
        let show = u1.player.unwrap().shown != Some(g1.state);
        &&& rooms_after_touch(rs0, rsfin, k, m1[i].id)
        &&& mfin[i] == (UserModel {
            player: Some(
                PlayerModel { queue: Seq::empty(), shown: Some(g1.state), ..u1.player.unwrap() },
            ),
            ..u1
        })
        &&& match r {
            Some(s) => (q0.len() > 0 || show) && s == joined_lines(
                q0 + if show {
                    state_prompt_texts(g1, u1.player.unwrap(), mfin, user_addr)
                } else {
                    Seq::empty()
                },
            ),
            None => q0.len() == 0 && !show,
        }
    } else {
        &&& rsfin == rs0
        &&& mfin[i] == (UserModel { state: crate::game::ServerState::FatalError, ..u1 })
        &&& match r {
            Some(s) => q0.len() > 0 && s == joined_lines(q0),
            None => q0.len() == 0,
        }
    }
}

/// Builds the prompt owed to one session: its queued lines always, and a
/// freshly rendered room view exactly when the room's state differs from
/// the one it was last shown.  Yields nothing when neither is due, so an
/// idle poll sends nothing.
#[verifier::loop_isolation(false)]
#[verifier::rlimit(100)]
#[verifier::spinoff_prover]
pub fn codenames_prompt(
    user_addr: u64,
    user_state_map: &mut UserMap,
    game_rooms: &mut crate::game::RoomMap,
) -> (r: Option<String>)
    requires
        user_map_wf(old(user_state_map)@),
        crate::game::room_map_wf(old(game_rooms)@),
    ensures
        user_map_wf(final(user_state_map)@),
        crate::game::room_map_wf(final(game_rooms)@),
        prompt_post(
            old(user_state_map)@,
            old(game_rooms)@,
            user_addr,
            final(user_state_map)@,
            final(game_rooms)@,
            match r {
                Some(s) => Some(s@),
                None => None,
            },
        ),
{
    let ghost m0 = user_state_map@;
    let ghost rs0 = game_rooms@;
    let ui = crate::game::get_user_state(user_state_map, user_addr);
    let ghost m1 = user_state_map@;
    proof {
        assert(m1 =~= ensure_user_spec(m0, user_addr));
        lemma_user_index_is(m1, user_addr, ui as int);
        let i = idx_of(m1, user_addr);
        assert(0 <= i < m1.len() && m1[i].id == user_addr);
        if i != ui {
            assert(false);
        }
    }
    let mut prompt: Vec<String> = Vec::new();
    let ghost q0 = if m1[ui as int].player is Some {
        m1[ui as int].player.unwrap().queue
    } else {
        Seq::<Seq<char>>::empty()
    };
    let ghost upre = user_state_map.users@;
    match &mut user_state_map.users[ui].player {
        Some(p) => {
            drain_player_queue(p, &mut prompt);
            proof {
                assert(string_views(prompt@) =~= q0);
            }
        },
        None => {
            proof {
                assert(string_views(prompt@) =~= q0);
            }
        },
    }
    proof {
        lemma_user_views_update(upre, ui as int, user_state_map.users@[ui as int]);
        assert(user_state_map@[ui as int] =~~= drain_queue(m1[ui as int]));
        assert(user_map_wf(user_state_map@));
    }
    let ghost m2 = user_state_map@;
    match initialize_user_board(ui, user_state_map, game_rooms) {
        Ok(ri) => {
            proof {
                crate::game::lemma_room_index_is(rs0, m1[ui as int].room_key.unwrap(), ri as int);
                crate::game::lemma_room_index_is(
                    game_rooms@,
                    m1[ui as int].room_key.unwrap(),
                    ri as int,
                );
            }
            let st = match &game_rooms.rooms[ri].room.impl_room {
                Some(room) => room.state,
                None => {
                    proof {
                        assert(false);
                    }
                    CodenamesState::WaitingToStart
                },
            };
            let need = match &user_state_map.users[ui].player {
                Some(p) => match p.state_prompted {
                    Some(sp) => sp != st,
                    None => true,
                },
                None => {
                    proof {
                        assert(false);
                    }
                    false
                },
            };
            let ghost u1 = init_player(drain_queue(m1[ui as int]));
            let ghost mark = user_state_map.users@;
            match &mut user_state_map.users[ui].player {
                Some(p) => {
                    p.state_prompted = Some(st);
                },
                None => {},
            }
            proof {
                lemma_user_views_update(
                    mark,
                    ui as int,
                    user_state_map.users@[ui as int],
                );
                assert(user_state_map@[ui as int] =~~= (UserModel {
                    player: Some(
                        PlayerModel {
                            queue: Seq::empty(),
                            shown: Some(st),
                            ..u1.player.unwrap()
                        },
                    ),
                    ..u1
                }));
                assert(user_map_wf(user_state_map@));
            }
            if need {
                match st {
                    CodenamesState::WaitingToStart => {
                        let mut w = String::from_str("Available Options:\r\n");
                        w.append("teammate/spymaster: Put yourself in one of these roles\r\n");
                        w.append("red/blue: Put yourself into one of these teams\r\n");
                        w.append(
                            "show: Show the current state of the room if there are any changes\r\n",
                        );
                        w.append("start: Start the game if the correct roles are filled\r\n");
                        w.append(
                            "Otherwise, any other input will be a chat message to the room\r\n",
                        );
                        let roster = match &game_rooms.rooms[ri].room.impl_room {
                            Some(room) => get_player_roles(room, &*user_state_map, user_addr),
                            None => {
                                proof {
                                    assert(false);
                                }
                                String::new()
                            },
                        };
                        w.append(roster.as_str());
                        let ghost ppre = prompt@;
                        prompt.push(w);
                        proof {
                            lemma_string_views_push(ppre, prompt@.last());
                        }
                    },
                    CodenamesState::RedTurn => {
                        let t = match (
                            &user_state_map.users[ui].player,
                            &game_rooms.rooms[ri].room.impl_room,
                        ) {
                            (Some(p), Some(room)) => {
                                proof {
                                    assert(crate::game::room_entry_ok(game_rooms@[ri as int]));
                                }
                                codenames_turn_prompt(CodenamesTeam::Red, p, room)
                            },
                            _ => {
                                proof {
                                    assert(false);
                                }
                                String::new()
                            },
                        };
                        let ghost ppre = prompt@;
                        prompt.push(t);
                        proof {
                            lemma_string_views_push(ppre, prompt@.last());
                        }
                    },
                    CodenamesState::BlueTurn => {
                        let t = match (
                            &user_state_map.users[ui].player,
                            &game_rooms.rooms[ri].room.impl_room,
                        ) {
                            (Some(p), Some(room)) => {
                                proof {
                                    assert(crate::game::room_entry_ok(game_rooms@[ri as int]));
                                }
                                codenames_turn_prompt(CodenamesTeam::Blue, p, room)
                            },
                            _ => {
                                proof {
                                    assert(false);
                                }
                                String::new()
                            },
                        };
                        let ghost ppre = prompt@;
                        prompt.push(t);
                        proof {
                            lemma_string_views_push(ppre, prompt@.last());
                        }
                    },
                    CodenamesState::GameEnd => {
                        let ghost ppre = prompt@;
                        prompt.push(String::from_str("The game has ended, thanks for playing!\r\n"));
                        proof {
                            lemma_string_views_push(ppre, prompt@.last());
                        }
                        let fb = match &game_rooms.rooms[ri].room.impl_room {
                            Some(room) => room.assassin_found_by,
                            None => {
                                proof {
                                    assert(false);
                                }
                                None
                            },
                        };
                        let (red, blue) = match &game_rooms.rooms[ri].room.impl_room {
                            Some(room) => (room.red_score, room.blue_score),
                            None => {
                                proof {
                                    assert(false);
                                }
                                (0, 0)
                            },
                        };
                        let ghost ppre2 = prompt@;
                        match fb {
                            Some(found_by) => {
                                let mut a = String::from_str("The ");
                                a.append(team_name_str(found_by));
                                a.append(" team found the assassin, so they lost!");
                                prompt.push(a);
                            },
                            None => {
                                let mut a = String::from_str("The final score was ");
                                let rstr = crate::text::u64_to_string(red as u64);
                                a.append(rstr.as_str());
                                a.append("-");
                                let bstr = crate::text::u64_to_string(blue as u64);
                                a.append(bstr.as_str());
                                a.append(" (R-B)\r\n");
                                prompt.push(a);
                            },
                        }
                        proof {
                            lemma_string_views_push(ppre2, prompt@.last());
                        }
                    },
                }
                proof {
                    let g1 = crate::game::room_with_id(
                        game_rooms@,
                        m1[ui as int].room_key.unwrap(),
                    ).game.unwrap();
                    assert(string_views(prompt@) =~= q0 + state_prompt_texts(
                        g1,
                        u1.player.unwrap(),
                        user_state_map@,
                        user_addr,
                    ));
                }
            }
        },
        Err(_) => {},
    }
    if prompt.len() == 0 {
        return None;
    }
    let n = prompt.len();
    let mut out = String::new();
    let mut i: usize = 0;
    proof {
        assert(string_views(prompt@).subrange(0, 0) =~= Seq::<Seq<char>>::empty());
        assert(out@ =~= joined_lines(string_views(prompt@).subrange(0, 0)));
    }
    while i < n
        invariant
            0 <= i <= n,
            n == prompt@.len(),
            out@ == joined_lines(string_views(prompt@).subrange(0, i as int)),
        decreases n - i,
    {
        out.append(prompt[i].as_str());
        out.append(crate::render::crlf_str());
        i = i + 1;
        proof {
            assert(string_views(prompt@).subrange(0, i as int).drop_last() =~= string_views(
                prompt@,
            ).subrange(0, i - 1));
            assert(out@ =~= joined_lines(string_views(prompt@).subrange(0, i as int)));
        }
    }
    proof {
        assert(string_views(prompt@).subrange(0, n as int) =~= string_views(prompt@));
    }
    Some(out)
}


pub open spec fn started_msg(name: Seq<char>) -> Seq<char> {
    name + " Started the Game!\r\n"@
}

pub open spec fn cannot_start_msg() -> Seq<char> {
    "Cannot start the game yet, need at least a spymaster and a teammate on each team\r\n"@
}

/// The lobby commands a member may use before the game starts.
pub open spec fn is_waiting_command(cmd: Seq<char>) -> bool {
    cmd == "teammate"@ || cmd == "spymaster"@ || cmd == "red"@ || cmd == "blue"@ || cmd
        == "show"@
}

/// How a lobby command changes the sender's overlay; every one clears the
/// prompt marker so the roster is shown afresh.
pub open spec fn waiting_overlay_update(p: PlayerModel, cmd: Seq<char>) -> PlayerModel {
    if cmd == "teammate"@ {
        PlayerModel { role: CodenamesRole::Teammate, shown: None, ..p }
    } else if cmd == "spymaster"@ {
        PlayerModel { role: CodenamesRole::Spymaster, shown: None, ..p }
    } else if cmd == "red"@ {
        PlayerModel { team: CodenamesTeam::Red, shown: None, ..p }
    } else if cmd == "blue"@ {
        PlayerModel { team: CodenamesTeam::Blue, shown: None, ..p }
    } else {
        PlayerModel { shown: None, ..p }
    }
}

/// The game a touched room ends up holding: the session joins a live game,
/// or a fresh well-formed board is dealt on first touch.
pub open spec fn game_after_touch(g0: Option<RoomModel>, uid: u64, g1: RoomModel) -> bool {
    match g0 {
        Some(g) => g1 == join_room(g, uid),
        None => {
            &&& g1.state == CodenamesState::WaitingToStart
            &&& g1.players == seq![uid]
            &&& g1.red == 0 && g1.blue == 0 && g1.guesses == 0
            &&& g1.assassin is None && g1.clue is None
            &&& fresh_board_ok(g1.board)
        },
    }
}

/// The registry entry index holding the given id.
pub open spec fn room_idx_of(rs: Seq<crate::game::RoomEntryModel>, k: i32) -> int {
    choose|t: int| 0 <= t < rs.len() && rs[t].id == k
}

/// The registry with one entry's game replaced.
pub open spec fn rooms_with_game(
    rs: Seq<crate::game::RoomEntryModel>,
    t: int,
    g: RoomModel,
) -> Seq<crate::game::RoomEntryModel> {
    rs.update(t, crate::game::RoomEntryModel { game: Some(g), ..rs[t] })
}

pub proof fn lemma_rooms_with_game_wf(
    rs: Seq<crate::game::RoomEntryModel>,
    t: int,
    g: RoomModel,
)
    requires
        crate::game::room_map_wf(rs),
        0 <= t < rs.len(),
        room_wf(g),
    ensures
        crate::game::room_map_wf(rooms_with_game(rs, t, g)),
{
    let rs1 = rooms_with_game(rs, t, g);
    assert forall|u: int| 0 <= u < rs1.len() implies #[trigger] crate::game::room_entry_ok(
        rs1[u],
    ) by {
        if u != t {
            assert(crate::game::room_entry_ok(rs[u]));
        }
    }
}

/// Everything one call of `codenames_logic` does once the session's room
/// resolved, phrased over the session map after the room was touched
/// (`m_init`) and the touched game (`g1`).
pub open spec fn codenames_step_post(
    m_init: Seq<UserModel>,
    i: int,
    addr: u64,
    line: Option<Seq<char>>,
    g1: RoomModel,
    k: i32,
    rs0: Seq<crate::game::RoomEntryModel>,
    rs1: Seq<crate::game::RoomEntryModel>,
    mfin: Seq<UserModel>,
) -> bool {
    let ri = room_idx_of(rs0, k);
    let name = m_init[i].name;
    match g1.state {
        CodenamesState::WaitingToStart => match line {
            Some(l) => {
                let cmd = trim_spec(l);
                if cmd == "start"@ {
                    if room_ready(m_init, g1.players) {
                        &&& rs1 == rooms_with_game(
                            rs0,
                            ri,
                            RoomModel { state: CodenamesState::RedTurn, ..g1 },
                        )
                        &&& mfin.len() == m_init.len()
                        &&& (forall|j: int| 0 <= j < m_init.len() ==> #[trigger] mfin[j]
                            == enqueue_member(m_init[j], g1.players, trim_spec(started_msg(name))))
                    } else {
                        &&& rs1 == rooms_with_game(rs0, ri, g1)
                        &&& mfin.len() == m_init.len()
                        &&& (forall|j: int| 0 <= j < m_init.len() ==> #[trigger] mfin[j]
                            == enqueue_member(m_init[j], g1.players, trim_spec(cannot_start_msg())))
                    }
                } else if is_waiting_command(cmd) {
                    &&& rs1 == rooms_with_game(rs0, ri, g1)
                    &&& mfin == m_init.update(
                        i,
                        UserModel {
                            player: Some(
                                waiting_overlay_update(m_init[i].player.unwrap(), cmd),
                            ),
                            ..m_init[i]
                        },
                    )
                } else {
                    &&& rs1 == rooms_with_game(rs0, ri, g1)
                    &&& mfin.len() == m_init.len()
                    &&& (forall|j: int| 0 <= j < m_init.len() ==> #[trigger] mfin[j]
                        == enqueue_other(m_init[j], g1.players, addr, chat_line_msg(name, l)))
                }
            },
            None => rs1 == rooms_with_game(rs0, ri, g1) && mfin == m_init,
        },
        CodenamesState::RedTurn => {
            let oc = turn_step(
                CodenamesTeam::Red,
                line.unwrap(),
                m_init[i].player.unwrap(),
                name,
                g1,
            );
            match line {
                Some(_) => {
                    &&& rs1 == rooms_with_game(rs0, ri, oc.room)
                    &&& mfin.len() == m_init.len()
                    &&& (forall|j: int| 0 <= j < m_init.len() ==> #[trigger] mfin[j] == deliver(
                        m_init[j],
                        g1.players,
                        addr,
                        oc,
                    ))
                },
                None => rs1 == rooms_with_game(rs0, ri, g1) && mfin == m_init,
            }
        },
        CodenamesState::BlueTurn => {
            let oc = turn_step(
                CodenamesTeam::Blue,
                line.unwrap(),
                m_init[i].player.unwrap(),
                name,
                g1,
            );
            match line {
                Some(_) => {
                    &&& rs1 == rooms_with_game(rs0, ri, oc.room)
                    &&& mfin.len() == m_init.len()
                    &&& (forall|j: int| 0 <= j < m_init.len() ==> #[trigger] mfin[j] == deliver(
                        m_init[j],
                        g1.players,
                        addr,
                        oc,
                    ))
                },
                None => rs1 == rooms_with_game(rs0, ri, g1) && mfin == m_init,
            }
        },
        CodenamesState::GameEnd => {
            // the room is torn down on the next visit after the game ended
            &&& rs1 == rs0.remove(ri)
            &&& mfin == m_init
        },
    }
}

proof fn lemma_room_views_remove(s: Seq<crate::game::RoomEntry>, i: int)
    requires
        0 <= i < s.len(),
    ensures
        s.remove(i).map_values(|x: crate::game::RoomEntry| x@) =~= s.map_values(
            |x: crate::game::RoomEntry| x@,
        ).remove(i),
{
    s.remove_ensures(i);
    s.map_values(|x: crate::game::RoomEntry| x@).remove_ensures(i);
}

/// Flipping a card changes neither the kind balance nor the words, so a
/// whole turn keeps the room well formed.
pub proof fn lemma_turn_step_wf(
    team: CodenamesTeam,
    line: Seq<char>,
    sender: PlayerModel,
    name: Seq<char>,
    g: RoomModel,
)
    requires
        room_wf(g),
    ensures
        room_wf(turn_step(team, line, sender, name, g).room),
{
    let guess = trim_spec(line.drop_first());
    match find_card_spec(g.board, guess) {
        Some(ci) => {
            if 0 <= ci < g.board.len() {
                let b2 = flip_at(g.board, ci);
                assert(crate::cards::kinds_of(b2) =~= crate::cards::kinds_of(g.board));
                assert(crate::cards::words_of(b2) =~= crate::cards::words_of(g.board));
            } else {
                lemma_find_card_in_range(g.board, guess);
            }
        },
        None => {},
    }
}

proof fn lemma_find_card_in_range(b: Seq<CardModel>, w: Seq<char>)
    ensures
        match find_card_spec(b, w) {
            Some(i) => 0 <= i < b.len(),
            None => true,
        },
    decreases b.len(),
{
    if b.len() > 0 && !(b[0].word == w) {
        lemma_find_card_in_range(b.drop_first(), w);
    }
}

/// Applies one lobby command to the session's overlay: pick a team, pick a
/// role, or just ask for a fresh view; each clears the prompt marker.
fn set_overlay(
    user_state_map: &mut UserMap,
    ui: usize,
    team: Option<CodenamesTeam>,
    role: Option<CodenamesRole>,
)
    requires
        ui < old(user_state_map)@.len(),
        old(user_state_map)@[ui as int].player is Some,
    ensures
        final(user_state_map)@ == old(user_state_map)@.update(
            ui as int,
            UserModel {
                player: Some(
                    PlayerModel {
                        team: match team {
                            Some(t) => t,
                            None => old(user_state_map)@[ui as int].player.unwrap().team,
                        },
                        role: match role {
                            Some(r) => r,
                            None => old(user_state_map)@[ui as int].player.unwrap().role,
                        },
                        shown: None,
                        ..old(user_state_map)@[ui as int].player.unwrap()
                    },
                ),
                ..old(user_state_map)@[ui as int]
            },
        ),
{
    let ghost pre = user_state_map.users@;
    match &mut user_state_map.users[ui].player {
        Some(p) => {
            match team {
                Some(t) => {
                    p.team = t;
                },
                None => {},
            }
            match role {
                Some(r) => {
                    p.role = r;
                },
                None => {},
            }
            p.state_prompted = None;
        },
        None => {},
    }
    proof {
        lemma_user_views_update(pre, ui as int, user_state_map.users@[ui as int]);
        assert(user_state_map@ =~~= old(user_state_map)@.update(
            ui as int,
            UserModel {
                player: Some(
                    PlayerModel {
                        team: match team {
                            Some(t) => t,
                            None => old(user_state_map)@[ui as int].player.unwrap().team,
                        },
                        role: match role {
                            Some(r) => r,
                            None => old(user_state_map)@[ui as int].player.unwrap().role,
                        },
                        shown: None,
                        ..old(user_state_map)@[ui as int].player.unwrap()
                    },
                ),
                ..old(user_state_map)@[ui as int]
            },
        ));
    }
}

/// Everything one `codenames_logic` call does, from the caller's view.
pub open spec fn logic_post(
    m0: Seq<UserModel>,
    rs0: Seq<crate::game::RoomEntryModel>,
    user_addr: u64,
    line: Option<Seq<char>>,
    mfin: Seq<UserModel>,
    rsfin: Seq<crate::game::RoomEntryModel>,
) -> bool {
    let m1 = ensure_user_spec(m0, user_addr);
    let i = idx_of(m1, user_addr);
    let m_init = m1.update(i, init_player(m1[i]));
    if room_resolves(m1[i], rs0) {
        let k = m1[i].room_key.unwrap();
        exists|g1: RoomModel|
            #[trigger] game_after_touch(
                crate::game::room_with_id(rs0, k).game,
                m1[i].id,
                g1,
            ) && codenames_step_post(m_init, i, user_addr, line, g1, k, rs0, rsfin, mfin)
    } else {
        &&& rsfin == rs0
        &&& mfin == m_init.update(
            i,
            UserModel { state: crate::game::ServerState::FatalError, ..m_init[i] },
        )
    }
}

/// Handles one drive cycle's input (or idle tick) for a session sitting in
/// a room: lobby commands and readiness before the game, guesses, clues and
/// chat during it, and room teardown after it ends.
#[verifier::loop_isolation(false)]
#[verifier::rlimit(100)]
#[verifier::spinoff_prover]
pub fn codenames_logic(
    user_addr: u64,
    user_state_map: &mut UserMap,
    game_rooms: &mut crate::game::RoomMap,
    line: &Option<String>,
)
    requires
        user_map_wf(old(user_state_map)@),
        crate::game::room_map_wf(old(game_rooms)@),
    ensures
        user_map_wf(final(user_state_map)@),
        crate::game::room_map_wf(final(game_rooms)@),
        logic_post(
            old(user_state_map)@,
            old(game_rooms)@,
            user_addr,
            match line {
                Some(l) => Some(l@),
                None => None,
            },
            final(user_state_map)@,
            final(game_rooms)@,
        ),
{
    let ghost m0 = user_state_map@;
    let ghost rs0 = game_rooms@;
    let ui = crate::game::get_user_state(user_state_map, user_addr);
    let ghost m1 = user_state_map@;
    proof {
        assert(m1 =~= ensure_user_spec(m0, user_addr));
        lemma_user_index_is(m1, user_addr, ui as int);
        let i = idx_of(m1, user_addr);
        if i != ui {
            assert(false);
        }
    }
    let user_name = user_state_map.users[ui].user_name.clone();
    match initialize_user_board(ui, user_state_map, game_rooms) {
        Ok(ri) => {
            proof {
                crate::game::lemma_room_index_is(rs0, m1[ui as int].room_key.unwrap(), ri as int);
                let t = room_idx_of(rs0, m1[ui as int].room_key.unwrap());
                assert(0 <= t < rs0.len() && rs0[t].id == m1[ui as int].room_key.unwrap());
                crate::game::lemma_room_index_is(
                    rs0,
                    m1[ui as int].room_key.unwrap(),
                    t,
                );
                if t != ri {
                    assert(false);
                }
                assert(user_state_map@ =~= m1.update(ui as int, init_player(m1[ui as int])));
            }
            let ghost m_init = user_state_map@;
            let ghost g1 = game_rooms@[ri as int].game.unwrap();
            let ghost rs_t = game_rooms@;
            proof {
                assert(game_after_touch(rs0[ri as int].game, m1[ui as int].id, g1));
                assert(rs_t =~= rooms_with_game(rs0, ri as int, g1));
                assert(crate::game::room_entry_ok(rs_t[ri as int]));
                assert(room_wf(g1));
            }
            let st = match &game_rooms.rooms[ri].room.impl_room {
                Some(room) => room.state,
                None => {
                    proof {
                        assert(false);
                    }
                    CodenamesState::WaitingToStart
                },
            };
            match st {
                CodenamesState::WaitingToStart => {
                    match line {
                        Some(l) => {
                            let cmd = trim_str(l.as_str());
                            if crate::text::str_eq(cmd.as_str(), "start") {
                                let ready = match &game_rooms.rooms[ri].room.impl_room {
                                    Some(room) => verify_room(room, &*user_state_map),
                                    None => false,
                                };
                                let ghost rpre = game_rooms.rooms@;
                                match &mut game_rooms.rooms[ri].room.impl_room {
                                    Some(room) => {
                                        if ready {
                                            let mut sm = user_name.clone();
                                            sm.append(" Started the Game!\r\n");
                                            proof {
                                                assert(sm@ == started_msg(m_init[ui as int].name));
                                            }
                                            broadcast_chat_everyone(sm, &*room, user_state_map);
                                            room.state = CodenamesState::RedTurn;
                                        } else {
                                            broadcast_chat_everyone(
                                                String::from_str(
                                                    "Cannot start the game yet, need at least a spymaster and a teammate on each team\r\n",
                                                ),
                                                &*room,
                                                user_state_map,
                                            );
                                        }
                                    },
                                    None => {},
                                }
                                proof {
                                    crate::game::lemma_room_views_update(
                                        rpre,
                                        ri as int,
                                        game_rooms.rooms@[ri as int],
                                    );
                                    if ready {
                                        assert(game_rooms@ =~~= rooms_with_game(
                                            rs0,
                                            ri as int,
                                            RoomModel { state: CodenamesState::RedTurn, ..g1 },
                                        ));
                                        lemma_rooms_with_game_wf(
                                            rs0,
                                            ri as int,
                                            RoomModel { state: CodenamesState::RedTurn, ..g1 },
                                        );
                                    } else {
                                        assert(game_rooms@ =~~= rooms_with_game(rs0, ri as int, g1));
                                    }
                                }
                            } else if crate::text::str_eq(cmd.as_str(), "teammate") {
                                set_overlay(user_state_map, ui, None, Some(CodenamesRole::Teammate));
                            } else if crate::text::str_eq(cmd.as_str(), "spymaster") {
                                set_overlay(user_state_map, ui, None, Some(CodenamesRole::Spymaster));
                            } else if crate::text::str_eq(cmd.as_str(), "red") {
                                set_overlay(user_state_map, ui, Some(CodenamesTeam::Red), None);
                            } else if crate::text::str_eq(cmd.as_str(), "blue") {
                                set_overlay(user_state_map, ui, Some(CodenamesTeam::Blue), None);
                            } else if crate::text::str_eq(cmd.as_str(), "show") {
                                set_overlay(user_state_map, ui, None, None);
                            } else {
                                let there = match &game_rooms.rooms[ri].room.impl_room {
                                    Some(room) => {
                                        broadcast_chat(
                                            user_addr,
                                            user_name,
                                            l.clone(),
                                            &*room,
                                            user_state_map,
                                        );
                                        true
                                    },
                                    None => false,
                                };
                                proof {
                                    assert(there);
                                }
                            }
                            proof {
                                if cmd@ != "start"@ && is_waiting_command(cmd@) {
                                    assert(user_state_map@ =~~= m_init.update(
                                        ui as int,
                                        UserModel {
                                            player: Some(
                                                waiting_overlay_update(
                                                    m_init[ui as int].player.unwrap(),
                                                    cmd@,
                                                ),
                                            ),
                                            ..m_init[ui as int]
                                        },
                                    ));
                                }
                            }
                        },
                        None => {},
                    }
                },
                CodenamesState::RedTurn => {
                    proof {
                        lemma_user_index_is(m_init, user_addr, ui as int);
                    }
                    let ghost rpre = game_rooms.rooms@;
                    match &mut game_rooms.rooms[ri].room.impl_room {
                        Some(room) => {
                            turn_logic(CodenamesTeam::Red, line, user_state_map, room, user_addr);
                        },
                        None => {},
                    }
                    proof {
                        crate::game::lemma_room_views_update(
                            rpre,
                            ri as int,
                            game_rooms.rooms@[ri as int],
                        );
                        match line {
                            Some(l) => {
                                let oc = turn_step(
                                    CodenamesTeam::Red,
                                    l@,
                                    m_init[ui as int].player.unwrap(),
                                    m_init[ui as int].name,
                                    g1,
                                );
                                lemma_turn_step_wf(
                                    CodenamesTeam::Red,
                                    l@,
                                    m_init[ui as int].player.unwrap(),
                                    m_init[ui as int].name,
                                    g1,
                                );
                                assert(game_rooms@ =~~= rooms_with_game(rs0, ri as int, oc.room));
                                lemma_rooms_with_game_wf(rs0, ri as int, oc.room);
                            },
                            None => {
                                assert(game_rooms@ =~~= rooms_with_game(rs0, ri as int, g1));
                            },
                        }
                    }
                },
                CodenamesState::BlueTurn => {
                    proof {
                        lemma_user_index_is(m_init, user_addr, ui as int);
                    }
                    let ghost rpre = game_rooms.rooms@;
                    match &mut game_rooms.rooms[ri].room.impl_room {
                        Some(room) => {
                            turn_logic(CodenamesTeam::Blue, line, user_state_map, room, user_addr);
                        },
                        None => {},
                    }
                    proof {
                        crate::game::lemma_room_views_update(
                            rpre,
                            ri as int,
                            game_rooms.rooms@[ri as int],
                        );
                        match line {
                            Some(l) => {
                                let oc = turn_step(
                                    CodenamesTeam::Blue,
                                    l@,
                                    m_init[ui as int].player.unwrap(),
                                    m_init[ui as int].name,
                                    g1,
                                );
                                lemma_turn_step_wf(
                                    CodenamesTeam::Blue,
                                    l@,
                                    m_init[ui as int].player.unwrap(),
                                    m_init[ui as int].name,
                                    g1,
                                );
                                assert(game_rooms@ =~~= rooms_with_game(rs0, ri as int, oc.room));
                                lemma_rooms_with_game_wf(rs0, ri as int, oc.room);
                            },
                            None => {
                                assert(game_rooms@ =~~= rooms_with_game(rs0, ri as int, g1));
                            },
                        }
                    }
                },
                CodenamesState::GameEnd => {
                    let rk = match user_state_map.users[ui].game_room_key {
                        Some(k2) => k2,
                        None => {
                            proof {
                                assert(false);
                            }
                            0
                        },
                    };
                    match game_rooms.find_room(rk) {
                        Some(ri2) => {
                            proof {
                                if ri2 != ri {
                                    assert(game_rooms@[ri2 as int].id == game_rooms@[ri as int].id);
                                    assert(false);
                                }
                            }
                            let ghost rpre = game_rooms.rooms@;
                            game_rooms.rooms.remove(ri2);
                            proof {
                                lemma_room_views_remove(rpre, ri as int);
                                rs_t.remove_ensures(ri as int);
                                rs0.remove_ensures(ri as int);
                                assert(game_rooms@ =~~= rs0.remove(ri as int));
                                assert forall|a: int, b: int|
                                    0 <= a < b < game_rooms@.len() implies game_rooms@[a].id
                                    < game_rooms@[b].id by {}
                                assert forall|t: int|
                                    0 <= t < game_rooms@.len() implies #[trigger] crate::game::room_entry_ok(
                                    game_rooms@[t],
                                ) by {
                                    assert(crate::game::room_entry_ok(rs_t[if t < ri as int {
                                        t
                                    } else {
                                        t + 1
                                    }]));
                                }
                            }
                        },
                        None => {
                            proof {
                                assert(crate::game::contains_room(game_rooms@, rk));
                                assert(false);
                            }
                        },
                    }
                },
            }
            proof {
                assert(game_after_touch(
                    crate::game::room_with_id(rs0, m1[ui as int].room_key.unwrap()).game,
                    m1[ui as int].id,
                    g1,
                ) && codenames_step_post(
                    m_init,
                    ui as int,
                    user_addr,
                    match line {
                        Some(l) => Some(l@),
                        None => None,
                    },
                    g1,
                    m1[ui as int].room_key.unwrap(),
                    rs0,
                    game_rooms@,
                    user_state_map@,
                ));
            }
        },
        Err(_) => {
            proof {
                let m1x = ensure_user_spec(m0, user_addr);
                let ix = idx_of(m1x, user_addr);
                let m_initx = m1x.update(ix, init_player(m1x[ix]));
                assert(user_state_map@ =~~= m_initx.update(
                    ix,
                    UserModel {
                        state: crate::game::ServerState::FatalError,
                        ..m_initx[ix]
                    },
                ));
            }
        },
    }
}


/// Dropping a member keeps the member list free of repeats, so the room
/// stays well formed.
pub proof fn lemma_drop_member_wf(g: RoomModel, addr: u64)
    requires
        room_wf(g),
    ensures
        room_wf(drop_member(g, addr)),
        g.players.contains(addr) ==> drop_member(g, addr).players.len() == g.players.len() - 1,
{
    g.players.index_of_first_ensures(addr);
    match g.players.index_of_first(addr) {
        Some(i) => {
            g.players.remove_ensures(i);
            let p2 = g.players.remove(i);
            assert forall|a: int, b: int| 0 <= a < b < p2.len() implies p2[a] != p2[b] by {
                let a0 = if a < i {
                    a
                } else {
                    a + 1
                };
                let b0 = if b < i {
                    b
                } else {
                    b + 1
                };
                assert(p2[a] == g.players[a0] && p2[b] == g.players[b0]);
            }
        },
        None => {
            assert(g.players.remove_value(addr) == g.players);
        },
    }
}


/// Prompt dedup law: when a session whose room resolved queries its prompt
/// and nothing happens in between, the very next query yields nothing --
/// the queue was drained and the marker matches the room's state, and a
/// second touch of the room changes nothing.
pub proof fn lemma_prompt_dedup(
    m0: Seq<UserModel>,
    rs0: Seq<crate::game::RoomEntryModel>,
    addr: u64,
    ma: Seq<UserModel>,
    rsa: Seq<crate::game::RoomEntryModel>,
    ra: Option<Seq<char>>,
    mb: Seq<UserModel>,
    rsb: Seq<crate::game::RoomEntryModel>,
    rb: Option<Seq<char>>,
)
    requires
        user_map_wf(m0),
        crate::game::room_map_wf(rs0),
        crate::game::room_map_wf(rsa),
        user_map_wf(ma),
        room_resolves(ensure_user_spec(m0, addr)[idx_of(ensure_user_spec(m0, addr), addr)], rs0),
        prompt_post(m0, rs0, addr, ma, rsa, ra),
        prompt_post(ma, rsa, addr, mb, rsb, rb),
    ensures
        rb is None,
{
    let m1 = ensure_user_spec(m0, addr);
    let i = idx_of(m1, addr);
    assert(contains_id(m0, addr) || m1[m0.len() as int].id == addr);
    assert(contains_id(m1, addr)) by {
        if !contains_id(m0, addr) {
            assert(m1[m0.len() as int].id == addr);
        }
    }
    assert(0 <= i < m1.len() && m1[i].id == addr);
    let k = m1[i].room_key.unwrap();
    let ti = room_idx_of(rs0, k);
    assert(0 <= ti < rs0.len() && rs0[ti].id == k) by {
        let w = choose|t: int| 0 <= t < rs0.len() && rs0[t].id == k;
        assert(0 <= w < rs0.len() && rs0[w].id == k);
    }
    // after the first query the sender's queue is empty and its marker
    // carries the room's state
    let g1 = crate::game::room_with_id(rsa, k).game.unwrap();
    assert(rsa[ti].id == k && rsa[ti].game is Some);
    crate::game::lemma_room_index_is(rsa, k, ti);
    let ua = ma[i];
    assert(ua.player is Some && ua.player.unwrap().queue.len() == 0 && ua.player.unwrap().shown
        == Some(g1.state));
    assert(ua.id == addr && ua.room_key == Some(k));
    // the session already sits among the members, so the second touch
    // leaves the room as it is
    assert(g1.players.contains(addr)) by {
        match rs0[ti].game {
            Some(g0) => {
                assert(g1 == join_room(g0, addr));
                if !g0.players.contains(addr) {
                    assert(g1.players.last() == addr);
                }
            },
            None => {
                assert(g1.players == seq![addr]);
                assert(g1.players[0] == addr);
            },
        }
    }
    // the second query finds the same map entry
    let m1b = ensure_user_spec(ma, addr);
    assert(contains_id(ma, addr)) by {
        assert(ma[i].id == addr);
    }
    assert(m1b == ma);
    let ib = idx_of(m1b, addr);
    assert(0 <= ib < ma.len() && ma[ib].id == addr);
    if ib != i {
        assert(false);
    }
    assert(room_resolves(ma[i], rsa));
    let g2 = crate::game::room_with_id(rsb, k).game.unwrap();
    assert(rsb[ti].id == k) by {
        assert(rsa[ti].id == k);
    }
    assert(rsb[ti].game == Some(join_room(g1, addr)));
    assert(join_room(g1, addr) == g1);
    crate::game::lemma_room_index_is(rsb, k, ti);
    assert(g2 == g1);
    // nothing is queued and nothing changed: the result is owed to be empty
    let u1b = init_player(drain_queue(ma[i]));
    assert(u1b.player.unwrap().shown == Some(g2.state));
    match rb {
        Some(_) => {
            assert(false);
        },
        None => {},
    }
}

} // verus!
