use telnet_codenames::cards::{CodenamesCard, CodenamesCardType, CodenamesState, CodenamesTeam};
use telnet_codenames::codenames::CodenamesRoom;
use telnet_codenames::game::{GameServerState, ServerState};

fn known_board() -> Vec<CodenamesCard> {
    let mut board = Vec::new();
    for i in 0..9 {
        board.push(CodenamesCard {
            word: format!("r{}", i),
            card_type: CodenamesCardType::RedAgent,
            flipped: false,
        });
    }
    for i in 0..8 {
        board.push(CodenamesCard {
            word: format!("b{}", i),
            card_type: CodenamesCardType::BlueAgent,
            flipped: false,
        });
    }
    for i in 0..7 {
        board.push(CodenamesCard {
            word: format!("n{}", i),
            card_type: CodenamesCardType::Bystander,
            flipped: false,
        });
    }
    board.push(CodenamesCard {
        word: "kill".to_string(),
        card_type: CodenamesCardType::Assassin,
        flipped: false,
    });
    board
}

fn send(gs: &mut GameServerState, sid: u64, line: &str) {
    gs.client_logic(sid, Some(line.to_string())).unwrap();
}

/// Drives four sessions into one room with a known board, each holding one
/// of the four (team, role) pairs, and starts the game.
/// Sessions: 1 = red spymaster, 2 = red teammate, 3 = blue spymaster,
/// 4 = blue teammate.
fn started_game() -> GameServerState {
    let mut gs = GameServerState::new();
    for sid in 1u64..=4 {
        gs.client_logic(sid, None).unwrap(); // Joined -> UsernameEntry
        send(&mut gs, sid, &format!("player{}", sid)); // -> LobbySelection
        if sid == 1 {
            send(&mut gs, sid, "0"); // open a new room
            // deal a known board before anyone touches the room
            let room = CodenamesRoom::with_board(known_board()).unwrap();
            gs.game_rooms.rooms[0].room.impl_room = Some(room);
        } else {
            send(&mut gs, sid, "1"); // join it
        }
    }
    send(&mut gs, 1, "red");
    send(&mut gs, 1, "spymaster");
    send(&mut gs, 2, "red");
    send(&mut gs, 2, "teammate");
    send(&mut gs, 3, "blue");
    send(&mut gs, 3, "spymaster");
    send(&mut gs, 4, "blue");
    send(&mut gs, 4, "teammate");
    send(&mut gs, 1, "start");
    assert_eq!(room_state(&gs), CodenamesState::RedTurn);
    gs
}

fn room(gs: &GameServerState) -> &CodenamesRoom {
    gs.game_rooms.rooms[0].room.impl_room.as_ref().unwrap()
}

fn room_state(gs: &GameServerState) -> CodenamesState {
    room(gs).state
}

#[test]
fn start_requires_all_four_pairs() {
    let mut gs = GameServerState::new();
    for sid in 1u64..=4 {
        gs.client_logic(sid, None).unwrap();
        send(&mut gs, sid, &format!("player{}", sid));
        if sid == 1 {
            send(&mut gs, sid, "0");
            let room = CodenamesRoom::with_board(known_board()).unwrap();
            gs.game_rooms.rooms[0].room.impl_room = Some(room);
        } else {
            send(&mut gs, sid, "1");
        }
    }
    // only red is populated: start must fail and leave the lobby state
    send(&mut gs, 1, "red");
    send(&mut gs, 1, "spymaster");
    send(&mut gs, 2, "red");
    send(&mut gs, 2, "teammate");
    send(&mut gs, 1, "start");
    assert_eq!(room_state(&gs), CodenamesState::WaitingToStart);
    // blue gets a spymaster but no teammate: still not ready
    send(&mut gs, 3, "blue");
    send(&mut gs, 3, "spymaster");
    send(&mut gs, 1, "start");
    assert_eq!(room_state(&gs), CodenamesState::WaitingToStart);
    // the last pair completes readiness
    send(&mut gs, 4, "blue");
    send(&mut gs, 4, "teammate");
    send(&mut gs, 1, "start");
    assert_eq!(room_state(&gs), CodenamesState::RedTurn);
}

#[test]
fn turn_switches_on_opposing_agent_only() {
    let mut gs = started_game();
    send(&mut gs, 1, "hint,3");
    // red flips a blue agent: blue scores and the turn passes
    send(&mut gs, 2, "!b0");
    assert_eq!(room(&gs).blue_score, 1);
    assert_eq!(room_state(&gs), CodenamesState::BlueTurn);
    // blue flips a red agent: red scores and the turn passes back
    send(&mut gs, 3, "clue,3");
    send(&mut gs, 4, "!r0");
    assert_eq!(room(&gs).red_score, 1);
    assert_eq!(room_state(&gs), CodenamesState::RedTurn);
    // red flips a red agent within the limit: red scores, red keeps acting
    send(&mut gs, 1, "hint,3");
    send(&mut gs, 2, "!r1");
    assert_eq!(room(&gs).red_score, 2);
    assert_eq!(room_state(&gs), CodenamesState::RedTurn);
}

#[test]
fn one_guess_past_the_clue_count_ends_the_turn() {
    let mut gs = started_game();
    send(&mut gs, 1, "hint,1");
    send(&mut gs, 2, "!r0");
    assert_eq!(room(&gs).red_score, 1);
    assert_eq!(room_state(&gs), CodenamesState::RedTurn);
    // second correct guess: one beyond the stated count, so the turn ends
    send(&mut gs, 2, "!r1");
    assert_eq!(room(&gs).red_score, 2);
    assert_eq!(room_state(&gs), CodenamesState::BlueTurn);
    assert_eq!(room(&gs).guesses, 0);
}

#[test]
fn assassin_ends_the_game_for_the_finder() {
    let mut gs = started_game();
    send(&mut gs, 1, "hint,1");
    send(&mut gs, 2, "!b0"); // pass the turn to blue
    send(&mut gs, 3, "clue,5");
    send(&mut gs, 4, "!kill");
    assert_eq!(room_state(&gs), CodenamesState::GameEnd);
    assert_eq!(room(&gs).assassin_found_by, Some(CodenamesTeam::Blue));
}

#[test]
fn nine_red_agents_win_at_the_turn_switch() {
    let mut gs = started_game();
    send(&mut gs, 1, "hint,20");
    for i in 0..9 {
        send(&mut gs, 2, &format!("!r{}", i));
        assert_eq!(room_state(&gs), CodenamesState::RedTurn);
    }
    assert_eq!(room(&gs).red_score, 9);
    // the threshold only takes effect when the turn would switch
    send(&mut gs, 2, "!n0");
    assert_eq!(room_state(&gs), CodenamesState::GameEnd);
    assert_eq!(room(&gs).assassin_found_by, None);
}

#[test]
fn bang_bang_needs_a_guess_first() {
    let mut gs = started_game();
    send(&mut gs, 1, "hint,3");
    send(&mut gs, 2, "!!");
    assert_eq!(room_state(&gs), CodenamesState::RedTurn);
    send(&mut gs, 2, "!r0");
    send(&mut gs, 2, "!!");
    assert_eq!(room_state(&gs), CodenamesState::BlueTurn);
    assert_eq!(room(&gs).guesses, 0);
}

#[test]
fn unknown_card_is_reported_without_state_change() {
    let mut gs = started_game();
    send(&mut gs, 1, "hint,3");
    send(&mut gs, 2, "!nosuchword");
    assert_eq!(room_state(&gs), CodenamesState::RedTurn);
    assert_eq!(room(&gs).red_score, 0);
    assert_eq!(room(&gs).blue_score, 0);
    // the whole room hears that the guess named no card
    let queue = &gs.user_state.users[2].player.as_ref().unwrap().chat_queue;
    assert!(queue
        .iter()
        .any(|m| m.contains("is not a valid card name to guess")));
}

#[test]
fn malformed_clue_is_ignored() {
    let mut gs = started_game();
    send(&mut gs, 1, "no comma here");
    assert!(room(&gs).clue.is_none());
    send(&mut gs, 1, "too,many,commas");
    assert!(room(&gs).clue.is_none());
    send(&mut gs, 1, "word,notanumber");
    assert!(room(&gs).clue.is_none());
    send(&mut gs, 1, "word, 4 ");
    assert_eq!(room(&gs).clue.as_ref().unwrap().cards_to_match, 4);
    assert_eq!(room(&gs).clue.as_ref().unwrap().clue, "word");
}

#[test]
fn off_turn_input_is_chat_not_action() {
    let mut gs = started_game();
    send(&mut gs, 1, "hint,3");
    // the blue teammate tries to guess while red is acting
    send(&mut gs, 4, "!r0");
    assert_eq!(room(&gs).red_score, 0);
    assert!(!room(&gs).board.iter().any(|c| c.flipped));
    // the line reached the others as chat instead
    let queue = &gs.user_state.users[1].player.as_ref().unwrap().chat_queue;
    assert!(queue.iter().any(|m| m == "player4: !r0"));
    // but not the speaker
    let own = &gs.user_state.users[3].player.as_ref().unwrap().chat_queue;
    assert!(!own.iter().any(|m| m == "player4: !r0"));
}

#[test]
fn disconnect_removes_member_and_notifies_the_rest() {
    let mut gs = started_game();
    // drain everyone's queues first
    for sid in 1u64..=4 {
        gs.get_client_prompt(sid);
    }
    let before = room(&gs).players.len();
    assert_eq!(before, 4);
    gs.client_disconnect(4);
    assert_eq!(room(&gs).players.len(), 3);
    assert_eq!(gs.user_state.users.len(), 3);
    for idx in 0..3 {
        let queue = &gs.user_state.users[idx].player.as_ref().unwrap().chat_queue;
        assert_eq!(
            queue
                .iter()
                .filter(|m| m.as_str() == "player4 has left the game!")
                .count(),
            1
        );
    }
}

#[test]
fn game_end_tears_the_room_down_on_the_next_visit() {
    let mut gs = started_game();
    send(&mut gs, 1, "hint,1");
    send(&mut gs, 2, "!b0");
    send(&mut gs, 3, "clue,5");
    send(&mut gs, 4, "!kill");
    assert_eq!(room_state(&gs), CodenamesState::GameEnd);
    assert_eq!(gs.game_rooms.rooms.len(), 1);
    // any member's next step through the room removes it
    gs.client_logic(2, None).unwrap();
    assert_eq!(gs.game_rooms.rooms.len(), 0);
    // another member's room key now dangles: that session goes fatal and
    // its next step reports the dropped connection
    gs.client_logic(3, None).unwrap();
    assert_eq!(gs.user_state.users[2].state, ServerState::FatalError);
    assert!(gs.client_logic(3, None).is_err());
}

#[test]
fn usernames_longer_than_25_characters_are_rejected() {
    let mut gs = GameServerState::new();
    gs.client_logic(5, None).unwrap();
    send(&mut gs, 5, "abcdefghijklmnopqrstuvwxyz");
    assert_eq!(gs.user_state.users[0].state, ServerState::InvalidInput);
    gs.client_logic(5, None).unwrap();
    send(&mut gs, 5, "reasonable");
    assert_eq!(gs.user_state.users[0].state, ServerState::LobbySelection);
    assert_eq!(gs.user_state.users[0].user_name, "reasonable");
}

#[test]
fn invalid_lobby_choice_is_rejected() {
    let mut gs = GameServerState::new();
    gs.client_logic(9, None).unwrap();
    send(&mut gs, 9, "somebody");
    send(&mut gs, 9, "17"); // no such room
    assert_eq!(gs.user_state.users[0].state, ServerState::InvalidInput);
    // invalid input bounces back to the lobby choice
    gs.client_logic(9, None).unwrap();
    assert_eq!(gs.user_state.users[0].state, ServerState::LobbySelection);
    send(&mut gs, 9, "not a number");
    assert_eq!(gs.user_state.users[0].state, ServerState::InvalidInput);
}
