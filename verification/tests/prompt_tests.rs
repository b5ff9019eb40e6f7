use telnet_codenames::cards::{CodenamesCard, CodenamesCardType, CodenamesState};
use telnet_codenames::codenames::CodenamesRoom;
use telnet_codenames::game::GameServerState;

fn known_board() -> Vec<CodenamesCard> {
    let mut board = Vec::new();
    for i in 0..9 {
        board.push(CodenamesCard {
            word: format!("r{}", i),
            card_type: CodenamesCardType::RedAgent,
            flipped: false,
        });
    }
    for i in 0..8 {
        board.push(CodenamesCard {
            word: format!("b{}", i),
            card_type: CodenamesCardType::BlueAgent,
            flipped: false,
        });
    }
    for i in 0..7 {
        board.push(CodenamesCard {
            word: format!("n{}", i),
            card_type: CodenamesCardType::Bystander,
            flipped: false,
        });
    }
    board.push(CodenamesCard {
        word: "kill".to_string(),
        card_type: CodenamesCardType::Assassin,
        flipped: false,
    });
    board
}

fn send(gs: &mut GameServerState, sid: u64, line: &str) {
    gs.client_logic(sid, Some(line.to_string())).unwrap();
}

fn two_in_a_room() -> GameServerState {
    let mut gs = GameServerState::new();
    for sid in 1u64..=2 {
        gs.client_logic(sid, None).unwrap();
        send(&mut gs, sid, &format!("player{}", sid));
        if sid == 1 {
            send(&mut gs, sid, "0");
            let room = CodenamesRoom::with_board(known_board()).unwrap();
            gs.game_rooms.rooms[0].room.impl_room = Some(room);
        } else {
            send(&mut gs, sid, "1");
        }
    }
    gs
}

#[test]
fn second_prompt_with_nothing_new_is_silent() {
    let mut gs = two_in_a_room();
    // the first query renders the lobby view of the room
    let first = gs.get_client_prompt(1);
    assert!(first.is_some());
    // nothing happened in between: the prompt must not be resent
    let second = gs.get_client_prompt(1);
    assert!(second.is_none());
    let third = gs.get_client_prompt(1);
    assert!(third.is_none());
}

#[test]
fn prompt_reappears_after_a_state_change() {
    let mut gs = two_in_a_room();
    assert!(gs.get_client_prompt(1).is_some());
    assert!(gs.get_client_prompt(1).is_none());
    // a role change clears the sender's marker, so the roster shows again
    send(&mut gs, 1, "spymaster");
    assert!(gs.get_client_prompt(1).is_some());
    assert!(gs.get_client_prompt(1).is_none());
}

#[test]
fn queued_chat_is_delivered_once_in_order() {
    let mut gs = two_in_a_room();
    gs.get_client_prompt(1);
    gs.get_client_prompt(2);
    send(&mut gs, 2, "one");
    send(&mut gs, 2, "two");
    let prompt = gs.get_client_prompt(1).expect("chat is owed");
    let one = prompt.find("player2: one").expect("first line present");
    let two = prompt.find("player2: two").expect("second line present");
    assert!(one < two);
    // the queue was drained, nothing is resent
    assert!(gs.get_client_prompt(1).is_none());
    // the speaker never hears an echo of their own chat
    let own = gs.get_client_prompt(2);
    assert!(own.is_none() || !own.unwrap().contains("player2: one"));
}

#[test]
fn lobby_prompt_lists_rooms_in_id_order() {
    let mut gs = GameServerState::new();
    gs.client_logic(1, None).unwrap();
    send(&mut gs, 1, "host");
    let listing = gs.get_client_prompt(1).unwrap();
    assert!(listing.contains("0: New Lobby"));
    send(&mut gs, 1, "0");
    // a second session now sees the open room under its id
    gs.client_logic(2, None).unwrap();
    send(&mut gs, 2, "guest");
    let listing = gs.get_client_prompt(2).unwrap();
    assert!(listing.contains("0: New Lobby"));
    assert!(listing.contains("1:"));
    assert!(listing.contains("host's Room"));
}

#[test]
fn teammate_prompt_hides_kinds_spymaster_prompt_shows_them() {
    let mut gs = two_in_a_room();
    for sid in 3u64..=4 {
        gs.client_logic(sid, None).unwrap();
        send(&mut gs, sid, &format!("player{}", sid));
        send(&mut gs, sid, "1");
    }
    send(&mut gs, 1, "red");
    send(&mut gs, 1, "spymaster");
    send(&mut gs, 2, "red");
    send(&mut gs, 2, "teammate");
    send(&mut gs, 3, "blue");
    send(&mut gs, 3, "spymaster");
    send(&mut gs, 4, "blue");
    send(&mut gs, 4, "teammate");
    send(&mut gs, 1, "start");
    let spymaster_view = gs.get_client_prompt(1).unwrap();
    let teammate_view = gs.get_client_prompt(2).unwrap();
    // the board words reach both, the kind marks only the spymaster
    assert!(spymaster_view.contains("r0"));
    assert!(teammate_view.contains("r0"));
    let kind_marks = |s: &str| {
        s.lines()
            .filter(|l| l.starts_with('|'))
            .map(|l| l.matches('R').count())
            .sum::<usize>()
    };
    assert!(kind_marks(&spymaster_view) >= 9);
    assert_eq!(kind_marks(&teammate_view), 0);
}

#[test]
fn end_prompt_names_the_losing_team() {
    let mut gs = two_in_a_room();
    for sid in 3u64..=4 {
        gs.client_logic(sid, None).unwrap();
        send(&mut gs, sid, &format!("player{}", sid));
        send(&mut gs, sid, "1");
    }
    send(&mut gs, 1, "red");
    send(&mut gs, 1, "spymaster");
    send(&mut gs, 2, "red");
    send(&mut gs, 2, "teammate");
    send(&mut gs, 3, "blue");
    send(&mut gs, 3, "spymaster");
    send(&mut gs, 4, "blue");
    send(&mut gs, 4, "teammate");
    send(&mut gs, 1, "start");
    send(&mut gs, 1, "hint,3");
    send(&mut gs, 2, "!kill");
    assert_eq!(
        gs.game_rooms.rooms[0]
            .room
            .impl_room
            .as_ref()
            .unwrap()
            .state,
        CodenamesState::GameEnd
    );
    let ending = gs.get_client_prompt(3).unwrap();
    assert!(ending.contains("The game has ended, thanks for playing!"));
    assert!(ending.contains("The Red team found the assassin, so they lost!"));
}
