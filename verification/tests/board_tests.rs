use telnet_codenames::cards::{
    default_words, gen_board, CodenamesCard, CodenamesCardType, CodenamesRole,
};
use telnet_codenames::codenames::CodenamesRoom;
use telnet_codenames::render::render_board;

fn count_kind(board: &Vec<CodenamesCard>, kind: CodenamesCardType) -> usize {
    board.iter().filter(|c| c.card_type == kind).count()
}

/// A deterministic well-formed board: 9 red, 8 blue, 7 bystanders, 1 assassin.
fn known_board() -> Vec<CodenamesCard> {
    let mut board = Vec::new();
    for i in 0..9 {
        board.push(CodenamesCard {
            word: format!("r{}", i),
            card_type: CodenamesCardType::RedAgent,
            flipped: false,
        });
    }
    for i in 0..8 {
        board.push(CodenamesCard {
            word: format!("b{}", i),
            card_type: CodenamesCardType::BlueAgent,
            flipped: false,
        });
    }
    for i in 0..7 {
        board.push(CodenamesCard {
            word: format!("n{}", i),
            card_type: CodenamesCardType::Bystander,
            flipped: false,
        });
    }
    board.push(CodenamesCard {
        word: "kill".to_string(),
        card_type: CodenamesCardType::Assassin,
        flipped: false,
    });
    board
}

#[test]
fn generated_board_is_balanced() {
    let board = gen_board(default_words()).expect("the built-in pool deals a board");
    assert_eq!(board.len(), 25);
    assert_eq!(count_kind(&board, CodenamesCardType::RedAgent), 9);
    assert_eq!(count_kind(&board, CodenamesCardType::BlueAgent), 8);
    assert_eq!(count_kind(&board, CodenamesCardType::Bystander), 7);
    assert_eq!(count_kind(&board, CodenamesCardType::Assassin), 1);
}

#[test]
fn generated_board_words_distinct_and_face_down() {
    let board = gen_board(default_words()).unwrap();
    for i in 0..board.len() {
        assert!(!board[i].flipped);
        for j in 0..i {
            assert_ne!(board[i].word, board[j].word);
        }
    }
}

#[test]
fn generation_rejects_small_or_repeating_pools() {
    let small: Vec<String> = (0..10).map(|i| format!("w{}", i)).collect();
    assert!(gen_board(small).is_none());
    let mut dup: Vec<String> = (0..30).map(|i| format!("w{}", i)).collect();
    dup[7] = "w3".to_string();
    assert!(gen_board(dup).is_none());
}

#[test]
fn with_board_checks_the_invariant() {
    assert!(CodenamesRoom::with_board(known_board()).is_some());
    let mut bad = known_board();
    bad[0].card_type = CodenamesCardType::BlueAgent;
    assert!(CodenamesRoom::with_board(bad).is_none());
    let mut dup = known_board();
    dup[3].word = dup[4].word.clone();
    assert!(CodenamesRoom::with_board(dup).is_none());
    let short: Vec<CodenamesCard> = known_board().into_iter().take(24).collect();
    assert!(CodenamesRoom::with_board(short).is_none());
}

#[test]
fn rendering_is_role_asymmetric_and_idempotent() {
    // two boards sharing words but with different hidden kinds
    let a = known_board();
    let mut b = known_board();
    for c in b.iter_mut() {
        c.card_type = match c.card_type {
            CodenamesCardType::RedAgent => CodenamesCardType::BlueAgent,
            CodenamesCardType::BlueAgent => CodenamesCardType::RedAgent,
            other => other,
        };
    }
    // a teammate sees no difference while nothing is flipped
    let ta = render_board(&a, CodenamesRole::Teammate);
    let tb = render_board(&b, CodenamesRole::Teammate);
    assert_eq!(ta, tb);
    // a spymaster does
    let sa = render_board(&a, CodenamesRole::Spymaster);
    let sb = render_board(&b, CodenamesRole::Spymaster);
    assert_ne!(sa, sb);
    // rendering is a pure function of the board and role
    assert_eq!(ta, render_board(&a, CodenamesRole::Teammate));
    assert_eq!(sa, render_board(&a, CodenamesRole::Spymaster));
    // flipping every card makes the two views converge
    let mut flipped = known_board();
    for c in flipped.iter_mut() {
        c.flipped = true;
    }
    assert_eq!(
        render_board(&flipped, CodenamesRole::Teammate),
        render_board(&flipped, CodenamesRole::Spymaster)
    );
}
