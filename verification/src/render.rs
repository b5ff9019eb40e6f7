//! Role-filtered rendering of the board.
//!
//! This is the fog-of-war boundary: a teammate looking at an unflipped card
//! is shown its word alone, while a spymaster (or anyone looking at a
//! flipped card) is shown word, kind mark and flip mark.
use vstd::prelude::*;
use vstd::string::*;

use crate::cards::{card_views, CardModel, CodenamesCard, CodenamesCardType, CodenamesRole};
use crate::text::{center, center_spec, dashes_string, repeat_char};

verus! {

/// The line terminator used by the transport.
pub open spec fn crlf() -> Seq<char> {
    seq!['\r', '\n']
}

pub fn crlf_str() -> (s: &'static str)
    ensures
        s@ == crlf(),
{
    proof {
        reveal_strlit("\r\n");
        assert("\r\n"@ =~= crlf());
    }
    "\r\n"
}

/// The one-character mark showing whether a card has been flipped.
pub open spec fn flip_mark(f: bool) -> Seq<char> {
    if f {
        seq!['X']
    } else {
        seq![' ']
    }
}

/// The one-character mark of a card's hidden kind.
pub open spec fn kind_mark(k: CodenamesCardType) -> char {
    match k {
        CodenamesCardType::RedAgent => 'R',
        CodenamesCardType::BlueAgent => 'B',
        CodenamesCardType::Assassin => 'A',
        CodenamesCardType::Bystander => ' ',
    }
}

fn kind_str(k: CodenamesCardType) -> (s: &'static str)
    ensures
        s@ == seq![kind_mark(k)],
{
    proof {
        reveal_strlit("R");
        reveal_strlit("B");
        reveal_strlit("A");
        reveal_strlit(" ");
    }
    let r = match k {
        CodenamesCardType::RedAgent => "R",
        CodenamesCardType::BlueAgent => "B",
        CodenamesCardType::Assassin => "A",
        CodenamesCardType::Bystander => " ",
    };
    proof {
        assert(r@ =~= seq![kind_mark(k)]);
    }
    r
}

/// One rendered cell.  A teammate facing an unflipped card sees the word
/// alone; every other viewer, and every flipped card, shows word, kind and
/// flip mark.
pub open spec fn cell_text(card: CardModel, role: CodenamesRole) -> Seq<char> {
    if role == CodenamesRole::Teammate && !card.flipped {
        seq!['|'] + flip_mark(card.flipped) + center_spec(card.word, 14)
    } else {
        seq!['|'] + flip_mark(card.flipped) + center_spec(card.word, 13) + seq![
            kind_mark(card.kind),
        ] + seq![' ']
    }
}

/// The horizontal rule drawn above and below every board row.
pub open spec fn hrule() -> Seq<char> {
    repeat_char('-', 81) + crlf()
}

/// The cells of row `row`, columns `0 .. cols`, concatenated.
pub open spec fn row_cells_text(b: Seq<CardModel>, role: CodenamesRole, row: int, cols: int) -> Seq<
    char,
>
    decreases cols,
{
    if cols <= 0 {
        Seq::empty()
    } else {
        row_cells_text(b, role, row, cols - 1) + cell_text(b[row * 5 + (cols - 1)], role)
    }
}

/// The first `rows` rendered rows, each closed by a bar and a rule.
pub open spec fn rows_text(b: Seq<CardModel>, role: CodenamesRole, rows: int) -> Seq<char>
    decreases rows,
{
    if rows <= 0 {
        Seq::empty()
    } else {
        rows_text(b, role, rows - 1) + row_cells_text(b, role, rows - 1, 5) + seq!['|'] + crlf()
            + hrule()
    }
}

/// The whole rendered board, as one viewer with the given role sees it.
pub open spec fn board_text(b: Seq<CardModel>, role: CodenamesRole) -> Seq<char> {
    hrule() + rows_text(b, role, 5)
}

fn render_cell(card: &CodenamesCard, role: CodenamesRole) -> (out: String)
    ensures
        out@ == cell_text(card@, role),
{
    let mut s = String::from_str("|");
    proof {
        reveal_strlit("|");
        assert(s@ =~= seq!['|']);
    }
    let mark = if card.flipped {
        "X"
    } else {
        " "
    };
    proof {
        reveal_strlit("X");
        reveal_strlit(" ");
        assert(mark@ =~= flip_mark(card@.flipped));
    }
    s.append(mark);
    if role == CodenamesRole::Teammate && !card.flipped {
        let w = center(card.word.as_str(), 14);
        s.append(w.as_str());
    } else {
        let w = center(card.word.as_str(), 13);
        s.append(w.as_str());
        s.append(kind_str(card.card_type));
        proof {
            reveal_strlit(" ");
        }
        s.append(" ");
        proof {
            assert(" "@ =~= seq![' ']);
        }
    }
    proof {
        assert(s@ =~= cell_text(card@, role));
    }
    s
}

fn hrule_string() -> (out: String)
    ensures
        out@ == hrule(),
{
    let mut s = dashes_string(81);
    s.append(crlf_str());
    s
}

/// Renders the board for one viewer, exactly as `board_text` describes.
#[verifier::loop_isolation(false)]
pub fn render_board(board: &Vec<CodenamesCard>, role: CodenamesRole) -> (out: String)
    requires
        board@.len() == 25,
    ensures
        out@ == board_text(card_views(board@), role),
{
    let ghost b = card_views(board@);
    let mut s = hrule_string();
    proof {
        assert(s@ =~= hrule() + rows_text(b, role, 0));
    }
    let mut row: usize = 0;
    while row < 5
        invariant
            0 <= row <= 5,
            s@ == hrule() + rows_text(b, role, row as int),
        decreases 5 - row,
    {
        let mut col: usize = 0;
        proof {
            assert(s@ + row_cells_text(b, role, row as int, 0) =~= s@);
        }
        let ghost s_row = s@;
        while col < 5
            invariant
                0 <= col <= 5,
                s@ == s_row + row_cells_text(b, role, row as int, col as int),
            decreases 5 - col,
        {
            let cell = render_cell(&board[row * 5 + col], role);
            s.append(cell.as_str());
            col = col + 1;
            proof {
                assert(b[row as int * 5 + (col as int - 1)] == card_views(board@)[(row * 5 + (col
                    - 1)) as int]);
                assert(s@ =~= s_row + row_cells_text(b, role, row as int, col as int));
            }
        }
        s.append("|");
        s.append(crlf_str());
        let rule = hrule_string();
        s.append(rule.as_str());
        row = row + 1;
        proof {
            reveal_strlit("|");
            assert("|"@ =~= seq!['|']);
            assert(s@ =~= hrule() + rows_text(b, role, row as int));
        }
    }
    s
}

/// The fog-of-war law: an unflipped card renders for a teammate without any
/// trace of its kind (two cards sharing a word render identically whatever
/// their kinds), a spymaster's rendering always carries the kind mark, and
/// flipping a card makes the teammate and spymaster renderings agree.
pub proof fn lemma_render_role_asymmetry(c1: CardModel, c2: CardModel, card: CardModel)
    ensures
        (!c1.flipped && !c2.flipped && c1.word == c2.word) ==> cell_text(
            c1,
            CodenamesRole::Teammate,
        ) == cell_text(c2, CodenamesRole::Teammate),
        cell_text(card, CodenamesRole::Spymaster).len() >= 2,
        cell_text(card, CodenamesRole::Spymaster)[cell_text(card, CodenamesRole::Spymaster).len()
            - 2] == kind_mark(card.kind),
        card.flipped ==> cell_text(card, CodenamesRole::Teammate) == cell_text(
            card,
            CodenamesRole::Spymaster,
        ),
{
    let sp = cell_text(card, CodenamesRole::Spymaster);
    assert(sp[sp.len() - 2] == kind_mark(card.kind));
}

} // verus!
