//! The card and board model: teams, roles, card kinds, the hidden 5x5 board
//! and its generation, and the per-player overlay carried by each session
//! while it sits in a room.
use vstd::prelude::*;
use vstd::multiset::Multiset;
use vstd::seq_lib::*;
use vstd::string::*;

use crate::rng::rand_below;
use crate::text::trim_spec;

verus! {

/// Phase of a room's game.
#[derive(Copy, Clone, Debug, PartialEq, Eq, Structural)]
pub enum CodenamesState {
    WaitingToStart,
    RedTurn,
    BlueTurn,
    GameEnd,
}

/// Team a player has put themself on; `Floating` until they pick one.
#[derive(Copy, Clone, Debug, PartialEq, Eq, Structural)]
pub enum CodenamesTeam {
    Red,
    Blue,
    Floating,
}

/// Role a player has put themself in; `Spectator` until they pick one.
#[derive(Copy, Clone, Debug, PartialEq, Eq, Structural)]
pub enum CodenamesRole {
    Spymaster,
    Teammate,
    Spectator,
}

/// Hidden identity of one board card.
#[derive(Copy, Clone, Debug, PartialEq, Eq, Structural)]
pub enum CodenamesCardType {
    RedAgent,
    BlueAgent,
    Assassin,
    Bystander,
}

/// One cell of the board.  The word and kind never change after generation;
/// `flipped` moves from `false` to `true` exactly once.
pub struct CodenamesCard {
    pub word: String,
    pub card_type: CodenamesCardType,
    pub flipped: bool,
}

/// Mathematical image of a card.
#[verifier::ext_equal]
pub ghost struct CardModel {
    pub word: Seq<char>,
    pub kind: CodenamesCardType,
    pub flipped: bool,
}

impl View for CodenamesCard {
    type V = CardModel;

    open spec fn view(&self) -> CardModel {
        CardModel { word: self.word@, kind: self.card_type, flipped: self.flipped }
    }
}

/// A spymaster's standing hint: a word and the number of guesses it licenses.
pub struct CodenamesClue {
    pub cards_to_match: i32,
    pub clue: String,
}

/// Mathematical image of a clue.
#[verifier::ext_equal]
pub ghost struct ClueModel {
    pub count: i32,
    pub word: Seq<char>,
}

impl View for CodenamesClue {
    type V = ClueModel;

    open spec fn view(&self) -> ClueModel {
        ClueModel { count: self.cards_to_match, word: self.clue@ }
    }
}

/// Game-specific overlay of one session: chosen team and role, the queue of
/// lines waiting to be delivered, and the last room state a prompt was
/// rendered for (used to suppress repeated prompts).
pub struct CodenamesPlayer {
    pub team: CodenamesTeam,
    pub role: CodenamesRole,
    pub chat_queue: std::collections::VecDeque<String>,
    pub state_prompted: Option<CodenamesState>,
}

/// Mathematical image of a player overlay.
#[verifier::ext_equal]
pub ghost struct PlayerModel {
    pub team: CodenamesTeam,
    pub role: CodenamesRole,
    pub queue: Seq<Seq<char>>,
    pub shown: Option<CodenamesState>,
}

impl View for CodenamesPlayer {
    type V = PlayerModel;

    open spec fn view(&self) -> PlayerModel {
        PlayerModel {
            team: self.team,
            role: self.role,
            queue: string_views(self.chat_queue@),
            shown: self.state_prompted,
        }
    }
}

impl Default for CodenamesPlayer {
    /// A newly seen session floats outside both teams and only watches.
    fn default() -> (p: CodenamesPlayer)
        ensures
            p@ == (PlayerModel {
                team: CodenamesTeam::Floating,
                role: CodenamesRole::Spectator,
                queue: Seq::<Seq<char>>::empty(),
                shown: None::<CodenamesState>,
            }),
    {
        let p = CodenamesPlayer {
            team: CodenamesTeam::Floating,
            role: CodenamesRole::Spectator,
            chat_queue: std::collections::VecDeque::new(),
            state_prompted: None,
        };
        proof {
            assert(p@.queue =~= Seq::<Seq<char>>::empty());
        }
        p
    }
}

/// The views of a sequence of owned strings.
pub open spec fn string_views(s: Seq<String>) -> Seq<Seq<char>> {
    s.map_values(|x: String| x@)
}

/// The views of a sequence of cards.
pub open spec fn card_views(s: Seq<CodenamesCard>) -> Seq<CardModel> {
    s.map_values(|c: CodenamesCard| c@)
}

/// The kinds of a board's cards, in board order.
pub open spec fn kinds_of(b: Seq<CardModel>) -> Seq<CodenamesCardType> {
    b.map_values(|c: CardModel| c.kind)
}

/// The words of a board's cards, in board order.
pub open spec fn words_of(b: Seq<CardModel>) -> Seq<Seq<char>> {
    b.map_values(|c: CardModel| c.word)
}

/// A well-formed board: 25 cards whose hidden kinds are exactly 9 red
/// agents, 8 blue agents, 7 bystanders and 1 assassin, every word distinct.
pub open spec fn board_wf(b: Seq<CardModel>) -> bool {
    &&& b.len() == 25
    &&& kinds_of(b).to_multiset().count(CodenamesCardType::RedAgent) == 9
    &&& kinds_of(b).to_multiset().count(CodenamesCardType::BlueAgent) == 8
    &&& kinds_of(b).to_multiset().count(CodenamesCardType::Bystander) == 7
    &&& kinds_of(b).to_multiset().count(CodenamesCardType::Assassin) == 1
    &&& words_of(b).no_duplicates()
}

proof fn lemma_views_remove(s: Seq<String>, i: int)
    requires
        0 <= i < s.len(),
    ensures
        string_views(s.remove(i)) =~= string_views(s).remove(i),
{
    s.remove_ensures(i);
    string_views(s).remove_ensures(i);
}

proof fn lemma_card_views_push(s: Seq<CodenamesCard>, c: CodenamesCard)
    ensures
        card_views(s.push(c)) =~= card_views(s).push(c@),
        kinds_of(card_views(s.push(c))) =~= kinds_of(card_views(s)).push(c.card_type),
        words_of(card_views(s.push(c))) =~= words_of(card_views(s)).push(c.word@),
{
}

proof fn lemma_to_multiset_empty<A>(s: Seq<A>)
    requires
        s.len() == 0,
    ensures
        s.to_multiset() =~= Multiset::<A>::empty(),
{
    broadcast use to_multiset_contains;
    broadcast use vstd::multiset::group_multiset_axioms;

    assert forall|x: A| s.to_multiset().count(x) == 0 by {
        assert(!s.contains(x));
    }
}

/// Whether the words of the pool are pairwise distinct.
#[verifier::loop_isolation(false)]
pub fn all_words_distinct(words: &Vec<String>) -> (r: bool)
    ensures
        r == string_views(words@).no_duplicates(),
{
    let ghost wv = string_views(words@);
    let n = words.len();
    let mut i: usize = 0;
    while i < n
        invariant
            0 <= i <= n,
            forall|a: int, b: int| 0 <= a < b < i ==> wv[a] != wv[b],
        decreases n - i,
    {
        let mut j: usize = 0;
        while j < i
            invariant
                0 <= j <= i < n,
                forall|b: int| 0 <= b < j ==> wv[b] != wv[i as int],
            decreases i - j,
        {
            if words[j] == words[i] {
                assert(wv[j as int] == wv[i as int]);
                assert(!wv.no_duplicates());
                return false;
            }
            j = j + 1;
        }
        i = i + 1;
    }
    true
}

/// Builds the 25-card kind pool: 8 blue agents, 9 red agents, 7 bystanders
/// and one assassin, before the random deal spreads them over the board.
#[verifier::loop_isolation(false)]
fn build_kind_pool() -> (kinds: Vec<CodenamesCardType>)
    ensures
        kinds@.len() == 25,
        kinds@.to_multiset().count(CodenamesCardType::RedAgent) == 9,
        kinds@.to_multiset().count(CodenamesCardType::BlueAgent) == 8,
        kinds@.to_multiset().count(CodenamesCardType::Bystander) == 7,
        kinds@.to_multiset().count(CodenamesCardType::Assassin) == 1,
{
    broadcast use to_multiset_build;
    broadcast use vstd::multiset::group_multiset_axioms;

    let mut kinds: Vec<CodenamesCardType> = Vec::new();
    proof {
        lemma_to_multiset_empty(kinds@);
    }
    let mut i: usize = 0;
    while i < 8
        invariant
            0 <= i <= 8,
            kinds@.len() == i,
            kinds@.to_multiset().count(CodenamesCardType::BlueAgent) == i,
            kinds@.to_multiset().count(CodenamesCardType::RedAgent) == 0,
            kinds@.to_multiset().count(CodenamesCardType::Bystander) == 0,
            kinds@.to_multiset().count(CodenamesCardType::Assassin) == 0,
        decreases 8 - i,
    {
        kinds.push(CodenamesCardType::BlueAgent);
        i = i + 1;
    }
    let mut i: usize = 0;
    while i < 9
        invariant
            0 <= i <= 9,
            kinds@.len() == 8 + i,
            kinds@.to_multiset().count(CodenamesCardType::BlueAgent) == 8,
            kinds@.to_multiset().count(CodenamesCardType::RedAgent) == i,
            kinds@.to_multiset().count(CodenamesCardType::Bystander) == 0,
            kinds@.to_multiset().count(CodenamesCardType::Assassin) == 0,
        decreases 9 - i,
    {
        kinds.push(CodenamesCardType::RedAgent);
        i = i + 1;
    }
    let mut i: usize = 0;
    while i < 7
        invariant
            0 <= i <= 7,
            kinds@.len() == 17 + i,
            kinds@.to_multiset().count(CodenamesCardType::BlueAgent) == 8,
            kinds@.to_multiset().count(CodenamesCardType::RedAgent) == 9,
            kinds@.to_multiset().count(CodenamesCardType::Bystander) == i,
            kinds@.to_multiset().count(CodenamesCardType::Assassin) == 0,
        decreases 7 - i,
    {
        kinds.push(CodenamesCardType::Bystander);
        i = i + 1;
    }
    kinds.push(CodenamesCardType::Assassin);
    kinds
}

/// Deals a fresh board from the given word pool: every cell gets a word
/// drawn without replacement and a kind drawn without replacement from the
/// balanced kind pool, all cards face down.  Yields nothing when the pool
/// is too small or holds a repeated word.
#[verifier::loop_isolation(false)]
pub fn gen_board(words: Vec<String>) -> (r: Option<Vec<CodenamesCard>>)
    ensures
        r is Some <==> words@.len() >= 25 && string_views(words@).no_duplicates(),
        match r {
            Some(board) => {
                &&& board_wf(card_views(board@))
                &&& forall|i: int|
                    0 <= i < 25 ==> !card_views(board@)[i].flipped && string_views(
                        words@,
                    ).contains(card_views(board@)[i].word)
            },
            None => true,
        },
{
    broadcast use to_multiset_build;
    broadcast use to_multiset_remove;
    broadcast use to_multiset_contains;
    broadcast use vstd::multiset::group_multiset_axioms;

    if words.len() < 25 {
        return None;
    }
    if !all_words_distinct(&words) {
        return None;
    }
    let ghost words0 = words@;
    let mut pool = words;
    let mut kinds = build_kind_pool();
    let mut board: Vec<CodenamesCard> = Vec::new();
    proof {
        lemma_to_multiset_empty(words_of(card_views(board@)));
        lemma_to_multiset_empty(kinds_of(card_views(board@)));
        assert(words_of(card_views(board@)).to_multiset().add(
            string_views(pool@).to_multiset(),
        ) =~= string_views(pool@).to_multiset());
    }
    let mut n: usize = 0;
    while n < 25
        invariant
            0 <= n <= 25,
            board@.len() == n,
            kinds@.len() == 25 - n,
            pool@.len() == words0.len() - n,
            words_of(card_views(board@)).to_multiset().add(string_views(pool@).to_multiset())
                == string_views(words0).to_multiset(),
            kinds_of(card_views(board@)).to_multiset().count(CodenamesCardType::RedAgent)
                + kinds@.to_multiset().count(CodenamesCardType::RedAgent) == 9,
            kinds_of(card_views(board@)).to_multiset().count(CodenamesCardType::BlueAgent)
                + kinds@.to_multiset().count(CodenamesCardType::BlueAgent) == 8,
            kinds_of(card_views(board@)).to_multiset().count(CodenamesCardType::Bystander)
                + kinds@.to_multiset().count(CodenamesCardType::Bystander) == 7,
            kinds_of(card_views(board@)).to_multiset().count(CodenamesCardType::Assassin)
                + kinds@.to_multiset().count(CodenamesCardType::Assassin) == 1,
            forall|i: int| 0 <= i < n ==> !card_views(board@)[i].flipped,
        decreases 25 - n,
    {
        let wi = rand_below(pool.len());
        let ghost pool_pre = pool@;
        let word = pool.remove(wi);
        let ki = rand_below(kinds.len());
        let kind = kinds.remove(ki);
        let ghost board_pre = board@;
        let card = CodenamesCard { word, card_type: kind, flipped: false };
        board.push(card);
        n = n + 1;
        proof {
            lemma_views_remove(pool_pre, wi as int);
            lemma_card_views_push(board_pre, card);
            assert(string_views(pool_pre)[wi as int] == card@.word);
        }
    }
    proof {
        // every board word is drawn from the pool, and drawn only once
        let bw = words_of(card_views(board@));
        let w0 = string_views(words0);
        assert(forall|x: Seq<char>| #[trigger] bw.to_multiset().count(x) <= w0.to_multiset().count(
            x,
        ));
        w0.lemma_multiset_has_no_duplicates();
        assert(forall|x: Seq<char>| bw.to_multiset().contains(x) ==> bw.to_multiset().count(x)
            == 1);
        bw.lemma_multiset_has_no_duplicates_conv();
        assert forall|i: int| 0 <= i < 25 implies string_views(words0).contains(
            #[trigger] card_views(board@)[i].word,
        ) by {
            assert(bw[i] == card_views(board@)[i].word);
            assert(bw.contains(bw[i]));
            assert(bw.to_multiset().count(bw[i]) > 0);
            assert(w0.to_multiset().count(bw[i]) > 0);
            assert(w0.contains(bw[i]));
        }
    }
    Some(board)
}


/// The built-in word pool the engine deals boards from.
pub open spec fn default_word_views() -> Seq<Seq<char>> {
    seq![
        "anchor"@,
        "beacon"@,
        "candle"@,
        "dragon"@,
        "ember"@,
        "falcon"@,
        "garden"@,
        "harbor"@,
        "island"@,
        "jungle"@,
        "kernel"@,
        "lantern"@,
        "meadow"@,
        "needle"@,
        "orbit"@,
        "palace"@,
        "quartz"@,
        "ribbon"@,
        "saddle"@,
        "temple"@,
        "umbrella"@,
        "violet"@,
        "walnut"@,
        "yonder"@,
        "zephyr"@,
        "breeze"@,
        "canyon"@,
        "dagger"@,
        "eagle"@,
        "forest"@,
    ]
}

/// Whether the built-in pool can deal a board: enough words, none repeated.
pub open spec fn default_words_ok() -> bool {
    default_word_views().len() >= 25 && default_word_views().no_duplicates()
}

/// The built-in word pool, as owned strings.
pub fn default_words() -> (r: Vec<String>)
    ensures
        string_views(r@) == default_word_views(),
{
    let mut words: Vec<String> = Vec::new();
    words.push(String::from_str("anchor"));
    words.push(String::from_str("beacon"));
    words.push(String::from_str("candle"));
    words.push(String::from_str("dragon"));
    words.push(String::from_str("ember"));
    words.push(String::from_str("falcon"));
    words.push(String::from_str("garden"));
    words.push(String::from_str("harbor"));
    words.push(String::from_str("island"));
    words.push(String::from_str("jungle"));
    words.push(String::from_str("kernel"));
    words.push(String::from_str("lantern"));
    words.push(String::from_str("meadow"));
    words.push(String::from_str("needle"));
    words.push(String::from_str("orbit"));
    words.push(String::from_str("palace"));
    words.push(String::from_str("quartz"));
    words.push(String::from_str("ribbon"));
    words.push(String::from_str("saddle"));
    words.push(String::from_str("temple"));
    words.push(String::from_str("umbrella"));
    words.push(String::from_str("violet"));
    words.push(String::from_str("walnut"));
    words.push(String::from_str("yonder"));
    words.push(String::from_str("zephyr"));
    words.push(String::from_str("breeze"));
    words.push(String::from_str("canyon"));
    words.push(String::from_str("dagger"));
    words.push(String::from_str("eagle"));
    words.push(String::from_str("forest"));
    proof {
        assert(string_views(words@) =~= default_word_views());
    }
    words
}

} // verus!
