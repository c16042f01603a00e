use scrabrudo::bet::{tile_counts, ScrabrudoBet};
use scrabrudo::dict::{has_word, words_with_max_length, Dictionary};
use scrabrudo::game::{GameState, HistoricalBet};
use scrabrudo::hand::{Hand, Holdable};
use scrabrudo::player::{Player, ScrabrudoPlayer};
use scrabrudo::tile::{tile_for_draw, Tile};
use scrabrudo::input::{parse_word_answer, WordAnswer};
use scrabrudo::game::{ScrabrudoGame, TurnOutcome};

fn word(w: &str) -> ScrabrudoBet {
    ScrabrudoBet::from_word(&w.to_string())
}

fn dictionary(words: &[&str]) -> Dictionary {
    Dictionary::from_words(&words.iter().map(|w| w.to_string()).collect())
}

#[test]
fn represents_tiles_as_usize() {
    assert_eq!(0, Tile::A.as_usize());
    assert_eq!(25, Tile::Z.as_usize());
    assert_eq!(26, Tile::Blank.as_usize());
}

#[test]
fn creates_tiles_from_usize() {
    assert_eq!(Tile::A, Tile::from_usize(0));
    assert_eq!(Tile::Z, Tile::from_usize(25));
    assert_eq!(Tile::Blank, Tile::from_usize(26));
}

#[test]
fn tiles_and_characters() {
    assert_eq!(Tile::Q, Tile::from_char('q'));
    assert_eq!('q', Tile::Q.char());
    assert_eq!(Tile::Blank, Tile::from_char('_'));
    assert_eq!(26, Tile::all().len());
    assert_eq!(10, Tile::Z.score());
    assert_eq!(0, Tile::Blank.score());
    assert_eq!(12, Tile::E.frequency());
    let total: u32 = Tile::all().iter().map(|t| t.frequency()).sum::<u32>() + Tile::Blank.frequency();
    assert_eq!(100, total);
    let _ = Tile::get_random();
    assert_eq!(4, Hand::<Tile>::new(4).items.len());
}

#[test]
fn converts_bet_to_word_and_back() {
    let bet = ScrabrudoBet { tiles: vec![Tile::C, Tile::A, Tile::T] };
    assert_eq!("cat", bet.as_word());
    assert_eq!(word("cat"), bet);
    assert_eq!(vec![Tile::C, Tile::A, Tile::T], word("cat").tiles);
    assert_eq!("", ScrabrudoBet::smallest().as_word());
}

#[test]
fn scores_words() {
    assert_eq!(5, word("cat").score());
    assert_eq!(22, word("quiz").score());
    assert_eq!(0, ScrabrudoBet::smallest().score());
}

#[test]
fn orders_word_bets_correctly() {
    let bets = vec![
        word("a"),
        word("at"),
        word("cat"),
        word("chat"),
        word("zhat"),
        word("chart"),
        word("chariot"),
        word("chariots"),
    ];
    for i in 0..bets.len() - 1 {
        assert_eq!(bets[i], bets[i].clone());
        assert!(bets[i] < bets[i + 1]);
        assert!(bets[i + 1] > bets[i]);
    }
}

#[test]
fn treats_anagram_bets_equally() {
    assert_eq!(word("cat"), word("act"));
    assert_eq!(word("desserts"), word("stressed"));
    assert_ne!(word("dessert"), word("stressed"));
    assert_ne!(word("cat"), word("cab"));
}

#[test]
fn checks_bet_correctness() {
    assert!(word("cat").is_correct(&vec![Tile::C, Tile::A, Tile::T], false));
    assert!(word("cat").is_correct(&vec![Tile::C, Tile::A, Tile::Blank], false));
    assert!(!word("cat").is_correct(&vec![Tile::C, Tile::Blank], false));
    assert!(word("cat").is_correct(&vec![Tile::C, Tile::A, Tile::T, Tile::H], false));
    assert!(word("chat").is_correct(&vec![Tile::Blank, Tile::A, Tile::T, Tile::H], false));
}

#[test]
fn constrains_bet_correctness_including_palafico() {
    let table = vec![
        Tile::Blank, Tile::C, Tile::T, Tile::B, Tile::O, Tile::O, Tile::T, Tile::S, Tile::E,
    ];
    // "cat" is there, but the table holds a second t.
    assert!(word("cat").is_correct(&table, false));
    assert!(!word("cat").is_correct(&table, true));
    // Same with "boot".
    assert!(word("boot").is_correct(&table, false));
    assert!(!word("boot").is_correct(&table, true));
    // Nonsense that the table cannot make.
    assert!(!word("ccatbo").is_correct(&table, false));
    // An exact word, the blank standing in for the a.
    assert!(word("caboose").is_correct(&table, true));
}

#[test]
fn exact_bets_must_use_every_blank() {
    let table = vec![Tile::C, Tile::A, Tile::T, Tile::Blank];
    assert!(word("cat").is_correct(&table, false));
    assert!(!word("cat").is_correct(&table, true));
    assert!(word("cat").is_correct(&vec![Tile::C, Tile::A, Tile::T], true));
}

#[test]
fn counts_tiles_by_kind() {
    let counts = tile_counts(&vec![Tile::A, Tile::Blank, Tile::A]);
    assert_eq!(27, counts.len());
    assert_eq!(2, counts[0]);
    assert_eq!(1, counts[26]);
    assert_eq!(0, counts[1]);
}

#[test]
fn finds_the_tiles_still_to_find() {
    let player = ScrabrudoPlayer { id: 0, human: false, hand: Hand { items: vec![Tile::X, Tile::X, Tile::A, Tile::K] } };
    let state = GameState::<ScrabrudoBet> { total_num_items: 20, num_items_per_player: vec![4, 16], history: vec![] };
    let bet = word("attack");
    assert_eq!(vec![Tile::A, Tile::C, Tile::T, Tile::T], bet.tiles_to_find(&state, &player));
    let believed = GameState::<ScrabrudoBet> {
        total_num_items: 20,
        num_items_per_player: vec![4, 16],
        history: vec![HistoricalBet { index: 1, bet: word("tc") }],
    };
    assert_eq!(vec![Tile::A, Tile::T], bet.tiles_to_find(&believed, &player));
    assert!(word("ax").tiles_to_find(&state, &player).is_empty());
}

#[test]
fn loads_bets_for_a_number_of_tiles() {
    let dict = dictionary(&["a", "at", "cat", "chat", "chart", "Bad", "it's"]);
    assert_eq!(5, dict.words.len());
    let state = GameState::<ScrabrudoBet> { total_num_items: 4, num_items_per_player: vec![4], history: vec![] };
    let bets = ScrabrudoBet::all(&state, &dict);
    assert_eq!(4, bets.len());
    for bet in &bets {
        assert!(bet.tiles.len() <= 4);
    }
    assert_eq!("chat", bets[3].as_word());
}

#[test]
fn looks_up_words() {
    let dict = dictionary(&["an", "ant", "bee"]);
    assert!(has_word(&dict, &"ant".to_string()));
    assert!(!has_word(&dict, &"ants".to_string()));
    assert_eq!(vec!["an".to_string()], words_with_max_length(&dict, 2));
    assert!(words_with_max_length(&dict, 0).is_empty());
    assert_eq!(3, words_with_max_length(&dict, 3).len());
}

#[test]
fn tile_players_count_their_tiles() {
    let p = ScrabrudoPlayer { id: 2, human: false, hand: Hand { items: vec![Tile::A, Tile::B, Tile::A] } };
    assert_eq!(2, p.num_items_with(Tile::A));
    assert_eq!(2, p.num_logical_items(Tile::A));
    assert_eq!(3, p.num_items());
    assert_eq!(2, p.without_one().num_items());
    assert_eq!(4, p.with_one().num_items());
    assert_eq!(p.items().clone(), p.cloned().hand.items);
    assert_eq!(3, p.refresh().items().len());
}

#[test]
fn reads_word_answers() {
    let current = word("cat");
    assert!(matches!(parse_word_answer("*p\n", &current, false), WordAnswer::Perudo));
    assert!(matches!(parse_word_answer("  *pal ", &current, false), WordAnswer::Palafico));
    match parse_word_answer("chat\n", &current, false) {
        WordAnswer::Bet(b) => assert_eq!("chat", b.as_word()),
        _ => panic!("expected a bet"),
    }
    // Not above the bet in play.
    assert!(matches!(parse_word_answer("act", &current, false), WordAnswer::Invalid));
    assert!(matches!(parse_word_answer("at", &current, false), WordAnswer::Invalid));
    // Not a word of letters.
    assert!(matches!(parse_word_answer("Chat", &current, false), WordAnswer::Invalid));
    assert!(matches!(parse_word_answer("ch4t", &current, false), WordAnswer::Invalid));
    assert!(matches!(parse_word_answer("", &ScrabrudoBet::smallest(), true), WordAnswer::Invalid));
    // At the opening of a round there is nothing to challenge.
    assert!(matches!(parse_word_answer("*p", &ScrabrudoBet::smallest(), true), WordAnswer::Invalid));
    assert!(matches!(parse_word_answer("*pal", &ScrabrudoBet::smallest(), true), WordAnswer::Invalid));
    assert!(matches!(parse_word_answer("a", &ScrabrudoBet::smallest(), true), WordAnswer::Bet(_)));
}

#[test]
fn word_game_resolves_challenges() {
    let seat = |id: usize, items: Vec<Tile>| ScrabrudoPlayer { id, human: false, hand: Hand { items } };
    let game = ScrabrudoGame::new_with(
        vec![
            seat(0, vec![Tile::Blank, Tile::C, Tile::T]),
            seat(1, vec![Tile::B, Tile::O, Tile::O, Tile::T, Tile::S, Tile::E]),
        ],
        1,
        TurnOutcome::Bet(word("cat")),
        vec![HistoricalBet { index: 0, bet: word("cat") }],
    );
    assert!(game.is_correct(&word("cat")));
    assert!(!game.is_exactly_correct(&word("cat")));
    assert!(game.is_correct(&word("boot")));
    assert!(!game.is_exactly_correct(&word("boot")));
    assert!(!game.is_correct(&word("ccatbo")));
    assert!(game.is_exactly_correct(&word("caboose")));
    assert_eq!(9, game.total_num_items());
    assert_eq!(2, game.num_items_with(Tile::T));
    // "cat" holds: the challenger, seat 1, loses a tile.
    let next = game.apply_outcome(TurnOutcome::Perudo);
    assert_eq!(vec![3, 5], next.num_items_per_player());
    assert_eq!(1, next.current_index);
    // "cat" is not exact: the exact challenger loses a tile too.
    let next = game.apply_outcome(TurnOutcome::Palafico);
    assert_eq!(vec![3, 5], next.num_items_per_player());
    // A bet passes the turn on and is recorded.
    let next = game.apply_outcome(TurnOutcome::Bet(word("boot")));
    assert_eq!(0, next.current_index);
    assert_eq!(2, next.history.len());
    assert_eq!("boot", next.history[1].bet.as_word());
    assert_eq!("boot", next.last_bet().as_word());
}

#[test]
fn word_game_eliminates_and_rewards() {
    let seat = |id: usize, items: Vec<Tile>| ScrabrudoPlayer { id, human: false, hand: Hand { items } };
    // The table holds exactly "at": an exact challenge by seat 0 wins a tile.
    let game = ScrabrudoGame::new_with(
        vec![seat(0, vec![Tile::A]), seat(1, vec![Tile::T])],
        0,
        TurnOutcome::Bet(word("at")),
        vec![],
    );
    let next = game.apply_outcome(TurnOutcome::Palafico);
    assert_eq!(vec![2, 1], next.num_items_per_player());
    assert_eq!(TurnOutcome::First, next.current_outcome);
    // "ta" holds too, so challenging it costs seat 0 its only tile.
    let lost = game.apply_outcome(TurnOutcome::Perudo);
    assert_eq!(1, lost.players.len());
    assert_eq!(1, lost.players[0].id);
    assert_eq!(TurnOutcome::Win, lost.current_outcome);
    let fresh = ScrabrudoGame::new(3, 4, &std::collections::HashSet::new());
    assert_eq!(vec![4, 4, 4], fresh.num_items_per_player());
}

#[test]
fn word_bets_above() {
    let dict = dictionary(&["a", "at", "cat", "act", "chat", "tac"]);
    let state = GameState::<ScrabrudoBet> { total_num_items: 3, num_items_per_player: vec![3], history: vec![] };
    let above: Vec<String> = word("at").all_above(&state, &dict).iter().map(|b| b.as_word()).collect();
    assert_eq!(vec!["cat", "act", "tac"], above);
    let above: Vec<String> = word("bat").all_above(&state, &dict).iter().map(|b| b.as_word()).collect();
    assert_eq!(vec!["cat", "tac"], above);
}

#[test]
fn lists_the_answers_open_to_a_tile_player() {
    let dict = dictionary(&["a", "at", "cat", "chat"]);
    let state = GameState::<ScrabrudoBet> { total_num_items: 3, num_items_per_player: vec![2, 1], history: vec![] };
    let opening = ScrabrudoPlayer::options(&state, &dict, &TurnOutcome::First);
    let words: Vec<String> = opening
        .iter()
        .map(|o| match o {
            TurnOutcome::Bet(b) => b.as_word(),
            _ => panic!("only bets open a round"),
        })
        .collect();
    assert_eq!(vec!["a", "at", "cat"], words);
    let answers = ScrabrudoPlayer::options(&state, &dict, &TurnOutcome::Bet(word("at")));
    assert_eq!(3, answers.len());
    assert_eq!(TurnOutcome::Perudo, answers[0]);
    assert_eq!(TurnOutcome::Palafico, answers[1]);
    assert_eq!(TurnOutcome::Bet(word("cat")), answers[2]);
}

#[test]
fn blank_words_order_by_character() {
    // The blank's `_` comes before every letter.
    assert!(word("_t") < word("at"));
    assert!(word("z_") < word("za"));
    assert!(word("__") < word("a_"));
}

#[test]
fn dictionary_keeps_each_word_once() {
    let dict = dictionary(&["cat", "at", "cat", "Cat", "at", "dog"]);
    assert_eq!(vec!["cat".to_string(), "at".to_string(), "dog".to_string()], dict.words);
    let state = GameState::<ScrabrudoBet> { total_num_items: 3, num_items_per_player: vec![3], history: vec![] };
    assert_eq!(3, ScrabrudoBet::all(&state, &dict).len());
}

#[test]
fn draws_map_to_tiles_by_frequency() {
    // Nine a's, then two b's, two c's, ... and two blanks at the end.
    assert_eq!(Tile::A, tile_for_draw(0));
    assert_eq!(Tile::A, tile_for_draw(8));
    assert_eq!(Tile::B, tile_for_draw(9));
    assert_eq!(Tile::B, tile_for_draw(10));
    assert_eq!(Tile::C, tile_for_draw(11));
    assert_eq!(Tile::Z, tile_for_draw(97));
    assert_eq!(Tile::Blank, tile_for_draw(98));
    assert_eq!(Tile::Blank, tile_for_draw(99));
    let mut counts = [0u32; 27];
    for d in 0..100 {
        counts[tile_for_draw(d).as_usize()] += 1;
    }
    assert_eq!(12, counts[Tile::E.as_usize()]);
    assert_eq!(2, counts[Tile::Blank.as_usize()]);
}
