use scrabrudo::bet::{PerudoBet, ProbVariant, Probability};
use scrabrudo::die::Die;
use scrabrudo::game::{GameState, HistoricalBet, PerudoGame, TurnOutcome};
use scrabrudo::hand::{Dealer, Hand, Holdable, RandomDealer};
use scrabrudo::player::{PerudoPlayer, Player};
use std::collections::HashSet;
use scrabrudo::input::{parse_dice_answer, trim};

fn bet(v: Die, q: usize) -> PerudoBet {
    PerudoBet { value: v, quantity: q }
}

fn player(id: usize, items: Vec<Die>) -> PerudoPlayer {
    PerudoPlayer { id, human: false, hand: Hand { items } }
}

fn state(total: usize, per_player: Vec<usize>) -> GameState<PerudoBet> {
    GameState { total_num_items: total, num_items_per_player: per_player, history: vec![] }
}

fn prob(n: u128, d: u128) -> Option<Probability> {
    Some(Probability { numerator: n, denominator: d })
}

#[test]
fn die_values_round_trip() {
    assert_eq!(6, Die::all().len());
    for x in 1..=6usize {
        assert_eq!(x as u32, Die::from_usize(x).face_value());
    }
    assert_eq!(Die::One, Die::from_usize(1));
    assert_eq!(Die::Six, Die::from_usize(6));
}

#[test]
fn deals_a_hand_of_five() {
    let hand = Hand::<Die>::new(5);
    assert_eq!(5, hand.items.len());
    let dealt: Vec<Die> = RandomDealer::new().deal_n(7);
    assert_eq!(7, dealt.len());
    let d = Die::get_random();
    assert!((1..=6).contains(&d.face_value()));
}

#[test]
fn orders_bets_correctly() {
    let bets = vec![
        bet(Die::Two, 1),
        bet(Die::Two, 2),
        bet(Die::Two, 3),
        bet(Die::Three, 3),
        bet(Die::Three, 4),
        bet(Die::Two, 5),
        bet(Die::Two, 6),
        bet(Die::Three, 8),
        bet(Die::Six, 10),
    ];
    assert_eq!(bets[0], bets[0].clone());
    for i in 0..bets.len() - 1 {
        assert!(bets[i] < bets[i + 1]);
        assert!(bets[i + 1] > bets[i]);
    }
}

#[test]
fn orders_ace_bets_correctly() {
    // One ace counts as two of an ordinary face, and never ties with one.
    let bets = vec![
        bet(Die::Two, 1),
        bet(Die::One, 1),
        bet(Die::Two, 3),
        bet(Die::Two, 4),
        bet(Die::One, 2),
        bet(Die::One, 3),
        bet(Die::Five, 7),
        bet(Die::One, 4),
        bet(Die::Six, 9),
    ];
    for i in 0..bets.len() - 1 {
        assert!(bets[i] < bets[i + 1]);
        assert!(bets[i + 1] > bets[i]);
    }
}

#[test]
fn ace_lifting_example() {
    let chain = [
        bet(Die::Two, 1),
        bet(Die::One, 1),
        bet(Die::Two, 3),
        bet(Die::Two, 4),
        bet(Die::One, 2),
    ];
    for i in 0..chain.len() - 1 {
        assert!(chain[i] < chain[i + 1]);
    }
}

#[test]
fn order_is_total_on_samples() {
    let all = PerudoBet::all(&state(4, vec![4]));
    for a in &all {
        for b in &all {
            let lt = a < b;
            let eq = a == b;
            let gt = a > b;
            assert_eq!(1, lt as u32 + eq as u32 + gt as u32);
            // Seen from the other side, the answer is reversed.
            assert_eq!(lt, b > a);
            assert_eq!(gt, b < a);
            assert_eq!(a.partial_cmp(b).map(|o| o.reverse()), b.partial_cmp(a));
            for c in &all {
                if a > b && b > c {
                    assert!(a > c);
                }
            }
            if (a.value == Die::One) != (b.value == Die::One) {
                assert_ne!(Some(std::cmp::Ordering::Equal), a.partial_cmp(b));
            }
        }
    }
    // More dice on a lower face is a raise.
    assert!(bet(Die::Two, 4) > bet(Die::Three, 3));
    assert!(bet(Die::Three, 3) < bet(Die::Two, 4));
    assert!(bet(Die::Two, 5) > bet(Die::Three, 4));
    // One ace never equals two of another face.
    assert!(bet(Die::One, 1) != bet(Die::Two, 2));
    assert!(bet(Die::One, 1) > bet(Die::Two, 2));
    assert!(bet(Die::Two, 3) > bet(Die::One, 1));
}

#[test]
fn smallest_is_below_every_bet() {
    let smallest = PerudoBet::smallest();
    assert_eq!(bet(Die::Two, 0), smallest);
    for b in PerudoBet::all(&state(3, vec![3])) {
        assert!(b > smallest);
    }
}

#[test]
fn enumerates_all_bets() {
    let all = PerudoBet::all(&state(2, vec![1, 1]));
    assert_eq!(12, all.len());
    assert_eq!(bet(Die::One, 1), all[0]);
    assert_eq!(bet(Die::One, 2), all[1]);
    assert_eq!(bet(Die::Two, 1), all[2]);
    assert_eq!(bet(Die::Six, 2), all[11]);
    assert!(PerudoBet::all(&state(0, vec![])).is_empty());
}

#[test]
fn generates_all_above() {
    let in_play = bet(Die::Two, 1);
    assert_eq!(
        vec![
            bet(Die::One, 1),
            bet(Die::One, 2),
            bet(Die::Two, 2),
            bet(Die::Three, 1),
            bet(Die::Three, 2),
            bet(Die::Four, 1),
            bet(Die::Four, 2),
            bet(Die::Five, 1),
            bet(Die::Five, 2),
            bet(Die::Six, 1),
            bet(Die::Six, 2),
        ],
        in_play.all_above(&state(2, vec![1, 1]))
    );
}

#[test]
fn all_above_is_the_filter_of_all() {
    let s = state(5, vec![3, 2]);
    for b in PerudoBet::all(&s) {
        let above = b.all_above(&s);
        let expected: Vec<PerudoBet> = PerudoBet::all(&s).into_iter().filter(|x| *x > b).collect();
        assert_eq!(expected, above);
        assert!(!above.contains(&b));
    }
}

#[test]
fn computes_probability_for_bets() {
    let p = player(0, vec![Die::One, Die::Two, Die::Three, Die::Four, Die::Five]);
    let s = state(6, vec![5, 1]);
    // Bets on ones, given one in the hand.
    assert_eq!(prob(6, 6), bet(Die::One, 0).prob(&s, ProbVariant::Bet, &p));
    assert_eq!(prob(6, 6), bet(Die::One, 1).prob(&s, ProbVariant::Bet, &p));
    assert_eq!(prob(1, 6), bet(Die::One, 2).prob(&s, ProbVariant::Bet, &p));
    // Two twos in hand already, counting the ace.
    assert_eq!(prob(6, 6), bet(Die::Two, 0).prob(&s, ProbVariant::Bet, &p));
    assert_eq!(prob(6, 6), bet(Die::Two, 1).prob(&s, ProbVariant::Bet, &p));
    assert_eq!(prob(6, 6), bet(Die::Two, 2).prob(&s, ProbVariant::Bet, &p));
    assert_eq!(prob(2, 6), bet(Die::Two, 3).prob(&s, ProbVariant::Bet, &p));
    assert_eq!(prob(0, 6), bet(Die::Two, 4).prob(&s, ProbVariant::Bet, &p));
}

#[test]
fn computes_binomial_tails_exactly() {
    let p = player(0, vec![Die::Three]);
    let s = state(3, vec![1, 2]);
    // Two unseen dice, each a five (or ace) with chance 2/6.
    // At least one: 1 - (4/6)^2 = 20/36.
    assert_eq!(prob(20, 36), bet(Die::Five, 1).bet_prob(&s, &p));
    // Both: 4/36.
    assert_eq!(prob(4, 36), bet(Die::Five, 2).bet_prob(&s, &p));
    // Exactly one: 2 * 2 * 4 = 16/36.
    assert_eq!(prob(16, 36), bet(Die::Five, 1).palafico_prob(&s, &p));
    // Exactly none: 16/36.
    assert_eq!(prob(16, 36), bet(Die::Five, 0).palafico_prob(&s, &p));
    // Aces match on one face only: at least one of two is 11/36.
    assert_eq!(prob(11, 36), bet(Die::One, 1).bet_prob(&s, &p));
    // A challenge wins when the bet fails.
    assert_eq!(prob(16, 36), bet(Die::Five, 1).perudo_prob(&s, &p));
    assert_eq!(prob(16, 36), bet(Die::Five, 1).prob(&s, ProbVariant::Perudo, &p));
    // More than the table holds.
    assert_eq!(prob(0, 36), bet(Die::Five, 3).bet_prob(&s, &p));
    assert_eq!(prob(0, 36), bet(Die::Five, 3).palafico_prob(&s, &p));
}

#[test]
fn exact_probability_is_zero_below_the_hand() {
    let p = player(0, vec![Die::Six, Die::Six]);
    let s = state(3, vec![2, 1]);
    assert_eq!(prob(0, 6), bet(Die::Six, 1).palafico_prob(&s, &p));
    assert_eq!(prob(4, 6), bet(Die::Six, 2).palafico_prob(&s, &p));
}

#[test]
fn guaranteed_bets_are_certain() {
    let p = player(0, vec![Die::One, Die::Four, Die::Four]);
    let s = state(9, vec![3, 6]);
    for q in 0..=3 {
        let r = bet(Die::Four, q).bet_prob(&s, &p).unwrap();
        assert_eq!(r.numerator, r.denominator);
    }
    let r = bet(Die::Four, 4).bet_prob(&s, &p).unwrap();
    assert!(r.numerator < r.denominator);
}

#[test]
fn probability_does_not_rise_with_quantity() {
    let p = player(0, vec![Die::One, Die::Two, Die::Six]);
    let s = state(12, vec![3, 9]);
    for face in Die::all() {
        let mut last = u128::MAX;
        for q in 0..=13 {
            let r = bet(face, q).bet_prob(&s, &p).unwrap();
            assert!(r.numerator <= last);
            last = r.numerator;
        }
        assert_eq!(0, last);
    }
}

#[test]
fn refuses_counts_that_do_not_fit() {
    let p = player(0, vec![Die::Two]);
    let big = state(60, vec![1, 59]);
    assert_eq!(None, bet(Die::Two, 3).bet_prob(&big, &p));
    assert_eq!(None, bet(Die::Two, 3).palafico_prob(&big, &p));
    assert_eq!(None, p.best_outcomes_above(&big, &bet(Die::Two, 3)));
    // A bet the hand guarantees is certain, however many dice are unseen.
    let sure = bet(Die::Two, 1);
    assert_eq!(prob(1, 1), sure.bet_prob(&big, &p));
    assert_eq!(prob(1, 1), sure.prob(&big, ProbVariant::Bet, &p));
    assert_eq!(prob(0, 1), sure.perudo_prob(&big, &p));
    assert_eq!(None, sure.palafico_prob(&big, &p));
    let fits = state(50, vec![1, 49]);
    let r = bet(Die::Two, 3).bet_prob(&fits, &p).unwrap();
    assert_eq!(6u128.pow(49), r.denominator);
}

#[test]
fn generates_the_most_likely_bet() {
    let p = player(0, vec![Die::Six, Die::Six, Die::Six, Die::Six, Die::Six]);
    let s = state(5, vec![5]);
    let opponent_bet = bet(Die::Six, 4);
    assert_eq!(Some(vec![TurnOutcome::Bet(bet(Die::Six, 5))]), p.best_outcomes_above(&s, &opponent_bet));
    assert_eq!(Some(TurnOutcome::Bet(bet(Die::Six, 5))), p.best_outcome_above(&s, &opponent_bet));
}

#[test]
fn calls_palafico_with_no_other_option() {
    let p = player(0, vec![Die::Six]);
    let s = state(2, vec![1, 1]);
    let opponent_bet = bet(Die::Six, 1);
    assert_eq!(Some(vec![TurnOutcome::Palafico]), p.best_outcomes_above(&s, &opponent_bet));
    assert_eq!(Some(TurnOutcome::Palafico), p.best_outcome_above(&s, &opponent_bet));
}

#[test]
fn ties_keep_every_best_answer() {
    // A five in hand and one unseen die: one five is certain, and one two,
    // three or six each needs the unseen die to match on two faces of six.
    let p = player(0, vec![Die::Five]);
    let s = state(2, vec![1, 1]);
    let best = PerudoBet::best_bets_from(&s, &p, &PerudoBet::all(&s)).unwrap();
    assert_eq!(vec![bet(Die::Five, 1)], best);
    let candidates = vec![bet(Die::Two, 1), bet(Die::Three, 1), bet(Die::Four, 2), bet(Die::Six, 1)];
    let best = PerudoBet::best_bets_from(&s, &p, &candidates).unwrap();
    assert_eq!(vec![bet(Die::Two, 1), bet(Die::Three, 1), bet(Die::Six, 1)], best);
    for _ in 0..20 {
        let chosen = PerudoBet::best_bet_from(&s, &p, &candidates).unwrap();
        assert!(best.contains(&chosen));
    }
    assert_eq!(None, PerudoBet::best_bet_from(&s, &p, &vec![]));
    let first = PerudoBet::best_first_bet(&s, &p).unwrap();
    assert_eq!(bet(Die::Five, 1), first);
}

#[test]
fn opening_bet_is_never_on_aces() {
    let p = player(0, vec![Die::One, Die::One, Die::One]);
    let s = state(6, vec![3, 3]);
    for _ in 0..20 {
        let b = PerudoBet::best_first_bet(&s, &p).unwrap();
        assert_ne!(Die::One, b.value);
        // Three aces guarantee up to three of any face.
        assert!(b.quantity >= 1 && b.quantity <= 3);
        let r = b.bet_prob(&s, &p).unwrap();
        assert_eq!(r.numerator, r.denominator);
    }
    assert_eq!(None, PerudoBet::best_first_bet(&state(0, vec![]), &player(0, vec![])));
}

#[test]
fn play_follows_the_outcome_in_play() {
    let p = player(0, vec![Die::Six, Die::Six, Die::Six, Die::Six, Die::Six]);
    let s = state(5, vec![5]);
    let answer = p.play(&s, &TurnOutcome::Bet(bet(Die::Six, 4)));
    assert_eq!(Some(TurnOutcome::Bet(bet(Die::Six, 5))), answer);
    // Any number of sixes up to five is certain.
    match p.play(&s, &TurnOutcome::First) {
        Some(TurnOutcome::Bet(b)) => assert_eq!(Die::Six, b.value),
        other => panic!("unexpected opening {:?}", other),
    }
}

#[test]
fn counts_items_with_wildcards() {
    let p = player(3, vec![Die::One, Die::Five, Die::Five, Die::Two]);
    assert_eq!(2, p.num_items_with(Die::Five));
    assert_eq!(3, p.num_logical_items(Die::Five));
    assert_eq!(1, p.num_logical_items(Die::One));
    assert_eq!(4, p.num_items());
    let b = bet(Die::Five, 3);
    assert!(b.is_correct(&p.hand.items, false));
    assert!(b.is_correct(&p.hand.items, true));
    assert!(!bet(Die::Five, 4).is_correct(&p.hand.items, false));
    assert!(!bet(Die::Five, 2).is_correct(&p.hand.items, true));
}

#[test]
fn players_copy_and_redeal() {
    let p = player(3, vec![Die::One, Die::Five, Die::Two]);
    let c = p.cloned();
    assert_eq!(p.hand.items, c.hand.items);
    assert_eq!(3, c.id());
    assert_eq!(2, p.without_one().num_items());
    assert_eq!(4, p.with_one().num_items());
    assert_eq!(3, p.refresh().num_items());
    let q = p.copy_with(Some(9), Some(true), None);
    assert_eq!(9, q.id());
    assert!(q.human());
    assert_eq!(p.hand.items, q.items().clone());
}

fn two_seat_game(a: Vec<Die>, b: Vec<Die>, current: usize, outcome: TurnOutcome<PerudoBet>) -> PerudoGame {
    PerudoGame::new_with(vec![player(0, a), player(1, b)], current, outcome, vec![])
}

#[test]
fn challenge_of_a_true_bet_costs_the_challenger() {
    // Two dice on the table, one each; the claim is one six.
    let game = two_seat_game(vec![Die::Two], vec![Die::Six], 1, TurnOutcome::Bet(bet(Die::Six, 1)));
    assert!(game.is_correct(&bet(Die::Six, 1)));
    assert!(game.is_exactly_correct(&bet(Die::Six, 1)));
    let next = game.apply_outcome(TurnOutcome::Perudo);
    // The challenger had one die left: it leaves and the other seat wins.
    assert_eq!(1, next.players.len());
    assert_eq!(0, next.players[0].id);
    assert_eq!(TurnOutcome::Win, next.current_outcome);
}

#[test]
fn exact_challenge_of_an_exact_bet_rewards_the_challenger() {
    let game = two_seat_game(vec![Die::Two], vec![Die::Six], 1, TurnOutcome::Bet(bet(Die::Six, 1)));
    let next = game.apply_outcome(TurnOutcome::Palafico);
    assert_eq!(vec![1, 2], next.num_items_per_player());
    assert_eq!(1, next.current_index);
    assert_eq!(TurnOutcome::First, next.current_outcome);
    assert!(next.history.is_empty());
}

#[test]
fn wrong_challenge_costs_the_bettor() {
    let game = two_seat_game(
        vec![Die::Two, Die::Two],
        vec![Die::Six, Die::Three],
        1,
        TurnOutcome::Bet(bet(Die::Six, 2)),
    );
    let next = game.apply_outcome(TurnOutcome::Perudo);
    assert_eq!(vec![1, 2], next.num_items_per_player());
    assert_eq!(0, next.current_index);
    assert_eq!(TurnOutcome::First, next.current_outcome);
}

#[test]
fn wrong_exact_challenge_costs_the_challenger() {
    let game = two_seat_game(
        vec![Die::Six, Die::Two],
        vec![Die::Six, Die::Three],
        0,
        TurnOutcome::Bet(bet(Die::Six, 1)),
    );
    let next = game.apply_outcome(TurnOutcome::Palafico);
    assert_eq!(vec![1, 2], next.num_items_per_player());
    assert_eq!(0, next.current_index);
}

#[test]
fn exact_reward_is_capped_at_five() {
    let five = vec![Die::Six; 5];
    let game = two_seat_game(five, vec![Die::Two], 0, TurnOutcome::Bet(bet(Die::Six, 5)));
    let next = game.apply_outcome(TurnOutcome::Palafico);
    assert_eq!(vec![5, 1], next.num_items_per_player());
}

#[test]
fn records_bets() {
    let game = two_seat_game(vec![Die::Two], vec![Die::Six], 0, TurnOutcome::First);
    let next = game.apply_outcome(TurnOutcome::Bet(bet(Die::Two, 1)));
    assert_eq!(vec![HistoricalBet { index: 0, bet: bet(Die::Two, 1) }], next.history);
    assert_eq!(1, next.current_index);
    assert_eq!(TurnOutcome::Bet(bet(Die::Two, 1)), next.current_outcome);
    assert_eq!(game.all_items(), next.all_items());
    let auto = game.run_turn();
    assert_eq!(1, auto.history.len());
}

#[test]
fn elimination_re_indexes_the_turn() {
    let game = PerudoGame::new_with(
        vec![player(0, vec![Die::Two]), player(1, vec![Die::Three]), player(2, vec![Die::Four])],
        2,
        TurnOutcome::Bet(bet(Die::Six, 3)),
        vec![],
    );
    // The bet is false: the bettor, seat 1, leaves; seat 2 moves to index 1.
    let next = game.with_end_turn(1);
    assert_eq!(2, next.players.len());
    assert_eq!(vec![0, 2], next.players.iter().map(|p| p.id).collect::<Vec<_>>());
    assert_eq!(1, next.current_index);
    let last = PerudoGame::new_with(
        vec![player(0, vec![Die::Two]), player(1, vec![Die::Three]), player(2, vec![Die::Four])],
        2,
        TurnOutcome::Bet(bet(Die::Six, 3)),
        vec![],
    )
    .with_end_turn(2);
    assert_eq!(0, last.current_index);
}

#[test]
fn state_reports_the_table() {
    let game = two_seat_game(vec![Die::One, Die::Two], vec![Die::Two], 0, TurnOutcome::First);
    let s = game.state();
    assert_eq!(3, s.total_num_items);
    assert_eq!(vec![2, 1], s.num_items_per_player);
    assert_eq!(3, game.total_num_items());
    assert_eq!(2, game.num_items_with(Die::Two));
    assert_eq!(3, game.num_logical_items(Die::Two));
    assert_eq!(bet(Die::Two, 0), game.last_bet());
    assert_eq!(vec![Die::One, Die::Two, Die::Two], game.all_items());
}

#[test]
fn automated_game_ends_within_the_eliminations() {
    for seats in 2..=4usize {
        let mut game = PerudoGame::new(seats, 3, &HashSet::new());
        assert_eq!(seats, game.players.len());
        assert_eq!(TurnOutcome::First, game.current_outcome);
        let mut eliminations = 0;
        let mut turns = 0;
        while game.current_outcome != TurnOutcome::Win {
            let before = game.players.len();
            game = game.run_turn();
            if game.players.len() < before {
                eliminations += 1;
            }
            for p in &game.players {
                assert!(p.num_items() >= 1 && p.num_items() <= 5);
            }
            turns += 1;
            assert!(turns < 10_000);
        }
        assert_eq!(1, game.players.len());
        assert!(eliminations <= seats - 1);
    }
}

#[test]
fn new_game_marks_human_seats() {
    let mut humans = HashSet::new();
    humans.insert(1usize);
    let game = PerudoGame::new(3, 5, &humans);
    assert!(!game.players[0].human);
    assert!(game.players[1].human);
    assert_eq!(vec![5, 5, 5], game.num_items_per_player());
    let made = PerudoGame::create_player(4, 2, true);
    assert_eq!(4, made.id);
    assert_eq!(2, made.num_items());
}

#[test]
fn reads_dice_answers() {
    let current = bet(Die::Two, 1);
    assert_eq!(Some(TurnOutcome::Perudo), parse_dice_answer("p\n", &current, false));
    assert_eq!(Some(TurnOutcome::Palafico), parse_dice_answer(" pal ", &current, false));
    assert_eq!(Some(TurnOutcome::Bet(bet(Die::Six, 2))), parse_dice_answer("2.6\n", &current, false));
    assert_eq!(Some(TurnOutcome::Bet(bet(Die::One, 1))), parse_dice_answer("1.1", &current, false));
    assert_eq!(Some(TurnOutcome::Bet(bet(Die::Three, 12))), parse_dice_answer("12.3.9", &current, false));
    // Not above the bet in play.
    assert_eq!(None, parse_dice_answer("1.2", &current, false));
    // No dice, no such face, or not a number.
    assert_eq!(None, parse_dice_answer("0.6", &PerudoBet::smallest(), true));
    assert_eq!(None, parse_dice_answer("2.7", &current, false));
    assert_eq!(None, parse_dice_answer("2.0", &current, false));
    assert_eq!(None, parse_dice_answer("two.six", &current, false));
    assert_eq!(None, parse_dice_answer("2", &current, false));
    assert_eq!(None, parse_dice_answer("2.", &current, false));
    assert_eq!(None, parse_dice_answer(".6", &current, false));
    assert_eq!(None, parse_dice_answer("99999999999999999999999.6", &current, false));
    assert_eq!(None, parse_dice_answer("", &current, false));
    // At the opening of a round there is nothing to challenge.
    let smallest = PerudoBet::smallest();
    assert_eq!(None, parse_dice_answer("p", &smallest, true));
    assert_eq!(None, parse_dice_answer("pal", &smallest, true));
    assert_eq!(Some(TurnOutcome::Bet(bet(Die::Two, 1))), parse_dice_answer("1.2", &smallest, true));
    // More dice on a lower face rises above the bet in play.
    assert_eq!(Some(TurnOutcome::Bet(bet(Die::Two, 5))), parse_dice_answer("5.2", &bet(Die::Three, 4), false));
    assert_eq!(vec!['a', ' ', 'b'], trim("\t a b \r\n"));
    assert!(trim("   ").is_empty());
}
