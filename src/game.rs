//! Game state and the turn state machine.
use crate::bet::{
    count_face,
    count_of,
    count_tile,
    count_tile_of,
    word_holds,
    ScrabrudoBet,
    logical_count,
    logical_count_of,
    PerudoBet,
};
use crate::chance::{lemma_outcomes_monotone, outcomes};
use crate::die::Die;
use crate::hand::Hand;
use crate::player::{copy_vec, PerudoPlayer, Player, ScrabrudoPlayer, Seat};
use crate::tile::Tile;
use std::collections::HashSet;
use vstd::prelude::*;

verus! {

broadcast use vstd::std_specs::hash::group_hash_axioms;

/// The most items a hand may hold.
pub const MAX_HAND: usize = 5;

/// The most seats a dice game may have. With at most five dice each, fewer
/// than fifty dice are ever unseen by a player, and every count of their
/// outcomes fits in a `u128`.
pub const MAX_SEATS: usize = 10;

/// What a turn produced.
#[derive(Debug, Clone, Copy, PartialEq, Eq, Hash)]
pub enum TurnOutcome<B> {
    /// A round is starting and no bet has been made.
    First,
    /// A bet was made.
    Bet(B),
    /// The previous bet was challenged.
    Perudo,
    /// The previous bet was claimed to hold exactly.
    Palafico,
    /// One player is left: the game is over.
    Win,
}

/// A bet as it stands in the history of a round.
#[derive(Debug, Clone, Copy, PartialEq)]
pub struct HistoricalBet<B> {
    /// The seat that made the bet.
    pub index: usize,
    /// The bet that was made.
    pub bet: B,
}

/// What players may know of the game.
pub struct GameState<B> {
    /// The total number of items left around the table.
    pub total_num_items: usize,
    /// The number of items each seat holds.
    pub num_items_per_player: Vec<usize>,
    /// The bets of this round so far.
    pub history: Vec<HistoricalBet<B>>,
}

/// The seats of the given players, in order.
pub open spec fn seats<P: Player>(ps: Seq<P>) -> Seq<Seat> {
    ps.map_values(|p: P| p.seat())
}

/// The seats after seat `i` loses a die: with its last die it leaves.
pub open spec fn seats_after_loss(s: Seq<Seat>, i: int) -> Seq<Seat> {
    if s[i].2 == 1 {
        s.remove(i)
    } else {
        s.update(i, (s[i].0, s[i].1, (s[i].2 - 1) as nat))
    }
}

/// The seats after seat `i` wins a die, up to a full hand.
pub open spec fn seats_after_gain(s: Seq<Seat>, i: int) -> Seq<Seat> {
    s.update(i, (s[i].0, s[i].1, if s[i].2 < MAX_HAND { s[i].2 + 1 } else { s[i].2 }))
}

/// Every player with a fresh hand of the same size.
pub fn refresh_all<P: Player>(ps: &Vec<P>) -> (r: Vec<P>)
    requires
        forall|i: int| 0 <= i < ps@.len() ==> #[trigger] ps@[i].seat().2 <= MAX_HAND,
    ensures
        seats(r@) == seats(ps@),
        r@.len() == ps@.len(),
{
    let mut r: Vec<P> = Vec::new();
    let mut i: usize = 0;
    while i < ps.len()
        invariant
            i <= ps@.len(),
            forall|k: int| 0 <= k < ps@.len() ==> #[trigger] ps@[k].seat().2 <= MAX_HAND,
            r@.len() == i,
            forall|k: int| 0 <= k < i ==> #[trigger] r@[k].seat() == ps@[k].seat(),
        decreases ps@.len() - i,
    {
        r.push(ps[i].refresh());
        i = i + 1;
    }
    assert(seats(r@) =~= seats(ps@));
    r
}

/// Every player with a fresh hand, the one at `loser` an item smaller.
pub fn refresh_all_with_loss<P: Player>(ps: &Vec<P>, loser: usize) -> (r: Vec<P>)
    requires
        loser < ps@.len(),
        forall|i: int| 0 <= i < ps@.len() ==> 1 <= #[trigger] ps@[i].seat().2 <= MAX_HAND,
    ensures
        seats(r@) == seats(ps@).update(
            loser as int,
            (ps@[loser as int].seat().0, ps@[loser as int].seat().1, (ps@[loser as int].seat().2
                - 1) as nat),
        ),
        r@.len() == ps@.len(),
{
    let ghost target = seats(ps@).update(
        loser as int,
        (ps@[loser as int].seat().0, ps@[loser as int].seat().1, (ps@[loser as int].seat().2
            - 1) as nat),
    );
    let mut r: Vec<P> = Vec::new();
    let mut i: usize = 0;
    while i < ps.len()
        invariant
            loser < ps@.len(),
            i <= ps@.len(),
            forall|k: int| 0 <= k < ps@.len() ==> 1 <= #[trigger] ps@[k].seat().2 <= MAX_HAND,
            target == seats(ps@).update(
                loser as int,
                (ps@[loser as int].seat().0, ps@[loser as int].seat().1, (ps@[loser as int].seat().2
                    - 1) as nat),
            ),
            r@.len() == i,
            forall|k: int| 0 <= k < i ==> #[trigger] r@[k].seat() == target[k],
        decreases ps@.len() - i,
    {
        let p = if i == loser {
            ps[i].without_one()
        } else {
            ps[i].refresh()
        };
        r.push(p);
        i = i + 1;
    }
    assert(seats(r@) =~= target);
    r
}

/// Every player with a fresh hand, the one at `winner` an item larger unless
/// its hand is full.
pub fn refresh_all_with_gain<P: Player>(ps: &Vec<P>, winner: usize) -> (r: Vec<P>)
    requires
        winner < ps@.len(),
        forall|i: int| 0 <= i < ps@.len() ==> #[trigger] ps@[i].seat().2 <= MAX_HAND,
    ensures
        seats(r@) == seats_after_gain(seats(ps@), winner as int),
        r@.len() == ps@.len(),
{
    let ghost target = seats_after_gain(seats(ps@), winner as int);
    let mut r: Vec<P> = Vec::new();
    let mut i: usize = 0;
    while i < ps.len()
        invariant
            winner < ps@.len(),
            i <= ps@.len(),
            forall|k: int| 0 <= k < ps@.len() ==> #[trigger] ps@[k].seat().2 <= MAX_HAND,
            target == seats_after_gain(seats(ps@), winner as int),
            r@.len() == i,
            forall|k: int| 0 <= k < i ==> #[trigger] r@[k].seat() == target[k],
        decreases ps@.len() - i,
    {
        let p = if i == winner && ps[i].num_items() < MAX_HAND {
            ps[i].with_one()
        } else {
            ps[i].refresh()
        };
        r.push(p);
        i = i + 1;
    }
    assert(seats(r@) =~= target);
    r
}

/// Every die on the table, hand after hand in seat order.
pub open spec fn table_of(ps: Seq<PerudoPlayer>) -> Seq<Die>
    decreases ps.len(),
{
    if ps.len() == 0 {
        Seq::empty()
    } else {
        table_of(ps.drop_last()) + ps.last().hand.items@
    }
}

pub proof fn lemma_table_len(ps: Seq<PerudoPlayer>, bound: nat)
    requires
        forall|i: int| 0 <= i < ps.len() ==> ps[i].hand.items@.len() <= bound,
    ensures
        table_of(ps).len() <= bound * ps.len(),
        forall|i: int| 0 <= i < ps.len() ==> ps[i].hand.items@.len() <= table_of(ps).len(),
    decreases ps.len(),
{
    if ps.len() > 0 {
        let p = ps.drop_last();
        assert forall|i: int| 0 <= i < p.len() implies p[i].hand.items@.len() <= bound by {
            assert(p[i] == ps[i]);
        }
        lemma_table_len(p, bound);
        assert(bound * (ps.len() - 1) + bound == bound * ps.len()) by (nonlinear_arith);
        assert forall|i: int| 0 <= i < ps.len() implies ps[i].hand.items@.len() <= table_of(
            ps,
        ).len() by {
            if i < ps.len() - 1 {
                assert(p[i] == ps[i]);
            }
        }
    }
}

/// A dice game: the surviving seats in order, whose turn it is, what the last
/// turn produced, and the bets of the round so far.
pub struct PerudoGame {
    pub players: Vec<PerudoPlayer>,
    pub current_index: usize,
    pub current_outcome: TurnOutcome<PerudoBet>,
    pub history: Vec<HistoricalBet<PerudoBet>>,
}

impl PerudoGame {
    /// Between one and `MAX_SEATS` seats, each holding one to `MAX_HAND` dice;
    /// the game is won exactly when one seat is left, and the turn is at a
    /// seat.
    pub open spec fn wf(self) -> bool {
        &&& 1 <= self.players@.len() <= MAX_SEATS
        &&& self.current_index < self.players@.len()
        &&& forall|i: int|
            0 <= i < self.players@.len() ==> 1 <= #[trigger] self.players@[i].hand.items@.len()
                <= MAX_HAND
        &&& (self.current_outcome is Win <==> self.players@.len() == 1)
        &&& (self.current_outcome is First || self.current_outcome is Bet
            || self.current_outcome is Win)
    }

    pub open spec fn table(self) -> Seq<Die> {
        table_of(self.players@)
    }

    /// The bet a challenge at this point is about; the sentinel when none was
    /// made.
    pub open spec fn spec_last_bet(self) -> PerudoBet {
        match self.current_outcome {
            TurnOutcome::Bet(b) => b,
            _ => PerudoBet { value: Die::Two, quantity: 0 },
        }
    }

    /// `r` is this game after a round ended with seat `loser` losing a die.
    pub open spec fn ends_with_loss(self, loser: int, r: PerudoGame) -> bool {
        let s = seats(self.players@);
        let n = seats_after_loss(s, loser).len();
        &&& seats(r.players@) == seats_after_loss(s, loser)
        &&& r.history@.len() == 0
        &&& if s[loser].2 > 1 {
            r.current_index == loser && r.current_outcome is First
        } else if n > 1 {
            r.current_index == loser % (n as int) && r.current_outcome is First
        } else {
            r.current_index == 0 && r.current_outcome is Win
        }
    }

    /// `r` is this game after a round ended with seat `winner` winning a die.
    pub open spec fn ends_with_gain(self, winner: int, r: PerudoGame) -> bool {
        &&& seats(r.players@) == seats_after_gain(seats(self.players@), winner)
        &&& r.history@.len() == 0
        &&& r.current_index == winner
        &&& r.current_outcome is First
    }

    /// `r` is what the turn of the current seat makes of this game when its
    /// player answers `o`.
    pub open spec fn spec_step(self, o: TurnOutcome<PerudoBet>, r: PerudoGame) -> bool {
        let cur = self.current_index as int;
        let n = self.players@.len() as int;
        let prev = self.spec_last_bet();
        &&& (self.current_outcome is First || self.current_outcome is Bet)
        &&& match o {
            TurnOutcome::Bet(b) => {
                &&& r.players@.len() == self.players@.len()
                &&& forall|i: int|
                    #![trigger r.players@[i]]
                    0 <= i < n ==> r.players@[i].id == self.players@[i].id
                        && r.players@[i].human == self.players@[i].human
                        && r.players@[i].hand.items@ == self.players@[i].hand.items@
                &&& r.current_index == (cur + 1) % n
                &&& r.current_outcome == TurnOutcome::Bet(b)
                &&& r.history@ == self.history@.push(
                    HistoricalBet { index: self.current_index, bet: b },
                )
            },
            TurnOutcome::Perudo => self.ends_with_loss(
                if prev.spec_is_correct(self.table(), false) {
                    cur
                } else {
                    (cur + n - 1) % n
                },
                r,
            ),
            TurnOutcome::Palafico => if prev.spec_is_correct(self.table(), true) {
                self.ends_with_gain(cur, r)
            } else {
                self.ends_with_loss(cur, r)
            },
            _ => false,
        }
    }

    /// Whether `o` is an answer the current seat's player would choose: one
    /// of its likeliest opening bets at the start of a round, otherwise one
    /// of its likeliest answers to the bet in play.
    pub open spec fn is_best_response(self, o: TurnOutcome<PerudoBet>) -> bool {
        let p = self.players@[self.current_index as int];
        let total = self.table().len();
        match self.current_outcome {
            TurnOutcome::Bet(prev) => p.best_options_above(prev, total).contains(o),
            _ => o is Bet && p.best_first_bets(total).contains(o->0),
        }
    }

    /// A game of `num_players` seats, each dealt `items_per_player` dice; the
    /// seats listed in `human_indices` are played by people.
    pub fn new(num_players: usize, items_per_player: usize, human_indices: &HashSet<usize>) -> (r:
        PerudoGame)
        requires
            2 <= num_players <= MAX_SEATS,
            1 <= items_per_player <= MAX_HAND,
        ensures
            r.wf(),
            r.players@.len() == num_players,
            forall|i: int|
                0 <= i < num_players ==> #[trigger] r.players@[i].seat() == (
                    i as usize,
                    human_indices@.contains(i as usize),
                    items_per_player as nat,
                ),
            r.current_index == 0,
            r.current_outcome is First,
            r.history@.len() == 0,
    {
        let mut players: Vec<PerudoPlayer> = Vec::new();
        let mut id: usize = 0;
        while id < num_players
            invariant
                id <= num_players,
                1 <= items_per_player <= MAX_HAND,
                players@.len() == id,
                forall|i: int|
                    0 <= i < id ==> #[trigger] players@[i].seat() == (
                        i as usize,
                        human_indices@.contains(i as usize),
                        items_per_player as nat,
                    ),
            decreases num_players - id,
        {
            let human = human_indices.contains(&id);
            players.push(PerudoGame::create_player(id, items_per_player, human));
            id = id + 1;
        }
        assert forall|i: int| 0 <= i < players@.len() implies 1
            <= #[trigger] players@[i].hand.items@.len() <= MAX_HAND by {
            assert(players@[i].seat().2 == players@[i].hand.items@.len());
        }
        PerudoGame::new_with(players, 0, TurnOutcome::First, Vec::new())
    }

    /// A game with the given fields.
    pub fn new_with(
        players: Vec<PerudoPlayer>,
        current_index: usize,
        current_outcome: TurnOutcome<PerudoBet>,
        history: Vec<HistoricalBet<PerudoBet>>,
    ) -> (r: PerudoGame)
        ensures
            r.players == players,
            r.current_index == current_index,
            r.current_outcome == current_outcome,
            r.history == history,
    {
        PerudoGame { players, current_index, current_outcome, history }
    }

    /// A player with a freshly dealt hand.
    pub fn create_player(id: usize, items_per_player: usize, human: bool) -> (r: PerudoPlayer)
        requires
            items_per_player <= u32::MAX,
        ensures
            r.seat() == (id, human, items_per_player as nat),
    {
        PerudoPlayer { id, human, hand: Hand::new(items_per_player as u32) }
    }

    pub fn players(&self) -> (r: &Vec<PerudoPlayer>)
        ensures
            r == &self.players,
    {
        &self.players
    }

    pub fn current_outcome(&self) -> (r: &TurnOutcome<PerudoBet>)
        ensures
            r == &self.current_outcome,
    {
        &self.current_outcome
    }

    pub fn current_index(&self) -> (r: usize)
        ensures
            r == self.current_index,
    {
        self.current_index
    }

    pub fn history(&self) -> (r: &Vec<HistoricalBet<PerudoBet>>)
        ensures
            r == &self.history,
    {
        &self.history
    }

    /// Every die on the table.
    pub fn all_items(&self) -> (r: Vec<Die>)
        ensures
            r@ == self.table(),
    {
        let mut r: Vec<Die> = Vec::new();
        let mut i: usize = 0;
        while i < self.players.len()
            invariant
                i <= self.players@.len(),
                r@ == table_of(self.players@.take(i as int)),
            decreases self.players@.len() - i,
        {
            let items = self.players[i].items();
            let ghost before = r@;
            let mut j: usize = 0;
            while j < items.len()
                invariant
                    j <= items@.len(),
                    r@ == before + items@.take(j as int),
                decreases items@.len() - j,
            {
                r.push(items[j]);
                assert(r@ =~= before + items@.take(j + 1));
                j = j + 1;
            }
            assert(items@.take(items@.len() as int) =~= items@);
            assert(self.players@.take(i + 1).drop_last() =~= self.players@.take(i as int));
            i = i + 1;
        }
        assert(self.players@.take(self.players@.len() as int) =~= self.players@);
        r
    }

    /// How many dice on the table show `val` itself.
    pub fn num_items_with(&self, val: Die) -> (r: usize)
        ensures
            r == count_face(self.table(), val),
    {
        count_of(&self.all_items(), val)
    }

    /// How many dice on the table count towards `val`, aces included.
    pub fn num_logical_items(&self, val: Die) -> (r: usize)
        ensures
            r == logical_count(self.table(), val),
    {
        logical_count_of(&self.all_items(), val)
    }

    /// How many dice each seat holds, in seat order.
    pub fn num_items_per_player(&self) -> (r: Vec<usize>)
        ensures
            r@.len() == self.players@.len(),
            forall|i: int| 0 <= i < r@.len() ==> r@[i] == self.players@[i].hand.items@.len(),
    {
        let mut r: Vec<usize> = Vec::new();
        let mut i: usize = 0;
        while i < self.players.len()
            invariant
                i <= self.players@.len(),
                r@.len() == i,
                forall|k: int| 0 <= k < i ==> r@[k] == self.players@[k].hand.items@.len(),
            decreases self.players@.len() - i,
        {
            r.push(self.players[i].num_items());
            i = i + 1;
        }
        r
    }

    /// How many dice are on the table.
    pub fn total_num_items(&self) -> (r: usize)
        ensures
            r == self.table().len(),
    {
        self.all_items().len()
    }

    /// What players may know of the game.
    pub fn state(&self) -> (r: GameState<PerudoBet>)
        ensures
            r.total_num_items == self.table().len(),
            r.num_items_per_player@.len() == self.players@.len(),
            forall|i: int|
                0 <= i < self.players@.len() ==> r.num_items_per_player@[i]
                    == self.players@[i].hand.items@.len(),
            r.history@ == self.history@,
    {
        GameState {
            total_num_items: self.total_num_items(),
            num_items_per_player: self.num_items_per_player(),
            history: copy_vec(&self.history),
        }
    }

    /// The history of the round with `bet` by the current seat added.
    pub fn history_with_bet(&self, bet: &PerudoBet) -> (r: Vec<HistoricalBet<PerudoBet>>)
        ensures
            r@ == self.history@.push(HistoricalBet { index: self.current_index, bet: *bet }),
    {
        let mut history = copy_vec(&self.history);
        history.push(HistoricalBet { index: self.current_index, bet: *bet });
        history
    }

    /// Whether `bet` holds on the table.
    pub fn is_correct(&self, bet: &PerudoBet) -> (r: bool)
        ensures
            r == bet.spec_is_correct(self.table(), false),
    {
        bet.is_correct(&self.all_items(), false)
    }

    /// Whether `bet` holds exactly on the table.
    pub fn is_exactly_correct(&self, bet: &PerudoBet) -> (r: bool)
        ensures
            r == bet.spec_is_correct(self.table(), true),
    {
        bet.is_correct(&self.all_items(), true)
    }

    /// The bet in play; the sentinel at the start of a round.
    pub fn last_bet(&self) -> (r: PerudoBet)
        requires
            self.current_outcome is First || self.current_outcome is Bet,
        ensures
            r == self.spec_last_bet(),
    {
        match self.current_outcome {
            TurnOutcome::Bet(b) => b,
            _ => PerudoBet::smallest(),
        }
    }

    /// Every player with a fresh hand of the same size.
    pub fn refreshed_players(&self) -> (r: Vec<PerudoPlayer>)
        requires
            self.wf(),
        ensures
            seats(r@) == seats(self.players@),
            r@.len() == self.players@.len(),
    {
        proof {
            assert forall|i: int| 0 <= i < self.players@.len() implies 1
                <= #[trigger] self.players@[i].seat().2 <= MAX_HAND by {}
        }
        refresh_all(&self.players)
    }

    /// Every player as it is.
    pub fn cloned_players(&self) -> (r: Vec<PerudoPlayer>)
        ensures
            r@.len() == self.players@.len(),
            forall|i: int|
                #![trigger r@[i]]
                0 <= i < r@.len() ==> r@[i].id == self.players@[i].id && r@[i].human
                    == self.players@[i].human && r@[i].hand.items@
                    == self.players@[i].hand.items@,
    {
        let mut r: Vec<PerudoPlayer> = Vec::new();
        let mut i: usize = 0;
        while i < self.players.len()
            invariant
                i <= self.players@.len(),
                r@.len() == i,
                forall|k: int|
                    #![trigger r@[k]]
                    0 <= k < i ==> r@[k].id == self.players@[k].id && r@[k].human
                        == self.players@[k].human && r@[k].hand.items@
                        == self.players@[k].hand.items@,
            decreases self.players@.len() - i,
        {
            r.push(self.players[i].cloned());
            i = i + 1;
        }
        r
    }

    /// Every player with a fresh hand, seat `loser_index` one die smaller.
    pub fn refreshed_players_with_loss(&self, loser_index: usize) -> (r: Vec<PerudoPlayer>)
        requires
            self.wf(),
            loser_index < self.players@.len(),
        ensures
            seats(r@) == seats(self.players@).update(
                loser_index as int,
                (
                    self.players@[loser_index as int].id,
                    self.players@[loser_index as int].human,
                    (self.players@[loser_index as int].hand.items@.len() - 1) as nat,
                ),
            ),
            r@.len() == self.players@.len(),
    {
        proof {
            assert forall|i: int| 0 <= i < self.players@.len() implies 1
                <= #[trigger] self.players@[i].seat().2 <= MAX_HAND by {}
        }
        refresh_all_with_loss(&self.players, loser_index)
    }

    /// Every player with a fresh hand, seat `winner_index` one die larger
    /// unless its hand is full.
    pub fn refreshed_players_with_gain(&self, winner_index: usize) -> (r: Vec<PerudoPlayer>)
        requires
            self.wf(),
            winner_index < self.players@.len(),
        ensures
            seats(r@) == seats_after_gain(seats(self.players@), winner_index as int),
            r@.len() == self.players@.len(),
    {
        proof {
            assert forall|i: int| 0 <= i < self.players@.len() implies 1
                <= #[trigger] self.players@[i].seat().2 <= MAX_HAND by {}
        }
        refresh_all_with_gain(&self.players, winner_index)
    }

    /// Ends the round with seat `loser_index` losing a die: with its last die
    /// the seat leaves, and the game is won when one seat is left. Every hand
    /// is dealt afresh and the loser, or the seat that took its place, starts
    /// the next round.
    pub fn with_end_turn(&self, loser_index: usize) -> (r: PerudoGame)
        requires
            self.wf(),
            self.players@.len() >= 2,
            loser_index < self.players@.len(),
        ensures
            self.ends_with_loss(loser_index as int, r),
            r.wf(),
    {
        if self.players[loser_index].num_items() == 1 {
            let mut players = self.refreshed_players();
            players.remove(loser_index);
            proof {
                assert(seats(players@) =~= seats(self.players@).remove(loser_index as int));
                lemma_seats_wf(players@);
            }
            let n = players.len();
            if n > 1 {
                PerudoGame::new_with(players, loser_index % n, TurnOutcome::First, Vec::new())
            } else {
                PerudoGame::new_with(players, 0, TurnOutcome::Win, Vec::new())
            }
        } else {
            let players = self.refreshed_players_with_loss(loser_index);
            proof {
                lemma_seats_wf(players@);
            }
            PerudoGame::new_with(players, loser_index, TurnOutcome::First, Vec::new())
        }
    }

    /// Ends the round with seat `winner_index` winning a die, up to a full
    /// hand. Every hand is dealt afresh and the winner starts the next round.
    pub fn with_end_turn_palafico(&self, winner_index: usize) -> (r: PerudoGame)
        requires
            self.wf(),
            self.players@.len() >= 2,
            winner_index < self.players@.len(),
        ensures
            self.ends_with_gain(winner_index as int, r),
            r.wf(),
    {
        let players = self.refreshed_players_with_gain(winner_index);
        proof {
            lemma_seats_wf(players@);
        }
        PerudoGame::new_with(players, winner_index, TurnOutcome::First, Vec::new())
    }

    /// The game after the current seat answers with `outcome`: a bet is
    /// recorded and the turn passes on; a challenge costs a die to whichever
    /// of bettor and challenger was wrong; an exact challenge wins the
    /// challenger a die when it is right and costs one when it is wrong.
    pub fn apply_outcome(&self, outcome: TurnOutcome<PerudoBet>) -> (r: PerudoGame)
        requires
            self.wf(),
            self.current_outcome is First || self.current_outcome is Bet,
            outcome is Bet || outcome is Perudo || outcome is Palafico,
        ensures
            self.spec_step(outcome, r),
            r.wf(),
    {
        let last_bet = self.last_bet();
        let n = self.players.len();
        let cur = self.current_index;
        match outcome {
            TurnOutcome::Bet(bet) => {
                let players = self.cloned_players();
                let r = PerudoGame::new_with(
                    players,
                    (cur + 1) % n,
                    TurnOutcome::Bet(bet),
                    self.history_with_bet(&bet),
                );
                r
            },
            TurnOutcome::Perudo => {
                let loser_index = if self.is_correct(&last_bet) {
                    cur
                } else {
                    (cur + n - 1) % n
                };
                self.with_end_turn(loser_index)
            },
            _ => {
                if self.is_exactly_correct(&last_bet) {
                    self.with_end_turn_palafico(cur)
                } else {
                    self.with_end_turn(cur)
                }
            },
        }
    }
}

impl PerudoGame {
    /// Plays the turn of the current seat, an automated player: it chooses one
    /// of its best answers, and the game moves on accordingly.
    pub fn run_turn(&self) -> (r: PerudoGame)
        requires
            self.wf(),
            self.current_outcome is First || self.current_outcome is Bet,
            !self.players@[self.current_index as int].human,
        ensures
            r.wf(),
            exists|o: TurnOutcome<PerudoBet>| #[trigger]
                self.spec_step(o, r) && self.is_best_response(o),
    {
        let state = self.state();
        let player = &self.players[self.current_index];
        proof {
            lemma_table_len(self.players@, MAX_HAND as nat);
            assert(self.players@[self.current_index as int].hand.items@.len() >= 1);
            lemma_unseen_fits(PerudoBet::unseen(state.total_num_items as nat, player.hand.items@));
            if self.current_outcome is Bet {
                player.lemma_best_options_are_answers(self.spec_last_bet(), state.total_num_items as nat);
            }
        }
        let outcome = match player.play(&state, &self.current_outcome) {
            Some(o) => o,
            None => TurnOutcome::Perudo,
        };
        let r = self.apply_outcome(outcome);
        assert(self.spec_step(outcome, r) && self.is_best_response(outcome));
        r
    }
}

/// A turn adds no seat and removes at most one, and every seat after it holds
/// at least one die: a seat whose hand would be empty is no longer there.
pub proof fn lemma_step_seats(g: PerudoGame, o: TurnOutcome<PerudoBet>, r: PerudoGame)
    requires
        g.wf(),
        g.spec_step(o, r),
    ensures
        r.wf(),
        r.players@.len() == g.players@.len() || r.players@.len() + 1 == g.players@.len(),
        forall|i: int| 0 <= i < r.players@.len() ==> #[trigger] r.players@[i].hand.items@.len() >= 1,
{
    let n = g.players@.len() as int;
    let cur = g.current_index as int;
    let s = seats(g.players@);
    assert forall|i: int| 0 <= i < n implies #[trigger] s[i] == g.players@[i].seat() by {}
    match o {
        TurnOutcome::Bet(b) => {
            assert forall|i: int| 0 <= i < r.players@.len() implies 1
                <= #[trigger] r.players@[i].hand.items@.len() <= MAX_HAND by {
                assert(r.players@[i].hand.items@ == g.players@[i].hand.items@);
            }
        },
        _ => {
            let t = seats(r.players@);
            assert(t.len() == r.players@.len());
            assert forall|i: int| 0 <= i < r.players@.len() implies #[trigger] t[i]
                == r.players@[i].seat() by {}
            let prev = g.spec_last_bet();
            let loser = if o is Perudo {
                if prev.spec_is_correct(g.table(), false) {
                    cur
                } else {
                    (cur + n - 1) % n
                }
            } else {
                cur
            };
            if o is Palafico && prev.spec_is_correct(g.table(), true) {
                assert forall|i: int| 0 <= i < r.players@.len() implies 1
                    <= #[trigger] r.players@[i].hand.items@.len() <= MAX_HAND by {
                    assert(t[i].2 == r.players@[i].hand.items@.len());
                }
            } else {
                assert(g.ends_with_loss(loser, r));
                assert forall|i: int| 0 <= i < r.players@.len() implies 1
                    <= #[trigger] r.players@[i].hand.items@.len() <= MAX_HAND by {
                    assert(t[i].2 == r.players@[i].hand.items@.len());
                    if s[loser].2 == 1 {
                        if i >= loser {
                            assert(t[i] == s[i + 1]);
                        } else {
                            assert(t[i] == s[i]);
                        }
                    }
                }
            }
        },
    }
}

/// The number of turns of `run` that removed a seat.
pub open spec fn eliminations(run: Seq<PerudoGame>) -> nat
    decreases run.len(),
{
    if run.len() < 2 {
        0
    } else {
        eliminations(run.drop_last()) + if run.last().players@.len() < run[run.len()
            - 2].players@.len() {
            1nat
        } else {
            0nat
        }
    }
}

/// Whether game `i + 1` of `run` follows from game `i` by some answer of the
/// seat in turn.
pub open spec fn turn_taken(run: Seq<PerudoGame>, i: int) -> bool {
    exists|o: TurnOutcome<PerudoBet>| #[trigger] run[i].spec_step(o, run[i + 1])
}

/// Whether `run` is a sequence of turns from a well-formed game.
pub open spec fn is_run(run: Seq<PerudoGame>) -> bool {
    &&& run.len() >= 1
    &&& run[0].wf()
    &&& forall|i: int| 0 <= i < run.len() - 1 ==> #[trigger] turn_taken(run, i)
}

/// Eliminations end a game: along any run of turns every game stays
/// well formed, and a game of `N` seats sees at most `N - 1` eliminations.
pub proof fn lemma_eliminations_bounded(run: Seq<PerudoGame>)
    requires
        is_run(run),
    ensures
        forall|i: int| 0 <= i < run.len() ==> #[trigger] run[i].wf(),
        eliminations(run) + run.last().players@.len() <= run[0].players@.len(),
        eliminations(run) <= run[0].players@.len() - 1,
    decreases run.len(),
{
    if run.len() >= 2 {
        let p = run.drop_last();
        assert forall|i: int| 0 <= i < p.len() - 1 implies #[trigger] turn_taken(p, i) by {
            assert(turn_taken(run, i));
            assert(p[i] == run[i] && p[i + 1] == run[i + 1]);
        }
        lemma_eliminations_bounded(p);
        let k = run.len() - 2;
        assert(p[k] == run[k]);
        assert(turn_taken(run, k));
        let o = choose|o: TurnOutcome<PerudoBet>| #[trigger] run[k].spec_step(o, run[k + 1]);
        lemma_step_seats(run[k], o, run[k + 1]);
        assert forall|i: int| 0 <= i < run.len() implies #[trigger] run[i].wf() by {
            if i < run.len() - 1 {
                assert(p[i] == run[i]);
            }
        }
    }
}

/// Fewer than fifty unseen dice have a count of outcomes that fits in a
/// `u128`.
pub proof fn lemma_unseen_fits(n: nat)
    requires
        n < 50,
    ensures
        outcomes(n) <= u128::MAX,
{
    reveal_with_fuel(outcomes, 50);
    assert(outcomes(49) == 134713546244127343440523266742756048896nat);
    lemma_outcomes_monotone(n, 49);
}

/// Seats that each hold one to `MAX_HAND` dice.
pub proof fn lemma_seats_wf(ps: Seq<PerudoPlayer>)
    ensures
        (forall|i: int| 0 <= i < seats(ps).len() ==> 1 <= #[trigger] seats(ps)[i].2 <= MAX_HAND)
            ==> forall|i: int|
            0 <= i < ps.len() ==> 1 <= #[trigger] ps[i].hand.items@.len() <= MAX_HAND,
{
    assert forall|i: int| 0 <= i < ps.len() implies seats(ps)[i] == ps[i].seat() by {}
    if forall|i: int| 0 <= i < seats(ps).len() ==> 1 <= #[trigger] seats(ps)[i].2 <= MAX_HAND {
        assert forall|i: int| 0 <= i < ps.len() implies 1 <= #[trigger] ps[i].hand.items@.len()
            <= MAX_HAND by {
            assert(seats(ps)[i].2 == ps[i].hand.items@.len());
        }
    }
}

/// The index and tiles of each bet of a word history.
pub open spec fn word_history(h: Seq<HistoricalBet<ScrabrudoBet>>) -> Seq<(usize, Seq<Tile>)> {
    h.map_values(|e: HistoricalBet<ScrabrudoBet>| (e.index, e.bet.tiles@))
}

/// A copy of a word history, bet by bet.
pub fn copy_history(h: &Vec<HistoricalBet<ScrabrudoBet>>) -> (r: Vec<HistoricalBet<ScrabrudoBet>>)
    ensures
        word_history(r@) == word_history(h@),
{
    let mut r: Vec<HistoricalBet<ScrabrudoBet>> = Vec::new();
    let mut i: usize = 0;
    while i < h.len()
        invariant
            i <= h@.len(),
            r@.len() == i,
            word_history(r@) == word_history(h@).take(i as int),
        decreases h@.len() - i,
    {
        let e = &h[i];
        let ghost old_r = r@;
        r.push(HistoricalBet { index: e.index, bet: e.bet.copy() });
        assert forall|j: int| 0 <= j <= i implies #[trigger] word_history(r@)[j] == word_history(
            h@,
        )[j] by {
            if j < i {
                assert(r@[j] == old_r[j]);
                assert(word_history(old_r)[j] == word_history(h@).take(i as int)[j]);
            }
        }
        assert(word_history(r@) =~= word_history(h@).take(i + 1));
        i = i + 1;
    }
    assert(word_history(h@).take(h@.len() as int) =~= word_history(h@));
    r
}

/// Every tile on the table, hand after hand in seat order.
pub open spec fn tiles_of(ps: Seq<ScrabrudoPlayer>) -> Seq<Tile>
    decreases ps.len(),
{
    if ps.len() == 0 {
        Seq::empty()
    } else {
        tiles_of(ps.drop_last()) + ps.last().hand.items@
    }
}

/// A word game: the surviving seats in order, whose turn it is, what the last
/// turn produced, and the bets of the round so far.
pub struct ScrabrudoGame {
    pub players: Vec<ScrabrudoPlayer>,
    pub current_index: usize,
    pub current_outcome: TurnOutcome<ScrabrudoBet>,
    pub history: Vec<HistoricalBet<ScrabrudoBet>>,
}

impl ScrabrudoGame {
    /// At least one seat, each holding one to `MAX_HAND` tiles;
    /// the game is won exactly when one seat is left, and the turn is at a
    /// seat.
    pub open spec fn wf(self) -> bool {
        &&& 1 <= self.players@.len()
        &&& self.current_index < self.players@.len()
        &&& forall|i: int|
            0 <= i < self.players@.len() ==> 1 <= #[trigger] self.players@[i].hand.items@.len()
                <= MAX_HAND
        &&& (self.current_outcome is Win <==> self.players@.len() == 1)
        &&& (self.current_outcome is First || self.current_outcome is Bet
            || self.current_outcome is Win)
    }

    pub open spec fn table(self) -> Seq<Tile> {
        tiles_of(self.players@)
    }

    /// The tiles of the bet a challenge at this point is about; none when no
    /// bet was made.
    pub open spec fn last_bet_tiles(self) -> Seq<Tile> {
        match self.current_outcome {
            TurnOutcome::Bet(b) => b.tiles@,
            _ => Seq::empty(),
        }
    }

    /// `r` is this game after a round ended with seat `loser` losing a tile.
    pub open spec fn ends_with_loss(self, loser: int, r: ScrabrudoGame) -> bool {
        let s = seats(self.players@);
        let n = seats_after_loss(s, loser).len();
        &&& seats(r.players@) == seats_after_loss(s, loser)
        &&& r.history@.len() == 0
        &&& if s[loser].2 > 1 {
            r.current_index == loser && r.current_outcome is First
        } else if n > 1 {
            r.current_index == loser % (n as int) && r.current_outcome is First
        } else {
            r.current_index == 0 && r.current_outcome is Win
        }
    }

    /// `r` is this game after a round ended with seat `winner` winning a tile.
    pub open spec fn ends_with_gain(self, winner: int, r: ScrabrudoGame) -> bool {
        &&& seats(r.players@) == seats_after_gain(seats(self.players@), winner)
        &&& r.history@.len() == 0
        &&& r.current_index == winner
        &&& r.current_outcome is First
    }

    /// `r` is what the turn of the current seat makes of this game when its
    /// player answers `o`.
    pub open spec fn spec_step(self, o: TurnOutcome<ScrabrudoBet>, r: ScrabrudoGame) -> bool {
        let cur = self.current_index as int;
        let n = self.players@.len() as int;
        let prev = self.last_bet_tiles();
        &&& (self.current_outcome is First || self.current_outcome is Bet)
        &&& match o {
            TurnOutcome::Bet(b) => {
                &&& r.players@.len() == self.players@.len()
                &&& forall|i: int|
                    #![trigger r.players@[i]]
                    0 <= i < n ==> r.players@[i].id == self.players@[i].id
                        && r.players@[i].human == self.players@[i].human
                        && r.players@[i].hand.items@ == self.players@[i].hand.items@
                &&& r.current_index == (cur + 1) % n
                &&& r.current_outcome is Bet
                &&& r.current_outcome->Bet_0.tiles@ == b.tiles@
                &&& word_history(r.history@) == word_history(self.history@).push(
                    (self.current_index, b.tiles@),
                )
            },
            TurnOutcome::Perudo => self.ends_with_loss(
                if word_holds(prev, self.table(), false) {
                    cur
                } else {
                    (cur + n - 1) % n
                },
                r,
            ),
            TurnOutcome::Palafico => if word_holds(prev, self.table(), true) {
                self.ends_with_gain(cur, r)
            } else {
                self.ends_with_loss(cur, r)
            },
            _ => false,
        }
    }


    /// A game of `num_players` seats, each dealt `items_per_player` tiles; the
    /// seats listed in `human_indices` are played by people.
    pub fn new(num_players: usize, items_per_player: usize, human_indices: &HashSet<usize>) -> (r:
        ScrabrudoGame)
        requires
            2 <= num_players,
            1 <= items_per_player <= MAX_HAND,
        ensures
            r.wf(),
            r.players@.len() == num_players,
            forall|i: int|
                0 <= i < num_players ==> #[trigger] r.players@[i].seat() == (
                    i as usize,
                    human_indices@.contains(i as usize),
                    items_per_player as nat,
                ),
            r.current_index == 0,
            r.current_outcome is First,
            r.history@.len() == 0,
    {
        let mut players: Vec<ScrabrudoPlayer> = Vec::new();
        let mut id: usize = 0;
        while id < num_players
            invariant
                id <= num_players,
                1 <= items_per_player <= MAX_HAND,
                players@.len() == id,
                forall|i: int|
                    0 <= i < id ==> #[trigger] players@[i].seat() == (
                        i as usize,
                        human_indices@.contains(i as usize),
                        items_per_player as nat,
                    ),
            decreases num_players - id,
        {
            let human = human_indices.contains(&id);
            players.push(ScrabrudoGame::create_player(id, items_per_player, human));
            id = id + 1;
        }
        assert forall|i: int| 0 <= i < players@.len() implies 1
            <= #[trigger] players@[i].hand.items@.len() <= MAX_HAND by {
            assert(players@[i].seat().2 == players@[i].hand.items@.len());
        }
        ScrabrudoGame::new_with(players, 0, TurnOutcome::First, Vec::new())
    }

    /// A game with the given fields.
    pub fn new_with(
        players: Vec<ScrabrudoPlayer>,
        current_index: usize,
        current_outcome: TurnOutcome<ScrabrudoBet>,
        history: Vec<HistoricalBet<ScrabrudoBet>>,
    ) -> (r: ScrabrudoGame)
        ensures
            r.players == players,
            r.current_index == current_index,
            r.current_outcome == current_outcome,
            r.history == history,
    {
        ScrabrudoGame { players, current_index, current_outcome, history }
    }

    /// A player with a freshly dealt hand.
    pub fn create_player(id: usize, items_per_player: usize, human: bool) -> (r: ScrabrudoPlayer)
        requires
            items_per_player <= u32::MAX,
        ensures
            r.seat() == (id, human, items_per_player as nat),
    {
        ScrabrudoPlayer { id, human, hand: Hand::new(items_per_player as u32) }
    }

    pub fn players(&self) -> (r: &Vec<ScrabrudoPlayer>)
        ensures
            r == &self.players,
    {
        &self.players
    }

    pub fn current_outcome(&self) -> (r: &TurnOutcome<ScrabrudoBet>)
        ensures
            r == &self.current_outcome,
    {
        &self.current_outcome
    }

    pub fn current_index(&self) -> (r: usize)
        ensures
            r == self.current_index,
    {
        self.current_index
    }

    pub fn history(&self) -> (r: &Vec<HistoricalBet<ScrabrudoBet>>)
        ensures
            r == &self.history,
    {
        &self.history
    }

    /// Every tile on the table.
    pub fn all_items(&self) -> (r: Vec<Tile>)
        ensures
            r@ == self.table(),
    {
        let mut r: Vec<Tile> = Vec::new();
        let mut i: usize = 0;
        while i < self.players.len()
            invariant
                i <= self.players@.len(),
                r@ == tiles_of(self.players@.take(i as int)),
            decreases self.players@.len() - i,
        {
            let items = self.players[i].items();
            let ghost before = r@;
            let mut j: usize = 0;
            while j < items.len()
                invariant
                    j <= items@.len(),
                    r@ == before + items@.take(j as int),
                decreases items@.len() - j,
            {
                r.push(items[j]);
                assert(r@ =~= before + items@.take(j + 1));
                j = j + 1;
            }
            assert(items@.take(items@.len() as int) =~= items@);
            assert(self.players@.take(i + 1).drop_last() =~= self.players@.take(i as int));
            i = i + 1;
        }
        assert(self.players@.take(self.players@.len() as int) =~= self.players@);
        r
    }

    /// How many tiles on the table are `val`.
    pub fn num_items_with(&self, val: Tile) -> (r: usize)
        ensures
            r == count_tile(self.table(), val),
    {
        count_tile_of(&self.all_items(), val)
    }

    /// How many tiles on the table count as `val`: tiles stand only for
    /// themselves.
    pub fn num_logical_items(&self, val: Tile) -> (r: usize)
        ensures
            r == count_tile(self.table(), val),
    {
        self.num_items_with(val)
    }

    /// How many tiles each seat holds, in seat order.
    pub fn num_items_per_player(&self) -> (r: Vec<usize>)
        ensures
            r@.len() == self.players@.len(),
            forall|i: int| 0 <= i < r@.len() ==> r@[i] == self.players@[i].hand.items@.len(),
    {
        let mut r: Vec<usize> = Vec::new();
        let mut i: usize = 0;
        while i < self.players.len()
            invariant
                i <= self.players@.len(),
                r@.len() == i,
                forall|k: int| 0 <= k < i ==> r@[k] == self.players@[k].hand.items@.len(),
            decreases self.players@.len() - i,
        {
            r.push(self.players[i].num_items());
            i = i + 1;
        }
        r
    }

    /// How many tiles are on the table.
    pub fn total_num_items(&self) -> (r: usize)
        ensures
            r == self.table().len(),
    {
        self.all_items().len()
    }

    /// What players may know of the game.
    pub fn state(&self) -> (r: GameState<ScrabrudoBet>)
        ensures
            r.total_num_items == self.table().len(),
            r.num_items_per_player@.len() == self.players@.len(),
            forall|i: int|
                0 <= i < self.players@.len() ==> r.num_items_per_player@[i]
                    == self.players@[i].hand.items@.len(),
            word_history(r.history@) == word_history(self.history@),
    {
        GameState {
            total_num_items: self.total_num_items(),
            num_items_per_player: self.num_items_per_player(),
            history: copy_history(&self.history),
        }
    }

    /// The history of the round with `bet` by the current seat added.
    pub fn history_with_bet(&self, bet: &ScrabrudoBet) -> (r: Vec<HistoricalBet<ScrabrudoBet>>)
        ensures
            word_history(r@) == word_history(self.history@).push(
                (self.current_index, bet.tiles@),
            ),
    {
        let mut history = copy_history(&self.history);
        history.push(HistoricalBet { index: self.current_index, bet: bet.copy() });
        assert(word_history(history@) =~= word_history(self.history@).push(
            (self.current_index, bet.tiles@),
        ));
        history
    }

    /// Whether `bet` holds on the table.
    pub fn is_correct(&self, bet: &ScrabrudoBet) -> (r: bool)
        ensures
            r == bet.spec_is_correct(self.table(), false),
    {
        bet.is_correct(&self.all_items(), false)
    }

    /// Whether `bet` holds exactly on the table.
    pub fn is_exactly_correct(&self, bet: &ScrabrudoBet) -> (r: bool)
        ensures
            r == bet.spec_is_correct(self.table(), true),
    {
        bet.is_correct(&self.all_items(), true)
    }

    /// The bet in play; the empty sentinel at the start of a round.
    pub fn last_bet(&self) -> (r: ScrabrudoBet)
        requires
            self.current_outcome is First || self.current_outcome is Bet,
        ensures
            r.tiles@ == self.last_bet_tiles(),
    {
        match &self.current_outcome {
            TurnOutcome::Bet(b) => b.copy(),
            _ => ScrabrudoBet::smallest(),
        }
    }

    /// Every player with a fresh hand of the same size.
    pub fn refreshed_players(&self) -> (r: Vec<ScrabrudoPlayer>)
        requires
            self.wf(),
        ensures
            seats(r@) == seats(self.players@),
            r@.len() == self.players@.len(),
    {
        proof {
            assert forall|i: int| 0 <= i < self.players@.len() implies 1
                <= #[trigger] self.players@[i].seat().2 <= MAX_HAND by {}
        }
        refresh_all(&self.players)
    }

    /// Every player as it is.
    pub fn cloned_players(&self) -> (r: Vec<ScrabrudoPlayer>)
        ensures
            r@.len() == self.players@.len(),
            forall|i: int|
                #![trigger r@[i]]
                0 <= i < r@.len() ==> r@[i].id == self.players@[i].id && r@[i].human
                    == self.players@[i].human && r@[i].hand.items@
                    == self.players@[i].hand.items@,
    {
        let mut r: Vec<ScrabrudoPlayer> = Vec::new();
        let mut i: usize = 0;
        while i < self.players.len()
            invariant
                i <= self.players@.len(),
                r@.len() == i,
                forall|k: int|
                    #![trigger r@[k]]
                    0 <= k < i ==> r@[k].id == self.players@[k].id && r@[k].human
                        == self.players@[k].human && r@[k].hand.items@
                        == self.players@[k].hand.items@,
            decreases self.players@.len() - i,
        {
            r.push(self.players[i].cloned());
            i = i + 1;
        }
        r
    }

    /// Every player with a fresh hand, seat `loser_index` one tile smaller.
    pub fn refreshed_players_with_loss(&self, loser_index: usize) -> (r: Vec<ScrabrudoPlayer>)
        requires
            self.wf(),
            loser_index < self.players@.len(),
        ensures
            seats(r@) == seats(self.players@).update(
                loser_index as int,
                (
                    self.players@[loser_index as int].id,
                    self.players@[loser_index as int].human,
                    (self.players@[loser_index as int].hand.items@.len() - 1) as nat,
                ),
            ),
            r@.len() == self.players@.len(),
    {
        proof {
            assert forall|i: int| 0 <= i < self.players@.len() implies 1
                <= #[trigger] self.players@[i].seat().2 <= MAX_HAND by {}
        }
        refresh_all_with_loss(&self.players, loser_index)
    }

    /// Every player with a fresh hand, seat `winner_index` one tile larger
    /// unless its hand is full.
    pub fn refreshed_players_with_gain(&self, winner_index: usize) -> (r: Vec<ScrabrudoPlayer>)
        requires
            self.wf(),
            winner_index < self.players@.len(),
        ensures
            seats(r@) == seats_after_gain(seats(self.players@), winner_index as int),
            r@.len() == self.players@.len(),
    {
        proof {
            assert forall|i: int| 0 <= i < self.players@.len() implies 1
                <= #[trigger] self.players@[i].seat().2 <= MAX_HAND by {}
        }
        refresh_all_with_gain(&self.players, winner_index)
    }

    /// Ends the round with seat `loser_index` losing a tile: with its last tile
    /// the seat leaves, and the game is won when one seat is left. Every hand
    /// is dealt afresh and the loser, or the seat that took its place, starts
    /// the next round.
    pub fn with_end_turn(&self, loser_index: usize) -> (r: ScrabrudoGame)
        requires
            self.wf(),
            self.players@.len() >= 2,
            loser_index < self.players@.len(),
        ensures
            self.ends_with_loss(loser_index as int, r),
            r.wf(),
    {
        if self.players[loser_index].num_items() == 1 {
            let mut players = self.refreshed_players();
            players.remove(loser_index);
            proof {
                assert(seats(players@) =~= seats(self.players@).remove(loser_index as int));
                lemma_seats_wf_tiles(players@);
            }
            let n = players.len();
            if n > 1 {
                ScrabrudoGame::new_with(players, loser_index % n, TurnOutcome::First, Vec::new())
            } else {
                ScrabrudoGame::new_with(players, 0, TurnOutcome::Win, Vec::new())
            }
        } else {
            let players = self.refreshed_players_with_loss(loser_index);
            proof {
                lemma_seats_wf_tiles(players@);
            }
            ScrabrudoGame::new_with(players, loser_index, TurnOutcome::First, Vec::new())
        }
    }

    /// Ends the round with seat `winner_index` winning a tile, up to a full
    /// hand. Every hand is dealt afresh and the winner starts the next round.
    pub fn with_end_turn_palafico(&self, winner_index: usize) -> (r: ScrabrudoGame)
        requires
            self.wf(),
            self.players@.len() >= 2,
            winner_index < self.players@.len(),
        ensures
            self.ends_with_gain(winner_index as int, r),
            r.wf(),
    {
        let players = self.refreshed_players_with_gain(winner_index);
        proof {
            lemma_seats_wf_tiles(players@);
        }
        ScrabrudoGame::new_with(players, winner_index, TurnOutcome::First, Vec::new())
    }

    /// The game after the current seat answers with `outcome`: a bet is
    /// recorded and the turn passes on; a challenge costs a tile to whichever
    /// of bettor and challenger was wrong; an exact challenge wins the
    /// challenger a tile when it is right and costs one when it is wrong.
    pub fn apply_outcome(&self, outcome: TurnOutcome<ScrabrudoBet>) -> (r: ScrabrudoGame)
        requires
            self.wf(),
            self.current_outcome is First || self.current_outcome is Bet,
            outcome is Bet || outcome is Perudo || outcome is Palafico,
        ensures
            self.spec_step(outcome, r),
            r.wf(),
    {
        let last_bet = self.last_bet();
        let n = self.players.len();
        let cur = self.current_index;
        match outcome {
            TurnOutcome::Bet(bet) => {
                let players = self.cloned_players();
                let history = self.history_with_bet(&bet);
                ScrabrudoGame::new_with(players, (cur + 1) % n, TurnOutcome::Bet(bet), history)
            },
            TurnOutcome::Perudo => {
                proof {
                    let (c, m) = (cur as int, n as int);
                    if c == 0 {
                        assert((c + m - 1) % m == m - 1) by (nonlinear_arith)
                            requires
                                c == 0,
                                m >= 1,
                        ;
                    } else {
                        assert((c + m - 1) % m == c - 1) by (nonlinear_arith)
                            requires
                                1 <= c < m,
                        ;
                    }
                }
                let loser_index = if last_bet.is_correct(&self.all_items(), false) {
                    cur
                } else {
                    if cur == 0 {
                        n - 1
                    } else {
                        cur - 1
                    }
                };
                self.with_end_turn(loser_index)
            },
            _ => {
                if last_bet.is_correct(&self.all_items(), true) {
                    self.with_end_turn_palafico(cur)
                } else {
                    self.with_end_turn(cur)
                }
            },
        }
    }
}
/// Seats that each hold one to `MAX_HAND` tiles.
pub proof fn lemma_seats_wf_tiles(ps: Seq<ScrabrudoPlayer>)
    ensures
        (forall|i: int| 0 <= i < seats(ps).len() ==> 1 <= #[trigger] seats(ps)[i].2 <= MAX_HAND)
            ==> forall|i: int|
            0 <= i < ps.len() ==> 1 <= #[trigger] ps[i].hand.items@.len() <= MAX_HAND,
{
    assert forall|i: int| 0 <= i < ps.len() implies seats(ps)[i] == ps[i].seat() by {}
    if forall|i: int| 0 <= i < seats(ps).len() ==> 1 <= #[trigger] seats(ps)[i].2 <= MAX_HAND {
        assert forall|i: int| 0 <= i < ps.len() implies 1 <= #[trigger] ps[i].hand.items@.len()
            <= MAX_HAND by {
            assert(seats(ps)[i].2 == ps[i].hand.items@.len());
        }
    }
}


} // verus!
