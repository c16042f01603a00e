//! Players, and the choice of a best response.
use crate::bet::{
    bet_views,
    fitting_words,
    words_above,
    ScrabrudoBet,
    count_tile,
    count_tile_of,
    best_of,
    count_face,
    count_of,
    first_bet_options,
    logical_count,
    logical_count_of,
    PerudoBet,
    ProbVariant,
};
use crate::chance::{count_outcomes, lemma_at_least_bounds, outcomes};
use crate::die::Die;
use crate::tile::Tile;
use crate::dict::Dictionary;
use crate::game::{GameState, TurnOutcome};
use crate::hand::Hand;
use crate::select::{best_indices, choose_index, lemma_positions_of, seq_max, top_positions};
use vstd::prelude::*;

verus! {

/// What the rules see of a seat: its identity, whether a person plays it, and
/// how many items it holds.
pub type Seat = (usize, bool, nat);

/// A player of either game, as the turn rules see it: a seat, and a hand that
/// can be dealt afresh.
pub trait Player: Sized {
    /// The seat this player occupies.
    spec fn seat(&self) -> Seat;

    /// The number of items in the hand.
    fn num_items(&self) -> (r: usize)
        ensures
            r == self.seat().2,
    ;

    /// The same player with a fresh hand one item smaller.
    fn without_one(&self) -> (r: Self)
        requires
            1 <= self.seat().2 <= u32::MAX,
        ensures
            r.seat() == (self.seat().0, self.seat().1, (self.seat().2 - 1) as nat),
    ;

    /// The same player with a fresh hand one item larger.
    fn with_one(&self) -> (r: Self)
        requires
            self.seat().2 < u32::MAX,
        ensures
            r.seat() == (self.seat().0, self.seat().1, self.seat().2 + 1),
    ;

    /// The same player with a fresh hand of the same size.
    fn refresh(&self) -> (r: Self)
        requires
            self.seat().2 <= u32::MAX,
        ensures
            r.seat() == self.seat(),
    ;
}

/// A dice player: a stable seat identity, whether a person plays it, and the
/// dice in hand.
#[derive(Debug, Clone)]
pub struct PerudoPlayer {
    pub id: usize,
    pub human: bool,
    pub hand: Hand<Die>,
}

/// Everything a player may answer to the bet `prev`: a challenge, an exact
/// challenge, or any higher bet.
pub open spec fn options_above(prev: PerudoBet, total: nat) -> Seq<TurnOutcome<PerudoBet>> {
    seq![TurnOutcome::Perudo, TurnOutcome::Palafico] + prev.all_above_spec(total).map_values(
        |b: PerudoBet| TurnOutcome::Bet(b),
    )
}

/// A copy of `v`, element by element.
pub fn copy_vec<T: Copy>(v: &Vec<T>) -> (r: Vec<T>)
    ensures
        r@ == v@,
{
    let mut r: Vec<T> = Vec::new();
    let mut i: usize = 0;
    while i < v.len()
        invariant
            i <= v@.len(),
            r@ == v@.take(i as int),
        decreases v@.len() - i,
    {
        r.push(v[i]);
        assert(r@ =~= v@.take(i + 1));
        i = i + 1;
    }
    assert(v@.take(v@.len() as int) =~= v@);
    r
}

impl PerudoPlayer {
    /// The favourable outcomes, among those of the unseen dice, of answering
    /// `prev` with `o`.
    pub open spec fn outcome_ways(self, o: TurnOutcome<PerudoBet>, prev: PerudoBet, total: nat) -> nat {
        match o {
            TurnOutcome::Bet(b) => b.ways_correct(total, self.hand.items@),
            TurnOutcome::Perudo => prev.ways_for(ProbVariant::Perudo, total, self.hand.items@),
            TurnOutcome::Palafico => prev.ways_for(ProbVariant::Palafico, total, self.hand.items@),
            _ => 0,
        }
    }

    pub open spec fn option_scores(
        self,
        opts: Seq<TurnOutcome<PerudoBet>>,
        prev: PerudoBet,
        total: nat,
    ) -> Seq<u128> {
        opts.map_values(|o: TurnOutcome<PerudoBet>| self.outcome_ways(o, prev, total) as u128)
    }

    /// The answers to `prev` most likely to win, in the order of
    /// `options_above`.
    pub open spec fn best_options_above(self, prev: PerudoBet, total: nat) -> Seq<
        TurnOutcome<PerudoBet>,
    > {
        let opts = options_above(prev, total);
        top_positions(self.option_scores(opts, prev, total)).map_values(
            |k: usize| opts[k as int],
        )
    }

    /// The bets this player may open a round with that are most likely to hold.
    pub open spec fn best_first_bets(self, total: nat) -> Seq<PerudoBet> {
        best_of(first_bet_options(total), total, self.hand.items@)
    }

    /// A best answer is a challenge, an exact challenge or a bet.
    pub proof fn lemma_best_options_are_answers(self, prev: PerudoBet, total: nat)
        requires
            total <= 1000,
        ensures
            forall|o: TurnOutcome<PerudoBet>|
                #[trigger] self.best_options_above(prev, total).contains(o) ==> (o is Bet
                    || o is Perudo || o is Palafico),
    {
        let opts = options_above(prev, total);
        let scores = self.option_scores(opts, prev, total);
        let top = top_positions(scores);
        crate::bet::lemma_bets_up_to_face_len(6, total);
        PerudoBet::all_spec(total).lemma_filter_len(|b: PerudoBet| b.spec_gt(prev));
        assert(6 * total <= 6000) by (nonlinear_arith)
            requires
                total <= 1000,
        ;
        lemma_positions_of(scores, seq_max(scores));
        assert forall|o: TurnOutcome<PerudoBet>|
            #[trigger] self.best_options_above(prev, total).contains(o) implies (o is Bet
                || o is Perudo || o is Palafico) by {
            let best = self.best_options_above(prev, total);
            let i = choose|i: int| 0 <= i < best.len() && best[i] == o;
            let k = top[i] as int;
            assert(best[i] == opts[k]);
            if k >= 2 {
                assert(opts[k] == TurnOutcome::<PerudoBet>::Bet(prev.all_above_spec(total)[k - 2]));
            }
        }
    }

    /// A copy with the given fields replaced.
    pub fn copy_with(&self, id: Option<usize>, human: Option<bool>, hand: Option<Hand<Die>>) -> (r:
        PerudoPlayer)
        ensures
            r.id == (match id {
                Some(i) => i,
                None => self.id,
            }),
            r.human == (match human {
                Some(h) => h,
                None => self.human,
            }),
            r.hand.items@ == (match hand {
                Some(h) => h.items@,
                None => self.hand.items@,
            }),
    {
        PerudoPlayer {
            id: match id {
                Some(i) => i,
                None => self.id,
            },
            human: match human {
                Some(h) => h,
                None => self.human,
            },
            hand: match hand {
                Some(h) => h,
                None => Hand { items: copy_vec(&self.hand.items) },
            },
        }
    }

    pub fn id(&self) -> (r: usize)
        ensures
            r == self.id,
    {
        self.id
    }

    pub fn human(&self) -> (r: bool)
        ensures
            r == self.human,
    {
        self.human
    }

    pub fn hand(&self) -> (r: &Hand<Die>)
        ensures
            r == &self.hand,
    {
        &self.hand
    }

    pub fn items(&self) -> (r: &Vec<Die>)
        ensures
            r@ == self.hand.items@,
    {
        &self.hand.items
    }

    /// How many dice in the hand show `val` itself.
    pub fn num_items_with(&self, val: Die) -> (r: usize)
        ensures
            r == count_face(self.hand.items@, val),
    {
        count_of(&self.hand.items, val)
    }

    /// How many dice in the hand count towards `val`, aces included.
    pub fn num_logical_items(&self, val: Die) -> (r: usize)
        ensures
            r == logical_count(self.hand.items@, val),
    {
        logical_count_of(&self.hand.items, val)
    }

    /// An identical copy.
    pub fn cloned(&self) -> (r: PerudoPlayer)
        ensures
            r.id == self.id,
            r.human == self.human,
            r.hand.items@ == self.hand.items@,
    {
        self.copy_with(None, None, None)
    }

    /// Every answer to `bet` that is most likely to win as this player sees
    /// it, in the order: challenge, exact challenge, then the higher bets in
    /// the order of `PerudoBet::all`. `None` where the outcomes of the unseen
    /// dice cannot be counted in a `u128`.
    pub fn best_outcomes_above(&self, state: &GameState<PerudoBet>, bet: &PerudoBet) -> (r: Option<
        Vec<TurnOutcome<PerudoBet>>,
    >)
        requires
            self.hand.items@.len() <= state.total_num_items,
        ensures
            r is Some <==> outcomes(
                PerudoBet::unseen(state.total_num_items as nat, self.hand.items@),
            ) <= u128::MAX,
            r is Some ==> r->0@ == self.best_options_above(*bet, state.total_num_items as nat),
            r is Some ==> r->0@.len() > 0,
    {
        let unseen = state.total_num_items - self.num_items();
        if count_outcomes(unseen).is_none() {
            return None;
        }
        let ghost total = state.total_num_items as nat;
        let ghost hand = self.hand.items@;
        let above = bet.all_above(state);
        let mut opts: Vec<TurnOutcome<PerudoBet>> = vec![TurnOutcome::Perudo, TurnOutcome::Palafico];
        let mut i: usize = 0;
        while i < above.len()
            invariant
                i <= above@.len(),
                above@ == bet.all_above_spec(total),
                opts@ == seq![TurnOutcome::Perudo, TurnOutcome::Palafico] + above@.take(
                    i as int,
                ).map_values(|b: PerudoBet| TurnOutcome::Bet(b)),
            decreases above@.len() - i,
        {
            opts.push(TurnOutcome::Bet(above[i]));
            assert(opts@ =~= seq![TurnOutcome::Perudo, TurnOutcome::Palafico] + above@.take(
                i + 1,
            ).map_values(|b: PerudoBet| TurnOutcome::Bet(b)));
            i = i + 1;
        }
        assert(above@.take(above@.len() as int) =~= above@);
        assert(opts@ =~= options_above(*bet, total));
        let mut scores: Vec<u128> = Vec::new();
        let mut k: usize = 0;
        while k < opts.len()
            invariant
                k <= opts@.len(),
                opts@ == options_above(*bet, total),
                outcomes(PerudoBet::unseen(total, hand)) <= u128::MAX,
                total == state.total_num_items,
                hand == self.hand.items@,
                self.hand.items@.len() <= state.total_num_items,
                scores@ == self.option_scores(opts@, *bet, total).take(k as int),
            decreases opts@.len() - k,
        {
            proof {
                lemma_at_least_bounds(
                    PerudoBet::unseen(total, hand),
                    bet.residual(hand),
                    crate::bet::matching_faces(bet.value),
                );
            }
            let score: u128 = match opts[k] {
                TurnOutcome::Bet(b) => match b.bet_prob(state, self) {
                    Some(p) => p.numerator,
                    None => 0,
                },
                TurnOutcome::Perudo => match bet.perudo_prob(state, self) {
                    Some(p) => p.numerator,
                    None => 0,
                },
                TurnOutcome::Palafico => match bet.palafico_prob(state, self) {
                    Some(p) => p.numerator,
                    None => 0,
                },
                _ => 0,
            };
            scores.push(score);
            assert(scores@ =~= self.option_scores(opts@, *bet, total).take(k + 1));
            k = k + 1;
        }
        assert(scores@ =~= self.option_scores(opts@, *bet, total));
        let top = best_indices(&scores);
        let mut r: Vec<TurnOutcome<PerudoBet>> = Vec::new();
        let mut j: usize = 0;
        while j < top.len()
            invariant
                j <= top@.len(),
                scores@.len() == opts@.len(),
                top@ == top_positions(scores@),
                forall|i: int| 0 <= i < top@.len() ==> top@[i] < scores@.len(),
                r@ == top@.take(j as int).map_values(|x: usize| opts@[x as int]),
            decreases top@.len() - j,
        {
            r.push(opts[top[j]]);
            assert(r@ =~= top@.take(j + 1).map_values(|x: usize| opts@[x as int]));
            j = j + 1;
        }
        assert(top@.take(top@.len() as int) =~= top@);
        Some(r)
    }

    /// One of the answers to `bet` most likely to win, drawn at random among
    /// equals.
    pub fn best_outcome_above(&self, state: &GameState<PerudoBet>, bet: &PerudoBet) -> (r: Option<
        TurnOutcome<PerudoBet>,
    >)
        requires
            self.hand.items@.len() <= state.total_num_items,
        ensures
            r is Some <==> outcomes(
                PerudoBet::unseen(state.total_num_items as nat, self.hand.items@),
            ) <= u128::MAX,
            r is Some ==> self.best_options_above(*bet, state.total_num_items as nat).contains(
                r->0,
            ),
    {
        match self.best_outcomes_above(state, bet) {
            None => None,
            Some(best) => {
                let k = choose_index(best.len());
                Some(best[k])
            },
        }
    }

    /// This automated player's answer: at the start of a round one of the
    /// likeliest opening bets, otherwise one of the likeliest answers to the
    /// bet in play.
    pub fn play(&self, state: &GameState<PerudoBet>, current_outcome: &TurnOutcome<PerudoBet>) -> (r:
        Option<TurnOutcome<PerudoBet>>)
        requires
            self.hand.items@.len() <= state.total_num_items,
            current_outcome is First ==> state.total_num_items >= 1,
            current_outcome is First || current_outcome is Bet,
        ensures
            r is Some <==> outcomes(
                PerudoBet::unseen(state.total_num_items as nat, self.hand.items@),
            ) <= u128::MAX,
            r is Some ==> match *current_outcome {
                TurnOutcome::Bet(prev) => self.best_options_above(
                    prev,
                    state.total_num_items as nat,
                ).contains(r->0),
                _ => r->0 is Bet && self.best_first_bets(state.total_num_items as nat).contains(
                    r->0->0,
                ),
            },
    {
        match current_outcome {
            TurnOutcome::Bet(prev) => self.best_outcome_above(state, prev),
            _ => match PerudoBet::best_first_bet(state, self) {
                Some(b) => Some(TurnOutcome::Bet(b)),
                None => None,
            },
        }
    }
}

/// A tile player: a stable seat identity, whether a person plays it, and the
/// tiles in hand.
#[derive(Debug, Clone)]
pub struct ScrabrudoPlayer {
    pub id: usize,
    pub human: bool,
    pub hand: Hand<Tile>,
}

/// Adds a bet on each of `bets`, in order, to `r`.
fn append_bets(r: &mut Vec<TurnOutcome<ScrabrudoBet>>, bets: &Vec<ScrabrudoBet>)
    ensures
        final(r)@.len() == old(r)@.len() + bets@.len(),
        forall|i: int| 0 <= i < old(r)@.len() ==> #[trigger] final(r)@[i] == old(r)@[i],
        forall|i: int|
            old(r)@.len() <= i < final(r)@.len() ==> #[trigger] final(r)@[i] is Bet
                && final(r)@[i]->Bet_0.tiles@ == bet_views(bets@)[i - old(r)@.len()],
{
    let ghost start = r@.len();
    let ghost head = r@;
    let mut k: usize = 0;
    while k < bets.len()
        invariant
            k <= bets@.len(),
            start == old(r)@.len(),
            head == old(r)@,
            r@.len() == start + k,
            forall|i: int| 0 <= i < start ==> #[trigger] r@[i] == head[i],
            forall|i: int|
                start <= i < start + k ==> #[trigger] r@[i] is Bet && r@[i]->Bet_0.tiles@
                    == bets@[i - start].tiles@,
        decreases bets@.len() - k,
    {
        r.push(TurnOutcome::Bet(bets[k].copy()));
        k = k + 1;
    }
}

impl ScrabrudoPlayer {
    /// The answers open to a tile player: at the start of a round any word
    /// that fits on the table, otherwise a challenge, an exact challenge, or
    /// any word above the bet in play. Words come in dictionary order.
    pub fn options(state: &GameState<ScrabrudoBet>, dict: &Dictionary, current: &TurnOutcome<
        ScrabrudoBet,
    >) -> (r: Vec<TurnOutcome<ScrabrudoBet>>)
        requires
            dict.wf(),
            current is First || current is Bet,
        ensures
            ({
                let fitting = fitting_words(dict.words@, state.total_num_items as nat);
                match *current {
                    TurnOutcome::Bet(b) => {
                        let above = words_above(dict.words@, state.total_num_items as nat, b.tiles@);
                        &&& r@.len() == above.len() + 2
                        &&& r@[0] is Perudo
                        &&& r@[1] is Palafico
                        &&& forall|i: int|
                            2 <= i < r@.len() ==> #[trigger] r@[i] is Bet && r@[i]->Bet_0.tiles@
                                == above[i - 2]
                    },
                    _ => {
                        &&& r@.len() == fitting.len()
                        &&& forall|i: int|
                            0 <= i < r@.len() ==> #[trigger] r@[i] is Bet && r@[i]->Bet_0.tiles@
                                == fitting[i]
                    },
                }
            }),
    {
        match current {
            TurnOutcome::Bet(b) => {
                let mut r: Vec<TurnOutcome<ScrabrudoBet>> = vec![
                    TurnOutcome::Perudo,
                    TurnOutcome::Palafico,
                ];
                let bets = b.all_above(state, dict);
                append_bets(&mut r, &bets);
                r
            },
            _ => {
                let mut r: Vec<TurnOutcome<ScrabrudoBet>> = Vec::new();
                let bets = ScrabrudoBet::all(state, dict);
                append_bets(&mut r, &bets);
                r
            },
        }
    }

    /// A copy with the given fields replaced.
    pub fn copy_with(&self, id: Option<usize>, human: Option<bool>, hand: Option<Hand<Tile>>) -> (r:
        ScrabrudoPlayer)
        ensures
            r.id == (match id {
                Some(i) => i,
                None => self.id,
            }),
            r.human == (match human {
                Some(h) => h,
                None => self.human,
            }),
            r.hand.items@ == (match hand {
                Some(h) => h.items@,
                None => self.hand.items@,
            }),
    {
        ScrabrudoPlayer {
            id: match id {
                Some(i) => i,
                None => self.id,
            },
            human: match human {
                Some(h) => h,
                None => self.human,
            },
            hand: match hand {
                Some(h) => h,
                None => Hand { items: copy_vec(&self.hand.items) },
            },
        }
    }

    pub fn id(&self) -> (r: usize)
        ensures
            r == self.id,
    {
        self.id
    }

    pub fn human(&self) -> (r: bool)
        ensures
            r == self.human,
    {
        self.human
    }

    pub fn hand(&self) -> (r: &Hand<Tile>)
        ensures
            r == &self.hand,
    {
        &self.hand
    }

    pub fn items(&self) -> (r: &Vec<Tile>)
        ensures
            r@ == self.hand.items@,
    {
        &self.hand.items
    }

    /// How many tiles in the hand are `val`.
    pub fn num_items_with(&self, val: Tile) -> (r: usize)
        ensures
            r == count_tile(self.hand.items@, val),
    {
        count_tile_of(&self.hand.items, val)
    }

    /// How many tiles in the hand count as `val`: tiles stand only for
    /// themselves.
    pub fn num_logical_items(&self, val: Tile) -> (r: usize)
        ensures
            r == count_tile(self.hand.items@, val),
    {
        self.num_items_with(val)
    }

    /// An identical copy.
    pub fn cloned(&self) -> (r: ScrabrudoPlayer)
        ensures
            r.id == self.id,
            r.human == self.human,
            r.hand.items@ == self.hand.items@,
    {
        self.copy_with(None, None, None)
    }
}

impl Player for PerudoPlayer {
    open spec fn seat(&self) -> Seat {
        (self.id, self.human, self.hand.items@.len())
    }

    fn num_items(&self) -> (r: usize) {
        self.hand.items.len()
    }

    /// The same player with a fresh hand one die smaller.
    fn without_one(&self) -> (r: PerudoPlayer) {
        self.copy_with(None, None, Some(Hand::new(self.num_items() as u32 - 1)))
    }

    /// The same player with a fresh hand one die larger.
    fn with_one(&self) -> (r: PerudoPlayer) {
        self.copy_with(None, None, Some(Hand::new(self.num_items() as u32 + 1)))
    }

    /// The same player with a fresh hand of the same size.
    fn refresh(&self) -> (r: PerudoPlayer) {
        self.copy_with(None, None, Some(Hand::new(self.num_items() as u32)))
    }
}

impl Player for ScrabrudoPlayer {
    open spec fn seat(&self) -> Seat {
        (self.id, self.human, self.hand.items@.len())
    }

    fn num_items(&self) -> (r: usize) {
        self.hand.items.len()
    }

    /// The same player with a fresh hand one tile smaller.
    fn without_one(&self) -> (r: ScrabrudoPlayer) {
        self.copy_with(None, None, Some(Hand::new(self.num_items() as u32 - 1)))
    }

    /// The same player with a fresh hand one tile larger.
    fn with_one(&self) -> (r: ScrabrudoPlayer) {
        self.copy_with(None, None, Some(Hand::new(self.num_items() as u32 + 1)))
    }

    /// The same player with a fresh hand of the same size.
    fn refresh(&self) -> (r: ScrabrudoPlayer) {
        self.copy_with(None, None, Some(Hand::new(self.num_items() as u32)))
    }
}

} // verus!
