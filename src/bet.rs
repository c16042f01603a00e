//! Bets: what they claim, how they are ordered, and how likely they are to
//! hold from one player's point of view.
use crate::chance::{
    count_at_least,
    count_outcomes,
    lemma_at_least_bounds,
    lemma_at_least_monotone,
    lemma_exactly_split,
    outcomes,
    ways_at_least,
    ways_exactly,
};
use crate::die::Die;
use crate::tile::{is_tile_char, Tile, NUM_TILE_KINDS};
use vstd::string::*;
use crate::dict::{is_word_text, texts, words_with_max_length, Dictionary};
use crate::game::GameState;
use crate::player::{PerudoPlayer, Player, ScrabrudoPlayer};
use crate::select::{best_indices, choose_index, top_positions};
use core::cmp::Ordering;
use vstd::prelude::*;

verus! {

/// The three questions a player can ask of a bet.
#[derive(Debug, Clone, Copy, PartialEq, Eq, Structural, Hash)]
pub enum ProbVariant {
    /// The bet holds: at least the claimed quantity is on the table.
    Bet,
    /// The bet fails: a challenge would win.
    Perudo,
    /// Exactly the claimed quantity is on the table.
    Palafico,
}

/// An exact probability: `numerator` favourable outcomes of `denominator`
/// equally likely ones.
#[derive(Debug, Clone, Copy, PartialEq, Eq, Structural, Hash)]
pub struct Probability {
    pub numerator: u128,
    pub denominator: u128,
}

/// How many times `face` shows in `items`.
pub open spec fn count_face(items: Seq<Die>, face: Die) -> nat
    decreases items.len(),
{
    if items.len() == 0 {
        0
    } else {
        count_face(items.drop_last(), face) + if items.last() == face {
            1nat
        } else {
            0nat
        }
    }
}

/// How many of `items` count towards `face`: the face itself, and aces as
/// wildcards for every other face.
pub open spec fn logical_count(items: Seq<Die>, face: Die) -> nat {
    if face == Die::One {
        count_face(items, Die::One)
    } else {
        count_face(items, Die::One) + count_face(items, face)
    }
}

/// On how many of its six faces an unseen die counts towards `face`.
pub open spec fn matching_faces(face: Die) -> nat {
    if face == Die::One {
        1
    } else {
        2
    }
}

pub proof fn lemma_count_face_bound(items: Seq<Die>, face: Die)
    ensures
        count_face(items, face) <= items.len(),
    decreases items.len(),
{
    if items.len() > 0 {
        lemma_count_face_bound(items.drop_last(), face);
    }
}

/// A dice bet: at least `quantity` dice on the table count towards `value`.
#[derive(Debug, Clone, Copy, PartialEq, Eq, Structural, Hash)]
pub struct PerudoBet {
    pub value: Die,
    pub quantity: usize,
}

/// The bets on the faces with at most `f` pips, each with every quantity from
/// 1 to `n`: faces in increasing order, quantities increasing within a face.
pub open spec fn bets_up_to_face(f: nat, n: nat) -> Seq<PerudoBet>
    decreases f,
{
    if f == 0 {
        Seq::empty()
    } else {
        bets_up_to_face((f - 1) as nat, n) + Seq::new(
            n,
            |q: int| PerudoBet { value: Die::with_pips(f), quantity: (q + 1) as usize },
        )
    }
}

impl PerudoBet {
    pub open spec fn is_ace(self) -> bool {
        self.value == Die::One
    }

    /// The order law: an ace counts double against an ordinary face and never
    /// ties with one; ordinary bets rise by quantity, and at equal quantity by
    /// face.
    pub open spec fn spec_gt(self, other: PerudoBet) -> bool {
        if self.is_ace() && other.is_ace() {
            self.quantity > other.quantity
        } else if self.is_ace() {
            2 * self.quantity >= other.quantity
        } else if other.is_ace() {
            !(2 * other.quantity >= self.quantity)
        } else {
            self.quantity > other.quantity || (self.quantity == other.quantity
                && self.value.pips() > other.value.pips())
        }
    }

    /// The rank of a bet: its quantity and face, an ace bet ranking as twice
    /// its quantity and above every ordinary face.
    pub open spec fn order_key(self) -> (int, int) {
        if self.is_ace() {
            (2 * self.quantity, 7)
        } else {
            (self.quantity as int, self.value.pips() as int)
        }
    }

    pub open spec fn spec_cmp(self, other: PerudoBet) -> Ordering {
        if self.spec_gt(other) {
            Ordering::Greater
        } else if self == other {
            Ordering::Equal
        } else {
            Ordering::Less
        }
    }

    /// Every bet that can be made with `n` items on the table.
    pub open spec fn all_spec(n: nat) -> Seq<PerudoBet> {
        bets_up_to_face(6, n)
    }

    /// The bets of `all_spec(n)` above this one, in the same order.
    pub open spec fn all_above_spec(self, n: nat) -> Seq<PerudoBet> {
        PerudoBet::all_spec(n).filter(|b: PerudoBet| b.spec_gt(self))
    }

    /// Items not in the player's own hand.
    pub open spec fn unseen(total: nat, hand: Seq<Die>) -> nat {
        (total - hand.len()) as nat
    }

    /// Whether the outcomes of the dice unseen by a player can be counted in a
    /// `u128`.
    pub open spec fn countable(total: nat, hand: Seq<Die>) -> bool {
        outcomes(PerudoBet::unseen(total, hand)) <= u128::MAX
    }

    /// Whether the player's own hand already makes the bet hold.
    pub open spec fn certain(self, hand: Seq<Die>) -> bool {
        self.quantity <= logical_count(hand, self.value)
    }

    /// What the unseen items must still supply for the bet to hold.
    pub open spec fn residual(self, hand: Seq<Die>) -> int {
        self.quantity - logical_count(hand, self.value)
    }

    /// Outcomes of the unseen dice in which the bet holds.
    pub open spec fn ways_correct(self, total: nat, hand: Seq<Die>) -> nat {
        ways_at_least(
            PerudoBet::unseen(total, hand),
            self.residual(hand),
            matching_faces(self.value),
        )
    }

    /// Outcomes of the unseen dice in which the bet holds exactly.
    pub open spec fn ways_exact(self, total: nat, hand: Seq<Die>) -> nat {
        ways_exactly(
            PerudoBet::unseen(total, hand),
            self.residual(hand),
            matching_faces(self.value),
        )
    }

    /// The number of ways, out of `outcomes(unseen)`, that the question
    /// `variant` is answered yes.
    pub open spec fn ways_for(self, variant: ProbVariant, total: nat, hand: Seq<Die>) -> nat {
        match variant {
            ProbVariant::Bet => self.ways_correct(total, hand),
            ProbVariant::Perudo => (outcomes(PerudoBet::unseen(total, hand)) - self.ways_correct(
                total,
                hand,
            )) as nat,
            ProbVariant::Palafico => self.ways_exact(total, hand),
        }
    }

    /// Whether the items on the table make the bet true: at least (or, when
    /// `exact`, exactly) `quantity` of them count towards its face.
    pub open spec fn spec_is_correct(self, items: Seq<Die>, exact: bool) -> bool {
        if exact {
            self.quantity == logical_count(items, self.value)
        } else {
            self.quantity <= logical_count(items, self.value)
        }
    }

    /// Compares two bets by the order law.
    pub fn cmp(&self, other: &PerudoBet) -> (r: Ordering)
        ensures
            r == self.spec_cmp(*other),
    {
        let sa = self.value == Die::One;
        let oa = other.value == Die::One;
        let greater = if sa && oa {
            self.quantity > other.quantity
        } else if sa {
            2 * (self.quantity as u128) >= other.quantity as u128
        } else if oa {
            !(2 * (other.quantity as u128) >= self.quantity as u128)
        } else {
            self.quantity > other.quantity || (self.quantity == other.quantity
                && self.value.face_value() > other.value.face_value())
        };
        if greater {
            Ordering::Greater
        } else if *self == *other {
            Ordering::Equal
        } else {
            Ordering::Less
        }
    }

    /// Every bet that can be made given the number of items on the table.
    pub fn all(state: &GameState<PerudoBet>) -> (r: Vec<PerudoBet>)
        ensures
            r@ == PerudoBet::all_spec(state.total_num_items as nat),
    {
        let n = state.total_num_items;
        let faces = Die::all();
        let mut r: Vec<PerudoBet> = Vec::new();
        let mut f: usize = 0;
        while f < 6
            invariant
                f <= 6,
                faces@ == Die::faces(),
                r@ == bets_up_to_face(f as nat, n as nat),
            decreases 6 - f,
        {
            let face = faces[f];
            assert(face == Die::with_pips((f + 1) as nat));
            let mut q: usize = 0;
            while q < n
                invariant
                    q <= n,
                    f < 6,
                    face == Die::with_pips((f + 1) as nat),
                    r@ == bets_up_to_face(f as nat, n as nat) + Seq::new(
                        q as nat,
                        |k: int| PerudoBet { value: face, quantity: (k + 1) as usize },
                    ),
                decreases n - q,
            {
                r.push(PerudoBet { value: face, quantity: q + 1 });
                assert(r@ =~= bets_up_to_face(f as nat, n as nat) + Seq::new(
                    (q + 1) as nat,
                    |k: int| PerudoBet { value: face, quantity: (k + 1) as usize },
                ));
                q = q + 1;
            }
            assert(r@ =~= bets_up_to_face((f + 1) as nat, n as nat));
            f = f + 1;
        }
        r
    }

    /// Every bet above this one, given the number of items on the table.
    pub fn all_above(&self, state: &GameState<PerudoBet>) -> (r: Vec<PerudoBet>)
        ensures
            r@ == self.all_above_spec(state.total_num_items as nat),
    {
        let all = PerudoBet::all(state);
        let mut r: Vec<PerudoBet> = Vec::new();
        let mut i: usize = 0;
        while i < all.len()
            invariant
                i <= all@.len(),
                all@ == PerudoBet::all_spec(state.total_num_items as nat),
                r@ == all@.take(i as int).filter(|b: PerudoBet| b.spec_gt(*self)),
            decreases all@.len() - i,
        {
            let b = all[i];
            proof {
                assert(all@.take(i + 1) =~= all@.take(i as int).push(b));
                all@.take(i as int).lemma_filter_push(b, |b: PerudoBet| b.spec_gt(*self));
            }
            if matches!(b.cmp(self), Ordering::Greater) {
                r.push(b);
            }
            i = i + 1;
        }
        assert(all@.take(all@.len() as int) =~= all@);
        r
    }

    /// The sentinel below every real bet, standing for "no bet yet".
    pub fn smallest() -> (r: PerudoBet)
        ensures
            r == (PerudoBet { value: Die::Two, quantity: 0 }),
    {
        PerudoBet { value: Die::Two, quantity: 0 }
    }

    /// Whether the bet holds on the given items; `exact` asks whether it holds
    /// exactly.
    pub fn is_correct(&self, all_items: &Vec<Die>, exact: bool) -> (r: bool)
        ensures
            r == self.spec_is_correct(all_items@, exact),
    {
        let n = logical_count_of(all_items, self.value);
        if exact {
            self.quantity == n
        } else {
            self.quantity <= n
        }
    }

    /// The chance, as the given player sees it, that the answer to `variant`
    /// is yes. `None` where the count of outcomes of the unseen dice does not
    /// fit in a `u128`.
    pub fn prob(&self, state: &GameState<PerudoBet>, variant: ProbVariant, player: &PerudoPlayer) -> (r:
        Option<Probability>)
        requires
            player.hand.items@.len() <= state.total_num_items,
        ensures
            variant is Palafico ==> (r is Some <==> PerudoBet::countable(state.total_num_items as nat, player.hand.items@)),
            !(variant is Palafico) ==> (r is Some <==> PerudoBet::countable(state.total_num_items as nat, player.hand.items@) || self.certain(player.hand.items@)),
            !PerudoBet::countable(state.total_num_items as nat, player.hand.items@) && r is Some ==> r->0 == (Probability {
                numerator: if variant is Bet {
                    1
                } else {
                    0
                },
                denominator: 1,
            }),
            PerudoBet::countable(state.total_num_items as nat, player.hand.items@) ==> r is Some && r->0 == (Probability {
                numerator: self.ways_for(
                    variant,
                    state.total_num_items as nat,
                    player.hand.items@,
                ) as u128,
                denominator: outcomes(
                    PerudoBet::unseen(state.total_num_items as nat, player.hand.items@),
                ) as u128,
            }),
            r is Some ==> r->0.numerator <= r->0.denominator,
    {
        proof {
            lemma_at_least_bounds(
                PerudoBet::unseen(state.total_num_items as nat, player.hand.items@),
                self.residual(player.hand.items@),
                matching_faces(self.value),
            );
        }
        match variant {
            ProbVariant::Bet => self.bet_prob(state, player),
            ProbVariant::Perudo => self.perudo_prob(state, player),
            ProbVariant::Palafico => self.palafico_prob(state, player),
        }
    }

    /// The chance, as the given player sees it, that the bet holds.
    pub fn bet_prob(&self, state: &GameState<PerudoBet>, player: &PerudoPlayer) -> (r: Option<
        Probability,
    >)
        requires
            player.hand.items@.len() <= state.total_num_items,
        ensures
            r is Some <==> PerudoBet::countable(state.total_num_items as nat, player.hand.items@) || self.certain(player.hand.items@),
            !PerudoBet::countable(state.total_num_items as nat, player.hand.items@) && self.certain(player.hand.items@) ==> r == Some(Probability { numerator: 1, denominator: 1 }),
            PerudoBet::countable(state.total_num_items as nat, player.hand.items@) ==> r is Some && r->0 == (Probability {
                numerator: self.ways_correct(
                    state.total_num_items as nat,
                    player.hand.items@,
                ) as u128,
                denominator: outcomes(
                    PerudoBet::unseen(state.total_num_items as nat, player.hand.items@),
                ) as u128,
            }),
            r is Some ==> r->0.numerator <= r->0.denominator,
            self.certain(player.hand.items@) ==> r is Some && r->0.numerator
                == r->0.denominator,
    {
        let unseen = state.total_num_items - player.num_items();
        proof {
            if self.quantity <= logical_count(player.hand.items@, self.value) {
                lemma_guaranteed_floor(*self, state.total_num_items as nat, player.hand.items@);
            }
        }
        match count_outcomes(unseen) {
            None => {
                if self.quantity <= player.num_logical_items(self.value) {
                    Some(Probability { numerator: 1, denominator: 1 })
                } else {
                    None
                }
            },
            Some(den) => {
                let num = self.ways_correct_count(unseen, player);
                Some(Probability { numerator: num, denominator: den })
            },
        }
    }

    /// The chance, as the given player sees it, that a challenge of the bet
    /// wins.
    pub fn perudo_prob(&self, state: &GameState<PerudoBet>, player: &PerudoPlayer) -> (r: Option<
        Probability,
    >)
        requires
            player.hand.items@.len() <= state.total_num_items,
        ensures
            r is Some <==> PerudoBet::countable(state.total_num_items as nat, player.hand.items@) || self.certain(player.hand.items@),
            !PerudoBet::countable(state.total_num_items as nat, player.hand.items@) && self.certain(player.hand.items@) ==> r == Some(Probability { numerator: 0, denominator: 1 }),
            PerudoBet::countable(state.total_num_items as nat, player.hand.items@) ==> r is Some && r->0 == (Probability {
                numerator: (outcomes(
                    PerudoBet::unseen(state.total_num_items as nat, player.hand.items@),
                ) - self.ways_correct(state.total_num_items as nat, player.hand.items@)) as u128,
                denominator: outcomes(
                    PerudoBet::unseen(state.total_num_items as nat, player.hand.items@),
                ) as u128,
            }),
            r is Some ==> r->0.numerator <= r->0.denominator,
    {
        proof {
            lemma_at_least_bounds(
                PerudoBet::unseen(state.total_num_items as nat, player.hand.items@),
                self.residual(player.hand.items@),
                matching_faces(self.value),
            );
        }
        match self.bet_prob(state, player) {
            None => None,
            Some(p) => Some(
                Probability { numerator: p.denominator - p.numerator, denominator: p.denominator },
            ),
        }
    }

    /// The chance, as the given player sees it, that the bet holds exactly.
    pub fn palafico_prob(&self, state: &GameState<PerudoBet>, player: &PerudoPlayer) -> (r:
        Option<Probability>)
        requires
            player.hand.items@.len() <= state.total_num_items,
        ensures
            r is Some <==> PerudoBet::countable(state.total_num_items as nat, player.hand.items@),
            r is Some ==> r->0 == (Probability {
                numerator: self.ways_exact(
                    state.total_num_items as nat,
                    player.hand.items@,
                ) as u128,
                denominator: outcomes(
                    PerudoBet::unseen(state.total_num_items as nat, player.hand.items@),
                ) as u128,
            }),
            r is Some ==> r->0.numerator <= r->0.denominator,
    {
        let unseen = state.total_num_items - player.num_items();
        match count_outcomes(unseen) {
            None => None,
            Some(den) => {
                let guaranteed = player.num_logical_items(self.value);
                let m: u8 = if self.value == Die::One {
                    1
                } else {
                    2
                };
                proof {
                    lemma_outcomes_small(unseen as nat);
                }
                let num = if guaranteed > self.quantity {
                    0
                } else if self.quantity - guaranteed > unseen {
                    proof {
                        lemma_exactly_beyond(unseen as nat, self.residual(player.hand.items@), m as nat);
                    }
                    0
                } else {
                    let need = self.quantity - guaranteed;
                    proof {
                        lemma_exactly_split(unseen as nat, need as int, m as nat);
                        lemma_at_least_bounds(unseen as nat, need as int, m as nat);
                    }
                    count_at_least(unseen, need, m) - count_at_least(unseen, need + 1, m)
                };
                proof {
                    lemma_exactly_split(unseen as nat, self.residual(player.hand.items@), m as nat);
                    lemma_at_least_bounds(unseen as nat, self.residual(player.hand.items@), m as nat);
                    if guaranteed > self.quantity {
                        lemma_exactly_negative(unseen as nat, self.residual(player.hand.items@), m as nat);
                    }
                }
                Some(Probability { numerator: num, denominator: den })
            },
        }
    }

    /// The bets of `bets` most likely to hold as the given player sees them,
    /// in their order in `bets`.
    pub fn best_bets_from(
        state: &GameState<PerudoBet>,
        player: &PerudoPlayer,
        bets: &Vec<PerudoBet>,
    ) -> (r: Option<Vec<PerudoBet>>)
        requires
            player.hand.items@.len() <= state.total_num_items,
        ensures
            r is Some <==> outcomes(
                PerudoBet::unseen(state.total_num_items as nat, player.hand.items@),
            ) <= u128::MAX,
            r is Some ==> r->0@ == best_of(
                bets@,
                state.total_num_items as nat,
                player.hand.items@,
            ),
            r is Some ==> (r->0@.len() > 0 <==> bets@.len() > 0),
    {
        let unseen = state.total_num_items - player.num_items();
        if count_outcomes(unseen).is_none() {
            return None;
        }
        let ghost total = state.total_num_items as nat;
        let ghost hand = player.hand.items@;
        let mut scores: Vec<u128> = Vec::new();
        let mut i: usize = 0;
        while i < bets.len()
            invariant
                i <= bets@.len(),
                outcomes(PerudoBet::unseen(total, hand)) <= u128::MAX,
                total == state.total_num_items,
                hand == player.hand.items@,
                player.hand.items@.len() <= state.total_num_items,
                scores@ == bet_scores(bets@, total, hand).take(i as int),
            decreases bets@.len() - i,
        {
            let score = match bets[i].bet_prob(state, player) {
                Some(p) => p.numerator,
                None => 0,
            };
            scores.push(score);
            assert(scores@ =~= bet_scores(bets@, total, hand).take(i + 1));
            i = i + 1;
        }
        assert(scores@ =~= bet_scores(bets@, total, hand));
        let top = best_indices(&scores);
        let mut r: Vec<PerudoBet> = Vec::new();
        let mut k: usize = 0;
        while k < top.len()
            invariant
                k <= top@.len(),
                scores@.len() == bets@.len(),
                top@ == top_positions(scores@),
                forall|i: int| 0 <= i < top@.len() ==> top@[i] < scores@.len(),
                r@ == top@.take(k as int).map_values(|j: usize| bets@[j as int]),
            decreases top@.len() - k,
        {
            r.push(bets[top[k]]);
            assert(r@ =~= top@.take(k + 1).map_values(|j: usize| bets@[j as int]));
            k = k + 1;
        }
        assert(top@.take(top@.len() as int) =~= top@);
        Some(r)
    }

    /// One of the bets of `bets` most likely to hold as the given player sees
    /// them, drawn at random among equals.
    pub fn best_bet_from(
        state: &GameState<PerudoBet>,
        player: &PerudoPlayer,
        bets: &Vec<PerudoBet>,
    ) -> (r: Option<PerudoBet>)
        requires
            player.hand.items@.len() <= state.total_num_items,
        ensures
            r is Some <==> outcomes(
                PerudoBet::unseen(state.total_num_items as nat, player.hand.items@),
            ) <= u128::MAX && bets@.len() > 0,
            r is Some ==> best_of(bets@, state.total_num_items as nat, player.hand.items@).contains(
                r->0,
            ),
    {
        match PerudoBet::best_bets_from(state, player, bets) {
            None => None,
            Some(best) => {
                if best.len() == 0 {
                    None
                } else {
                    let k = choose_index(best.len());
                    Some(best[k])
                }
            },
        }
    }

    /// One of the opening bets most likely to hold as the given player sees
    /// them, drawn at random among equals; a round may not open on aces.
    /// `None` where there is nothing on the table or the outcomes of the
    /// unseen dice cannot be counted in a `u128`.
    pub fn best_first_bet(state: &GameState<PerudoBet>, player: &PerudoPlayer) -> (r: Option<
        PerudoBet,
    >)
        requires
            player.hand.items@.len() <= state.total_num_items,
        ensures
            r is Some <==> outcomes(
                PerudoBet::unseen(state.total_num_items as nat, player.hand.items@),
            ) <= u128::MAX && state.total_num_items >= 1,
            r is Some ==> best_of(
                first_bet_options(state.total_num_items as nat),
                state.total_num_items as nat,
                player.hand.items@,
            ).contains(r->0),
    {
        let all = PerudoBet::all(state);
        let mut bets: Vec<PerudoBet> = Vec::new();
        let mut i: usize = 0;
        while i < all.len()
            invariant
                i <= all@.len(),
                all@ == PerudoBet::all_spec(state.total_num_items as nat),
                bets@ == all@.take(i as int).filter(|b: PerudoBet| !b.is_ace()),
            decreases all@.len() - i,
        {
            let b = all[i];
            proof {
                assert(all@.take(i + 1) =~= all@.take(i as int).push(b));
                all@.take(i as int).lemma_filter_push(b, |b: PerudoBet| !b.is_ace());
            }
            if b.value != Die::One {
                bets.push(b);
            }
            i = i + 1;
        }
        assert(all@.take(all@.len() as int) =~= all@);
        proof {
            if state.total_num_items >= 1 {
                lemma_first_bet_exists(state.total_num_items as nat);
            } else {
                assert(PerudoBet::all_spec(0) =~= Seq::<PerudoBet>::empty()) by {
                    lemma_bets_up_to_face_len(6, 0);
                }
            }
        }
        PerudoBet::best_bet_from(state, player, &bets)
    }

    /// The count behind `bet_prob`, once the outcomes of the `unseen` dice are
    /// known to fit.
    fn ways_correct_count(&self, unseen: usize, player: &PerudoPlayer) -> (r: u128)
        requires
            outcomes(unseen as nat) <= u128::MAX,
        ensures
            r == ways_at_least(
                unseen as nat,
                self.residual(player.hand.items@),
                matching_faces(self.value),
            ),
            r <= outcomes(unseen as nat),
    {
        let guaranteed = player.num_logical_items(self.value);
        let m: u8 = if self.value == Die::One {
            1
        } else {
            2
        };
        proof {
            lemma_at_least_bounds(unseen as nat, self.residual(player.hand.items@), m as nat);
            lemma_at_least_bounds(unseen as nat, 0, m as nat);
            lemma_outcomes_small(unseen as nat);
        }
        if self.quantity <= guaranteed {
            count_at_least(unseen, 0, m)
        } else if self.quantity - guaranteed > unseen {
            proof {
                lemma_at_least_beyond(unseen as nat, self.residual(player.hand.items@), m as nat);
            }
            0
        } else {
            count_at_least(unseen, self.quantity - guaranteed, m)
        }
    }
}

/// The bets a round may open with: every bet but those on aces.
pub open spec fn first_bet_options(n: nat) -> Seq<PerudoBet> {
    PerudoBet::all_spec(n).filter(|b: PerudoBet| !b.is_ace())
}

/// The score of each bet: its favourable outcomes among the unseen dice.
pub open spec fn bet_scores(bets: Seq<PerudoBet>, total: nat, hand: Seq<Die>) -> Seq<u128> {
    bets.map_values(|b: PerudoBet| b.ways_correct(total, hand) as u128)
}

/// The bets of `bets` most likely to hold, in their order in `bets`.
pub open spec fn best_of(bets: Seq<PerudoBet>, total: nat, hand: Seq<Die>) -> Seq<PerudoBet> {
    top_positions(bet_scores(bets, total, hand)).map_values(|k: usize| bets[k as int])
}

pub proof fn lemma_bets_up_to_face_len(f: nat, n: nat)
    ensures
        bets_up_to_face(f, n).len() == f * n,
    decreases f,
{
    if f > 0 {
        lemma_bets_up_to_face_len((f - 1) as nat, n);
        assert((f - 1) as nat * n + n == f * n) by (nonlinear_arith)
            requires
                f > 0,
        ;
    } else {
        assert(f * n == 0) by (nonlinear_arith)
            requires
                f == 0,
        ;
    }
}

/// With at least one item on the table a round can be opened: one two is a
/// bet that is not on aces.
pub proof fn lemma_first_bet_exists(n: nat)
    requires
        n >= 1,
    ensures
        first_bet_options(n).contains(PerudoBet { value: Die::Two, quantity: 1 }),
{
    let b = PerudoBet { value: Die::Two, quantity: 1 };
    lemma_two_one_at(6, n);
    PerudoBet::all_spec(n).lemma_filter_contains_rev(|b: PerudoBet| !b.is_ace(), b);
}

proof fn lemma_two_one_at(f: nat, n: nat)
    requires
        n >= 1,
        f >= 2,
    ensures
        bets_up_to_face(f, n).len() > n,
        bets_up_to_face(f, n)[n as int] == (PerudoBet { value: Die::Two, quantity: 1 }),
    decreases f,
{
    lemma_bets_up_to_face_len(1, n);
    lemma_bets_up_to_face_len(f, n);
    lemma_bets_up_to_face_len((f - 1) as nat, n);
    assert(f * n > n) by (nonlinear_arith)
        requires
            f >= 2,
            n >= 1,
    ;
    if f > 2 {
        lemma_two_one_at((f - 1) as nat, n);
    } else {
        assert(bets_up_to_face(1, n).len() == n);
    }
}

/// The order law is total: it ranks bets by `order_key`, compared
/// lexicographically, and distinct bets have distinct keys. So of two bets
/// exactly one is below, equal to, or above the other; comparing them the
/// other way round gives the reverse answer; and a bet on aces never equals a
/// bet on another face.
pub proof fn lemma_order_total(a: PerudoBet, b: PerudoBet)
    ensures
        a.spec_gt(b) <==> (a.order_key().0 > b.order_key().0 || (a.order_key().0
            == b.order_key().0 && a.order_key().1 > b.order_key().1)),
        a.order_key() == b.order_key() <==> a == b,
        (a.spec_cmp(b) == Ordering::Less) as int + (a == b) as int + (a.spec_cmp(b)
            == Ordering::Greater) as int == 1,
        a.spec_cmp(b) == Ordering::Equal <==> a == b,
        b.spec_cmp(a) == match a.spec_cmp(b) {
            Ordering::Less => Ordering::Greater,
            Ordering::Equal => Ordering::Equal,
            Ordering::Greater => Ordering::Less,
        },
        a.is_ace() != b.is_ace() ==> a.spec_cmp(b) != Ordering::Equal,
{
    a.value.lemma_pips_bounds();
    b.value.lemma_pips_bounds();
    if a.order_key() == b.order_key() && !a.is_ace() && !b.is_ace() {
        a.value.lemma_pips_injective(b.value);
    }
    if a == b {
        assert(!a.spec_gt(b));
    }
}

/// The order law is transitive.
pub proof fn lemma_order_transitive(a: PerudoBet, b: PerudoBet, c: PerudoBet)
    requires
        a.spec_gt(b),
        b.spec_gt(c),
    ensures
        a.spec_gt(c),
{
    lemma_order_total(a, b);
    lemma_order_total(b, c);
    lemma_order_total(a, c);
}

/// A bet the player's own hand already guarantees is certain: all the
/// outcomes of the unseen dice favour it.
pub proof fn lemma_guaranteed_floor(bet: PerudoBet, total: nat, hand: Seq<Die>)
    requires
        bet.quantity <= logical_count(hand, bet.value),
    ensures
        bet.ways_correct(total, hand) == outcomes(PerudoBet::unseen(total, hand)),
{
    lemma_at_least_bounds(
        PerudoBet::unseen(total, hand),
        bet.residual(hand),
        matching_faces(bet.value),
    );
}

/// Claiming more of a face never makes a bet likelier to hold.
pub proof fn lemma_prob_monotone(face: Die, q1: usize, q2: usize, total: nat, hand: Seq<Die>)
    requires
        q1 <= q2,
    ensures
        (PerudoBet { value: face, quantity: q2 }).ways_correct(total, hand) <= (PerudoBet {
            value: face,
            quantity: q1,
        }).ways_correct(total, hand),
    decreases q2 - q1,
{
    if q1 < q2 {
        let q = (q2 - 1) as usize;
        lemma_prob_monotone(face, q1, q, total, hand);
        lemma_at_least_monotone(
            PerudoBet::unseen(total, hand),
            (PerudoBet { value: face, quantity: q }).residual(hand),
            matching_faces(face),
        );
    }
}

/// The bets above `b` are exactly the possible bets that the order law puts
/// above it: never `b` itself, nor any bet at or below it.
pub proof fn lemma_all_above_exact(b: PerudoBet, n: nat)
    ensures
        forall|x: PerudoBet|
            #[trigger] b.all_above_spec(n).contains(x) <==> PerudoBet::all_spec(n).contains(x)
                && x.spec_gt(b),
        !b.all_above_spec(n).contains(b),
        forall|x: PerudoBet|
            #[trigger] b.all_above_spec(n).contains(x) ==> x.spec_cmp(b) == Ordering::Greater,
{
    let f = |x: PerudoBet| x.spec_gt(b);
    assert forall|x: PerudoBet| #[trigger]
        b.all_above_spec(n).contains(x) <==> PerudoBet::all_spec(n).contains(x) && x.spec_gt(
            b,
        ) by {
        let all = PerudoBet::all_spec(n);
        if all.contains(x) && x.spec_gt(b) {
            let i = choose|i: int| 0 <= i < all.len() && all[i] == x;
            all.lemma_filter_contains(f, i);
        }
        if b.all_above_spec(n).contains(x) {
            all.lemma_filter_contains_rev(f, x);
            let j = choose|j: int| 0 <= j < all.filter(f).len() && all.filter(f)[j] == x;
            all.lemma_filter_pred(f, j);
        }
    }
    assert(!b.spec_gt(b));
}

/// No outcome has a negative number of matches.
pub proof fn lemma_exactly_negative(n: nat, r: int, m: nat)
    requires
        r < 0,
    ensures
        ways_exactly(n, r, m) == 0,
    decreases n,
{
    if n > 0 {
        lemma_exactly_negative((n - 1) as nat, r - 1, m);
        lemma_exactly_negative((n - 1) as nat, r, m);
        assert(m * 0 + (6 - m) as nat * 0 == 0) by (nonlinear_arith);
    }
}

/// No outcome of `n` dice has more than `n` matches.
pub proof fn lemma_exactly_beyond(n: nat, r: int, m: nat)
    requires
        r > n,
    ensures
        ways_exactly(n, r, m) == 0,
    decreases n,
{
    if n > 0 {
        lemma_exactly_beyond((n - 1) as nat, r - 1, m);
        lemma_exactly_beyond((n - 1) as nat, r, m);
        assert(m * 0 + (6 - m) as nat * 0 == 0) by (nonlinear_arith);
    }
}

/// No outcome of `n` dice has more than `n` matches.
pub proof fn lemma_at_least_beyond(n: nat, r: int, m: nat)
    requires
        r > n,
    ensures
        ways_at_least(n, r, m) == 0,
    decreases n,
{
    if n > 0 {
        lemma_at_least_beyond((n - 1) as nat, r - 1, m);
        lemma_at_least_beyond((n - 1) as nat, r, m);
        assert(m * 0 + (6 - m) as nat * 0 == 0) by (nonlinear_arith);
    }
}

/// Outcome counts that fit in a `u128` belong to fewer than fifty dice.
pub proof fn lemma_outcomes_small(n: nat)
    requires
        outcomes(n) <= u128::MAX,
    ensures
        n < 50,
{
    if n >= 50 {
        reveal_with_fuel(outcomes, 51);
        assert(outcomes(50) == 808281277464764060643139600456536293376nat);
        crate::chance::lemma_outcomes_monotone(50, n);
    }
}

/// How many of `items` count towards `face`, aces included as wildcards.
pub fn logical_count_of(items: &Vec<Die>, face: Die) -> (r: usize)
    ensures
        r == logical_count(items@, face),
{
    let ones = count_of(items, Die::One);
    let len = items.len();
    if face == Die::One {
        ones
    } else {
        proof {
            lemma_count_face_bound(items@, Die::One);
            lemma_count_face_bound(items@, face);
            lemma_count_disjoint(items@, face);
        }
        ones + count_of(items, face)
    }
}

/// Ones and another face together never outnumber the items.
proof fn lemma_count_disjoint(items: Seq<Die>, face: Die)
    requires
        face != Die::One,
    ensures
        count_face(items, Die::One) + count_face(items, face) <= items.len(),
    decreases items.len(),
{
    if items.len() > 0 {
        lemma_count_disjoint(items.drop_last(), face);
    }
}

/// How many times `face` shows in `items`.
pub fn count_of(items: &Vec<Die>, face: Die) -> (r: usize)
    ensures
        r == count_face(items@, face),
{
    let mut r: usize = 0;
    let mut i: usize = 0;
    while i < items.len()
        invariant
            i <= items@.len(),
            r == count_face(items@.take(i as int), face),
        decreases items@.len() - i,
    {
        proof {
            assert(items@.take(i + 1).drop_last() =~= items@.take(i as int));
            lemma_count_face_bound(items@.take(i as int), face);
        }
        if items[i] == face {
            r = r + 1;
        }
        i = i + 1;
    }
    assert(items@.take(items@.len() as int) =~= items@);
    r
}

impl PartialOrd for PerudoBet {
    fn partial_cmp(&self, other: &PerudoBet) -> (r: Option<Ordering>) {
        Some(self.cmp(other))
    }
}

impl vstd::std_specs::cmp::PartialOrdSpecImpl for PerudoBet {
    open spec fn obeys_partial_cmp_spec() -> bool {
        true
    }

    open spec fn partial_cmp_spec(&self, other: &PerudoBet) -> Option<Ordering> {
        Some(self.spec_cmp(*other))
    }
}


/// How many times tile `t` occurs in `tiles`.
pub open spec fn count_tile(tiles: Seq<Tile>, t: Tile) -> nat
    decreases tiles.len(),
{
    if tiles.len() == 0 {
        0
    } else {
        count_tile(tiles.drop_last(), t) + if tiles.last() == t {
            1nat
        } else {
            0nat
        }
    }
}

/// The number of tiles of kind `k` in `tiles`.
pub open spec fn kind_count(tiles: Seq<Tile>, k: int) -> nat {
    count_tile(tiles, Tile::of_index(k as nat))
}

/// The letters `bet` claims beyond what `table` holds, over the tile kinds
/// below `k`; blanks must make up the difference.
pub open spec fn shortfall(bet: Seq<Tile>, table: Seq<Tile>, k: nat) -> nat
    decreases k,
{
    if k == 0 {
        0
    } else {
        let j = k - 1;
        shortfall(bet, table, (k - 1) as nat) + if kind_count(bet, j) > kind_count(table, j) {
            (kind_count(bet, j) - kind_count(table, j)) as nat
        } else {
            0nat
        }
    }
}

/// Whether `table` holds more of some kind that `bet` claims than `bet`
/// claims, among the kinds below `k`.
pub open spec fn overcovered(bet: Seq<Tile>, table: Seq<Tile>, k: nat) -> bool
    decreases k,
{
    if k == 0 {
        false
    } else {
        let j = k - 1;
        overcovered(bet, table, (k - 1) as nat) || (kind_count(bet, j) > 0 && kind_count(table, j)
            > kind_count(bet, j))
    }
}

/// Whether the tiles `items` make the word `word`, blanks filling in for
/// missing letters; `exact` further asks that no claimed letter is there more
/// often than claimed and that the blanks are all used up.
pub open spec fn word_holds(word: Seq<Tile>, items: Seq<Tile>, exact: bool) -> bool {
    let missing = shortfall(word, items, NUM_TILE_KINDS as nat);
    let blanks = count_tile(items, Tile::Blank);
    if exact {
        !overcovered(word, items, NUM_TILE_KINDS as nat) && missing == blanks
    } else {
        missing <= blanks
    }
}

/// `c[k]` tiles of each kind `k` below `k_end`, kind after kind.
pub open spec fn runs(c: Seq<nat>, k_end: nat) -> Seq<Tile>
    decreases k_end,
{
    if k_end == 0 {
        Seq::empty()
    } else {
        runs(c, (k_end - 1) as nat) + Seq::new(
            c[k_end - 1],
            |i: int| Tile::of_index((k_end - 1) as nat),
        )
    }
}

/// `a` with one of each tile of `b` taken out where there is one.
pub open spec fn minus_counts(a: Seq<Tile>, b: Seq<Tile>) -> Seq<nat> {
    Seq::new(
        NUM_TILE_KINDS as nat,
        |k: int|
            if kind_count(a, k) > kind_count(b, k) {
                (kind_count(a, k) - kind_count(b, k)) as nat
            } else {
                0nat
            },
    )
}

/// Longer words are higher; words of equal length are ordered by the
/// characters of their tiles, the blank's `_` before every letter.
pub open spec fn word_cmp(a: Seq<Tile>, b: Seq<Tile>) -> Ordering {
    if a.len() < b.len() {
        Ordering::Less
    } else if a.len() > b.len() {
        Ordering::Greater
    } else {
        lex_cmp(a, b)
    }
}

/// The spellings of the dictionary's words of at most `n` letters, in
/// dictionary order.
pub open spec fn fitting_words(words: Seq<String>, n: nat) -> Seq<Seq<Tile>> {
    texts(words).filter(|w: Seq<char>| w.len() <= n).map_values(
        |w: Seq<char>| ScrabrudoBet::spelling(w),
    )
}

/// The spellings of `fitting_words(words, n)` that rise above `current`.
pub open spec fn words_above(words: Seq<String>, n: nat, current: Seq<Tile>) -> Seq<Seq<Tile>> {
    fitting_words(words, n).filter(|t: Seq<Tile>| word_cmp(t, current) == Ordering::Greater)
}

/// The tiles of each bet.
pub open spec fn bet_views(bets: Seq<ScrabrudoBet>) -> Seq<Seq<Tile>> {
    bets.map_values(|b: ScrabrudoBet| b.tiles@)
}

/// Lexicographic comparison of tile sequences of equal length, by the order
/// of their characters.
pub open spec fn lex_cmp(a: Seq<Tile>, b: Seq<Tile>) -> Ordering
    decreases a.len(),
{
    if a.len() == 0 || b.len() == 0 {
        Ordering::Equal
    } else if a[0].char_rank() < b[0].char_rank() {
        Ordering::Less
    } else if a[0].char_rank() > b[0].char_rank() {
        Ordering::Greater
    } else {
        lex_cmp(a.drop_first(), b.drop_first())
    }
}

pub proof fn lemma_of_index(k: nat)
    requires
        k < NUM_TILE_KINDS,
    ensures
        Tile::of_index(k).index() == k,
{
}

pub proof fn lemma_count_tile_bound(tiles: Seq<Tile>, t: Tile)
    ensures
        count_tile(tiles, t) <= tiles.len(),
    decreases tiles.len(),
{
    if tiles.len() > 0 {
        lemma_count_tile_bound(tiles.drop_last(), t);
    }
}

/// How many tiles of each kind `tiles` holds, by kind index.
pub fn tile_counts(tiles: &Vec<Tile>) -> (r: Vec<usize>)
    ensures
        r@.len() == NUM_TILE_KINDS,
        forall|k: int| 0 <= k < NUM_TILE_KINDS ==> r@[k] == kind_count(tiles@, k),
{
    let mut r: Vec<usize> = Vec::new();
    let mut k: usize = 0;
    while k < NUM_TILE_KINDS
        invariant
            k <= NUM_TILE_KINDS,
            r@.len() == k,
            forall|j: int| 0 <= j < k ==> r@[j] == 0,
        decreases NUM_TILE_KINDS - k,
    {
        r.push(0);
        k = k + 1;
    }
    let mut i: usize = 0;
    while i < tiles.len()
        invariant
            i <= tiles@.len(),
            r@.len() == NUM_TILE_KINDS,
            forall|j: int|
                0 <= j < NUM_TILE_KINDS ==> r@[j] == kind_count(tiles@.take(i as int), j),
        decreases tiles@.len() - i,
    {
        let t = tiles[i];
        let k = t.as_usize();
        proof {
            t.lemma_index_round_trip();
            assert(tiles@.take(i + 1).drop_last() =~= tiles@.take(i as int));
            assert forall|j: int| 0 <= j < NUM_TILE_KINDS implies (#[trigger] Tile::of_index(j as nat) == t
                <==> j == k) by {
                lemma_of_index(j as nat);
            }
            lemma_count_tile_bound(tiles@.take(i as int), t);
        }
        let c = r[k];
        r.set(k, c + 1);
        i = i + 1;
    }
    assert(tiles@.take(tiles@.len() as int) =~= tiles@);
    r
}

/// How many times `t` occurs in `tiles`.
pub fn count_tile_of(tiles: &Vec<Tile>, t: Tile) -> (r: usize)
    ensures
        r == count_tile(tiles@, t),
{
    let mut r: usize = 0;
    let mut i: usize = 0;
    while i < tiles.len()
        invariant
            i <= tiles@.len(),
            r == count_tile(tiles@.take(i as int), t),
        decreases tiles@.len() - i,
    {
        proof {
            assert(tiles@.take(i + 1).drop_last() =~= tiles@.take(i as int));
            lemma_count_tile_bound(tiles@.take(i as int), t);
        }
        if tiles[i] == t {
            r = r + 1;
        }
        i = i + 1;
    }
    assert(tiles@.take(tiles@.len() as int) =~= tiles@);
    r
}

/// Relies on std's `String: FromIterator<char>`: the string of the given
/// characters, in order.
#[verifier::external_body]
fn string_from_chars(chars: &Vec<char>) -> (r: String)
    ensures
        r@ == chars@,
{
    chars.iter().collect()
}

/// A word bet: the table holds the tiles of the word, blanks standing in for
/// missing letters.
#[derive(Debug, Clone, Hash)]
pub struct ScrabrudoBet {
    /// The tiles of the proposed word, in order.
    pub tiles: Vec<Tile>,
}

impl ScrabrudoBet {
    /// Longer words are higher; words of equal length are ordered by the
    /// characters of their tiles.
    pub open spec fn spec_cmp(self, other: ScrabrudoBet) -> Ordering {
        word_cmp(self.tiles@, other.tiles@)
    }

    /// Two word bets are equal when they hold the same tiles in any order.
    pub open spec fn same_tiles(self, other: ScrabrudoBet) -> bool {
        forall|k: int|
            0 <= k < NUM_TILE_KINDS ==> #[trigger] kind_count(self.tiles@, k) == kind_count(
                other.tiles@,
                k,
            )
    }

    /// Whether the tiles on the table make the word, blanks filling in for
    /// missing letters; `exact` further asks that no claimed letter is on the
    /// table more often than claimed and that the blanks are all used up.
    pub open spec fn spec_is_correct(self, items: Seq<Tile>, exact: bool) -> bool {
        word_holds(self.tiles@, items, exact)
    }

    /// The letters still to be found among the unseen tiles, in kind order:
    /// the word's tiles less the player's own, less those of the latest bet
    /// in the history, which are taken on trust.
    pub open spec fn spec_tiles_to_find(self, hand: Seq<Tile>, belief: Seq<Tile>) -> Seq<Tile> {
        let after_hand = runs(minus_counts(self.tiles@, hand), NUM_TILE_KINDS as nat);
        runs(minus_counts(after_hand, belief), NUM_TILE_KINDS as nat)
    }

    /// The tiles spelling `w`.
    pub open spec fn spelling(w: Seq<char>) -> Seq<Tile> {
        w.map_values(|c: char| Tile::of_char(c))
    }

    /// Every word bet that fits on the table: the dictionary's words of at
    /// most as many letters as there are tiles, in dictionary order.
    pub fn all(state: &GameState<ScrabrudoBet>, dict: &Dictionary) -> (r: Vec<ScrabrudoBet>)
        requires
            dict.wf(),
        ensures
            bet_views(r@) == fitting_words(dict.words@, state.total_num_items as nat),
    {
        let words = words_with_max_length(dict, state.total_num_items);
        let mut r: Vec<ScrabrudoBet> = Vec::new();
        let mut i: usize = 0;
        while i < words.len()
            invariant
                i <= words@.len(),
                r@.len() == i,
                dict.wf(),
                forall|j: int|
                    0 <= j < words@.len() ==> texts(dict.words@).contains(#[trigger] words@[j]@),
                r@.map_values(|b: ScrabrudoBet| b.tiles@) == texts(words@).take(i as int).map_values(
                    |w: Seq<char>| ScrabrudoBet::spelling(w),
                ),
            decreases words@.len() - i,
        {
            let w = &words[i];
            proof {
                let k = choose|k: int| 0 <= k < texts(dict.words@).len() && texts(dict.words@)[k]
                    == w@;
                assert(is_word_text(dict.words@[k]@));
                assert forall|j: int| 0 <= j < w@.len() implies is_tile_char(#[trigger] w@[j]) by {
                    assert('a' <= dict.words@[k]@[j] && dict.words@[k]@[j] <= 'z');
                }
            }
            let ghost old_r = r@;
            r.push(ScrabrudoBet::from_word(w));
            assert(texts(words@)[i as int] == w@);
            assert(r@[i as int].tiles@ == ScrabrudoBet::spelling(w@));
            assert forall|j: int| 0 <= j <= i implies #[trigger] r@[j].tiles@
                == ScrabrudoBet::spelling(texts(words@).take(i + 1)[j]) by {
                if j < i {
                    assert(r@[j] == old_r[j]);
                    assert(old_r.map_values(|b: ScrabrudoBet| b.tiles@)[j] == texts(words@).take(
                        i as int,
                    ).map_values(|w: Seq<char>| ScrabrudoBet::spelling(w))[j]);
                }
            }
            assert(r@.map_values(|b: ScrabrudoBet| b.tiles@) =~= texts(words@).take(i + 1).map_values(
                |w: Seq<char>| ScrabrudoBet::spelling(w),
            ));
            i = i + 1;
        }
        assert(texts(words@).take(words@.len() as int) =~= texts(words@));
        r
    }

    /// Every word bet that fits on the table and rises above this one, in
    /// dictionary order.
    pub fn all_above(&self, state: &GameState<ScrabrudoBet>, dict: &Dictionary) -> (r: Vec<
        ScrabrudoBet,
    >)
        requires
            dict.wf(),
        ensures
            bet_views(r@) == words_above(dict.words@, state.total_num_items as nat, self.tiles@),
    {
        let all = ScrabrudoBet::all(state, dict);
        let ghost views = bet_views(all@);
        let ghost f = |t: Seq<Tile>| word_cmp(t, self.tiles@) == Ordering::Greater;
        assert(views == fitting_words(dict.words@, state.total_num_items as nat));
        let mut r: Vec<ScrabrudoBet> = Vec::new();
        let mut i: usize = 0;
        while i < all.len()
            invariant
                i <= all@.len(),
                views == bet_views(all@),
                f == (|t: Seq<Tile>| word_cmp(t, self.tiles@) == Ordering::Greater),
                r@.len() <= i,
                bet_views(r@) == views.take(i as int).filter(f),
            decreases all@.len() - i,
        {
            let b = &all[i];
            proof {
                assert(views.take(i + 1) =~= views.take(i as int).push(b.tiles@));
                views.take(i as int).lemma_filter_push(b.tiles@, f);
            }
            if matches!(b.cmp(self), Ordering::Greater) {
                let ghost old_r = r@;
                r.push(b.copy());
                assert forall|j: int| 0 <= j < r@.len() implies #[trigger] bet_views(r@)[j] == views.take(i as int).filter(f).push(b.tiles@)[j] by {
                    if j < r@.len() - 1 {
                        assert(r@[j] == old_r[j]);
                        assert(bet_views(old_r)[j] == views.take(
                            i as int,
                        ).filter(f)[j]);
                    }
                }
                assert(bet_views(r@) =~= views.take(i as int).filter(
                    f,
                ).push(b.tiles@));
            }
            i = i + 1;
        }
        assert(views.take(all@.len() as int) =~= views);
        r
    }

    /// The sentinel below every real word bet: no tiles.
    pub fn smallest() -> (r: ScrabrudoBet)
        ensures
            r.tiles@.len() == 0,
    {
        ScrabrudoBet { tiles: Vec::new() }
    }

    /// A bet of the same tiles.
    pub fn copy(&self) -> (r: ScrabrudoBet)
        ensures
            r.tiles@ == self.tiles@,
    {
        ScrabrudoBet { tiles: crate::player::copy_vec(&self.tiles) }
    }

    /// The bet of the tiles spelling `word`.
    pub fn from_word(word: &String) -> (r: ScrabrudoBet)
        requires
            forall|i: int| 0 <= i < word@.len() ==> is_tile_char(#[trigger] word@[i]),
        ensures
            r.tiles@ == ScrabrudoBet::spelling(word@),
    {
        let s = word.as_str();
        let n = s.unicode_len();
        let mut tiles: Vec<Tile> = Vec::new();
        let mut i: usize = 0;
        while i < n
            invariant
                i <= n,
                n == word@.len(),
                s@ == word@,
                forall|j: int| 0 <= j < word@.len() ==> is_tile_char(#[trigger] word@[j]),
                tiles@ == word@.take(i as int).map_values(|c: char| Tile::of_char(c)),
            decreases n - i,
        {
            let c = s.get_char(i);
            tiles.push(Tile::from_char(c));
            assert(tiles@ =~= word@.take(i + 1).map_values(|c: char| Tile::of_char(c)));
            i = i + 1;
        }
        assert(word@.take(n as int) =~= word@);
        ScrabrudoBet { tiles }
    }

    /// The word the tiles spell.
    pub fn as_word(&self) -> (r: String)
        ensures
            r@ == self.tiles@.map_values(|t: Tile| t.spec_char()),
    {
        let mut chars: Vec<char> = Vec::new();
        let mut i: usize = 0;
        while i < self.tiles.len()
            invariant
                i <= self.tiles@.len(),
                chars@ == self.tiles@.take(i as int).map_values(|t: Tile| t.spec_char()),
            decreases self.tiles@.len() - i,
        {
            chars.push(self.tiles[i].char());
            assert(chars@ =~= self.tiles@.take(i + 1).map_values(|t: Tile| t.spec_char()));
            i = i + 1;
        }
        assert(self.tiles@.take(self.tiles@.len() as int) =~= self.tiles@);
        string_from_chars(&chars)
    }

    /// The points the tiles are worth together.
    pub fn score(&self) -> (r: u32)
        requires
            self.tiles@.len() * 10 <= u32::MAX,
        ensures
            r == tiles_score(self.tiles@),
    {
        let mut r: u32 = 0;
        let mut i: usize = 0;
        while i < self.tiles.len()
            invariant
                i <= self.tiles@.len(),
                self.tiles@.len() * 10 <= u32::MAX,
                r == tiles_score(self.tiles@.take(i as int)),
                r <= 10 * i,
            decreases self.tiles@.len() - i,
        {
            assert(self.tiles@.take(i + 1).drop_last() =~= self.tiles@.take(i as int));
            let t = self.tiles[i];
            r = r + t.score();
            i = i + 1;
        }
        assert(self.tiles@.take(self.tiles@.len() as int) =~= self.tiles@);
        r
    }

    /// Compares two word bets by length, then by the characters of their
    /// tiles.
    pub fn cmp(&self, other: &ScrabrudoBet) -> (r: Ordering)
        ensures
            r == self.spec_cmp(*other),
    {
        let n = self.tiles.len();
        if n < other.tiles.len() {
            return Ordering::Less;
        } else if n > other.tiles.len() {
            return Ordering::Greater;
        }
        let mut i: usize = 0;
        assert(self.tiles@.skip(0) =~= self.tiles@);
        assert(other.tiles@.skip(0) =~= other.tiles@);
        while i < n
            invariant
                i <= n,
                n == self.tiles@.len(),
                n == other.tiles@.len(),
                lex_cmp(self.tiles@, other.tiles@) == lex_cmp(
                    self.tiles@.skip(i as int),
                    other.tiles@.skip(i as int),
                ),
            decreases n - i,
        {
            let a = self.tiles[i].rank();
            let b = other.tiles[i].rank();
            assert(self.tiles@.skip(i as int)[0] == self.tiles@[i as int]);
            assert(other.tiles@.skip(i as int)[0] == other.tiles@[i as int]);
            if a < b {
                return Ordering::Less;
            } else if a > b {
                return Ordering::Greater;
            }
            assert(self.tiles@.skip(i as int).drop_first() =~= self.tiles@.skip(i + 1));
            assert(other.tiles@.skip(i as int).drop_first() =~= other.tiles@.skip(i + 1));
            i = i + 1;
        }
        Ordering::Equal
    }

    /// Whether the tiles on the table make the word; `exact` asks whether they
    /// make it exactly.
    pub fn is_correct(&self, all_items: &Vec<Tile>, exact: bool) -> (r: bool)
        ensures
            r == self.spec_is_correct(all_items@, exact),
    {
        let need = tile_counts(&self.tiles);
        let have = tile_counts(all_items);
        let blanks = have[NUM_TILE_KINDS - 1];
        proof {
            lemma_of_index((NUM_TILE_KINDS - 1) as nat);
        }
        let mut missing: u128 = 0;
        let mut over = false;
        let mut k: usize = 0;
        while k < NUM_TILE_KINDS
            invariant
                k <= NUM_TILE_KINDS,
                need@.len() == NUM_TILE_KINDS,
                have@.len() == NUM_TILE_KINDS,
                forall|j: int| 0 <= j < NUM_TILE_KINDS ==> need@[j] == kind_count(self.tiles@, j),
                forall|j: int| 0 <= j < NUM_TILE_KINDS ==> have@[j] == kind_count(all_items@, j),
                missing == shortfall(self.tiles@, all_items@, k as nat),
                missing <= k * (usize::MAX as nat),
                over == overcovered(self.tiles@, all_items@, k as nat),
            decreases NUM_TILE_KINDS - k,
        {
            if need[k] > have[k] {
                missing = missing + (need[k] - have[k]) as u128;
            } else if need[k] > 0 && have[k] > need[k] {
                over = true;
            }
            k = k + 1;
        }
        if exact {
            !over && missing == blanks as u128
        } else {
            missing <= blanks as u128
        }
    }

    /// The letters still to be found among the unseen tiles, in kind order:
    /// the word's tiles less the player's own, less those of the latest bet
    /// in the history.
    pub fn tiles_to_find(&self, state: &GameState<ScrabrudoBet>, player: &ScrabrudoPlayer) -> (r:
        Vec<Tile>)
        ensures
            r@ == self.spec_tiles_to_find(
                player.hand.items@,
                if state.history@.len() == 0 {
                    Seq::empty()
                } else {
                    state.history@.last().bet.tiles@
                },
            ),
    {
        let after_hand = minus_tiles(&self.tiles, &player.hand.items);
        if state.history.len() == 0 {
            let none: Vec<Tile> = Vec::new();
            minus_tiles(&after_hand, &none)
        } else {
            let last = &state.history[state.history.len() - 1];
            minus_tiles(&after_hand, &last.bet.tiles)
        }
    }
}

/// The points the tiles are worth together.
pub open spec fn tiles_score(tiles: Seq<Tile>) -> nat
    decreases tiles.len(),
{
    if tiles.len() == 0 {
        0
    } else {
        tiles_score(tiles.drop_last()) + tiles.last().spec_score()
    }
}

/// The tiles of `a` less one of each tile of `b` where there is one, in kind
/// order.
pub fn minus_tiles(a: &Vec<Tile>, b: &Vec<Tile>) -> (r: Vec<Tile>)
    ensures
        r@ == runs(minus_counts(a@, b@), NUM_TILE_KINDS as nat),
{
    let ca = tile_counts(a);
    let cb = tile_counts(b);
    let ghost c = minus_counts(a@, b@);
    let mut r: Vec<Tile> = Vec::new();
    let mut k: usize = 0;
    while k < NUM_TILE_KINDS
        invariant
            k <= NUM_TILE_KINDS,
            c == minus_counts(a@, b@),
            ca@.len() == NUM_TILE_KINDS,
            cb@.len() == NUM_TILE_KINDS,
            forall|j: int| 0 <= j < NUM_TILE_KINDS ==> ca@[j] == kind_count(a@, j),
            forall|j: int| 0 <= j < NUM_TILE_KINDS ==> cb@[j] == kind_count(b@, j),
            r@ == runs(c, k as nat),
        decreases NUM_TILE_KINDS - k,
    {
        let want: usize = if ca[k] > cb[k] {
            ca[k] - cb[k]
        } else {
            0
        };
        assert(want == c[k as int]);
        let t = Tile::from_usize(k);
        let ghost before = r@;
        let mut i: usize = 0;
        while i < want
            invariant
                i <= want,
                t == Tile::of_index(k as nat),
                r@ == before + Seq::new(i as nat, |j: int| Tile::of_index(k as nat)),
            decreases want - i,
        {
            r.push(t);
            assert(r@ =~= before + Seq::new((i + 1) as nat, |j: int| Tile::of_index(k as nat)));
            i = i + 1;
        }
        k = k + 1;
    }
    r
}

impl PartialEq for ScrabrudoBet {
    /// The same tiles in any order.
    fn eq(&self, other: &ScrabrudoBet) -> (r: bool) {
        let a = tile_counts(&self.tiles);
        let b = tile_counts(&other.tiles);
        let mut k: usize = 0;
        while k < NUM_TILE_KINDS
            invariant
                k <= NUM_TILE_KINDS,
                a@.len() == NUM_TILE_KINDS,
                b@.len() == NUM_TILE_KINDS,
                forall|j: int| 0 <= j < NUM_TILE_KINDS ==> a@[j] == kind_count(self.tiles@, j),
                forall|j: int| 0 <= j < NUM_TILE_KINDS ==> b@[j] == kind_count(other.tiles@, j),
                forall|j: int| 0 <= j < k ==> a@[j] == b@[j],
            decreases NUM_TILE_KINDS - k,
        {
            if a[k] != b[k] {
                return false;
            }
            k = k + 1;
        }
        true
    }
}

impl vstd::std_specs::cmp::PartialEqSpecImpl for ScrabrudoBet {
    open spec fn obeys_eq_spec() -> bool {
        true
    }

    open spec fn eq_spec(&self, other: &ScrabrudoBet) -> bool {
        self.same_tiles(*other)
    }
}

impl PartialOrd for ScrabrudoBet {
    fn partial_cmp(&self, other: &ScrabrudoBet) -> (r: Option<Ordering>) {
        Some(self.cmp(other))
    }
}

impl vstd::std_specs::cmp::PartialOrdSpecImpl for ScrabrudoBet {
    open spec fn obeys_partial_cmp_spec() -> bool {
        true
    }

    open spec fn partial_cmp_spec(&self, other: &ScrabrudoBet) -> Option<Ordering> {
        Some(self.spec_cmp(*other))
    }
}

} // verus!
