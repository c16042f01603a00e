//! The six faces of a die; the ace is the wildcard face.
use crate::hand::Holdable;
use crate::random::random_below;
use vstd::prelude::*;

verus! {

#[derive(Debug, Clone, Copy, PartialEq, Eq, Structural, PartialOrd, Ord, Hash)]
pub enum Die {
    One,
    Two,
    Three,
    Four,
    Five,
    Six,
}

impl Die {
    /// The number of pips on the face.
    pub open spec fn pips(self) -> nat {
        match self {
            Die::One => 1,
            Die::Two => 2,
            Die::Three => 3,
            Die::Four => 4,
            Die::Five => 5,
            Die::Six => 6,
        }
    }

    /// The face that shows `n` pips.
    pub open spec fn with_pips(n: nat) -> Die {
        if n <= 1 {
            Die::One
        } else if n == 2 {
            Die::Two
        } else if n == 3 {
            Die::Three
        } else if n == 4 {
            Die::Four
        } else if n == 5 {
            Die::Five
        } else {
            Die::Six
        }
    }

    /// Every face, in increasing order of pips.
    pub open spec fn faces() -> Seq<Die> {
        seq![Die::One, Die::Two, Die::Three, Die::Four, Die::Five, Die::Six]
    }

    pub proof fn lemma_pips_bounds(self)
        ensures
            1 <= self.pips() <= 6,
    {
    }

    /// Distinct faces show distinct numbers of pips.
    pub proof fn lemma_pips_injective(self, other: Die)
        requires
            self.pips() == other.pips(),
        ensures
            self == other,
    {
    }

    pub fn face_value(&self) -> (r: u32)
        ensures
            r == self.pips(),
    {
        match self {
            Die::One => 1,
            Die::Two => 2,
            Die::Three => 3,
            Die::Four => 4,
            Die::Five => 5,
            Die::Six => 6,
        }
    }

    pub fn all() -> (r: Vec<Die>)
        ensures
            r@ == Die::faces(),
    {
        let r = vec![Die::One, Die::Two, Die::Three, Die::Four, Die::Five, Die::Six];
        assert(r@ =~= Die::faces());
        r
    }

    /// The face with `x` pips.
    pub fn from_usize(x: usize) -> (r: Die)
        requires
            1 <= x <= 6,
        ensures
            r.pips() == x,
            r == Die::with_pips(x as nat),
    {
        let all = Die::all();
        all[x - 1]
    }
}

impl Holdable for Die {
    /// A face drawn uniformly at random.
    fn get_random() -> Die {
        let n = random_below(6);
        Die::from_usize(n + 1)
    }
}

} // verus!
