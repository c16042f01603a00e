//! Letter tiles: the twenty-six letters and the blank.
use crate::hand::Holdable;
use crate::random::random_below;
use vstd::prelude::*;

verus! {

/// Number of distinct tile kinds: the letters and the blank.
pub const NUM_TILE_KINDS: usize = 27;

/// Number of tiles in a full bag, the total of all frequencies.
pub const BAG_SIZE: usize = 100;

#[derive(Debug, Clone, Copy, PartialEq, Eq, Structural, PartialOrd, Ord, Hash)]
pub enum Tile {
    A,
    B,
    C,
    D,
    E,
    F,
    G,
    H,
    I,
    J,
    K,
    L,
    M,
    N,
    O,
    P,
    Q,
    R,
    S,
    T,
    U,
    V,
    W,
    X,
    Y,
    Z,
    Blank,
}

/// Whether `c` is the character of some tile: a lower-case letter or `_`.
pub open spec fn is_tile_char(c: char) -> bool {
    ('a' <= c && c <= 'z') || c == '_'
}

impl Tile {
    /// Position of the tile kind: letters in alphabetical order, then the blank.
    pub open spec fn index(self) -> nat {
        match self {
            Tile::A => 0,
            Tile::B => 1,
            Tile::C => 2,
            Tile::D => 3,
            Tile::E => 4,
            Tile::F => 5,
            Tile::G => 6,
            Tile::H => 7,
            Tile::I => 8,
            Tile::J => 9,
            Tile::K => 10,
            Tile::L => 11,
            Tile::M => 12,
            Tile::N => 13,
            Tile::O => 14,
            Tile::P => 15,
            Tile::Q => 16,
            Tile::R => 17,
            Tile::S => 18,
            Tile::T => 19,
            Tile::U => 20,
            Tile::V => 21,
            Tile::W => 22,
            Tile::X => 23,
            Tile::Y => 24,
            Tile::Z => 25,
            Tile::Blank => 26,
        }
    }

    /// The tile of kind `k`.
    pub open spec fn of_index(k: nat) -> Tile {
        if k == 0 {
            Tile::A
        } else if k == 1 {
            Tile::B
        } else if k == 2 {
            Tile::C
        } else if k == 3 {
            Tile::D
        } else if k == 4 {
            Tile::E
        } else if k == 5 {
            Tile::F
        } else if k == 6 {
            Tile::G
        } else if k == 7 {
            Tile::H
        } else if k == 8 {
            Tile::I
        } else if k == 9 {
            Tile::J
        } else if k == 10 {
            Tile::K
        } else if k == 11 {
            Tile::L
        } else if k == 12 {
            Tile::M
        } else if k == 13 {
            Tile::N
        } else if k == 14 {
            Tile::O
        } else if k == 15 {
            Tile::P
        } else if k == 16 {
            Tile::Q
        } else if k == 17 {
            Tile::R
        } else if k == 18 {
            Tile::S
        } else if k == 19 {
            Tile::T
        } else if k == 20 {
            Tile::U
        } else if k == 21 {
            Tile::V
        } else if k == 22 {
            Tile::W
        } else if k == 23 {
            Tile::X
        } else if k == 24 {
            Tile::Y
        } else if k == 25 {
            Tile::Z
        } else {
            Tile::Blank
        }
    }

    /// The character that shows on the tile.
    pub open spec fn spec_char(self) -> char {
        match self {
            Tile::A => 'a',
            Tile::B => 'b',
            Tile::C => 'c',
            Tile::D => 'd',
            Tile::E => 'e',
            Tile::F => 'f',
            Tile::G => 'g',
            Tile::H => 'h',
            Tile::I => 'i',
            Tile::J => 'j',
            Tile::K => 'k',
            Tile::L => 'l',
            Tile::M => 'm',
            Tile::N => 'n',
            Tile::O => 'o',
            Tile::P => 'p',
            Tile::Q => 'q',
            Tile::R => 'r',
            Tile::S => 's',
            Tile::T => 't',
            Tile::U => 'u',
            Tile::V => 'v',
            Tile::W => 'w',
            Tile::X => 'x',
            Tile::Y => 'y',
            Tile::Z => 'z',
            Tile::Blank => '_',
        }
    }

    /// The tile whose character is `c`.
    pub open spec fn of_char(c: char) -> Tile {
        if c == 'a' {
            Tile::A
        } else if c == 'b' {
            Tile::B
        } else if c == 'c' {
            Tile::C
        } else if c == 'd' {
            Tile::D
        } else if c == 'e' {
            Tile::E
        } else if c == 'f' {
            Tile::F
        } else if c == 'g' {
            Tile::G
        } else if c == 'h' {
            Tile::H
        } else if c == 'i' {
            Tile::I
        } else if c == 'j' {
            Tile::J
        } else if c == 'k' {
            Tile::K
        } else if c == 'l' {
            Tile::L
        } else if c == 'm' {
            Tile::M
        } else if c == 'n' {
            Tile::N
        } else if c == 'o' {
            Tile::O
        } else if c == 'p' {
            Tile::P
        } else if c == 'q' {
            Tile::Q
        } else if c == 'r' {
            Tile::R
        } else if c == 's' {
            Tile::S
        } else if c == 't' {
            Tile::T
        } else if c == 'u' {
            Tile::U
        } else if c == 'v' {
            Tile::V
        } else if c == 'w' {
            Tile::W
        } else if c == 'x' {
            Tile::X
        } else if c == 'y' {
            Tile::Y
        } else if c == 'z' {
            Tile::Z
        } else {
            Tile::Blank
        }
    }

    /// The points the tile is worth.
    pub open spec fn spec_score(self) -> nat {
        match self {
            Tile::A => 1,
            Tile::B => 3,
            Tile::C => 3,
            Tile::D => 2,
            Tile::E => 1,
            Tile::F => 4,
            Tile::G => 2,
            Tile::H => 4,
            Tile::I => 1,
            Tile::J => 8,
            Tile::K => 5,
            Tile::L => 1,
            Tile::M => 3,
            Tile::N => 1,
            Tile::O => 1,
            Tile::P => 3,
            Tile::Q => 10,
            Tile::R => 1,
            Tile::S => 1,
            Tile::T => 1,
            Tile::U => 1,
            Tile::V => 4,
            Tile::W => 4,
            Tile::X => 8,
            Tile::Y => 4,
            Tile::Z => 10,
            Tile::Blank => 0,
        }
    }

    /// How many tiles of this kind a full bag holds.
    pub open spec fn spec_frequency(self) -> nat {
        match self {
            Tile::A => 9,
            Tile::B => 2,
            Tile::C => 2,
            Tile::D => 4,
            Tile::E => 12,
            Tile::F => 2,
            Tile::G => 3,
            Tile::H => 2,
            Tile::I => 9,
            Tile::J => 1,
            Tile::K => 1,
            Tile::L => 4,
            Tile::M => 2,
            Tile::N => 6,
            Tile::O => 8,
            Tile::P => 2,
            Tile::Q => 1,
            Tile::R => 6,
            Tile::S => 4,
            Tile::T => 6,
            Tile::U => 4,
            Tile::V => 2,
            Tile::W => 2,
            Tile::X => 1,
            Tile::Y => 2,
            Tile::Z => 1,
            Tile::Blank => 2,
        }
    }

    /// The letters in alphabetical order.
    pub open spec fn letters() -> Seq<Tile> {
        seq![Tile::A, Tile::B, Tile::C, Tile::D, Tile::E, Tile::F, Tile::G, Tile::H, Tile::I, Tile::J, Tile::K, Tile::L, Tile::M, Tile::N, Tile::O, Tile::P, Tile::Q, Tile::R, Tile::S, Tile::T, Tile::U, Tile::V, Tile::W, Tile::X, Tile::Y, Tile::Z]
    }

    /// The place of the tile's character in character order: `_` comes
    /// before the letters, and the letters come alphabetically.
    pub open spec fn char_rank(self) -> nat {
        if self == Tile::Blank {
            0
        } else {
            self.index() + 1
        }
    }

    /// Ranks order tiles as their characters are ordered.
    pub proof fn lemma_char_rank(self, other: Tile)
        ensures
            self.char_rank() < other.char_rank() <==> (self.spec_char() as u32) < (
            other.spec_char() as u32),
            self.char_rank() == other.char_rank() <==> self == other,
    {
    }

    pub proof fn lemma_index_round_trip(self)
        ensures
            Tile::of_index(self.index()) == self,
            self.index() < NUM_TILE_KINDS,
            Tile::of_char(self.spec_char()) == self,
            is_tile_char(self.spec_char()),
    {
    }

    pub fn from_char(c: char) -> (r: Tile)
        requires
            is_tile_char(c),
        ensures
            r == Tile::of_char(c),
            r.spec_char() == c,
    {
        match c {
            'a' => Tile::A,
            'b' => Tile::B,
            'c' => Tile::C,
            'd' => Tile::D,
            'e' => Tile::E,
            'f' => Tile::F,
            'g' => Tile::G,
            'h' => Tile::H,
            'i' => Tile::I,
            'j' => Tile::J,
            'k' => Tile::K,
            'l' => Tile::L,
            'm' => Tile::M,
            'n' => Tile::N,
            'o' => Tile::O,
            'p' => Tile::P,
            'q' => Tile::Q,
            'r' => Tile::R,
            's' => Tile::S,
            't' => Tile::T,
            'u' => Tile::U,
            'v' => Tile::V,
            'w' => Tile::W,
            'x' => Tile::X,
            'y' => Tile::Y,
            'z' => Tile::Z,
            _ => Tile::Blank,
        }
    }

    pub fn char(&self) -> (r: char)
        ensures
            r == self.spec_char(),
    {
        match self {
            Tile::A => 'a',
            Tile::B => 'b',
            Tile::C => 'c',
            Tile::D => 'd',
            Tile::E => 'e',
            Tile::F => 'f',
            Tile::G => 'g',
            Tile::H => 'h',
            Tile::I => 'i',
            Tile::J => 'j',
            Tile::K => 'k',
            Tile::L => 'l',
            Tile::M => 'm',
            Tile::N => 'n',
            Tile::O => 'o',
            Tile::P => 'p',
            Tile::Q => 'q',
            Tile::R => 'r',
            Tile::S => 's',
            Tile::T => 't',
            Tile::U => 'u',
            Tile::V => 'v',
            Tile::W => 'w',
            Tile::X => 'x',
            Tile::Y => 'y',
            Tile::Z => 'z',
            Tile::Blank => '_',
        }
    }

    pub fn as_usize(&self) -> (r: usize)
        ensures
            r == self.index(),
    {
        match self {
            Tile::A => 0,
            Tile::B => 1,
            Tile::C => 2,
            Tile::D => 3,
            Tile::E => 4,
            Tile::F => 5,
            Tile::G => 6,
            Tile::H => 7,
            Tile::I => 8,
            Tile::J => 9,
            Tile::K => 10,
            Tile::L => 11,
            Tile::M => 12,
            Tile::N => 13,
            Tile::O => 14,
            Tile::P => 15,
            Tile::Q => 16,
            Tile::R => 17,
            Tile::S => 18,
            Tile::T => 19,
            Tile::U => 20,
            Tile::V => 21,
            Tile::W => 22,
            Tile::X => 23,
            Tile::Y => 24,
            Tile::Z => 25,
            Tile::Blank => 26,
        }
    }

    pub fn from_usize(u: usize) -> (r: Tile)
        requires
            u < NUM_TILE_KINDS,
        ensures
            r.index() == u,
            r == Tile::of_index(u as nat),
    {
        match u {
            0 => Tile::A,
            1 => Tile::B,
            2 => Tile::C,
            3 => Tile::D,
            4 => Tile::E,
            5 => Tile::F,
            6 => Tile::G,
            7 => Tile::H,
            8 => Tile::I,
            9 => Tile::J,
            10 => Tile::K,
            11 => Tile::L,
            12 => Tile::M,
            13 => Tile::N,
            14 => Tile::O,
            15 => Tile::P,
            16 => Tile::Q,
            17 => Tile::R,
            18 => Tile::S,
            19 => Tile::T,
            20 => Tile::U,
            21 => Tile::V,
            22 => Tile::W,
            23 => Tile::X,
            24 => Tile::Y,
            25 => Tile::Z,
            _ => Tile::Blank,
        }
    }

    /// The place of the tile's character in character order.
    pub fn rank(&self) -> (r: usize)
        ensures
            r == self.char_rank(),
    {
        match self {
            Tile::Blank => 0,
            _ => self.as_usize() + 1,
        }
    }

    /// Every letter tile, in alphabetical order.
    pub fn all() -> (r: Vec<Tile>)
        ensures
            r@ == Tile::letters(),
    {
        let r = vec![Tile::A, Tile::B, Tile::C, Tile::D, Tile::E, Tile::F, Tile::G, Tile::H, Tile::I, Tile::J, Tile::K, Tile::L, Tile::M, Tile::N, Tile::O, Tile::P, Tile::Q, Tile::R, Tile::S, Tile::T, Tile::U, Tile::V, Tile::W, Tile::X, Tile::Y, Tile::Z];
        assert(r@ =~= Tile::letters());
        r
    }

    pub fn score(&self) -> (r: u32)
        ensures
            r == self.spec_score(),
    {
        match self {
            Tile::A => 1,
            Tile::B => 3,
            Tile::C => 3,
            Tile::D => 2,
            Tile::E => 1,
            Tile::F => 4,
            Tile::G => 2,
            Tile::H => 4,
            Tile::I => 1,
            Tile::J => 8,
            Tile::K => 5,
            Tile::L => 1,
            Tile::M => 3,
            Tile::N => 1,
            Tile::O => 1,
            Tile::P => 3,
            Tile::Q => 10,
            Tile::R => 1,
            Tile::S => 1,
            Tile::T => 1,
            Tile::U => 1,
            Tile::V => 4,
            Tile::W => 4,
            Tile::X => 8,
            Tile::Y => 4,
            Tile::Z => 10,
            Tile::Blank => 0,
        }
    }

    /// How many tiles of this kind a full bag holds.
    pub fn frequency(&self) -> (r: u32)
        ensures
            r == self.spec_frequency(),
            r <= 12,
    {
        match self {
            Tile::A => 9,
            Tile::B => 2,
            Tile::C => 2,
            Tile::D => 4,
            Tile::E => 12,
            Tile::F => 2,
            Tile::G => 3,
            Tile::H => 2,
            Tile::I => 9,
            Tile::J => 1,
            Tile::K => 1,
            Tile::L => 4,
            Tile::M => 2,
            Tile::N => 6,
            Tile::O => 8,
            Tile::P => 2,
            Tile::Q => 1,
            Tile::R => 6,
            Tile::S => 4,
            Tile::T => 6,
            Tile::U => 4,
            Tile::V => 2,
            Tile::W => 2,
            Tile::X => 1,
            Tile::Y => 2,
            Tile::Z => 1,
            Tile::Blank => 2,
        }
    }
}

/// How many tiles of the kinds below `k` a full bag holds.
pub open spec fn cumulative_frequency(k: nat) -> nat
    decreases k,
{
    if k == 0 {
        0
    } else {
        cumulative_frequency((k - 1) as nat) + Tile::of_index((k - 1) as nat).spec_frequency()
    }
}

/// The frequencies add up to a full bag.
pub proof fn lemma_bag_size()
    ensures
        cumulative_frequency(NUM_TILE_KINDS as nat) == BAG_SIZE,
{
    reveal_with_fuel(cumulative_frequency, 28);
}

/// The tile that the draw `draw` from a full bag picks: the kinds take up
/// consecutive runs of draws, in kind order, each as long as the kind's
/// frequency.
pub fn tile_for_draw(draw: usize) -> (r: Tile)
    requires
        draw < BAG_SIZE,
    ensures
        cumulative_frequency(r.index()) <= draw < cumulative_frequency(r.index() + 1),
{
    proof {
        lemma_bag_size();
    }
    let mut seen: usize = 0;
    let mut k: usize = 0;
    while k < NUM_TILE_KINDS
        invariant
            k <= NUM_TILE_KINDS,
            draw < BAG_SIZE,
            cumulative_frequency(NUM_TILE_KINDS as nat) == BAG_SIZE,
            seen == cumulative_frequency(k as nat),
            seen <= draw,
        decreases NUM_TILE_KINDS - k,
    {
        let tile = Tile::from_usize(k);
        seen = seen + tile.frequency() as usize;
        if draw < seen {
            return tile;
        }
        k = k + 1;
    }
    Tile::Blank
}

impl Holdable for Tile {
    /// A tile drawn from a full bag: each kind as likely as its frequency.
    fn get_random() -> Tile {
        tile_for_draw(random_below(BAG_SIZE))
    }
}

} // verus!
