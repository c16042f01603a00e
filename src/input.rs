//! Reading a person's answer from a line of text.
//!
//! A dice answer is `p` (challenge), `pal` (exact challenge), or a bet written
//! `quantity.face`, as `2.6` for two sixes. A word answer is `*p`, `*pal`, or
//! the word itself. An answer that does not read, or a bet that does not rise
//! above the bet in play, is refused so that the question can be asked again.
use crate::bet::{word_cmp, PerudoBet, ScrabrudoBet};
use crate::die::Die;
use crate::game::TurnOutcome;
use crate::tile::is_tile_char;
use core::cmp::Ordering;
use vstd::prelude::*;
use vstd::string::*;

verus! {

pub open spec fn is_space(c: char) -> bool {
    c == ' ' || c == '\t' || c == '\n' || c == '\r'
}

/// `s` without leading white space.
pub open spec fn trim_start(s: Seq<char>) -> Seq<char>
    decreases s.len(),
{
    if s.len() > 0 && is_space(s[0]) {
        trim_start(s.drop_first())
    } else {
        s
    }
}

/// `s` without trailing white space.
pub open spec fn trim_end(s: Seq<char>) -> Seq<char>
    decreases s.len(),
{
    if s.len() > 0 && is_space(s.last()) {
        trim_end(s.drop_last())
    } else {
        s
    }
}

pub open spec fn trimmed(s: Seq<char>) -> Seq<char> {
    trim_end(trim_start(s))
}

pub open spec fn is_digit(c: char) -> bool {
    '0' <= c && c <= '9'
}

/// A non-empty run of decimal digits.
pub open spec fn is_decimal(s: Seq<char>) -> bool {
    s.len() > 0 && forall|i: int| 0 <= i < s.len() ==> is_digit(#[trigger] s[i])
}

/// The number the decimal digits of `s` write.
pub open spec fn decimal_value(s: Seq<char>) -> nat
    decreases s.len(),
{
    if s.len() == 0 {
        0
    } else {
        10 * decimal_value(s.drop_last()) + (s.last() as nat - '0' as nat) as nat
    }
}

/// The position of the first `.` in `s`, or its length when there is none.
pub open spec fn first_dot(s: Seq<char>) -> int
    decreases s.len(),
{
    if s.len() == 0 {
        0
    } else if s[0] == '.' {
        0
    } else {
        1 + first_dot(s.drop_first())
    }
}

/// The number `s` writes, when it is decimal and fits in a `usize`.
pub open spec fn read_number(s: Seq<char>) -> Option<usize> {
    if is_decimal(s) && decimal_value(s) <= usize::MAX {
        Some(decimal_value(s) as usize)
    } else {
        None
    }
}

/// The dice bet `quantity.face` written in `s`, if it reads: a quantity, a
/// dot, and a face from 1 to 6, followed by nothing or by another dot.
pub open spec fn read_dice_bet(s: Seq<char>) -> Option<PerudoBet> {
    let d = first_dot(s);
    let rest = s.subrange(d + 1, s.len() as int);
    let face_text = rest.subrange(0, first_dot(rest));
    if d >= s.len() {
        None
    } else {
        match (read_number(s.subrange(0, d)), read_number(face_text)) {
            (Some(q), Some(f)) => if 1 <= f <= 6 {
                Some(PerudoBet { value: Die::with_pips(f as nat), quantity: q })
            } else {
                None
            },
            _ => None,
        }
    }
}

/// What a person's line means as an answer to `current`: `None` when it does
/// not read, names a bet of no dice or one not above `current`, or challenges
/// at the `opening` of a round, when there is no bet to challenge.
pub open spec fn spec_dice_answer(line: Seq<char>, current: PerudoBet, opening: bool) -> Option<
    TurnOutcome<PerudoBet>,
> {
    let t = trimmed(line);
    if t == seq!['p'] {
        if opening {
            None
        } else {
            Some(TurnOutcome::Perudo)
        }
    } else if t == seq!['p', 'a', 'l'] {
        if opening {
            None
        } else {
            Some(TurnOutcome::Palafico)
        }
    } else {
        match read_dice_bet(t) {
            Some(b) => if b.quantity >= 1 && b.spec_gt(current) {
                Some(TurnOutcome::Bet(b))
            } else {
                None
            },
            None => None,
        }
    }
}

/// What a person's line means as an answer to the word bet `current`.
pub enum WordAnswer {
    /// The line does not read as an answer.
    Invalid,
    /// A challenge, `*p`.
    Perudo,
    /// An exact challenge, `*pal`.
    Palafico,
    /// A bet on the word written.
    Bet(ScrabrudoBet),
}

/// The characters of `line` between `start` and `end`.
fn chars_between(line: &str, start: usize, end: usize) -> (r: Vec<char>)
    requires
        start <= end <= line@.len(),
    ensures
        r@ == line@.subrange(start as int, end as int),
{
    let mut r: Vec<char> = Vec::new();
    let mut i: usize = start;
    while i < end
        invariant
            start <= i <= end,
            end <= line@.len(),
            r@ == line@.subrange(start as int, i as int),
        decreases end - i,
    {
        r.push(line.get_char(i));
        assert(r@ =~= line@.subrange(start as int, i + 1));
        i = i + 1;
    }
    r
}

proof fn lemma_trim_start(s: Seq<char>, i: int)
    requires
        0 <= i <= s.len(),
        forall|j: int| 0 <= j < i ==> is_space(#[trigger] s[j]),
    ensures
        trim_start(s) == trim_start(s.subrange(i, s.len() as int)),
    decreases i,
{
    if i > 0 {
        assert(is_space(s[0]));
        let t = s.drop_first();
        assert forall|j: int| 0 <= j < i - 1 implies is_space(#[trigger] t[j]) by {
            assert(t[j] == s[j + 1]);
        }
        lemma_trim_start(t, i - 1);
        assert(t.subrange(i - 1, t.len() as int) =~= s.subrange(i, s.len() as int));
    } else {
        assert(s.subrange(0, s.len() as int) =~= s);
    }
}

proof fn lemma_trim_end(s: Seq<char>, e: int)
    requires
        0 <= e <= s.len(),
        forall|j: int| e <= j < s.len() ==> is_space(#[trigger] s[j]),
    ensures
        trim_end(s) == trim_end(s.subrange(0, e)),
    decreases s.len() - e,
{
    if e < s.len() {
        let t = s.drop_last();
        assert forall|j: int| e <= j < t.len() implies is_space(#[trigger] t[j]) by {
            assert(t[j] == s[j]);
        }
        lemma_trim_end(t, e);
        assert(t.subrange(0, e) =~= s.subrange(0, e));
    } else {
        assert(s.subrange(0, e) =~= s);
    }
}

/// The characters of `line` without the white space around them.
pub fn trim(line: &str) -> (r: Vec<char>)
    ensures
        r@ == trimmed(line@),
{
    let n = line.unicode_len();
    let mut a: usize = 0;
    while a < n && is_space_char(line.get_char(a))
        invariant
            a <= n,
            n == line@.len(),
            forall|j: int| 0 <= j < a ==> is_space(#[trigger] line@[j]),
        decreases n - a,
    {
        a = a + 1;
    }
    let mut e: usize = n;
    while e > a && is_space_char(line.get_char(e - 1))
        invariant
            a <= e <= n,
            n == line@.len(),
            forall|j: int| e <= j < n ==> is_space(#[trigger] line@[j]),
        decreases e,
    {
        e = e - 1;
    }
    proof {
        lemma_trim_start(line@, a as int);
        let s = line@.subrange(a as int, n as int);
        assert(a == n || !is_space(s[0]));
        assert(trim_start(s) == s);
        assert forall|j: int| e - a <= j < s.len() implies is_space(#[trigger] s[j]) by {
            assert(s[j] == line@[a + j]);
        }
        lemma_trim_end(s, e - a);
        let u = s.subrange(0, e - a);
        assert(u =~= line@.subrange(a as int, e as int));
        assert(e == a || !is_space(u.last()));
        assert(trim_end(u) == u);
    }
    chars_between(line, a, e)
}

fn is_space_char(c: char) -> (r: bool)
    ensures
        r == is_space(c),
{
    c == ' ' || c == '\t' || c == '\n' || c == '\r'
}

/// The position of the first `.` in `s` from `from` on, or the length of `s`.
fn find_dot(s: &Vec<char>, from: usize) -> (r: usize)
    requires
        from <= s@.len(),
    ensures
        r == from + first_dot(s@.subrange(from as int, s@.len() as int)),
        from <= r <= s@.len(),
{
    let mut i: usize = from;
    while i < s.len() && s[i] != '.'
        invariant
            from <= i <= s@.len(),
            first_dot(s@.subrange(from as int, s@.len() as int)) == (i - from) + first_dot(
                s@.subrange(i as int, s@.len() as int),
            ),
        decreases s@.len() - i,
    {
        assert(s@.subrange(i as int, s@.len() as int).drop_first() =~= s@.subrange(
            i + 1,
            s@.len() as int,
        ));
        i = i + 1;
    }
    proof {
        lemma_first_dot_bound(s@.subrange(i as int, s@.len() as int));
    }
    i
}

proof fn lemma_first_dot_bound(s: Seq<char>)
    ensures
        0 <= first_dot(s) <= s.len(),
        first_dot(s) < s.len() ==> s[first_dot(s)] == '.',
        forall|j: int| 0 <= j < first_dot(s) ==> s[j] != '.',
    decreases s.len(),
{
    if s.len() > 0 && s[0] != '.' {
        lemma_first_dot_bound(s.drop_first());
        assert forall|j: int| 0 <= j < first_dot(s) implies s[j] != '.' by {
            if j > 0 {
                assert(s[j] == s.drop_first()[j - 1]);
            }
        }
    }
}

/// The number written by `s[from..to]`, when it is decimal and fits.
fn number_between(s: &Vec<char>, from: usize, to: usize) -> (r: Option<usize>)
    requires
        from <= to <= s@.len(),
    ensures
        r == read_number(s@.subrange(from as int, to as int)),
{
    let ghost t = s@.subrange(from as int, to as int);
    if from == to {
        return None;
    }
    let mut v: usize = 0;
    let mut i: usize = from;
    while i < to
        invariant
            from <= i <= to,
            to <= s@.len(),
            t == s@.subrange(from as int, to as int),
            forall|j: int| from <= j < i ==> is_digit(#[trigger] s@[j]),
            v == decimal_value(s@.subrange(from as int, i as int)),
        decreases to - i,
    {
        let c = s[i];
        assert(s@.subrange(from as int, i + 1).drop_last() =~= s@.subrange(from as int, i as int));
        if !('0' <= c && c <= '9') {
            assert(t[i - from] == c);
            return None;
        }
        let d = (c as u32 - '0' as u32) as usize;
        proof {
            let k = (i + 1 - from) as int;
            assert(t.subrange(0, k) =~= s@.subrange(from as int, i + 1));
            assert(s@.subrange(from as int, i + 1).last() == c);
            assert(decimal_value(s@.subrange(from as int, i + 1)) == 10 * v + d);
            assert forall|j: int| 0 <= j < k implies is_digit(#[trigger] t[j]) by {
                assert(t[j] == s@[from + j]);
            }
        }
        match v.checked_mul(10) {
            None => {
                proof {
                    lemma_decimal_grows(t, (i + 1 - from) as int);
                }
                return None;
            },
            Some(w) => match w.checked_add(d) {
                None => {
                    proof {
                        lemma_decimal_grows(t, (i + 1 - from) as int);
                    }
                    return None;
                },
                Some(x) => {
                    v = x;
                },
            },
        }
        i = i + 1;
    }
    assert(s@.subrange(from as int, i as int) =~= t);
    Some(v)
}

/// A prefix of digits writes no more than the whole run of digits.
proof fn lemma_decimal_grows(t: Seq<char>, k: int)
    requires
        0 <= k <= t.len(),
        forall|j: int| 0 <= j < k ==> is_digit(#[trigger] t[j]),
    ensures
        is_decimal(t) ==> decimal_value(t.subrange(0, k)) <= decimal_value(t),
    decreases t.len() - k,
{
    if k < t.len() && is_decimal(t) {
        lemma_decimal_grows(t, k + 1);
        assert(t.subrange(0, k + 1).drop_last() =~= t.subrange(0, k));
    } else if k == t.len() {
        assert(t.subrange(0, k) =~= t);
    }
}

/// Reads a person's answer to the dice bet `current` from `line`: `None`
/// when the line does not read, names a bet of no dice or one that does not
/// rise above `current`, or challenges at the `opening` of a round.
pub fn parse_dice_answer(line: &str, current: &PerudoBet, opening: bool) -> (r: Option<
    TurnOutcome<PerudoBet>,
>)
    ensures
        r == spec_dice_answer(line@, *current, opening),
{
    let t = trim(line);
    let n = t.len();
    if n == 1 && t[0] == 'p' {
        assert(t@ =~= seq!['p']);
        return if opening {
            None
        } else {
            Some(TurnOutcome::Perudo)
        };
    }
    if n == 3 && t[0] == 'p' && t[1] == 'a' && t[2] == 'l' {
        assert(t@ =~= seq!['p', 'a', 'l']);
        return if opening {
            None
        } else {
            Some(TurnOutcome::Palafico)
        };
    }
    assert(t@ != seq!['p']);
    assert(t@ != seq!['p', 'a', 'l']);
    let d = find_dot(&t, 0);
    assert(t@.subrange(0, n as int) =~= t@);
    if d >= n {
        return None;
    }
    let e = find_dot(&t, d + 1);
    proof {
        let rest = t@.subrange(d + 1, n as int);
        assert(rest.subrange(0, first_dot(rest)) =~= t@.subrange(d + 1, e as int));
    }
    let q = number_between(&t, 0, d);
    let f = number_between(&t, d + 1, e);
    match (q, f) {
        (Some(q), Some(f)) => {
            if 1 <= f && f <= 6 {
                let b = PerudoBet { value: Die::from_usize(f), quantity: q };
                if q >= 1 && matches!(b.cmp(current), Ordering::Greater) {
                    Some(TurnOutcome::Bet(b))
                } else {
                    None
                }
            } else {
                None
            }
        },
        _ => None,
    }
}

/// Reads a person's answer to the word bet `current` from `line`: `*p`, `*pal`
/// or a word of lower-case letters that rises above `current`; anything else
/// is refused, and so are challenges at the `opening` of a round.
pub fn parse_word_answer(line: &str, current: &ScrabrudoBet, opening: bool) -> (r: WordAnswer)
    ensures
        trimmed(line@) == seq!['*', 'p'] ==> (if opening {
            r is Invalid
        } else {
            r is Perudo
        }),
        trimmed(line@) == seq!['*', 'p', 'a', 'l'] ==> (if opening {
            r is Invalid
        } else {
            r is Palafico
        }),
        r is Bet ==> r->Bet_0.tiles@ == ScrabrudoBet::spelling(trimmed(line@))
            && r->Bet_0.spec_cmp(*current) == Ordering::Greater,
        r is Perudo ==> trimmed(line@) == seq!['*', 'p'] && !opening,
        r is Palafico ==> trimmed(line@) == seq!['*', 'p', 'a', 'l'] && !opening,
        r is Invalid ==> !(trimmed(line@) == seq!['*', 'p'] && !opening) && !(trimmed(line@)
            == seq!['*', 'p', 'a', 'l'] && !opening) && !((forall|i: int|
            0 <= i < trimmed(line@).len() ==> 'a' <= #[trigger] trimmed(line@)[i] && trimmed(
                line@,
            )[i] <= 'z') && word_cmp(ScrabrudoBet::spelling(trimmed(line@)), current.tiles@)
            == Ordering::Greater),
{
    let t = trim(line);
    let n = t.len();
    if n == 2 && t[0] == '*' && t[1] == 'p' {
        assert(t@ =~= seq!['*', 'p']);
        return if opening {
            WordAnswer::Invalid
        } else {
            WordAnswer::Perudo
        };
    }
    if n == 4 && t[0] == '*' && t[1] == 'p' && t[2] == 'a' && t[3] == 'l' {
        assert(t@ =~= seq!['*', 'p', 'a', 'l']);
        return if opening {
            WordAnswer::Invalid
        } else {
            WordAnswer::Palafico
        };
    }
    assert(t@ != seq!['*', 'p']);
    assert(t@ != seq!['*', 'p', 'a', 'l']);
    let mut tiles: Vec<crate::tile::Tile> = Vec::new();
    let mut i: usize = 0;
    while i < n
        invariant
            i <= n,
            n == t@.len(),
            t@ == trimmed(line@),
            t@ != seq!['*', 'p'],
            t@ != seq!['*', 'p', 'a', 'l'],
            forall|j: int| 0 <= j < i ==> 'a' <= #[trigger] t@[j] && t@[j] <= 'z',
            tiles@ == ScrabrudoBet::spelling(t@.take(i as int)),
        decreases n - i,
    {
        let c = t[i];
        if !('a' <= c && c <= 'z') {
            return WordAnswer::Invalid;
        }
        proof {
            assert(is_tile_char(c));
        }
        tiles.push(crate::tile::Tile::from_char(c));
        assert(tiles@ =~= ScrabrudoBet::spelling(t@.take(i + 1)));
        i = i + 1;
    }
    assert(t@.take(n as int) =~= t@);
    let b = ScrabrudoBet { tiles };
    if matches!(b.cmp(current), Ordering::Greater) {
        WordAnswer::Bet(b)
    } else {
        WordAnswer::Invalid
    }
}

} // verus!
