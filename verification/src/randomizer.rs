use vstd::prelude::*;

use crate::piece::{kind_of, Piece, Rotation};
use crate::well::Block;

verus! {

pub const LCG_MUL: u32 = 0x41C64E6D;
pub const LCG_ADD: u32 = 0x3039;
pub const LCG_MASK: u32 = 0x7FFF;

/// One step of the generator: multiply modulo 2^32, then add; `None` when
/// the addition overflows.
pub open spec fn lcg(seed: u32) -> Option<u32> {
    let p = (seed as int * LCG_MUL as int) % 0x1_0000_0000;
    if p + LCG_ADD <= u32::MAX {
        Some((p + LCG_ADD) as u32)
    } else {
        None
    }
}

/// The piece index, 0 to 6, that a generator state yields.
pub open spec fn roll_of(seed: u32) -> u8 {
    (((seed as int / 1024) % 32768) % 7) as u8
}

pub open spec fn in_history(history: [u8; 4], r: u8) -> bool {
    history[0] == r || history[1] == r || history[2] == r || history[3] == r
}

/// Up to `rounds` rounds: roll, and stop if the roll is not in the
/// history; otherwise roll again, which stands if no round is left.
/// Gives the final generator state and roll, or `None` on an overflow.
pub open spec fn draw(seed: u32, history: [u8; 4], rounds: nat) -> Option<(u32, u8)>
    decreases rounds,
{
    if rounds == 0 {
        None
    } else {
        match lcg(seed) {
            None => None,
            Some(s1) => if !in_history(history, roll_of(s1)) {
                Some((s1, roll_of(s1)))
            } else {
                match lcg(s1) {
                    None => None,
                    Some(s2) => if rounds == 1 {
                        Some((s2, roll_of(s2)))
                    } else {
                        draw(s2, history, (rounds - 1) as nat)
                    },
                }
            },
        }
    }
}

/// The generator state after `k` steps, `None` if a step overflows.
pub open spec fn lcg_steps(seed: u32, k: nat) -> Option<u32>
    decreases k,
{
    if k == 0 {
        Some(seed)
    } else {
        match lcg(seed) {
            Some(s) => lcg_steps(s, (k - 1) as nat),
            None => None,
        }
    }
}

/// A draw stops at its first roll when that roll is none of the four
/// pieces in the history; and a draw that deals a piece found anywhere in
/// the history has used all its rounds, two steps each: every earlier roll
/// found in the history was rerolled.
pub proof fn lemma_draw_avoids_history(seed: u32, h: [u8; 4], rounds: nat)
    requires
        rounds >= 1,
    ensures
        match lcg(seed) {
            Some(s1) => (h[0] != roll_of(s1) && h[1] != roll_of(s1) && h[2] != roll_of(s1) && h[3] != roll_of(s1))
                ==> draw(seed, h, rounds) == Some((s1, roll_of(s1))),
            None => draw(seed, h, rounds) is None,
        },
        match draw(seed, h, rounds) {
            Some((s, r)) => (h[0] == r || h[1] == r || h[2] == r || h[3] == r) ==> lcg_steps(seed, 2 * rounds)
                == Some(s),
            None => true,
        },
    decreases rounds,
{
    if let Some(s1) = lcg(seed) {
        if let Some(s2) = lcg(s1) {
            assert(lcg_steps(s2, 0) == Some(s2));
            assert(lcg_steps(s1, 1) == Some(s2));
            if rounds > 1 {
                lemma_draw_avoids_history(s2, h, (rounds - 1) as nat);
                assert((2 * rounds - 1) as nat - 1 == (2 * (rounds - 1)) as nat);
                assert(lcg_steps(s1, (2 * rounds - 1) as nat) == lcg_steps(s2, (2 * (rounds - 1)) as nat));
            }
            assert(lcg_steps(seed, 2 * rounds) == lcg_steps(s1, (2 * rounds - 1) as nat));
        }
    }
}

/// The colour of the piece a roll stands for.
pub open spec fn color_of_roll(r: u8) -> Block {
    if r == 0 {
        Block::Red
    } else if r == 1 {
        Block::Green
    } else if r == 2 {
        Block::Purple
    } else if r == 3 {
        Block::Blue
    } else if r == 4 {
        Block::Orange
    } else if r == 5 {
        Block::Yellow
    } else {
        Block::Cyan
    }
}

proof fn lemma_draw_roll_small(seed: u32, history: [u8; 4], rounds: nat)
    ensures
        draw(seed, history, rounds) matches Some((s, r)) ==> r < 7,
    decreases rounds,
{
    if rounds > 1 {
        if let Some(s1) = lcg(seed) {
            if let Some(s2) = lcg(s1) {
                lemma_draw_roll_small(s2, history, (rounds - 1) as nat);
            }
        }
    }
}

/// The piece generator: a linear congruential generator that rerolls, a
/// few times, pieces among the last four dealt.
#[derive(Clone, Debug)]
pub enum Randomizer {
    TTATGM2P { seed: u32, history: [u8; 4] },
}

impl Randomizer {
    pub open spec fn seed(self) -> u32 {
        match self {
            Randomizer::TTATGM2P { seed, .. } => seed,
        }
    }

    pub open spec fn history(self) -> [u8; 4] {
        match self {
            Randomizer::TTATGM2P { history, .. } => history,
        }
    }

    /// The generator state and roll of the next draw, `None` if it would
    /// overflow.
    pub open spec fn next_draw(self) -> Option<(u32, u8)> {
        draw(self.seed(), self.history(), 5)
    }

    pub open spec fn draw_ok(self) -> bool {
        self.next_draw() is Some
    }

    /// The state of a new generator.
    pub open spec fn spec_new() -> Randomizer {
        Randomizer::TTATGM2P { seed: 10, history: [1u8, 1, 2, 2] }
    }

    /// The generator after its next draw, when that draw does not overflow.
    pub open spec fn drawn(self) -> Randomizer {
        match self.next_draw() {
            Some((s, r)) => Randomizer::TTATGM2P {
                seed: s,
                history: [r, self.history()[0], self.history()[1], self.history()[2]],
            },
            None => self,
        }
    }

    /// The roll of the next draw.
    pub open spec fn next_roll(self) -> u8 {
        match self.next_draw() {
            Some((_, r)) => r,
            None => 0,
        }
    }

    pub fn new() -> (r: Randomizer)
        ensures
            r == Randomizer::spec_new(),
            r.seed() == 10,
            r.history() == [1u8, 1, 2, 2],
    {
        Randomizer::TTATGM2P { seed: 10, history: [1, 1, 2, 2] }
    }

    fn step(seed: u32) -> (out: Option<(u32, u8)>)
        ensures
            out matches Some((s, r)) ==> lcg(seed) == Some(s) && r == roll_of(s),
            out is None <==> lcg(seed) is None,
    {
        let product = seed.wrapping_mul(LCG_MUL);
        match product.checked_add(LCG_ADD) {
            Some(s) => {
                let v = (s >> 10) & LCG_MASK;
                assert((s >> 10) & 0x7FFFu32 == (s / 1024) % 32768) by (bit_vector);
                Some((s, (v % 7) as u8))
            },
            None => None,
        }
    }

    fn draw_from(seed: u32, history: [u8; 4]) -> (out: Option<(u32, u8)>)
        ensures
            out == draw(seed, history, 5),
    {
        let mut s = seed;
        let mut rounds: usize = 5;
        while rounds > 0
            invariant
                0 < rounds <= 5,
                draw(s, history, rounds as nat) == draw(seed, history, 5),
            decreases rounds,
        {
            match Randomizer::step(s) {
                None => return None,
                Some((s1, r1)) => {
                    if !(history[0] == r1 || history[1] == r1 || history[2] == r1 || history[3] == r1) {
                        return Some((s1, r1));
                    }
                    match Randomizer::step(s1) {
                        None => return None,
                        Some((s2, r2)) => {
                            if rounds == 1 {
                                return Some((s2, r2));
                            }
                            s = s2;
                        },
                    }
                },
            }
            rounds -= 1;
        }
        None
    }

    /// Whether the next draw is free of overflow.
    pub fn can_draw(&self) -> (b: bool)
        ensures
            b == self.draw_ok(),
    {
        match self {
            Randomizer::TTATGM2P { seed, history } => Randomizer::draw_from(*seed, *history).is_some(),
        }
    }

    /// Deals the next piece and records it at the front of the history.
    pub fn next_piece(&mut self) -> (p: Piece)
        requires
            old(self).draw_ok(),
        ensures
            old(self).next_draw() matches Some((s, r)) && {
                &&& r < 7
                &&& final(self).seed() == s
                &&& final(self).history() == [r, old(self).history()[0], old(self).history()[1], old(self).history()[2]]
                &&& p == Piece::spec_new(color_of_roll(r))
            },
    {
        let (seed, history) = match self {
            Randomizer::TTATGM2P { seed, history } => (*seed, *history),
        };
        proof {
            lemma_draw_roll_small(seed, history, 5);
        }
        match Randomizer::draw_from(seed, history) {
            Some((s, r)) => {
                let new_history = [r, history[0], history[1], history[2]];
                *self = Randomizer::TTATGM2P { seed: s, history: new_history };
                let color = if r == 0 {
                    Block::Red
                } else if r == 1 {
                    Block::Green
                } else if r == 2 {
                    Block::Purple
                } else if r == 3 {
                    Block::Blue
                } else if r == 4 {
                    Block::Orange
                } else if r == 5 {
                    Block::Yellow
                } else {
                    Block::Cyan
                };
                Piece::new(color)
            },
            None => {
                proof {
                    assert(false);
                }
                Piece::new(Block::Red)
            },
        }
    }
}

} // verus!
