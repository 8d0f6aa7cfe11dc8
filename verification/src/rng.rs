//! A seeded generator of numbers. The same seed gives the same numbers.

use vstd::prelude::*;
use vstd::string::*;

use crate::text::hex_digit;

verus! {

/// The state after one step.
pub open spec fn advance(state: u64) -> u64 {
    state.wrapping_add(0x9e37_79b9_7f4a_7c15)
}

/// The number that a state gives.
pub open spec fn output(state: u64) -> u64 {
    let a = (state ^ (state >> 30)).wrapping_mul(0xbf58_476d_1ce4_e5b9);
    let b = (a ^ (a >> 27)).wrapping_mul(0x94d0_49bb_1331_11eb);
    b ^ (b >> 31)
}

/// The state that a seed gives.
pub open spec fn seeded(seed: u64) -> u64 {
    seed.wrapping_mul(0x9e37_79b9_7f4a_7c15) ^ 0x2545_f491_4f6c_dd1d
}

/// The state after `n` numbers were drawn.
pub open spec fn after(state: u64, n: nat) -> u64
    decreases n,
{
    if n == 0 {
        state
    } else {
        advance(after(state, (n - 1) as nat))
    }
}

/// The number drawn after `n` others.
pub open spec fn nth(state: u64, n: nat) -> u64 {
    output(after(state, n + 1))
}

/// The number below `m` drawn after `n` others.
pub open spec fn nth_below(state: u64, n: nat, m: nat) -> int {
    nth(state, n) as int % m as int
}

/// `nibbles` hexadecimal digits, one number each.
pub open spec fn hex_text(state: u64, nibbles: nat) -> Seq<char> {
    Seq::new(nibbles, |i: int| crate::text::hex_char(nth_below(state, i as nat, 16) as nat))
}

/// Drawing `a` numbers and then `b` is drawing `a + b`.
pub proof fn after_add(state: u64, a: nat, b: nat)
    ensures
        after(after(state, a), b) == after(state, a + b),
    decreases b,
{
    if b > 0 {
        after_add(state, a, (b - 1) as nat);
    }
}

/// What is drawn next, counted from an earlier state.
pub proof fn nth_after(state: u64, a: nat, j: nat)
    ensures
        nth(after(state, a), j) == nth(state, a + j),
        advance(after(state, a)) == after(state, a + 1),
{
    after_add(state, a, j + 1);
}

/// splitmix64, seeded and never from the clock.
pub struct Rng {
    state: u64,
}

impl Rng {
    pub closed spec fn state(&self) -> u64 {
        self.state
    }

    pub fn new(seed: u64) -> (rng: Self)
        ensures
            rng.state() == seeded(seed),
    {
        Rng { state: seed.wrapping_mul(0x9e37_79b9_7f4a_7c15) ^ 0x2545_f491_4f6c_dd1d }
    }

    pub fn next_u64(&mut self) -> (n: u64)
        ensures
            final(self).state() == advance(old(self).state()),
            n == output(final(self).state()),
            n == nth(old(self).state(), 0),
    {
        self.state = self.state.wrapping_add(0x9e37_79b9_7f4a_7c15);
        let z: u64 = self.state;
        let a: u64 = (z ^ (z >> 30)).wrapping_mul(0xbf58_476d_1ce4_e5b9);
        let b: u64 = (a ^ (a >> 27)).wrapping_mul(0x94d0_49bb_1331_11eb);
        proof {
            reveal_with_fuel(after, 2);
        }
        b ^ (b >> 31)
    }

    /// A number below `n`. Nothing is drawn for zero.
    pub fn below(&mut self, n: usize) -> (out: usize)
        ensures
            n == 0 ==> out == 0 && final(self).state() == old(self).state(),
            n > 0 ==> {
                &&& out < n
                &&& out == nth_below(old(self).state(), 0, n as nat)
                &&& final(self).state() == advance(old(self).state())
            },
    {
        if n == 0 {
            return 0;
        }
        (self.next_u64() % (n as u64)) as usize
    }

    /// A fraction of one, in units of `2^-53`.
    pub fn unit(&mut self) -> (out: u64)
        ensures
            out == nth(old(self).state(), 0) >> 11,
            final(self).state() == advance(old(self).state()),
    {
        self.next_u64() >> 11
    }

    /// A string of hexadecimal digits.
    pub fn hex(&mut self, nibbles: usize) -> (out: String)
        ensures
            out@ == hex_text(old(self).state(), nibbles as nat),
            final(self).state() == after(old(self).state(), nibbles as nat),
    {
        let ghost start = self.state();
        let mut out = String::new();
        let mut i: usize = 0;
        while i < nibbles
            invariant
                i <= nibbles,
                start == old(self).state(),
                self.state() == after(start, i as nat),
                out@ == hex_text(start, i as nat),
            decreases nibbles - i,
        {
            let d: usize = self.below(16);
            proof {
                after_add(start, i as nat, 1);
                reveal_with_fuel(after, 2);
                assert(nth(after(start, i as nat), 0) == nth(start, i as nat));
            }
            out.push(hex_digit(d as u8));
            i = i + 1;
            assert(hex_text(start, i as nat) =~= hex_text(start, (i - 1) as nat).push(
                crate::text::hex_char(nth_below(start, (i - 1) as nat, 16) as nat),
            ));
        }
        out
    }
}

} // verus!
