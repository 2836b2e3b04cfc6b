//! The random source that the operators draw from.
//!
//! The operators never reach for hidden global state: every draw goes
//! through a [`RandomSource`] that the caller hands in. Two sources live
//! here: [`RandSource`], backed by a generator of the `rand` crate, and
//! [`ScriptedSource`], which replays a fixed list of numbers and so makes
//! every operator reproducible.

use crate::fraction::Fraction;
use rand::Rng;
use vstd::prelude::*;

verus! {

/// `indices` names `amount` different positions of a collection of `length` items.
pub open spec fn is_index_sample(indices: Seq<usize>, length: nat, amount: nat) -> bool {
    &&& indices.len() == amount
    &&& forall|i: int| 0 <= i < indices.len() ==> #[trigger] indices[i] < length
    &&& forall|i: int, j: int| 0 <= i < j < indices.len() ==> indices[i] != indices[j]
}

/// One thing that a source handed out, together with what was asked of it.
pub enum Draw {
    /// A byte.
    Byte(u8),
    /// A number below a bound.
    Below { bound: u32, value: u32 },
    /// Different positions of a collection.
    Indices { length: usize, amount: usize, indices: Seq<usize> },
    /// A number of failures before a success.
    Geometric { success: Fraction, failures: u64 },
}

/// The record that a source keeps of what it handed out.
pub type Drawn = Seq<Draw>;

/// What the operators need from a source of randomness.
///
/// A source keeps a record of everything it hands out, so that the
/// contract of an operator can say what it asked of the source and what it
/// made of the answers. The contracts state what holds of every draw; how
/// likely each outcome is lies outside of what they can say.
pub trait RandomSource {
    /// Everything that the source has handed out so far, the first drawn first.
    spec fn drawn(&self) -> Drawn;

    /// A byte, each of the 256 values equally likely.
    fn byte(&mut self) -> (value: u8)
        ensures
            final(self).drawn() == old(self).drawn().push(Draw::Byte(value)),
    ;

    /// A number below `bound`, each equally likely.
    fn below(&mut self, bound: u32) -> (value: u32)
        requires
            bound > 0,
        ensures
            value < bound,
            final(self).drawn() == old(self).drawn().push(Draw::Below { bound, value }),
    ;

    /// `amount` different positions out of `0..length`, in random order.
    fn distinct_indices(&mut self, length: usize, amount: usize) -> (indices: Vec<usize>)
        requires
            amount <= length,
        ensures
            is_index_sample(indices@, length as nat, amount as nat),
            final(self).drawn() == old(self).drawn().push(
                Draw::Indices { length, amount, indices: indices@ },
            ),
    ;

    /// The number of failures before the first success in a run of trials
    /// that each succeed with probability `success`. A trial that cannot
    /// fail has no failures before its success.
    fn geometric(&mut self, success: Fraction) -> (failures: u64)
        requires
            success.numerator() > 0,
        ensures
            success.is_one() ==> failures == 0,
            final(self).drawn() == old(self).drawn().push(Draw::Geometric { success, failures }),
    ;
}

/// A source that replays a list of numbers, and starts over when the list
/// is used up.
pub struct ScriptedSource {
    values: Vec<u64>,
    cursor: usize,
    record: Ghost<Drawn>,
}

impl ScriptedSource {
    #[verifier::type_invariant]
    spec fn in_script(self) -> bool {
        self.cursor < self.values.len()
    }

    /// The numbers that the source replays.
    pub closed spec fn script(&self) -> Seq<u64> {
        self.values@
    }

    /// The place in the script of the number that is handed out next.
    pub closed spec fn position(&self) -> nat {
        self.cursor as nat
    }

    /// The number that is handed out next.
    pub open spec fn upcoming(&self) -> u64 {
        self.script()[self.position() as int]
    }

    /// `later` is this source after one number was handed out.
    pub open spec fn advanced(&self, later: &ScriptedSource) -> bool {
        &&& later.script() == self.script()
        &&& later.position() == (self.position() + 1) % self.script().len()
    }

    /// A source that replays `values` from the first on; `None` for an empty list.
    pub fn new(values: Vec<u64>) -> (source: Option<ScriptedSource>)
        ensures
            source is Some <==> values.len() > 0,
            source matches Some(s) ==> s.script() == values@ && s.position() == 0 && s.drawn()
                == Seq::<Draw>::empty(),
    {
        if values.len() == 0 {
            None
        } else {
            Some(ScriptedSource { values, cursor: 0, record: Ghost(Seq::empty()) })
        }
    }

    /// Hands out the next number of the script as it stands; the record
    /// keeps only what goes out through [`RandomSource`].
    pub fn next(&mut self) -> (value: u64)
        ensures
            value == old(self).upcoming(),
            old(self).advanced(final(self)),
            old(self).position() < old(self).script().len(),
            final(self).drawn() == old(self).drawn(),
    {
        proof {
            use_type_invariant(&*self);
        }
        let value: u64 = self.values[self.cursor];
        self.cursor = if self.cursor + 1 == self.values.len() {
            proof {
                vstd::arithmetic::div_mod::lemma_mod_self_0(self.values.len() as int);
            }
            0
        } else {
            proof {
                vstd::arithmetic::div_mod::lemma_small_mod(
                    (self.cursor + 1) as nat,
                    self.values.len() as nat,
                );
            }
            self.cursor + 1
        };
        value
    }
}

impl RandomSource for ScriptedSource {
    closed spec fn drawn(&self) -> Drawn {
        self.record@
    }

    /// The low byte of the next number.
    fn byte(&mut self) -> (value: u8)
        ensures
            value == old(self).upcoming() % 256,
            old(self).advanced(final(self)),
    {
        let value: u8 = (self.next() % 256) as u8;
        proof {
            self.record@ = self.record@.push(Draw::Byte(value));
        }
        value
    }

    /// The next number, reduced modulo `bound`.
    fn below(&mut self, bound: u32) -> (value: u32)
        ensures
            value == old(self).upcoming() % (bound as u64),
            old(self).advanced(final(self)),
    {
        let value: u32 = (self.next() % (bound as u64)) as u32;
        proof {
            self.record@ = self.record@.push(Draw::Below { bound, value });
        }
        value
    }

    /// A run of consecutive positions that wraps round at `length`; the
    /// next number, reduced modulo `length`, is the first. Nothing is
    /// handed out for an empty collection.
    fn distinct_indices(&mut self, length: usize, amount: usize) -> (indices: Vec<usize>)
        ensures
            length == 0 ==> final(self).script() == old(self).script() && final(self).position()
                == old(self).position(),
            length > 0 ==> old(self).advanced(final(self)),
            length > 0 ==> forall|i: int|
                0 <= i < amount ==> #[trigger] indices[i] as int == (old(self).upcoming() % (
                length as u64) + i) % (length as int),
    {
        let mut indices: Vec<usize> = Vec::new();
        if length == 0 {
            proof {
                use_type_invariant(&*self);
                self.record@ = self.record@.push(
                    Draw::Indices { length, amount, indices: indices@ },
                );
            }
            return indices;
        }
        let first: usize = (self.next() % (length as u64)) as usize;
        let ghost start: int = first as int;
        let mut taken: usize = 0;
        while taken < amount
            invariant
                taken <= amount <= length,
                first < length,
                start == first,
                indices.len() == taken,
                forall|i: int|
                    0 <= i < taken ==> #[trigger] indices[i] as int == (start + i) % (
                    length as int),
                forall|i: int| 0 <= i < taken ==> #[trigger] indices[i] < length,
                forall|i: int, j: int| 0 <= i < j < taken ==> indices[i] != indices[j],
            decreases amount - taken,
        {
            let index: usize = if taken < length - first {
                proof {
                    vstd::arithmetic::div_mod::lemma_small_mod(
                        (first + taken) as nat,
                        length as nat,
                    );
                }
                first + taken
            } else {
                proof {
                    let wrapped = first + taken - length;
                    vstd::arithmetic::div_mod::lemma_small_mod(wrapped as nat, length as nat);
                    vstd::arithmetic::div_mod::lemma_mod_add_multiples_vanish(
                        wrapped,
                        length as int,
                    );
                }
                taken - (length - first)
            };
            proof {
                assert forall|i: int| 0 <= i < taken implies indices[i] != index by {
                    let earlier = start + i;
                    if earlier < length {
                        vstd::arithmetic::div_mod::lemma_small_mod(earlier as nat, length as nat);
                    } else {
                        vstd::arithmetic::div_mod::lemma_small_mod(
                            (earlier - length) as nat,
                            length as nat,
                        );
                        vstd::arithmetic::div_mod::lemma_mod_add_multiples_vanish(
                            earlier - length,
                            length as int,
                        );
                    }
                }
            }
            indices.push(index);
            taken += 1;
        }
        proof {
            self.record@ = self.record@.push(Draw::Indices { length, amount, indices: indices@ });
        }
        indices
    }

    /// The next number, or 0 where a trial cannot fail; a number is handed
    /// out either way.
    fn geometric(&mut self, success: Fraction) -> (failures: u64)
        ensures
            failures == if success.is_one() {
                0
            } else {
                old(self).upcoming()
            },
            old(self).advanced(final(self)),
    {
        let scripted: u64 = self.next();
        let failures: u64 = if success.is_one() {
            0
        } else {
            scripted
        };
        proof {
            self.record@ = self.record@.push(Draw::Geometric { success, failures });
        }
        failures
    }
}

/// The standard generator of `rand`; the proofs see nothing inside it.
#[verifier::external_type_specification]
#[verifier::external_body]
pub struct ExStdRng(rand::rngs::StdRng);

/// A source that draws from the standard generator of the `rand` crate.
pub struct RandSource {
    rng: rand::rngs::StdRng,
    record: Ghost<Drawn>,
}

/// `Rng::gen::<u8>` of `rand`: some byte.
#[verifier::external_body]
fn draw_byte(rng: &mut rand::rngs::StdRng) -> (value: u8) {
    rng.gen()
}

/// `Rng::gen_range` of `rand` on the half-open range `0..bound`: a number
/// of that range. It panics on an empty range, which `bound > 0` rules out.
#[verifier::external_body]
fn draw_below(rng: &mut rand::rngs::StdRng, bound: u32) -> (value: u32)
    requires
        bound > 0,
    ensures
        value < bound,
{
    rng.gen_range(0..bound)
}

/// `rand::seq::index::sample`, turned into a `Vec` by `IndexVec::into_vec`:
/// exactly `amount` different indices out of `0..length`. It panics where
/// `amount` exceeds `length`; for a length above `u32::MAX` it takes a
/// path that also asserts, in builds that check such assertions, that
/// `amount` is below `length`.
#[verifier::external_body]
fn draw_indices(rng: &mut rand::rngs::StdRng, length: usize, amount: usize) -> (indices: Vec<usize>)
    requires
        amount <= length,
        length <= u32::MAX || amount < length,
    ensures
        is_index_sample(indices@, length as nat, amount as nat),
{
    rand::seq::index::sample(rng, length, amount).into_vec()
}

/// `Rng::gen_ratio` of `rand`: a trial that succeeds with probability
/// `numerator / denominator`. Its documentation guarantees success where
/// the two are equal and failure where the numerator is 0; it panics on a
/// zero denominator or a numerator above the denominator.
#[verifier::external_body]
fn draw_trial(rng: &mut rand::rngs::StdRng, numerator: u32, denominator: u32) -> (success: bool)
    requires
        0 < denominator,
        numerator <= denominator,
    ensures
        numerator == denominator ==> success,
        numerator == 0 ==> !success,
{
    rng.gen_ratio(numerator, denominator)
}

/// The positions `0..length`, each once and in their order.
fn every_index(length: usize) -> (indices: Vec<usize>)
    ensures
        indices.len() == length,
        forall|i: int| 0 <= i < length ==> #[trigger] indices[i] == i,
{
    let mut indices: Vec<usize> = Vec::new();
    let mut next: usize = 0;
    while next < length
        invariant
            next <= length,
            indices.len() == next,
            forall|i: int| 0 <= i < next ==> #[trigger] indices[i] == i,
        decreases length - next,
    {
        indices.push(next);
        next += 1;
    }
    indices
}

impl RandSource {
    /// The generator that the source draws from, in its present state.
    pub closed spec fn generator(&self) -> rand::rngs::StdRng {
        self.rng
    }

    /// A source that draws from `rng`, and has handed out nothing yet.
    pub fn new(rng: rand::rngs::StdRng) -> (source: RandSource)
        ensures
            source.generator() == rng,
            source.drawn() == Seq::<Draw>::empty(),
    {
        RandSource { rng, record: Ghost(Seq::empty()) }
    }
}

impl RandomSource for RandSource {
    closed spec fn drawn(&self) -> Drawn {
        self.record@
    }

    fn byte(&mut self) -> (value: u8) {
        let value: u8 = draw_byte(&mut self.rng);
        proof {
            self.record@ = self.record@.push(Draw::Byte(value));
        }
        value
    }

    fn below(&mut self, bound: u32) -> (value: u32) {
        let value: u32 = draw_below(&mut self.rng, bound);
        proof {
            self.record@ = self.record@.push(Draw::Below { bound, value });
        }
        value
    }

    /// Where every position of a collection of more than `u32::MAX` items
    /// is asked for, the positions come in their order, and the generator
    /// is not asked.
    fn distinct_indices(&mut self, length: usize, amount: usize) -> (indices: Vec<usize>) {
        let indices: Vec<usize> = if amount == length && length > u32::MAX as usize {
            every_index(length)
        } else {
            draw_indices(&mut self.rng, length, amount)
        };
        proof {
            self.record@ = self.record@.push(Draw::Indices { length, amount, indices: indices@ });
        }
        indices
    }

    /// Draws trials until one succeeds and counts those that failed; the
    /// count stops at `u64::MAX`. The time this takes grows with the count.
    fn geometric(&mut self, success: Fraction) -> (failures: u64) {
        let numerator: u32 = success.numerator();
        let denominator: u32 = success.denominator();
        let mut failures: u64 = 0;
        while failures < u64::MAX
            invariant
                0 < numerator <= denominator,
                numerator == denominator ==> failures == 0,
                self.drawn() == old(self).drawn(),
            decreases u64::MAX - failures,
        {
            if draw_trial(&mut self.rng, numerator, denominator) {
                break ;
            }
            failures += 1;
        }
        proof {
            self.record@ = self.record@.push(Draw::Geometric { success, failures });
        }
        failures
    }
}

} // verus!
