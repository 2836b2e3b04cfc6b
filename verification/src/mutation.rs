//! Mutation: a chromosome perturbed in place by random bit flips.

use crate::bits::{bit_at, single_bit};
use crate::chromosome::ChromosomeBytes;
use crate::fraction::Fraction;
use crate::random::{Draw, Drawn, RandomSource};
use vstd::prelude::*;

verus! {

/// Why a mutation was refused.
#[derive(Debug, Clone, Copy, PartialEq, Eq)]
pub enum MutationError {
    /// The mutation rate is 1, so no number of flips would ever be enough.
    InvalidRate,
}

/// A strategy that perturbs a chromosome in place.
pub trait Mutate<const CS: usize, const GS: usize> {
    /// Mutates `chromosome_data`, or refuses and leaves it as it is.
    fn mutate<R: RandomSource>(
        &self,
        chromosome_data: &mut ChromosomeBytes<CS, GS>,
        rng: &mut R,
    ) -> (outcome: Result<(), MutationError>);
}

/// Inversion mutation: each byte gets a geometrically distributed number
/// of bit flips, each at a random place of the byte.
///
/// A trial of that distribution succeeds with probability
/// `1 - mutation_rate`, so a higher rate means more flips. The rate has to
/// stay below 1.
#[derive(Debug)]
pub struct InversionMutation {
    pub mutation_rate: Fraction,
}

/// `byte` with the bit at `index` inverted.
pub open spec fn toggled(byte: u8, index: u8) -> u8 {
    byte ^ single_bit(index)
}

/// `byte` after a flip at each of `places`, in their order.
pub open spec fn flipped(byte: u8, places: Seq<u8>) -> u8
    decreases places.len(),
{
    if places.len() == 0 {
        byte
    } else {
        toggled(flipped(byte, places.drop_last()), places.last())
    }
}

/// What a source hands out for one byte that is flipped at `places`: the
/// number of flips, drawn as the failures before a success of probability
/// `success`, and then one place below 8 for each flip.
pub open spec fn byte_flip_draws(success: Fraction, places: Seq<u8>) -> Drawn {
    seq![Draw::Geometric { success, failures: places.len() as u64 }] + places.map_values(
        |place: u8| Draw::Below { bound: 8, value: place as u32 },
    )
}

/// What a source hands out for the bytes of one gene, byte by byte.
pub open spec fn gene_flip_draws(success: Fraction, places: Seq<Seq<u8>>) -> Drawn
    decreases places.len(),
{
    if places.len() == 0 {
        Seq::empty()
    } else {
        gene_flip_draws(success, places.drop_last()) + byte_flip_draws(success, places.last())
    }
}

/// What a source hands out for a chromosome, gene by gene.
pub open spec fn flip_draws(success: Fraction, places: Seq<Seq<Seq<u8>>>) -> Drawn
    decreases places.len(),
{
    if places.len() == 0 {
        Seq::empty()
    } else {
        flip_draws(success, places.drop_last()) + gene_flip_draws(success, places.last())
    }
}

/// `places` names, for each byte of a chromosome of `genes` genes of
/// `bytes` bytes, the places of its flips: each one of the eight places of
/// a byte, and no more of them than a count can hold.
pub open spec fn is_flip_plan(places: Seq<Seq<Seq<u8>>>, genes: nat, bytes: nat) -> bool {
    &&& places.len() == genes
    &&& forall|gene: int| 0 <= gene < genes ==> (#[trigger] places[gene]).len() == bytes
    &&& forall|gene: int, byte: int|
        0 <= gene < genes && 0 <= byte < bytes ==> (#[trigger] places[gene][byte]).len()
            <= u64::MAX
    &&& forall|gene: int, byte: int, flip: int|
        0 <= gene < genes && 0 <= byte < bytes && 0 <= flip < places[gene][byte].len()
            ==> #[trigger] places[gene][byte][flip] < 8
}

/// Every byte of `after` is the byte of `before` at its place, flipped as
/// `places` says.
pub open spec fn is_mutation<const CS: usize, const GS: usize>(
    after: ChromosomeBytes<CS, GS>,
    before: ChromosomeBytes<CS, GS>,
    places: Seq<Seq<Seq<u8>>>,
) -> bool {
    forall|gene: int, byte: int|
        0 <= gene < CS && 0 <= byte < GS ==> #[trigger] after[gene][byte] == flipped(
            before[gene][byte],
            places[gene][byte],
        )
}

/// A flip inverts the bit at its index and leaves the other seven alone.
pub proof fn law_flip_one_bit(byte: u8, index: u8, place: u8)
    requires
        index < 8,
        place < 8,
    ensures
        bit_at(toggled(byte, index), place) == if place == index {
            !bit_at(byte, place)
        } else {
            bit_at(byte, place)
        },
{
    assert(((byte ^ (0x80u8 >> index)) & (0x80u8 >> place) != 0) == if place == index {
        !(byte & (0x80u8 >> place) != 0)
    } else {
        byte & (0x80u8 >> place) != 0
    }) by (bit_vector)
        requires
            index < 8,
            place < 8,
    ;
}

/// Two flips at the same index cancel.
pub proof fn law_flip_twice(byte: u8, index: u8)
    ensures
        toggled(toggled(byte, index), index) == byte,
{
    assert(((byte ^ (0x80u8 >> index)) ^ (0x80u8 >> index)) == byte) by (bit_vector);
}

/// Inverts the bit of `byte` at `index`, counted from the most significant bit.
pub fn flip_bit(byte: u8, index: u8) -> (flipped: u8)
    requires
        index < 8,
    ensures
        flipped == toggled(byte, index),
{
    byte ^ (0x80u8 >> index)
}

impl InversionMutation {
    /// An inversion mutation with the rate given.
    pub fn new(mutation_rate: Fraction) -> (mutation: InversionMutation)
        ensures
            mutation.mutation_rate == mutation_rate,
    {
        Self { mutation_rate }
    }
}

impl<const CS: usize, const GS: usize> Mutate<CS, GS> for InversionMutation {
    /// Goes through the genes, and through the bytes of each gene. For
    /// each byte it draws a number of flips, as the failures before a
    /// success of probability `1 - mutation_rate`, and then, for each
    /// flip, one of the eight places; nothing else is asked of the source.
    ///
    /// A rate of 1 is refused: the chromosome is left as it is and nothing
    /// is drawn. With a rate of 0 no byte changes, whatever the source
    /// hands out.
    fn mutate<R: RandomSource>(
        &self,
        chromosome_data: &mut ChromosomeBytes<CS, GS>,
        rng: &mut R,
    ) -> (outcome: Result<(), MutationError>)
        ensures
            outcome is Err <==> self.mutation_rate.is_one(),
            outcome is Err ==> *final(chromosome_data) == *old(chromosome_data),
            outcome is Err ==> final(rng).drawn() == old(rng).drawn(),
            outcome is Ok ==> exists|places: Seq<Seq<Seq<u8>>>|
                {
                    &&& is_flip_plan(places, CS as nat, GS as nat)
                    &&& #[trigger] is_mutation(
                        *final(chromosome_data),
                        *old(chromosome_data),
                        places,
                    )
                    &&& final(rng).drawn() == old(rng).drawn() + flip_draws(
                        self.mutation_rate.complement(),
                        places,
                    )
                },
            self.mutation_rate.is_zero() ==> *final(chromosome_data) == *old(chromosome_data),
    {
        if self.mutation_rate.is_one() {
            return Err(MutationError::InvalidRate);
        }
        let success: Fraction = self.mutation_rate.complement();
        let ghost start = *chromosome_data;
        let ghost asked = rng.drawn();
        let ghost mut plan: Seq<Seq<Seq<u8>>> = Seq::empty();
        let mut gene: usize = 0;
        while gene < CS
            invariant
                gene <= CS,
                success.numerator() > 0,
                success == self.mutation_rate.complement(),
                self.mutation_rate.is_zero() ==> success.is_one(),
                self.mutation_rate.is_zero() ==> *chromosome_data == start,
                is_flip_plan(plan, gene as nat, GS as nat),
                rng.drawn() == asked + flip_draws(success, plan),
                forall|g: int, b: int|
                    0 <= g < gene && 0 <= b < GS ==> #[trigger] chromosome_data[g][b] == flipped(
                        start[g][b],
                        plan[g][b],
                    ),
                forall|g: int| gene <= g < CS ==> #[trigger] chromosome_data[g] == start[g],
            decreases CS - gene,
        {
            let ghost mut row: Seq<Seq<u8>> = Seq::empty();
            let mut byte: usize = 0;
            while byte < GS
                invariant
                    gene < CS,
                    byte <= GS,
                    success.numerator() > 0,
                    self.mutation_rate.is_zero() ==> success.is_one(),
                    self.mutation_rate.is_zero() ==> *chromosome_data == start,
                    is_flip_plan(plan, gene as nat, GS as nat),
                    row.len() == byte,
                    forall|b: int| 0 <= b < byte ==> (#[trigger] row[b]).len() <= u64::MAX,
                    forall|b: int, flip: int|
                        0 <= b < byte && 0 <= flip < row[b].len() ==> #[trigger] row[b][flip] < 8,
                    rng.drawn() == asked + flip_draws(success, plan) + gene_flip_draws(
                        success,
                        row,
                    ),
                    forall|g: int, b: int|
                        0 <= g < gene && 0 <= b < GS ==> #[trigger] chromosome_data[g][b]
                            == flipped(start[g][b], plan[g][b]),
                    forall|g: int| gene < g < CS ==> #[trigger] chromosome_data[g] == start[g],
                    forall|b: int|
                        0 <= b < byte ==> #[trigger] chromosome_data[gene as int][b] == flipped(
                            start[gene as int][b],
                            row[b],
                        ),
                    forall|b: int|
                        byte <= b < GS ==> #[trigger] chromosome_data[gene as int][b]
                            == start[gene as int][b],
                decreases GS - byte,
            {
                let flips: u64 = rng.geometric(success);
                let ghost counted = asked + flip_draws(success, plan) + gene_flip_draws(
                    success,
                    row,
                ) + seq![Draw::Geometric { success, failures: flips }];
                let ghost mut spots: Seq<u8> = Seq::empty();
                let mut done: u64 = 0;
                assert(rng.drawn() =~= counted + spots.map_values(
                    |place: u8| Draw::Below { bound: 8, value: place as u32 },
                ));
                while done < flips
                    invariant
                        gene < CS,
                        byte < GS,
                        done <= flips,
                        self.mutation_rate.is_zero() ==> flips == 0,
                        self.mutation_rate.is_zero() ==> *chromosome_data == start,
                        spots.len() == done,
                        forall|flip: int| 0 <= flip < spots.len() ==> #[trigger] spots[flip] < 8,
                        rng.drawn() == counted + spots.map_values(
                            |place: u8| Draw::Below { bound: 8, value: place as u32 },
                        ),
                        forall|g: int, b: int|
                            0 <= g < gene && 0 <= b < GS ==> #[trigger] chromosome_data[g][b]
                                == flipped(start[g][b], plan[g][b]),
                        forall|g: int| gene < g < CS ==> #[trigger] chromosome_data[g] == start[g],
                        forall|b: int|
                            0 <= b < byte ==> #[trigger] chromosome_data[gene as int][b]
                                == flipped(start[gene as int][b], row[b]),
                        forall|b: int|
                            byte < b < GS ==> #[trigger] chromosome_data[gene as int][b]
                                == start[gene as int][b],
                        chromosome_data[gene as int][byte as int] == flipped(
                            start[gene as int][byte as int],
                            spots,
                        ),
                    decreases flips - done,
                {
                    let place: u32 = rng.below(8);
                    let index: u8 = place as u8;
                    chromosome_data[gene][byte] = flip_bit(chromosome_data[gene][byte], index);
                    proof {
                        assert(spots.push(index).drop_last() =~= spots);
                        assert(spots.push(index).map_values(
                            |place: u8| Draw::Below { bound: 8, value: place as u32 },
                        ) =~= spots.map_values(
                            |place: u8| Draw::Below { bound: 8, value: place as u32 },
                        ).push(Draw::Below { bound: 8, value: place }));
                        spots = spots.push(index);
                    }
                    done += 1;
                }
                proof {
                    assert(counted + spots.map_values(
                        |place: u8| Draw::Below { bound: 8, value: place as u32 },
                    ) =~= asked + flip_draws(success, plan) + gene_flip_draws(success, row)
                        + byte_flip_draws(success, spots));
                    assert(row.push(spots).drop_last() =~= row);
                    assert(asked + flip_draws(success, plan) + gene_flip_draws(success, row)
                        + byte_flip_draws(success, spots) =~= asked + flip_draws(success, plan)
                        + gene_flip_draws(success, row.push(spots)));
                    row = row.push(spots);
                }
                byte += 1;
            }
            proof {
                assert(plan.push(row).drop_last() =~= plan);
                assert(asked + flip_draws(success, plan) + gene_flip_draws(success, row) =~= asked
                    + flip_draws(success, plan.push(row)));
                plan = plan.push(row);
            }
            gene += 1;
        }
        proof {
            assert(is_mutation(*chromosome_data, start, plan));
        }
        Ok(())
    }
}

} // verus!
