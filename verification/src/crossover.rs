//! Crossover: one offspring chromosome out of two parents of the same shape.

use crate::bits::bit_at;
use crate::chromosome::{byte_rows, ChromosomeBytes};
use crate::random::{Draw, Drawn, RandomSource};
use vstd::prelude::*;

verus! {

/// A strategy that combines two parent chromosomes into one offspring.
pub trait Crossover<const CS: usize, const GS: usize> {
    /// The offspring of `mother_chromosome` and `father_chromosome`.
    fn crossover<R>(
        &self,
        mother_chromosome: ChromosomeBytes<CS, GS>,
        father_chromosome: ChromosomeBytes<CS, GS>,
        rng: &mut R,
    ) -> (offspring: ChromosomeBytes<CS, GS>) where R: RandomSource;
}

/// Uniform crossover: every bit of the offspring comes from the mother or
/// from the father, as a random mask decides bit by bit.
pub struct UniformCrossover {}

/// The byte that has the mother's bit wherever `mask` has a one and the
/// father's bit wherever `mask` has a zero.
pub open spec fn blend(mother: u8, father: u8, mask: u8) -> u8 {
    (mother & mask) | (father & !mask)
}

/// Every bit of `child` is the bit that `mother` or `father` has at that place.
pub open spec fn inherits(child: u8, mother: u8, father: u8) -> bool {
    forall|index: u8|
        index < 8 ==> #[trigger] bit_at(child, index) == bit_at(mother, index) || bit_at(
            child,
            index,
        ) == bit_at(father, index)
}

/// `offspring` is what the masks make of the two parents, byte by byte.
pub open spec fn is_recombination<const CS: usize, const GS: usize>(
    offspring: ChromosomeBytes<CS, GS>,
    mother: ChromosomeBytes<CS, GS>,
    father: ChromosomeBytes<CS, GS>,
    masks: ChromosomeBytes<CS, GS>,
) -> bool {
    forall|gene: int, byte: int|
        0 <= gene < CS && 0 <= byte < GS ==> #[trigger] offspring[gene][byte] == blend(
            mother[gene][byte],
            father[gene][byte],
            masks[gene][byte],
        )
}

/// What a source hands out for the masks of one gene: a byte for each mask.
pub open spec fn gene_mask_draws(masks: Seq<u8>) -> Drawn {
    masks.map_values(|mask: u8| Draw::Byte(mask))
}

/// What a source hands out for the masks of a chromosome: a byte for each
/// mask, gene by gene and, within a gene, byte by byte.
pub open spec fn mask_draws(masks: Seq<Seq<u8>>) -> Drawn
    decreases masks.len(),
{
    if masks.len() == 0 {
        Seq::empty()
    } else {
        mask_draws(masks.drop_last()) + gene_mask_draws(masks.last())
    }
}

/// A blended byte takes each bit from the mother where the mask has a one
/// and from the father where it has a zero.
pub proof fn law_blend_bit(mother: u8, father: u8, mask: u8, index: u8)
    requires
        index < 8,
    ensures
        bit_at(blend(mother, father, mask), index) == if bit_at(mask, index) {
            bit_at(mother, index)
        } else {
            bit_at(father, index)
        },
{
    assert((((mother & mask) | (father & !mask)) & (0x80u8 >> index) != 0) == if mask & (0x80u8
        >> index) != 0 {
        mother & (0x80u8 >> index) != 0
    } else {
        father & (0x80u8 >> index) != 0
    }) by (bit_vector)
        requires
            index < 8,
    ;
}

/// No mask brings a bit into the offspring that neither parent has at
/// that place.
pub proof fn law_blend_inherits(mother: u8, father: u8, mask: u8)
    ensures
        inherits(blend(mother, father, mask), mother, father),
{
    assert forall|index: u8| index < 8 implies #[trigger] bit_at(
        blend(mother, father, mask),
        index,
    ) == bit_at(mother, index) || bit_at(blend(mother, father, mask), index) == bit_at(
        father,
        index,
    ) by {
        law_blend_bit(mother, father, mask, index);
    }
}

/// The masks can be read back from what the source handed out for them:
/// rows of one width with the same draws are the same rows.
pub proof fn law_masks_from_draws(left: Seq<Seq<u8>>, right: Seq<Seq<u8>>, width: nat)
    requires
        left.len() == right.len(),
        forall|gene: int| 0 <= gene < left.len() ==> (#[trigger] left[gene]).len() == width,
        forall|gene: int| 0 <= gene < right.len() ==> (#[trigger] right[gene]).len() == width,
        mask_draws(left) == mask_draws(right),
    ensures
        left == right,
    decreases left.len(),
{
    if left.len() == 0 {
        assert(left =~= right);
    } else {
        let left_head = mask_draws(left.drop_last());
        let left_tail = gene_mask_draws(left.last());
        let right_head = mask_draws(right.drop_last());
        let right_tail = gene_mask_draws(right.last());
        let whole = mask_draws(left);
        assert(whole == left_head + left_tail && whole == right_head + right_tail);
        assert(left_tail.len() == width && right_tail.len() == width);
        assert(left_head =~= whole.subrange(0, left_head.len() as int));
        assert(right_head =~= whole.subrange(0, right_head.len() as int));
        assert(left_head.len() == whole.len() - width && right_head.len() == whole.len() - width);
        assert(left_head == right_head);
        law_masks_from_draws(left.drop_last(), right.drop_last(), width);
        assert forall|byte: int| 0 <= byte < width implies left.last()[byte] == right.last()[byte] by {
            assert(left_tail[byte] == whole[left_head.len() + byte]);
            assert(right_tail[byte] == whole[right_head.len() + byte]);
            assert(left_tail[byte] == Draw::Byte(left.last()[byte]));
            assert(right_tail[byte] == Draw::Byte(right.last()[byte]));
        }
        assert(left.last() =~= right.last());
        assert(left =~= left.drop_last().push(left.last()));
        assert(right =~= right.drop_last().push(right.last()));
    }
}

/// The offspring is a function of its parents and of what the source
/// handed out: two crossovers of the same parents for which the same
/// masks were drawn give the same offspring.
pub proof fn law_crossover_is_determined<const CS: usize, const GS: usize>(
    mother: ChromosomeBytes<CS, GS>,
    father: ChromosomeBytes<CS, GS>,
    first: ChromosomeBytes<CS, GS>,
    first_masks: ChromosomeBytes<CS, GS>,
    second: ChromosomeBytes<CS, GS>,
    second_masks: ChromosomeBytes<CS, GS>,
)
    requires
        is_recombination(first, mother, father, first_masks),
        is_recombination(second, mother, father, second_masks),
        mask_draws(byte_rows(first_masks)) == mask_draws(byte_rows(second_masks)),
    ensures
        first == second,
{
    law_masks_from_draws(byte_rows(first_masks), byte_rows(second_masks), GS as nat);
    assert forall|gene: int| 0 <= gene < CS implies first[gene] == second[gene] by {
        assert(byte_rows(first_masks)[gene] == first_masks[gene]@);
        assert(byte_rows(second_masks)[gene] == second_masks[gene]@);
        assert forall|byte: int| 0 <= byte < GS implies first[gene][byte] == second[gene][byte] by {
            assert(first_masks[gene]@[byte] == second_masks[gene]@[byte]);
        }
        assert(first[gene] =~= second[gene]);
    }
    assert(first =~= second);
}

/// Blends one byte of each parent. The two masked halves share no set bit,
/// so their sum carries nowhere and is their bitwise or.
pub fn crossover_byte(mother: u8, father: u8, mask: u8) -> (child: u8)
    ensures
        child == blend(mother, father, mask),
        inherits(child, mother, father),
{
    proof {
        assert((mother & mask) + (father & !mask) == ((mother & mask) | (father & !mask)))
            by (bit_vector);
        law_blend_inherits(mother, father, mask);
    }
    (mother & mask) + (father & !mask)
}

/// Blends two chromosomes with the masks given, one mask for each byte.
pub fn recombine<const CS: usize, const GS: usize>(
    mother: ChromosomeBytes<CS, GS>,
    father: ChromosomeBytes<CS, GS>,
    masks: ChromosomeBytes<CS, GS>,
) -> (offspring: ChromosomeBytes<CS, GS>)
    ensures
        is_recombination(offspring, mother, father, masks),
{
    let mut offspring: ChromosomeBytes<CS, GS> = mother;
    let mut gene: usize = 0;
    while gene < CS
        invariant
            gene <= CS,
            forall|g: int, b: int|
                0 <= g < gene && 0 <= b < GS ==> #[trigger] offspring[g][b] == blend(
                    mother[g][b],
                    father[g][b],
                    masks[g][b],
                ),
        decreases CS - gene,
    {
        let mut byte: usize = 0;
        while byte < GS
            invariant
                gene < CS,
                byte <= GS,
                forall|g: int, b: int|
                    0 <= g < gene && 0 <= b < GS ==> #[trigger] offspring[g][b] == blend(
                        mother[g][b],
                        father[g][b],
                        masks[g][b],
                    ),
                forall|b: int|
                    0 <= b < byte ==> #[trigger] offspring[gene as int][b] == blend(
                        mother[gene as int][b],
                        father[gene as int][b],
                        masks[gene as int][b],
                    ),
            decreases GS - byte,
        {
            offspring[gene][byte] = crossover_byte(
                mother[gene][byte],
                father[gene][byte],
                masks[gene][byte],
            );
            byte += 1;
        }
        gene += 1;
    }
    offspring
}

/// Draws one mask for each byte of a chromosome, gene by gene and, within a
/// gene, byte by byte, and asks nothing else of the source.
fn draw_masks<const CS: usize, const GS: usize, R: RandomSource>(rng: &mut R) -> (masks:
    ChromosomeBytes<CS, GS>)
    ensures
        final(rng).drawn() == old(rng).drawn() + mask_draws(byte_rows(masks)),
{
    let mut masks: ChromosomeBytes<CS, GS> = [[0u8; GS]; CS];
    let ghost mut rows: Seq<Seq<u8>> = Seq::empty();
    let mut gene: usize = 0;
    while gene < CS
        invariant
            gene <= CS,
            rows.len() == gene,
            forall|g: int| 0 <= g < gene ==> #[trigger] rows[g] == masks[g]@,
            rng.drawn() == old(rng).drawn() + mask_draws(rows),
        decreases CS - gene,
    {
        let ghost mut row: Seq<u8> = Seq::empty();
        let mut byte: usize = 0;
        while byte < GS
            invariant
                gene < CS,
                byte <= GS,
                rows.len() == gene,
                forall|g: int| 0 <= g < gene ==> #[trigger] rows[g] == masks[g]@,
                row.len() == byte,
                forall|b: int| 0 <= b < byte ==> #[trigger] row[b] == masks[gene as int][b],
                rng.drawn() == old(rng).drawn() + mask_draws(rows) + gene_mask_draws(row),
            decreases GS - byte,
        {
            let mask: u8 = rng.byte();
            masks[gene][byte] = mask;
            proof {
                assert(gene_mask_draws(row.push(mask)) =~= gene_mask_draws(row).push(
                    Draw::Byte(mask),
                ));
                assert(old(rng).drawn() + mask_draws(rows) + gene_mask_draws(row.push(mask))
                    =~= (old(rng).drawn() + mask_draws(rows) + gene_mask_draws(row)).push(
                    Draw::Byte(mask),
                ));
                row = row.push(mask);
            }
            byte += 1;
        }
        proof {
            assert(row =~= masks[gene as int]@);
            assert(rows.push(row).drop_last() =~= rows);
            assert(old(rng).drawn() + mask_draws(rows) + gene_mask_draws(row) =~= old(rng).drawn()
                + mask_draws(rows.push(row)));
            rows = rows.push(row);
        }
        gene += 1;
    }
    assert(rows =~= byte_rows(masks));
    masks
}

impl<const CS: usize, const GS: usize> Crossover<CS, GS> for UniformCrossover {
    /// Draws one mask byte for each byte of the chromosome, gene by gene,
    /// and blends the parents with them; nothing else is asked of the
    /// source. Whatever the source hands out, the offspring has the shape
    /// of its parents and no bit that neither parent has at that place.
    fn crossover<R>(
        &self,
        mother_chromosome: ChromosomeBytes<CS, GS>,
        father_chromosome: ChromosomeBytes<CS, GS>,
        rng: &mut R,
    ) -> (offspring: ChromosomeBytes<CS, GS>) where R: RandomSource
        ensures
            offspring@.len() == CS,
            forall|gene: int| 0 <= gene < CS ==> (#[trigger] offspring[gene])@.len() == GS,
            exists|masks: ChromosomeBytes<CS, GS>|
                {
                    &&& #[trigger] is_recombination(
                        offspring,
                        mother_chromosome,
                        father_chromosome,
                        masks,
                    )
                    &&& final(rng).drawn() == old(rng).drawn() + mask_draws(byte_rows(masks))
                },
            forall|gene: int, byte: int|
                0 <= gene < CS && 0 <= byte < GS ==> inherits(
                    #[trigger] offspring[gene][byte],
                    mother_chromosome[gene][byte],
                    father_chromosome[gene][byte],
                ),
    {
        let masks: ChromosomeBytes<CS, GS> = draw_masks(rng);
        let offspring = recombine(mother_chromosome, father_chromosome, masks);
        proof {
            assert forall|gene: int, byte: int| 0 <= gene < CS && 0 <= byte < GS implies inherits(
                #[trigger] offspring[gene][byte],
                mother_chromosome[gene][byte],
                father_chromosome[gene][byte],
            ) by {
                law_blend_inherits(
                    mother_chromosome[gene][byte],
                    father_chromosome[gene][byte],
                    masks[gene][byte],
                );
            }
        }
        offspring
    }
}

} // verus!
