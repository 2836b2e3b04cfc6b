//! The chromosome codec: a fixed-size run of genes to and from its bytes.

use crate::gene::{gene_round_trips, law_integers_round_trip, Gene, GeneBytes};
use vstd::prelude::*;

verus! {

/// The bytes of a chromosome: `CS` genes of `GS` bytes each.
pub type ChromosomeBytes<const CS: usize, const GS: usize> = [GeneBytes<GS>; CS];

/// The bytes of a chromosome as rows: one row of `GS` bytes for each gene.
pub open spec fn byte_rows<const CS: usize, const GS: usize>(
    chromosome: ChromosomeBytes<CS, GS>,
) -> Seq<Seq<u8>> {
    Seq::new(CS as nat, |gene: int| chromosome[gene]@)
}

/// An individual that can be laid out as `CS` genes of `GS` bytes each, and
/// rebuilt from them.
pub trait Chromosome<const CS: usize, const GS: usize>: Sized {
    /// The genes of the individual, in order.
    fn to_genes(&self) -> (genes: ChromosomeBytes<CS, GS>);

    /// The individual that the genes describe.
    fn from_genes(genes: ChromosomeBytes<CS, GS>) -> (individual: Self);
}

/// `core::array::from_fn` of the standard library, which builds an array by
/// calling its argument once for each index and storing what it returns at
/// that index. Here the argument decodes the gene at the index, so each
/// element is a result of `T::from_bytes` on the gene of the same index.
#[verifier::external_body]
fn decode_each<T: Gene<GS>, const CS: usize, const GS: usize>(
    genes: &ChromosomeBytes<CS, GS>,
) -> (values: [T; CS])
    ensures
        forall|i: int|
            0 <= i < CS ==> call_ensures(T::from_bytes, (genes[i],), #[trigger] values[i]),
{
    core::array::from_fn(|i| T::from_bytes(genes[i]))
}

/// An array of genes is a chromosome: gene by gene, in order.
impl<T: Gene<GS>, const CS: usize, const GS: usize> Chromosome<CS, GS> for [T; CS] {
    fn to_genes(&self) -> (genes: ChromosomeBytes<CS, GS>)
        ensures
            forall|i: int|
                0 <= i < CS ==> call_ensures(T::to_bytes, (&self[i],), #[trigger] genes[i]),
    {
        let mut genes: ChromosomeBytes<CS, GS> = [[0u8; GS]; CS];
        let mut done: usize = 0;
        while done < CS
            invariant
                done <= CS,
                forall|i: int|
                    0 <= i < done ==> call_ensures(T::to_bytes, (&self[i],), #[trigger] genes[i]),
            decreases CS - done,
        {
            genes[done] = self[done].to_bytes();
            done += 1;
        }
        genes
    }

    fn from_genes(genes: ChromosomeBytes<CS, GS>) -> (individual: Self)
        ensures
            forall|i: int|
                0 <= i < CS ==> call_ensures(T::from_bytes, (genes[i],), #[trigger] individual[i]),
    {
        decode_each(&genes)
    }
}

/// For the chromosome type `C`, rebuilding only ever gives back the
/// individual whose genes were taken.
pub open spec fn chromosome_round_trips<C: Chromosome<CS, GS>, const CS: usize, const GS: usize>() -> bool {
    forall|individual: C, genes: ChromosomeBytes<CS, GS>, rebuilt: C|
        #![trigger call_ensures(C::to_genes, (&individual,), genes), call_ensures(C::from_genes, (genes,), rebuilt)]
        call_ensures(C::to_genes, (&individual,), genes) && call_ensures(
            C::from_genes,
            (genes,),
            rebuilt,
        ) ==> rebuilt == individual
}

/// Where the gene codec round-trips, so does the chromosome codec of an
/// array of genes: rebuilding an array from its genes gives the array back.
pub proof fn law_array_round_trip<T: Gene<GS>, const CS: usize, const GS: usize>()
    requires
        gene_round_trips::<T, GS>(),
    ensures
        chromosome_round_trips::<[T; CS], CS, GS>(),
{
    assert forall|individual: [T; CS], genes: ChromosomeBytes<CS, GS>, rebuilt: [T; CS]|
        call_ensures(<[T; CS] as Chromosome<CS, GS>>::to_genes, (&individual,), genes)
            && call_ensures(
            <[T; CS] as Chromosome<CS, GS>>::from_genes,
            (genes,),
            rebuilt,
        ) implies rebuilt == individual by {
        assert forall|i: int| 0 <= i < CS implies rebuilt[i] == individual[i] by {
            assert(call_ensures(T::to_bytes, (&individual[i],), genes[i]));
            assert(call_ensures(T::from_bytes, (genes[i],), rebuilt[i]));
        }
        assert(rebuilt =~= individual);
    }
}

/// An array of any length of any integer type of the gene module is
/// rebuilt from its genes exactly.
pub proof fn law_integer_arrays_round_trip<const CS: usize>()
    ensures
        chromosome_round_trips::<[u8; CS], CS, 1>(),
        chromosome_round_trips::<[u16; CS], CS, 2>(),
        chromosome_round_trips::<[u32; CS], CS, 4>(),
        chromosome_round_trips::<[u64; CS], CS, 8>(),
        chromosome_round_trips::<[usize; CS], CS, 8>(),
        chromosome_round_trips::<[i8; CS], CS, 1>(),
        chromosome_round_trips::<[i16; CS], CS, 2>(),
        chromosome_round_trips::<[i32; CS], CS, 4>(),
        chromosome_round_trips::<[i64; CS], CS, 8>(),
{
    law_integers_round_trip();
    law_array_round_trip::<u8, CS, 1>();
    law_array_round_trip::<u16, CS, 2>();
    law_array_round_trip::<u32, CS, 4>();
    law_array_round_trip::<u64, CS, 8>();
    law_array_round_trip::<usize, CS, 8>();
    law_array_round_trip::<i8, CS, 1>();
    law_array_round_trip::<i16, CS, 2>();
    law_array_round_trip::<i32, CS, 4>();
    law_array_round_trip::<i64, CS, 8>();
}

} // verus!
