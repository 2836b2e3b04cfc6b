//! Selection: a new population picked from an old one by tournaments.

use crate::chromosome::Chromosome;
use crate::fitness::Fitness;
use crate::fraction::Fraction;
use crate::random::{is_index_sample, Draw, Drawn, RandomSource};
use vstd::prelude::*;

verus! {

/// How many individuals compete in one tournament.
#[derive(Debug, Clone, Copy)]
pub enum TournamentSize {
    /// This many, or the whole population where it is smaller.
    Fixed(usize),
    /// The whole population.
    Max,
}

/// How many individuals a selection picks.
#[derive(Debug, Clone, Copy)]
pub enum SelectionCount {
    /// This share of the population it starts from, rounded up.
    Ratio(Fraction),
    /// This many.
    Fixed(usize),
}

/// Why a selection was refused.
#[derive(Debug, Clone, Copy, PartialEq, Eq)]
pub enum SelectionError {
    /// The probability is 0: the rank of a winner would never be settled.
    InvalidProbability,
    /// Tournaments are to have no competitors, so none can have a winner.
    EmptyTournament,
    /// The population cannot supply as many individuals as were asked for.
    InsufficientPopulation,
}

/// Tournament selection.
///
/// Each tournament draws its competitors at random, ranks them by fitness
/// with the fittest first, and draws the rank of the winner from a
/// geometric distribution with the success probability `probability`, so
/// the fittest wins most often. With `remove_winners`, a winner leaves the
/// population and cannot win again; without, a copy of it is taken.
#[derive(Debug, Clone, Copy)]
pub struct TournamentSelection {
    pub tournament_size: TournamentSize,
    pub probability: Fraction,
    pub remove_winners: bool,
    pub selection_count: SelectionCount,
}

/// A strategy that picks a new population from an old one.
pub trait Selection<const CS: usize, const GS: usize> {
    /// The individuals picked from `population`, or why none were.
    fn select<T, R>(&self, population: Vec<T>, rng: &mut R) -> (outcome: Result<
        Vec<T>,
        SelectionError,
    >) where T: Chromosome<CS, GS> + Fitness + Clone, R: RandomSource;
}

impl TournamentSize {
    /// The number of competitors in a tournament held in a population of
    /// `population` individuals.
    pub open spec fn spec_competitors(&self, population: nat) -> nat {
        match self {
            TournamentSize::Fixed(size) => if *size as nat <= population {
                *size as nat
            } else {
                population
            },
            TournamentSize::Max => population,
        }
    }

    /// The number of competitors in a tournament held in a population of
    /// `population` individuals.
    pub fn competitors(&self, population: usize) -> (count: usize)
        ensures
            count == self.spec_competitors(population as nat),
    {
        match self {
            TournamentSize::Fixed(size) => if *size <= population {
                *size
            } else {
                population
            },
            TournamentSize::Max => population,
        }
    }
}

impl SelectionCount {
    /// The number of individuals to pick from a population of `population`.
    pub open spec fn spec_target(&self, population: nat) -> nat {
        match self {
            SelectionCount::Ratio(share) => share.spec_ceil_of(population),
            SelectionCount::Fixed(size) => *size as nat,
        }
    }

    /// The number of individuals to pick from a population of `population`.
    pub fn target(&self, population: usize) -> (count: usize)
        ensures
            count == self.spec_target(population as nat),
    {
        match self {
            SelectionCount::Ratio(share) => share.ceil_of(population),
            SelectionCount::Fixed(size) => *size,
        }
    }
}

/// `order` lists the positions of `scores` with the highest score first;
/// positions of equal score stay in their order.
pub open spec fn is_ranking(order: Seq<usize>, scores: Seq<i64>) -> bool {
    &&& order.len() == scores.len()
    &&& forall|i: int| 0 <= i < order.len() ==> #[trigger] order[i] < scores.len()
    &&& forall|i: int, j: int| 0 <= i < j < order.len() ==> order[i] != order[j]
    &&& forall|i: int, j: int|
        0 <= i < j < order.len() ==> scores[order[i] as int] >= scores[order[j] as int]
    &&& forall|i: int, j: int|
        0 <= i < j < order.len() && scores[order[i] as int] == scores[order[j] as int]
            ==> order[i] < order[j]
}

/// The rank that wins among `competitors` ranked individuals when `rank`
/// was drawn: the rank drawn, or the last one where the draw goes beyond it.
pub open spec fn winning_rank(rank: u64, competitors: nat) -> int {
    if rank < competitors {
        rank as int
    } else {
        competitors - 1
    }
}

/// Ranks the positions of `scores`, the highest score first.
pub fn rank_by_score(scores: &Vec<i64>) -> (order: Vec<usize>)
    ensures
        is_ranking(order@, scores@),
{
    let mut order: Vec<usize> = Vec::new();
    let mut next: usize = 0;
    while next < scores.len()
        invariant
            next <= scores.len(),
            order.len() == next,
            forall|i: int| 0 <= i < order.len() ==> #[trigger] order[i] < next,
            forall|i: int, j: int| 0 <= i < j < order.len() ==> order[i] != order[j],
            forall|i: int, j: int|
                0 <= i < j < order.len() ==> scores[order[i] as int] >= scores[order[j] as int],
            forall|i: int, j: int|
                0 <= i < j < order.len() && scores[order[i] as int] == scores[order[j] as int]
                    ==> order[i] < order[j],
        decreases scores.len() - next,
    {
        let score: i64 = scores[next];
        let mut place: usize = 0;
        while place < order.len() && scores[order[place]] >= score
            invariant
                place <= order.len(),
                order.len() == next,
                next < scores.len(),
                score == scores[next as int],
                forall|i: int| 0 <= i < order.len() ==> #[trigger] order[i] < next,
                forall|i: int| 0 <= i < place ==> scores[#[trigger] order[i] as int] >= score,
            decreases order.len() - place,
        {
            place += 1;
        }
        let ghost before = order@;
        order.insert(place, next);
        proof {
            let after = order@;
            assert(after.len() == before.len() + 1);
            assert forall|i: int| 0 <= i < after.len() implies #[trigger] after[i] == (if i
                < place {
                before[i]
            } else if i == place {
                next
            } else {
                before[i - 1]
            }) by {}
        }
        next += 1;
    }
    order
}

/// The competitor that wins when `rank` was drawn: the one at that rank,
/// or the last one where the draw goes beyond it. `None` where nobody
/// competes.
pub fn pick_winner(competitors: &Vec<usize>, rank: u64) -> (winner: Option<usize>)
    ensures
        winner is None <==> competitors.len() == 0,
        winner matches Some(index) ==> index == competitors[winning_rank(
            rank,
            competitors.len() as nat,
        )],
{
    if competitors.len() == 0 {
        None
    } else if rank < competitors.len() as u64 {
        Some(competitors[rank as usize])
    } else {
        Some(competitors[competitors.len() - 1])
    }
}

/// In a ranking, a lower rank never has the lower score: the first rank
/// holds a highest score of all, so a winning rank that is drawn low
/// favours the fit.
pub proof fn law_rank_favours_fitness(order: Seq<usize>, scores: Seq<i64>, low: u64, high: u64)
    requires
        is_ranking(order, scores),
        order.len() > 0,
        low <= high,
    ensures
        scores[order[winning_rank(low, order.len())] as int] >= scores[order[winning_rank(
            high,
            order.len(),
        )] as int],
        forall|position: int|
            0 <= position < scores.len() ==> scores[order[winning_rank(0, order.len())] as int]
                >= #[trigger] scores[position],
{
    let first = order[0];
    assert forall|position: int| 0 <= position < scores.len() implies scores[first as int]
        >= #[trigger] scores[position] by {
        lemma_ranking_covers(order, scores, position);
        let rank = choose|rank: int| 0 <= rank < order.len() && order[rank] == position;
        if rank > 0 {
            assert(scores[order[0] as int] >= scores[order[rank] as int]);
        }
    }
    let a = winning_rank(low, order.len());
    let b = winning_rank(high, order.len());
    if a < b {
        assert(scores[order[a] as int] >= scores[order[b] as int]);
    }
}

/// A ranking lists every position.
pub proof fn lemma_ranking_covers(order: Seq<usize>, scores: Seq<i64>, position: int)
    requires
        is_ranking(order, scores),
        0 <= position < scores.len(),
    ensures
        exists|rank: int| 0 <= rank < order.len() && order[rank] == position,
{
    let listed = order.map_values(|index: usize| index as int);
    assert(listed.no_duplicates()) by {
        assert forall|i: int, j: int| 0 <= i < listed.len() && 0 <= j < listed.len() && i
            != j implies listed[i] != listed[j] by {
            if i < j {
                assert(order[i] != order[j]);
            } else {
                assert(order[j] != order[i]);
            }
        }
    }
    let places = Set::new(|p: int| 0 <= p < scores.len());
    assert(places =~= vstd::set_lib::set_int_range(0, scores.len() as int));
    vstd::set_lib::lemma_int_range(0, scores.len() as int);
    listed.unique_seq_to_set();
    assert(listed.to_set().subset_of(places)) by {
        assert forall|p: int| listed.to_set().contains(p) implies places.contains(p) by {
            let i = choose|i: int| 0 <= i < listed.len() && listed[i] == p;
            assert(order[i] < scores.len());
        }
    }
    vstd::set_lib::lemma_subset_equality(listed.to_set(), places);
    assert(listed.to_set().contains(position));
    let rank = choose|rank: int| 0 <= rank < listed.len() && listed[rank] == position;
    assert(order[rank] == position);
}

/// `competitors` are in the order of the scores that their individuals
/// reported, the highest first.
pub open spec fn ranked_by_fitness<T: Fitness>(competitors: Seq<usize>, population: Seq<T>) -> bool {
    exists|scores: Seq<i64>|
        {
            &&& scores.len() == competitors.len()
            &&& forall|rank: int|
                0 <= rank < competitors.len() ==> call_ensures(
                    T::fitness,
                    (&population[competitors[rank] as int],),
                    #[trigger] scores[rank],
                )
            &&& forall|better: int, worse: int|
                0 <= better < worse < scores.len() ==> scores[better] >= scores[worse]
        }
}

/// `competitors` are the positions of `sample`, ranked by the scores that
/// their individuals reported: the highest score first, and equal scores
/// in the order of the sample.
pub open spec fn ranks_sample<T: Fitness>(
    competitors: Seq<usize>,
    sample: Seq<usize>,
    population: Seq<T>,
) -> bool {
    exists|scores: Seq<i64>, order: Seq<usize>|
        {
            &&& scores.len() == sample.len()
            &&& forall|k: int|
                0 <= k < sample.len() ==> call_ensures(
                    T::fitness,
                    (&population[sample[k] as int],),
                    #[trigger] scores[k],
                )
            &&& #[trigger] is_ranking(order, scores)
            &&& competitors.len() == sample.len()
            &&& forall|k: int|
                0 <= k < sample.len() ==> #[trigger] competitors[k] == sample[order[k] as int]
        }
}

/// Each of `winners` is one individual of `population`, and no individual
/// is there twice.
pub open spec fn drawn_without_replacement<T>(winners: Seq<T>, population: Seq<T>) -> bool {
    exists|origin: Seq<int>|
        {
            &&& origin.len() == winners.len()
            &&& forall|i: int|
                0 <= i < origin.len() ==> 0 <= #[trigger] origin[i] < population.len()
                    && winners[i] == population[origin[i]]
            &&& forall|i: int, j: int| 0 <= i < j < origin.len() ==> origin[i] != origin[j]
        }
}

/// The draws of several rounds, one round after the other.
pub open spec fn joined(rounds: Seq<Drawn>) -> Drawn
    decreases rounds.len(),
{
    if rounds.len() == 0 {
        Seq::empty()
    } else {
        joined(rounds.drop_last()) + rounds.last()
    }
}

impl TournamentSelection {
    /// A tournament selection with the settings given.
    pub fn new(
        tournament_size: TournamentSize,
        probability: Fraction,
        remove_winners: bool,
        selection_count: SelectionCount,
    ) -> (selection: TournamentSelection)
        ensures
            selection.tournament_size == tournament_size,
            selection.probability == probability,
            selection.remove_winners == remove_winners,
            selection.selection_count == selection_count,
    {
        Self { tournament_size, probability, remove_winners, selection_count }
    }

    /// Why a selection from `population` individuals is refused, if it is.
    ///
    /// A probability of 0 is refused whatever else is asked. A selection
    /// of no individuals needs no tournament and is never refused for the
    /// lack of one. Otherwise a tournament needs a competitor, and the
    /// population has to supply what is asked for: at least one
    /// individual, and as many as are to be picked where winners leave.
    pub open spec fn refusal(&self, population: nat) -> Option<SelectionError> {
        let target = self.selection_count.spec_target(population);
        if self.probability.is_zero() {
            Some(SelectionError::InvalidProbability)
        } else if target == 0 {
            None
        } else if self.tournament_size == TournamentSize::Fixed(0) {
            Some(SelectionError::EmptyTournament)
        } else if population == 0 || (self.remove_winners && target > population) {
            Some(SelectionError::InsufficientPopulation)
        } else {
            None
        }
    }

    /// What a source hands out for the sample of a tournament in a
    /// population of `population` individuals.
    pub open spec fn sample_draw(population: usize, sample: Seq<usize>) -> Draw {
        Draw::Indices { length: population, amount: sample.len() as usize, indices: sample }
    }

    /// Draws the competitors of one tournament from `population` and
    /// ranks them, the fittest first. The source is asked for one sample
    /// of positions and for nothing else.
    pub fn choose_competitors<T, R>(&self, population: &Vec<T>, rng: &mut R) -> (competitors: Vec<
        usize,
    >) where T: Fitness, R: RandomSource
        ensures
            is_index_sample(
                competitors@,
                population.len() as nat,
                self.tournament_size.spec_competitors(population.len() as nat),
            ),
            ranked_by_fitness(competitors@, population@),
            exists|sample: Seq<usize>|
                {
                    &&& is_index_sample(
                        sample,
                        population.len() as nat,
                        self.tournament_size.spec_competitors(population.len() as nat),
                    )
                    &&& #[trigger] ranks_sample(competitors@, sample, population@)
                    &&& final(rng).drawn() == old(rng).drawn().push(
                        Self::sample_draw(population.len(), sample),
                    )
                },
    {
        let tournament_size: usize = self.tournament_size.competitors(population.len());
        let sample: Vec<usize> = rng.distinct_indices(population.len(), tournament_size);
        let mut scores: Vec<i64> = Vec::new();
        let mut read: usize = 0;
        while read < sample.len()
            invariant
                read <= sample.len(),
                scores.len() == read,
                is_index_sample(sample@, population.len() as nat, tournament_size as nat),
                forall|k: int|
                    0 <= k < read ==> call_ensures(
                        T::fitness,
                        (&population[sample[k] as int],),
                        #[trigger] scores[k],
                    ),
            decreases sample.len() - read,
        {
            let index: usize = sample[read];
            let score: i64 = population[index].fitness();
            scores.push(score);
            read += 1;
        }
        let order: Vec<usize> = rank_by_score(&scores);
        let mut competitors: Vec<usize> = Vec::new();
        let mut rank: usize = 0;
        while rank < order.len()
            invariant
                rank <= order.len(),
                competitors.len() == rank,
                is_ranking(order@, scores@),
                scores.len() == sample.len(),
                forall|k: int|
                    0 <= k < rank ==> #[trigger] competitors[k] == sample[order[k] as int],
            decreases order.len() - rank,
        {
            competitors.push(sample[order[rank]]);
            rank += 1;
        }
        proof {
            assert forall|i: int| 0 <= i < competitors.len() implies #[trigger] competitors[i]
                < population.len() by {
                assert(sample[order[i] as int] < population.len());
            }
            assert forall|i: int, j: int| 0 <= i < j < competitors.len() implies competitors[i]
                != competitors[j] by {
                let a = order[i] as int;
                let b = order[j] as int;
                assert(a != b);
                if a < b {
                    assert(sample[a] != sample[b]);
                } else {
                    assert(sample[b] != sample[a]);
                }
            }
            let ranked = Seq::new(competitors.len() as nat, |k: int| scores[order[k] as int]);
            assert forall|k: int| 0 <= k < competitors.len() implies call_ensures(
                T::fitness,
                (&population[competitors[k] as int],),
                #[trigger] ranked[k],
            ) by {
                assert(competitors[k] == sample[order[k] as int]);
            }
            assert forall|better: int, worse: int|
                0 <= better < worse < ranked.len() implies ranked[better] >= ranked[worse] by {
                assert(scores[order[better] as int] >= scores[order[worse] as int]);
            }
            assert(ranked.len() == competitors.len());
            assert(is_ranking(order@, scores@));
            assert(ranks_sample(competitors@, sample@, population@));
        }
        competitors
    }

    /// What a source hands out for one tournament in a population of
    /// `population` individuals: the sample, and then the rank of the
    /// winner as the failures before a success of probability
    /// `probability`.
    pub open spec fn tournament_draws(&self, population: usize, sample: Seq<usize>, rank: u64) -> Drawn {
        seq![
            Self::sample_draw(population, sample),
            Draw::Geometric { success: self.probability, failures: rank },
        ]
    }

    /// A tournament held in `population` for which the source handed out
    /// `draws` is won by `winner`: the competitors are the sample that was
    /// drawn, ranked by fitness, and the winner holds the rank that was
    /// drawn, or the last one where the draw goes beyond it. Where the
    /// probability is 1 that rank is the first, so the winner is a fittest
    /// competitor.
    pub open spec fn tournament_held<T: Fitness>(
        &self,
        population: Seq<T>,
        winner: usize,
        draws: Drawn,
    ) -> bool {
        exists|sample: Seq<usize>, competitors: Seq<usize>, rank: u64|
            #![trigger ranks_sample(competitors, sample, population), self.tournament_draws(population.len() as usize, sample, rank)]
            {
                &&& is_index_sample(
                    sample,
                    population.len(),
                    self.tournament_size.spec_competitors(population.len()),
                )
                &&& ranks_sample(competitors, sample, population)
                &&& is_index_sample(
                    competitors,
                    population.len(),
                    self.tournament_size.spec_competitors(population.len()),
                )
                &&& ranked_by_fitness(competitors, population)
                &&& competitors.len() > 0
                &&& winner == competitors[winning_rank(rank, competitors.len())]
                &&& self.probability.is_one() ==> rank == 0
                &&& draws == self.tournament_draws(population.len() as usize, sample, rank)
            }
    }

    /// In the round `round` the winner `winners[round]` won a tournament in
    /// the pool `pools[round]`, for which the source handed out
    /// `rounds[round]`, and left `pools[round + 1]` behind: its place is
    /// taken by the last individual of the pool.
    pub open spec fn round_held<T: Fitness>(
        &self,
        pools: Seq<Seq<T>>,
        winners: Seq<T>,
        rounds: Seq<Drawn>,
        round: int,
    ) -> bool {
        exists|index: usize|
            {
                &&& index < pools[round].len()
                &&& #[trigger] self.tournament_held(pools[round], index, rounds[round])
                &&& winners[round] == pools[round][index as int]
                &&& pools[round + 1] == pools[round].update(
                    index as int,
                    pools[round].last(),
                ).drop_last()
            }
    }

    /// The `winners` won one tournament each, in turn: the first in
    /// `population`, each later one in what the winners before it left.
    /// For the tournament of each the source handed out one of `rounds`.
    pub open spec fn won_in_turn<T: Fitness>(
        &self,
        winners: Seq<T>,
        population: Seq<T>,
        rounds: Seq<Drawn>,
    ) -> bool {
        exists|pools: Seq<Seq<T>>|
            {
                &&& pools.len() == winners.len() + 1
                &&& rounds.len() == winners.len()
                &&& pools[0] == population
                &&& forall|round: int|
                    0 <= round < winners.len() ==> #[trigger] self.round_held(
                        pools,
                        winners,
                        rounds,
                        round,
                    )
            }
    }

    /// `copy` is a copy of the winner of a tournament held in `population`,
    /// for which the source handed out `draws`.
    pub open spec fn copy_of_winner<T: Fitness + Clone>(
        &self,
        population: Seq<T>,
        copy: T,
        draws: Drawn,
    ) -> bool {
        exists|index: usize|
            {
                &&& index < population.len()
                &&& #[trigger] self.tournament_held(population, index, draws)
                &&& cloned(population[index as int], copy)
            }
    }

    /// Each of `winners` is a copy of the winner of a tournament held in
    /// `population`. For the tournament of each the source handed out one
    /// of `rounds`.
    pub open spec fn copies_of_winners<T: Fitness + Clone>(
        &self,
        winners: Seq<T>,
        population: Seq<T>,
        rounds: Seq<Drawn>,
    ) -> bool {
        &&& rounds.len() == winners.len()
        &&& forall|round: int|
            0 <= round < winners.len() ==> self.copy_of_winner(
                population,
                #[trigger] winners[round],
                rounds[round],
            )
    }

    /// Holds one tournament in `population` and gives the position of its
    /// winner: competitors are drawn and ranked, a rank is drawn from the
    /// geometric distribution, and the competitor at that rank wins, or the
    /// last one where the rank goes beyond it.
    ///
    /// There is no winner where the probability is 0, and then nothing is
    /// drawn, or where nobody competes, and then only the empty sample is.
    pub fn hold_tournament<T, R>(&self, population: &Vec<T>, rng: &mut R) -> (winner: Option<
        usize,
    >) where T: Fitness, R: RandomSource
        ensures
            winner is Some <==> !self.probability.is_zero() && self.tournament_size.spec_competitors(
                population.len() as nat,
            ) > 0,
            winner matches Some(index) ==> index < population.len() && exists|draws: Drawn|
                {
                    &&& #[trigger] self.tournament_held(population@, index, draws)
                    &&& final(rng).drawn() == old(rng).drawn() + draws
                },
            self.probability.is_zero() ==> final(rng).drawn() == old(rng).drawn(),
            winner is None && !self.probability.is_zero() ==> final(rng).drawn() == old(
                rng,
            ).drawn().push(Self::sample_draw(population.len(), Seq::empty())),
    {
        if self.probability.is_zero() {
            return None;
        }
        let ghost asked = rng.drawn();
        let competitors: Vec<usize> = self.choose_competitors(population, rng);
        let ghost sample = choose|sample: Seq<usize>|
            {
                &&& is_index_sample(
                    sample,
                    population.len() as nat,
                    self.tournament_size.spec_competitors(population.len() as nat),
                )
                &&& #[trigger] ranks_sample(competitors@, sample, population@)
                &&& rng.drawn() == asked.push(Self::sample_draw(population.len(), sample))
            };
        if competitors.len() == 0 {
            assert(sample =~= Seq::empty());
            return None;
        }
        let rank: u64 = rng.geometric(self.probability);
        let winner: Option<usize> = pick_winner(&competitors, rank);
        proof {
            let draws = self.tournament_draws(population@.len() as usize, sample, rank);
            assert(rng.drawn() =~= asked + draws);
            assert(ranks_sample(competitors@, sample, population@));
            assert(winner->Some_0 == competitors@[winning_rank(rank, competitors@.len())]);
            assert(self.tournament_held(population@, winner->Some_0, draws));
        }
        winner
    }
}

impl<const CS: usize, const GS: usize> Selection<CS, GS> for TournamentSelection {
    /// Holds tournaments until as many winners are picked as
    /// `selection_count` asks for, counted against the population that the
    /// selection starts from.
    ///
    /// The selection is refused exactly where [`TournamentSelection::refusal`] says
    /// so, and then nothing is drawn. Otherwise the winners are as many as
    /// were asked for, and the source is asked for the draws of one
    /// tournament after the other and for nothing else. With
    /// `remove_winners` each winner is an individual of its own, the
    /// winner of a tournament in what the winners before it left; without
    /// it each is a copy of the winner of a tournament in the population.
    fn select<T, R>(&self, population: Vec<T>, rng: &mut R) -> (outcome: Result<
        Vec<T>,
        SelectionError,
    >) where T: Chromosome<CS, GS> + Fitness + Clone, R: RandomSource
        ensures
            match outcome {
                Ok(winners) => {
                    &&& self.refusal(population.len() as nat) is None
                    &&& winners.len() == self.selection_count.spec_target(population.len() as nat)
                    &&& self.remove_winners ==> drawn_without_replacement(winners@, population@)
                    &&& exists|rounds: Seq<Drawn>|
                        {
                            &&& final(rng).drawn() == old(rng).drawn() + #[trigger] joined(rounds)
                            &&& self.remove_winners ==> self.won_in_turn(
                                winners@,
                                population@,
                                rounds,
                            )
                            &&& !self.remove_winners ==> self.copies_of_winners(
                                winners@,
                                population@,
                                rounds,
                            )
                        }
                },
                Err(error) => {
                    &&& self.refusal(population.len() as nat) == Some(error)
                    &&& final(rng).drawn() == old(rng).drawn()
                },
            },
    {
        let initial: usize = population.len();
        let target: usize = self.selection_count.target(initial);
        if self.probability.is_zero() {
            return Err(SelectionError::InvalidProbability);
        }
        let mut winners: Vec<T> = Vec::new();
        let ghost asked = rng.drawn();
        let ghost mut rounds: Seq<Drawn> = Seq::empty();
        let ghost mut pools: Seq<Seq<T>> = seq![population@];
        if target == 0 {
            proof {
                assert(drawn_without_replacement(winners@, population@)) by {
                    let origin = Seq::<int>::empty();
                    assert(origin.len() == winners@.len());
                }
                assert(self.won_in_turn(winners@, population@, rounds)) by {
                    assert(pools.len() == winners@.len() + 1 && pools[0] == population@);
                }
                assert(rng.drawn() =~= asked + joined(rounds));
            }
            return Ok(winners);
        }
        if let TournamentSize::Fixed(0) = self.tournament_size {
            return Err(SelectionError::EmptyTournament);
        }
        if initial == 0 || (self.remove_winners && target > initial) {
            return Err(SelectionError::InsufficientPopulation);
        }
        let ghost everyone: Seq<T> = population@;
        let ghost mut places: Seq<int> = Seq::new(initial as nat, |k: int| k);
        let ghost mut origin: Seq<int> = Seq::empty();
        let mut pool: Vec<T> = population;
        while winners.len() < target
            invariant
                winners.len() <= target,
                everyone.len() == initial,
                self.probability.numerator() > 0,
                self.tournament_size != TournamentSize::Fixed(0),
                pool.len() > 0 || winners.len() == target,
                rounds.len() == winners.len(),
                rng.drawn() == asked + joined(rounds),
                self.remove_winners ==> target <= initial,
                self.remove_winners ==> pool.len() + winners.len() == initial,
                self.remove_winners ==> places.len() == pool.len(),
                self.remove_winners ==> origin.len() == winners.len(),
                self.remove_winners ==> pools.len() == winners.len() + 1,
                self.remove_winners ==> pools[0] == everyone,
                self.remove_winners ==> pools.last() == pool@,
                self.remove_winners ==> forall|round: int|
                    0 <= round < winners.len() ==> #[trigger] self.round_held(
                        pools,
                        winners@,
                        rounds,
                        round,
                    ),
                self.remove_winners ==> forall|k: int|
                    0 <= k < places.len() ==> 0 <= #[trigger] places[k] < initial && pool[k]
                        == everyone[places[k]],
                self.remove_winners ==> forall|i: int|
                    0 <= i < origin.len() ==> 0 <= #[trigger] origin[i] < initial && winners[i]
                        == everyone[origin[i]],
                self.remove_winners ==> forall|i: int, j: int|
                    0 <= i < j < places.len() ==> places[i] != places[j],
                self.remove_winners ==> forall|i: int, j: int|
                    0 <= i < j < origin.len() ==> origin[i] != origin[j],
                self.remove_winners ==> forall|i: int, k: int|
                    0 <= i < origin.len() && 0 <= k < places.len() ==> origin[i] != places[k],
                !self.remove_winners ==> pool@ == everyone,
                !self.remove_winners ==> self.copies_of_winners(winners@, everyone, rounds),
            decreases target - winners.len(),
        {
            let ghost before = rng.drawn();
            let ghost contestants = pool@;
            let winner: usize = self.hold_tournament(&pool, rng).unwrap();
            let ghost draws = choose|draws: Drawn|
                {
                    &&& #[trigger] self.tournament_held(contestants, winner, draws)
                    &&& rng.drawn() == before + draws
                };
            let ghost past = winners@;
            let ghost told = rounds;
            proof {
                rounds = told.push(draws);
                assert(rounds.drop_last() =~= told);
                assert(rng.drawn() =~= asked + joined(rounds));
            }
            if self.remove_winners {
                let ghost last: int = pool.len() - 1;
                let ghost earlier = places;
                let champion: T = pool.swap_remove(winner);
                winners.push(champion);
                proof {
                    origin = origin.push(earlier[winner as int]);
                    places = earlier.update(winner as int, earlier[last]).drop_last();
                    let held = pools;
                    pools = held.push(pool@);
                    assert forall|round: int| 0 <= round < winners.len() implies #[trigger] self.round_held(
                        pools,
                        winners@,
                        rounds,
                        round,
                    ) by {
                        if round == winners.len() - 1 {
                            assert(pools[round] == held.last());
                            assert(self.tournament_held(pools[round], winner, rounds[round]));
                        } else {
                            assert(self.round_held(held, past, told, round));
                            let index = choose|index: usize|
                                {
                                    &&& index < held[round].len()
                                    &&& #[trigger] self.tournament_held(
                                        held[round],
                                        index,
                                        told[round],
                                    )
                                    &&& past[round] == held[round][index as int]
                                    &&& held[round + 1] == held[round].update(
                                        index as int,
                                        held[round].last(),
                                    ).drop_last()
                                };
                            assert(pools[round] == held[round]);
                            assert(pools[round + 1] == held[round + 1]);
                            assert(winners@[round] == past[round]);
                            assert(rounds[round] == told[round]);
                            assert(self.tournament_held(pools[round], index, rounds[round]));
                        }
                    }
                }
            } else {
                let copy: T = pool[winner].clone();
                winners.push(copy);
                proof {
                    assert forall|round: int| 0 <= round < winners.len() implies self.copy_of_winner(
                        everyone,
                        #[trigger] winners@[round],
                        rounds[round],
                    ) by {
                        if round == winners.len() - 1 {
                            assert(cloned(everyone[winner as int], winners@[round]));
                            assert(self.tournament_held(everyone, winner, rounds[round]));
                        } else {
                            assert(self.copy_of_winner(everyone, past[round], told[round]));
                            assert(winners@[round] == past[round]);
                            assert(rounds[round] == told[round]);
                        }
                    }
                }
            }
        }
        proof {
            if self.remove_winners {
                assert(drawn_without_replacement(winners@, everyone)) by {
                    assert(origin.len() == winners@.len());
                }
                assert(self.won_in_turn(winners@, everyone, rounds)) by {
                    assert(pools.len() == winners@.len() + 1 && pools[0] == everyone);
                }
            }
        }
        Ok(winners)
    }
}

} // verus!
