use rand::rngs::StdRng;
use rand::SeedableRng;
use relict::crossover::{crossover_byte, recombine, Crossover, UniformCrossover};
use relict::fraction::Fraction;
use relict::gene::Gene;
use relict::random::{Drawn, RandSource, RandomSource, ScriptedSource};

struct MockRng {
    values: Vec<u64>,
    index: usize,
}

impl MockRng {
    pub fn new(values: Vec<u64>) -> Self {
        MockRng { values, index: 0 }
    }

    fn next_u64(&mut self) -> u64 {
        let result = self.values[self.index];
        self.index = (self.index + 1) % self.values.len();
        result
    }
}

impl RandomSource for MockRng {
    // the record is for proofs alone, and nothing that runs reads it
    fn drawn(&self) -> Drawn {
        unreachable!()
    }

    fn byte(&mut self) -> u8 {
        self.next_u64() as u8
    }

    fn below(&mut self, bound: u32) -> u32 {
        (self.next_u64() % bound as u64) as u32
    }

    fn distinct_indices(&mut self, _length: usize, amount: usize) -> Vec<usize> {
        (0..amount).collect()
    }

    fn geometric(&mut self, _success: Fraction) -> u64 {
        0
    }
}

#[test]
fn u32_uniform_crossover() {
    let mother_gene: u32 = 0b11101001010010110010110110010110;
    let father_gene: u32 = 0b00110101100101010101110010010101;
    let mut rng = MockRng::new(vec![
        0b00001111_u64, // First 4 bits from the father's gene and the last 4 from the mother's
        0b10101010_u64,
        0b00000000_u64,
        0b11111111_u64,
    ]);

    let strategy = UniformCrossover {};

    let offspring_gene = u32::from_bytes(
        strategy.crossover([mother_gene.to_bytes()], [father_gene.to_bytes()], &mut rng)[0],
    );

    assert_eq!(offspring_gene, 0b00111001000111110101110010010110_u32);
}

#[test]
fn u32_uniform_crossover_from_a_script() {
    let mother_gene: u32 = 0b11101001010010110010110110010110;
    let father_gene: u32 = 0b00110101100101010101110010010101;
    let mut rng =
        ScriptedSource::new(vec![0b00001111, 0b10101010, 0b00000000, 0b11111111]).unwrap();
    let offspring =
        UniformCrossover {}.crossover([mother_gene.to_bytes()], [father_gene.to_bytes()], &mut rng);
    assert_eq!(offspring, [[0b00111001, 0b00011111, 0b01011100, 0b10010110]]);
}

#[test]
fn crossover_byte_follows_the_mask() {
    assert_eq!(crossover_byte(0b1110_1001, 0b0011_0101, 0b0000_1111), 0b0011_1001);
    assert_eq!(crossover_byte(0xab, 0xcd, 0xff), 0xab);
    assert_eq!(crossover_byte(0xab, 0xcd, 0x00), 0xcd);
    assert_eq!(crossover_byte(0xff, 0xff, 0x5a), 0xff);
    assert_eq!(crossover_byte(0x00, 0x00, 0x5a), 0x00);
    assert_eq!(crossover_byte(0xff, 0x00, 0x5a), 0x5a);
    assert_eq!(crossover_byte(0x00, 0xff, 0x5a), 0xa5);
}

#[test]
fn crossover_byte_on_every_input() {
    for mother in 0..=u8::MAX {
        for father in [0x00u8, 0x0f, 0x35, 0x80, 0xff] {
            for mask in 0..=u8::MAX {
                let child = crossover_byte(mother, father, mask);
                assert_eq!(child, (mother & mask) | (father & !mask));
                assert_eq!((child ^ mother) & (child ^ father), 0);
            }
        }
    }
}

#[test]
fn recombine_blends_byte_by_byte() {
    let mother = [[0xffu8, 0xff], [0x12, 0x34], [0x00, 0xf0]];
    let father = [[0x00u8, 0x00], [0xab, 0xcd], [0xff, 0x0f]];
    let masks = [[0xf0u8, 0x01], [0xff, 0x00], [0x3c, 0xaa]];
    assert_eq!(
        recombine(mother, father, masks),
        [[0xf0, 0x01], [0x12, 0xcd], [0xc3, 0xa5]]
    );
}

#[test]
fn crossover_draws_one_mask_for_each_byte() {
    let mut rng = ScriptedSource::new(vec![0xff, 0x00, 0xff, 0x00, 0xff, 0x00, 0x77]).unwrap();
    let mother = [[1u8, 2], [3, 4], [5, 6]];
    let father = [[11u8, 12], [13, 14], [15, 16]];
    let offspring = UniformCrossover {}.crossover(mother, father, &mut rng);
    assert_eq!(offspring, [[1, 12], [3, 14], [5, 16]]);
    assert_eq!(rng.next(), 0x77);
}

#[test]
fn crossover_never_invents_a_bit() {
    let mut rng = RandSource::new(StdRng::seed_from_u64(21));
    let mut changed = false;
    for round in 0..200u32 {
        let mother = [(round * 7919).to_bytes(), (!round).to_bytes(), [0xff; 4]];
        let father = [(round * 104_729 + 5).to_bytes(), round.to_bytes(), [0x00; 4]];
        let offspring = UniformCrossover {}.crossover(mother, father, &mut rng);
        assert_eq!(offspring.len(), 3);
        for gene in 0..3 {
            assert_eq!(offspring[gene].len(), 4);
            for byte in 0..4 {
                let child = offspring[gene][byte];
                assert_eq!((child ^ mother[gene][byte]) & (child ^ father[gene][byte]), 0);
            }
        }
        if offspring != mother && offspring != father {
            changed = true;
        }
    }
    assert!(changed);
}

#[test]
fn crossover_of_equal_parents_is_the_parent() {
    let mut rng = RandSource::new(StdRng::seed_from_u64(22));
    let parent = [[0x12u8, 0x34, 0x56], [0x78, 0x9a, 0xbc]];
    assert_eq!(UniformCrossover {}.crossover(parent, parent, &mut rng), parent);
}

#[test]
fn crossover_of_nothing_is_nothing() {
    let mut rng = ScriptedSource::new(vec![9]).unwrap();
    let empty: [[u8; 4]; 0] = [];
    assert_eq!(UniformCrossover {}.crossover(empty, empty, &mut rng), empty);
    assert_eq!(rng.next(), 9);
}
