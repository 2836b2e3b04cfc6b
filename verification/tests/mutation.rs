use rand::rngs::StdRng;
use rand::SeedableRng;
use relict::fraction::Fraction;
use relict::mutation::{flip_bit, InversionMutation, Mutate, MutationError};
use relict::random::{RandSource, ScriptedSource};

#[test]
fn flip_bit_counts_from_the_most_significant_bit() {
    assert_eq!(flip_bit(0b0000_0000, 0), 0b1000_0000);
    assert_eq!(flip_bit(0b0000_0000, 7), 0b0000_0001);
    assert_eq!(flip_bit(0b1111_1111, 3), 0b1110_1111);
    assert_eq!(flip_bit(0b1010_0101, 5), 0b1010_0001);
}

#[test]
fn flip_bit_twice_cancels() {
    for byte in 0..=u8::MAX {
        for index in 0..8 {
            let once = flip_bit(byte, index);
            assert_eq!((once ^ byte).count_ones(), 1);
            assert_eq!(flip_bit(once, index), byte);
        }
    }
}

#[test]
fn new_keeps_the_rate() {
    let mutation = InversionMutation::new(Fraction::new(1, 4).unwrap());
    assert_eq!(mutation.mutation_rate.numerator(), 1);
    assert_eq!(mutation.mutation_rate.denominator(), 4);
}

#[test]
fn zero_rate_changes_nothing() {
    let mutation = InversionMutation::new(Fraction::zero());
    let untouched = [[0x12u8, 0x34, 0x56, 0x78], [0x9a, 0xbc, 0xde, 0xf0]];
    let mut rng = RandSource::new(StdRng::seed_from_u64(31));
    for _ in 0..100 {
        let mut chromosome = untouched;
        assert_eq!(mutation.mutate(&mut chromosome, &mut rng), Ok(()));
        assert_eq!(chromosome, untouched);
    }
    let mut scripted = ScriptedSource::new(vec![5, 3, 9]).unwrap();
    let mut chromosome = untouched;
    assert_eq!(mutation.mutate(&mut chromosome, &mut scripted), Ok(()));
    assert_eq!(chromosome, untouched);
}

#[test]
fn zero_rate_in_other_terms_changes_nothing() {
    let mutation = InversionMutation::new(Fraction::new(0, 1000).unwrap());
    let untouched = [[0xffu8], [0x00], [0x5a]];
    let mut rng = RandSource::new(StdRng::seed_from_u64(32));
    let mut chromosome = untouched;
    assert_eq!(mutation.mutate(&mut chromosome, &mut rng), Ok(()));
    assert_eq!(chromosome, untouched);
}

#[test]
fn rate_of_one_is_refused() {
    let untouched = [[0x12u8, 0x34], [0x56, 0x78]];
    for rate in [Fraction::one(), Fraction::new(5, 5).unwrap()] {
        let mutation = InversionMutation::new(rate);
        let mut chromosome = untouched;
        let mut rng = RandSource::new(StdRng::seed_from_u64(33));
        assert_eq!(
            mutation.mutate(&mut chromosome, &mut rng),
            Err(MutationError::InvalidRate)
        );
        assert_eq!(chromosome, untouched);
        let mut scripted = ScriptedSource::new(vec![1, 2, 3]).unwrap();
        assert_eq!(
            mutation.mutate(&mut chromosome, &mut scripted),
            Err(MutationError::InvalidRate)
        );
        assert_eq!(chromosome, untouched);
        assert_eq!(scripted.next(), 1);
    }
}

#[test]
fn mutation_follows_the_script() {
    let mutation = InversionMutation::new(Fraction::new(1, 2).unwrap());
    // first byte: two flips, at places 0 and 7; second byte: none;
    // third byte: three flips, at places 1, 1 and 4; fourth byte: none
    let mut rng = ScriptedSource::new(vec![2, 0, 7, 0, 3, 1, 9, 4, 0, 77]).unwrap();
    let mut chromosome = [[0x00u8, 0xff], [0x0f, 0xf0]];
    assert_eq!(mutation.mutate(&mut chromosome, &mut rng), Ok(()));
    assert_eq!(chromosome, [[0x81, 0xff], [0x07, 0xf0]]);
    assert_eq!(rng.next(), 77);
}

#[test]
fn mutation_keeps_the_shape_and_changes_bits() {
    let mutation = InversionMutation::new(Fraction::new(1, 2).unwrap());
    let mut rng = RandSource::new(StdRng::seed_from_u64(34));
    let untouched = [[0u8; 8]; 16];
    let mut changed = 0;
    for _ in 0..50 {
        let mut chromosome = untouched;
        assert_eq!(mutation.mutate(&mut chromosome, &mut rng), Ok(()));
        assert_eq!(chromosome.len(), 16);
        if chromosome != untouched {
            changed += 1;
        }
    }
    assert!(changed > 40);
}

#[test]
fn higher_rate_flips_more() {
    let mut rng = RandSource::new(StdRng::seed_from_u64(35));
    let mut flipped = Vec::new();
    for rate in [Fraction::new(1, 10).unwrap(), Fraction::new(9, 10).unwrap()] {
        let mutation = InversionMutation::new(rate);
        let mut bytes_changed = 0u32;
        for _ in 0..200 {
            let mut chromosome = [[0u8; 4]; 4];
            mutation.mutate(&mut chromosome, &mut rng).unwrap();
            bytes_changed += chromosome
                .iter()
                .flatten()
                .filter(|byte| **byte != 0)
                .count() as u32;
        }
        flipped.push(bytes_changed);
    }
    assert!(flipped[0] < flipped[1]);
}

#[test]
fn mutation_of_nothing_draws_nothing() {
    let mutation = InversionMutation::new(Fraction::new(1, 2).unwrap());
    let mut rng = ScriptedSource::new(vec![3, 4]).unwrap();
    let mut chromosome: [[u8; 4]; 0] = [];
    assert_eq!(mutation.mutate(&mut chromosome, &mut rng), Ok(()));
    assert_eq!(rng.next(), 3);
}
