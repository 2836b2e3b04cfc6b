use relict::chromosome::Chromosome;
use relict::gene::Gene;

#[test]
fn u32_gene_bytes() {
    let gene = u32::from_str_radix("00000111010110111100110100010101", 2).unwrap();

    assert_eq!(
        gene.to_bytes(),
        [
            u8::from_str_radix("00000111", 2).unwrap(),
            u8::from_str_radix("01011011", 2).unwrap(),
            u8::from_str_radix("11001101", 2).unwrap(),
            u8::from_str_radix("00010101", 2).unwrap(),
        ]
    );
}

#[test]
fn unsigned_genes_are_big_endian() {
    assert_eq!(0xabu8.to_bytes(), [0xab]);
    assert_eq!(0x0102u16.to_bytes(), [0x01, 0x02]);
    assert_eq!(0x0102_0304u32.to_bytes(), [0x01, 0x02, 0x03, 0x04]);
    assert_eq!(
        0x0102_0304_0506_0708u64.to_bytes(),
        [0x01, 0x02, 0x03, 0x04, 0x05, 0x06, 0x07, 0x08]
    );
    assert_eq!(0x0102usize.to_bytes(), [0, 0, 0, 0, 0, 0, 0x01, 0x02]);
}

#[test]
fn signed_genes_are_twos_complement() {
    assert_eq!((-1i8).to_bytes(), [0xff]);
    assert_eq!((-2i16).to_bytes(), [0xff, 0xfe]);
    assert_eq!(i32::MIN.to_bytes(), [0x80, 0, 0, 0]);
    assert_eq!(i64::MAX.to_bytes(), [0x7f, 0xff, 0xff, 0xff, 0xff, 0xff, 0xff, 0xff]);
    assert_eq!(<i8 as Gene<1>>::from_bytes([0x80]), i8::MIN);
    assert_eq!(<i16 as Gene<2>>::from_bytes([0xff, 0xfe]), -2);
    assert_eq!(<i32 as Gene<4>>::from_bytes([0xff, 0xff, 0xff, 0xff]), -1);
    assert_eq!(<i64 as Gene<8>>::from_bytes([0x80, 0, 0, 0, 0, 0, 0, 0]), i64::MIN);
}

#[test]
fn genes_agree_with_the_standard_library() {
    for value in [0u32, 1, 255, 256, 0xdead_beef, u32::MAX] {
        assert_eq!(value.to_bytes(), value.to_be_bytes());
        assert_eq!(<u32 as Gene<4>>::from_bytes(value.to_be_bytes()), value);
    }
    for value in [i64::MIN, -1, 0, 1, 0x0123_4567_89ab_cdef, i64::MAX] {
        assert_eq!(value.to_bytes(), value.to_be_bytes());
        assert_eq!(<i64 as Gene<8>>::from_bytes(value.to_be_bytes()), value);
    }
    for value in [i16::MIN, -300, 0, 300, i16::MAX] {
        assert_eq!(value.to_bytes(), value.to_be_bytes());
    }
}

#[test]
fn every_byte_round_trips() {
    for value in 0..=u8::MAX {
        assert_eq!(<u8 as Gene<1>>::from_bytes(value.to_bytes()), value);
        let signed = value as i8;
        assert_eq!(<i8 as Gene<1>>::from_bytes(signed.to_bytes()), signed);
    }
}

#[test]
fn every_u16_round_trips() {
    for value in 0..=u16::MAX {
        assert_eq!(<u16 as Gene<2>>::from_bytes(value.to_bytes()), value);
        let signed = value as i16;
        assert_eq!(<i16 as Gene<2>>::from_bytes(signed.to_bytes()), signed);
        assert_eq!(<u16 as Gene<2>>::from_bytes([(value >> 8) as u8, value as u8]).to_bytes(), [
            (value >> 8) as u8,
            value as u8
        ]);
    }
}

#[test]
fn wide_genes_round_trip_at_the_edges() {
    for value in [0u64, 1, u32::MAX as u64, u32::MAX as u64 + 1, u64::MAX - 1, u64::MAX] {
        assert_eq!(<u64 as Gene<8>>::from_bytes(value.to_bytes()), value);
    }
    for value in [0usize, 1, usize::MAX / 2, usize::MAX] {
        assert_eq!(<usize as Gene<8>>::from_bytes(value.to_bytes()), value);
    }
    for value in [i32::MIN, -1, 0, 1, i32::MAX] {
        assert_eq!(<i32 as Gene<4>>::from_bytes(value.to_bytes()), value);
    }
}

#[test]
fn array_is_a_chromosome_gene_by_gene() {
    let individual: [u16; 3] = [0x0102, 0xfffe, 0];
    let genes = individual.to_genes();
    assert_eq!(genes, [[0x01, 0x02], [0xff, 0xfe], [0, 0]]);
    let rebuilt = <[u16; 3] as Chromosome<3, 2>>::from_genes(genes);
    assert_eq!(rebuilt, individual);
}

#[test]
fn array_from_genes_decodes_each_gene() {
    let rebuilt = <[i32; 2] as Chromosome<2, 4>>::from_genes([[0xff, 0xff, 0xff, 0xfe], [0, 0, 1, 0]]);
    assert_eq!(rebuilt, [-2, 256]);
    let empty = <[u8; 0] as Chromosome<0, 1>>::from_genes([]);
    assert_eq!(empty.to_genes().len(), 0);
}
