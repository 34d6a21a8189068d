use cg_clif::bits::{addend_from_uint, read_target_uint, sign_extend, Endian};
use cg_clif::constant::padded_bytes;
use cg_clif::ident::{AllocId, DefId};
use cg_clif::memory::FILLER;
use cg_clif::symbol::alloc_symbol_name;
use cg_clif::value_and_place::{GlobalId, Instance};

#[test]
fn sign_extend_eight_bit_minus_one() {
    let extended = sign_extend(0xff, 1);
    assert_eq!(extended, u128::MAX);
    assert_eq!(extended as u8, 0xff);
}

#[test]
fn sign_extend_thirty_two_bit_minus_one() {
    let extended = sign_extend(0xffff_ffff, 4);
    assert_eq!(extended, u128::MAX);
    assert_eq!(extended as u32, 0xffff_ffff);
}

#[test]
fn sign_extend_negative_is_twos_complement() {
    // -5 as a 16-bit pattern is 2^16 - 5.
    let extended = sign_extend(0x1_0000 - 5, 2);
    assert_eq!(extended as i128, -5);
    assert_eq!(extended as u16, 0xfffb);
    assert_eq!(sign_extend(0x80, 1) as i128, -128);
    assert_eq!(sign_extend(0x8000_0000_0000_0000, 8) as i128, i64::MIN as i128);
}

#[test]
fn sign_extend_keeps_positive_values() {
    assert_eq!(sign_extend(0x7f, 1), 0x7f);
    assert_eq!(sign_extend(1, 4), 1);
    assert_eq!(sign_extend(0, 8), 0);
    assert_eq!(sign_extend(0x7fff_ffff, 4), 0x7fff_ffff);
}

#[test]
fn sign_extend_reads_the_low_bytes_only() {
    assert_eq!(sign_extend(0x1234_56ff, 1), u128::MAX);
    assert_eq!(sign_extend(0xabcd_007f, 2), 0x7f);
}

#[test]
fn sign_extend_of_no_bytes_is_zero() {
    assert_eq!(sign_extend(0xdead_beef, 0), 0);
}

#[test]
fn sign_extend_of_sixteen_bytes_is_the_value() {
    assert_eq!(sign_extend(u128::MAX, 16), u128::MAX);
    assert_eq!(sign_extend(0x1234, 16), 0x1234);
}

#[test]
fn read_target_uint_little_endian() {
    assert_eq!(read_target_uint(Endian::Little, &[0x78, 0x56, 0x34, 0x12]), 0x1234_5678);
    assert_eq!(read_target_uint(Endian::Little, &[0x2a, 0, 0, 0, 0, 0, 0, 0]), 42);
    assert_eq!(read_target_uint(Endian::Little, &[0xff]), 0xff);
}

#[test]
fn read_target_uint_big_endian() {
    assert_eq!(read_target_uint(Endian::Big, &[0x12, 0x34, 0x56, 0x78]), 0x1234_5678);
    assert_eq!(read_target_uint(Endian::Big, &[0, 0, 0, 0, 0, 0, 0, 0x2a]), 42);
}

#[test]
fn read_target_uint_of_nothing_is_zero() {
    assert_eq!(read_target_uint(Endian::Little, &[]), 0);
    assert_eq!(read_target_uint(Endian::Big, &[]), 0);
}

#[test]
fn read_target_uint_of_sixteen_bytes() {
    let bytes = [0xffu8; 16];
    assert_eq!(read_target_uint(Endian::Little, &bytes), u128::MAX);
    assert_eq!(read_target_uint(Endian::Big, &bytes), u128::MAX);
    let mut one = [0u8; 16];
    one[15] = 1;
    assert_eq!(read_target_uint(Endian::Little, &one), 1u128 << 120);
    assert_eq!(read_target_uint(Endian::Big, &one), 1);
}

#[test]
fn addend_from_uint_small_values() {
    assert_eq!(addend_from_uint(0), 0);
    assert_eq!(addend_from_uint(27), 27);
    assert_eq!(addend_from_uint(0x7fff_ffff_ffff_ffff), i64::MAX);
}

#[test]
fn addend_from_uint_wraps_at_sixty_four_bits() {
    assert_eq!(addend_from_uint(0xffff_ffff_ffff_ffff), -1);
    assert_eq!(addend_from_uint(0x8000_0000_0000_0000), i64::MIN);
    assert_eq!(addend_from_uint(0x1_0000_0000_0000_0005), 5);
}

#[test]
fn padded_bytes_pads_to_sixteen() {
    assert_eq!(padded_bytes(&vec![]), Vec::<u8>::new());
    let one = padded_bytes(&vec![7]);
    assert_eq!(one.len(), 16);
    assert_eq!(one[0], 7);
    assert!(one[1..].iter().all(|b| *b == 0xde));
    let fifteen = padded_bytes(&vec![1; 15]);
    assert_eq!(fifteen.len(), 16);
    assert_eq!(fifteen[15], FILLER);
    let sixteen = padded_bytes(&vec![2; 16]);
    assert_eq!(sixteen, vec![2; 16]);
    let seventeen = padded_bytes(&vec![3; 17]);
    assert_eq!(seventeen.len(), 32);
    assert_eq!(&seventeen[..17], &[3u8; 17][..]);
    assert!(seventeen[17..].iter().all(|b| *b == 0xde));
}

#[test]
fn padded_bytes_length_is_a_multiple_of_sixteen() {
    for len in 0..100usize {
        let padded = padded_bytes(&vec![0xab; len]);
        assert_eq!(padded.len() % 16, 0);
        assert!(padded.len() >= len && padded.len() < len + 16);
        assert!(padded[..len].iter().all(|b| *b == 0xab));
    }
}

#[test]
fn alloc_symbol_name_is_prefix_and_decimal() {
    assert_eq!(alloc_symbol_name(AllocId(0)), "__alloc_0");
    assert_eq!(alloc_symbol_name(AllocId(7)), "__alloc_7");
    assert_eq!(alloc_symbol_name(AllocId(42)), "__alloc_42");
    assert_eq!(alloc_symbol_name(AllocId(1000)), "__alloc_1000");
    assert_eq!(alloc_symbol_name(AllocId(u64::MAX)), "__alloc_18446744073709551615");
}

#[test]
fn alloc_symbol_names_differ() {
    let mut names = Vec::new();
    for id in 0..200u64 {
        let name = alloc_symbol_name(AllocId(id));
        assert!(!names.contains(&name));
        names.push(name);
    }
}

#[test]
fn def_id_key_holds_crate_and_index() {
    assert_eq!(DefId { krate: 0, index: 0 }.key(), 0);
    assert_eq!(DefId { krate: 0, index: 5 }.key(), 5);
    assert_eq!(DefId { krate: 1, index: 0 }.key(), 0x1_0000_0000);
    assert_eq!(DefId { krate: 3, index: 9 }.key(), 0x3_0000_0009);
    assert_eq!(DefId { krate: u32::MAX, index: u32::MAX }.key(), u64::MAX);
}

#[test]
fn global_id_key_holds_instance_and_index() {
    assert_eq!(GlobalId { instance: Instance(0), promoted: 0 }.key(), 0);
    assert_eq!(GlobalId { instance: Instance(2), promoted: 3 }.key(), 0x2_0000_0003);
    assert_eq!(
        GlobalId { instance: Instance(u64::MAX), promoted: u32::MAX }.key(),
        0xffff_ffff_ffff_ffff_ffff_ffff
    );
}
