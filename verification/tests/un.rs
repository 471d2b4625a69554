use mcu_emulator::bit_array::BitArray;
use mcu_emulator::un::U;

#[test]
fn un_from_primitive() {
    let a: U<128> = u128::MAX.into();
    assert_eq!(a.value(), BitArray::from_array([u8::MAX; 128 / 8]));

    let b: U<16> = u32::MAX.into();
    assert_eq!(b.value(), BitArray::from_array([u8::MAX, u8::MAX]));

    let c: U<12> = u16::MAX.into();
    assert_eq!(c.value(), BitArray::from_array([u8::MAX, 0b00001111]));

    let d: U<4> = 2u8.into();
    assert_eq!(d.value(), BitArray::from_array([2]));

    let e: U<9> = 10u8.into();
    assert_eq!(e.value(), BitArray::from_array([0b00001010, 0]));

    let f: U<31> = u64::MAX.into();
    assert_eq!(f.value(), BitArray::from_array([u8::MAX, u8::MAX, u8::MAX, 0b01111111]))
}

#[test]
fn un_to_primitive() {
    let a: U<128> = u128::MAX.into();
    assert_eq!(u128::from(a), u128::MAX)
}

#[test]
fn un_equality() {
    let a: U<4> = 1u8.into();
    let b: U<4> = 1u8.into();
    let c: U<4> = 2u8.into();

    assert_eq!(a, b);
    assert_ne!(a, c);
    assert_ne!(b, c);

    let d: U<128> = u128::MAX.into();
    let e: U<128> = u128::MAX.into();
    let f: U<128> = (u128::MAX - 10).into();

    assert_eq!(d, e);
    assert_ne!(d, f);
    assert_ne!(e, f);
}

#[test]
fn un_inequality() {
    let a: U<8> = 5u8.into();
    let b: U<8> = 200u8.into();

    assert!(a < b);
    assert!(b > a);

    let c: U<130> = u128::MAX.into();
    let d: U<130> = (u128::MAX - 10).into();

    assert!(c > d);
    assert!(d < c);

    let e: U<10> = 10u8.into();
    let f: U<10> = 10u8.into();

    assert!(!(e > f));
    assert!(!(e < f));
}

#[test]
fn un_add() {
    let a: U<4> = 8u8.into();
    let b: U<4> = 1u8.into();

    assert_eq!(a + b, 9u8.into());

    let c: U<128> = (9u128 * 10u128.pow(10)).into();
    let d: U<128> = (3u128 * 10u128.pow(10)).into();

    assert_eq!(c + d, (12u128 * 10u128.pow(10)).into());

    let f: U<4> = 0b1111u8.into();
    let g: U<4> = 0b1111u8.into();
    assert_eq!(f + g, 0b1110u8.into());

    let h: U<8> = u8::MAX.into();
    let i: U<8> = u8::MAX.into();
    assert_eq!(h + i, 0b11111110u8.into())
}

#[test]
fn un_sub() {
    let a: U<4> = 8u8.into();
    let b: U<4> = 1u8.into();

    assert_eq!(a - b, 7u8.into());

    let c: U<128> = (9u128 * 10u128.pow(10)).into();
    let d: U<128> = (3u128 * 10u128.pow(10)).into();

    assert_eq!(c - d, (6u128 * 10u128.pow(10)).into());

    let e: U<9> = 0b000000000u16.into();
    let f: U<9> = 0b000000001u16.into();

    assert_eq!(e - f, 0b111111111u16.into());

    let h: U<15> = 0b1100111_00100001u16.into();
    let i: U<15> = 0b1101111_00100010u16.into();

    assert_eq!(h - i, 0b1110111_11111111u16.into());

    let j: U<16> = 0b01100111_00100001u16.into();
    let k: U<16> = 0b01101111_00100010u16.into();

    assert_eq!(u16::from(j - k), 0b01100111_00100001u16.overflowing_sub(0b01101111_00100010u16).0)
}

#[test]
fn un_bit_and() {
    let a: U<4> = 0b1100u8.into();
    let b: U<4> = 0b0101u8.into();

    assert_eq!(a & b, 0b0100u8.into());

    let c: U<13> = 0b1_1000_1111_0111u16.into();
    let d: U<13> = 0b1_1010_0101_1100u16.into();

    assert_eq!(c & d, 0b1_1000_0101_0100u16.into())
}

#[test]
fn un_bit_or() {
    let a: U<4> = 0b1100u8.into();
    let b: U<4> = 0b0101u8.into();

    assert_eq!(a | b, 0b1101u8.into());

    let c: U<13> = 0b1_1000_1111_0111u16.into();
    let d: U<13> = 0b1_1010_0101_1100u16.into();

    assert_eq!(c | d, 0b1_1010_1111_1111u16.into())
}

#[test]
fn un_shr() {
    let a: U<8> = 0b01101001u8.into();
    assert_eq!(a >> 5usize, 0b00000011u8.into());

    let b: U<12> = 0b0110_11000111u16.into();
    assert_eq!(b >> 3usize, 0b0000_11011000u16.into());
    assert_eq!(b >> 9usize, 0b0000_00000011u16.into());
}

#[test]
fn un_shl() {
    let a: U<8> = 0b01101001u8.into();
    assert_eq!(a << 5usize, 0b00100000u8.into());

    let b: U<12> = 0b0110_11000111u16.into();
    assert_eq!(b << 3usize, 0b0110_00111000u16.into());
    assert_eq!(b << 9usize, 0b1110_00000000u16.into());
}

#[test]
fn addition_and_subtraction_wrap_modulo_two_to_the_width() {
    for a in 0..40u32 {
        for b in 0..40u32 {
            let x: U<5> = a.into();
            let y: U<5> = b.into();
            assert_eq!(u32::from(x + y), (a + b) % 32);
            assert_eq!(u32::from(x - y), (a + 64 - b) % 32);
            assert_eq!(x + y, U::<5>::from((a + b) % 32));
        }
    }
}

#[test]
fn a_value_is_below_two_to_its_width() {
    for a in [0u128, 1, 7, 8, 255, 256, u128::MAX] {
        let x: U<3> = a.into();
        assert!(u128::from(x) < 8);
        assert_eq!(u128::from(x), a % 8);
        assert!(x <= U::<3>::max());
        assert!(x >= U::<3>::min());
    }
    assert_eq!(u8::from(U::<3>::max()), 7);
    assert_eq!(u128::from(U::<128>::max()), u128::MAX);
    assert_eq!(u8::from(U::<12>::from(0xABCu16)), 0xBC);
    assert_eq!(u64::from(U::<130>::max()), u64::MAX);
}

#[test]
fn changing_the_width_truncates_or_extends_with_zero() {
    let x: U<8> = 0b1011_0110u8.into();
    assert_eq!(x.change_bits::<4>(), 0b0110u8.into());
    assert_eq!(u16::from(x.change_bits::<12>()), 0b1011_0110);
    assert_eq!(u8::from(U::<4>::max().change_bits::<8>()), 0x0F);
    assert_eq!(x.truncate(3), 0b110u8.into());
    assert_eq!(x.truncate(8), x);
    assert_eq!(x.clear_low(4), 0b1011_0000u8.into());
    assert_eq!(u128::from(x.low_bits(5)), 0b10110);
    assert_eq!(U::<8>::new(), 0u8.into());
    assert_eq!(U::<8>::with_value(BitArray::from_array([0b1011_0110u8])), x);
    assert_eq!(U::<8>::from_u128(0x3B6), x);
}

#[test]
fn complement_and_shifts_stay_within_the_width() {
    let x: U<5> = 0b10110u8.into();
    assert_eq!(std::ops::Not::not(x), 0b01001u8.into());
    assert_eq!(x << 0usize, x);
    assert_eq!(x << 5usize, 0u8.into());
    assert_eq!(x << 70usize, 0u8.into());
    assert_eq!(x >> 0usize, x);
    assert_eq!(x >> 5usize, 0u8.into());
    assert_eq!(x >> usize::MAX, 0u8.into());
    assert!(x.is_less(&0b10111u8.into()));
    assert!(!x.is_less(&x));
}

#[test]
fn compound_assignment_wraps_like_the_operators() {
    let mut x: U<4> = 14u8.into();
    x += 3u8.into();
    assert_eq!(x, 1u8.into());
    x -= 2u8.into();
    assert_eq!(x, 15u8.into());
}
