use mcu_emulator::bit_array::{change_bits_true, get_bit, set_bit, BitArray};

#[test]
fn get_bit_test() {
    let n = 0b01101001u8;

    assert_eq!(get_bit(n, 7), false);
    assert_eq!(get_bit(n, 5), true);
    assert_eq!(get_bit(n, 1), false);
    assert_eq!(get_bit(n, 0), true);
}

#[test]
fn set_bit_test() {
    let n = 0b01101001u8;

    assert_eq!(set_bit(n, 7, true), 0b11101001);
    assert_eq!(set_bit(n, 7, false), 0b01101001);

    assert_eq!(set_bit(n, 5, false), 0b01001001);
    assert_eq!(set_bit(n, 5, true), 0b01101001);

    assert_eq!(set_bit(n, 0, false), 0b01101000);
    assert_eq!(set_bit(n, 0, true), 0b01101001);
}

#[test]
fn change_bits_true_test() {
    let a = [0b11101000u8, 0b11001101u8];

    let a2 = change_bits_true::<16, 18, 2, 3>(a);
    assert_eq!(a2, [0b11101000u8, 0b11001101u8, 0u8]);

    let a3 = change_bits_true::<16, 10, 2, 2>(a);
    assert_eq!(a3, [0b11101000u8, 0b00000001u8]);

    let a4 = change_bits_true::<16, 5, 2, 1>(a);
    assert_eq!(a4, [0b00001000u8]);

    let a5 = change_bits_true::<13, 13, 2, 2>(a);
    assert_eq!(a5, [0b11101000u8, 0b00001101u8]);
}

#[test]
fn change_bits_true_drops_bits_beyond_the_source_width() {
    let a = [0b11101000u8, 0b11001101u8];

    let extended = change_bits_true::<13, 16, 2, 2>(a);
    assert_eq!(extended, [0b11101000u8, 0b00001101u8]);
}

#[test]
fn from_to_array_test() {
    let a = BitArray::<13>::from_array([0b11101000u8, 0b11001101u8]);

    assert_eq!(a.to_array(), [0b11101000u8, 0b00001101u8]);
}

#[test]
fn get_test() {
    let a = BitArray::<13>::from_array([0b11101000u8, 0b00001101u8]);

    assert_eq!(a.get(0), false);
    assert_eq!(a.get(1), false);
    assert_eq!(a.get(2), false);
    assert_eq!(a.get(3), true);
    assert_eq!(a.get(4), false);
    assert_eq!(a.get(5), true);
    assert_eq!(a.get(6), true);
    assert_eq!(a.get(7), true);
    assert_eq!(a.get(8), true);
    assert_eq!(a.get(9), false);
    assert_eq!(a.get(10), true);
    assert_eq!(a.get(11), true);
    assert_eq!(a.get(12), false);
}

#[test]
fn set_test() {
    let mut a = BitArray::<13>::from_array([0b11101000u8, 0b00001101u8]);

    a.set(0, false);
    assert_eq!(a, BitArray::<13>::from_array([0b11101000u8, 0b00001101u8]));

    a.set(0, true);
    assert_eq!(a, BitArray::<13>::from_array([0b11101001u8, 0b00001101u8]));

    a.set(11, true);
    assert_eq!(a, BitArray::<13>::from_array([0b11101001u8, 0b00001101u8]));

    a.set(11, false);
    assert_eq!(a, BitArray::<13>::from_array([0b11101001u8, 0b00000101u8]));
}

#[test]
fn change_bits_test() {
    let a = BitArray::<13>::from_array([0b11101000u8, 0b00001101u8]);

    let a2 = a.change_bits::<16>();
    assert_eq!(a2, BitArray::<16>::from_array([0b11101000u8, 0b00001101u8]));

    let a3 = a.change_bits::<10>();
    assert_eq!(a3, BitArray::<10>::from_array([0b11101000u8, 0b00000001u8]));

    let a4 = a.change_bits::<5>();
    assert_eq!(a4, BitArray::<5>::from_array([0b00001000u8]));

    let a5 = a.change_bits::<13>();
    assert_eq!(a5, BitArray::<13>::from_array([0b11101000u8, 0b00001101u8]));
}

#[test]
fn change_bits_extends_with_zero_bits() {
    let a = BitArray::<4>::ones();

    let wide = a.change_bits::<8>();
    assert_eq!(wide.to_array(), [0b00001111u8]);
}

#[test]
fn bit_array_equality() {
    let a = BitArray::<13>::from_array([0b11101000u8, 0b00001101u8]);
    let b = BitArray::<13>::from_array([0b11101000u8, 0b00001101u8]);
    let c = BitArray::<13>::from_array([0b11101010u8, 0b00001100u8]);
    let d = BitArray::<13>::from_array([0b11101000u8, 0b00000100u8]);

    assert_eq!(a, b);
    assert_eq!(b, a);

    assert_ne!(a, c);
    assert_ne!(c, a);

    assert_ne!(a, d);
    assert_ne!(d, a);
}

#[test]
fn equality_ignores_bits_from_position_n_on() {
    let a = BitArray::<13>::from_array([0b11101000u8, 0b11101101u8]);
    let b = BitArray::<13>::from_array([0b11101000u8, 0b00001101u8]);

    assert_eq!(a, b);
}

#[test]
fn iterator() {
    let a = BitArray::<12>::from_array([0b00101110u8, 0b00001000u8]);

    let mut forward: Vec<bool> = Vec::new();
    let mut it = a.iter();
    while let Some(bit) = it.next() {
        forward.push(bit);
    }
    assert_eq!(forward, vec![false, true, true, true, false, true, false, false, false, false, false, true]);

    let mut backward: Vec<bool> = Vec::new();
    let mut it = a.iter();
    while let Some(bit) = it.next_back() {
        backward.push(bit);
    }
    assert_eq!(backward, vec![true, false, false, false, false, false, true, false, true, true, true, false]);

    let mut in_the_middle = a.iter();

    assert_eq!(in_the_middle.next(), Some(false));
    assert_eq!(in_the_middle.next(), Some(true));
    assert_eq!(in_the_middle.next(), Some(true));
    assert_eq!(in_the_middle.next(), Some(true));
    assert_eq!(in_the_middle.next(), Some(false));

    assert_eq!(in_the_middle.next_back(), Some(true));
    assert_eq!(in_the_middle.next_back(), Some(false));
    assert_eq!(in_the_middle.next_back(), Some(false));
    assert_eq!(in_the_middle.next_back(), Some(false));
    assert_eq!(in_the_middle.next_back(), Some(false));
    assert_eq!(in_the_middle.next_back(), Some(false));
    assert_eq!(in_the_middle.next_back(), Some(true));

    assert_eq!(in_the_middle.next(), None);
    assert_eq!(in_the_middle.next_back(), None);
}

#[test]
fn iterator_size_hint() {
    let a = BitArray::<5>::from_array([0b00001101u8]);

    let mut iter = a.iter();
    assert_eq!(iter.size_hint(), (5, Some(5)));

    iter.next();
    iter.next();

    assert_eq!(iter.size_hint(), (3, Some(3)));

    iter.next_back();
    iter.next_back();

    assert_eq!(iter.size_hint(), (1, Some(1)));

    iter.next();

    assert_eq!(iter.size_hint(), (0, Some(0)));
}

#[test]
fn iterator_over_no_bits_is_empty() {
    let a = BitArray::<0>::zeroes();

    let mut iter = a.iter();
    assert_eq!(iter.size_hint(), (0, Some(0)));
    assert_eq!(iter.next(), None);
    assert_eq!(iter.next_back(), None);
}

#[test]
fn map() {
    let a = BitArray::<5>::from_array([0b00001101u8]);

    let b = a.map(|b| !b);

    assert_eq!(b, BitArray::<5>::from_array([0b11110010u8]));
}

#[test]
fn zeroes_and_ones() {
    assert_eq!(BitArray::<10>::zeroes().to_array(), [0u8, 0u8]);
    assert_eq!(BitArray::<10>::ones().to_array(), [0b11111111u8, 0b00000011u8]);
    assert_eq!(BitArray::<10>::ones().len(), 10);
}
