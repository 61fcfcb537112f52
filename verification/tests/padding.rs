use align_writer::padding::calc_padding;

#[test]
fn padding_of_aligned_address_is_zero() {
    assert_eq!(calc_padding(0, 16), 0);
    assert_eq!(calc_padding(16, 16), 0);
    assert_eq!(calc_padding(48, 16), 0);
    assert_eq!(calc_padding(12, 4), 0);
    assert_eq!(calc_padding(7, 1), 0);
}

#[test]
fn padding_fills_up_to_the_next_boundary() {
    assert_eq!(calc_padding(12, 16), 4);
    assert_eq!(calc_padding(14, 4), 2);
    assert_eq!(calc_padding(3, 4), 1);
    assert_eq!(calc_padding(5, 4), 3);
    assert_eq!(calc_padding(17, 16), 15);
    assert_eq!(calc_padding(1, 256), 255);
}

#[test]
fn padding_needs_no_power_of_two() {
    assert_eq!(calc_padding(10, 6), 2);
    assert_eq!(calc_padding(7, 3), 2);
    assert_eq!(calc_padding(13, 12), 11);
    assert_eq!(calc_padding(100, 7), 5);
}

#[test]
fn padded_address_is_aligned_and_padding_is_below_alignment() {
    let mut alignment: usize = 1;
    while alignment <= 40 {
        let mut address: usize = 0;
        while address <= 200 {
            let padding = calc_padding(address, alignment);
            assert!(padding < alignment);
            assert_eq!((address + padding) % alignment, 0);
            address += 1;
        }
        alignment += 1;
    }
}

#[test]
fn padding_near_the_top_of_the_address_range() {
    assert_eq!(calc_padding(usize::MAX, 1), 0);
    assert_eq!(calc_padding(usize::MAX, usize::MAX), 0);
    assert_eq!(calc_padding(usize::MAX - 1, usize::MAX), 1);
}
