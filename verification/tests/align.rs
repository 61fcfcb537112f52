use align_writer::align::Align;
use align_writer::fault::Fault;

fn element<const N: usize>(first: u8) -> [u8; N] {
    let mut bytes = [0u8; N];
    let mut j = 0;
    while j < N {
        bytes[j] = first.wrapping_add(j as u8);
        j += 1;
    }
    bytes
}

#[test]
fn stride_of_twelve_bytes_on_sixteen_is_sixteen() {
    let aligner = Align::<12>::new(vec![0u8; 48], 16).unwrap();
    assert_eq!(aligner.elem_size(), 16);
}

#[test]
fn three_elements_land_on_offsets_0_16_32() {
    let mut aligner = Align::<12>::new(vec![0xAAu8; 48], 16).unwrap();
    let values: [[u8; 12]; 3] = [element(1), element(101), element(201)];
    aligner.copy_from_slice(&values);
    let bytes = aligner.as_bytes();
    assert_eq!(bytes.len(), 48);
    assert_eq!(&bytes[0..12], &values[0][..]);
    assert_eq!(&bytes[12..16], &[0xAAu8; 4][..]);
    assert_eq!(&bytes[16..28], &values[1][..]);
    assert_eq!(&bytes[28..32], &[0xAAu8; 4][..]);
    assert_eq!(&bytes[32..44], &values[2][..]);
    assert_eq!(&bytes[44..48], &[0xAAu8; 4][..]);
}

#[test]
fn block_copy_equals_element_by_element() {
    let values: [[u8; 12]; 4] = [element(1), element(50), element(100), element(150)];

    let mut fast = Align::<12>::new(vec![0x55u8; 60], 4).unwrap();
    assert_eq!(fast.elem_size(), 12);
    fast.copy_from_slice(&values);

    let mut slow = Align::<12>::new(vec![0x55u8; 60], 4).unwrap();
    {
        let mut cursor = slow.iter_mut();
        for (i, value) in values.iter().enumerate() {
            assert_eq!(cursor.write_next(value), Some(i * 12));
        }
    }
    assert_eq!(fast.as_bytes(), slow.as_bytes());

    let mut expected: Vec<u8> = Vec::new();
    for value in values.iter() {
        expected.extend_from_slice(value);
    }
    expected.extend_from_slice(&[0x55u8; 12]);
    assert_eq!(fast.into_bytes(), expected);
}

#[test]
fn cursor_over_two_slots_yields_two_then_nothing() {
    let mut aligner = Align::<16>::new(vec![0u8; 32], 16).unwrap();
    assert_eq!(aligner.elem_size(), 16);
    let mut cursor = aligner.iter_mut();
    assert_eq!(cursor.next(), Some(0));
    assert_eq!(cursor.next(), Some(16));
    assert_eq!(cursor.next(), None);
    assert_eq!(cursor.next(), None);
}

#[test]
fn cursor_with_padded_stride_over_two_slots() {
    let mut aligner = Align::<12>::new(vec![7u8; 32], 16).unwrap();
    let mut cursor = aligner.iter_mut();
    assert_eq!(cursor.write_next(&element(1)), Some(0));
    assert_eq!(cursor.write_next(&element(2)), Some(16));
    assert_eq!(cursor.write_next(&element(3)), None);
    let bytes = aligner.into_bytes();
    assert_eq!(&bytes[0..12], &element::<12>(1)[..]);
    assert_eq!(&bytes[12..16], &[7u8; 4][..]);
    assert_eq!(&bytes[16..28], &element::<12>(2)[..]);
    assert_eq!(&bytes[28..32], &[7u8; 4][..]);
}

#[test]
fn new_cursor_starts_again_at_offset_zero() {
    let mut aligner = Align::<4>::new(vec![0u8; 16], 8).unwrap();
    {
        let mut cursor = aligner.iter_mut();
        assert_eq!(cursor.write_next(&[1, 1, 1, 1]), Some(0));
        assert_eq!(cursor.write_next(&[2, 2, 2, 2]), Some(8));
        assert_eq!(cursor.write_next(&[3, 3, 3, 3]), None);
    }
    let mut cursor = aligner.iter_mut();
    assert_eq!(cursor.write_next(&[9, 9, 9, 9]), Some(0));
    assert_eq!(
        aligner.as_bytes(),
        &[9u8, 9, 9, 9, 0, 0, 0, 0, 2, 2, 2, 2, 0, 0, 0, 0][..]
    );
}

#[test]
fn skipped_slot_keeps_its_bytes() {
    let mut aligner = Align::<2>::new(vec![0xEEu8; 12], 4).unwrap();
    let mut cursor = aligner.iter_mut();
    assert_eq!(cursor.next(), Some(0));
    assert_eq!(cursor.write_next(&[1, 2]), Some(4));
    assert_eq!(cursor.next(), Some(8));
    assert_eq!(cursor.next(), None);
    assert_eq!(
        aligner.as_bytes(),
        &[0xEEu8, 0xEE, 0xEE, 0xEE, 1, 2, 0xEE, 0xEE, 0xEE, 0xEE, 0xEE, 0xEE][..]
    );
}

#[test]
fn size_that_is_no_multiple_of_alignment_is_refused() {
    assert!(matches!(
        Align::<12>::new(vec![0u8; 50], 16),
        Err(Fault::Misconfiguration)
    ));
    assert!(matches!(
        Align::<4>::new(vec![0u8; 7], 3),
        Err(Fault::Misconfiguration)
    ));
    assert!(Align::<4>::new(vec![0u8; 9], 3).is_ok());
    assert!(Align::<4>::new(Vec::new(), 3).is_ok());
}

#[test]
fn stride_with_alignment_that_is_no_power_of_two() {
    let mut aligner = Align::<4>::new(vec![0u8; 18], 6).unwrap();
    assert_eq!(aligner.elem_size(), 6);
    aligner.copy_from_slice(&[[1, 2, 3, 4], [5, 6, 7, 8], [9, 10, 11, 12]]);
    assert_eq!(
        aligner.as_bytes(),
        &[1u8, 2, 3, 4, 0, 0, 5, 6, 7, 8, 0, 0, 9, 10, 11, 12, 0, 0][..]
    );
}

#[test]
fn stride_spans_several_alignments() {
    let aligner = Align::<20>::new(vec![0u8; 64], 8).unwrap();
    assert_eq!(aligner.elem_size(), 24);
    let aligner = Align::<16>::new(vec![0u8; 64], 8).unwrap();
    assert_eq!(aligner.elem_size(), 16);
    let aligner = Align::<1>::new(vec![0u8; 64], 64).unwrap();
    assert_eq!(aligner.elem_size(), 64);
}

#[test]
fn space_behind_the_last_full_slot_is_never_yielded() {
    let mut aligner = Align::<20>::new(vec![3u8; 48], 16).unwrap();
    assert_eq!(aligner.elem_size(), 32);
    let mut cursor = aligner.iter_mut();
    assert_eq!(cursor.write_next(&element(10)), Some(0));
    assert_eq!(cursor.write_next(&element(20)), None);
    assert_eq!(cursor.next(), None);
    let bytes = aligner.into_bytes();
    assert_eq!(&bytes[0..20], &element::<20>(10)[..]);
    assert_eq!(&bytes[20..48], &[3u8; 28][..]);
}

#[test]
fn fewer_elements_than_slots_leave_the_tail_untouched() {
    let mut aligner = Align::<3>::new(vec![0xCCu8; 16], 4).unwrap();
    aligner.copy_from_slice(&[[1, 2, 3], [4, 5, 6]]);
    assert_eq!(
        aligner.as_bytes(),
        &[1u8, 2, 3, 0xCC, 4, 5, 6, 0xCC, 0xCC, 0xCC, 0xCC, 0xCC, 0xCC, 0xCC, 0xCC, 0xCC][..]
    );
}

#[test]
fn copy_of_no_elements_changes_nothing() {
    let mut padded = Align::<3>::new(vec![0xCCu8; 8], 4).unwrap();
    padded.copy_from_slice(&[]);
    assert_eq!(padded.as_bytes(), &[0xCCu8; 8][..]);
    let mut packed = Align::<4>::new(vec![0xCCu8; 8], 4).unwrap();
    packed.copy_from_slice(&[]);
    assert_eq!(packed.as_bytes(), &[0xCCu8; 8][..]);
}

#[test]
fn second_copy_starts_again_at_the_first_slot() {
    let mut aligner = Align::<2>::new(vec![0u8; 8], 4).unwrap();
    aligner.copy_from_slice(&[[1, 1], [2, 2]]);
    aligner.copy_from_slice(&[[9, 9]]);
    assert_eq!(aligner.as_bytes(), &[9u8, 9, 0, 0, 2, 2, 0, 0][..]);
}

#[test]
fn elements_of_no_bytes_write_nothing() {
    let mut aligner = Align::<0>::new(vec![5u8; 8], 4).unwrap();
    assert_eq!(aligner.elem_size(), 0);
    aligner.copy_from_slice(&[[], [], []]);
    assert_eq!(aligner.as_bytes(), &[5u8; 8][..]);
    let mut cursor = aligner.iter_mut();
    assert_eq!(cursor.next(), Some(0));
    assert_eq!(cursor.next(), Some(0));

    let mut empty = Align::<0>::new(Vec::new(), 4).unwrap();
    let mut cursor = empty.iter_mut();
    assert_eq!(cursor.next(), None);
}

#[test]
fn clone_writes_to_a_region_of_its_own() {
    let mut first = Align::<2>::new(vec![0u8; 4], 2).unwrap();
    let second = first.clone();
    first.copy_from_slice(&[[1, 2], [3, 4]]);
    assert_eq!(first.as_bytes(), &[1u8, 2, 3, 4][..]);
    assert_eq!(second.as_bytes(), &[0u8; 4][..]);
}
