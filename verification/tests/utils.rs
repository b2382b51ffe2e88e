use qoi_stream::utils::{array_from_input, is_identical};

#[test]
fn infallible_is_identical() {
    assert!(is_identical(&[0, 1, 2, 3], &[0, 1, 2, 3]));
    assert!(!is_identical(&[0, 1, 2, 3], &[0, 1, 2, 4]));
}

#[test]
fn infallible_array_from_input() {
    let input = [55, 88, 72, 89, 11, 60, 7, 2, 0, 5, 54];
    let output_one: [u8; 4] = array_from_input(&input, 0);
    assert!(is_identical(&output_one, &[55, 88, 72, 89]));
    let output_two: [u8; 4] = array_from_input(&input, 3);
    assert!(is_identical(&output_two, &[89, 11, 60, 7]));
    let output_three: [u8; 8] = array_from_input(&input, input.len() - 8);
    assert!(is_identical(&output_three, &[89, 11, 60, 7, 2, 0, 5, 54]));
}

#[test]
fn is_identical_compares_the_length_of_the_first() {
    assert!(is_identical(&[], &[1, 2]));
    assert!(is_identical(&[1], &[1, 2]));
    assert!(!is_identical(&[2], &[1, 2]));
}

#[test]
fn array_from_input_of_no_bytes() {
    let output: [u8; 0] = array_from_input(&[1, 2, 3], 3);
    assert_eq!(output.len(), 0);
}
