use doc_md::props::Properties;

#[test]
fn number_with_space_after_colon() {
    let p = Properties::from("100-6957482 Number: 42").unwrap();
    assert_eq!(p.command_id, 42);
}

#[test]
fn number_without_space() {
    let p = Properties::from("100-6957482 Number:42").unwrap();
    assert_eq!(p.command_id, 42);
}

#[test]
fn number_with_space_before_and_after_colon() {
    let p = Properties::from("100-6957482 Number : 42").unwrap();
    assert_eq!(p.command_id, 42);
}

#[test]
fn missing_label_yields_no_record() {
    assert!(Properties::from("100-6957482 no number here").is_none());
}

#[test]
fn two_spaces_before_colon_do_not_match() {
    assert!(Properties::from("100-6957482 Number  : 42").is_none());
}

#[test]
fn leftmost_number_wins() {
    let p = Properties::from("Number: 3 and later Number: 9").unwrap();
    assert_eq!(p.command_id, 3);
}

#[test]
fn digits_are_read_greedily() {
    let p = Properties::from("Number: 1234567 tail").unwrap();
    assert_eq!(p.command_id, 1234567);
}

#[test]
fn explicit_zero_yields_no_record() {
    assert!(Properties::from("Number: 0").is_none());
}

#[test]
fn out_of_range_number_yields_no_record() {
    assert!(Properties::from("Number: 99999999999999999999999999").is_none());
}

#[test]
fn newline_counts_as_label_whitespace() {
    let p = Properties::from("Number:\n 5").unwrap();
    assert_eq!(p.command_id, 5);
}

#[test]
fn label_without_digits_is_passed_over() {
    let p = Properties::from("Number: x then Number: 8").unwrap();
    assert_eq!(p.command_id, 8);
}

#[test]
fn empty_content_yields_no_record() {
    assert!(Properties::from("").is_none());
}

#[test]
fn largest_fitting_number_is_kept() {
    let p = Properties::from("Number: 18446744073709551615").unwrap();
    assert_eq!(p.command_id, usize::MAX);
}

#[test]
fn just_past_the_largest_number_yields_no_record() {
    assert!(Properties::from("Number: 18446744073709551616").is_none());
}

#[test]
fn leading_zeros_are_read() {
    let p = Properties::from("Number: 007").unwrap();
    assert_eq!(p.command_id, 7);
}
