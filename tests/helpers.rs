use dkdc::names::{is_safe_editor, validate_name, NameError};
use dkdc::numbers::{format_number_with_commas, format_size};
use dkdc::text::comma_separated_string_to_vec;

#[test]
fn sizes_below_a_kilobyte_are_whole_bytes() {
    assert_eq!(format_size(0), "0 B");
    assert_eq!(format_size(512), "512 B");
    assert_eq!(format_size(1023), "1023 B");
}

#[test]
fn larger_sizes_have_one_decimal() {
    assert_eq!(format_size(1024), "1.0 KB");
    assert_eq!(format_size(1536), "1.5 KB");
    assert_eq!(format_size(1280), "1.2 KB");
    assert_eq!(format_size(1048575), "1024.0 KB");
    assert_eq!(format_size(1048576), "1.0 MB");
    assert_eq!(format_size(3 * 1073741824), "3.0 GB");
    assert_eq!(format_size(1099511627776 * 2048), "2048.0 TB");
}

#[test]
fn numbers_get_commas_every_three_digits() {
    assert_eq!(format_number_with_commas(1_000_000_000u128), "1,000,000,000");
    assert_eq!(format_number_with_commas(1_000_000u64), "1,000,000");
    assert_eq!(format_number_with_commas(1_000u32), "1,000");
    assert_eq!(format_number_with_commas(1_000u16), "1,000");
    assert_eq!(format_number_with_commas(100u8), "100");
    assert_eq!(format_number_with_commas(-1_000_000_000i128), "-1,000,000,000");
    assert_eq!(format_number_with_commas(-1_000_000i64), "-1,000,000");
    assert_eq!(format_number_with_commas(-1_000i32), "-1,000");
    assert_eq!(format_number_with_commas(-1_000i16), "-1,000");
    assert_eq!(format_number_with_commas(-100i8), "-,100");
    assert_eq!(format_number_with_commas(0i32), "0");
    assert_eq!(format_number_with_commas(i128::MIN), "-,170,141,183,460,469,231,731,687,303,715,884,105,728");
}

#[test]
fn names_are_validated_in_order() {
    assert_eq!(validate_name("notes.txt"), Ok(()));
    assert_eq!(validate_name(""), Err(NameError::Empty));
    assert_eq!(validate_name("a/b"), Err(NameError::PathSeparator));
    assert_eq!(validate_name("a\\b"), Err(NameError::PathSeparator));
    assert_eq!(validate_name("a\0b"), Err(NameError::NullCharacter));
    assert_eq!(NameError::Empty.message(), "Name cannot be empty");
}

#[test]
fn editors_with_shell_metacharacters_are_refused() {
    assert!(is_safe_editor("nvim"));
    assert!(is_safe_editor("code --wait"));
    assert!(!is_safe_editor("vi; rm -rf x"));
    assert!(!is_safe_editor("a && b"));
    assert!(!is_safe_editor("a | b"));
    assert!(!is_safe_editor("`x`"));
}

#[test]
fn comma_lists_are_split_and_trimmed() {
    assert_eq!(comma_separated_string_to_vec("a, b ,c"), vec!["a", "b", "c"]);
    assert_eq!(comma_separated_string_to_vec(""), vec![""]);
    assert_eq!(comma_separated_string_to_vec(" x ,,\ty\u{3000}"), vec!["x", "", "y"]);
}
