use rosin_core::number::{complete_number, number_format, NumberFormat};

fn plain() -> NumberFormat {
    number_format(true, None, None, None, None, None)
}

#[test]
fn default_options() {
    assert_eq!(
        plain(),
        NumberFormat {
            use_grouping: true,
            min_integer_digits: 1,
            max_fraction_digits: None,
            min_fraction_digits: 0,
            significant: false,
            min_significant_digits: 1,
            max_significant_digits: None,
        }
    );
}

#[test]
fn options_are_clamped() {
    let f = number_format(false, Some(500), Some(30), Some(-4), None, None);
    assert_eq!(f.min_integer_digits, 308);
    assert_eq!(f.max_fraction_digits, Some(20));
    assert_eq!(f.min_fraction_digits, 0);
    assert!(!f.use_grouping);
    let f = number_format(true, Some(0), Some(2), Some(5), None, None);
    assert_eq!(f.min_integer_digits, 1);
    assert_eq!(f.min_fraction_digits, 2);
    let f = number_format(true, None, None, None, Some(5), Some(3));
    assert!(f.significant);
    assert_eq!(f.min_significant_digits, 3);
    assert_eq!(f.max_significant_digits, Some(3));
    let f = number_format(true, None, None, None, None, Some(0));
    assert_eq!(f.max_significant_digits, Some(1));
    assert_eq!(f.min_significant_digits, 1);
    let f = number_format(true, None, None, None, Some(40), None);
    assert_eq!(f.min_significant_digits, 21);
}

#[test]
fn groups_thousands() {
    let f = plain();
    assert_eq!(complete_number("1234567", &f), "1,234,567");
    assert_eq!(complete_number("1234567.891", &f), "1,234,567.891");
    assert_eq!(complete_number("-1234.5", &f), "-1,234.5");
    assert_eq!(complete_number("123", &f), "123");
    assert_eq!(complete_number("123456", &f), "123,456");
    let no_grouping = number_format(false, None, None, None, None, None);
    assert_eq!(complete_number("1234567", &no_grouping), "1234567");
}

#[test]
fn pads_integer_digits() {
    let f = number_format(false, Some(5), None, None, None, None);
    assert_eq!(complete_number("42", &f), "00042");
    assert_eq!(complete_number("-42.5", &f), "-00042.5");
    let grouped = number_format(true, Some(5), None, None, None, None);
    assert_eq!(complete_number("42", &grouped), "00,042");
}

#[test]
fn fraction_digits() {
    let max2 = number_format(true, None, Some(2), None, None, None);
    assert_eq!(complete_number("3.10", &max2), "3.1");
    assert_eq!(complete_number("3.00", &max2), "3");
    let max2_min1 = number_format(true, None, Some(2), Some(1), None, None);
    assert_eq!(complete_number("3.00", &max2_min1), "3.0");
    let min2 = number_format(true, None, None, Some(2), None, None);
    assert_eq!(complete_number("3.5", &min2), "3.50");
    assert_eq!(complete_number("3", &min2), "3.00");
    assert_eq!(complete_number("3.14159", &min2), "3.14159");
}

#[test]
fn scientific_notation_is_left_alone() {
    assert_eq!(complete_number("1e21", &plain()), "1e21");
    let sig = number_format(true, None, None, None, Some(3), None);
    assert_eq!(complete_number("1.5E-7", &sig), "1.5E-7");
}

#[test]
fn significant_digits() {
    let min3 = number_format(true, None, None, None, Some(3), None);
    assert_eq!(complete_number("1.5", &min3), "1.50");
    assert_eq!(complete_number("12", &min3), "12.0");
    assert_eq!(complete_number("0", &min3), "0.00");
    assert_eq!(complete_number("0.000", &min3), "0.00");
    assert_eq!(complete_number("0.05", &min3), "0.0500");
    let min1 = number_format(true, None, None, None, Some(1), None);
    assert_eq!(complete_number("0.000", &min1), "0");
    let max2 = number_format(true, None, None, None, None, Some(2));
    assert_eq!(complete_number("1200", &max2), "1,200");
    assert_eq!(complete_number("0.0012", &max2), "0.0012");
    assert_eq!(complete_number("12.50", &max2), "12.5");
}
