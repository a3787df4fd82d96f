use tv_renamer::digits::Digits;

#[test]
fn test_digits() {
    assert_eq!(1.digits(), 1);
    assert_eq!(9.digits(), 1);
    assert_eq!(10.digits(), 2);
    assert_eq!(100.digits(), 3);
}

#[test]
fn test_padded_digits() {
    assert_eq!(5.to_padded_string('0', 2).as_str(), "05");
    assert_eq!(10.to_padded_string('0', 2).as_str(), "10");
    assert_eq!(100.to_padded_string('0', 2).as_str(), "100");
    assert_eq!(10.to_padded_string('0', 3).as_str(), "010");
    assert_eq!(5.to_padded_string('0', 3).as_str(), "005");
}

#[test]
fn zero_has_one_digit() {
    assert_eq!(0usize.digits(), 1);
    assert_eq!(0usize.to_padded_string('0', 0).as_str(), "0");
    assert_eq!(0usize.to_padded_string('0', 3).as_str(), "000");
}

#[test]
fn digits_are_those_of_the_decimal_form() {
    let numbers: [usize; 12] = [0, 7, 10, 11, 19, 20, 99, 100, 101, 999, 1000, 65535];
    for number in numbers {
        assert_eq!(number.digits(), number.to_string().len());
    }
    assert_eq!(usize::MAX.digits(), usize::MAX.to_string().len());
}

#[test]
fn padding_is_a_least_width() {
    assert_eq!(12345usize.to_padded_string('0', 2).as_str(), "12345");
    assert_eq!(7usize.to_padded_string(' ', 4).as_str(), "   7");
    assert_eq!(7usize.to_padded_string('x', 1).as_str(), "7");
    assert_eq!(usize::MAX.to_padded_string('0', 1), usize::MAX.to_string());
}
