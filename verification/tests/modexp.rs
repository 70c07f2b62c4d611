use rustenum::modexp::{modexp, parsenum};

#[test]
fn test_modexp1() {
    // Largest prime less than 2**64
    let bigm = u64::max_value() - 58;
    assert_eq!(0, modexp(bigm - 2, bigm - 1, 1));
}

#[test]
fn test_modexp2() {
    let bigm = u64::max_value() - 58;
    assert_eq!(1, modexp(bigm - 2, bigm - 1, bigm));
}

#[test]
fn test_modexp3() {
    let bigm = u64::max_value() - 58;
    assert_eq!(827419628471527655, modexp(bigm - 2, (1 << 32) + 1, bigm));
}

#[test]
fn test_modexp4() {
    assert_eq!(4, modexp(10, 9, 6));
}

#[test]
fn test_modexp5() {
    assert_eq!(34, modexp(450, 768, 517));
}

#[test]
fn test_modexp6() {
    assert_eq!(16, modexp(2, 20, 17));
}

#[test]
fn test_modexp7() {
    let num = u64::max_value();
    assert_eq!(166, modexp(num, num, 517));
}

#[test]
fn test_modexp8() {
    let num = u64::max_value();
    assert_eq!(0, modexp(num, num, num));
}

#[test]
fn modexp_of_exponent_zero_is_one() {
    assert_eq!(1, modexp(0, 0, 7));
    assert_eq!(1, modexp(12345, 0, 2));
    assert_eq!(0, modexp(12345, 0, 1));
    assert_eq!(0, modexp(0, 5, 7));
}

#[test]
fn parsenum_reads_decimal_numbers() {
    assert_eq!(Some(0), parsenum("0"));
    assert_eq!(Some(517), parsenum("517"));
    assert_eq!(Some(517), parsenum("+0517"));
    assert_eq!(Some(u64::MAX), parsenum("18446744073709551615"));
    assert_eq!(None, parsenum("18446744073709551616"));
    assert_eq!(None, parsenum(""));
    assert_eq!(None, parsenum("+"));
    assert_eq!(None, parsenum("-5"));
    assert_eq!(None, parsenum("5 "));
    assert_eq!(None, parsenum("0x10"));
    assert_eq!(None, parsenum("1_000"));
}

#[test]
fn parsenum_agrees_with_the_standard_library() {
    let samples = vec![
        "0", "007", "+1", "++1", "-0", "", " ", "+", "99999999999999999999", "12a", "\u{663}",
        "18446744073709551615", "18446744073709551616",
    ];
    for text in samples {
        assert_eq!(parsenum(text), text.parse::<u64>().ok(), "{:?}", text);
    }
}
