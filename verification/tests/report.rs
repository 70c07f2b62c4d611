use rustenum::report::{
    shown_line, status_band, write_results_message, written_line, StatusBand, WriteOutcome,
};
use rustenum::scanner::Scanner;
use rustenum::text::{compare, read_unsigned, split_on, starts_with, str_eq, write_decimal, Rank};
use rustenum::toy_rsa::{as_message, key_is_suitable, predecessors, public_key, EXP};

#[test]
fn status_codes_fall_in_bands() {
    assert_eq!(status_band(200), StatusBand::Found);
    assert_eq!(status_band(201), StatusBand::Unusual);
    assert_eq!(status_band(299), StatusBand::Unusual);
    assert_eq!(status_band(300), StatusBand::Redirect);
    assert_eq!(status_band(399), StatusBand::Redirect);
    assert_eq!(status_band(400), StatusBand::Failure);
    assert_eq!(status_band(599), StatusBand::Failure);
    assert_eq!(status_band(600), StatusBand::Unusual);
    assert_eq!(status_band(100), StatusBand::Unusual);
    assert_eq!(status_band(0), StatusBand::Unusual);
    assert_eq!(status_band(u16::MAX), StatusBand::Unusual);
}

#[test]
fn report_lines_have_their_format() {
    assert_eq!(shown_line("admin", 200), "/admin --> Status: 200");
    assert_eq!(written_line("admin", 200), "/admin -> Status: 200\n");
    assert_eq!(shown_line("", 0), "/ --> Status: 0");
    assert_eq!(written_line("a b", 65535), "/a b -> Status: 65535\n");
}

#[test]
fn report_is_in_order_of_status() {
    let mut scanner = Scanner::new();
    scanner.use_default_ignore_list();
    scanner.add_all_to_found(vec![
        ("wp-admin".to_string(), 403),
        ("failed".to_string(), 404),
        ("wp-login.php".to_string(), 200),
        ("resources   [REDIRECTED TO: /res/]".to_string(), 301),
        ("robots.txt".to_string(), 200),
        ("teapot".to_string(), 118),
    ]);
    let shown: Vec<(String, StatusBand)> =
        scanner.display_lines().into_iter().map(|l| (l.text, l.band)).collect();
    assert_eq!(
        shown,
        vec![
            ("/teapot --> Status: 118".to_string(), StatusBand::Unusual),
            ("/robots.txt --> Status: 200".to_string(), StatusBand::Found),
            ("/wp-login.php --> Status: 200".to_string(), StatusBand::Found),
            (
                "/resources   [REDIRECTED TO: /res/] --> Status: 301".to_string(),
                StatusBand::Redirect
            ),
            ("/wp-admin --> Status: 403".to_string(), StatusBand::Failure),
        ]
    );
    let written: Vec<String> = scanner.file_lines().into_iter().map(|l| l.text).collect();
    assert_eq!(
        written,
        vec![
            "/teapot -> Status: 118\n",
            "/robots.txt -> Status: 200\n",
            "/wp-login.php -> Status: 200\n",
            "/resources   [REDIRECTED TO: /res/] -> Status: 301\n",
            "/wp-admin -> Status: 403\n",
        ]
    );
    let first = &scanner.file_lines()[0];
    assert_eq!((first.page.as_str(), first.status), ("teapot", 118));
}

#[test]
fn report_of_nothing_is_empty() {
    let scanner = Scanner::new();
    assert!(scanner.display_lines().is_empty());
    assert!(scanner.file_lines().is_empty());
}

#[test]
fn writing_is_reported() {
    assert_eq!(
        write_results_message("out.txt", WriteOutcome::Appended),
        Ok("Successfully wrote results to out.txt".to_string())
    );
    assert_eq!(
        write_results_message("out.txt", WriteOutcome::Created),
        Ok("Successfully created and wrote results to out.txt".to_string())
    );
    assert_eq!(
        write_results_message("out.txt", WriteOutcome::WriteFailed),
        Err("Couldn't write results to out.txt".to_string())
    );
    assert_eq!(
        write_results_message("out.txt", WriteOutcome::CreateFailed),
        Err("Could not create output file at provided path. Please check your file path."
            .to_string())
    );
}

#[test]
fn split_keeps_empty_pieces() {
    assert_eq!(split_on("a,,b,", ','), vec!["a", "", "b", ""]);
    assert_eq!(split_on("", ','), vec![""]);
    assert_eq!(split_on(",", ','), vec!["", ""]);
    assert_eq!(split_on("no comma", ','), vec!["no comma"]);
    assert_eq!(split_on("\u{e9},\u{1f50e}", ','), vec!["\u{e9}", "\u{1f50e}"]);
}

#[test]
fn decimal_round_trip() {
    assert_eq!(write_decimal(0), "0");
    assert_eq!(write_decimal(9), "9");
    assert_eq!(write_decimal(10), "10");
    assert_eq!(write_decimal(404), "404");
    assert_eq!(write_decimal(u64::MAX), "18446744073709551615");
    assert_eq!(read_unsigned("18446744073709551615", u64::MAX), Some(u64::MAX));
    assert_eq!(read_unsigned("18446744073709551616", u64::MAX), None);
    assert_eq!(read_unsigned("+007", 65535), Some(7));
    assert_eq!(read_unsigned("65535", 65535), Some(65535));
    assert_eq!(read_unsigned("65536", 65535), None);
    assert_eq!(read_unsigned("9", 8), None);
    assert_eq!(read_unsigned("", 65535), None);
    assert_eq!(read_unsigned("+", 65535), None);
    assert_eq!(read_unsigned("-1", 65535), None);
    assert_eq!(read_unsigned(" 1", 65535), None);
    for n in [0u64, 1, 99, 100, 65535, 1 << 40] {
        assert_eq!(read_unsigned(&write_decimal(n), u64::MAX), Some(n));
    }
}

#[test]
fn strings_compare_in_dictionary_order() {
    assert_eq!(compare("a", "b"), Rank::Before);
    assert_eq!(compare("b", "a"), Rank::After);
    assert_eq!(compare("abc", "abc"), Rank::Same);
    assert_eq!(compare("ab", "abc"), Rank::Before);
    assert_eq!(compare("", ""), Rank::Same);
    assert_eq!(compare("", "a"), Rank::Before);
    assert_eq!(compare("Z", "a"), Rank::Before);
    assert_eq!(compare("z", "\u{e9}"), Rank::Before);
    assert_eq!(compare("\u{ffff}", "\u{10000}"), Rank::Before);
    let samples = ["", "a", "ab", "b", "B", "\u{e9}", "\u{ffff}", "\u{10000}", "a\u{0}"];
    for x in samples {
        for y in samples {
            let expected = if x < y {
                Rank::Before
            } else if x == y {
                Rank::Same
            } else {
                Rank::After
            };
            assert_eq!(compare(x, y), expected);
            assert_eq!(str_eq(x, y), x == y);
            assert_eq!(starts_with(x, y), x.starts_with(y));
        }
    }
}

#[test]
fn keys_need_an_exponent_below_and_prime_to_lambda() {
    assert_eq!(EXP, 65_537);
    assert!(key_is_suitable(65_538, 1));
    assert!(!key_is_suitable(65_537, 1));
    assert!(!key_is_suitable(1 << 40, 65_537));
    assert!(!key_is_suitable(0, 1));
}

#[test]
fn public_key_is_the_product() {
    assert_eq!(public_key(0xed23e6cd, 0xf050a04d), 0xde9c5816141c8ba9);
    assert_eq!(public_key(u32::MAX, u32::MAX), 0xfffffffe00000001);
    assert_eq!(public_key(0, 7), 0);
    assert_eq!(predecessors(0xed23e6cd, 0xf050a04d), Some((0xed23e6cc, 0xf050a04c)));
    assert_eq!(predecessors(0, 5), None);
    assert_eq!(predecessors(5, 0), None);
    assert_eq!(predecessors(1, 1), Some((0, 0)));
}

#[test]
fn message_has_to_fit_in_32_bits() {
    assert_eq!(as_message(0x12345f), Some(0x12345f));
    assert_eq!(as_message(0xffff_ffff), Some(u32::MAX));
    assert_eq!(as_message(0x1_0000_0000), None);
    assert_eq!(as_message(u64::MAX), None);
}
