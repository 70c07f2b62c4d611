use rustenum::kwindex::KWIndex;

#[test]
fn test_hello_world() {
    let index = KWIndex::new().extend_from_text("Hello world");
    assert_eq!(2, index.len());
    assert_eq!(1, index.count_matches("world"));
}

#[test]
fn test_example_sentence() {
    let index = KWIndex::new().extend_from_text("It ain't over until it ain't, over.");
    assert_eq!(5, index.len());
}

#[test]
fn test_word_count() {
    let index = KWIndex::new().extend_from_text("It ain't over until it ain't, over.");
    assert_eq!(2, index.count_matches("over"));
}

#[test]
fn test_example1() {
    let kwindex = KWIndex::new().extend_from_text("I am THE WALRUS");
    assert_eq!(Some("THE"), kwindex.nth_uppercase(1));
}

#[test]
fn test_example2() {
    let kwindex = KWIndex::new().extend_from_text("b b b-banana b");
    assert_eq!(3, kwindex.count_matches("b"));
}

#[test]
fn test_example3() {
    let kwindex = KWIndex::new().extend_from_text("Can't stop this!");
    assert_eq!(2, kwindex.len());
}

#[test]
fn index_keeps_words_in_order() {
    let index = KWIndex::new().extend_from_text("It ain't over unt\u{ef}l it ain't, over.");
    assert_eq!(index.words(), &vec!["It", "over", "unt\u{ef}l", "it", "over"]);
}

#[test]
fn index_is_extended_behind_its_words() {
    let index = KWIndex::new().extend_from_text("one two").extend_from_text("\tthree\n");
    assert_eq!(index.words(), &vec!["one", "two", "three"]);
    assert!(!index.is_empty());
}

#[test]
fn index_of_blanks_and_punctuation_is_empty() {
    let index = KWIndex::new().extend_from_text("  ... !? \u{a0} 42 a1 -x ");
    assert!(index.is_empty());
    assert_eq!(0, index.len());
    assert_eq!(0, index.count_matches(""));
    assert_eq!(None, index.nth_uppercase(0));
    assert!(KWIndex::default().is_empty());
}

#[test]
fn index_trims_punctuation_at_the_end_only() {
    let index = KWIndex::new().extend_from_text("end... .start mid.dle word!?");
    assert_eq!(index.words(), &vec!["end", "word"]);
}

#[test]
fn nth_uppercase_counts_capitalized_words() {
    let index = KWIndex::new().extend_from_text("I am THE Walrus \u{c9}cole");
    assert_eq!(Some("I"), index.nth_uppercase(0));
    assert_eq!(Some("THE"), index.nth_uppercase(1));
    assert_eq!(Some("Walrus"), index.nth_uppercase(2));
    assert_eq!(None, index.nth_uppercase(3));
}
