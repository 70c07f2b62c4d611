use rustenum::found::Found;
use rustenum::response::failed_response;
use rustenum::scanner::Scanner;
use rustenum::wordlist::Wordlist;
use std::collections::BTreeMap;

fn strings(words: &[&str]) -> Vec<String> {
    let mut out = Vec::new();
    for word in words {
        out.push(word.to_string());
    }
    out
}

#[test]
fn check_ignore_capabilities() {
    let mut results = Scanner::new();

    let ignore: Vec<u16> = [404, 301, 200].to_vec();

    results.add_to_ignore_list(&ignore);

    assert_eq!(results.status_code_ignore_list, ignore);
}

#[test]
fn check_default_ignore() {
    let mut results = Scanner::new();
    let ignore: Vec<u16> = [404].to_vec();
    results.use_default_ignore_list();
    assert_eq!(results.status_code_ignore_list, ignore)
}

#[test]
fn check_found_results() {
    let mut results = Scanner::new();

    let mut test_data: BTreeMap<String, u16> = BTreeMap::new();
    test_data.insert("wp-admin".to_string(), 403);
    test_data.insert("wp-login.php".to_string(), 200);
    test_data.insert("resources".to_string(), 301);
    test_data.insert("robots.txt".to_string(), 200);

    results.add_to_found(("wp-admin".to_string(), 403u16));
    results.add_to_found(("wp-login.php".to_string(), 200u16));
    results.add_to_found(("resources".to_string(), 301u16));
    results.add_to_found(("robots.txt".to_string(), 200u16));
    let expected: Vec<(String, u16)> = test_data.into_iter().collect();
    assert_eq!(results.found.entries(), expected);
}

#[test]
fn validate_adding_extensions() {
    let mut scanner = Scanner::new();
    let extensions = ".php,html,.js".to_string();

    scanner.add_extensions_to_wordlist(&extensions);

    assert!(scanner.extension_list.0.contains(&".php".to_string()));
    assert!(scanner.extension_list.0.contains(&".html".to_string()));
    assert!(scanner.extension_list.0.contains(&".js".to_string()));

    assert!(!scanner.wordlist.0.contains(&".htaccess..php".to_string()));
}

#[test]
fn new_scanner_is_empty() {
    let scanner = Scanner::new();
    assert!(scanner.wordlist.is_empty());
    assert_eq!(scanner.wordlist.len(), 0);
    assert!(scanner.status_code_ignore_list.is_empty());
    assert_eq!(scanner.found.len(), 0);
    assert_eq!(scanner.site.as_str(), "");
    assert!(scanner.extension_list.is_empty());
    assert!(Scanner::default().wordlist.is_empty());
    assert!(Wordlist::default().is_empty());
    assert_eq!(Found::default().len(), 0);
}

#[test]
fn wordlist_keeps_lines_as_they_are() {
    let mut words = Wordlist::new();
    let copy = words.extend_from_lines(&strings(&["admin", "", " spaced ", "admin"]));
    assert_eq!(words.0, strings(&["admin", "", " spaced ", "admin"]));
    assert_eq!(copy.0, words.0);
    assert_eq!(words.len(), 4);
    let copy = words.extend_from_lines(&strings(&["more"]));
    assert_eq!(copy.0, strings(&["admin", "", " spaced ", "admin", "more"]));
    assert_eq!(words.clone().0, copy.0);
}

#[test]
fn build_wordlist_returns_a_copy_of_the_scanner() {
    let mut scanner = Scanner::new();
    scanner.use_default_ignore_list();
    scanner.add_to_found(("index".to_string(), 200));
    assert!(scanner.try_add_site("example.com").is_ok());
    let copy = scanner.build_wordlist_from_lines(&strings(&["a", "b"]));
    assert_eq!(scanner.wordlist.0, strings(&["a", "b"]));
    assert_eq!(copy.wordlist.0, strings(&["a", "b"]));
    assert_eq!(copy.status_code_ignore_list, vec![404]);
    assert_eq!(copy.found.entries(), vec![("index".to_string(), 200)]);
    assert_eq!(copy.site.as_str(), "http://example.com/");
    assert!(copy.extension_list.is_empty());
}

#[test]
fn extensions_expand_every_word() {
    let mut scanner = Scanner::new();
    scanner.build_wordlist_from_lines(&strings(&["a", "b"]));
    scanner.add_extensions_to_wordlist("php,html");
    assert_eq!(scanner.extension_list.0, strings(&[".php", ".html"]));
    assert_eq!(scanner.wordlist.0, strings(&["a", "b", "a.php", "a.html", "b.php", "b.html"]));
}

#[test]
fn extensions_compound_over_calls() {
    let mut scanner = Scanner::new();
    scanner.build_wordlist_from_lines(&strings(&["a"]));
    scanner.add_extensions_to_wordlist(".x");
    assert_eq!(scanner.wordlist.0, strings(&["a", "a.x"]));
    scanner.add_extensions_to_wordlist("y");
    assert_eq!(scanner.extension_list.0, strings(&[".x", ".y"]));
    assert_eq!(scanner.wordlist.0, strings(&["a", "a.x", "a.x", "a.y", "a.x.x", "a.x.y"]));
    assert_eq!(scanner.wordlist.len(), 2 * (1 + 2));
}

#[test]
fn empty_extension_becomes_a_dot() {
    let mut scanner = Scanner::new();
    scanner.build_wordlist_from_lines(&strings(&["a", ""]));
    scanner.add_extensions_to_wordlist("");
    assert_eq!(scanner.extension_list.0, strings(&["."]));
    assert_eq!(scanner.wordlist.0, strings(&["a", "", "a.", "."]));
    scanner.add_extensions_to_wordlist("js,");
    assert_eq!(scanner.extension_list.0, strings(&[".", ".js", "."]));
    assert_eq!(scanner.wordlist.len(), 4 * (1 + 3));
}

#[test]
fn ignore_list_keeps_order_and_drops_repeats() {
    let mut scanner = Scanner::new();
    scanner.use_default_ignore_list();
    scanner.add_to_ignore_list(&[500, 404, 301, 500, 200]);
    assert_eq!(scanner.status_code_ignore_list, vec![404, 500, 301, 200]);
    scanner.add_to_ignore_list(&[]);
    assert_eq!(scanner.status_code_ignore_list, vec![404, 500, 301, 200]);
    assert!(scanner.should_ignore(&301));
    assert!(!scanner.should_ignore(&302));
}

#[test]
fn default_ignore_is_seeded_once() {
    let mut once = Scanner::new();
    once.use_default_ignore_list();
    let mut twice = Scanner::new();
    twice.use_default_ignore_list();
    twice.use_default_ignore_list();
    assert_eq!(once.status_code_ignore_list, vec![404]);
    assert_eq!(twice.status_code_ignore_list, vec![404]);
    let mut later = Scanner::new();
    later.add_to_ignore_list(&[200, 404, 500]);
    later.use_default_ignore_list();
    assert_eq!(later.status_code_ignore_list, vec![200, 404, 500]);
}

#[test]
fn ignored_outcomes_are_not_stored() {
    let mut scanner = Scanner::new();
    scanner.use_default_ignore_list();
    scanner.add_to_ignore_list(&[301]);
    scanner.add_all_to_found(vec![
        ("a".to_string(), 200),
        ("b".to_string(), 404),
        ("c".to_string(), 301),
        ("d".to_string(), 403),
        ("a".to_string(), 301),
    ]);
    let sorted = scanner.sorted_results();
    assert_eq!(sorted, vec![("a".to_string(), 200), ("d".to_string(), 403)]);
    for (_, status) in sorted {
        assert!(!scanner.should_ignore(&status));
    }
}

#[test]
fn last_outcome_for_a_page_counts() {
    let mut scanner = Scanner::new();
    scanner.add_to_found(("page".to_string(), 200));
    scanner.add_to_found(("other".to_string(), 500));
    scanner.add_to_found(("page".to_string(), 403));
    assert_eq!(scanner.found.len(), 2);
    assert_eq!(scanner.found.get("page"), Some(403));
    assert_eq!(scanner.found.get("other"), Some(500));
    assert_eq!(scanner.found.get("none"), None);
    assert_eq!(
        scanner.found.entries(),
        vec![("other".to_string(), 500), ("page".to_string(), 403)]
    );
}

#[test]
fn sorted_results_are_stable() {
    let mut scanner = Scanner::new();
    scanner.add_to_found(("b".to_string(), 200));
    scanner.add_to_found(("a".to_string(), 200));
    scanner.add_to_found(("c".to_string(), 301));
    assert_eq!(
        scanner.sorted_results(),
        vec![("a".to_string(), 200), ("b".to_string(), 200), ("c".to_string(), 301)]
    );
}

#[test]
fn sorted_results_order_by_status_then_page() {
    let mut scanner = Scanner::new();
    let pages = ["zeta", "alpha", "Beta", "\u{e9}t\u{e9}", "al", "alpha2", ""];
    let codes = [500u16, 200, 301, 200, 500, 100, 301];
    for i in 0..pages.len() {
        scanner.add_to_found((pages[i].to_string(), codes[i]));
    }
    let mut expected: Vec<(String, u16)> = scanner.found.entries();
    let in_key_order: BTreeMap<String, u16> = expected.iter().cloned().collect();
    assert_eq!(expected, in_key_order.into_iter().collect::<Vec<(String, u16)>>());
    expected.sort_by(|a, b| a.1.cmp(&b.1));
    assert_eq!(scanner.sorted_results(), expected);
    assert_eq!(scanner.found.clone().sorted_by_status(), expected);
}

#[test]
fn failure_is_dropped_by_default() {
    let mut scanner = Scanner::new();
    scanner.use_default_ignore_list();
    scanner.add_to_found(failed_response());
    assert_eq!(scanner.found.len(), 0);
    assert!(scanner.sorted_results().is_empty());
    let mut open = Scanner::new();
    open.add_to_found(failed_response());
    assert_eq!(open.sorted_results(), vec![("failed".to_string(), 404)]);
}
