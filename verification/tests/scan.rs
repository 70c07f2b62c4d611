use rustenum::response::{
    ends_with_char, failed_response, probe_outcome, probe_url, process_response, ProbeResponse,
};
use rustenum::scanner::Scanner;
use rustenum::schedule::{Dispatcher, Step, DEFAULT_CONCURRENCY, MAX_CONCURRENCY, MIN_CONCURRENCY};
use rustenum::target::ensure_scheme;

fn answer(status: u16, location: Option<&str>) -> ProbeResponse {
    ProbeResponse { status, location: location.map(|l| l.to_string()) }
}

#[test]
fn permanent_redirect_names_its_target() {
    let moved = process_response("old".to_string(), answer(301, Some("/new")));
    assert_eq!(moved, ("old   [REDIRECTED TO: /new]".to_string(), 301));
    let bare = process_response("old".to_string(), answer(301, None));
    assert_eq!(bare, ("old".to_string(), 301));
}

#[test]
fn temporary_redirect_names_its_target() {
    let moved = process_response("old".to_string(), answer(302, Some("https://x/y")));
    assert_eq!(moved, ("old   [https://x/y]".to_string(), 302));
    let bare = process_response("old".to_string(), answer(302, None));
    assert_eq!(bare, ("old".to_string(), 302));
}

#[test]
fn other_answers_keep_the_page() {
    assert_eq!(process_response("p".to_string(), answer(200, None)), ("p".to_string(), 200));
    assert_eq!(process_response("p".to_string(), answer(200, Some("/x"))), ("p".to_string(), 200));
    assert_eq!(process_response("p".to_string(), answer(303, Some("/x"))), ("p".to_string(), 303));
    assert_eq!(process_response("".to_string(), answer(404, None)), ("".to_string(), 404));
}

#[test]
fn failure_has_a_fixed_outcome() {
    assert_eq!(failed_response(), ("failed".to_string(), 404u16));
    assert_eq!(probe_outcome("page".to_string(), None), ("failed".to_string(), 404));
    assert_eq!(
        probe_outcome("page".to_string(), Some(answer(301, Some("/to")))),
        ("page   [REDIRECTED TO: /to]".to_string(), 301)
    );
}

#[test]
fn probe_url_joins_with_one_slash() {
    assert_eq!(probe_url("http://example.com/", "admin"), "http://example.com/admin");
    assert_eq!(probe_url("http://example.com", "admin"), "http://example.com/admin");
    assert_eq!(probe_url("http://example.com/", "/admin"), "http://example.com//admin");
    assert_eq!(probe_url("http://example.com/", ""), "http://example.com/");
    assert_eq!(probe_url("", "x y"), "/x y");
    assert!(ends_with_char("a/", '/'));
    assert!(!ends_with_char("/a", '/'));
    assert!(!ends_with_char("", '/'));
}

#[test]
fn scheme_is_always_put_in_front() {
    assert_eq!(ensure_scheme("example.com"), "http://example.com");
    assert_eq!(ensure_scheme("http://example.com"), "http://http://example.com");
    assert_eq!(ensure_scheme("https://example.com"), "http://https://example.com");
    assert_eq!(ensure_scheme(""), "http://");
}

#[test]
fn site_is_stored_in_normal_form() {
    let mut scanner = Scanner::new();
    assert_eq!(scanner.try_add_site("example.com"), Ok("Successfully parsed given url."));
    assert_eq!(scanner.site.as_str(), "http://example.com/");
    assert_eq!(scanner.try_add_site("10.10.10.10:8080/app"), Ok("Successfully parsed given url."));
    assert_eq!(scanner.site.as_str(), "http://10.10.10.10:8080/app");
    assert_eq!(scanner.try_add_site("EXAMPLE.org/a b"), Ok("Successfully parsed given url."));
    assert_eq!(scanner.site.as_str(), "http://example.org/a%20b");
}

#[test]
fn site_that_is_no_url_changes_nothing() {
    let mut scanner = Scanner::new();
    assert!(scanner.try_add_site("example.com").is_ok());
    assert_eq!(
        scanner.try_add_site(""),
        Err("Unable to parse provided url. Please check your `-u`/`--url` argument.")
    );
    assert_eq!(scanner.site.as_str(), "http://example.com/");
    assert!(scanner.try_add_site("exa mple.com").is_err());
    assert!(scanner.try_add_site("example.com:http").is_err());
    assert_eq!(scanner.site.as_str(), "http://example.com/");
}

#[test]
fn accepted_site_is_the_parsed_url() {
    let mut scanner = Scanner::new();
    assert_eq!(
        scanner.accept_site(Some("http://h/".to_string())),
        Ok("Successfully parsed given url.")
    );
    assert_eq!(scanner.site.as_str(), "http://h/");
    assert!(scanner.accept_site(None).is_err());
    assert_eq!(scanner.site.as_str(), "http://h/");
}

#[test]
fn concurrency_has_to_be_in_range() {
    assert!(Dispatcher::new(10, 0).is_none());
    assert!(Dispatcher::new(10, 15).is_none());
    assert!(Dispatcher::new(10, usize::MAX).is_none());
    assert!(Dispatcher::new(10, MIN_CONCURRENCY).is_some());
    assert!(Dispatcher::new(10, MAX_CONCURRENCY).is_some());
    assert!(Dispatcher::new(0, DEFAULT_CONCURRENCY).is_some());
    assert_eq!((MIN_CONCURRENCY, DEFAULT_CONCURRENCY, MAX_CONCURRENCY), (1, 10, 14));
}

#[test]
fn at_most_three_probes_run_at_once() {
    let mut plan = Dispatcher::new(10, 3).unwrap();
    let mut started: Vec<usize> = Vec::new();
    let mut running: Vec<usize> = Vec::new();
    let mut answered: Vec<usize> = Vec::new();
    let mut steps = 0;
    loop {
        steps += 1;
        assert!(steps <= 100);
        match plan.next_step() {
            Step::Dispatch(index) => {
                started.push(index);
                running.push(index);
                assert_eq!(plan.dispatched(), started.len());
            }
            Step::Await => {
                assert_eq!(running.len(), 3.min(10 - answered.len()));
                // the probe started last is released first
                let index = running.pop().unwrap();
                answered.push(index);
                assert!(plan.complete());
            }
            Step::Finished => break,
        }
        assert!(running.len() <= 3);
        assert_eq!(plan.in_flight(), running.len());
        assert_eq!(plan.completed(), answered.len());
    }
    assert_eq!(started, vec![0, 1, 2, 3, 4, 5, 6, 7, 8, 9]);
    answered.sort();
    assert_eq!(answered, vec![0, 1, 2, 3, 4, 5, 6, 7, 8, 9]);
    assert_eq!(plan.next_step(), Step::Finished);
    assert!(!plan.complete());
    assert_eq!((plan.total(), plan.limit()), (10, 3));
}

#[test]
fn empty_scan_is_finished_at_once() {
    let mut plan = Dispatcher::new(0, 5).unwrap();
    assert_eq!(plan.next_step(), Step::Finished);
    assert!(!plan.complete());
    assert_eq!(plan.dispatched(), 0);
}

#[test]
fn one_probe_at_a_time_alternates() {
    let mut plan = Dispatcher::new(2, 1).unwrap();
    assert_eq!(plan.next_step(), Step::Dispatch(0));
    assert_eq!(plan.next_step(), Step::Await);
    assert_eq!(plan.next_step(), Step::Await);
    assert!(plan.complete());
    assert_eq!(plan.next_step(), Step::Dispatch(1));
    assert_eq!(plan.next_step(), Step::Await);
    assert!(plan.complete());
    assert_eq!(plan.next_step(), Step::Finished);
}
