use rustenum::args::{
    parse_ignore, parse_thread_count, process_arguments, read_flag, thread_count,
    thread_count_message, Flag, Options, Refusal, ThreadCountError,
};

fn line(args: &[&str]) -> Vec<String> {
    let mut out = Vec::new();
    for arg in args {
        out.push(arg.to_string());
    }
    out
}

#[test]
fn no_argument_asks_for_usage() {
    assert_eq!(process_arguments(&line(&[])).unwrap_err(), Refusal::Usage);
}

#[test]
fn one_argument_can_only_ask_for_help() {
    assert_eq!(process_arguments(&line(&["-h"])).unwrap_err(), Refusal::Help);
    assert_eq!(process_arguments(&line(&["--help"])).unwrap_err(), Refusal::Help);
    assert_eq!(process_arguments(&line(&["-w"])).unwrap_err(), Refusal::Usage);
    assert_eq!(process_arguments(&line(&["help"])).unwrap_err(), Refusal::Usage);
}

#[test]
fn flags_come_with_their_values() {
    let options = process_arguments(&line(&[
        "-w", "words.txt", "--url", "example.com", "-ig", "403,500", "--output", "out.txt", "-t",
        "4", "--extensions", "php,.js",
    ]))
    .unwrap();
    assert_eq!(options.wordlist.as_deref(), Some("words.txt"));
    assert_eq!(options.url.as_deref(), Some("example.com"));
    assert_eq!(options.ignore.as_deref(), Some("403,500"));
    assert_eq!(options.output.as_deref(), Some("out.txt"));
    assert_eq!(options.threads.as_deref(), Some("4"));
    assert_eq!(options.extensions.as_deref(), Some("php,.js"));
}

#[test]
fn last_value_of_a_flag_counts() {
    let options = process_arguments(&line(&["-u", "first", "--url", "second"])).unwrap();
    assert_eq!(options.url.as_deref(), Some("second"));
    assert_eq!(options.wordlist, None);
    assert_eq!(options.threads, None);
}

#[test]
fn value_may_look_like_a_flag() {
    let options = process_arguments(&line(&["-w", "-u"])).unwrap();
    assert_eq!(options.wordlist.as_deref(), Some("-u"));
    assert_eq!(options.url, None);
}

#[test]
fn unknown_flag_asks_for_usage() {
    assert_eq!(process_arguments(&line(&["-w", "a", "-z", "b"])).unwrap_err(), Refusal::Usage);
    assert_eq!(process_arguments(&line(&["-h", "-w", "a"])).unwrap_err(), Refusal::Usage);
    assert_eq!(process_arguments(&line(&["a", "-w"])).unwrap_err(), Refusal::Usage);
}

#[test]
fn flag_without_value_is_told_apart() {
    assert_eq!(
        process_arguments(&line(&["-w", "a", "-u"])).unwrap_err(),
        Refusal::MissingValue
    );
}

#[test]
fn flags_have_two_forms() {
    assert_eq!(read_flag("-w"), Some(Flag::Wordlist));
    assert_eq!(read_flag("--wordlist"), Some(Flag::Wordlist));
    assert_eq!(read_flag("-u"), Some(Flag::Url));
    assert_eq!(read_flag("--url"), Some(Flag::Url));
    assert_eq!(read_flag("-ig"), Some(Flag::Ignore));
    assert_eq!(read_flag("--ignore"), Some(Flag::Ignore));
    assert_eq!(read_flag("-o"), Some(Flag::Output));
    assert_eq!(read_flag("--output"), Some(Flag::Output));
    assert_eq!(read_flag("-t"), Some(Flag::Threads));
    assert_eq!(read_flag("--threads"), Some(Flag::Threads));
    assert_eq!(read_flag("-x"), Some(Flag::Extensions));
    assert_eq!(read_flag("--extensions"), Some(Flag::Extensions));
    assert_eq!(read_flag("-W"), None);
    assert_eq!(read_flag("--wordlis"), None);
    assert_eq!(read_flag(""), None);
}

#[test]
fn ignore_list_is_read_whole_or_not_at_all() {
    assert_eq!(parse_ignore("404"), Some(vec![404]));
    assert_eq!(parse_ignore("403,500,403"), Some(vec![403, 500, 403]));
    assert_eq!(parse_ignore("0,65535,+7"), Some(vec![0, 65535, 7]));
    assert_eq!(parse_ignore(""), None);
    assert_eq!(parse_ignore("404,"), None);
    assert_eq!(parse_ignore("404, 500"), None);
    assert_eq!(parse_ignore("65536"), None);
    assert_eq!(parse_ignore("-1"), None);
    assert_eq!(parse_ignore("4o4"), None);
}

#[test]
fn thread_count_is_from_one_to_fourteen() {
    assert_eq!(parse_thread_count("1"), Ok(1));
    assert_eq!(parse_thread_count("14"), Ok(14));
    assert_eq!(parse_thread_count("+010"), Ok(10));
    assert_eq!(parse_thread_count("0"), Err(ThreadCountError::TooLow));
    assert_eq!(parse_thread_count("15"), Err(ThreadCountError::TooHigh));
    assert_eq!(parse_thread_count("ten"), Err(ThreadCountError::NotANumber));
    assert_eq!(parse_thread_count("-3"), Err(ThreadCountError::NotANumber));
    assert_eq!(parse_thread_count(""), Err(ThreadCountError::NotANumber));
    assert_eq!(
        parse_thread_count("340282366920938463463374607431768211456"),
        Err(ThreadCountError::NotANumber)
    );
}

#[test]
fn thread_count_defaults_to_ten() {
    let mut options = Options::new();
    assert_eq!(thread_count(&options), Ok(10));
    options.set(Flag::Threads, "3".to_string());
    assert_eq!(thread_count(&options), Ok(3));
    options.set(Flag::Threads, "30".to_string());
    assert_eq!(thread_count(&options), Err(ThreadCountError::TooHigh));
}

#[test]
fn thread_count_errors_have_messages() {
    assert_eq!(
        thread_count_message(ThreadCountError::TooHigh),
        "Cannot specify a thread count higher than 14."
    );
    assert_eq!(
        thread_count_message(ThreadCountError::TooLow),
        "The minimum number of threads needs to be in the range of 1 to 14 inclusive."
    );
    assert_eq!(
        thread_count_message(ThreadCountError::NotANumber),
        "Error ocurred when attempting to get thread count"
    );
}
