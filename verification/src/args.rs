//! The command line: the flags and their values, the list of status codes to
//! ignore, and the number of requests to run at once.

use crate::schedule::{DEFAULT_CONCURRENCY, MAX_CONCURRENCY, MIN_CONCURRENCY};
use crate::text::{parse_unsigned, read_unsigned, split, split_on, str_eq, views};
use vstd::prelude::*;

verus! {

/// The flags that take a value.
#[derive(Clone, Copy, Debug, PartialEq, Eq, Structural)]
pub enum Flag {
    /// `-w`, `--wordlist`: the file with the pages to look for.
    Wordlist,
    /// `-u`, `--url`: the address of the site.
    Url,
    /// `-ig`, `--ignore`: status codes to leave out of the report.
    Ignore,
    /// `-o`, `--output`: the file to write the report to.
    Output,
    /// `-t`, `--threads`: the number of requests to run at once.
    Threads,
    /// `-x`, `--extensions`: file extensions to try on each page.
    Extensions,
}

/// Why a command line gives no options.
#[derive(Clone, Copy, Debug, PartialEq, Eq, Structural)]
pub enum Refusal {
    /// The one argument asks for the manual.
    Help,
    /// There is no argument, the one argument does not ask for the manual, or
    /// an argument stands where a flag is due and is none.
    Usage,
    /// The last argument is a flag, and its value is missing.
    MissingValue,
}

/// The values given on the command line, one for each flag that was given.
/// Of a flag given more than once the last value counts.
#[derive(Debug)]
pub struct Options {
    /// The value of `-w`.
    pub wordlist: Option<String>,
    /// The value of `-u`.
    pub url: Option<String>,
    /// The value of `-ig`.
    pub ignore: Option<String>,
    /// The value of `-o`.
    pub output: Option<String>,
    /// The value of `-t`.
    pub threads: Option<String>,
    /// The value of `-x`.
    pub extensions: Option<String>,
}

/// The options as the contracts see them.
pub struct OptionValues {
    pub wordlist: Option<Seq<char>>,
    pub url: Option<Seq<char>>,
    pub ignore: Option<Seq<char>>,
    pub output: Option<Seq<char>>,
    pub threads: Option<Seq<char>>,
    pub extensions: Option<Seq<char>>,
}

/// The view of an optional string.
pub open spec fn value_of(text: Option<String>) -> Option<Seq<char>> {
    match text {
        Some(t) => Some(t@),
        None => None,
    }
}

impl View for Options {
    type V = OptionValues;

    open spec fn view(&self) -> OptionValues {
        OptionValues {
            wordlist: value_of(self.wordlist),
            url: value_of(self.url),
            ignore: value_of(self.ignore),
            output: value_of(self.output),
            threads: value_of(self.threads),
            extensions: value_of(self.extensions),
        }
    }
}

impl OptionValues {
    /// No flag was given.
    pub open spec fn none() -> OptionValues {
        OptionValues {
            wordlist: None,
            url: None,
            ignore: None,
            output: None,
            threads: None,
            extensions: None,
        }
    }

    /// The options with `value` for `flag`, in place of an earlier value.
    pub open spec fn with(self, flag: Flag, value: Seq<char>) -> OptionValues {
        match flag {
            Flag::Wordlist => OptionValues { wordlist: Some(value), ..self },
            Flag::Url => OptionValues { url: Some(value), ..self },
            Flag::Ignore => OptionValues { ignore: Some(value), ..self },
            Flag::Output => OptionValues { output: Some(value), ..self },
            Flag::Threads => OptionValues { threads: Some(value), ..self },
            Flag::Extensions => OptionValues { extensions: Some(value), ..self },
        }
    }
}

/// The flag that an argument names, in its short or its long form.
pub open spec fn flag_of(arg: Seq<char>) -> Option<Flag> {
    if arg == "-w"@ || arg == "--wordlist"@ {
        Some(Flag::Wordlist)
    } else if arg == "-u"@ || arg == "--url"@ {
        Some(Flag::Url)
    } else if arg == "-ig"@ || arg == "--ignore"@ {
        Some(Flag::Ignore)
    } else if arg == "-o"@ || arg == "--output"@ {
        Some(Flag::Output)
    } else if arg == "-t"@ || arg == "--threads"@ {
        Some(Flag::Threads)
    } else if arg == "-x"@ || arg == "--extensions"@ {
        Some(Flag::Extensions)
    } else {
        None
    }
}

/// What arguments that come in pairs, a flag and its value, add to the
/// options read so far.
pub open spec fn read_pairs(args: Seq<Seq<char>>, so_far: OptionValues) -> Result<
    OptionValues,
    Refusal,
>
    decreases args.len(),
{
    if args.len() == 0 {
        Ok(so_far)
    } else {
        match flag_of(args[0]) {
            None => Err(Refusal::Usage),
            Some(flag) => if args.len() == 1 {
                Err(Refusal::MissingValue)
            } else {
                read_pairs(args.skip(2), so_far.with(flag, args[1]))
            },
        }
    }
}

/// What a command line says. Without arguments it says nothing; a single
/// argument can only ask for the manual; two or more are flags with their
/// values.
pub open spec fn read_arguments(args: Seq<Seq<char>>) -> Result<OptionValues, Refusal> {
    if args.len() == 0 {
        Err(Refusal::Usage)
    } else if args.len() == 1 {
        if args[0] == "-h"@ || args[0] == "--help"@ {
            Err(Refusal::Help)
        } else {
            Err(Refusal::Usage)
        }
    } else {
        read_pairs(args, OptionValues::none())
    }
}

/// The flag that `arg` names, if it names one.
pub fn read_flag(arg: &str) -> (r: Option<Flag>)
    ensures
        r == flag_of(arg@),
{
    if str_eq(arg, "-w") || str_eq(arg, "--wordlist") {
        Some(Flag::Wordlist)
    } else if str_eq(arg, "-u") || str_eq(arg, "--url") {
        Some(Flag::Url)
    } else if str_eq(arg, "-ig") || str_eq(arg, "--ignore") {
        Some(Flag::Ignore)
    } else if str_eq(arg, "-o") || str_eq(arg, "--output") {
        Some(Flag::Output)
    } else if str_eq(arg, "-t") || str_eq(arg, "--threads") {
        Some(Flag::Threads)
    } else if str_eq(arg, "-x") || str_eq(arg, "--extensions") {
        Some(Flag::Extensions)
    } else {
        None
    }
}

impl Options {
    /// The options of a command line without flags.
    pub fn new() -> (r: Options)
        ensures
            r@ == OptionValues::none(),
    {
        Options {
            wordlist: None,
            url: None,
            ignore: None,
            output: None,
            threads: None,
            extensions: None,
        }
    }

    /// Gives `flag` the value `value`.
    pub fn set(&mut self, flag: Flag, value: String)
        ensures
            final(self)@ == old(self)@.with(flag, value@),
    {
        match flag {
            Flag::Wordlist => {
                self.wordlist = Some(value);
            },
            Flag::Url => {
                self.url = Some(value);
            },
            Flag::Ignore => {
                self.ignore = Some(value);
            },
            Flag::Output => {
                self.output = Some(value);
            },
            Flag::Threads => {
                self.threads = Some(value);
            },
            Flag::Extensions => {
                self.extensions = Some(value);
            },
        }
    }
}

/// Reads the command line, without the name of the program: the options that
/// it gives, or why it gives none.
pub fn process_arguments(cmd_args: &[String]) -> (r: Result<Options, Refusal>)
    ensures
        match read_arguments(views(cmd_args@)) {
            Ok(values) => r matches Ok(options) && options@ == values,
            Err(refusal) => r == Err::<Options, Refusal>(refusal),
        },
{
    let ghost args = views(cmd_args@);
    if cmd_args.len() == 0 {
        return Err(Refusal::Usage);
    }
    if cmd_args.len() == 1 {
        if str_eq(cmd_args[0].as_str(), "-h") || str_eq(cmd_args[0].as_str(), "--help") {
            return Err(Refusal::Help);
        }
        return Err(Refusal::Usage);
    }
    let mut options = Options::new();
    let mut i: usize = 0;
    proof {
        assert(args.skip(0) =~= args);
    }
    while i < cmd_args.len()
        invariant
            i <= cmd_args@.len(),
            args == views(cmd_args@),
            read_arguments(args) == read_pairs(args, OptionValues::none()),
            read_pairs(args.skip(i as int), options@) == read_pairs(args, OptionValues::none()),
        decreases cmd_args@.len() - i,
    {
        let ghost rest = args.skip(i as int);
        proof {
            assert(rest.len() == cmd_args@.len() - i);
            assert(rest[0] == cmd_args@[i as int]@);
        }
        match read_flag(cmd_args[i].as_str()) {
            None => {
                return Err(Refusal::Usage);
            },
            Some(flag) => {
                if cmd_args.len() - i == 1 {
                    return Err(Refusal::MissingValue);
                }
                proof {
                    assert(rest[1] == cmd_args@[i + 1]@);
                    assert(rest.skip(2) =~= args.skip(i + 2));
                }
                options.set(flag, cmd_args[i + 1].clone());
                i += 2;
            },
        }
    }
    Ok(options)
}

/// What a list of status codes says: each piece between commas read as a
/// number from 0 to 65535.
pub open spec fn code_of(piece: Seq<char>) -> Option<nat> {
    parse_unsigned(piece, u16::MAX as nat)
}

/// Reads a list of status codes separated by commas. One piece that is no
/// status code spoils the list.
pub fn parse_ignore(ignore_args: &str) -> (r: Option<Vec<u16>>)
    ensures
        r is Some <==> forall|i: int|
            0 <= i < split(ignore_args@, ',').len() ==> code_of(
                #[trigger] split(ignore_args@, ',')[i],
            ) is Some,
        r matches Some(codes) ==> codes@.len() == split(ignore_args@, ',').len() && forall|i: int|
            0 <= i < codes@.len() ==> code_of(split(ignore_args@, ',')[i]) == Some(
                (#[trigger] codes@[i]) as nat,
            ),
{
    let pieces = split_on(ignore_args, ',');
    let ghost texts = split(ignore_args@, ',');
    let mut codes: Vec<u16> = Vec::new();
    let mut i: usize = 0;
    while i < pieces.len()
        invariant
            i <= pieces@.len(),
            texts == views(pieces@),
            texts == split(ignore_args@, ','),
            codes@.len() == i,
            forall|k: int| 0 <= k < i ==> code_of(texts[k]) == Some((#[trigger] codes@[k]) as nat),
        decreases pieces@.len() - i,
    {
        proof {
            assert(texts[i as int] == pieces@[i as int]@);
        }
        match read_unsigned(pieces[i].as_str(), u16::MAX as u64) {
            None => {
                proof {
                    assert(code_of(texts[i as int]) is None);
                }
                return None;
            },
            Some(code) => {
                codes.push(code as u16);
            },
        }
        i += 1;
    }
    proof {
        assert forall|k: int| 0 <= k < texts.len() implies code_of(#[trigger] texts[k]) is Some by {
            assert(code_of(texts[k]) == Some(codes@[k] as nat));
        }
    }
    Some(codes)
}

/// Why an argument is no number of requests to run at once.
#[derive(Clone, Copy, Debug, PartialEq, Eq, Structural)]
pub enum ThreadCountError {
    /// The argument is no number.
    NotANumber,
    /// The number is above 14.
    TooHigh,
    /// The number is 0.
    TooLow,
}

/// The number of requests to run at once that an argument asks for: a number
/// from 1 to 14.
pub open spec fn thread_count_of(arg: Seq<char>) -> Result<usize, ThreadCountError> {
    match parse_unsigned(arg, usize::MAX as nat) {
        None => Err(ThreadCountError::NotANumber),
        Some(n) => if n > MAX_CONCURRENCY {
            Err(ThreadCountError::TooHigh)
        } else if n < MIN_CONCURRENCY {
            Err(ThreadCountError::TooLow)
        } else {
            Ok(n as usize)
        },
    }
}

/// Reads the number of requests to run at once.
pub fn parse_thread_count(arg: &str) -> (r: Result<usize, ThreadCountError>)
    ensures
        r == thread_count_of(arg@),
{
    match read_unsigned(arg, usize::MAX as u64) {
        None => Err(ThreadCountError::NotANumber),
        Some(n) => {
            if n > MAX_CONCURRENCY as u64 {
                Err(ThreadCountError::TooHigh)
            } else if n < MIN_CONCURRENCY as u64 {
                Err(ThreadCountError::TooLow)
            } else {
                Ok(n as usize)
            }
        },
    }
}

/// The number of requests to run at once under these options: what `-t`
/// asks for, and 10 where it was not given.
pub fn thread_count(options: &Options) -> (r: Result<usize, ThreadCountError>)
    ensures
        r == match options@.threads {
            Some(arg) => thread_count_of(arg),
            None => Ok::<usize, ThreadCountError>(DEFAULT_CONCURRENCY),
        },
{
    match &options.threads {
        Some(arg) => parse_thread_count(arg.as_str()),
        None => Ok(DEFAULT_CONCURRENCY),
    }
}

/// What is said of a number of requests that is out of range.
pub fn thread_count_message(error: ThreadCountError) -> (r: &'static str)
    ensures
        r@ == match error {
            ThreadCountError::NotANumber => "Error ocurred when attempting to get thread count"@,
            ThreadCountError::TooHigh => "Cannot specify a thread count higher than 14."@,
            ThreadCountError::TooLow => "The minimum number of threads needs to be in the range of 1 to 14 inclusive."@,
        },
{
    match error {
        ThreadCountError::NotANumber => "Error ocurred when attempting to get thread count",
        ThreadCountError::TooHigh => "Cannot specify a thread count higher than 14.",
        ThreadCountError::TooLow => "The minimum number of threads needs to be in the range of 1 to 14 inclusive.",
    }
}

} // verus!
