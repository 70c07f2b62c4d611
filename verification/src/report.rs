//! The report of a scan: the lines shown on the terminal and written to the
//! output file, the band that a status code falls in, and what is said of an
//! attempt to write the file.

use crate::found::{entry_views, report_ordered, same_entries, Entry};
use crate::scanner::Scanner;
use crate::text::{decimal, views, write_decimal};
use vstd::prelude::*;
use vstd::string::*;

verus! {

/// The kinds of status code that the terminal report tells apart.
#[derive(Clone, Copy, Debug, PartialEq, Eq, Structural)]
pub enum StatusBand {
    /// The page was found: 200.
    Found,
    /// A redirect: 300 to 399.
    Redirect,
    /// An error of the client or the server: 400 to 599.
    Failure,
    /// Any other status code.
    Unusual,
}

/// The band of a status code.
pub open spec fn band_of(status: u16) -> StatusBand {
    if status == 200 {
        StatusBand::Found
    } else if 300 <= status <= 399 {
        StatusBand::Redirect
    } else if 400 <= status <= 599 {
        StatusBand::Failure
    } else {
        StatusBand::Unusual
    }
}

/// The line for one result on the terminal.
pub open spec fn shown_text(entry: Entry) -> Seq<char> {
    "/"@ + entry.0 + " --> Status: "@ + decimal(entry.1 as nat)
}

/// The line for one result in the output file, with its line end.
pub open spec fn written_text(entry: Entry) -> Seq<char> {
    "/"@ + entry.0 + " -> Status: "@ + decimal(entry.1 as nat) + "\n"@
}

/// The texts one behind another, with `sep` between each two.
pub open spec fn joined(texts: Seq<Seq<char>>, sep: Seq<char>) -> Seq<char>
    decreases texts.len(),
{
    if texts.len() == 0 {
        Seq::<char>::empty()
    } else if texts.len() == 1 {
        texts[0]
    } else {
        joined(texts.drop_last(), sep) + sep + texts.last()
    }
}

/// The status codes in decimal notation, in order.
pub open spec fn code_texts(codes: Seq<u16>) -> Seq<Seq<char>> {
    Seq::new(codes.len(), |i: int| decimal(codes[i] as nat))
}

/// The line that names the ignored status codes: the codes in the order of
/// the list, between square brackets, with a comma and a blank between each
/// two.
pub open spec fn ignore_text(codes: Seq<u16>) -> Seq<char> {
    "Ignoring ["@ + joined(code_texts(codes), ", "@) + "]"@
}

/// The lines above the results on the terminal.
pub open spec fn header_texts(site: Seq<char>, codes: Seq<u16>) -> Seq<Seq<char>> {
    seq![
        "---------------------------------------------------------"@,
        "Scan Results"@,
        "Site: "@ + site,
        "Method: GET"@,
        ignore_text(codes),
        "---------------------------------------------------------"@,
    ]
}

/// One line of a report with the result that it is about.
#[derive(Debug)]
pub struct ReportLine {
    /// The page of the result.
    pub page: String,
    /// The status code of the result.
    pub status: u16,
    /// The band of the status code.
    pub band: StatusBand,
    /// The text of the line.
    pub text: String,
}

/// The results that the lines of a report are about, in order.
pub open spec fn reported(lines: Seq<ReportLine>) -> Seq<Entry> {
    Seq::new(lines.len(), |i: int| (lines[i].page@, lines[i].status))
}

/// How an attempt to write the results to a file ended.
#[derive(Clone, Copy, Debug, PartialEq, Eq, Structural)]
pub enum WriteOutcome {
    /// The file was there and every line was added at its end.
    Appended,
    /// The file was made and every line was written.
    Created,
    /// The file was there or was made, and a line could not be written.
    WriteFailed,
    /// The file was not there and could not be made.
    CreateFailed,
}

/// What is said of an attempt to write the results to the file at `path`.
pub open spec fn write_message(path: Seq<char>, outcome: WriteOutcome) -> Result<
    Seq<char>,
    Seq<char>,
> {
    match outcome {
        WriteOutcome::Appended => Ok("Successfully wrote results to "@ + path),
        WriteOutcome::Created => Ok("Successfully created and wrote results to "@ + path),
        WriteOutcome::WriteFailed => Err("Couldn't write results to "@ + path),
        WriteOutcome::CreateFailed => Err(
            "Could not create output file at provided path. Please check your file path."@,
        ),
    }
}

/// The band of a status code.
pub fn status_band(status: u16) -> (r: StatusBand)
    ensures
        r == band_of(status),
{
    if status == 200 {
        StatusBand::Found
    } else if status >= 300 && status <= 399 {
        StatusBand::Redirect
    } else if status >= 400 && status <= 599 {
        StatusBand::Failure
    } else {
        StatusBand::Unusual
    }
}

/// The line for one result on the terminal: the page behind a slash, an
/// arrow, and the status code.
pub fn shown_line(page: &str, status: u16) -> (r: String)
    ensures
        r@ == shown_text((page@, status)),
{
    let mut line = "/".to_owned();
    line.append(page);
    line.append(" --> Status: ");
    line.append(write_decimal(status as u64).as_str());
    line
}

/// The line for one result in the output file: the page behind a slash, an
/// arrow, the status code, and the line end.
pub fn written_line(page: &str, status: u16) -> (r: String)
    ensures
        r@ == written_text((page@, status)),
{
    let mut line = "/".to_owned();
    line.append(page);
    line.append(" -> Status: ");
    line.append(write_decimal(status as u64).as_str());
    line.append("\n");
    line
}

/// What is said of an attempt to write the results to the file at `path`:
/// the success, or the error to report.
pub fn write_results_message(path: &str, outcome: WriteOutcome) -> (r: Result<String, String>)
    ensures
        match write_message(path@, outcome) {
            Ok(text) => r matches Ok(msg) && msg@ == text,
            Err(text) => r matches Err(msg) && msg@ == text,
        },
{
    match outcome {
        WriteOutcome::Appended => {
            let mut msg = "Successfully wrote results to ".to_owned();
            msg.append(path);
            Ok(msg)
        },
        WriteOutcome::Created => {
            let mut msg = "Successfully created and wrote results to ".to_owned();
            msg.append(path);
            Ok(msg)
        },
        WriteOutcome::WriteFailed => {
            let mut msg = "Couldn't write results to ".to_owned();
            msg.append(path);
            Err(msg)
        },
        WriteOutcome::CreateFailed => Err(
            "Could not create output file at provided path. Please check your file path.".to_owned(),
        ),
    }
}

impl Scanner {
    /// The line that names the ignored status codes.
    pub fn ignore_line(&self) -> (r: String)
        ensures
            r@ == ignore_text(self.status_code_ignore_list@),
    {
        let codes = &self.status_code_ignore_list;
        let ghost texts = code_texts(codes@);
        let mut line = "Ignoring [".to_owned();
        let mut i: usize = 0;
        proof {
            assert(texts.take(0) =~= Seq::<Seq<char>>::empty());
            assert(line@ =~= "Ignoring ["@ + joined(texts.take(0), ", "@));
        }
        while i < codes.len()
            invariant
                i <= codes@.len(),
                texts == code_texts(codes@),
                line@ == "Ignoring ["@ + joined(texts.take(i as int), ", "@),
            decreases codes@.len() - i,
        {
            proof {
                assert(texts.take(i + 1).drop_last() =~= texts.take(i as int));
                assert(texts.take(i + 1).last() == decimal(codes@[i as int] as nat));
                if i == 0 {
                    assert(joined(texts.take(0), ", "@) =~= Seq::<char>::empty());
                }
            }
            if i > 0 {
                line.append(", ");
            }
            line.append(write_decimal(codes[i] as u64).as_str());
            proof {
                assert(line@ =~= "Ignoring ["@ + joined(texts.take(i + 1), ", "@));
            }
            i += 1;
        }
        proof {
            assert(texts.take(i as int) == texts);
        }
        line.append("]");
        line
    }

    /// The lines above the results on the terminal: the title, the site, the
    /// method and the ignored status codes, between two rules.
    pub fn header_lines(&self) -> (r: Vec<String>)
        ensures
            views(r@) == header_texts((*self.site)@, self.status_code_ignore_list@),
    {
        let mut site = "Site: ".to_owned();
        site.append(self.site.as_str());
        let mut lines: Vec<String> = Vec::new();
        lines.push("---------------------------------------------------------".to_owned());
        lines.push("Scan Results".to_owned());
        lines.push(site);
        lines.push("Method: GET".to_owned());
        lines.push(self.ignore_line());
        lines.push("---------------------------------------------------------".to_owned());
        proof {
            assert(views(lines@) =~= header_texts(
                (*self.site)@,
                self.status_code_ignore_list@,
            ));
        }
        lines
    }

    /// The report for the terminal: one line for each stored result, in
    /// report order, with the band of its status code.
    pub fn display_lines(&self) -> (r: Vec<ReportLine>)
        ensures
            report_ordered(reported(r@)),
            same_entries(self.found.ordered(), reported(r@)),
            forall|i: int|
                0 <= i < r@.len() ==> {
                    &&& (#[trigger] r@[i]).text@ == shown_text(reported(r@)[i])
                    &&& r@[i].band == band_of(r@[i].status)
                    &&& self.found@.contains_pair(r@[i].page@, r@[i].status)
                },
    {
        let sorted = self.sorted_results();
        let mut out: Vec<ReportLine> = Vec::new();
        let mut i: usize = 0;
        while i < sorted.len()
            invariant
                i <= sorted@.len(),
                out@.len() == i,
                reported(out@) =~= entry_views(sorted@).take(i as int),
                forall|k: int|
                    0 <= k < sorted@.len() ==> self.found@.contains_pair(
                        (#[trigger] sorted@[k]).0@,
                        sorted@[k].1,
                    ),
                forall|k: int|
                    0 <= k < i ==> {
                        &&& (#[trigger] out@[k]).text@ == shown_text(reported(out@)[k])
                        &&& out@[k].band == band_of(out@[k].status)
                        &&& self.found@.contains_pair(out@[k].page@, out@[k].status)
                    },
            decreases sorted@.len() - i,
        {
            let status = sorted[i].1;
            let text = shown_line(sorted[i].0.as_str(), status);
            let page = sorted[i].0.clone();
            let ghost held = out@;
            out.push(ReportLine { page, status, band: status_band(status), text });
            proof {
                assert(forall|k: int| 0 <= k < i ==> out@[k] == held[k]);
                assert(reported(out@) =~= reported(held).push((page@, status)));
            }
            i += 1;
        }
        proof {
            assert(entry_views(sorted@).take(i as int) == entry_views(sorted@));
        }
        out
    }

    /// The report for the output file: one line for each stored result, in
    /// report order, each with its line end.
    pub fn file_lines(&self) -> (r: Vec<ReportLine>)
        ensures
            report_ordered(reported(r@)),
            same_entries(self.found.ordered(), reported(r@)),
            forall|i: int|
                0 <= i < r@.len() ==> {
                    &&& (#[trigger] r@[i]).text@ == written_text(reported(r@)[i])
                    &&& r@[i].band == band_of(r@[i].status)
                    &&& self.found@.contains_pair(r@[i].page@, r@[i].status)
                },
    {
        let sorted = self.sorted_results();
        let mut out: Vec<ReportLine> = Vec::new();
        let mut i: usize = 0;
        while i < sorted.len()
            invariant
                i <= sorted@.len(),
                out@.len() == i,
                reported(out@) =~= entry_views(sorted@).take(i as int),
                forall|k: int|
                    0 <= k < sorted@.len() ==> self.found@.contains_pair(
                        (#[trigger] sorted@[k]).0@,
                        sorted@[k].1,
                    ),
                forall|k: int|
                    0 <= k < i ==> {
                        &&& (#[trigger] out@[k]).text@ == written_text(reported(out@)[k])
                        &&& out@[k].band == band_of(out@[k].status)
                        &&& self.found@.contains_pair(out@[k].page@, out@[k].status)
                    },
            decreases sorted@.len() - i,
        {
            let status = sorted[i].1;
            let text = written_line(sorted[i].0.as_str(), status);
            let page = sorted[i].0.clone();
            let ghost held = out@;
            out.push(ReportLine { page, status, band: status_band(status), text });
            proof {
                assert(forall|k: int| 0 <= k < i ==> out@[k] == held[k]);
                assert(reported(out@) =~= reported(held).push((page@, status)));
            }
            i += 1;
        }
        proof {
            assert(entry_views(sorted@).take(i as int) == entry_views(sorted@));
        }
        out
    }
}

} // verus!
