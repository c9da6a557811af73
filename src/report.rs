//! What a scan reports for one inspected process.

use vstd::prelude::*;
use vstd::string::StringExecFns;

use crate::error::InspectError;
use crate::cmdline::cmdline_outcome;
use crate::inspect::{entries_outcome, inspection, matching, process_result_view, Process};
use crate::segments::segments;

verus! {

/// The quoted, escaped form of `s` that `Debug` gives a string.
pub uninterp spec fn debug_quoted(s: Seq<char>) -> Seq<char>;

/// Relies on the `Debug` impl of `str` (through `format!("{:?}")`): the
/// value in double quotes, with control and special characters escaped.
#[verifier::external_body]
fn quote(s: &str) -> (r: String)
    ensures
        r@ == debug_quoted(s@),
{
    format!("{:?}", s)
}

/// What the scan does after inspecting one process.
#[derive(Debug)]
pub enum ScanStep {
    /// Write these lines to standard output, as one uninterrupted record.
    Report(Vec<String>),
    /// Write this one line to the error stream.
    Diagnose(String),
    /// Write nothing.
    Skip,
}

/// The first line of a record: the pseudo-file's path and the command line.
pub open spec fn header_line(path: Seq<char>, cmdline: Seq<char>) -> Seq<char> {
    path + " ("@ + cmdline + "):"@
}

/// The line of one matched variable, its value quoted.
pub open spec fn variable_line(entry: (Seq<char>, Seq<char>)) -> Seq<char> {
    entry.0 + " = "@ + debug_quoted(entry.1)
}

/// The lines of the record of a process: the header, one line per matched
/// variable in order, and a blank separator line.
pub open spec fn record_lines(
    path: Seq<char>,
    process: (Seq<char>, Seq<(Seq<char>, Seq<char>)>),
) -> Seq<Seq<char>> {
    seq![header_line(path, process.0)] + process.1.map_values(
        |e: (Seq<char>, Seq<char>)| variable_line(e),
    ) + seq![Seq::<char>::empty()]
}

/// The diagnostic line of a failed inspection.
pub open spec fn diagnostic_line(path: Seq<char>, error: InspectError) -> Seq<char> {
    "Error reading "@ + path + " - "@ + error.description()
}

/// The lines of `lines` as text.
pub open spec fn lines_view(lines: Vec<String>) -> Seq<Seq<char>> {
    lines@.map_values(|l: String| l@)
}

/// What a step of the scan writes: the lines for standard output, and those
/// for the error stream.
pub open spec fn step_output(step: ScanStep) -> (Seq<Seq<char>>, Seq<Seq<char>>) {
    match step {
        ScanStep::Report(lines) => (lines_view(lines), Seq::empty()),
        ScanStep::Diagnose(line) => (Seq::empty(), seq![line@]),
        ScanStep::Skip => (Seq::empty(), Seq::empty()),
    }
}

/// What the scan writes for the process at `path`, given the outcome of its
/// inspection: a record when some variable matched, one diagnostic line for
/// a failure in verbose mode, and nothing otherwise.
pub open spec fn expected_output(
    path: Seq<char>,
    outcome: Result<(Seq<char>, Seq<(Seq<char>, Seq<char>)>), InspectError>,
    verbose: bool,
) -> (Seq<Seq<char>>, Seq<Seq<char>>) {
    match outcome {
        Ok(process) => if process.1.len() == 0 {
            (Seq::empty(), Seq::empty())
        } else {
            (record_lines(path, process), Seq::empty())
        },
        Err(e) => if verbose {
            (Seq::empty(), seq![diagnostic_line(path, e)])
        } else {
            (Seq::empty(), Seq::empty())
        },
    }
}

/// Decoding succeeds with one entry per segment, or not at all.
proof fn lemma_entries_len(segs: Seq<Seq<u8>>)
    ensures
        entries_outcome(segs) matches Ok(entries) ==> entries.len() == segs.len(),
    decreases segs.len(),
{
    if segs.len() > 0 {
        lemma_entries_len(segs.drop_last());
    }
}

/// A process none of whose environment segments matches writes nothing at
/// all, neither a record nor a diagnostic, once its command line is read;
/// and a successfully inspected process writes to standard output exactly
/// when some segment matched.
pub proof fn lemma_no_match_writes_nothing(
    path: Seq<char>,
    cmdline_blob: Seq<u8>,
    environ_blob: Seq<u8>,
    pattern: Seq<char>,
    case_insensitive: bool,
    verbose: bool,
)
    ensures
        ({
            let outcome = inspection(cmdline_blob, environ_blob, pattern, case_insensitive);
            let kept = matching(segments(environ_blob), pattern, case_insensitive);
            &&& (cmdline_outcome(cmdline_blob) is Ok && kept.len() == 0) ==> outcome
                == Ok::<_, InspectError>((
                cmdline_outcome(cmdline_blob)->Ok_0,
                Seq::<(Seq<char>, Seq<char>)>::empty(),
            ))
                && expected_output(path, outcome, verbose) == (
                Seq::<Seq<char>>::empty(),
                Seq::<Seq<char>>::empty(),
            )
            &&& outcome is Ok ==> (expected_output(path, outcome, verbose).0.len() == 0 <==> kept.len()
                == 0)
        }),
{
    let kept = matching(segments(environ_blob), pattern, case_insensitive);
    lemma_entries_len(kept);
    if kept.len() == 0 {
        assert(entries_outcome(kept) == Ok::<_, InspectError>(Seq::<(Seq<char>, Seq<char>)>::empty()));
    }
}

/// An inspection that fails, for whatever reason (the pseudo-file vanished,
/// access was denied, the content is malformed), writes nothing to standard
/// output and, in verbose mode only, exactly one line on the error stream
/// that names the path; the scan then goes on.
pub proof fn lemma_failure_writes_one_line(path: Seq<char>, error: InspectError, verbose: bool)
    ensures
        expected_output(path, Err(error), verbose).0.len() == 0,
        expected_output(path, Err(error), verbose).1 == if verbose {
            seq![diagnostic_line(path, error)]
        } else {
            Seq::empty()
        },
        diagnostic_line(path, error).subrange(
            "Error reading "@.len() as int,
            ("Error reading "@.len() + path.len()) as int,
        ) == path,
{
    let prefix = "Error reading "@;
    let line = diagnostic_line(path, error);
    assert(line.subrange(prefix.len() as int, (prefix.len() + path.len()) as int) =~= path);
}

/// Decides what the scan writes for the process whose environment
/// pseudo-file is at `path`, given the outcome of its inspection: a record
/// only when some variable matched, one diagnostic line for a failure in
/// verbose mode, and nothing otherwise. The scan goes on in every case.
pub fn scan_step(path: &str, outcome: &Result<Process, InspectError>, verbose: bool) -> (r:
    ScanStep)
    ensures
        step_output(r) == expected_output(path@, process_result_view(*outcome), verbose),
        match outcome {
            Ok(p) => if p.variables@.len() == 0 {
                r is Skip
            } else {
                r matches ScanStep::Report(lines) && lines_view(lines) == record_lines(path@, p@)
            },
            Err(e) => if verbose {
                r matches ScanStep::Diagnose(line) && line@ == diagnostic_line(path@, *e)
            } else {
                r is Skip
            },
        },
{
    match outcome {
        Ok(p) => {
            if p.variables.len() == 0 {
                return ScanStep::Skip;
            }
            let mut lines: Vec<String> = Vec::new();
            let mut header = String::new();
            header.append(path);
            header.append(" (");
            header.append(p.cmdline.as_str());
            header.append("):");
            lines.push(header);
            let ghost entries = p@.1;
            let ghost head = seq![header_line(path@, p@.0)];
            proof {
                assert(lines_view(lines) =~= head);
            }
            let mut i: usize = 0;
            while i < p.variables.len()
                invariant
                    0 <= i <= p.variables@.len(),
                    entries == p@.1,
                    lines_view(lines) == head + entries.take(i as int).map_values(
                        |e: (Seq<char>, Seq<char>)| variable_line(e),
                    ),
                decreases p.variables.len() - i,
            {
                let var = &p.variables[i];
                let mut line = String::new();
                line.append(var.key.as_str());
                line.append(" = ");
                let quoted = quote(var.value.as_str());
                line.append(quoted.as_str());
                let ghost before = lines_view(lines);
                lines.push(line);
                proof {
                    assert(entries[i as int] == var@);
                    assert(lines_view(lines) =~= before.push(variable_line(var@)));
                    assert(entries.take(i + 1).map_values(
                        |e: (Seq<char>, Seq<char>)| variable_line(e),
                    ) =~= entries.take(i as int).map_values(
                        |e: (Seq<char>, Seq<char>)| variable_line(e),
                    ).push(variable_line(var@)));
                }
                i = i + 1;
            }
            let ghost before = lines_view(lines);
            lines.push(String::new());
            proof {
                assert(entries.take(i as int) =~= entries);
                assert(lines_view(lines) =~= before.push(Seq::<char>::empty()));
                assert(lines_view(lines) =~= record_lines(path@, p@));
            }
            ScanStep::Report(lines)
        },
        Err(e) => {
            if !verbose {
                return ScanStep::Skip;
            }
            let mut line = String::new();
            line.append("Error reading ");
            line.append(path);
            line.append(" - ");
            let why = e.message();
            line.append(why.as_str());
            ScanStep::Diagnose(line)
        },
    }
}

} // verus!
