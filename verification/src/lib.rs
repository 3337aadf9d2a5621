//! A library for inventories of items kept as JSON files: searching them by
//! keywords, merging each directory's files into one sorted list, checking
//! files against the inventory schema, and taking in new items.
//!
//! The file system is read and written by the program around the library;
//! the library decides what is searched, merged, reported and answered.
pub mod consolidate;
pub mod json_schema;
pub mod mcp;
pub mod search;
pub mod sorting;
pub mod text;
pub mod validator;

use vstd::prelude::*;
use crate::consolidate::{ConsolidationResult, DirectoryResult, lemma_failures_are_errors};
use crate::search::{SearchResult, report_lines, search_report_lines};
use crate::text::{concat, decimal, decimal_string, views};

verus! {

/// The commands of the command-line tool.
pub enum Commands {
    /// Validate every JSON file in the immediate subdirectories of a directory.
    Validate { directory: String },
    /// Search the JSON files under a directory for items matching every keyword.
    Search {
        directory: String,
        keywords: Vec<String>,
        name: bool,
        description: bool,
        categories: bool,
        notes: bool,
        all: bool,
    },
    /// Merge the JSON files of each immediate subdirectory into its `all.json`.
    Consolidate { directory: String },
}

/// What carrying out a command on the file system gave.
pub enum CommandOutcome {
    /// Validation ran: whether some file failed; or why the directory could not be walked.
    Validated(Result<bool, String>),
    /// The search results; or why the directory could not be searched.
    Searched(Result<Vec<SearchResult>, String>),
    /// The consolidation tally; or why the directory could not be consolidated.
    Consolidated(Result<ConsolidationResult, String>),
}

/// What a command prints and the status it exits with.
#[derive(Debug)]
pub struct CommandResult {
    pub stdout: Vec<String>,
    pub stderr: Vec<String>,
    pub exit_code: i32,
}

/// The lines naming each failed directory and its error, in order.
pub open spec fn error_lines(dirs: Seq<DirectoryResult>) -> Seq<Seq<char>>
    decreases dirs.len(),
{
    if dirs.len() == 0 {
        Seq::empty()
    } else {
        error_lines(dirs.drop_last()) + match dirs.last().error {
            Some(e) => seq!["  "@ + dirs.last().path@ + ": "@ + e@],
            None => Seq::<Seq<char>>::empty(),
        }
    }
}

/// The summary of a consolidation: the three counters, then, when some
/// directory failed, an empty line, `Errors:` and the failed directories.
pub open spec fn consolidation_lines(r: ConsolidationResult) -> Seq<Seq<char>> {
    seq![
        "Consolidation complete:"@,
        "  Successful directories: "@ + decimal(r.successful_dirs as nat),
        "  Failed directories: "@ + decimal(r.failed_dirs as nat),
        "  Total items consolidated: "@ + decimal(r.total_items_consolidated as nat),
    ] + if r.failed_dirs > 0 {
        seq![""@, "Errors:"@] + error_lines(r.directories_processed@)
    } else {
        Seq::<Seq<char>>::empty()
    }
}

/// `res` is what the command-line tool prints and returns for `outcome`.
pub open spec fn reports(outcome: CommandOutcome, res: CommandResult) -> bool {
    match outcome {
        CommandOutcome::Validated(Ok(has_errors)) => {
            &&& res.stdout@.len() == 0
            &&& res.stderr@.len() == 0
            &&& res.exit_code == if has_errors {
                1i32
            } else {
                0i32
            }
        },
        CommandOutcome::Validated(Err(e)) | CommandOutcome::Consolidated(Err(e)) => {
            &&& res.stdout@.len() == 0
            &&& views(res.stderr@) == seq!["Error: "@ + e@]
            &&& res.exit_code == 1
        },
        CommandOutcome::Searched(Ok(results)) => {
            &&& views(res.stdout@) == report_lines(results@)
            &&& res.stderr@.len() == 0
            &&& res.exit_code == 0
        },
        CommandOutcome::Searched(Err(e)) => {
            &&& res.stdout@.len() == 0
            &&& views(res.stderr@) == seq!["Error searching: "@ + e@]
            &&& res.exit_code == 1
        },
        CommandOutcome::Consolidated(Ok(r)) => {
            &&& views(res.stdout@) == consolidation_lines(r)
            &&& res.stderr@.len() == 0
            &&& res.exit_code == if r.failed_dirs > 0 {
                1i32
            } else {
                0i32
            }
        },
    }
}

/// The lines of one failed directory, appended.
fn push_error_lines(lines: &mut Vec<String>, dirs: &Vec<DirectoryResult>)
    ensures
        views(final(lines)@) == views(old(lines)@) + error_lines(dirs@),
{
    let ghost start = views(lines@);
    let n = dirs.len();
    let mut i: usize = 0;
    proof {
        assert(dirs@.take(0) =~= Seq::<DirectoryResult>::empty());
        assert(views(lines@) =~= start + error_lines(dirs@.take(0)));
    }
    while i < n
        invariant
            n == dirs@.len(),
            i <= n,
            views(lines@) == start + error_lines(dirs@.take(i as int)),
        decreases n - i,
    {
        let ghost before = views(lines@);
        let d = &dirs[i];
        match &d.error {
            Some(e) => {
                let head = concat("  ", d.path.as_str());
                let head = concat(head.as_str(), ": ");
                lines.push(concat(head.as_str(), e.as_str()));
            },
            None => {},
        }
        proof {
            assert(dirs@.take(i + 1).drop_last() =~= dirs@.take(i as int));
            assert(views(lines@) =~= before + match dirs@[i as int].error {
                Some(e) => seq!["  "@ + dirs@[i as int].path@ + ": "@ + e@],
                None => Seq::<Seq<char>>::empty(),
            });
        }
        i += 1;
    }
    proof {
        assert(dirs@.take(n as int) =~= dirs@);
    }
}

/// The summary lines of a consolidation.
fn consolidation_report(r: &ConsolidationResult) -> (lines: Vec<String>)
    ensures
        views(lines@) == consolidation_lines(*r),
{
    let mut lines: Vec<String> = Vec::new();
    lines.push(String::from_str("Consolidation complete:"));
    let s = decimal_string(r.successful_dirs);
    lines.push(concat("  Successful directories: ", s.as_str()));
    let f = decimal_string(r.failed_dirs);
    lines.push(concat("  Failed directories: ", f.as_str()));
    let t = decimal_string(r.total_items_consolidated);
    lines.push(concat("  Total items consolidated: ", t.as_str()));
    let ghost head = views(lines@);
    if r.failed_dirs > 0 {
        lines.push(String::from_str(""));
        lines.push(String::from_str("Errors:"));
        proof {
            assert(views(lines@) =~= head + seq![""@, "Errors:"@]);
        }
        push_error_lines(&mut lines, &r.directories_processed);
    }
    proof {
        assert(views(lines@) =~= consolidation_lines(*r));
    }
    lines
}

/// One line as a list.
fn single_line(line: String) -> (lines: Vec<String>)
    ensures
        views(lines@) == seq![line@],
{
    let mut lines: Vec<String> = Vec::new();
    lines.push(line);
    proof {
        assert(views(lines@) =~= seq![line@]);
    }
    lines
}

/// What the command-line tool prints and returns once a command has been
/// carried out: nothing but the status for a validation (whose failures
/// are printed as they are found), the search report, or the consolidation
/// summary; an error line and status 1 when the directory could not be
/// used.
pub fn run_command(outcome: CommandOutcome) -> (res: CommandResult)
    ensures
        reports(outcome, res),
{
    match outcome {
        CommandOutcome::Validated(Ok(has_errors)) => CommandResult {
            stdout: Vec::new(),
            stderr: Vec::new(),
            exit_code: if has_errors {
                1
            } else {
                0
            },
        },
        CommandOutcome::Validated(Err(e)) => CommandResult {
            stdout: Vec::new(),
            stderr: single_line(concat("Error: ", e.as_str())),
            exit_code: 1,
        },
        CommandOutcome::Searched(Ok(results)) => CommandResult {
            stdout: search_report_lines(&results),
            stderr: Vec::new(),
            exit_code: 0,
        },
        CommandOutcome::Searched(Err(e)) => CommandResult {
            stdout: Vec::new(),
            stderr: single_line(concat("Error searching: ", e.as_str())),
            exit_code: 1,
        },
        CommandOutcome::Consolidated(Ok(r)) => {
            let failed = r.failed_dirs > 0;
            CommandResult {
                stdout: consolidation_report(&r),
                stderr: Vec::new(),
                exit_code: if failed {
                    1
                } else {
                    0
                },
            }
        },
        CommandOutcome::Consolidated(Err(e)) => CommandResult {
            stdout: Vec::new(),
            stderr: single_line(concat("Error: ", e.as_str())),
            exit_code: 1,
        },
    }
}

/// The error lines name every failed directory with its error, and hold
/// nothing for a directory that succeeded.
pub proof fn lemma_error_lines_name_each_failure(dirs: Seq<DirectoryResult>, i: int)
    ensures
        0 <= i < dirs.len() ==> (dirs[i].error matches Some(e) ==> error_lines(dirs).contains(
            "  "@ + dirs[i].path@ + ": "@ + e@,
        )),
        (forall|j: int| 0 <= j < dirs.len() ==> (#[trigger] dirs[j]).error is None) ==> error_lines(
            dirs,
        ).len() == 0,
    decreases dirs.len(),
{
    if dirs.len() > 0 {
        let rest = dirs.drop_last();
        let n = dirs.len() - 1;
        lemma_error_lines_name_each_failure(rest, i);
        if forall|j: int| 0 <= j < dirs.len() ==> (#[trigger] dirs[j]).error is None {
            assert(dirs[n].error is None);
            assert forall|j: int| 0 <= j < rest.len() implies (#[trigger] rest[j]).error is None by {
                assert(rest[j] == dirs[j]);
            }
        }
        if 0 <= i < n {
            assert(rest[i] == dirs[i]);
            if dirs[i].error is Some {
                let line = "  "@ + dirs[i].path@ + ": "@ + dirs[i].error.unwrap()@;
                let k = choose|k: int| 0 <= k < error_lines(rest).len() && error_lines(rest)[k] == line;
                assert(error_lines(dirs)[k] == line);
            }
        } else if i == n {
            if dirs[i].error is Some {
                assert(error_lines(dirs)[error_lines(dirs).len() - 1] == "  "@ + dirs[i].path@ + ": "@
                    + dirs[i].error.unwrap()@);
            }
        }
    }
}

/// A consolidation summary starts with the three counters, and lists the
/// failed directories with their errors after an `Errors:` line exactly
/// when some directory failed.
pub proof fn lemma_consolidation_summary(r: ConsolidationResult, i: int)
    ensures
        consolidation_lines(r)[0] == "Consolidation complete:"@,
        consolidation_lines(r)[1] == "  Successful directories: "@ + decimal(r.successful_dirs as nat),
        consolidation_lines(r)[2] == "  Failed directories: "@ + decimal(r.failed_dirs as nat),
        consolidation_lines(r)[3] == "  Total items consolidated: "@ + decimal(
            r.total_items_consolidated as nat,
        ),
        r.failed_dirs == 0 ==> consolidation_lines(r).len() == 4,
        r.failed_dirs > 0 ==> consolidation_lines(r)[5] == "Errors:"@,
        r.failed_dirs > 0 && 0 <= i < r.directories_processed@.len() ==> (
        r.directories_processed@[i].error matches Some(e) ==> consolidation_lines(r).contains(
            "  "@ + r.directories_processed@[i].path@ + ": "@ + e@,
        )),
{
    lemma_error_lines_name_each_failure(r.directories_processed@, i);
    let dirs = r.directories_processed@;
    if r.failed_dirs > 0 && 0 <= i < dirs.len() && dirs[i].error is Some {
        let line = "  "@ + dirs[i].path@ + ": "@ + dirs[i].error.unwrap()@;
        let k = choose|k: int| 0 <= k < error_lines(dirs).len() && error_lines(dirs)[k] == line;
        assert(consolidation_lines(r)[6 + k] == line);
    }
}

/// A command ends with status 0 or 1: with 0 exactly when the directory
/// could be used and nothing failed in it (no file failed validation, or
/// no directory failed consolidation; a search that ran always succeeds).
/// When the directory could not be used, nothing goes to standard output
/// and one line to standard error.
pub proof fn lemma_command_status(outcome: CommandOutcome, res: CommandResult)
    requires
        reports(outcome, res),
    ensures
        res.exit_code == 0 || res.exit_code == 1,
        res.exit_code == 0 <==> match outcome {
            CommandOutcome::Validated(Ok(has_errors)) => !has_errors,
            CommandOutcome::Searched(Ok(_)) => true,
            CommandOutcome::Consolidated(Ok(r)) => r.failed_dirs == 0,
            _ => false,
        },
        (outcome matches CommandOutcome::Validated(Err(_)) || outcome matches CommandOutcome::Searched(
            Err(_),
        ) || outcome matches CommandOutcome::Consolidated(Err(_))) ==> res.stdout@.len() == 0
            && res.stderr@.len() == 1,
{
    match outcome {
        CommandOutcome::Validated(Err(_)) | CommandOutcome::Searched(Err(_))
        | CommandOutcome::Consolidated(Err(_)) => {
            assert(views(res.stderr@).len() == res.stderr@.len());
        },
        _ => {},
    }
}

/// A consolidation that was carried out ends with status 1 exactly when
/// some directory failed, when its tally is consistent.
pub proof fn lemma_consolidation_status(r: ConsolidationResult, res: CommandResult)
    requires
        r.wf(),
        reports(CommandOutcome::Consolidated(Ok(r)), res),
    ensures
        res.exit_code == 1 <==> exists|i: int|
            0 <= i < r.directories_processed@.len()
                && (#[trigger] r.directories_processed@[i]).error is Some,
        res.exit_code == 0 || res.exit_code == 1,
{
    lemma_failures_are_errors(r);
}

} // verus!
