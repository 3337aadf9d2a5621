//! Consolidation: every immediate subdirectory's JSON files (other than an
//! existing `all.json`) are merged into one list of items, sorted by name,
//! and the outcome of each directory is tallied.
use vstd::prelude::*;
use crate::search::Item;
use crate::sorting::{is_stable_sort_by_name, sort_by_name};
use crate::text::{chars_of, concat};

verus! {

/// What became of one directory.
#[derive(Debug)]
pub struct DirectoryResult {
    pub path: String,
    /// Items written to the directory's `all.json` (0 when it failed).
    pub items_count: usize,
    /// Why the directory failed, when it did.
    pub error: Option<String>,
}

/// The tally of a consolidation run.
#[derive(Debug)]
pub struct ConsolidationResult {
    pub successful_dirs: usize,
    pub failed_dirs: usize,
    pub total_items_consolidated: usize,
    pub directories_processed: Vec<DirectoryResult>,
}

/// How many of the directories succeeded.
pub open spec fn succeeded(dirs: Seq<DirectoryResult>) -> nat
    decreases dirs.len(),
{
    if dirs.len() == 0 {
        0
    } else {
        succeeded(dirs.drop_last()) + if dirs.last().error is None {
            1nat
        } else {
            0nat
        }
    }
}

/// How many of the directories failed.
pub open spec fn failed(dirs: Seq<DirectoryResult>) -> nat
    decreases dirs.len(),
{
    if dirs.len() == 0 {
        0
    } else {
        failed(dirs.drop_last()) + if dirs.last().error is Some {
            1nat
        } else {
            0nat
        }
    }
}

/// The items counted over all the directories.
pub open spec fn items_total(dirs: Seq<DirectoryResult>) -> nat
    decreases dirs.len(),
{
    if dirs.len() == 0 {
        0
    } else {
        items_total(dirs.drop_last()) + dirs.last().items_count as nat
    }
}

impl ConsolidationResult {
    /// The counters agree with the directories processed: successes and
    /// failures add up to the directories, the total is the sum of the
    /// directories' counts, and a failed directory counts no items.
    pub open spec fn wf(&self) -> bool {
        &&& self.successful_dirs == succeeded(self.directories_processed@)
        &&& self.successful_dirs + self.failed_dirs == self.directories_processed@.len()
        &&& self.total_items_consolidated == items_total(self.directories_processed@)
        &&& forall|i: int|
            0 <= i < self.directories_processed@.len() ==> (
            #[trigger] self.directories_processed@[i]).error is Some
                ==> self.directories_processed@[i].items_count == 0
    }

    /// An empty tally.
    pub fn new() -> (res: Self)
        ensures
            res.wf(),
            res.successful_dirs == 0,
            res.failed_dirs == 0,
            res.total_items_consolidated == 0,
            res.directories_processed@.len() == 0,
    {
        ConsolidationResult {
            successful_dirs: 0,
            failed_dirs: 0,
            total_items_consolidated: 0,
            directories_processed: Vec::new(),
        }
    }
}

/// The outcome of consolidating one directory: the number of items written,
/// or why it failed.
pub struct DirectoryOutcome {
    pub path: String,
    pub outcome: Result<usize, String>,
}

/// The entry a directory outcome is recorded as.
pub open spec fn entry_for(o: DirectoryOutcome) -> DirectoryResult {
    match o.outcome {
        Ok(count) => DirectoryResult { path: o.path, items_count: count, error: None },
        Err(e) => DirectoryResult { path: o.path, items_count: 0, error: Some(e) },
    }
}

/// The items the successful outcomes count.
pub open spec fn outcome_items(outcomes: Seq<DirectoryOutcome>) -> nat
    decreases outcomes.len(),
{
    if outcomes.len() == 0 {
        0
    } else {
        outcome_items(outcomes.drop_last()) + match outcomes.last().outcome {
            Ok(count) => count as nat,
            Err(_) => 0nat,
        }
    }
}

proof fn lemma_items_total_entries(outcomes: Seq<DirectoryOutcome>)
    ensures
        items_total(outcomes.map_values(|o: DirectoryOutcome| entry_for(o))) == outcome_items(
            outcomes,
        ),
    decreases outcomes.len(),
{
    if outcomes.len() > 0 {
        lemma_items_total_entries(outcomes.drop_last());
        assert(outcomes.map_values(|o: DirectoryOutcome| entry_for(o)).drop_last()
            =~= outcomes.drop_last().map_values(|o: DirectoryOutcome| entry_for(o)));
    }
}

/// How many of the outcomes are successes.
pub open spec fn successes(outcomes: Seq<DirectoryOutcome>) -> nat
    decreases outcomes.len(),
{
    if outcomes.len() == 0 {
        0
    } else {
        successes(outcomes.drop_last()) + if outcomes.last().outcome is Ok {
            1nat
        } else {
            0nat
        }
    }
}

proof fn lemma_succeeded_entries(outcomes: Seq<DirectoryOutcome>)
    ensures
        succeeded(outcomes.map_values(|o: DirectoryOutcome| entry_for(o))) == successes(outcomes),
    decreases outcomes.len(),
{
    if outcomes.len() > 0 {
        lemma_succeeded_entries(outcomes.drop_last());
        assert(outcomes.map_values(|o: DirectoryOutcome| entry_for(o)).drop_last()
            =~= outcomes.drop_last().map_values(|o: DirectoryOutcome| entry_for(o)));
    }
}

proof fn lemma_outcome_items_prefix(outcomes: Seq<DirectoryOutcome>, n: int)
    requires
        0 <= n <= outcomes.len(),
    ensures
        outcome_items(outcomes.take(n)) <= outcome_items(outcomes),
    decreases outcomes.len(),
{
    if n < outcomes.len() {
        assert(outcomes.drop_last().take(n) =~= outcomes.take(n));
        lemma_outcome_items_prefix(outcomes.drop_last(), n);
    } else {
        assert(outcomes.take(n) =~= outcomes);
    }
}

/// The tally of the directory outcomes, in the order given: each outcome
/// becomes one entry; the successes and failures are counted, each over the
/// entries with and without an error; the total is the sum of the
/// successes' counts; a failed entry counts no items. The total must fit in
/// a `usize`.
pub fn tally_directories(outcomes: Vec<DirectoryOutcome>) -> (res: ConsolidationResult)
    requires
        outcome_items(outcomes@) <= usize::MAX,
    ensures
        res.wf(),
        res.directories_processed@ == outcomes@.map_values(|o: DirectoryOutcome| entry_for(o)),
        res.successful_dirs == succeeded(res.directories_processed@),
        res.successful_dirs == successes(outcomes@),
        res.failed_dirs == failed(res.directories_processed@),
        res.failed_dirs == outcomes@.len() - successes(outcomes@),
        res.successful_dirs + res.failed_dirs == res.directories_processed@.len(),
        res.total_items_consolidated == items_total(res.directories_processed@),
        res.total_items_consolidated == outcome_items(outcomes@),
        forall|i: int|
            0 <= i < res.directories_processed@.len() ==> (
            #[trigger] res.directories_processed@[i]).error is Some
                ==> res.directories_processed@[i].items_count == 0,
{
    let ghost orig = outcomes@;
    let ghost entry = |o: DirectoryOutcome| entry_for(o);
    let ghost mut n: int = 0;
    let mut rest = outcomes;
    let mut tally = ConsolidationResult::new();
    proof {
        assert(orig.skip(0) =~= orig);
        assert(orig.take(0).map_values(entry) =~= tally.directories_processed@);
    }
    assert(orig.len() == rest.len());
    while rest.len() > 0
        invariant
            0 <= n <= orig.len(),
            orig.len() <= usize::MAX,
            outcome_items(orig) <= usize::MAX,
            rest@ == orig.skip(n),
            tally.wf(),
            entry == (|o: DirectoryOutcome| entry_for(o)),
            tally.directories_processed@ == orig.take(n).map_values(entry),
            tally.directories_processed@.len() == n,
        decreases rest@.len(),
    {
        let next = rest.remove(0);
        proof {
            assert(next == orig[n]);
            assert(orig.take(n + 1) =~= orig.take(n).push(next));
            assert(rest@ =~= orig.skip(n + 1));
            assert(orig.take(n + 1).map_values(entry) =~= orig.take(n).map_values(entry).push(
                entry_for(next),
            ));
            lemma_items_total_entries(orig.take(n));
            lemma_items_total_entries(orig.take(n + 1));
            lemma_outcome_items_prefix(orig, n + 1);
            assert(orig.take(n + 1).drop_last() =~= orig.take(n));
        }
        let ghost before = tally.directories_processed@;
        match next.outcome {
            Ok(count) => {
                tally.successful_dirs = tally.successful_dirs + 1;
                tally.total_items_consolidated = tally.total_items_consolidated + count;
                tally.directories_processed.push(
                    DirectoryResult { path: next.path, items_count: count, error: None },
                );
            },
            Err(e) => {
                tally.failed_dirs = tally.failed_dirs + 1;
                tally.directories_processed.push(
                    DirectoryResult { path: next.path, items_count: 0, error: Some(e) },
                );
            },
        }
        proof {
            assert(tally.directories_processed@.drop_last() =~= before);
            n = n + 1;
        }
    }
    proof {
        assert(orig.take(n) =~= orig);
        lemma_items_total_entries(orig);
        lemma_succeeded_entries(orig);
        lemma_tally_counts(tally);
    }
    tally
}

/// At most every directory succeeded, and all did exactly when none has an
/// error.
proof fn lemma_succeeded_counts_successes(dirs: Seq<DirectoryResult>)
    ensures
        succeeded(dirs) <= dirs.len(),
        succeeded(dirs) == dirs.len() <==> forall|i: int|
            0 <= i < dirs.len() ==> (#[trigger] dirs[i]).error is None,
    decreases dirs.len(),
{
    if dirs.len() > 0 {
        lemma_succeeded_counts_successes(dirs.drop_last());
        if forall|i: int| 0 <= i < dirs.len() ==> (#[trigger] dirs[i]).error is None {
            assert forall|i: int| 0 <= i < dirs.drop_last().len() implies (
            #[trigger] dirs.drop_last()[i]).error is None by {
                assert(dirs.drop_last()[i] == dirs[i]);
            }
        }
        if succeeded(dirs) == dirs.len() {
            assert forall|i: int| 0 <= i < dirs.len() implies (#[trigger] dirs[i]).error is None by {
                if i < dirs.len() - 1 {
                    assert(dirs.drop_last()[i] == dirs[i]);
                }
            }
        }
    }
}

proof fn lemma_succeeded_plus_failed(dirs: Seq<DirectoryResult>)
    ensures
        succeeded(dirs) + failed(dirs) == dirs.len(),
    decreases dirs.len(),
{
    if dirs.len() > 0 {
        lemma_succeeded_plus_failed(dirs.drop_last());
    }
}

/// A consistent tally counts as successful the directories without an
/// error and as failed those with one, totals the directories' counts, and
/// counts no items for a failed directory.
pub proof fn lemma_tally_counts(r: ConsolidationResult)
    requires
        r.wf(),
    ensures
        r.successful_dirs == succeeded(r.directories_processed@),
        r.failed_dirs == failed(r.directories_processed@),
        r.successful_dirs + r.failed_dirs == r.directories_processed@.len(),
        r.total_items_consolidated == items_total(r.directories_processed@),
        forall|i: int|
            0 <= i < r.directories_processed@.len() ==> (
            #[trigger] r.directories_processed@[i]).error is Some
                ==> r.directories_processed@[i].items_count == 0,
{
    lemma_succeeded_plus_failed(r.directories_processed@);
}

/// In a consistent tally, the failure count is positive exactly when some
/// processed directory has an error.
pub proof fn lemma_failures_are_errors(r: ConsolidationResult)
    requires
        r.wf(),
    ensures
        r.failed_dirs > 0 <==> exists|i: int|
            0 <= i < r.directories_processed@.len()
                && (#[trigger] r.directories_processed@[i]).error is Some,
{
    lemma_succeeded_counts_successes(r.directories_processed@);
}

// ---------------------------------------------------------------------------
// Merging one directory
// ---------------------------------------------------------------------------

/// What reading and parsing one JSON file gave.
pub enum FileContents {
    /// The file could not be read; the reason.
    Unreadable(String),
    /// The file is not a JSON list of items; the parser's reason.
    Malformed(String),
    /// The items of the file, in order.
    Parsed(Vec<Item>),
}

/// One JSON file of a directory and what it held.
pub struct LoadedFile {
    pub path: String,
    pub contents: FileContents,
}

/// The message for a file whose items could not be parsed.
pub open spec fn parse_failure(path: Seq<char>, reason: Seq<char>) -> Seq<char> {
    "Failed to parse "@ + path + ": "@ + reason
}

/// The items of the files in order, or the failure of the first file that
/// could not be read or parsed.
pub open spec fn merge_outcome(files: Seq<LoadedFile>) -> Result<Seq<Item>, Seq<char>>
    decreases files.len(),
{
    if files.len() == 0 {
        Ok(seq![])
    } else {
        match merge_outcome(files.drop_last()) {
            Err(e) => Err(e),
            Ok(acc) => match files.last().contents {
                FileContents::Unreadable(reason) => Err(reason@),
                FileContents::Malformed(reason) => Err(parse_failure(files.last().path@, reason@)),
                FileContents::Parsed(items) => Ok(acc + items@),
            },
        }
    }
}

/// The consolidated list of a directory's files: all their items sorted by
/// name (items of equal name in file order), or the failure of the first
/// file that could not be read or parsed.
pub fn merge_directory_items(files: Vec<LoadedFile>) -> (res: Result<Vec<Item>, String>)
    ensures
        match merge_outcome(files@) {
            Ok(all) => res matches Ok(v) && is_stable_sort_by_name(v@, all) && v@.len() == all.len(),
            Err(e) => res matches Err(m) && m@ == e,
        },
{
    let ghost orig = files@;
    let ghost mut n: int = 0;
    let mut rest = files;
    let mut all: Vec<Item> = Vec::new();
    proof {
        assert(orig.skip(0) =~= orig);
        assert(orig.take(0) =~= Seq::<LoadedFile>::empty());
    }
    while rest.len() > 0
        invariant
            0 <= n <= orig.len(),
            rest@ == orig.skip(n),
            orig == files@,
            merge_outcome(orig.take(n)) == Ok::<Seq<Item>, Seq<char>>(all@),
        decreases rest@.len(),
    {
        let file = rest.remove(0);
        proof {
            assert(file == orig[n]);
            assert(orig.take(n + 1).drop_last() =~= orig.take(n));
            assert(orig.take(n + 1).last() == file);
            assert(rest@ =~= orig.skip(n + 1));
            lemma_merge_failure_persists(orig, n + 1);
        }
        match file.contents {
            FileContents::Unreadable(reason) => {
                proof {
                    assert(merge_outcome(orig.take(n + 1)) == Err::<Seq<Item>, Seq<char>>(reason@));
                }
                return Err(reason);
            },
            FileContents::Malformed(reason) => {
                let head = concat("Failed to parse ", file.path.as_str());
                let head = concat(head.as_str(), ": ");
                let message = concat(head.as_str(), reason.as_str());
                proof {
                    assert(merge_outcome(orig.take(n + 1)) == Err::<Seq<Item>, Seq<char>>(
                        parse_failure(file.path@, reason@),
                    ));
                    assert(message@ == parse_failure(file.path@, reason@));
                }
                return Err(message);
            },
            FileContents::Parsed(items) => {
                let mut items = items;
                all.append(&mut items);
            },
        }
        proof {
            n = n + 1;
        }
    }
    proof {
        assert(orig.take(n) =~= orig);
    }
    Ok(sort_by_name(all))
}

/// Merging a directory succeeds exactly when every file was read and
/// parsed.
pub proof fn lemma_merge_succeeds_iff_all_parsed(files: Seq<LoadedFile>)
    ensures
        merge_outcome(files) is Ok <==> forall|i: int|
            0 <= i < files.len() ==> (#[trigger] files[i]).contents is Parsed,
    decreases files.len(),
{
    if files.len() > 0 {
        let rest = files.drop_last();
        lemma_merge_succeeds_iff_all_parsed(rest);
        if forall|i: int| 0 <= i < files.len() ==> (#[trigger] files[i]).contents is Parsed {
            assert forall|i: int| 0 <= i < rest.len() implies (#[trigger] rest[i]).contents is Parsed by {
                assert(rest[i] == files[i]);
            }
            assert(files[files.len() - 1].contents is Parsed);
        }
        if merge_outcome(files) is Ok {
            assert forall|i: int| 0 <= i < files.len() implies (#[trigger] files[i]).contents is Parsed by {
                if i < files.len() - 1 {
                    assert(rest[i] == files[i]);
                }
            }
        }
    }
}

/// A failed merge reports the first file that could not be read or parsed:
/// its read error as it is, or `Failed to parse {path}: {reason}`.
pub proof fn lemma_merge_reports_first_failure(files: Seq<LoadedFile>, i: int)
    requires
        0 <= i < files.len(),
        forall|j: int| 0 <= j < i ==> (#[trigger] files[j]).contents is Parsed,
    ensures
        files[i].contents matches FileContents::Unreadable(reason) ==> merge_outcome(files) == Err::<
            Seq<Item>,
            Seq<char>,
        >(reason@),
        files[i].contents matches FileContents::Malformed(reason) ==> merge_outcome(files) == Err::<
            Seq<Item>,
            Seq<char>,
        >("Failed to parse "@ + files[i].path@ + ": "@ + reason@),
{
    let prefix = files.take(i);
    assert forall|j: int| 0 <= j < prefix.len() implies (#[trigger] prefix[j]).contents is Parsed by {
        assert(prefix[j] == files[j]);
    }
    lemma_merge_succeeds_iff_all_parsed(prefix);
    assert(files.take(i + 1).drop_last() =~= prefix);
    assert(files.take(i + 1).last() == files[i]);
    lemma_merge_failure_persists(files, i + 1);
}

/// Once a prefix of the files fails, so do all the files.
proof fn lemma_merge_failure_persists(files: Seq<LoadedFile>, n: int)
    requires
        0 <= n <= files.len(),
    ensures
        merge_outcome(files.take(n)) is Err ==> merge_outcome(files) == merge_outcome(files.take(n)),
    decreases files.len() - n,
{
    if n < files.len() {
        assert(files.take(n + 1).drop_last() =~= files.take(n));
        lemma_merge_failure_persists(files, n + 1);
    } else {
        assert(files.take(n) =~= files);
    }
}

// ---------------------------------------------------------------------------
// Which files take part
// ---------------------------------------------------------------------------

/// `Path::extension` of a file named `name` is `json`: the text after the
/// final `.` is `json`, and that `.` is not the name's first character.
pub open spec fn has_json_extension(name: Seq<char>) -> bool {
    exists|i: int| 0 < i < name.len() && name[i] == '.' && #[trigger] name.skip(i + 1) == "json"@
}

/// Whether a file of this name is a JSON file by its extension.
pub fn is_json_file_name(name: &str) -> (r: bool)
    ensures
        r == has_json_extension(name@),
{
    let cs = chars_of(name);
    let ext = chars_of("json");
    proof {
        reveal_strlit("json");
    }
    let n = cs.len();
    if n <= 5 {
        proof {
            assert forall|i: int|
                0 < i < name@.len() && name@[i] == '.' implies #[trigger] name@.skip(i + 1)
                != "json"@ by {
                assert(name@.skip(i + 1).len() != 4);
            }
        }
        return false;
    }
    let dot = n - 5;
    let ok = cs[dot] == '.' && cs[dot + 1] == ext[0] && cs[dot + 2] == ext[1] && cs[dot + 3]
        == ext[2] && cs[dot + 4] == ext[3];
    proof {
        if ok {
            assert(name@.skip(dot + 1) =~= "json"@);
        } else {
            assert forall|i: int|
                0 < i < name@.len() && name@[i] == '.' implies #[trigger] name@.skip(i + 1)
                != "json"@ by {
                if name@.skip(i + 1) == "json"@ {
                    assert(i == dot);
                    assert(name@.skip(i + 1)[0] == name@[dot + 1]);
                    assert(name@.skip(i + 1)[1] == name@[dot + 2]);
                    assert(name@.skip(i + 1)[2] == name@[dot + 3]);
                    assert(name@.skip(i + 1)[3] == name@[dot + 4]);
                }
            }
        }
    }
    ok
}

/// A name has the `json` extension exactly when it ends in `.json` with at
/// least one character before it.
pub proof fn lemma_json_extension_is_suffix(name: Seq<char>)
    ensures
        has_json_extension(name) <==> (name.len() > 5 && name.skip(name.len() - 5) == ".json"@),
{
    reveal_strlit("json");
    reveal_strlit(".json");
    if has_json_extension(name) {
        let i = choose|i: int|
            0 < i < name.len() && name[i] == '.' && #[trigger] name.skip(i + 1) == "json"@;
        assert(name.skip(i + 1).len() == 4);
        assert(name.skip(name.len() - 5) =~= ".json"@) by {
            assert forall|j: int| 1 <= j < 5 implies name.skip(name.len() - 5)[j] == (".json"@)[j] by {
                assert(name.skip(i + 1)[j - 1] == name[i + j]);
            }
        }
    }
    if name.len() > 5 && name.skip(name.len() - 5) == ".json"@ {
        let i = name.len() - 5;
        assert(name.skip(i)[0] == name[i]);
        assert(name.skip(i + 1) =~= "json"@) by {
            assert forall|j: int| 0 <= j < 4 implies name.skip(i + 1)[j] == ("json"@)[j] by {
                assert(name.skip(i)[j + 1] == name[i + 1 + j]);
            }
        }
    }
}

/// A file of this name is merged: it is a JSON file and not `all.json`.
pub open spec fn is_merge_source(name: Seq<char>) -> bool {
    has_json_extension(name) && name != "all.json"@
}

/// Every JSON file other than `all.json` itself is merged: a name is merged
/// exactly when it ends in `.json` with a character before that, and is not
/// `all.json`.
pub proof fn lemma_every_json_file_but_all_json_is_merged(name: Seq<char>)
    ensures
        is_merge_source(name) <==> (name.len() > 5 && name.skip(name.len() - 5) == ".json"@ && name
            != "all.json"@),
{
    lemma_json_extension_is_suffix(name);
}

/// Whether a file of this name is merged into its directory's `all.json`.
pub fn is_consolidation_source(name: &str) -> (r: bool)
    ensures
        r == is_merge_source(name@),
{
    if !is_json_file_name(name) {
        return false;
    }
    let cs = chars_of(name);
    let target = chars_of("all.json");
    let n = cs.len();
    if n != target.len() {
        return true;
    }
    let mut i: usize = 0;
    while i < n
        invariant
            n == cs@.len(),
            n == target@.len(),
            i <= n,
            cs@ == name@,
            target@ == "all.json"@,
            has_json_extension(name@),
            forall|k: int| 0 <= k < i ==> cs@[k] == target@[k],
        decreases n - i,
    {
        if cs[i] != target[i] {
            proof {
                assert(name@[i as int] != ("all.json"@)[i as int]);
            }
            return true;
        }
        i += 1;
    }
    proof {
        assert(cs@ =~= target@);
    }
    false
}

} // verus!
