//! The decisions of the inventory's tool server: which fields a search
//! request covers, how search results are answered, which submissions are
//! accepted, and what a submission is answered.
use vstd::prelude::*;
use crate::search::{SearchOptions, SearchResult, report_lines, search_report_lines};
use crate::text::{
    chars_of,
    concat,
    decimal,
    decimal_string,
    join_strings,
    joined,
};

verus! {

/// The tool server, serving the inventory under one directory.
#[derive(Debug, Clone)]
pub struct McpServer {
    pub directory: String,
}

impl McpServer {
    /// A server for the inventory under `directory`.
    pub fn new(directory: String) -> (res: Self)
        ensures
            res.directory == directory,
    {
        McpServer { directory }
    }
}

// ---------------------------------------------------------------------------
// Search
// ---------------------------------------------------------------------------

/// A search request: keywords that must all match, and optional field flags.
#[derive(Debug)]
pub struct SearchRequest {
    pub keywords: Vec<String>,
    pub name: Option<bool>,
    pub description: Option<bool>,
    pub categories: Option<bool>,
    pub notes: Option<bool>,
    pub all: Option<bool>,
}

/// An absent flag is unset.
pub open spec fn flag(f: Option<bool>) -> bool {
    match f {
        Some(b) => b,
        None => false,
    }
}

fn flag_exec(f: Option<bool>) -> (b: bool)
    ensures
        b == flag(f),
{
    match f {
        Some(b) => b,
        None => false,
    }
}

impl SearchRequest {
    /// The search options the request asks for, absent flags unset.
    pub fn options(&self) -> (res: SearchOptions)
        ensures
            res.search_name == flag(self.name),
            res.search_description == flag(self.description),
            res.search_categories == flag(self.categories),
            res.search_notes == flag(self.notes),
            res.search_all == flag(self.all),
    {
        SearchOptions {
            search_name: flag_exec(self.name),
            search_description: flag_exec(self.description),
            search_categories: flag_exec(self.categories),
            search_notes: flag_exec(self.notes),
            search_all: flag_exec(self.all),
        }
    }
}

/// The answer to a search: the report's lines joined by newlines, or the
/// reason the search failed.
pub open spec fn search_answer(outcome: Result<Vec<SearchResult>, String>) -> Seq<char> {
    match outcome {
        Ok(results) => joined(report_lines(results@), "\n"@),
        Err(e) => "Error searching: "@ + e@,
    }
}

/// The text a search request is answered with.
pub fn search_reply(outcome: Result<Vec<SearchResult>, String>) -> (res: String)
    ensures
        res@ == search_answer(outcome),
{
    match outcome {
        Ok(results) => {
            let lines = search_report_lines(&results);
            join_strings(&lines, "\n")
        },
        Err(e) => concat("Error searching: ", e.as_str()),
    }
}

// ---------------------------------------------------------------------------
// Submission
// ---------------------------------------------------------------------------

/// A JSON value, as the submitted items are given.
#[derive(Debug)]
pub enum JsonValue {
    Null,
    Bool(bool),
    /// A number, by its JSON text.
    Number(String),
    Str(String),
    Array(Vec<JsonValue>),
    /// An object's members; where a key repeats, its last member counts,
    /// as when serde_json reads an object.
    Object(Vec<(String, JsonValue)>),
}

/// A request to add items to the inventory in a subdirectory.
#[derive(Debug)]
pub struct SubmitRequest {
    pub name: String,
    pub items: Vec<JsonValue>,
}

/// Why a submitted item is refused.
#[derive(Debug)]
pub enum ItemProblem {
    NotObject,
    MissingName,
    MissingDescription,
    NameNotString,
    DescriptionNotString,
    CategoriesNotArray,
    CategoryNotString,
    NotesNotString,
}

/// Only emptiness and path separators make a subdirectory name unusable:
/// a name is usable exactly when it has a character and none of its
/// characters is `/` or `\`.
pub proof fn lemma_only_separators_refuse_names(name: Seq<char>)
    ensures
        valid_subdirectory(name) <==> (name.len() > 0 && forall|i: int|
            0 <= i < name.len() ==> #[trigger] name[i] != '/' && name[i] != '\\'),
{
    if name.len() > 0 && forall|i: int|
        0 <= i < name.len() ==> #[trigger] name[i] != '/' && name[i] != '\\' {
        assert(!name.contains('/'));
        assert(!name.contains('\\'));
    }
    if name.contains('/') {
        let i = choose|i: int| 0 <= i < name.len() && name[i] == '/';
        assert(name[i] == '/');
    }
    if name.contains('\\') {
        let i = choose|i: int| 0 <= i < name.len() && name[i] == '\\';
        assert(name[i] == '\\');
    }
}

/// A submission whose name has characters and no path separator, with at
/// least one item and no item with a problem, is accepted; one whose name is
/// empty or holds a path separator is refused with the naming message.
pub proof fn lemma_submission_names(name: Seq<char>, items: Seq<JsonValue>)
    ensures
        (name.len() > 0 && (forall|i: int|
            0 <= i < name.len() ==> #[trigger] name[i] != '/' && name[i] != '\\') && items.len()
            > 0 && forall|j: int| 0 <= j < items.len() ==> item_problem(#[trigger] items[j]) is None)
            ==> submission_refusal(name, items) is None,
        (name.len() == 0 || exists|i: int|
            0 <= i < name.len() && (#[trigger] name[i] == '/' || name[i] == '\\'))
            ==> submission_refusal(name, items) == Some(
            "Error: Invalid subdirectory name. Name must be non-empty and cannot contain path separators."@,
        ),
{
    lemma_only_separators_refuse_names(name);
    lemma_submission_accepted_iff(name, items);
}

/// An object's member for a key is its last member with that key; there is
/// none exactly when no member has the key.
pub proof fn lemma_member_is_last_with_key(entries: Seq<(String, JsonValue)>, key: Seq<char>)
    ensures
        member(entries, key) is None <==> forall|i: int|
            0 <= i < entries.len() ==> (#[trigger] entries[i]).0@ != key,
        member(entries, key) matches Some(v) ==> exists|i: int|
            0 <= i < entries.len() && (#[trigger] entries[i]).0@ == key && entries[i].1 == v
                && forall|j: int| i < j < entries.len() ==> (#[trigger] entries[j]).0@ != key,
    decreases entries.len(),
{
    if entries.len() > 0 {
        let rest = entries.drop_last();
        lemma_member_is_last_with_key(rest, key);
        let n = entries.len() - 1;
        if entries.last().0@ == key {
            assert(entries[n].0@ == key);
        } else {
            assert forall|i: int| 0 <= i < rest.len() implies rest[i] == entries[i] by {}
            if member(entries, key) is None {
                assert forall|i: int| 0 <= i < entries.len() implies (#[trigger] entries[i]).0@ != key by {
                    if i < n {
                        assert(rest[i] == entries[i]);
                    }
                }
            } else {
                let v = member(entries, key).unwrap();
                let i = choose|i: int|
                    0 <= i < rest.len() && (#[trigger] rest[i]).0@ == key && rest[i].1 == v
                        && forall|j: int| i < j < rest.len() ==> (#[trigger] rest[j]).0@ != key;
                assert(entries[i] == rest[i]);
                assert forall|j: int| i < j < entries.len() implies (#[trigger] entries[j]).0@ != key by {
                    if j < n {
                        assert(rest[j] == entries[j]);
                    }
                }
            }
            if forall|i: int| 0 <= i < entries.len() ==> (#[trigger] entries[i]).0@ != key {
                assert forall|i: int| 0 <= i < rest.len() implies (#[trigger] rest[i]).0@ != key by {
                    assert(rest[i] == entries[i]);
                }
            }
        }
    }
}

/// The member of an object with the given key: its last member with that
/// key, as serde_json keeps the last of repeated keys.
pub open spec fn member(entries: Seq<(String, JsonValue)>, key: Seq<char>) -> Option<JsonValue>
    decreases entries.len(),
{
    if entries.len() == 0 {
        None
    } else if entries.last().0@ == key {
        Some(entries.last().1)
    } else {
        member(entries.drop_last(), key)
    }
}

/// Some element of the list is not a string.
pub open spec fn has_non_string(values: Seq<JsonValue>) -> bool {
    exists|i: int| 0 <= i < values.len() && !(#[trigger] values[i] is Str)
}

/// A submitted item is accepted exactly when it is an object whose `name`
/// and `description` are strings, whose `categories`, where given, are a
/// list of strings, and whose `notes`, where given, are a string.
pub proof fn lemma_accepted_items(item: JsonValue)
    ensures
        item_problem(item) is None <==> (item matches JsonValue::Object(entries) && ({
            let m = entries@;
            &&& member(m, "name"@) matches Some(n) && n is Str
            &&& member(m, "description"@) matches Some(d) && d is Str
            &&& (member(m, "categories"@) matches Some(c) ==> (c matches JsonValue::Array(cs)
                && forall|i: int| 0 <= i < cs@.len() ==> #[trigger] cs@[i] is Str))
            &&& (member(m, "notes"@) matches Some(x) ==> x is Str)
        })),
{
}

/// The first problem of a submitted item, checked in this order: it must be
/// an object, have a `name` and a `description`, both strings, and
/// `categories`, where given, must be a list of strings and `notes`, where
/// given, a string.
pub open spec fn item_problem(item: JsonValue) -> Option<ItemProblem> {
    match item {
        JsonValue::Object(entries) => {
            let members = entries@;
            if member(members, "name"@) is None {
                Some(ItemProblem::MissingName)
            } else if member(members, "description"@) is None {
                Some(ItemProblem::MissingDescription)
            } else if !(member(members, "name"@).unwrap() is Str) {
                Some(ItemProblem::NameNotString)
            } else if !(member(members, "description"@).unwrap() is Str) {
                Some(ItemProblem::DescriptionNotString)
            } else if member(members, "categories"@) matches Some(cats) && !(cats is Array) {
                Some(ItemProblem::CategoriesNotArray)
            } else if member(members, "categories"@) matches Some(JsonValue::Array(cats))
                && has_non_string(cats@) {
                Some(ItemProblem::CategoryNotString)
            } else if member(members, "notes"@) matches Some(notes) && !(notes is Str) {
                Some(ItemProblem::NotesNotString)
            } else {
                None
            }
        },
        _ => Some(ItemProblem::NotObject),
    }
}

/// The first item, from position `start` on, that has a problem, with its
/// position and problem.
pub open spec fn first_problem(items: Seq<JsonValue>, start: int) -> Option<(int, ItemProblem)>
    decreases items.len() - start,
{
    if start < 0 || start >= items.len() {
        None
    } else {
        match item_problem(items[start]) {
            Some(p) => Some((start, p)),
            None => first_problem(items, start + 1),
        }
    }
}

/// What follows `Error: Item {position}` in the message for a problem.
pub open spec fn problem_text(p: ItemProblem) -> Seq<char> {
    match p {
        ItemProblem::NotObject => " is not a valid object."@,
        ItemProblem::MissingName => " is missing required 'name' field."@,
        ItemProblem::MissingDescription => " is missing required 'description' field."@,
        ItemProblem::NameNotString => " 'name' field must be a string."@,
        ItemProblem::DescriptionNotString => " 'description' field must be a string."@,
        ItemProblem::CategoriesNotArray => " 'categories' field must be an array."@,
        ItemProblem::CategoryNotString => " categories must all be strings."@,
        ItemProblem::NotesNotString => " 'notes' field must be a string."@,
    }
}

/// The message for the item at `position` with problem `p`.
pub open spec fn problem_message(position: nat, p: ItemProblem) -> Seq<char> {
    "Error: Item "@ + decimal(position) + problem_text(p)
}

/// An explicit flag keeps its value, and an absent flag is unset.
pub proof fn lemma_explicit_flags_kept(f: Option<bool>)
    ensures
        f matches Some(b) ==> flag(f) == b,
        f is None ==> !flag(f),
{
}

/// A subdirectory name is usable: not empty, and without `/` or `\`.
pub open spec fn valid_subdirectory(name: Seq<char>) -> bool {
    name.len() > 0 && !name.contains('/') && !name.contains('\\')
}

/// Why a submission is refused, or none when it is accepted: the name is
/// checked first, then that there are items, then each item in order.
pub open spec fn submission_refusal(name: Seq<char>, items: Seq<JsonValue>) -> Option<Seq<char>> {
    if !valid_subdirectory(name) {
        Some(
            "Error: Invalid subdirectory name. Name must be non-empty and cannot contain path separators."@,
        )
    } else if items.len() == 0 {
        Some("Error: No items provided. Please include at least one item."@)
    } else {
        match first_problem(items, 0) {
            Some((i, p)) => Some(problem_message(i as nat, p)),
            None => None,
        }
    }
}

/// No item from `start` on has a problem exactly when the search for the
/// first problem from `start` finds none; when it finds one, that item has
/// that problem and the items between `start` and it have none.
proof fn lemma_first_problem(items: Seq<JsonValue>, start: int)
    requires
        0 <= start <= items.len(),
    ensures
        first_problem(items, start) is None <==> forall|j: int|
            start <= j < items.len() ==> item_problem(#[trigger] items[j]) is None,
        first_problem(items, start) matches Some((i, p)) ==> {
            &&& start <= i < items.len()
            &&& item_problem(items[i]) == Some(p)
            &&& forall|j: int| start <= j < i ==> item_problem(#[trigger] items[j]) is None
        },
    decreases items.len() - start,
{
    if start < items.len() {
        lemma_first_problem(items, start + 1);
    }
}

/// A submission is accepted exactly when its subdirectory name is usable,
/// it has items, and no item has a problem; a refused item is the first
/// item with a problem, and the message names its position.
pub proof fn lemma_submission_accepted_iff(name: Seq<char>, items: Seq<JsonValue>)
    ensures
        submission_refusal(name, items) is None <==> (valid_subdirectory(name) && items.len() > 0
            && forall|j: int| 0 <= j < items.len() ==> item_problem(#[trigger] items[j]) is None),
        valid_subdirectory(name) && items.len() > 0 ==> (first_problem(items, 0) matches Some(
            (i, p),
        ) ==> {
            &&& submission_refusal(name, items) == Some(problem_message(i as nat, p))
            &&& item_problem(items[i]) == Some(p)
            &&& forall|j: int| 0 <= j < i ==> item_problem(#[trigger] items[j]) is None
        }),
{
    lemma_first_problem(items, 0);
}

/// The member of an object with the given key.
fn find_member<'a>(entries: &'a Vec<(String, JsonValue)>, key: &str) -> (r: Option<&'a JsonValue>)
    ensures
        match r {
            Some(v) => member(entries@, key@) == Some(*v),
            None => member(entries@, key@) is None,
        },
{
    let wanted = String::from_str(key);
    let mut i: usize = entries.len();
    proof {
        assert(entries@.take(i as int) =~= entries@);
    }
    while i > 0
        invariant
            i <= entries@.len(),
            wanted@ == key@,
            member(entries@, key@) == member(entries@.take(i as int), key@),
        decreases i,
    {
        let entry = &entries[i - 1];
        proof {
            assert(entries@.take(i as int).last() == entries@[i - 1]);
            assert(entries@.take(i as int).drop_last() =~= entries@.take(i - 1));
        }
        if entry.0 == wanted {
            return Some(&entry.1);
        }
        i -= 1;
    }
    proof {
        assert(entries@.take(0) =~= Seq::<(String, JsonValue)>::empty());
    }
    None
}

fn is_str(v: &JsonValue) -> (b: bool)
    ensures
        b == (*v is Str),
{
    match v {
        JsonValue::Str(_) => true,
        _ => false,
    }
}

/// The first problem of a submitted item.
#[verifier::loop_isolation(false)]
pub fn check_item(item: &JsonValue) -> (res: Option<ItemProblem>)
    ensures
        res == item_problem(*item),
{
    proof {
        reveal_strlit("name");
        reveal_strlit("description");
        reveal_strlit("categories");
        reveal_strlit("notes");
    }
    match item {
        JsonValue::Object(entries) => {
            let name = find_member(entries, "name");
            let description = find_member(entries, "description");
            match (name, description) {
                (None, _) => Some(ItemProblem::MissingName),
                (_, None) => Some(ItemProblem::MissingDescription),
                (Some(n), Some(d)) => {
                    if !is_str(n) {
                        return Some(ItemProblem::NameNotString);
                    }
                    if !is_str(d) {
                        return Some(ItemProblem::DescriptionNotString);
                    }
                    match find_member(entries, "categories") {
                        Some(JsonValue::Array(cats)) => {
                            let len = cats.len();
                            let mut i: usize = 0;
                            while i < len
                                invariant
                                    len == cats@.len(),
                                    i <= len,
                                    forall|k: int| 0 <= k < i ==> #[trigger] cats@[k] is Str,
                                decreases len - i,
                            {
                                if !is_str(&cats[i]) {
                                    return Some(ItemProblem::CategoryNotString);
                                }
                                i += 1;
                            }
                        },
                        Some(_) => {
                            return Some(ItemProblem::CategoriesNotArray);
                        },
                        None => {},
                    }
                    match find_member(entries, "notes") {
                        Some(notes) => {
                            if !is_str(notes) {
                                return Some(ItemProblem::NotesNotString);
                            }
                        },
                        None => {},
                    }
                    None
                },
            }
        },
        _ => Some(ItemProblem::NotObject),
    }
}

fn problem_suffix(p: &ItemProblem) -> (s: String)
    ensures
        s@ == problem_text(*p),
{
    match p {
        ItemProblem::NotObject => String::from_str(" is not a valid object."),
        ItemProblem::MissingName => String::from_str(" is missing required 'name' field."),
        ItemProblem::MissingDescription => String::from_str(
            " is missing required 'description' field.",
        ),
        ItemProblem::NameNotString => String::from_str(" 'name' field must be a string."),
        ItemProblem::DescriptionNotString => String::from_str(
            " 'description' field must be a string.",
        ),
        ItemProblem::CategoriesNotArray => String::from_str(
            " 'categories' field must be an array.",
        ),
        ItemProblem::CategoryNotString => String::from_str(" categories must all be strings."),
        ItemProblem::NotesNotString => String::from_str(" 'notes' field must be a string."),
    }
}

fn is_valid_subdirectory(name: &str) -> (b: bool)
    ensures
        b == valid_subdirectory(name@),
{
    let cs = chars_of(name);
    let n = cs.len();
    if n == 0 {
        return false;
    }
    let mut i: usize = 0;
    while i < n
        invariant
            n == cs@.len(),
            cs@ == name@,
            i <= n,
            forall|k: int| 0 <= k < i ==> cs@[k] != '/' && cs@[k] != '\\',
        decreases n - i,
    {
        if cs[i] == '/' || cs[i] == '\\' {
            proof {
                assert(name@[i as int] == cs@[i as int]);
            }
            return false;
        }
        i += 1;
    }
    true
}

/// Why the submission is refused, or `None` when it is accepted.
#[verifier::loop_isolation(false)]
pub fn check_submission(request: &SubmitRequest) -> (res: Option<String>)
    ensures
        match submission_refusal(request.name@, request.items@) {
            Some(m) => res matches Some(r) && r@ == m,
            None => res is None,
        },
{
    if !is_valid_subdirectory(request.name.as_str()) {
        return Some(
            String::from_str(
                "Error: Invalid subdirectory name. Name must be non-empty and cannot contain path separators.",
            ),
        );
    }
    let n = request.items.len();
    if n == 0 {
        return Some(String::from_str("Error: No items provided. Please include at least one item."));
    }
    let mut i: usize = 0;
    while i < n
        invariant
            n == request.items@.len(),
            i <= n,
            first_problem(request.items@, 0) == first_problem(request.items@, i as int),
        decreases n - i,
    {
        match check_item(&request.items[i]) {
            Some(p) => {
                let position = decimal_string(i);
                let head = concat("Error: Item ", position.as_str());
                let suffix = problem_suffix(&p);
                return Some(concat(head.as_str(), suffix.as_str()));
            },
            None => {},
        }
        i += 1;
    }
    None
}

/// What writing a submission to the file system gave.
pub enum SubmitOutcome {
    /// The subdirectory could not be created; the reason.
    DirectoryFailed(String),
    /// The file could not be written; the reason.
    WriteFailed(String),
    /// The items were saved in the file of this name, at this path.
    Saved { file_name: String, file_path: String },
}

/// The name of the file a submission is saved in, for a timestamp.
pub fn submission_file_name(timestamp: &str) -> (res: String)
    ensures
        res@ == timestamp@ + ".json"@,
{
    concat(timestamp, ".json")
}

/// A decimal digit.
pub open spec fn is_digit(c: char) -> bool {
    '0' <= c && c <= '9'
}

/// Every character is a decimal digit.
pub open spec fn all_digits(s: Seq<char>) -> bool {
    forall|i: int| 0 <= i < s.len() ==> is_digit(#[trigger] s[i])
}

/// A year as chrono's `%Y` writes it: four digits for the years 0 to 9999,
/// else a sign followed by at least four digits.
pub open spec fn is_year_text(y: Seq<char>) -> bool {
    ||| y.len() == 4 && all_digits(y)
    ||| y.len() >= 5 && (y[0] == '+' || y[0] == '-') && all_digits(y.drop_first())
}

/// The value of two decimal digits.
pub open spec fn two_digit_value(t: Seq<char>, at: int) -> int {
    (t[at] as int - 48) * 10 + (t[at + 1] as int - 48)
}

/// A local time as `%Y-%m-%d-%H-%M-%S` writes it: the year, then month
/// (01 to 12), day (01 to 31), hour (00 to 23), minute (00 to 59) and second
/// (00 to 60), each as two digits after a `-`.
pub open spec fn is_timestamp_text(t: Seq<char>) -> bool {
    let n = t.len() as int;
    &&& n >= 19
    &&& is_year_text(t.subrange(0, n - 15))
    &&& forall|k: int|
        0 <= k < 15 ==> if k % 3 == 0 {
            #[trigger] t[n - 15 + k] == '-'
        } else {
            is_digit(t[n - 15 + k])
        }
    &&& 1 <= two_digit_value(t, n - 14) <= 12
    &&& 1 <= two_digit_value(t, n - 11) <= 31
    &&& two_digit_value(t, n - 8) <= 23
    &&& two_digit_value(t, n - 5) <= 59
    &&& two_digit_value(t, n - 2) <= 60
}

/// The pattern a submission's timestamp is written in.
pub const TIMESTAMP_FORMAT: &'static str = "%Y-%m-%d-%H-%M-%S";

/// Calls `chrono::Local::now()` and formats the time with `pattern`, which
/// must be `TIMESTAMP_FORMAT`.
///
/// Claims only the shape that chrono's format table gives every such text
/// (`is_timestamp_text`); which time it shows depends on the clock and the
/// machine's time zone and is not stated.
#[verifier::external_body]
fn local_timestamp(pattern: &str) -> (res: String)
    requires
        pattern@ == TIMESTAMP_FORMAT@,
    ensures
        is_timestamp_text(res@),
{
    chrono::Local::now().format(pattern).to_string()
}

/// The name of the file a submission made now is saved in: the local time,
/// as `%Y-%m-%d-%H-%M-%S`, followed by `.json`.
pub fn timestamped_file_name() -> (res: String)
    ensures
        exists|stamp: Seq<char>| is_timestamp_text(stamp) && res@ == stamp + ".json"@,
{
    let stamp = local_timestamp(TIMESTAMP_FORMAT);
    let res = submission_file_name(stamp.as_str());
    proof {
        assert(is_timestamp_text(stamp@) && res@ == stamp@ + ".json"@);
    }
    res
}

/// The answer to an accepted submission of `count` items to subdirectory `name`.
pub open spec fn submit_answer(name: Seq<char>, count: nat, outcome: SubmitOutcome) -> Seq<char> {
    match outcome {
        SubmitOutcome::DirectoryFailed(e) => "Error creating subdirectory '"@ + name + "': "@ + e@,
        SubmitOutcome::WriteFailed(e) => "Error writing file: "@ + e@,
        SubmitOutcome::Saved { file_name, file_path } => "Successfully submitted "@ + decimal(
            count,
        ) + " items to '"@ + name + "/"@ + file_name@ + "'. Items saved to: "@ + file_path@,
    }
}

/// The text an accepted submission is answered with.
pub fn submit_reply(name: &str, count: usize, outcome: SubmitOutcome) -> (res: String)
    ensures
        res@ == submit_answer(name@, count as nat, outcome),
{
    match outcome {
        SubmitOutcome::DirectoryFailed(e) => {
            let head = concat("Error creating subdirectory '", name);
            let head = concat(head.as_str(), "': ");
            concat(head.as_str(), e.as_str())
        },
        SubmitOutcome::WriteFailed(e) => concat("Error writing file: ", e.as_str()),
        SubmitOutcome::Saved { file_name, file_path } => {
            let n = decimal_string(count);
            let s = concat("Successfully submitted ", n.as_str());
            let s = concat(s.as_str(), " items to '");
            let s = concat(s.as_str(), name);
            let s = concat(s.as_str(), "/");
            let s = concat(s.as_str(), file_name.as_str());
            let s = concat(s.as_str(), "'. Items saved to: ");
            concat(s.as_str(), file_path.as_str())
        },
    }
}

} // verus!
