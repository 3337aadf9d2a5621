//! Keyword search over inventory items.
//!
//! An item matches a keyword when the keyword, lowercased, occurs in one of
//! the searched fields, lowercased. An item matches a search when it matches
//! every keyword. The results of a search are the matching items sorted by
//! name, items of equal name in the order they were read.
use vstd::prelude::*;
use crate::sorting::{
    Named,
    is_stable_sort_by_name,
    lemma_filter_of_stable_sort,
    lemma_filter_twice,
    lemma_stable_sort_same_records,
    lemma_stable_sort_unique,
    with_name,
    sort_by_name,
    sorted_by_name,
};
use crate::text::{
    chars_of,
    concat,
    decimal,
    decimal_string,
    has_infix,
    join_strings,
    joined,
    lowercase_of,
    to_lowercase,
    vec_has_infix,
    views,
};

verus! {

/// One inventory entry.
#[derive(Debug, Clone)]
pub struct Item {
    /// Brief name or title.
    pub name: String,
    /// Detailed description.
    pub description: String,
    /// Categories the item belongs to, where given.
    pub categories: Option<Vec<String>>,
    /// Additional notes, where given.
    pub notes: Option<String>,
}

/// An item found by a search, with the file it was read from.
#[derive(Debug)]
pub struct SearchResult {
    pub item: Item,
    pub file_path: String,
}

impl Named for Item {
    open spec fn name_key(&self) -> Seq<char> {
        self.name@
    }

    fn sort_name(&self) -> (r: &String) {
        &self.name
    }
}

impl Named for SearchResult {
    open spec fn name_key(&self) -> Seq<char> {
        self.item.name@
    }

    fn sort_name(&self) -> (r: &String) {
        &self.item.name
    }
}

/// Which fields a search looks at. A field is searched when its own flag is
/// set, when `search_all` is set, or when no field has its own flag set.
pub struct SearchOptions {
    pub search_name: bool,
    pub search_description: bool,
    pub search_categories: bool,
    pub search_notes: bool,
    pub search_all: bool,
}

impl SearchOptions {
    pub open spec fn searches_name(self) -> bool {
        self.search_name || self.search_all || (!self.search_description && !self.search_categories
            && !self.search_notes)
    }

    pub open spec fn searches_description(self) -> bool {
        self.search_description || self.search_all || (!self.search_name && !self.search_categories
            && !self.search_notes)
    }

    pub open spec fn searches_categories(self) -> bool {
        self.search_categories || self.search_all || (!self.search_name && !self.search_description
            && !self.search_notes)
    }

    pub open spec fn searches_notes(self) -> bool {
        self.search_notes || self.search_all || (!self.search_name && !self.search_description
            && !self.search_categories)
    }

    /// Whether the name field is searched.
    pub fn should_search_name(&self) -> (r: bool)
        ensures
            r == self.searches_name(),
    {
        self.search_name || self.search_all || (!self.search_description && !self.search_categories
            && !self.search_notes)
    }

    /// Whether the description field is searched.
    pub fn should_search_description(&self) -> (r: bool)
        ensures
            r == self.searches_description(),
    {
        self.search_description || self.search_all || (!self.search_name
            && !self.search_categories && !self.search_notes)
    }

    /// Whether the categories are searched.
    pub fn should_search_categories(&self) -> (r: bool)
        ensures
            r == self.searches_categories(),
    {
        self.search_categories || self.search_all || (!self.search_name
            && !self.search_description && !self.search_notes)
    }

    /// Whether the notes field is searched.
    pub fn should_search_notes(&self) -> (r: bool)
        ensures
            r == self.searches_notes(),
    {
        self.search_notes || self.search_all || (!self.search_name && !self.search_description
            && !self.search_categories)
    }
}

/// The keyword occurs in the field, both taken in lowercase.
pub open spec fn text_hits(field: Seq<char>, keyword: Seq<char>) -> bool {
    has_infix(lowercase_of(field), lowercase_of(keyword))
}

/// Some category of `cats` is hit by the keyword.
pub open spec fn some_category_hits(cats: Seq<String>, keyword: Seq<char>) -> bool {
    exists|i: int| 0 <= i < cats.len() && text_hits(#[trigger] cats[i]@, keyword)
}

/// The item matches one keyword in one of the fields the options search.
pub open spec fn keyword_matches(item: Item, keyword: Seq<char>, options: SearchOptions) -> bool {
    ||| options.searches_name() && text_hits(item.name@, keyword)
    ||| options.searches_description() && text_hits(item.description@, keyword)
    ||| options.searches_categories() && (item.categories matches Some(cats) && some_category_hits(
        cats@,
        keyword,
    ))
    ||| options.searches_notes() && (item.notes matches Some(notes) && text_hits(notes@, keyword))
}

/// The item matches every keyword.
pub open spec fn all_keywords_match(
    item: Item,
    keywords: Seq<String>,
    options: SearchOptions,
) -> bool {
    forall|i: int| 0 <= i < keywords.len() ==> keyword_matches(item, #[trigger] keywords[i]@, options)
}

/// Whether `needle` (already lowercase) occurs in `field` lowercased.
fn field_hits(field: &str, needle: &Vec<char>) -> (r: bool)
    ensures
        r == has_infix(lowercase_of(field@), needle@),
{
    let lowered = to_lowercase(field);
    let hay = chars_of(lowered.as_str());
    vec_has_infix(&hay, needle)
}

/// Whether the item matches `keyword` in one of the fields `options` searches.
pub fn matches_keyword(item: &Item, keyword: &str, options: &SearchOptions) -> (r: bool)
    ensures
        r == keyword_matches(*item, keyword@, *options),
{
    let lowered = to_lowercase(keyword);
    let needle = chars_of(lowered.as_str());
    if options.should_search_name() && field_hits(item.name.as_str(), &needle) {
        return true;
    }
    if options.should_search_description() && field_hits(item.description.as_str(), &needle) {
        return true;
    }
    if options.should_search_categories() {
        match &item.categories {
            Some(categories) => {
                let n = categories.len();
                let mut i: usize = 0;
                while i < n
                    invariant
                        n == categories@.len(),
                        i <= n,
                        needle@ == lowercase_of(keyword@),
                        options.searches_categories(),
                        item.categories == Some(*categories),
                        forall|k: int| 0 <= k < i ==> !text_hits(#[trigger] categories@[k]@, keyword@),
                    decreases n - i,
                {
                    if field_hits(categories[i].as_str(), &needle) {
                        proof {
                            assert(text_hits(categories@[i as int]@, keyword@));
                        }
                        return true;
                    }
                    i += 1;
                }
            },
            None => {},
        }
    }
    if options.should_search_notes() {
        match &item.notes {
            Some(notes) => {
                if field_hits(notes.as_str(), &needle) {
                    return true;
                }
            },
            None => {},
        }
    }
    false
}

/// Whether the item matches every keyword.
pub fn matches_all_keywords(item: &Item, keywords: &[String], options: &SearchOptions) -> (r: bool)
    ensures
        r == all_keywords_match(*item, keywords@, *options),
{
    let n = keywords.len();
    let mut i: usize = 0;
    while i < n
        invariant
            n == keywords@.len(),
            i <= n,
            forall|k: int| 0 <= k < i ==> keyword_matches(*item, #[trigger] keywords@[k]@, *options),
        decreases n - i,
    {
        if !matches_keyword(item, keywords[i].as_str(), options) {
            return false;
        }
        i += 1;
    }
    true
}

/// The candidates that match every keyword, in their order.
pub open spec fn matching(
    candidates: Seq<SearchResult>,
    keywords: Seq<String>,
    options: SearchOptions,
) -> Seq<SearchResult> {
    candidates.filter(|r: SearchResult| all_keywords_match(r.item, keywords, options))
}

/// The search results among `candidates` (every item read, with its file,
/// in reading order): those that match every keyword, sorted by name, items
/// of equal name in reading order.
pub fn search_results(
    candidates: Vec<SearchResult>,
    keywords: &[String],
    options: &SearchOptions,
) -> (res: Vec<SearchResult>)
    ensures
        is_stable_sort_by_name(res@, matching(candidates@, keywords@, *options)),
        res@.len() == matching(candidates@, keywords@, *options).len(),
{
    let ghost orig = candidates@;
    let ghost pred = |r: SearchResult| all_keywords_match(r.item, keywords@, *options);
    let ghost mut n: int = 0;
    let mut rest = candidates;
    let mut kept: Vec<SearchResult> = Vec::new();
    proof {
        assert(orig.skip(0) =~= orig);
        assert(orig.take(0) =~= Seq::<SearchResult>::empty());
        assert(Seq::<SearchResult>::empty().filter(pred) =~= Seq::<SearchResult>::empty()) by {
            reveal(Seq::filter);
        }
    }
    while rest.len() > 0
        invariant
            0 <= n <= orig.len(),
            rest@ == orig.skip(n),
            kept@ == orig.take(n).filter(pred),
            pred == (|r: SearchResult| all_keywords_match(r.item, keywords@, *options)),
        decreases rest@.len(),
    {
        let candidate = rest.remove(0);
        proof {
            assert(candidate == orig[n]);
            assert(orig.take(n + 1) =~= orig.take(n).push(candidate));
            assert(rest@ =~= orig.skip(n + 1));
        }
        let ghost before = orig.take(n);
        let hit = matches_all_keywords(&candidate.item, keywords, options);
        proof {
            assert(pred(candidate) == hit);
            before.lemma_filter_push(candidate, pred);
        }
        if hit {
            kept.push(candidate);
        }
        proof {
            n = n + 1;
        }
    }
    proof {
        assert(orig.take(n) =~= orig);
    }
    sort_by_name(kept)
}

// ---------------------------------------------------------------------------
// Laws of searching
// ---------------------------------------------------------------------------

/// With `search_all` set, or with no field flagged, every field is searched.
pub proof fn lemma_unflagged_search_covers_every_field(options: SearchOptions)
    requires
        options.search_all || (!options.search_name && !options.search_description
            && !options.search_categories && !options.search_notes),
    ensures
        options.searches_name(),
        options.searches_description(),
        options.searches_categories(),
        options.searches_notes(),
{
}

/// With `search_all` unset and some field flagged, exactly the flagged
/// fields are searched.
pub proof fn lemma_flags_select_fields(options: SearchOptions)
    requires
        !options.search_all,
        options.search_name || options.search_description || options.search_categories
            || options.search_notes,
    ensures
        options.searches_name() == options.search_name,
        options.searches_description() == options.search_description,
        options.searches_categories() == options.search_categories,
        options.searches_notes() == options.search_notes,
{
}

/// Keywords combine by "and": an item matches two lists of keywords one
/// after the other exactly when it matches each list.
pub proof fn lemma_keywords_conjoin(
    item: Item,
    first: Seq<String>,
    second: Seq<String>,
    options: SearchOptions,
)
    ensures
        all_keywords_match(item, first + second, options) == (all_keywords_match(
            item,
            first,
            options,
        ) && all_keywords_match(item, second, options)),
{
    let both = first + second;
    if all_keywords_match(item, first, options) && all_keywords_match(item, second, options) {
        assert forall|i: int| 0 <= i < both.len() implies keyword_matches(
            item,
            #[trigger] both[i]@,
            options,
        ) by {
            if i < first.len() {
                assert(both[i] == first[i]);
            } else {
                assert(both[i] == second[i - first.len()]);
            }
        }
    }
    if all_keywords_match(item, both, options) {
        assert forall|i: int| 0 <= i < first.len() implies keyword_matches(
            item,
            #[trigger] first[i]@,
            options,
        ) by {
            assert(both[i] == first[i]);
        }
        assert forall|i: int| 0 <= i < second.len() implies keyword_matches(
            item,
            #[trigger] second[i]@,
            options,
        ) by {
            assert(both[first.len() + i] == second[i]);
        }
    }
}

/// With no keywords, every item matches.
pub proof fn lemma_no_keywords_match_every_item(item: Item, options: SearchOptions)
    ensures
        all_keywords_match(item, Seq::empty(), options),
{
}

/// Matching ignores case: keywords with the same lowercase form match the
/// same items.
pub proof fn lemma_matching_ignores_case(
    item: Item,
    k1: Seq<char>,
    k2: Seq<char>,
    options: SearchOptions,
)
    requires
        lowercase_of(k1) == lowercase_of(k2),
    ensures
        keyword_matches(item, k1, options) == keyword_matches(item, k2, options),
{
    if item.categories is Some {
        let cats = item.categories.unwrap()@;
        assert(forall|i: int| 0 <= i < cats.len() ==> text_hits(#[trigger] cats[i]@, k1) == text_hits(cats[i]@, k2));
    }
}

/// The results of a search are sorted by name and are exactly the
/// candidates that match every keyword.
pub proof fn lemma_results_are_the_matches(
    candidates: Seq<SearchResult>,
    keywords: Seq<String>,
    options: SearchOptions,
    results: Seq<SearchResult>,
    r: SearchResult,
)
    requires
        is_stable_sort_by_name(results, matching(candidates, keywords, options)),
    ensures
        sorted_by_name(results),
        results.contains(r) <==> (candidates.contains(r) && all_keywords_match(
            r.item,
            keywords,
            options,
        )),
{
    let pred = |c: SearchResult| all_keywords_match(c.item, keywords, options);
    lemma_stable_sort_same_records(results, matching(candidates, keywords, options), r);
    if matching(candidates, keywords, options).contains(r) {
        candidates.lemma_filter_contains_rev(pred, r);
        let i = choose|i: int|
            0 <= i < candidates.filter(pred).len() && candidates.filter(pred)[i] == r;
        candidates.lemma_filter_pred(pred, i);
    }
    if candidates.contains(r) && all_keywords_match(r.item, keywords, options) {
        let i = choose|i: int| 0 <= i < candidates.len() && candidates[i] == r;
        candidates.lemma_filter_contains(pred, i);
    }
}

/// Adding a keyword narrows a search: the results for the longer list of
/// keywords are exactly the earlier results that also match the added
/// keyword, in the same order, so there are never more of them.
pub proof fn lemma_added_keyword_narrows(
    candidates: Seq<SearchResult>,
    keywords: Seq<String>,
    added: String,
    options: SearchOptions,
    fewer: Seq<SearchResult>,
    more: Seq<SearchResult>,
)
    requires
        is_stable_sort_by_name(fewer, matching(candidates, keywords, options)),
        is_stable_sort_by_name(more, matching(candidates, keywords.push(added), options)),
    ensures
        more == fewer.filter(|r: SearchResult| keyword_matches(r.item, added@, options)),
        more.len() <= fewer.len(),
{
    let q = |r: SearchResult| keyword_matches(r.item, added@, options);
    let p1 = |r: SearchResult| all_keywords_match(r.item, keywords, options);
    let p2 = |r: SearchResult| all_keywords_match(r.item, keywords.push(added), options);
    let single = seq![added];
    assert(keywords.push(added) =~= keywords + single);
    assert forall|r: SearchResult| #[trigger] p2(r) == (p1(r) && q(r)) by {
        lemma_keywords_conjoin(r.item, keywords, single, options);
        assert(all_keywords_match(r.item, single, options) == keyword_matches(
            r.item,
            added@,
            options,
        )) by {
            if keyword_matches(r.item, added@, options) {
                assert forall|i: int| 0 <= i < single.len() implies keyword_matches(
                    r.item,
                    #[trigger] single[i]@,
                    options,
                ) by {
                    assert(single[i] == added);
                }
            }
            if all_keywords_match(r.item, single, options) {
                assert(single[0] == added);
            }
        }
    }
    assert(p2 =~= (|r: SearchResult| p1(r) && q(r)));
    lemma_filter_twice(candidates, p1, q);
    assert(matching(candidates, keywords.push(added), options) == matching(
        candidates,
        keywords,
        options,
    ).filter(q));
    lemma_filter_of_stable_sort(fewer, matching(candidates, keywords, options), q);
    assert forall|k: Seq<char>| #[trigger] with_name(more, k) == with_name(fewer.filter(q), k) by {
        assert(with_name(more, k) == with_name(
            matching(candidates, keywords.push(added), options),
            k,
        ));
        assert(with_name(fewer.filter(q), k) == with_name(
            matching(candidates, keywords, options).filter(q),
            k,
        ));
    }
    lemma_stable_sort_unique(more, fewer.filter(q));
    fewer.lemma_filter_len(q);
}

/// A search of the name alone hits exactly when the keyword, lowercased,
/// occurs at some position of the name, lowercased.
pub proof fn lemma_name_search_is_substring_search(
    item: Item,
    keyword: Seq<char>,
    options: SearchOptions,
)
    requires
        options.search_name,
        !options.search_description,
        !options.search_categories,
        !options.search_notes,
        !options.search_all,
    ensures
        keyword_matches(item, keyword, options) <==> exists|j: int|
            0 <= j && j + lowercase_of(keyword).len() <= lowercase_of(item.name@).len()
                && #[trigger] lowercase_of(item.name@).subrange(j, j + lowercase_of(keyword).len())
                == lowercase_of(keyword),
{
}

/// A search of the description alone hits exactly when the keyword,
/// lowercased, occurs at some position of the description, lowercased.
pub proof fn lemma_description_search_is_substring_search(
    item: Item,
    keyword: Seq<char>,
    options: SearchOptions,
)
    requires
        !options.search_name,
        options.search_description,
        !options.search_categories,
        !options.search_notes,
        !options.search_all,
    ensures
        keyword_matches(item, keyword, options) <==> exists|j: int|
            0 <= j && j + lowercase_of(keyword).len() <= lowercase_of(item.description@).len()
                && #[trigger] lowercase_of(item.description@).subrange(
                j,
                j + lowercase_of(keyword).len(),
            ) == lowercase_of(keyword),
{
}

/// A search of the notes alone hits exactly when the item has notes and the
/// keyword, lowercased, occurs at some position of them, lowercased.
pub proof fn lemma_notes_search_is_substring_search(
    item: Item,
    keyword: Seq<char>,
    options: SearchOptions,
)
    requires
        !options.search_name,
        !options.search_description,
        !options.search_categories,
        options.search_notes,
        !options.search_all,
    ensures
        keyword_matches(item, keyword, options) <==> (item.notes matches Some(notes) && exists|j: int|
            0 <= j && j + lowercase_of(keyword).len() <= lowercase_of(notes@).len()
                && #[trigger] lowercase_of(notes@).subrange(j, j + lowercase_of(keyword).len())
                == lowercase_of(keyword)),
{
}

/// A search of the categories alone hits exactly when the item has
/// categories and the keyword, lowercased, occurs at some position of one
/// of them, lowercased: a category need not equal the keyword ("tool" hits
/// "tools").
pub proof fn lemma_category_search_is_substring_search(
    item: Item,
    keyword: Seq<char>,
    options: SearchOptions,
)
    requires
        !options.search_name,
        !options.search_description,
        options.search_categories,
        !options.search_notes,
        !options.search_all,
    ensures
        keyword_matches(item, keyword, options) <==> (item.categories matches Some(cats) && exists|
            i: int,
            j: int,
        |
            0 <= i < cats@.len() && 0 <= j && j + lowercase_of(keyword).len() <= lowercase_of(
                cats@[i]@,
            ).len() && #[trigger] lowercase_of(cats@[i]@).subrange(
                j,
                j + lowercase_of(keyword).len(),
            ) == lowercase_of(keyword)),
{
    let k = lowercase_of(keyword);
    if keyword_matches(item, keyword, options) {
        let cats = item.categories.unwrap()@;
        let i = choose|i: int| 0 <= i < cats.len() && text_hits(#[trigger] cats[i]@, keyword);
        let h = lowercase_of(cats[i]@);
        let j = choose|j: int| 0 <= j && j + k.len() <= h.len() && #[trigger] h.subrange(j, j + k.len()) == k;
        assert(lowercase_of(cats[i]@).subrange(j, j + k.len()) == k);
    }
    if item.categories is Some {
        let cats = item.categories.unwrap()@;
        if exists|i: int, j: int|
            0 <= i < cats.len() && 0 <= j && j + k.len() <= lowercase_of(cats[i]@).len()
                && #[trigger] lowercase_of(cats[i]@).subrange(j, j + k.len()) == k {
            let (i, j) = choose|i: int, j: int|
                0 <= i < cats.len() && 0 <= j && j + k.len() <= lowercase_of(cats[i]@).len()
                    && #[trigger] lowercase_of(cats[i]@).subrange(j, j + k.len()) == k;
            assert(lowercase_of(cats[i]@).subrange(j, j + k.len()) == k);
            assert(text_hits(cats[i]@, keyword));
        }
    }
}

// ---------------------------------------------------------------------------
// Reporting
// ---------------------------------------------------------------------------

/// The lines that describe one result.
pub open spec fn result_block(r: SearchResult) -> Seq<Seq<char>> {
    seq!["\n---"@, "Name: "@ + r.item.name@, "Description: "@ + r.item.description@] + match r.item.categories {
        Some(cats) => seq!["Categories: "@ + joined(views(cats@), ", "@)],
        None => Seq::<Seq<char>>::empty(),
    } + match r.item.notes {
        Some(notes) => seq!["Notes: "@ + notes@],
        None => Seq::<Seq<char>>::empty(),
    } + seq!["File: "@ + r.file_path@]
}

/// The lines of all the results, in order.
pub open spec fn result_blocks(results: Seq<SearchResult>) -> Seq<Seq<char>>
    decreases results.len(),
{
    if results.len() == 0 {
        Seq::empty()
    } else {
        result_blocks(results.drop_last()) + result_block(results.last())
    }
}

/// The report of a search: a notice when nothing matched, else a count
/// followed by each result's lines.
pub open spec fn report_lines(results: Seq<SearchResult>) -> Seq<Seq<char>> {
    if results.len() == 0 {
        seq!["No items found matching all keywords."@]
    } else {
        seq!["Found "@ + decimal(results.len()) + " items:"@] + result_blocks(results)
    }
}

/// A search report with results starts with their count, and names every
/// result: its name, description and file, its categories joined by `, `
/// where it has them, and its notes where it has them. Without results it is
/// the one notice line.
pub proof fn lemma_report_names_every_result(results: Seq<SearchResult>, i: int)
    ensures
        results.len() == 0 ==> report_lines(results) == seq![
            "No items found matching all keywords."@,
        ],
        results.len() > 0 ==> report_lines(results)[0] == "Found "@ + decimal(results.len())
            + " items:"@,
        0 <= i < results.len() ==> {
            let r = results[i];
            let lines = report_lines(results);
            &&& lines.contains("Name: "@ + r.item.name@)
            &&& lines.contains("Description: "@ + r.item.description@)
            &&& lines.contains("File: "@ + r.file_path@)
            &&& (r.item.categories matches Some(cats) ==> lines.contains(
                "Categories: "@ + joined(views(cats@), ", "@),
            ))
            &&& (r.item.notes matches Some(notes) ==> lines.contains("Notes: "@ + notes@))
        },
{
    if 0 <= i < results.len() {
        lemma_blocks_hold_each_block(results, i);
        let r = results[i];
        let lines = report_lines(results);
        let head = seq!["Found "@ + decimal(results.len()) + " items:"@];
        let (before, after) = choose|before: Seq<Seq<char>>, after: Seq<Seq<char>>|
            result_blocks(results) == before + result_block(r) + after;
        assert(lines == head + before + result_block(r) + after);
        let off: int = 1 + before.len() as int;
        let b = result_block(r);
        assert(lines[off + 1] == b[1]);
        assert(lines[off + 2] == b[2]);
        assert(lines[off + b.len() - 1] == b[b.len() - 1]);
        match r.item.categories {
            Some(cats) => {
                assert(lines[off + 3] == b[3]);
            },
            None => {},
        }
        match r.item.notes {
            Some(notes) => {
                assert(lines[off + b.len() - 2] == b[b.len() - 2]);
            },
            None => {},
        }
    }
}

/// The lines of all the results hold each result's lines as one run.
proof fn lemma_blocks_hold_each_block(results: Seq<SearchResult>, i: int)
    requires
        0 <= i < results.len(),
    ensures
        exists|before: Seq<Seq<char>>, after: Seq<Seq<char>>|
            result_blocks(results) == before + result_block(results[i]) + after,
    decreases results.len(),
{
    let rest = results.drop_last();
    if i == results.len() - 1 {
        let before = result_blocks(rest);
        let after = Seq::<Seq<char>>::empty();
        assert(result_blocks(results) =~= before + result_block(results[i]) + after);
    } else {
        lemma_blocks_hold_each_block(rest, i);
        assert(rest[i] == results[i]);
        let (before, after) = choose|before: Seq<Seq<char>>, after: Seq<Seq<char>>|
            result_blocks(rest) == before + result_block(rest[i]) + after;
        let after2 = after + result_block(results.last());
        assert(result_blocks(results) =~= before + result_block(results[i]) + after2);
    }
}

/// Appends the lines describing one result.
fn push_result_block(lines: &mut Vec<String>, r: &SearchResult)
    ensures
        views(final(lines)@) == views(old(lines)@) + result_block(*r),
{
    let ghost start = views(lines@);
    lines.push(String::from_str("\n---"));
    lines.push(concat("Name: ", r.item.name.as_str()));
    lines.push(concat("Description: ", r.item.description.as_str()));
    let ghost mid = views(lines@);
    match &r.item.categories {
        Some(cats) => {
            let joined_cats = join_strings(cats, ", ");
            lines.push(concat("Categories: ", joined_cats.as_str()));
        },
        None => {},
    }
    let ghost after_cats = views(lines@);
    match &r.item.notes {
        Some(notes) => {
            lines.push(concat("Notes: ", notes.as_str()));
        },
        None => {},
    }
    let ghost after_notes = views(lines@);
    lines.push(concat("File: ", r.file_path.as_str()));
    proof {
        assert(mid =~= start + seq!["\n---"@, "Name: "@ + r.item.name@, "Description: "@ + r.item.description@]);
        assert(after_cats =~= mid + match r.item.categories {
            Some(cats) => seq!["Categories: "@ + joined(views(cats@), ", "@)],
            None => Seq::<Seq<char>>::empty(),
        });
        assert(after_notes =~= after_cats + match r.item.notes {
            Some(notes) => seq!["Notes: "@ + notes@],
            None => Seq::<Seq<char>>::empty(),
        });
        assert(views(lines@) =~= start + result_block(*r));
    }
}

/// The report lines of a search's results.
pub fn search_report_lines(results: &Vec<SearchResult>) -> (lines: Vec<String>)
    ensures
        views(lines@) == report_lines(results@),
{
    let mut lines: Vec<String> = Vec::new();
    let n = results.len();
    if n == 0 {
        lines.push(String::from_str("No items found matching all keywords."));
        proof {
            assert(views(lines@) =~= report_lines(results@));
        }
        return lines;
    }
    let count = decimal_string(n);
    let head = concat("Found ", count.as_str());
    lines.push(concat(head.as_str(), " items:"));
    proof {
        assert(views(lines@) =~= seq!["Found "@ + decimal(n as nat) + " items:"@] + result_blocks(
            results@.take(0),
        ));
    }
    let mut i: usize = 0;
    while i < n
        invariant
            n == results@.len(),
            i <= n,
            views(lines@) == seq!["Found "@ + decimal(n as nat) + " items:"@] + result_blocks(
                results@.take(i as int),
            ),
        decreases n - i,
    {
        push_result_block(&mut lines, &results[i]);
        proof {
            assert(results@.take(i + 1).drop_last() =~= results@.take(i as int));
            assert(views(lines@) =~= seq!["Found "@ + decimal(n as nat) + " items:"@] + result_blocks(
                results@.take(i + 1),
            ));
        }
        i += 1;
    }
    proof {
        assert(results@.take(n as int) =~= results@);
    }
    lines
}

} // verus!
