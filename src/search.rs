//! The line search: keep each line of a text that holds a pattern, in order.

use vstd::prelude::*;
use crate::config::Config;
use crate::text::{
    contains_str, has_substring, is_run, lemma_lines_are_runs, lemma_run_lowered,
    lemma_substring_lowered, lemma_substring_of_run, lines_of, lower_str, lowered_chars,
    split_lines, views_of,
};

verus! {

/// Whether a line holds `query`.
pub open spec fn holds(query: Seq<char>) -> spec_fn(Seq<char>) -> bool {
    |l: Seq<char>| has_substring(l, query)
}

/// Whether a line's lower-case form holds the lower-case form of `query`,
/// both lowered character by character.
pub open spec fn holds_ignoring_case(query: Seq<char>) -> spec_fn(Seq<char>) -> bool {
    |l: Seq<char>| has_substring(lowered_chars(l), lowered_chars(query))
}

/// The lines of `contents` that hold `query`, in their order in `contents`.
pub open spec fn matching_lines(query: Seq<char>, contents: Seq<char>) -> Seq<Seq<char>> {
    lines_of(contents).filter(holds(query))
}

/// The lines of `contents` whose lower-case form holds the lower-case form of
/// `query`, in their order in `contents`.
pub open spec fn matching_lines_ignoring_case(query: Seq<char>, contents: Seq<char>) -> Seq<
    Seq<char>,
> {
    lines_of(contents).filter(holds_ignoring_case(query))
}

proof fn lemma_filter_step(s: Seq<Seq<char>>, i: int, pred: spec_fn(Seq<char>) -> bool)
    requires
        0 <= i < s.len(),
    ensures
        s.take(i + 1).filter(pred) == if pred(s[i]) {
            s.take(i).filter(pred).push(s[i])
        } else {
            s.take(i).filter(pred)
        },
{
    reveal(Seq::filter);
    assert(s.take(i + 1).drop_last() =~= s.take(i));
}

/// Whether `idx` picks `r` out of `s` at strictly increasing positions.
pub open spec fn picks_in_order(r: Seq<Seq<char>>, s: Seq<Seq<char>>, idx: Seq<int>) -> bool {
    &&& idx.len() == r.len()
    &&& forall|k: int| 0 <= k < idx.len() ==> 0 <= #[trigger] idx[k] < s.len() && s[idx[k]] == r[k]
    &&& forall|j: int, k: int| 0 <= j < k < idx.len() ==> #[trigger] idx[j] < #[trigger] idx[k]
}

/// Whether `r` is made of lines of `s` in the order in which they stand in `s`.
pub open spec fn in_source_order(r: Seq<Seq<char>>, s: Seq<Seq<char>>) -> bool {
    exists|idx: Seq<int>| #[trigger] picks_in_order(r, s, idx)
}

proof fn lemma_filter_in_order(s: Seq<Seq<char>>, pred: spec_fn(Seq<char>) -> bool)
    ensures
        in_source_order(s.filter(pred), s),
    decreases s.len(),
{
    reveal(Seq::filter);
    if s.len() == 0 {
        assert(picks_in_order(s.filter(pred), s, Seq::empty()));
    } else {
        let t = s.drop_last();
        lemma_filter_in_order(t, pred);
        let idx = choose|idx: Seq<int>| #[trigger] picks_in_order(t.filter(pred), t, idx);
        if pred(s.last()) {
            let idx2 = idx.push(s.len() - 1);
            assert(picks_in_order(s.filter(pred), s, idx2));
        } else {
            assert(picks_in_order(s.filter(pred), s, idx));
        }
    }
}

/// The lines found, with case counting or not, stand in the order in which
/// they come in the text: nothing is sorted or moved.
pub proof fn matches_keep_source_order(query: Seq<char>, contents: Seq<char>)
    ensures
        in_source_order(matching_lines(query, contents), lines_of(contents)),
        in_source_order(matching_lines_ignoring_case(query, contents), lines_of(contents)),
{
    lemma_filter_in_order(lines_of(contents), holds(query));
    lemma_filter_in_order(lines_of(contents), holds_ignoring_case(query));
}

/// The lines of `contents` that contain `query` exactly, in order.
pub fn search<'a>(query: &str, contents: &'a str) -> (r: Vec<&'a str>)
    ensures
        views_of(r@) == matching_lines(query@, contents@),
{
    let lines = split_lines(contents);
    let mut results: Vec<&'a str> = Vec::new();
    let mut i: usize = 0;
    while i < lines.len()
        invariant
            i <= lines.len(),
            views_of(lines@) == lines_of(contents@),
            views_of(results@) == views_of(lines@).take(i as int).filter(holds(query@)),
        decreases lines.len() - i,
    {
        let line = lines[i];
        let keep = contains_str(line, query);
        let ghost before = views_of(results@);
        if keep {
            results.push(line);
            assert(views_of(results@) =~= before.push(line@));
        }
        proof {
            lemma_filter_step(views_of(lines@), i as int, holds(query@));
            assert(views_of(lines@)[i as int] == line@);
            assert(holds(query@)(line@) == keep);
        }
        i += 1;
    }
    assert(views_of(lines@).take(i as int) =~= views_of(lines@));
    results
}

proof fn lemma_filter_within(
    s: Seq<Seq<char>>,
    narrow: spec_fn(Seq<char>) -> bool,
    wide: spec_fn(Seq<char>) -> bool,
)
    requires
        forall|l: Seq<char>| #[trigger] narrow(l) ==> wide(l),
    ensures
        in_source_order(s.filter(narrow), s.filter(wide)),
    decreases s.len(),
{
    reveal(Seq::filter);
    if s.len() == 0 {
        assert(picks_in_order(s.filter(narrow), s.filter(wide), Seq::empty()));
    } else {
        let t = s.drop_last();
        lemma_filter_within(t, narrow, wide);
        let idx = choose|idx: Seq<int>|
            #[trigger] picks_in_order(t.filter(narrow), t.filter(wide), idx);
        if narrow(s.last()) {
            let idx2 = idx.push(t.filter(wide).len() as int);
            assert(picks_in_order(s.filter(narrow), s.filter(wide), idx2));
        } else {
            assert(picks_in_order(s.filter(narrow), s.filter(wide), idx));
        }
    }
}

/// The lines whose key at the same position holds `needle`, in order.
pub open spec fn kept_by_keys(lines: Seq<Seq<char>>, keys: Seq<Seq<char>>, needle: Seq<char>) -> Seq<
    Seq<char>,
>
    decreases lines.len(),
{
    if lines.len() == 0 || keys.len() != lines.len() {
        Seq::empty()
    } else {
        let rest = kept_by_keys(lines.drop_last(), keys.drop_last(), needle);
        if has_substring(keys.last(), needle) {
            rest.push(lines.last())
        } else {
            rest
        }
    }
}

proof fn lemma_kept_by_lowered_keys(lines: Seq<Seq<char>>, keys: Seq<Seq<char>>, query: Seq<char>)
    requires
        keys.len() == lines.len(),
        forall|j: int| 0 <= j < lines.len() ==> #[trigger] keys[j] == lowered_chars(lines[j]),
    ensures
        kept_by_keys(lines, keys, lowered_chars(query)) == lines.filter(
            holds_ignoring_case(query),
        ),
    decreases lines.len(),
{
    reveal(Seq::filter);
    if lines.len() > 0 {
        let ld = lines.drop_last();
        let kd = keys.drop_last();
        assert forall|j: int| 0 <= j < ld.len() implies #[trigger] kd[j] == lowered_chars(
            ld[j],
        ) by {
            assert(keys[j] == lowered_chars(lines[j]));
        }
        lemma_kept_by_lowered_keys(ld, kd, query);
        assert(keys[lines.len() - 1] == lowered_chars(lines[lines.len() - 1]));
    }
}

/// Keeps each of `lines` whose key at the same position holds `needle`, in
/// order. With the lower-cased lines as keys and the lower-cased query as
/// `needle` this is the case-insensitive search.
pub fn select_by_keys<'a>(lines: &Vec<&'a str>, keys: &Vec<String>, needle: &str) -> (r: Vec<&'a str>)
    requires
        keys.len() == lines.len(),
    ensures
        views_of(r@) == kept_by_keys(views_of(lines@), keys@.map_values(|k: String| k@), needle@),
{
    let ghost key_views = keys@.map_values(|k: String| k@);
    let mut results: Vec<&'a str> = Vec::new();
    let mut i: usize = 0;
    while i < lines.len()
        invariant
            i <= lines.len(),
            keys.len() == lines.len(),
            key_views == keys@.map_values(|k: String| k@),
            views_of(results@) == kept_by_keys(
                views_of(lines@).take(i as int),
                key_views.take(i as int),
                needle@,
            ),
        decreases lines.len() - i,
    {
        let line = lines[i];
        let keep = contains_str(keys[i].as_str(), needle);
        let ghost before = views_of(results@);
        if keep {
            results.push(line);
            assert(views_of(results@) =~= before.push(line@));
        }
        proof {
            assert(views_of(lines@).take(i + 1).drop_last() =~= views_of(lines@).take(i as int));
            assert(key_views.take(i + 1).drop_last() =~= key_views.take(i as int));
            assert(views_of(lines@).take(i + 1).last() == line@);
            assert(key_views.take(i + 1).last() == keys[i as int]@);
        }
        i += 1;
    }
    assert(views_of(lines@).take(i as int) =~= views_of(lines@));
    assert(key_views.take(i as int) =~= key_views);
    results
}

/// The lines of `contents` that contain `query` when both are lower-cased
/// character by character, in order. The lines are handed back as they stand
/// in `contents`, and every line that `search` finds is among them, in the same
/// order.
pub fn search_case_insensitive<'a>(query: &str, contents: &'a str) -> (r: Vec<&'a str>)
    ensures
        views_of(r@) == matching_lines_ignoring_case(query@, contents@),
        in_source_order(matching_lines(query@, contents@), views_of(r@)),
{
    let lowered_query = lower_str(query);
    let lines = split_lines(contents);
    let mut keys: Vec<String> = Vec::new();
    let mut i: usize = 0;
    while i < lines.len()
        invariant
            i <= lines.len(),
            keys.len() == i,
            views_of(lines@) == lines_of(contents@),
            forall|j: int|
                0 <= j < i ==> #[trigger] keys@[j]@ == lowered_chars(views_of(lines@)[j]),
        decreases lines.len() - i,
    {
        let line = lines[i];
        let lowered_line = lower_str(line);
        proof {
            assert(views_of(lines@)[i as int] == line@);
        }
        keys.push(lowered_line);
        i += 1;
    }
    let results = select_by_keys(&lines, &keys, lowered_query.as_str());
    proof {
        let key_views = keys@.map_values(|k: String| k@);
        assert forall|j: int| 0 <= j < views_of(lines@).len() implies #[trigger] key_views[j]
            == lowered_chars(views_of(lines@)[j]) by {
            assert(keys@[j]@ == lowered_chars(views_of(lines@)[j]));
        }
        lemma_kept_by_lowered_keys(views_of(lines@), key_views, query@);
        exact_matches_within_case_insensitive(query@, contents@);
    }
    results
}

/// Searches `contents` for the request's query, ignoring case when the request
/// says so.
pub fn run_search<'a>(config: &Config, contents: &'a str) -> (r: Vec<&'a str>)
    ensures
        views_of(r@) == if config.ignore_case {
            matching_lines_ignoring_case(config.query@, contents@)
        } else {
            matching_lines(config.query@, contents@)
        },
{
    if config.ignore_case {
        search_case_insensitive(config.query.as_str(), contents)
    } else {
        search(config.query.as_str(), contents)
    }
}

/// A query that does not occur in the text matches no line exactly: the
/// result is empty, not an error.
pub proof fn absent_query_matches_nothing(query: Seq<char>, contents: Seq<char>)
    requires
        !has_substring(contents, query),
    ensures
        matching_lines(query, contents).len() == 0,
{
    let s = lines_of(contents);
    lemma_lines_are_runs(contents);
    s.filter_lemma(holds(query));
    if s.filter(holds(query)).len() > 0 {
        let x = s.filter(holds(query))[0];
        assert(s.filter(holds(query)).contains(x));
        s.lemma_filter_contains_rev(holds(query), x);
        let j = choose|j: int| 0 <= j < s.len() && s[j] == x;
        assert(is_run(contents, s[j]));
        lemma_substring_of_run(contents, x, query);
    }
}

/// Every line that the exact search finds is found when case is ignored,
/// and in the same order: the exact matches are picked out of the
/// case-insensitive matches at increasing positions.
pub proof fn exact_matches_within_case_insensitive(query: Seq<char>, contents: Seq<char>)
    ensures
        in_source_order(
            matching_lines(query, contents),
            matching_lines_ignoring_case(query, contents),
        ),
{
    assert forall|l: Seq<char>| #[trigger] holds(query)(l) implies holds_ignoring_case(query)(
        l,
    ) by {
        lemma_substring_lowered(l, query);
    }
    lemma_filter_within(lines_of(contents), holds(query), holds_ignoring_case(query));
}

/// A query whose lower-case form does not occur in the lower-cased text
/// matches no line when case is ignored: the result is empty, not an error.
pub proof fn absent_query_matches_nothing_ignoring_case(query: Seq<char>, contents: Seq<char>)
    requires
        !has_substring(lowered_chars(contents), lowered_chars(query)),
    ensures
        matching_lines_ignoring_case(query, contents).len() == 0,
{
    let s = lines_of(contents);
    let p = holds_ignoring_case(query);
    lemma_lines_are_runs(contents);
    s.filter_lemma(p);
    if s.filter(p).len() > 0 {
        let x = s.filter(p)[0];
        assert(s.filter(p).contains(x));
        s.lemma_filter_contains_rev(p, x);
        let j = choose|j: int| 0 <= j < s.len() && s[j] == x;
        assert(is_run(contents, s[j]));
        lemma_run_lowered(contents, x);
        lemma_substring_of_run(lowered_chars(contents), lowered_chars(x), lowered_chars(query));
    }
}

/// Searching twice with the same query over the same text gives the same
/// lines, with case counting or not.
pub proof fn search_is_repeatable(
    query: Seq<char>,
    contents: Seq<char>,
    again_query: Seq<char>,
    again_contents: Seq<char>,
)
    requires
        query == again_query,
        contents == again_contents,
    ensures
        matching_lines(query, contents) == matching_lines(again_query, again_contents),
        matching_lines_ignoring_case(query, contents) == matching_lines_ignoring_case(
            again_query,
            again_contents,
        ),
{
}

} // verus!
