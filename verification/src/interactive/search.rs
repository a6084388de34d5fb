//! Searching topics in the topic overview.
//!
//! A topic matches a search when its lowercase form contains the search text.
use vstd::prelude::*;

use crate::interactive::keys::SearchSelection;
use crate::interactive::mqtt_history::ref_views;
use crate::text::str_eq;
use crate::topic_logic::{spec_split, split_topic, views};

verus! {

/// The lowercase form of a text, as `str::to_lowercase` gives it.
pub uninterp spec fn lowercase(text: Seq<char>) -> Seq<char>;

/// The lowercase form of a character, as `char::to_lowercase` gives it.
pub uninterp spec fn char_lowercase(c: char) -> Seq<char>;

/// Calls `str::to_lowercase`: the lowercase form of each character, with the
/// final sigma of a word lowered as such. The mapping is Unicode's and is not
/// written out here.
#[verifier::external_body]
fn to_lowercase(text: &str) -> (lower: String)
    ensures
        lower@ == lowercase(text@),
{
    text.to_lowercase()
}

/// Calls `char::to_lowercase` and collects the characters it yields. The
/// mapping is Unicode's and is not written out here.
#[verifier::external_body]
fn char_to_lowercase(c: char) -> (lower: String)
    ensures
        lower@ == char_lowercase(c),
{
    c.to_lowercase().to_string()
}

/// `needle` occurs in `haystack` as a contiguous part.
pub open spec fn has_substring(haystack: Seq<char>, needle: Seq<char>) -> bool {
    exists|i: int|
        0 <= i && i + needle.len() <= haystack.len() && #[trigger] haystack.subrange(
            i,
            i + needle.len(),
        ) == needle
}

/// Whether `needle` occurs in `haystack`.
pub fn contains_text(haystack: &str, needle: &str) -> (found: bool)
    ensures
        found == has_substring(haystack@, needle@),
{
    let n = haystack.unicode_len();
    let m = needle.unicode_len();
    if m > n {
        return false;
    }
    let mut i: usize = 0;
    while i <= n - m
        invariant
            n == haystack@.len(),
            m == needle@.len(),
            m <= n,
            i <= n - m + 1,
            forall|j: int| 0 <= j < i ==> #[trigger] haystack@.subrange(j, j + m) != needle@,
        decreases n - i + 1,
    {
        let mut k: usize = 0;
        let mut same = true;
        while k < m
            invariant
                n == haystack@.len(),
                m == needle@.len(),
                i + m <= n,
                k <= m,
                same == (forall|l: int| 0 <= l < k ==> haystack@[i + l] == needle@[l]),
            decreases m - k,
        {
            if haystack.get_char(i + k) != needle.get_char(k) {
                same = false;
            }
            k += 1;
        }
        if same {
            assert(haystack@.subrange(i as int, i + m) =~= needle@);
            return true;
        }
        assert(haystack@.subrange(i as int, i + m)[0] == haystack@[i as int]);
        assert(haystack@.subrange(i as int, i + m) != needle@) by {
            let l = choose|l: int| 0 <= l < m && haystack@[i + l] != needle@[l];
            assert(haystack@.subrange(i as int, i + m)[l] == haystack@[i + l]);
        }
        i += 1;
    }
    assert forall|j: int| 0 <= j && j + m <= n implies #[trigger] haystack@.subrange(j, j + m) != needle@ by {}
    false
}

/// Whether a topic matches a search.
pub open spec fn topic_matches(topic: Seq<char>, search: Seq<char>) -> bool {
    has_substring(lowercase(topic), search)
}

/// Whether `topic` matches `search`: its lowercase form contains the search text.
pub fn matches_search(topic: &str, search: &str) -> (found: bool)
    ensures
        found == topic_matches(topic@, search@),
{
    let lower = to_lowercase(topic);
    contains_text(lower.as_str(), search)
}

/// Adds a typed character to the search, in its lowercase form.
pub fn push_search(search: &mut String, c: char)
    ensures
        final(search)@ == old(search)@ + char_lowercase(c),
{
    let lower = char_to_lowercase(c);
    search.append(lower.as_str());
}

/// Removes the last character of the search, if any.
pub fn pop_search(search: &mut String)
    ensures
        final(search)@ == (if old(search)@.len() == 0 {
            old(search)@
        } else {
            old(search)@.drop_last()
        }),
{
    let n = search.unicode_len();
    if n > 0 {
        let shorter = String::from_str(search.as_str().substring_char(0, n - 1));
        *search = shorter;
    }
}

/// The first position of `topic` in `topics`.
pub open spec fn position_of(topics: Seq<Seq<char>>, topic: Seq<char>) -> Option<int>
    decreases topics.len(),
{
    if topics.len() == 0 {
        None
    } else if topics[0] == topic {
        Some(0)
    } else {
        match position_of(topics.drop_first(), topic) {
            Some(i) => Some(i + 1),
            None => None,
        }
    }
}

/// The characters of the selected topic, if any.
pub open spec fn selection_view(selection: Option<String>) -> Option<Seq<char>> {
    match selection {
        Some(topic) => Some(topic@),
        None => None,
    }
}

/// Where a search starts: at the selected topic, or at the first topic.
pub open spec fn search_begin(topics: Seq<Seq<char>>, selection: Option<Seq<char>>) -> int {
    match selection {
        Some(topic) => match position_of(topics, topic) {
            Some(i) => i,
            None => 0,
        },
        None => 0,
    }
}

/// The topic at `i` matches the search.
pub open spec fn is_match(topics: Seq<Seq<char>>, search: Seq<char>, i: int) -> bool {
    0 <= i < topics.len() && topic_matches(topics[i], search)
}

/// No topic in `from..to` matches.
pub open spec fn no_match_in(topics: Seq<Seq<char>>, search: Seq<char>, from: int, to: int) -> bool {
    forall|j: int| from <= j < to ==> !#[trigger] is_match(topics, search, j)
}

/// The topic at `i` is the one a search step selects: the nearest match in
/// the direction of the step, or, when there is none that way, the last
/// match (stepping back) or the first match (otherwise).
pub open spec fn is_search_target(
    topics: Seq<Seq<char>>,
    search: Seq<char>,
    begin: int,
    advance: SearchSelection,
    i: int,
) -> bool {
    let n = topics.len() as int;
    is_match(topics, search, i) && match advance {
        SearchSelection::Before => {
            ||| i < begin && no_match_in(topics, search, i + 1, begin)
            ||| no_match_in(topics, search, 0, begin) && no_match_in(topics, search, i + 1, n)
        },
        SearchSelection::Stay => {
            ||| i >= begin && no_match_in(topics, search, begin, i)
            ||| no_match_in(topics, search, begin, n) && no_match_in(topics, search, 0, i)
        },
        SearchSelection::After => {
            ||| i > begin && no_match_in(topics, search, begin + 1, i)
            ||| no_match_in(topics, search, begin + 1, n) && no_match_in(topics, search, 0, i)
        },
    }
}

/// A search step selects at most one topic.
pub proof fn lemma_search_target_unique(
    topics: Seq<Seq<char>>,
    search: Seq<char>,
    begin: int,
    advance: SearchSelection,
    i: int,
    j: int,
)
    requires
        0 <= begin,
        is_search_target(topics, search, begin, advance, i),
        is_search_target(topics, search, begin, advance, j),
    ensures
        i == j,
{
}

/// Staying on a selected topic that matches keeps it selected.
pub proof fn lemma_stay_keeps_matching_selection(topics: Seq<Seq<char>>, search: Seq<char>, begin: int)
    requires
        is_match(topics, search, begin),
    ensures
        is_search_target(topics, search, begin, SearchSelection::Stay, begin),
{
}

proof fn lemma_position_of(topics: Seq<Seq<char>>, topic: Seq<char>, k: int)
    requires
        0 <= k <= topics.len(),
        forall|j: int| 0 <= j < k ==> topics[j] != topic,
    ensures
        k < topics.len() && topics[k] == topic ==> position_of(topics, topic) == Some(k),
        k == topics.len() ==> position_of(topics, topic) is None,
    decreases k,
{
    if topics.len() > 0 && k > 0 {
        lemma_position_of(topics.drop_first(), topic, k - 1);
    }
}

/// Finds where a search starts: the position of the selected topic, or 0.
fn begin_of(topics: &Vec<&String>, selection: &Option<String>) -> (begin: usize)
    ensures
        begin == search_begin(ref_views(topics@), selection_view(*selection)),
        begin == 0 || begin < topics.len(),
{
    let ghost seen = ref_views(topics@);
    match selection {
        None => 0,
        Some(selected) => {
            let mut i: usize = 0;
            while i < topics.len()
                invariant
                    i <= topics.len(),
                    seen == ref_views(topics@),
                    selection_view(*selection) == Some(selected@),
                    forall|j: int| 0 <= j < i ==> seen[j] != selected@,
                decreases topics.len() - i,
            {
                if str_eq(topics[i].as_str(), selected.as_str()) {
                    proof {
                        assert(seen[i as int] == selected@);
                        lemma_position_of(seen, selected@, i as int);
                        assert(position_of(seen, selected@) == Some(i as int));
                        assert(selection_view(*selection) == Some(selected@));
                        assert(search_begin(seen, selection_view(*selection)) == i);
                    }
                    return i;
                }
                i += 1;
            }
            proof {
                lemma_position_of(seen, selected@, i as int);
            }
            0
        },
    }
}

/// The match a search step selects, as an index into `topics`, or `None`
/// when no topic matches.
pub fn search_target(
    topics: &Vec<&String>,
    selection: &Option<String>,
    search: &str,
    advance: SearchSelection,
) -> (target: Option<usize>)
    ensures
        ({
            let seen = ref_views(topics@);
            let begin = search_begin(seen, selection_view(*selection));
            match target {
                Some(i) => is_search_target(seen, search@, begin, advance, i as int),
                None => no_match_in(seen, search@, 0, seen.len() as int),
            }
        }),
{
    let ghost seen = ref_views(topics@);
    let n = topics.len();
    let begin = begin_of(topics, selection);
    let mut matching: Vec<bool> = Vec::new();
    let mut i: usize = 0;
    while i < n
        invariant
            n == topics.len(),
            seen == ref_views(topics@),
            i <= n,
            matching.len() == i,
            forall|j: int| 0 <= j < i ==> matching[j] == is_match(seen, search@, j),
        decreases n - i,
    {
        matching.push(matches_search(topics[i].as_str(), search));
        i += 1;
    }
    match advance {
        SearchSelection::Before => {
            let mut i = begin;
            while i > 0
                invariant
                    seen == ref_views(topics@),
                    begin == search_begin(seen, selection_view(*selection)),
                    advance is Before,
                    n == topics.len(),
                    i <= begin,
                    begin == 0 || begin < n,
                    matching.len() == n,
                    forall|j: int| 0 <= j < n ==> matching[j] == is_match(seen, search@, j),
                    no_match_in(seen, search@, i as int, begin as int),
                decreases i,
            {
                if matching[i - 1] {
                    assert(is_match(seen, search@, i - 1));
                    assert(no_match_in(seen, search@, (i - 1) + 1, begin as int));
                    return Some(i - 1);
                }
                i -= 1;
            }
            let mut i = n;
            while i > 0
                invariant
                    seen == ref_views(topics@),
                    begin == search_begin(seen, selection_view(*selection)),
                    advance is Before,
                    n == topics.len(),
                    i <= n,
                    matching.len() == n,
                    forall|j: int| 0 <= j < n ==> matching[j] == is_match(seen, search@, j),
                    no_match_in(seen, search@, 0, begin as int),
                    no_match_in(seen, search@, i as int, n as int),
                decreases i,
            {
                if matching[i - 1] {
                    assert(is_match(seen, search@, i - 1));
                    assert(no_match_in(seen, search@, (i - 1) + 1, n as int));
                    return Some(i - 1);
                }
                i -= 1;
            }
            None
        },
        SearchSelection::Stay | SearchSelection::After => {
            let start = if matches!(advance, SearchSelection::Stay) {
                begin
            } else {
                begin + 1
            };
            let mut i = start;
            while i < n
                invariant
                    seen == ref_views(topics@),
                    begin == search_begin(seen, selection_view(*selection)),
                    !(advance is Before),
                    n == topics.len(),
                    start <= i,
                    start == (if advance is Stay {
                        begin as int
                    } else {
                        begin + 1
                    }),
                    i <= n || (n == 0 && i == start),
                    matching.len() == n,
                    forall|j: int| 0 <= j < n ==> matching[j] == is_match(seen, search@, j),
                    no_match_in(seen, search@, start as int, i as int),
                decreases n - i,
            {
                if matching[i] {
                    assert(is_match(seen, search@, i as int));
                    if matches!(advance, SearchSelection::Stay) {
                        assert(is_search_target(seen, search@, begin as int, advance, i as int));
                    } else {
                        assert(no_match_in(seen, search@, begin + 1, i as int));
                        assert(is_search_target(seen, search@, begin as int, advance, i as int));
                    }
                    return Some(i);
                }
                i += 1;
            }
            let mut i: usize = 0;
            while i < n
                invariant
                    seen == ref_views(topics@),
                    begin == search_begin(seen, selection_view(*selection)),
                    !(advance is Before),
                    n == topics.len(),
                    start == (if advance is Stay {
                        begin as int
                    } else {
                        begin + 1
                    }),
                    i <= n,
                    matching.len() == n,
                    forall|j: int| 0 <= j < n ==> matching[j] == is_match(seen, search@, j),
                    no_match_in(seen, search@, start as int, n as int),
                    no_match_in(seen, search@, 0, i as int),
                decreases n - i,
            {
                if matching[i] {
                    assert(is_match(seen, search@, i as int));
                    if matches!(advance, SearchSelection::Stay) {
                        assert(is_search_target(seen, search@, begin as int, advance, i as int));
                    } else {
                        assert(no_match_in(seen, search@, begin + 1, n as int));
                        assert(is_search_target(seen, search@, begin as int, advance, i as int));
                    }
                    return Some(i);
                }
                i += 1;
            }
            None
        },
    }
}

/// The indices of all topics that match the search, in order.
pub fn search_matches(topics: &Vec<&String>, search: &str) -> (found: Vec<usize>)
    ensures
        forall|k: int| 0 <= k < found.len() ==> is_match(ref_views(topics@), search@, #[trigger] found[k] as int),
        forall|k: int, l: int| 0 <= k < l < found.len() ==> found[k] < found[l],
        forall|j: int| #[trigger] is_match(ref_views(topics@), search@, j) ==> found@.contains(j as usize),
{
    let ghost seen = ref_views(topics@);
    let mut found: Vec<usize> = Vec::new();
    let mut i: usize = 0;
    while i < topics.len()
        invariant
            seen == ref_views(topics@),
            i <= topics.len(),
            forall|k: int| 0 <= k < found.len() ==> is_match(seen, search@, #[trigger] found[k] as int),
            forall|k: int| 0 <= k < found.len() ==> #[trigger] found[k] < i,
            forall|k: int, l: int| 0 <= k < l < found.len() ==> found[k] < found[l],
            forall|j: int| 0 <= j < i && #[trigger] is_match(seen, search@, j) ==> found@.contains(j as usize),
        decreases topics.len() - i,
    {
        let ghost before = found@;
        if matches_search(topics[i].as_str(), search) {
            found.push(i);
            assert(found@[found.len() - 1] == i);
            assert forall|j: int| 0 <= j < i + 1 && #[trigger] is_match(seen, search@, j) implies found@.contains(
                j as usize,
            ) by {
                if j < i {
                    let k = choose|k: int| 0 <= k < before.len() && before[k] == j as usize;
                    assert(found@[k] == j as usize);
                }
            }
        }
        i += 1;
    }
    found
}

/// The levels of a topic, owned.
pub fn topic_path(topic: &str) -> (path: Vec<String>)
    ensures
        path@.map_values(|s: String| s@) == spec_split(topic@),
{
    let parts = split_topic(topic);
    let mut path: Vec<String> = Vec::new();
    let mut i: usize = 0;
    while i < parts.len()
        invariant
            i <= parts.len(),
            views(parts@) == spec_split(topic@),
            path@.map_values(|s: String| s@) == views(parts@).take(i as int),
            path.len() == i,
        decreases parts.len() - i,
    {
        let ghost before = path@;
        path.push(String::from_str(parts[i]));
        proof {
            assert(path@ == before.push(path@[i as int]));
            assert(before.map_values(|s: String| s@) == views(parts@).take(i as int));
            assert(path@.map_values(|s: String| s@) =~= views(parts@).take(i + 1));
        }
        i += 1;
    }
    proof {
        assert(views(parts@).take(parts.len() as int) =~= views(parts@));
    }
    path
}

/// The paths a tree opens to show `path`: every proper prefix, the empty one
/// first.
pub fn path_prefixes(path: &Vec<String>) -> (prefixes: Vec<Vec<String>>)
    ensures
        prefixes.len() == path.len(),
        forall|i: int| 0 <= i < path.len() ==> #[trigger] prefixes[i]@ == path@.take(i),
{
    let mut prefixes: Vec<Vec<String>> = Vec::new();
    let mut prefix: Vec<String> = Vec::new();
    let mut i: usize = 0;
    while i < path.len()
        invariant
            i <= path.len(),
            prefixes.len() == i,
            prefix@ == path@.take(i as int),
            forall|j: int| 0 <= j < i ==> #[trigger] prefixes[j]@ == path@.take(j),
        decreases path.len() - i,
    {
        prefixes.push(prefix.clone());
        prefix.push(path[i].clone());
        proof {
            assert(prefix@ =~= path@.take(i + 1));
        }
        i += 1;
    }
    prefixes
}

/// The levels of a path of owned strings.
pub open spec fn path_view(path: Seq<String>) -> Seq<Seq<char>> {
    path.map_values(|s: String| s@)
}

/// The non-empty prefixes of a path, shortest first, the path itself last.
pub open spec fn nonempty_prefixes(path: Seq<Seq<char>>) -> Seq<Seq<Seq<char>>> {
    Seq::new(path.len(), |m: int| path.take(m + 1))
}

/// What opening every topic of `topics` opens in a tree: for each topic in
/// turn, each non-empty prefix of its path, the path itself last.
pub open spec fn paths_opening_all(topics: Seq<Seq<char>>) -> Seq<Seq<Seq<char>>>
    decreases topics.len(),
{
    if topics.len() == 0 {
        Seq::empty()
    } else {
        paths_opening_all(topics.drop_last()) + nonempty_prefixes(spec_split(topics.last()))
    }
}

/// Every topic and every parent of it is among the paths that open all topics.
pub proof fn lemma_paths_opening_all_complete(topics: Seq<Seq<char>>, i: int, k: int)
    requires
        0 <= i < topics.len(),
        1 <= k <= spec_split(topics[i]).len(),
    ensures
        paths_opening_all(topics).contains(spec_split(topics[i]).take(k)),
    decreases topics.len(),
{
    let rest = paths_opening_all(topics.drop_last());
    let own = nonempty_prefixes(spec_split(topics.last()));
    if i == topics.len() - 1 {
        assert((rest + own)[rest.len() + k - 1] == own[k - 1]);
    } else {
        lemma_paths_opening_all_complete(topics.drop_last(), i, k);
        let j = choose|j: int| 0 <= j < rest.len() && rest[j] == spec_split(topics[i]).take(k);
        assert((rest + own)[j] == rest[j]);
    }
}

/// Each path that opens all topics is a topic or a parent of one.
pub proof fn lemma_paths_opening_all_sound(topics: Seq<Seq<char>>, j: int)
    requires
        0 <= j < paths_opening_all(topics).len(),
    ensures
        exists|i: int, k: int|
            0 <= i < topics.len() && 1 <= k <= spec_split(topics[i]).len() && paths_opening_all(topics)[j]
                == spec_split(topics[i]).take(k),
    decreases topics.len(),
{
    let rest = paths_opening_all(topics.drop_last());
    let own = nonempty_prefixes(spec_split(topics.last()));
    if j < rest.len() {
        lemma_paths_opening_all_sound(topics.drop_last(), j);
        let (i, k) = choose|i: int, k: int|
            0 <= i < topics.drop_last().len() && 1 <= k <= spec_split(topics.drop_last()[i]).len() && rest[j]
                == spec_split(topics.drop_last()[i]).take(k);
        assert((rest + own)[j] == rest[j]);
        assert(topics[i] == topics.drop_last()[i]);
    } else {
        let k = j - rest.len() + 1;
        assert((rest + own)[j] == own[k - 1]);
        assert(topics.last() == topics[topics.len() - 1]);
    }
}

/// The paths to open so that every topic of `topics` shows: for each topic,
/// each non-empty prefix of its path, the path itself last.
pub fn paths_to_open_all(topics: &Vec<&String>) -> (paths: Vec<Vec<String>>)
    ensures
        paths@.map_values(|p: Vec<String>| path_view(p@)) == paths_opening_all(ref_views(topics@)),
{
    let ghost seen = ref_views(topics@);
    let mut paths: Vec<Vec<String>> = Vec::new();
    let mut i: usize = 0;
    while i < topics.len()
        invariant
            seen == ref_views(topics@),
            i <= topics.len(),
            paths@.map_values(|p: Vec<String>| path_view(p@)) == paths_opening_all(seen.take(i as int)),
        decreases topics.len() - i,
    {
        let path = topic_path(topics[i].as_str());
        let ghost split = spec_split(seen[i as int]);
        let ghost done = paths_opening_all(seen.take(i as int));
        assert(path_view(path@) == split);
        let mut prefix: Vec<String> = Vec::new();
        let mut k: usize = 0;
        while k < path.len()
            invariant
                k <= path.len(),
                path_view(path@) == split,
                prefix@ == path@.take(k as int),
                paths@.map_values(|p: Vec<String>| path_view(p@)) == done + nonempty_prefixes(split).take(k as int),
            decreases path.len() - k,
        {
            let ghost before = paths@;
            prefix.push(path[k].clone());
            assert(prefix@ =~= path@.take(k + 1));
            paths.push(prefix.clone());
            proof {
                assert(path_view(prefix@) =~= split.take(k + 1));
                assert(paths@ == before.push(paths@[paths.len() - 1]));
                assert(nonempty_prefixes(split).take(k + 1) =~= nonempty_prefixes(split).take(k as int).push(
                    split.take(k + 1),
                ));
                assert(paths@.map_values(|p: Vec<String>| path_view(p@)) =~= before.map_values(
                    |p: Vec<String>| path_view(p@),
                ).push(path_view(prefix@)));
            }
            k += 1;
        }
        proof {
            assert(nonempty_prefixes(split).take(k as int) =~= nonempty_prefixes(split));
            assert(seen.take(i + 1).drop_last() =~= seen.take(i as int));
            assert(seen.take(i + 1).last() == seen[i as int]);
        }
        i += 1;
    }
    proof {
        assert(seen.take(topics.len() as int) =~= seen);
    }
    paths
}

} // verus!
