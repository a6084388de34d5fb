//! Topic path logic: parents, leaves and depth of MQTT topics, and which
//! entries of a topic tree are shown for a set of opened topics.
use std::collections::HashSet;

use vstd::prelude::*;

verus! {

/// Index of the last `/` of a topic, or -1 when there is none.
pub open spec fn last_slash(s: Seq<char>) -> int
    decreases s.len(),
{
    if s.len() == 0 {
        -1
    } else if s.last() == '/' {
        s.len() - 1
    } else {
        last_slash(s.drop_last())
    }
}

/// The parent of a topic: everything before its last `/`.
pub open spec fn spec_parent(s: Seq<char>) -> Option<Seq<char>> {
    let i = last_slash(s);
    if i < 0 {
        None
    } else {
        Some(s.subrange(0, i))
    }
}

/// The leaf of a topic: everything after its last `/`.
pub open spec fn spec_leaf(s: Seq<char>) -> Seq<char> {
    s.subrange(last_slash(s) + 1, s.len() as int)
}

/// The number of `/` in a topic.
pub open spec fn spec_depth(s: Seq<char>) -> nat
    decreases s.len(),
{
    if s.len() == 0 {
        0
    } else {
        spec_depth(s.drop_last()) + if s.last() == '/' {
            1nat
        } else {
            0nat
        }
    }
}

/// All parents of a topic, the outermost first.
pub open spec fn spec_all_parents(s: Seq<char>) -> Seq<Seq<char>>
    decreases s.len(),
{
    match spec_parent(s) {
        None => Seq::empty(),
        Some(p) => {
            proof {
                lemma_last_slash(s);
            }
            spec_all_parents(p).push(p)
        },
    }
}

/// The character sequences of a sequence of string slices.
pub open spec fn views(v: Seq<&str>) -> Seq<Seq<char>> {
    v.map_values(|s: &str| s@)
}

/// The character sequences of a sequence of strings.
pub open spec fn string_views(v: Seq<String>) -> Seq<Seq<char>> {
    v.map_values(|s: String| s@)
}

/// The topics held by a set of strings.
pub open spec fn opened_topics(set: &HashSet<String>) -> Set<Seq<char>> {
    set@.map(|s: String| s@)
}

/// Every parent of `t` is in `opened`.
pub open spec fn parents_opened(opened: Set<Seq<char>>, t: Seq<char>) -> bool {
    forall|k: int| 0 <= k < spec_all_parents(t).len() ==> opened.contains(#[trigger] spec_all_parents(t)[k])
}

/// A topic's parents followed by the topic itself.
pub open spec fn topic_and_parents(t: Seq<char>) -> Seq<Seq<char>> {
    spec_all_parents(t).push(t)
}

/// `x` is one of the topics or one of their parents.
pub open spec fn is_tree_variant(existing: Seq<Seq<char>>, x: Seq<char>) -> bool {
    exists|i: int| 0 <= i < existing.len() && #[trigger] topic_and_parents(existing[i]).contains(x)
}

/// Strict lexicographic order of character sequences (the order of `str`).
pub open spec fn lex_lt(a: Seq<char>, b: Seq<char>) -> bool
    decreases a.len(),
{
    if a.len() == 0 {
        b.len() > 0
    } else if b.len() == 0 {
        false
    } else if a[0] != b[0] {
        (a[0] as int) < (b[0] as int)
    } else {
        lex_lt(a.drop_first(), b.drop_first())
    }
}

/// Strictly increasing, so sorted and free of duplicates.
pub open spec fn strictly_sorted(s: Seq<Seq<char>>) -> bool {
    forall|i: int, j: int| 0 <= i < j < s.len() ==> lex_lt(#[trigger] s[i], #[trigger] s[j])
}

pub proof fn lemma_last_slash(s: Seq<char>)
    ensures
        -1 <= last_slash(s) < s.len(),
        last_slash(s) >= 0 ==> s[last_slash(s)] == '/',
        forall|j: int| last_slash(s) < j < s.len() ==> s[j] != '/',
    decreases s.len(),
{
    if s.len() > 0 && s.last() != '/' {
        lemma_last_slash(s.drop_last());
        assert forall|j: int| last_slash(s) < j < s.len() implies s[j] != '/' by {
            if j < s.len() - 1 {
                assert(s.drop_last()[j] == s[j]);
            }
        }
    }
}

/// The last `/` is the one that no `/` follows.
proof fn lemma_last_slash_at(s: Seq<char>, k: int)
    requires
        -1 <= k < s.len(),
        k >= 0 ==> s[k] == '/',
        forall|j: int| k < j < s.len() ==> s[j] != '/',
    ensures
        last_slash(s) == k,
{
    lemma_last_slash(s);
}

proof fn lemma_depth_split(s: Seq<char>, k: int)
    requires
        0 <= k < s.len(),
        s[k] == '/',
        forall|j: int| k < j < s.len() ==> s[j] != '/',
    ensures
        spec_depth(s) == spec_depth(s.subrange(0, k)) + 1,
    decreases s.len(),
{
    assert(s.drop_last() =~= s.subrange(0, s.len() - 1));
    if s.len() == k + 1 {
        assert(s.drop_last() =~= s.subrange(0, k));
    } else {
        assert(s.drop_last().subrange(0, k) =~= s.subrange(0, k));
        lemma_depth_split(s.drop_last(), k);
    }
}

proof fn lemma_depth_no_slash(s: Seq<char>)
    requires
        forall|j: int| 0 <= j < s.len() ==> s[j] != '/',
    ensures
        spec_depth(s) == 0,
    decreases s.len(),
{
    if s.len() > 0 {
        lemma_depth_no_slash(s.drop_last());
    }
}

/// A topic has as many parents as it has `/`.
pub proof fn lemma_parents_count_is_depth(s: Seq<char>)
    ensures
        spec_all_parents(s).len() == spec_depth(s),
    decreases s.len(),
{
    lemma_last_slash(s);
    let k = last_slash(s);
    if k < 0 {
        lemma_depth_no_slash(s);
    } else {
        lemma_depth_split(s, k);
        lemma_parents_count_is_depth(s.subrange(0, k));
    }
}

/// Parent, `/` and leaf put back together give the topic; a topic without
/// parent is its own leaf, and no leaf holds a `/`.
pub proof fn lemma_parent_and_leaf_rebuild_topic(s: Seq<char>)
    ensures
        spec_parent(s) matches Some(p) ==> p + seq!['/'] + spec_leaf(s) == s,
        spec_parent(s) is None ==> spec_leaf(s) == s,
        forall|j: int| 0 <= j < spec_leaf(s).len() ==> spec_leaf(s)[j] != '/',
{
    lemma_last_slash(s);
    let k = last_slash(s);
    if k >= 0 {
        assert(s.subrange(0, k) + seq!['/'] + s.subrange(k + 1, s.len() as int) =~= s);
    } else {
        assert(s.subrange(0, s.len() as int) =~= s);
    }
}

/// Every parent of a topic is a proper prefix of it, followed there by `/`.
pub proof fn lemma_parents_are_prefixes(s: Seq<char>)
    ensures
        forall|k: int|
            0 <= k < spec_all_parents(s).len() ==> {
                let p = #[trigger] spec_all_parents(s)[k];
                &&& p.len() < s.len()
                &&& s.subrange(0, p.len() as int) == p
                &&& s[p.len() as int] == '/'
            },
    decreases s.len(),
{
    lemma_last_slash(s);
    let i = last_slash(s);
    if i >= 0 {
        let p = s.subrange(0, i);
        lemma_parents_are_prefixes(p);
        assert forall|k: int| 0 <= k < spec_all_parents(s).len() implies {
            let q = #[trigger] spec_all_parents(s)[k];
            &&& q.len() < s.len()
            &&& s.subrange(0, q.len() as int) == q
            &&& s[q.len() as int] == '/'
        } by {
            if k < spec_all_parents(p).len() {
                let q = spec_all_parents(p)[k];
                assert(spec_all_parents(s)[k] == q);
                assert(s.subrange(0, q.len() as int) =~= p.subrange(0, q.len() as int));
            }
        }
    }
}

/// A proper prefix comes before the text it begins.
pub proof fn lemma_prefix_lex_lt(a: Seq<char>, b: Seq<char>)
    requires
        a.len() < b.len(),
        b.subrange(0, a.len() as int) == a,
    ensures
        lex_lt(a, b),
    decreases a.len(),
{
    if a.len() > 0 {
        assert(a[0] == b.subrange(0, a.len() as int)[0]);
        assert(b.drop_first().subrange(0, a.len() - 1) =~= b.subrange(0, a.len() as int).drop_first());
        lemma_prefix_lex_lt(a.drop_first(), b.drop_first());
    }
}

/// The parents of a topic, as `get_all_parents` returns them, form a chain:
/// the first has no parent, each next one has the one before as parent, and
/// the last is the topic's parent. Entry `i` ends before the `/` number
/// `i + 1` of the topic, so the entries are ordered shortest first, which is
/// also their order as text.
pub proof fn lemma_all_parents_chain(s: Seq<char>)
    ensures
        ({
            let r = spec_all_parents(s);
            &&& r.len() == spec_depth(s)
            &&& (r.len() == 0 <==> spec_parent(s) is None)
            &&& r.len() > 0 ==> spec_parent(s) == Some(r.last())
            &&& r.len() > 0 ==> spec_parent(r[0]) is None
            &&& forall|i: int| 0 < i < r.len() ==> spec_parent(#[trigger] r[i]) == Some(r[i - 1])
            &&& forall|i: int|
                0 <= i < r.len() ==> {
                    &&& spec_depth(#[trigger] r[i]) == i
                    &&& r[i].len() < s.len()
                    &&& s.subrange(0, r[i].len() as int) == r[i]
                    &&& s[r[i].len() as int] == '/'
                    &&& spec_all_parents(r[i]) == r.take(i)
                }
            &&& forall|i: int, j: int| 0 <= i < j < r.len() ==> lex_lt(#[trigger] r[i], #[trigger] r[j])
        }),
    decreases s.len(),
{
    lemma_last_slash(s);
    lemma_parents_count_is_depth(s);
    lemma_parents_are_prefixes(s);
    let r = spec_all_parents(s);
    let k = last_slash(s);
    if k >= 0 {
        let p = s.subrange(0, k);
        lemma_all_parents_chain(p);
        lemma_parents_count_is_depth(p);
        let q = spec_all_parents(p);
        assert(r == q.push(p));
        assert forall|i: int| 0 < i < r.len() implies spec_parent(#[trigger] r[i]) == Some(r[i - 1]) by {
            if i < q.len() {
                assert(r[i] == q[i]);
                assert(r[i - 1] == q[i - 1]);
            } else {
                assert(r[i - 1] == q.last());
            }
        }
        assert forall|i: int| 0 <= i < r.len() implies {
            &&& spec_depth(#[trigger] r[i]) == i
            &&& r[i].len() < s.len()
            &&& s.subrange(0, r[i].len() as int) == r[i]
            &&& s[r[i].len() as int] == '/'
            &&& spec_all_parents(r[i]) == r.take(i)
        } by {
            if i < q.len() {
                assert(r[i] == q[i]);
                assert(r.take(i) =~= q.take(i));
            } else {
                assert(r.take(i) =~= q);
            }
        }
        assert forall|i: int, j: int| 0 <= i < j < r.len() implies lex_lt(#[trigger] r[i], #[trigger] r[j]) by {
            if j < q.len() {
                assert(r[i] == q[i]);
                assert(r[j] == q[j]);
            } else {
                assert(r[i] == q[i]);
                assert(r[j] == p);
                assert(p.subrange(0, q[i].len() as int) =~= s.subrange(0, q[i].len() as int));
                lemma_prefix_lex_lt(q[i], p);
            }
        }
        if q.len() > 0 {
            assert(r[0] == q[0]);
        }
    }
}

pub proof fn lemma_lex_irreflexive(a: Seq<char>)
    ensures
        !lex_lt(a, a),
    decreases a.len(),
{
    if a.len() > 0 {
        lemma_lex_irreflexive(a.drop_first());
    }
}

pub proof fn lemma_lex_transitive(a: Seq<char>, b: Seq<char>, c: Seq<char>)
    requires
        lex_lt(a, b),
        lex_lt(b, c),
    ensures
        lex_lt(a, c),
    decreases a.len(),
{
    if a.len() > 0 && b.len() > 0 && c.len() > 0 && a[0] == b[0] && b[0] == c[0] {
        lemma_lex_transitive(a.drop_first(), b.drop_first(), c.drop_first());
    }
}

proof fn lemma_lex_total(a: Seq<char>, b: Seq<char>)
    ensures
        a == b || lex_lt(a, b) || lex_lt(b, a),
    decreases a.len(),
{
    if a.len() > 0 && b.len() > 0 {
        if a[0] == b[0] {
            lemma_lex_total(a.drop_first(), b.drop_first());
            if a.drop_first() == b.drop_first() {
                assert(a =~= seq![a[0]] + a.drop_first());
                assert(b =~= seq![b[0]] + b.drop_first());
            }
        } else {
        }
    } else if a.len() == 0 && b.len() == 0 {
        assert(a =~= b);
    }
}

/// Of two different topics one is before the other.
pub proof fn lemma_lex_total_ne(a: Seq<char>, b: Seq<char>)
    requires
        !lex_lt(a, b),
    ensures
        a == b || lex_lt(b, a),
{
    lemma_lex_total(a, b);
}

proof fn lemma_lex_asymmetric(a: Seq<char>, b: Seq<char>)
    requires
        lex_lt(a, b),
    ensures
        !lex_lt(b, a),
{
    if lex_lt(b, a) {
        lemma_lex_transitive(a, b, a);
        lemma_lex_irreflexive(a);
    }
}

/// With equal first `i` characters, the order is decided by what follows.
proof fn lemma_lex_skip(a: Seq<char>, b: Seq<char>, i: int)
    requires
        0 <= i <= a.len(),
        i <= b.len(),
        a.subrange(0, i) == b.subrange(0, i),
    ensures
        lex_lt(a, b) == lex_lt(a.skip(i), b.skip(i)),
    decreases i,
{
    if i == 0 {
        assert(a.skip(0) =~= a);
        assert(b.skip(0) =~= b);
    } else {
        assert(a[0] == a.subrange(0, i)[0]);
        assert(b[0] == b.subrange(0, i)[0]);
        assert(a.drop_first().subrange(0, i - 1) =~= a.subrange(0, i).drop_first());
        assert(b.drop_first().subrange(0, i - 1) =~= b.subrange(0, i).drop_first());
        lemma_lex_skip(a.drop_first(), b.drop_first(), i - 1);
        assert(a.drop_first().skip(i - 1) =~= a.skip(i));
        assert(b.drop_first().skip(i - 1) =~= b.skip(i));
    }
}

/// The order of two topics.
pub enum TopicOrder {
    Less,
    Equal,
    Greater,
}

/// Compares two topics character by character, as `str` orders them.
pub fn compare_topics(a: &str, b: &str) -> (order: TopicOrder)
    ensures
        order is Less <==> lex_lt(a@, b@),
        order is Equal <==> a@ == b@,
        order is Greater <==> lex_lt(b@, a@),
{
    let na = a.unicode_len();
    let nb = b.unicode_len();
    let mut i: usize = 0;
    while i < na && i < nb
        invariant
            i <= na,
            i <= nb,
            na == a@.len(),
            nb == b@.len(),
            a@.subrange(0, i as int) == b@.subrange(0, i as int),
        decreases na - i,
    {
        let ca = a.get_char(i);
        let cb = b.get_char(i);
        if ca != cb {
            proof {
                lemma_lex_skip(a@, b@, i as int);
                lemma_lex_skip(b@, a@, i as int);
                assert(a@.skip(i as int)[0] == ca);
                assert(b@.skip(i as int)[0] == cb);
                assert((ca as u32) as int == ca as int);
                assert((cb as u32) as int == cb as int);
            }
            if (ca as u32) < (cb as u32) {
                return TopicOrder::Less;
            } else {
                return TopicOrder::Greater;
            }
        }
        proof {
            assert(a@.subrange(0, i + 1) =~= a@.subrange(0, i as int).push(ca));
            assert(b@.subrange(0, i + 1) =~= b@.subrange(0, i as int).push(cb));
        }
        i += 1;
    }
    proof {
        lemma_lex_skip(a@, b@, i as int);
        lemma_lex_skip(b@, a@, i as int);
        if na == nb {
            assert(a@ =~= a@.subrange(0, i as int));
            assert(b@ =~= b@.subrange(0, i as int));
        } else if i == na {
            assert(a@.skip(i as int).len() == 0);
        } else {
            assert(b@.skip(i as int).len() == 0);
        }
    }
    if na == nb {
        TopicOrder::Equal
    } else if i == na {
        TopicOrder::Less
    } else {
        TopicOrder::Greater
    }
}

/// Inserts `x` into a strictly sorted vector unless it is already there.
fn insert_sorted<'a>(v: &mut Vec<&'a str>, x: &'a str)
    requires
        strictly_sorted(views(old(v)@)),
    ensures
        strictly_sorted(views(final(v)@)),
        forall|y: Seq<char>| #[trigger] views(final(v)@).contains(y) <==> (views(old(v)@).contains(y) || y == x@),
{
    let ghost old_views = views(v@);
    assert(strictly_sorted(old_views));
    let n = v.len();
    let mut i: usize = 0;
    loop
        invariant
            i <= n,
            n == v.len(),
            views(v@) == old_views,
            strictly_sorted(old_views),
            forall|j: int| 0 <= j < i ==> lex_lt(#[trigger] old_views[j], x@),
        ensures
            i <= n,
            views(v@) == old_views,
            forall|j: int| 0 <= j < i ==> lex_lt(#[trigger] old_views[j], x@),
            i < n ==> lex_lt(x@, old_views[i as int]),
        decreases n - i,
    {
        if i >= n {
            break;
        }
        match compare_topics(v[i], x) {
            TopicOrder::Less => {},
            TopicOrder::Equal => {
                proof {
                    assert(old_views[i as int] == x@);
                }
                return;
            },
            TopicOrder::Greater => {
                break;
            },
        }
        i += 1;
    }
    let ghost pos = i as int;
    v.insert(i, x);
    proof {
        let nv = views(v@);
        assert(nv =~= old_views.insert(pos, x@));
        assert forall|a: int, b: int| 0 <= a < b < nv.len() implies lex_lt(#[trigger] nv[a], #[trigger] nv[b]) by {
            if b < pos {
            } else if a > pos {
                assert(nv[a] == old_views[a - 1]);
                assert(nv[b] == old_views[b - 1]);
            } else if a == pos {
                assert(nv[b] == old_views[b - 1]);
                if b - 1 > pos {
                    lemma_lex_transitive(x@, old_views[pos], old_views[b - 1]);
                }
            } else if b == pos {
            } else {
                assert(nv[b] == old_views[b - 1]);
                if b - 1 > pos {
                    lemma_lex_transitive(x@, old_views[pos], old_views[b - 1]);
                }
                lemma_lex_transitive(old_views[a], x@, old_views[b - 1]);
            }
        }
        assert forall|y: Seq<char>| nv.contains(y) <==> (old_views.contains(y) || y == x@) by {
            if nv.contains(y) {
                let k = choose|k: int| 0 <= k < nv.len() && nv[k] == y;
                if k < pos {
                    assert(old_views[k] == y);
                } else if k > pos {
                    assert(old_views[k - 1] == y);
                }
            }
            if old_views.contains(y) {
                let k = choose|k: int| 0 <= k < old_views.len() && old_views[k] == y;
                if k < pos {
                    assert(nv[k] == y);
                } else {
                    assert(nv[k + 1] == y);
                }
            }
            if y == x@ {
                assert(nv[pos] == y);
            }
        }
    }
}

/// Inserts every item of `items` into a strictly sorted vector, skipping
/// those already there.
fn insert_all_sorted<'a>(v: &mut Vec<&'a str>, items: &Vec<&'a str>)
    requires
        strictly_sorted(views(old(v)@)),
    ensures
        strictly_sorted(views(final(v)@)),
        forall|y: Seq<char>|
            #[trigger] views(final(v)@).contains(y) <==> (views(old(v)@).contains(y) || views(items@).contains(y)),
{
    let ghost start = views(v@);
    let mut k: usize = 0;
    while k < items.len()
        invariant
            k <= items.len(),
            start == views(old(v)@),
            strictly_sorted(views(v@)),
            forall|y: Seq<char>|
                #[trigger] views(v@).contains(y) <==> (start.contains(y) || views(items@).take(k as int).contains(y)),
        decreases items.len() - k,
    {
        let ghost prev = views(v@);
        insert_sorted(v, items[k]);
        proof {
            let t1 = views(items@).take(k as int);
            let t2 = views(items@).take(k + 1);
            let item = items@[k as int]@;
            assert(t2 =~= t1.push(item));
            assert forall|y: Seq<char>| views(v@).contains(y) <==> (start.contains(y) || t2.contains(y)) by {
                assert(views(v@).contains(y) <==> (prev.contains(y) || y == item));
                assert(prev.contains(y) <==> (start.contains(y) || t1.contains(y)));
                if t2.contains(y) && y != item {
                    let m = choose|m: int| 0 <= m < t2.len() && t2[m] == y;
                    assert(t1[m] == y);
                }
                if t1.contains(y) {
                    let m = choose|m: int| 0 <= m < t1.len() && t1[m] == y;
                    assert(t2[m] == y);
                }
                if y == item {
                    assert(t2[k as int] == y);
                }
            }
        }
        k += 1;
    }
    proof {
        assert(views(items@).take(k as int) =~= views(items@));
    }
}

/// Returns every topic together with all its parents, sorted and without
/// duplicates.
pub fn build_all_tree_variants<'a>(existing: &'a [String]) -> (all: Vec<&'a str>)
    ensures
        strictly_sorted(views(all@)),
        forall|x: Seq<char>| views(all@).contains(x) <==> is_tree_variant(string_views(existing@), x),
        views(all@) == sorted_tree_variants(string_views(existing@)),
{
    let mut result: Vec<&'a str> = Vec::new();
    let ghost all_views = string_views(existing@);
    let mut i: usize = 0;
    while i < existing.len()
        invariant
            i <= existing.len(),
            all_views == string_views(existing@),
            strictly_sorted(views(result@)),
            forall|x: Seq<char>| #[trigger] views(result@).contains(x) <==> is_tree_variant(all_views.take(i as int), x),
        decreases existing.len() - i,
    {
        let entry: &'a str = existing[i].as_str();
        let mut group = get_all_parents(entry);
        group.push(entry);
        let ghost before = all_views.take(i as int);
        let ghost now = all_views.take(i + 1);
        let ghost prev = views(result@);
        insert_all_sorted(&mut result, &group);
        proof {
            assert(entry@ == all_views[i as int]);
            assert(views(group@) =~= topic_and_parents(entry@));
            assert(now =~= before.push(entry@));
            assert forall|x: Seq<char>| views(result@).contains(x) <==> is_tree_variant(now, x) by {
                assert(views(result@).contains(x) <==> (prev.contains(x) || views(group@).contains(x)));
                assert(prev.contains(x) <==> is_tree_variant(before, x));
                if is_tree_variant(now, x) {
                    let j = choose|j: int| 0 <= j < now.len() && #[trigger] topic_and_parents(now[j]).contains(x);
                    if j < i {
                        assert(before[j] == now[j]);
                        assert(is_tree_variant(before, x));
                    }
                }
                if is_tree_variant(before, x) {
                    let j = choose|j: int| 0 <= j < before.len() && #[trigger] topic_and_parents(before[j]).contains(x);
                    assert(now[j] == before[j]);
                    assert(is_tree_variant(now, x));
                }
                if views(group@).contains(x) {
                    assert(now[i as int] == entry@);
                    assert(topic_and_parents(now[i as int]).contains(x));
                    assert(is_tree_variant(now, x));
                }
            }
        }
        i += 1;
    }
    proof {
        assert(all_views.take(existing.len() as int) =~= all_views);
        lemma_sorted_tree_variants_unique(all_views, views(result@));
    }
    result
}

/// Two strictly sorted sequences with the same elements are the same.
pub proof fn lemma_strictly_sorted_unique(a: Seq<Seq<char>>, b: Seq<Seq<char>>)
    requires
        strictly_sorted(a),
        strictly_sorted(b),
        forall|x: Seq<char>| a.contains(x) <==> b.contains(x),
    ensures
        a == b,
    decreases a.len(),
{
    if a.len() == 0 {
        if b.len() > 0 {
            assert(a.contains(b[0]));
        }
        assert(a =~= b);
    } else {
        assert(b.contains(a[0]));
        assert(b.len() > 0);
        assert(a.contains(b[0]));
        let j = choose|j: int| 0 <= j < b.len() && b[j] == a[0];
        let i = choose|i: int| 0 <= i < a.len() && a[i] == b[0];
        if j > 0 {
            if i > 0 {
                lemma_lex_asymmetric(a[0], a[i]);
            } else {
                lemma_lex_irreflexive(b[0]);
            }
        }
        assert(a[0] == b[0]);
        let a1 = a.drop_first();
        let b1 = b.drop_first();
        assert forall|x: Seq<char>| a1.contains(x) <==> b1.contains(x) by {
            if a1.contains(x) {
                let k = choose|k: int| 0 <= k < a1.len() && a1[k] == x;
                assert(a[k + 1] == x);
                lemma_lex_irreflexive(x);
                assert(x != a[0]);
                assert(a.contains(x));
                let m = choose|m: int| 0 <= m < b.len() && b[m] == x;
                assert(m != 0);
                assert(b1[m - 1] == x);
            }
            if b1.contains(x) {
                let k = choose|k: int| 0 <= k < b1.len() && b1[k] == x;
                assert(b[k + 1] == x);
                lemma_lex_irreflexive(x);
                assert(x != b[0]);
                assert(b.contains(x));
                let m = choose|m: int| 0 <= m < a.len() && a[m] == x;
                assert(m != 0);
                assert(a1[m - 1] == x);
            }
        }
        assert forall|i: int, j: int| 0 <= i < j < a1.len() implies lex_lt(#[trigger] a1[i], #[trigger] a1[j]) by {
            assert(a1[i] == a[i + 1]);
            assert(a1[j] == a[j + 1]);
        }
        assert forall|i: int, j: int| 0 <= i < j < b1.len() implies lex_lt(#[trigger] b1[i], #[trigger] b1[j]) by {
            assert(b1[i] == b[i + 1]);
            assert(b1[j] == b[j + 1]);
        }
        lemma_strictly_sorted_unique(a1, b1);
        assert(a =~= seq![a[0]] + a1);
        assert(b =~= seq![b[0]] + b1);
    }
}

/// The topics and all their parents, sorted and each once: what
/// `build_all_tree_variants` returns.
pub open spec fn sorted_tree_variants(existing: Seq<Seq<char>>) -> Seq<Seq<char>> {
    choose|all: Seq<Seq<char>>|
        strictly_sorted(all) && forall|x: Seq<char>| #[trigger] all.contains(x) <==> is_tree_variant(existing, x)
}

/// The parent of an entry of the topic tree is an entry too.
pub proof fn lemma_tree_variants_closed_under_parent(existing: Seq<Seq<char>>, x: Seq<char>)
    requires
        is_tree_variant(existing, x),
        spec_parent(x) is Some,
    ensures
        is_tree_variant(existing, spec_parent(x)->0),
{
    let i = choose|i: int| 0 <= i < existing.len() && #[trigger] topic_and_parents(existing[i]).contains(x);
    let e = existing[i];
    let r = spec_all_parents(e);
    lemma_all_parents_chain(e);
    let k = choose|k: int| 0 <= k < topic_and_parents(e).len() && topic_and_parents(e)[k] == x;
    if k == r.len() {
        assert(x == e);
        assert(topic_and_parents(e)[r.len() - 1] == r.last());
    } else {
        assert(x == r[k]);
        assert(k > 0);
        assert(topic_and_parents(e)[k - 1] == r[k - 1]);
    }
    assert(topic_and_parents(existing[i]).contains(spec_parent(x)->0));
}

/// Every parent of an entry of the topic tree is an entry too.
proof fn lemma_parents_of_variant(existing: Seq<Seq<char>>, y: Seq<char>, x: Seq<char>)
    requires
        is_tree_variant(existing, y),
        spec_all_parents(y).contains(x),
    ensures
        is_tree_variant(existing, x),
{
    let i = choose|i: int| 0 <= i < existing.len() && #[trigger] topic_and_parents(existing[i]).contains(y);
    let e = existing[i];
    let r = spec_all_parents(e);
    lemma_all_parents_chain(e);
    let k = choose|k: int| 0 <= k < topic_and_parents(e).len() && topic_and_parents(e)[k] == y;
    let m = choose|m: int| 0 <= m < spec_all_parents(y).len() && spec_all_parents(y)[m] == x;
    if k == r.len() {
        assert(y == e);
        assert(topic_and_parents(e)[m] == x);
    } else {
        assert(y == r[k]);
        assert(spec_all_parents(y) == r.take(k));
        assert(topic_and_parents(e)[m] == x);
    }
    assert(topic_and_parents(existing[i]).contains(x));
}

/// Any strictly sorted sequence of exactly the topics and their parents is
/// the sorted tree variants.
pub proof fn lemma_sorted_tree_variants_unique(existing: Seq<Seq<char>>, all: Seq<Seq<char>>)
    requires
        strictly_sorted(all),
        forall|x: Seq<char>| #[trigger] all.contains(x) <==> is_tree_variant(existing, x),
    ensures
        sorted_tree_variants(existing) == all,
{
    let chosen = sorted_tree_variants(existing);
    assert(strictly_sorted(chosen) && forall|x: Seq<char>| #[trigger] chosen.contains(x) <==> is_tree_variant(existing, x));
    lemma_strictly_sorted_unique(chosen, all);
}

/// The entries of the topic tree built from the entries of a topic tree are
/// the same entries: building the tree variants of what
/// `build_all_tree_variants` returned gives it back unchanged.
pub proof fn lemma_tree_variants_idempotent(existing: Seq<Seq<char>>, all: Seq<Seq<char>>)
    requires
        strictly_sorted(all),
        forall|x: Seq<char>| #[trigger] all.contains(x) <==> is_tree_variant(existing, x),
    ensures
        forall|x: Seq<char>| #[trigger] is_tree_variant(all, x) <==> is_tree_variant(existing, x),
        sorted_tree_variants(existing) == all,
        sorted_tree_variants(all) == all,
{
    assert forall|x: Seq<char>| #[trigger] is_tree_variant(all, x) <==> is_tree_variant(existing, x) by {
        if is_tree_variant(existing, x) {
            assert(all.contains(x));
            let k = choose|k: int| 0 <= k < all.len() && all[k] == x;
            assert(topic_and_parents(all[k]).last() == x);
            assert(topic_and_parents(all[k]).contains(x));
        }
        if is_tree_variant(all, x) {
            let i = choose|i: int| 0 <= i < all.len() && #[trigger] topic_and_parents(all[i]).contains(x);
            let y = all[i];
            assert(all.contains(y));
            let k = choose|k: int| 0 <= k < topic_and_parents(y).len() && topic_and_parents(y)[k] == x;
            if k < spec_all_parents(y).len() {
                assert(spec_all_parents(y)[k] == x);
                lemma_parents_of_variant(existing, y, x);
            }
        }
    }
    lemma_sorted_tree_variants_unique(existing, all);
    lemma_sorted_tree_variants_unique(all, all);
}

/// Returns the parent of a topic, or `None` for a topic without `/`.
pub fn get_parent(topic: &str) -> (parent: Option<&str>)
    ensures
        parent is None <==> spec_parent(topic@) is None,
        parent matches Some(p) ==> spec_parent(topic@) == Some(p@),
{
    let n = topic.unicode_len();
    let mut i = n;
    while i > 0
        invariant
            i <= n,
            n == topic@.len(),
            forall|j: int| i <= j < n ==> topic@[j] != '/',
        decreases i,
    {
        if topic.get_char(i - 1) == '/' {
            proof {
                lemma_last_slash_at(topic@, i - 1);
            }
            return Some(topic.substring_char(0, i - 1));
        }
        i -= 1;
    }
    proof {
        lemma_last_slash_at(topic@, -1);
    }
    None
}

/// Returns the leaf of a topic: the part after its last `/`.
pub fn get_leaf(topic: &str) -> (leaf: &str)
    ensures
        leaf@ == spec_leaf(topic@),
{
    let n = topic.unicode_len();
    let mut i = n;
    while i > 0
        invariant
            i <= n,
            n == topic@.len(),
            forall|j: int| i <= j < n ==> topic@[j] != '/',
        decreases i,
    {
        if topic.get_char(i - 1) == '/' {
            proof {
                lemma_last_slash_at(topic@, i - 1);
            }
            return topic.substring_char(i, n);
        }
        i -= 1;
    }
    proof {
        lemma_last_slash_at(topic@, -1);
        assert(topic@.subrange(0, n as int) =~= topic@);
    }
    topic
}

/// Returns the number of `/` in a topic.
pub fn get_topic_depth(topic: &str) -> (depth: usize)
    ensures
        depth == spec_depth(topic@),
{
    let n = topic.unicode_len();
    let mut count: usize = 0;
    let mut i: usize = 0;
    while i < n
        invariant
            i <= n,
            n == topic@.len(),
            count == spec_depth(topic@.subrange(0, i as int)),
            count <= i,
        decreases n - i,
    {
        proof {
            assert(topic@.subrange(0, i + 1).drop_last() =~= topic@.subrange(0, i as int));
        }
        if topic.get_char(i) == '/' {
            count += 1;
        }
        i += 1;
    }
    proof {
        assert(topic@.subrange(0, n as int) =~= topic@);
    }
    count
}

/// Returns all parents of a topic, the outermost first.
pub fn get_all_parents(topic: &str) -> (parents: Vec<&str>)
    ensures
        views(parents@) == spec_all_parents(topic@),
{
    let mut result: Vec<&str> = Vec::new();
    let mut current = topic;
    loop
        invariant
            spec_all_parents(topic@) == spec_all_parents(current@) + views(result@),
        decreases current@.len(),
    {
        match get_parent(current) {
            Some(parent) => {
                proof {
                    lemma_last_slash(current@);
                    assert(views(result@.insert(0, parent)) =~= seq![parent@] + views(result@));
                    assert(spec_all_parents(current@) == spec_all_parents(parent@).push(parent@));
                    assert(spec_all_parents(parent@).push(parent@) + views(result@)
                        =~= spec_all_parents(parent@) + (seq![parent@] + views(result@)));
                }
                result.insert(0, parent);
                current = parent;
            },
            None => {
                proof {
                    assert(spec_all_parents(topic@) =~= views(result@));
                }
                return result;
            },
        }
    }
}

/// Entry `k` of `shown` is one of the first `n` entries of `all`.
pub open spec fn shown_from(all: Seq<Seq<char>>, shown: Seq<Seq<char>>, k: int, n: int) -> bool {
    exists|j: int| 0 <= j < n && all[j] == shown[k]
}

/// Keeps the topics whose parents are all opened, in their order.
pub fn filter_topics_by_opened<'a>(all: &[&'a str], opened: &HashSet<String>) -> (shown: Vec<&'a str>)
    ensures
        views(shown@) == views(all@).filter(|t: Seq<char>| parents_opened(opened_topics(opened), t)),
        strictly_sorted(views(all@)) ==> strictly_sorted(views(shown@)),
{
    let ghost pred = |t: Seq<char>| parents_opened(opened_topics(opened), t);
    let ghost all_views = views(all@);
    let mut shown: Vec<&'a str> = Vec::new();
    let mut i: usize = 0;
    while i < all.len()
        invariant
            i <= all.len(),
            all_views == views(all@),
            pred == (|t: Seq<char>| parents_opened(opened_topics(opened), t)),
            views(shown@) == all_views.take(i as int).filter(pred),
            forall|k: int| 0 <= k < shown.len() ==> #[trigger] shown_from(all_views, views(shown@), k, i as int),
            strictly_sorted(all_views) ==> strictly_sorted(views(shown@)),
        decreases all.len() - i,
    {
        let entry = all[i];
        proof {
            assert(all_views.take(i + 1) =~= all_views.take(i as int).push(entry@));
            all_views.take(i as int).lemma_filter_push(entry@, pred);
        }
        if crate::topic_view::is_topic_opened(opened, entry) {
            let ghost prev = views(shown@);
            shown.push(entry);
            proof {
                assert(views(shown@) =~= prev.push(entry@));
                assert forall|k: int| 0 <= k < shown.len() implies #[trigger] shown_from(all_views, views(shown@), k, i + 1) by {
                    if k < prev.len() {
                        assert(views(shown@)[k] == prev[k]);
                        assert(shown_from(all_views, prev, k, i as int));
                        let j = choose|j: int| 0 <= j < i && all_views[j] == prev[k];
                        assert(all_views[j] == views(shown@)[k]);
                    } else {
                        assert(all_views[i as int] == views(shown@)[k]);
                    }
                }
                if strictly_sorted(all_views) {
                    assert forall|a: int, b: int| 0 <= a < b < views(shown@).len() implies lex_lt(#[trigger] views(shown@)[a], #[trigger] views(shown@)[b]) by {
                        if b == prev.len() {
                            assert(views(shown@)[a] == prev[a]);
                            assert(shown_from(all_views, prev, a, i as int));
                            let j = choose|j: int| 0 <= j < i && all_views[j] == prev[a];
                            assert(lex_lt(all_views[j], all_views[i as int]));
                        } else {
                            assert(views(shown@)[a] == prev[a]);
                            assert(views(shown@)[b] == prev[b]);
                        }
                    }
                }
            }
        } else {
            proof {
                assert forall|k: int| 0 <= k < shown.len() implies #[trigger] shown_from(all_views, views(shown@), k, i + 1) by {
                    assert(shown_from(all_views, views(shown@), k, i as int));
                    let j = choose|j: int| 0 <= j < i && all_views[j] == views(shown@)[k];
                    assert(all_views[j] == views(shown@)[k]);
                }
            }
        }
        i += 1;
    }
    proof {
        assert(all_views.take(all.len() as int) =~= all_views);
    }
    shown
}

/// The topics shown in the tree: all topics and their parents, sorted, of
/// which those whose parents are all opened.
pub fn get_shown_topics<'a>(existing: &'a [String], opened: &HashSet<String>) -> (shown: Vec<&'a str>)
    ensures
        views(shown@) == sorted_tree_variants(string_views(existing@)).filter(
            |t: Seq<char>| parents_opened(opened_topics(opened), t),
        ),
        strictly_sorted(views(shown@)),
        forall|x: Seq<char>|
            #[trigger] views(shown@).contains(x) <==> (is_tree_variant(string_views(existing@), x) && parents_opened(
                opened_topics(opened),
                x,
            )),
{
    let all = build_all_tree_variants(existing);
    let shown = filter_topics_by_opened(&all, opened);
    proof {
        let pred = |t: Seq<char>| parents_opened(opened_topics(opened), t);
        broadcast use vstd::seq_lib::group_filter_ensures;
        assert forall|x: Seq<char>|
            #[trigger] views(shown@).contains(x) <==> (is_tree_variant(string_views(existing@), x) && parents_opened(
                opened_topics(opened),
                x,
            )) by {
            if views(shown@).contains(x) {
                views(all@).lemma_filter_contains_rev(pred, x);
                let k = choose|k: int| 0 <= k < views(shown@).len() && views(shown@)[k] == x;
                assert(pred(views(all@).filter(pred)[k]));
            }
            if is_tree_variant(string_views(existing@), x) && parents_opened(opened_topics(opened), x) {
                let k = choose|k: int| 0 <= k < views(all@).len() && views(all@)[k] == x;
                assert(views(all@).filter(pred).contains(views(all@)[k]));
            }
        }
    }
    shown
}

/// The parts of a topic between its `/`, as `str::split('/')` gives them.
pub open spec fn spec_split(s: Seq<char>) -> Seq<Seq<char>>
    decreases s.len(),
{
    match spec_parent(s) {
        None => seq![s],
        Some(p) => {
            proof {
                lemma_last_slash(s);
            }
            spec_split(p).push(spec_leaf(s))
        },
    }
}

/// The parts of a topic are the leaves of its parents followed by its own
/// leaf.
proof fn lemma_split_is_leaves(s: Seq<char>)
    ensures
        spec_split(s) == spec_all_parents(s).map_values(|p: Seq<char>| spec_leaf(p)).push(spec_leaf(s)),
    decreases s.len(),
{
    lemma_last_slash(s);
    match spec_parent(s) {
        None => {
            lemma_parent_and_leaf_rebuild_topic(s);
            assert(spec_all_parents(s).map_values(|p: Seq<char>| spec_leaf(p)) =~= Seq::<Seq<char>>::empty());
            assert(spec_split(s) =~= seq![spec_leaf(s)]);
        },
        Some(p) => {
            lemma_split_is_leaves(p);
            assert(spec_all_parents(s).map_values(|q: Seq<char>| spec_leaf(q)) =~= spec_all_parents(p).map_values(
                |q: Seq<char>| spec_leaf(q),
            ).push(spec_leaf(p)));
        },
    }
}

proof fn lemma_split_len(s: Seq<char>)
    ensures
        spec_split(s).len() >= 1,
        spec_parent(s) is Some ==> spec_split(s).len() >= 2,
    decreases s.len(),
{
    lemma_last_slash(s);
    if let Some(p) = spec_parent(s) {
        lemma_split_len(p);
    }
}

/// Different topics have different parts.
pub proof fn lemma_split_injective(a: Seq<char>, b: Seq<char>)
    requires
        spec_split(a) == spec_split(b),
    ensures
        a == b,
    decreases a.len(),
{
    lemma_split_len(a);
    lemma_split_len(b);
    lemma_last_slash(a);
    lemma_parent_and_leaf_rebuild_topic(a);
    lemma_parent_and_leaf_rebuild_topic(b);
    match (spec_parent(a), spec_parent(b)) {
        (None, None) => {
            assert(spec_split(a)[0] == a);
            assert(spec_split(b)[0] == b);
        },
        (Some(pa), Some(pb)) => {
            assert(spec_split(pa) =~= spec_split(a).drop_last());
            assert(spec_split(pb) =~= spec_split(b).drop_last());
            lemma_split_injective(pa, pb);
            assert(spec_leaf(a) == spec_split(a).last());
            assert(spec_leaf(b) == spec_split(b).last());
        },
        (Some(pa), None) => {
            lemma_split_len(pa);
        },
        (None, Some(pb)) => {
            lemma_split_len(pb);
        },
    }
}

/// Splits a topic at its `/`.
pub fn split_topic(topic: &str) -> (parts: Vec<&str>)
    ensures
        views(parts@) == spec_split(topic@),
{
    let parents = get_all_parents(topic);
    let mut parts: Vec<&str> = Vec::new();
    let mut i: usize = 0;
    while i < parents.len()
        invariant
            i <= parents.len(),
            views(parents@) == spec_all_parents(topic@),
            views(parts@) == views(parents@).take(i as int).map_values(|p: Seq<char>| spec_leaf(p)),
        decreases parents.len() - i,
    {
        let leaf = get_leaf(parents[i]);
        let ghost before = views(parts@);
        parts.push(leaf);
        proof {
            assert(views(parents@).take(i + 1) =~= views(parents@).take(i as int).push(parents@[i as int]@));
            assert(views(parts@) =~= before.push(leaf@));
            assert(views(parts@) =~= views(parents@).take(i + 1).map_values(|p: Seq<char>| spec_leaf(p)));
        }
        i += 1;
    }
    let last = get_leaf(topic);
    let ghost before = views(parts@);
    parts.push(last);
    proof {
        assert(views(parents@).take(i as int) =~= views(parents@));
        assert(views(parts@) =~= before.push(last@));
        lemma_split_is_leaves(topic@);
    }
    parts
}

} // verus!
