//! The history of all topics, kept as a tree of topic levels.
use vstd::prelude::*;

use crate::decimal::{decimal, spec_decimal};
use crate::mqtt::HistoryEntry;
use crate::payload::spec_payload_text;
use crate::topic_logic::{
    compare_topics, lemma_lex_irreflexive, lemma_lex_total_ne, lemma_lex_transitive, lemma_prefix_lex_lt,
    lemma_split_injective, lemma_strictly_sorted_unique, lex_lt, spec_split,
    split_topic,
    strictly_sorted, string_views, views, TopicOrder,
};

verus! {

/// A level of the topic tree: the last part of its topic, the messages of
/// the topic, and the levels below it ordered by their leaf.
pub struct Topic {
    leaf: String,
    history: Vec<HistoryEntry>,
    children: Vec<Topic>,
}

/// The leaves of a sequence of tree levels.
pub open spec fn leaves(children: Seq<Topic>) -> Seq<Seq<char>> {
    children.map_values(|t: Topic| t.spec_leaf())
}

/// The child whose leaf is `leaf`, if there is one.
pub open spec fn find_child(children: Seq<Topic>, leaf: Seq<char>) -> Option<Topic> {
    if exists|i: int| 0 <= i < children.len() && #[trigger] children[i].spec_leaf() == leaf {
        Some(children[choose|i: int| 0 <= i < children.len() && #[trigger] children[i].spec_leaf() == leaf])
    } else {
        None
    }
}

/// The level reached from `t` along the leaves `parts`.
pub open spec fn node_at(t: Topic, parts: Seq<Seq<char>>) -> Option<Topic>
    decreases parts.len(),
{
    if parts.len() == 0 {
        Some(t)
    } else {
        match find_child(t.spec_children(), parts[0]) {
            Some(child) => node_at(child, parts.drop_first()),
            None => None,
        }
    }
}

/// The messages of the level reached along `parts`; none when there is no
/// such level.
pub open spec fn history_at(t: Topic, parts: Seq<Seq<char>>) -> Seq<HistoryEntry> {
    match node_at(t, parts) {
        Some(n) => n.spec_history(),
        None => Seq::empty(),
    }
}

impl Topic {
    pub closed spec fn spec_leaf(&self) -> Seq<char> {
        self.leaf@
    }

    pub closed spec fn spec_history(&self) -> Seq<HistoryEntry> {
        self.history@
    }

    pub closed spec fn spec_children(&self) -> Seq<Topic> {
        self.children@
    }

    /// The children are ordered strictly by their leaves, at every level.
    pub closed spec fn well_formed(&self) -> bool
        decreases self,
    {
        &&& strictly_sorted(leaves(self.children@))
        &&& well_formed_all(self.children@)
    }

    fn new(leaf: String) -> (topic: Topic)
        ensures
            topic.spec_leaf() == leaf@,
            topic.spec_history() == Seq::<HistoryEntry>::empty(),
            topic.spec_children() == Seq::<Topic>::empty(),
            topic.well_formed(),
    {
        let topic = Topic { leaf, history: Vec::new(), children: Vec::new() };
        proof {
            assert(leaves(topic.children@) =~= Seq::<Seq<char>>::empty());
        }
        topic
    }
}

/// Every level of the sequence is well formed.
pub closed spec fn well_formed_all(children: Seq<Topic>) -> bool
    decreases children,
{
    if children.len() == 0 {
        true
    } else {
        well_formed_all(children.drop_last()) && children.last().well_formed()
    }
}

proof fn lemma_well_formed_all(children: Seq<Topic>, i: int)
    requires
        well_formed_all(children),
        0 <= i < children.len(),
    ensures
        children[i].well_formed(),
    decreases children.len(),
{
    if i < children.len() - 1 {
        lemma_well_formed_all(children.drop_last(), i);
    }
}

proof fn lemma_well_formed_all_from(children: Seq<Topic>)
    requires
        forall|i: int| 0 <= i < children.len() ==> #[trigger] children[i].well_formed(),
    ensures
        well_formed_all(children),
    decreases children.len(),
{
    if children.len() > 0 {
        assert forall|i: int| 0 <= i < children.drop_last().len() implies #[trigger] children.drop_last()[i].well_formed() by {
            assert(children.drop_last()[i] == children[i]);
        }
        lemma_well_formed_all_from(children.drop_last());
        assert(children[children.len() - 1].well_formed());
        assert(children.last() == children[children.len() - 1]);
    }
}

/// No two levels of the sequence have the same leaf.
pub open spec fn distinct_leaves(children: Seq<Topic>) -> bool {
    forall|i: int, j: int|
        0 <= i < children.len() && 0 <= j < children.len() && i != j ==> children[i].spec_leaf()
            != children[j].spec_leaf()
}

proof fn lemma_sorted_distinct(children: Seq<Topic>)
    requires
        strictly_sorted(leaves(children)),
    ensures
        distinct_leaves(children),
{
    assert forall|i: int, j: int|
        0 <= i < children.len() && 0 <= j < children.len() && i != j implies children[i].spec_leaf()
        != children[j].spec_leaf() by {
        assert(leaves(children)[i] == children[i].spec_leaf());
        assert(leaves(children)[j] == children[j].spec_leaf());
        if i < j {
            lemma_lex_irreflexive(children[i].spec_leaf());
        } else {
            lemma_lex_irreflexive(children[j].spec_leaf());
        }
    }
}

proof fn lemma_find_child_at(children: Seq<Topic>, i: int)
    requires
        distinct_leaves(children),
        0 <= i < children.len(),
    ensures
        find_child(children, children[i].spec_leaf()) == Some(children[i]),
{
    let leaf = children[i].spec_leaf();
    assert(children[i].spec_leaf() == leaf);
    let j = choose|j: int| 0 <= j < children.len() && #[trigger] children[j].spec_leaf() == leaf;
    assert(j == i);
}

proof fn lemma_find_child_insert(children: Seq<Topic>, i: int, x: Topic, leaf: Seq<char>)
    requires
        0 <= i <= children.len(),
        distinct_leaves(children),
        distinct_leaves(children.insert(i, x)),
        x.spec_leaf() != leaf,
    ensures
        find_child(children.insert(i, x), leaf) == find_child(children, leaf),
{
    let n = children.insert(i, x);
    if exists|j: int| 0 <= j < children.len() && #[trigger] children[j].spec_leaf() == leaf {
        let j = choose|j: int| 0 <= j < children.len() && #[trigger] children[j].spec_leaf() == leaf;
        let jn = if j < i { j } else { j + 1 };
        assert(n[jn] == children[j]);
        lemma_find_child_at(children, j);
        lemma_find_child_at(n, jn);
    } else {
        if exists|j: int| 0 <= j < n.len() && #[trigger] n[j].spec_leaf() == leaf {
            let j = choose|j: int| 0 <= j < n.len() && #[trigger] n[j].spec_leaf() == leaf;
            if j < i {
                assert(children[j] == n[j]);
            } else if j > i {
                assert(children[j - 1] == n[j]);
            }
        }
    }
}

proof fn lemma_find_child_update(children: Seq<Topic>, i: int, x: Topic, leaf: Seq<char>)
    requires
        0 <= i < children.len(),
        distinct_leaves(children),
        x.spec_leaf() == children[i].spec_leaf(),
    ensures
        find_child(children.update(i, x), leaf) == if leaf == x.spec_leaf() {
            Some(x)
        } else {
            find_child(children, leaf)
        },
{
    let n = children.update(i, x);
    assert(distinct_leaves(n)) by {
        assert forall|a: int, b: int| 0 <= a < n.len() && 0 <= b < n.len() && a != b implies n[a].spec_leaf() != n[b].spec_leaf() by {
            assert(n[a].spec_leaf() == children[a].spec_leaf());
            assert(n[b].spec_leaf() == children[b].spec_leaf());
        }
    }
    if leaf == x.spec_leaf() {
        assert(n[i] == x);
        lemma_find_child_at(n, i);
    } else if exists|j: int| 0 <= j < children.len() && #[trigger] children[j].spec_leaf() == leaf {
        let j = choose|j: int| 0 <= j < children.len() && #[trigger] children[j].spec_leaf() == leaf;
        assert(j != i);
        assert(n[j] == children[j]);
        lemma_find_child_at(children, j);
        lemma_find_child_at(n, j);
    } else {
        if exists|j: int| 0 <= j < n.len() && #[trigger] n[j].spec_leaf() == leaf {
            let j = choose|j: int| 0 <= j < n.len() && #[trigger] n[j].spec_leaf() == leaf;
            assert(children[j] == n[j]);
        }
    }
}

/// The levels `q` begin `rest` and `rest` goes on after them.
pub open spec fn strictly_prefix(q: Seq<Seq<char>>, rest: Seq<Seq<char>>) -> bool {
    q.len() < rest.len() && q.is_prefix_of(rest)
}

/// The number of levels with messages below the level reached from `t`
/// along `q`; none where no level is reached.
pub open spec fn topics_at(t: Topic, q: Seq<Seq<char>>) -> nat {
    match node_at(t, q) {
        Some(n) => topics_below(n),
        None => 0,
    }
}

/// The number of messages below the level reached from `t` along `q`; none
/// where no level is reached.
pub open spec fn messages_at(t: Topic, q: Seq<Seq<char>>) -> nat {
    match node_at(t, q) {
        Some(n) => messages_below(n),
        None => 0,
    }
}

proof fn lemma_strictly_prefix_by_first(q: Seq<Seq<char>>, rest: Seq<Seq<char>>)
    requires
        q.len() > 0,
        rest.len() > 0,
        q[0] == rest[0],
    ensures
        strictly_prefix(q, rest) == strictly_prefix(q.drop_first(), rest.drop_first()),
{
    if strictly_prefix(q.drop_first(), rest.drop_first()) {
        lemma_prefix_by_first(q, rest);
    }
    if strictly_prefix(q, rest) {
        assert(q.drop_first() =~= rest.drop_first().subrange(0, q.drop_first().len() as int)) by {
            assert forall|j: int| 0 <= j < q.drop_first().len() implies q.drop_first()[j] == rest.drop_first().subrange(
                0,
                q.drop_first().len() as int,
            )[j] by {
                assert(q[j + 1] == rest.subrange(0, q.len() as int)[j + 1]);
            }
        }
    }
}

/// A path that begins with the first level of `rest` and goes on along the
/// rest of it is a prefix of it.
proof fn lemma_prefix_by_first(q: Seq<Seq<char>>, rest: Seq<Seq<char>>)
    requires
        q.len() > 0,
        rest.len() > 0,
        q[0] == rest[0],
        q.drop_first().is_prefix_of(rest.drop_first()),
    ensures
        q.is_prefix_of(rest),
{
    assert forall|j: int| 0 <= j < q.len() implies q[j] == rest.subrange(0, q.len() as int)[j] by {
        if j > 0 {
            assert(q[j] == q.drop_first()[j - 1]);
            assert(rest[j] == rest.drop_first()[j - 1]);
            assert(q.drop_first()[j - 1] == rest.drop_first().subrange(0, q.drop_first().len() as int)[j - 1]);
        }
    }
    assert(q =~= rest.subrange(0, q.len() as int));
}

/// A level is reached along every prefix of a path that reaches one.
proof fn lemma_node_at_prefix(t: Topic, q: Seq<Seq<char>>, j: int)
    requires
        node_at(t, q) is Some,
        0 <= j <= q.len(),
    ensures
        node_at(t, q.take(j)) is Some,
    decreases q.len(),
{
    if j > 0 {
        let child = find_child(t.spec_children(), q[0])->0;
        lemma_node_at_prefix(child, q.drop_first(), j - 1);
        assert(q.take(j).drop_first() =~= q.drop_first().take(j - 1));
        assert(q.take(j)[0] == q[0]);
    }
}

proof fn lemma_same_first_and_rest(a: Seq<Seq<char>>, b: Seq<Seq<char>>)
    requires
        a.len() > 0,
        b.len() > 0,
        a[0] == b[0],
        a.drop_first() == b.drop_first(),
    ensures
        a == b,
{
    assert(a.len() == a.drop_first().len() + 1);
    assert(b.len() == b.drop_first().len() + 1);
    assert forall|j: int| 0 <= j < a.len() implies a[j] == b[j] by {
        if j > 0 {
            assert(a[j] == a.drop_first()[j - 1]);
            assert(b[j] == b.drop_first()[j - 1]);
        }
    }
    assert(a =~= b);
}

/// A level without messages and children has no messages along any path.
proof fn lemma_history_at_empty(t: Topic, q: Seq<Seq<char>>)
    requires
        t.spec_history() == Seq::<HistoryEntry>::empty(),
        t.spec_children() == Seq::<Topic>::empty(),
    ensures
        history_at(t, q) == Seq::<HistoryEntry>::empty(),
{
}

/// Adds `entry` to the level reached along the rest of `parts`, creating
/// missing levels at their place in the order.
#[verifier::spinoff_prover]
#[verifier::rlimit(40)]
fn add_at(node: &mut Topic, parts: &Vec<&str>, k: usize, entry: HistoryEntry)
    requires
        old(node).well_formed(),
        k <= parts@.len(),
    ensures
        final(node).well_formed(),
        final(node).spec_leaf() == old(node).spec_leaf(),
        forall|q: Seq<Seq<char>>|
            #[trigger] history_at(*final(node), q) == if q == views(parts@).skip(k as int) {
                history_at(*old(node), q).push(entry)
            } else {
                history_at(*old(node), q)
            },
        k < parts@.len() ==> forall|l: Seq<char>|
            #[trigger] leaves(final(node).children@).contains(l) <==> (leaves(old(node).children@).contains(l) || l
                == parts@[k as int]@),
        forall|q: Seq<Seq<char>>|
            #[trigger] node_at(*final(node), q) is Some ==> (node_at(*old(node), q) is Some || q.is_prefix_of(
                views(parts@).skip(k as int),
            )),
        forall|q: Seq<Seq<char>>|
            #[trigger] node_at(*final(node), q) is Some ==> topics_at(*final(node), q) == topics_at(*old(node), q) + (
            if strictly_prefix(q, views(parts@).skip(k as int)) && history_at(
                *old(node),
                views(parts@).skip(k as int),
            ).len() == 0 {
                1nat
            } else {
                0nat
            }) && messages_at(*final(node), q) == messages_at(*old(node), q) + (if strictly_prefix(
                q,
                views(parts@).skip(k as int),
            ) {
                1nat
            } else {
                0nat
            }),
        message_count(*final(node)) == message_count(*old(node)) + 1,
        topic_count(*final(node)) == topic_count(*old(node)) + if history_at(
            *old(node),
            views(parts@).skip(k as int),
        ).len() == 0 {
            1nat
        } else {
            0nat
        },
    decreases parts@.len() - k,
{
    let ghost rest = views(parts@).skip(k as int);
    if k == parts.len() {
        let ghost before = *node;
        node.history.push(entry);
        proof {
            assert(rest.len() == 0);
            assert(history_at(before, rest) == before.history@);
            assert(node.children@ == before.children@);
            assert forall|q: Seq<Seq<char>>|
                #[trigger] history_at(*node, q) == if q == rest {
                    history_at(before, q).push(entry)
                } else {
                    history_at(before, q)
                } by {
                if q.len() == 0 {
                    assert(q =~= rest);
                }
            }
            assert forall|q: Seq<Seq<char>>| #[trigger] node_at(*node, q) is Some implies node_at(before, q) is Some by {
                if q.len() > 0 {
                    assert(node.spec_children() == before.spec_children());
                }
            }
            assert forall|q: Seq<Seq<char>>| #[trigger] node_at(*node, q) is Some implies topics_at(*node, q)
                == topics_at(before, q) + (if strictly_prefix(q, rest) && history_at(before, rest).len() == 0 {
                1nat
            } else {
                0nat
            }) && messages_at(*node, q) == messages_at(before, q) + (if strictly_prefix(q, rest) {
                1nat
            } else {
                0nat
            }) by {
                assert(node.spec_children() == before.spec_children());
                if q.len() > 0 {
                    assert(node_at(*node, q) == node_at(before, q));
                }
            }
        }
        return;
    }
    let part = parts[k];
    let ghost before = *node;
    let ghost old_children = node.children@;
    proof {
        lemma_sorted_distinct(old_children);
        assert(rest[0] == part@);
        assert(rest.drop_first() =~= views(parts@).skip(k + 1));
    }
    let n = node.children.len();
    let mut i: usize = 0;
    loop
        invariant
            i <= n,
            n == node.children@.len(),
            node.children@ == old_children,
            strictly_sorted(leaves(old_children)),
            forall|j: int| 0 <= j < i ==> lex_lt(#[trigger] leaves(old_children)[j], part@),
        ensures
            i <= n,
            node.children@ == old_children,
            forall|j: int| 0 <= j < i ==> lex_lt(#[trigger] leaves(old_children)[j], part@),
            i < n ==> !lex_lt(leaves(old_children)[i as int], part@),
        decreases n - i,
    {
        if i >= n {
            break;
        }
        match compare_topics(node.children[i].leaf.as_str(), part) {
            TopicOrder::Less => {},
            _ => {
                break;
            },
        }
        i += 1;
    }
    let ghost pos = i as int;
    let found = if i < n {
        match compare_topics(node.children[i].leaf.as_str(), part) {
            TopicOrder::Equal => true,
            _ => false,
        }
    } else {
        false
    };
    if found {
        let mut child = node.children.remove(i);
        let ghost old_child = child;
        proof {
            lemma_well_formed_all(old_children, pos);
        }
        add_at(&mut child, parts, k + 1, entry);
        let ghost new_child = child;
        node.children.insert(i, child);
        proof {
            let nc = node.children@;
            assert(nc =~= old_children.update(pos, new_child));
            lemma_counts_update(old_children, pos, new_child);
            lemma_find_child_at(old_children, pos);
            assert(history_at(before, rest) == history_at(old_child, rest.drop_first()));
            assert(leaves(nc) =~= leaves(old_children));
            assert(leaves(old_children)[pos] == part@);
            assert forall|j: int| 0 <= j < nc.len() implies #[trigger] nc[j].well_formed() by {
                if j != pos {
                    lemma_well_formed_all(old_children, j);
                }
            }
            lemma_well_formed_all_from(nc);
            assert(old_child.spec_leaf() == part@);
            assert forall|q: Seq<Seq<char>>|
                #[trigger] history_at(*node, q) == if q == rest {
                    history_at(before, q).push(entry)
                } else {
                    history_at(before, q)
                } by {
                if q.len() > 0 {
                    lemma_find_child_update(old_children, pos, new_child, q[0]);
                    if q[0] == part@ {
                        lemma_find_child_at(old_children, pos);
                        assert(q == rest <==> q.drop_first() == views(parts@).skip(k + 1)) by {
                            if q.drop_first() == views(parts@).skip(k + 1) {
                                lemma_same_first_and_rest(q, rest);
                            }
                        }
                        assert(history_at(new_child, q.drop_first()) == history_at(*node, q));
                        assert(history_at(old_child, q.drop_first()) == history_at(before, q));
                    } else {
                        assert(q != rest);
                    }
                } else {
                    assert(q != rest);
                }
            }
            assert forall|q: Seq<Seq<char>>| #[trigger] node_at(*node, q) is Some implies (node_at(before, q) is Some
                || q.is_prefix_of(rest)) by {
                if q.len() > 0 {
                    lemma_find_child_update(old_children, pos, new_child, q[0]);
                    if q[0] == part@ {
                        lemma_find_child_at(old_children, pos);
                        assert(node_at(*node, q) == node_at(new_child, q.drop_first()));
                        assert(node_at(before, q) == node_at(old_child, q.drop_first()));
                        if !(node_at(old_child, q.drop_first()) is Some) {
                            assert(q.drop_first().is_prefix_of(views(parts@).skip(k + 1)));
                            lemma_prefix_by_first(q, rest);
                        }
                    }
                }
            }
            assert(node.history@ == before.history@);
            assert forall|q: Seq<Seq<char>>| #[trigger] node_at(*node, q) is Some implies topics_at(*node, q)
                == topics_at(before, q) + (if strictly_prefix(q, rest) && history_at(before, rest).len() == 0 {
                1nat
            } else {
                0nat
            }) && messages_at(*node, q) == messages_at(before, q) + (if strictly_prefix(q, rest) {
                1nat
            } else {
                0nat
            }) by {
                if q.len() > 0 {
                    lemma_find_child_update(old_children, pos, new_child, q[0]);
                    if q[0] == part@ {
                        lemma_find_child_at(old_children, pos);
                        assert(node_at(*node, q) == node_at(new_child, q.drop_first()));
                        assert(node_at(before, q) == node_at(old_child, q.drop_first()));
                        lemma_strictly_prefix_by_first(q, rest);
                        assert(node_at(new_child, q.drop_first()) is Some);
                    } else {
                        assert(node_at(*node, q) == node_at(before, q));
                    }
                } else {
                    assert(strictly_prefix(q, rest)) by {
                        assert(q =~= rest.subrange(0, 0));
                    }
                }
            }
        }
    } else {
        let mut child = Topic::new(String::from_str(part));
        let ghost fresh = child;
        add_at(&mut child, parts, k + 1, entry);
        let ghost new_child = child;
        node.children.insert(i, child);
        proof {
            let nc = node.children@;
            assert(nc =~= old_children.insert(pos, new_child));
            lemma_counts_insert(old_children, pos, new_child);
            lemma_history_at_empty(fresh, rest.drop_first());
            assert(topics_below_all(fresh.children@) == 0);
            assert(messages_below_all(fresh.children@) == 0);
            assert forall|j: int| 0 <= j < old_children.len() implies #[trigger] old_children[j].spec_leaf() != part@ by {
                assert(leaves(old_children)[j] == old_children[j].spec_leaf());
                if pos < n {
                    lemma_lex_total_ne(leaves(old_children)[pos], part@);
                }
                if j < pos {
                    lemma_lex_irreflexive(part@);
                } else if j > pos {
                    lemma_lex_transitive(part@, leaves(old_children)[pos], leaves(old_children)[j]);
                    lemma_lex_irreflexive(part@);
                }
            }
            assert(find_child(old_children, part@) is None);
            assert(history_at(before, rest) == Seq::<HistoryEntry>::empty());
            if pos < n {
                lemma_lex_total_ne(leaves(old_children)[pos], part@);
            }
            assert(leaves(nc) =~= leaves(old_children).insert(pos, part@));
            assert forall|l: Seq<char>| #[trigger] leaves(nc).contains(l) <==> (leaves(old_children).contains(l) || l
                == part@) by {
                let lo = leaves(old_children);
                if leaves(nc).contains(l) {
                    let j = choose|j: int| 0 <= j < leaves(nc).len() && leaves(nc)[j] == l;
                    if j < pos {
                        assert(lo[j] == l);
                    } else if j > pos {
                        assert(lo[j - 1] == l);
                    }
                }
                if lo.contains(l) {
                    let j = choose|j: int| 0 <= j < lo.len() && lo[j] == l;
                    if j < pos {
                        assert(leaves(nc)[j] == l);
                    } else {
                        assert(leaves(nc)[j + 1] == l);
                    }
                }
                if l == part@ {
                    assert(leaves(nc)[pos] == l);
                }
            }
            assert forall|a: int, b: int| 0 <= a < b < leaves(nc).len() implies lex_lt(
                #[trigger] leaves(nc)[a],
                #[trigger] leaves(nc)[b],
            ) by {
                let lo = leaves(old_children);
                if b < pos {
                    assert(leaves(nc)[a] == lo[a]);
                    assert(leaves(nc)[b] == lo[b]);
                } else if a > pos {
                    assert(leaves(nc)[a] == lo[a - 1]);
                    assert(leaves(nc)[b] == lo[b - 1]);
                } else if a == pos {
                    assert(leaves(nc)[b] == lo[b - 1]);
                    if b - 1 > pos {
                        lemma_lex_transitive(part@, lo[pos], lo[b - 1]);
                    }
                } else if b == pos {
                    assert(leaves(nc)[a] == lo[a]);
                } else {
                    assert(leaves(nc)[a] == lo[a]);
                    assert(leaves(nc)[b] == lo[b - 1]);
                    if b - 1 > pos {
                        lemma_lex_transitive(part@, lo[pos], lo[b - 1]);
                    }
                    lemma_lex_transitive(lo[a], part@, lo[b - 1]);
                }
            }
            lemma_sorted_distinct(nc);
            assert forall|j: int| 0 <= j < nc.len() implies #[trigger] nc[j].well_formed() by {
                if j < pos {
                    lemma_well_formed_all(old_children, j);
                } else if j > pos {
                    lemma_well_formed_all(old_children, j - 1);
                }
            }
            lemma_well_formed_all_from(nc);
            assert forall|q: Seq<Seq<char>>|
                #[trigger] history_at(*node, q) == if q == rest {
                    history_at(before, q).push(entry)
                } else {
                    history_at(before, q)
                } by {
                if q.len() > 0 {
                    if q[0] == part@ {
                        assert(nc[pos] == new_child);
                        lemma_find_child_at(nc, pos);
                        assert forall|j: int| 0 <= j < old_children.len() implies #[trigger] old_children[j].spec_leaf() != part@ by {
                            assert(leaves(old_children)[j] == old_children[j].spec_leaf());
                            if j < pos {
                                lemma_lex_irreflexive(part@);
                            } else if j > pos {
                                lemma_lex_transitive(part@, leaves(old_children)[pos], leaves(old_children)[j]);
                                lemma_lex_irreflexive(part@);
                            }
                        }
                        assert(find_child(old_children, part@) is None);
                        lemma_history_at_empty(fresh, q.drop_first());
                        assert(history_at(*node, q) == history_at(new_child, q.drop_first()));
                        assert(history_at(before, q) == Seq::<HistoryEntry>::empty());
                        assert(q == rest <==> q.drop_first() == views(parts@).skip(k + 1)) by {
                            if q.drop_first() == views(parts@).skip(k + 1) {
                                lemma_same_first_and_rest(q, rest);
                            }
                        }
                    } else {
                        lemma_find_child_insert(old_children, pos, new_child, q[0]);
                        assert(q != rest);
                    }
                } else {
                    assert(q != rest);
                }
            }
            assert forall|q: Seq<Seq<char>>| #[trigger] node_at(*node, q) is Some implies (node_at(before, q) is Some
                || q.is_prefix_of(rest)) by {
                if q.len() > 0 {
                    if q[0] == part@ {
                        assert(nc[pos] == new_child);
                        lemma_find_child_at(nc, pos);
                        assert(node_at(*node, q) == node_at(new_child, q.drop_first()));
                        if q.drop_first().len() > 0 {
                            assert(fresh.spec_children() == Seq::<Topic>::empty());
                            assert(find_child(fresh.spec_children(), q.drop_first()[0]) is None);
                            assert(!(node_at(fresh, q.drop_first()) is Some));
                            assert(q.drop_first().is_prefix_of(views(parts@).skip(k + 1)));
                        } else {
                            assert(q.drop_first().is_prefix_of(views(parts@).skip(k + 1)));
                        }
                        lemma_prefix_by_first(q, rest);
                    } else {
                        lemma_find_child_insert(old_children, pos, new_child, q[0]);
                    }
                }
            }
            assert(node.history@ == before.history@);
            assert(topics_below(fresh) == 0 && messages_below(fresh) == 0) by {
                assert(fresh.spec_children() == Seq::<Topic>::empty());
            }
            assert forall|q: Seq<Seq<char>>| #[trigger] node_at(*node, q) is Some implies topics_at(*node, q)
                == topics_at(before, q) + (if strictly_prefix(q, rest) && history_at(before, rest).len() == 0 {
                1nat
            } else {
                0nat
            }) && messages_at(*node, q) == messages_at(before, q) + (if strictly_prefix(q, rest) {
                1nat
            } else {
                0nat
            }) by {
                if q.len() > 0 {
                    if q[0] == part@ {
                        assert(nc[pos] == new_child);
                        lemma_find_child_at(nc, pos);
                        assert(node_at(*node, q) == node_at(new_child, q.drop_first()));
                        assert(node_at(before, q) is None);
                        lemma_strictly_prefix_by_first(q, rest);
                        assert(node_at(new_child, q.drop_first()) is Some);
                        if q.drop_first().len() > 0 {
                            assert(find_child(fresh.spec_children(), q.drop_first()[0]) is None) by {
                                assert(fresh.spec_children() == Seq::<Topic>::empty());
                            }
                        }
                        assert(topics_at(fresh, q.drop_first()) == 0);
                        assert(messages_at(fresh, q.drop_first()) == 0);
                        lemma_history_at_empty(fresh, views(parts@).skip(k + 1));
                    } else {
                        lemma_find_child_insert(old_children, pos, new_child, q[0]);
                        assert(node_at(*node, q) == node_at(before, q));
                    }
                } else {
                    assert(strictly_prefix(q, rest)) by {
                        assert(q =~= rest.subrange(0, 0));
                    }
                }
            }
        }
    }
}

/// Removes the message at `index` from the level reached along the rest of
/// `parts`, unless it is the newest one (or there is no such message).
#[verifier::spinoff_prover]
fn remove_at(node: &mut Topic, parts: &Vec<&str>, k: usize, index: usize) -> (removed: Option<HistoryEntry>)
    requires
        old(node).well_formed(),
        k <= parts@.len(),
    ensures
        final(node).well_formed(),
        final(node).spec_leaf() == old(node).spec_leaf(),
        ({
            let h = history_at(*old(node), views(parts@).skip(k as int));
            &&& removed is Some <==> index + 1 < h.len()
            &&& removed matches Some(e) ==> e == h[index as int]
        }),
        forall|q: Seq<Seq<char>>|
            #[trigger] history_at(*final(node), q) == if q == views(parts@).skip(k as int) && removed is Some {
                history_at(*old(node), q).remove(index as int)
            } else {
                history_at(*old(node), q)
            },
        message_count(*final(node)) + (if removed is Some {
            1nat
        } else {
            0nat
        }) == message_count(*old(node)),
        topic_count(*final(node)) == topic_count(*old(node)),
        leaves(final(node).children@) == leaves(old(node).children@),
        forall|q: Seq<Seq<char>>| #[trigger] node_at(*final(node), q) is Some ==> node_at(*old(node), q) is Some,
        forall|q: Seq<Seq<char>>|
            #[trigger] node_at(*final(node), q) is Some ==> topics_at(*final(node), q) == topics_at(*old(node), q)
                && messages_at(*final(node), q) + (if removed is Some && strictly_prefix(
                q,
                views(parts@).skip(k as int),
            ) {
                1nat
            } else {
                0nat
            }) == messages_at(*old(node), q),
    decreases parts@.len() - k,
{
    let ghost rest = views(parts@).skip(k as int);
    if k == parts.len() {
        let ghost before = *node;
        proof {
            assert(rest.len() == 0);
            assert(history_at(before, rest) == before.history@);
        }
        if index < node.history.len().saturating_sub(1) {
            let entry = node.history.remove(index);
            proof {
                assert(node.children@ == before.children@);
                assert forall|q: Seq<Seq<char>>| #[trigger] node_at(*node, q) is Some implies node_at(before, q) is Some by {
                    if q.len() > 0 {
                        assert(node.spec_children() == before.spec_children());
                    }
                }
                assert forall|q: Seq<Seq<char>>| #[trigger] node_at(*node, q) is Some implies topics_at(*node, q)
                    == topics_at(before, q) && messages_at(*node, q) + (if strictly_prefix(q, rest) {
                    1nat
                } else {
                    0nat
                }) == messages_at(before, q) by {
                    assert(node.spec_children() == before.spec_children());
                    if q.len() > 0 {
                        assert(node_at(*node, q) == node_at(before, q));
                    }
                }
                assert forall|q: Seq<Seq<char>>|
                    #[trigger] history_at(*node, q) == if q == rest {
                        history_at(before, q).remove(index as int)
                    } else {
                        history_at(before, q)
                    } by {
                    if q.len() == 0 {
                        assert(q =~= rest);
                    }
                }
            }
            return Some(entry);
        }
        return None;
    }
    let part = parts[k];
    let ghost before = *node;
    let ghost old_children = node.children@;
    proof {
        lemma_sorted_distinct(old_children);
        assert(rest[0] == part@);
        assert(rest.drop_first() =~= views(parts@).skip(k + 1));
    }
    let n = node.children.len();
    let mut i: usize = 0;
    while i < n
        invariant
            i <= n,
            n == node.children@.len(),
            node.children@ == old_children,
            forall|j: int| 0 <= j < i ==> #[trigger] old_children[j].spec_leaf() != part@,
        ensures
            i <= n,
            node.children@ == old_children,
            forall|j: int| 0 <= j < i ==> #[trigger] old_children[j].spec_leaf() != part@,
            i < n ==> old_children[i as int].spec_leaf() == part@,
        decreases n - i,
    {
        if crate::text::str_eq(node.children[i].leaf.as_str(), part) {
            break;
        }
        i += 1;
    }
    if i == n {
        proof {
            assert(find_child(old_children, part@) is None);
            assert(history_at(before, rest) == Seq::<HistoryEntry>::empty());
        }
        return None;
    }
    let ghost pos = i as int;
    let mut child = node.children.remove(i);
    let ghost old_child = child;
    proof {
        lemma_well_formed_all(old_children, pos);
        lemma_find_child_at(old_children, pos);
        assert(history_at(before, rest) == history_at(old_child, rest.drop_first()));
    }
    let removed = remove_at(&mut child, parts, k + 1, index);
    let ghost new_child = child;
    node.children.insert(i, child);
    proof {
        let nc = node.children@;
        assert(nc =~= old_children.update(pos, new_child));
        lemma_counts_update(old_children, pos, new_child);
        assert forall|q: Seq<Seq<char>>| #[trigger] node_at(*node, q) is Some implies node_at(before, q) is Some by {
            if q.len() > 0 {
                lemma_find_child_update(old_children, pos, new_child, q[0]);
                if q[0] == part@ {
                    assert(node_at(*node, q) == node_at(new_child, q.drop_first()));
                    assert(node_at(before, q) == node_at(old_child, q.drop_first()));
                }
            }
        }
        assert(node.history@ == before.history@);
        assert forall|q: Seq<Seq<char>>| #[trigger] node_at(*node, q) is Some implies topics_at(*node, q) == topics_at(
            before,
            q,
        ) && messages_at(*node, q) + (if removed is Some && strictly_prefix(q, rest) {
            1nat
        } else {
            0nat
        }) == messages_at(before, q) by {
            if q.len() > 0 {
                lemma_find_child_update(old_children, pos, new_child, q[0]);
                if q[0] == part@ {
                    assert(node_at(*node, q) == node_at(new_child, q.drop_first()));
                    assert(node_at(before, q) == node_at(old_child, q.drop_first()));
                    lemma_strictly_prefix_by_first(q, rest);
                    assert(node_at(new_child, q.drop_first()) is Some);
                } else {
                    assert(node_at(*node, q) == node_at(before, q));
                }
            } else {
                assert(strictly_prefix(q, rest)) by {
                    assert(q =~= rest.subrange(0, 0));
                }
            }
        }
        assert(leaves(nc) =~= leaves(old_children));
        assert forall|j: int| 0 <= j < nc.len() implies #[trigger] nc[j].well_formed() by {
            if j != pos {
                lemma_well_formed_all(old_children, j);
            }
        }
        lemma_well_formed_all_from(nc);
        assert forall|q: Seq<Seq<char>>|
            #[trigger] history_at(*node, q) == if q == rest && removed is Some {
                history_at(before, q).remove(index as int)
            } else {
                history_at(before, q)
            } by {
            if q.len() > 0 {
                lemma_find_child_update(old_children, pos, new_child, q[0]);
                if q[0] == part@ {
                    assert(q == rest <==> q.drop_first() == views(parts@).skip(k + 1)) by {
                        if q.drop_first() == views(parts@).skip(k + 1) {
                            lemma_same_first_and_rest(q, rest);
                        }
                    }
                    assert(history_at(new_child, q.drop_first()) == history_at(*node, q));
                    assert(history_at(old_child, q.drop_first()) == history_at(before, q));
                } else {
                    assert(q != rest);
                }
            } else {
                assert(q != rest);
            }
        }
    }
    removed
}

/// `a + b`, or `usize::MAX` when that does not fit.
pub open spec fn sat(a: int, b: int) -> usize {
    if a + b > usize::MAX {
        usize::MAX
    } else {
        (a + b) as usize
    }
}

/// The number of messages of all levels below `t`.
pub open spec fn messages_below(t: Topic) -> nat
    decreases t,
{
    messages_below_all(t.spec_children())
}

/// The number of messages of the levels `ts` and of all levels below them.
pub open spec fn messages_below_all(ts: Seq<Topic>) -> nat
    decreases ts,
{
    if ts.len() == 0 {
        0
    } else {
        messages_below_all(ts.drop_last()) + ts.last().spec_history().len() + messages_below(ts.last())
    }
}

/// The number of levels below `t` that have messages.
pub open spec fn topics_below(t: Topic) -> nat
    decreases t,
{
    topics_below_all(t.spec_children())
}

/// The number of levels among `ts` and below them that have messages.
pub open spec fn topics_below_all(ts: Seq<Topic>) -> nat
    decreases ts,
{
    if ts.len() == 0 {
        0
    } else {
        topics_below_all(ts.drop_last()) + (if ts.last().spec_history().len() > 0 {
            1nat
        } else {
            0nat
        }) + topics_below(ts.last())
    }
}

/// The number of levels with messages at `t` and below it.
pub open spec fn topic_count(t: Topic) -> nat {
    (if t.spec_history().len() > 0 {
        1nat
    } else {
        0nat
    }) + topics_below(t)
}

/// The number of messages at `t` and below it.
pub open spec fn message_count(t: Topic) -> nat {
    t.spec_history().len() + messages_below(t)
}

proof fn lemma_counts_update(ts: Seq<Topic>, pos: int, x: Topic)
    requires
        0 <= pos < ts.len(),
    ensures
        topics_below_all(ts.update(pos, x)) + topic_count(ts[pos]) == topics_below_all(ts) + topic_count(x),
        messages_below_all(ts.update(pos, x)) + message_count(ts[pos]) == messages_below_all(ts) + message_count(x),
    decreases ts.len(),
{
    let u = ts.update(pos, x);
    if pos == ts.len() - 1 {
        assert(u.drop_last() =~= ts.drop_last());
    } else {
        lemma_counts_update(ts.drop_last(), pos, x);
        assert(u.drop_last() =~= ts.drop_last().update(pos, x));
    }
}

proof fn lemma_counts_insert(ts: Seq<Topic>, pos: int, x: Topic)
    requires
        0 <= pos <= ts.len(),
    ensures
        topics_below_all(ts.insert(pos, x)) == topics_below_all(ts) + topic_count(x),
        messages_below_all(ts.insert(pos, x)) == messages_below_all(ts) + message_count(x),
    decreases ts.len(),
{
    let u = ts.insert(pos, x);
    if pos == ts.len() {
        assert(u.drop_last() =~= ts);
    } else {
        lemma_counts_insert(ts.drop_last(), pos, x);
        assert(u.drop_last() =~= ts.drop_last().insert(pos, x));
    }
}

/// A count as it is shown: the number, or `usize::MAX` when it is bigger.
pub open spec fn capped(n: nat) -> usize {
    if n > usize::MAX {
        usize::MAX
    } else {
        n as usize
    }
}

/// What a level shows beside its leaf: its newest payload, or how many
/// topics and messages are below it.
pub open spec fn spec_meta(t: Topic) -> Seq<char> {
    if t.spec_history().len() > 0 {
        "= "@ + spec_payload_text(t.spec_history().last().payload@)
    } else {
        "("@ + spec_decimal(capped(topics_below(t)) as nat) + " topics, "@ + spec_decimal(
            capped(messages_below(t)) as nat,
        ) + " messages)"@
    }
}

/// An entry of the topic tree as it is shown: the leaf, what is shown
/// beside it, and the entries below it.
#[derive(Debug)]
pub struct TopicTreeItem {
    pub leaf: String,
    pub meta: String,
    pub children: Vec<TopicTreeItem>,
}

/// The shown entry `item` belongs to the level `t`, at every depth.
pub open spec fn item_shows(item: TopicTreeItem, t: Topic) -> bool
    decreases t,
{
    &&& item.leaf@ == t.spec_leaf()
    &&& item.meta@ == spec_meta(t)
    &&& items_show(item.children@, t.spec_children())
}

/// Each shown entry belongs to the level at its position.
pub open spec fn items_show(items: Seq<TopicTreeItem>, ts: Seq<Topic>) -> bool
    decreases ts,
{
    &&& items.len() == ts.len()
    &&& ts.len() > 0 ==> {
        &&& items_show(items.drop_last(), ts.drop_last())
        &&& item_shows(items.last(), ts.last())
    }
}

/// The leaves of shown entries.
pub open spec fn item_leaves(items: Seq<TopicTreeItem>) -> Seq<Seq<char>> {
    items.map_values(|item: TopicTreeItem| item.leaf@)
}

/// Every list of shown entries, at every depth, is ordered strictly by
/// leaf: no leaf shows twice among siblings.
pub open spec fn items_sorted(items: Seq<TopicTreeItem>) -> bool
    decreases items,
{
    &&& strictly_sorted(item_leaves(items))
    &&& forall|k: int| 0 <= k < items.len() ==> items_sorted(#[trigger] items[k].children@)
}

proof fn lemma_items_show_at(items: Seq<TopicTreeItem>, ts: Seq<Topic>, k: int)
    requires
        items_show(items, ts),
        0 <= k < ts.len(),
    ensures
        item_shows(items[k], ts[k]),
    decreases ts.len(),
{
    if k < ts.len() - 1 {
        lemma_items_show_at(items.drop_last(), ts.drop_last(), k);
    }
}

proof fn lemma_items_sorted(items: Seq<TopicTreeItem>, ts: Seq<Topic>)
    requires
        items_show(items, ts),
        strictly_sorted(leaves(ts)),
        well_formed_all(ts),
    ensures
        items_sorted(items),
    decreases ts,
{
    assert forall|k: int| 0 <= k < items.len() implies item_leaves(items)[k] == leaves(ts)[k] by {
        lemma_items_show_at(items, ts, k);
    }
    assert(item_leaves(items) =~= leaves(ts));
    assert forall|k: int| 0 <= k < items.len() implies items_sorted(#[trigger] items[k].children@) by {
        lemma_items_show_at(items, ts, k);
        lemma_well_formed_all(ts, k);
        let t = ts[k];
        assert(t.well_formed());
        assert(items_show(items[k].children@, t.spec_children()));
        lemma_items_sorted(items[k].children@, t.children@);
    }
}

/// The shown entry among `items` whose leaf is `leaf`, if there is one.
pub open spec fn find_item(items: Seq<TopicTreeItem>, leaf: Seq<char>) -> Option<TopicTreeItem> {
    if exists|i: int| 0 <= i < items.len() && #[trigger] items[i].leaf@ == leaf {
        Some(items[choose|i: int| 0 <= i < items.len() && #[trigger] items[i].leaf@ == leaf])
    } else {
        None
    }
}

/// The shown entry reached from `items` along the leaves `path`: the entry
/// with the first leaf, then among its children the one with the next
/// leaf, and so on; `None` for an empty path or where no entry has the leaf.
pub open spec fn item_at(items: Seq<TopicTreeItem>, path: Seq<Seq<char>>) -> Option<TopicTreeItem>
    decreases path.len(),
{
    if path.len() == 0 {
        None
    } else {
        match find_item(items, path[0]) {
            Some(item) => if path.len() == 1 {
                Some(item)
            } else {
                item_at(item.children@, path.drop_first())
            },
            None => None,
        }
    }
}

/// The level reached from the levels `ts` along `path`.
pub open spec fn node_among(ts: Seq<Topic>, path: Seq<Seq<char>>) -> Option<Topic> {
    if path.len() == 0 {
        None
    } else {
        match find_child(ts, path[0]) {
            Some(child) => node_at(child, path.drop_first()),
            None => None,
        }
    }
}

proof fn lemma_item_at_node(items: Seq<TopicTreeItem>, ts: Seq<Topic>, path: Seq<Seq<char>>)
    requires
        items_show(items, ts),
        strictly_sorted(leaves(ts)),
        well_formed_all(ts),
    ensures
        item_at(items, path) is Some <==> node_among(ts, path) is Some,
        item_at(items, path) is Some ==> item_shows(item_at(items, path)->0, node_among(ts, path)->0),
    decreases path.len(),
{
    if path.len() > 0 {
        let l = path[0];
        lemma_sorted_distinct(ts);
        assert forall|k: int| 0 <= k < items.len() implies #[trigger] items[k].leaf@ == ts[k].spec_leaf() by {
            lemma_items_show_at(items, ts, k);
        }
        if exists|i: int| 0 <= i < ts.len() && #[trigger] ts[i].spec_leaf() == l {
            let i = choose|i: int| 0 <= i < ts.len() && #[trigger] ts[i].spec_leaf() == l;
            lemma_find_child_at(ts, i);
            assert(items[i].leaf@ == l);
            let j = choose|j: int| 0 <= j < items.len() && #[trigger] items[j].leaf@ == l;
            assert(ts[j].spec_leaf() == l);
            assert(j == i);
            assert(find_item(items, l) == Some(items[i]));
            lemma_items_show_at(items, ts, i);
            if path.len() > 1 {
                lemma_items_show_at(items, ts, i);
                lemma_well_formed_all(ts, i);
                let t = ts[i];
                assert(t.well_formed());
                assert(items_show(items[i].children@, t.spec_children()));
                lemma_item_at_node(items[i].children@, t.children@, path.drop_first());
                assert(node_at(t, path.drop_first()) == node_among(t.children@, path.drop_first()));
            }
        } else {
            if exists|j: int| 0 <= j < items.len() && #[trigger] items[j].leaf@ == l {
                let j = choose|j: int| 0 <= j < items.len() && #[trigger] items[j].leaf@ == l;
                assert(ts[j].spec_leaf() == l);
            }
            assert(find_item(items, l) is None);
        }
    }
}

/// The entries a series of adds gave the topic `t`, in their order.
pub open spec fn entries_added(adds: Seq<(Seq<char>, HistoryEntry)>, t: Seq<char>) -> Seq<HistoryEntry>
    decreases adds.len(),
{
    if adds.len() == 0 {
        Seq::empty()
    } else {
        let rest = entries_added(adds.drop_last(), t);
        if adds.last().0 == t {
            rest.push(adds.last().1)
        } else {
            rest
        }
    }
}

/// A series of histories built from an empty one: history `i + 1` is
/// history `i` after `add` of the topic and entry `adds[i]`, as `add` states
/// it.
pub open spec fn built_by_adds(histories: Seq<MqttHistory>, adds: Seq<(Seq<char>, HistoryEntry)>) -> bool {
    &&& histories.len() == adds.len() + 1
    &&& forall|t: Seq<char>| #[trigger] histories[0].spec_history(t) == Seq::<HistoryEntry>::empty()
    &&& forall|i: int, t: Seq<char>|
        0 <= i < adds.len() ==> #[trigger] histories[i + 1].spec_history(t) == if t == adds[i].0 {
            histories[i].spec_history(t).push(adds[i].1)
        } else {
            histories[i].spec_history(t)
        }
}

/// After a series of adds to an empty history, each topic holds exactly the
/// entries added for it, in the order they were added, and the topics with
/// messages (what `get_all_topics` lists) are exactly the topics added, each
/// once however often it was added; a level between them that was not added
/// itself has none.
pub proof fn lemma_history_after_adds(histories: Seq<MqttHistory>, adds: Seq<(Seq<char>, HistoryEntry)>)
    requires
        built_by_adds(histories, adds),
    ensures
        forall|t: Seq<char>| #[trigger] histories.last().spec_history(t) == entries_added(adds, t),
        forall|t: Seq<char>|
            #[trigger] histories.last().spec_history(t).len() > 0 <==> exists|i: int|
                0 <= i < adds.len() && adds[i].0 == t,
    decreases adds.len(),
{
    if adds.len() > 0 {
        let n = adds.len() - 1;
        let shorter = histories.drop_last();
        assert forall|i: int, t: Seq<char>| 0 <= i < adds.drop_last().len() implies #[trigger] shorter[i + 1].spec_history(
            t,
        ) == if t == adds.drop_last()[i].0 {
            shorter[i].spec_history(t).push(adds.drop_last()[i].1)
        } else {
            shorter[i].spec_history(t)
        } by {
            assert(histories[i + 1].spec_history(t) == if t == adds[i].0 {
                histories[i].spec_history(t).push(adds[i].1)
            } else {
                histories[i].spec_history(t)
            });
        }
        assert forall|t: Seq<char>| #[trigger] shorter[0].spec_history(t) == Seq::<HistoryEntry>::empty() by {
            assert(histories[0].spec_history(t) == Seq::<HistoryEntry>::empty());
        }
        lemma_history_after_adds(shorter, adds.drop_last());
        assert forall|t: Seq<char>| #[trigger] histories.last().spec_history(t) == entries_added(adds, t) by {
            assert(histories[n + 1].spec_history(t) == if t == adds[n].0 {
                histories[n].spec_history(t).push(adds[n].1)
            } else {
                histories[n].spec_history(t)
            });
            assert(shorter.last() == histories[n]);
            assert(shorter.last().spec_history(t) == entries_added(adds.drop_last(), t));
        }
        assert forall|t: Seq<char>|
            #[trigger] histories.last().spec_history(t).len() > 0 <==> exists|i: int|
                0 <= i < adds.len() && adds[i].0 == t by {
            assert(histories[n + 1].spec_history(t) == if t == adds[n].0 {
                histories[n].spec_history(t).push(adds[n].1)
            } else {
                histories[n].spec_history(t)
            });
            assert(shorter.last() == histories[n]);
            assert(shorter.last().spec_history(t).len() > 0 <==> exists|i: int|
                0 <= i < adds.drop_last().len() && adds.drop_last()[i].0 == t);
            if exists|i: int| 0 <= i < adds.len() && adds[i].0 == t {
                let i = choose|i: int| 0 <= i < adds.len() && adds[i].0 == t;
                if i < n {
                    assert(adds.drop_last()[i].0 == t);
                }
            }
            if exists|i: int| 0 <= i < adds.drop_last().len() && adds.drop_last()[i].0 == t {
                let i = choose|i: int| 0 <= i < adds.drop_last().len() && adds.drop_last()[i].0 == t;
                assert(adds[i].0 == t);
            }
        }
    } else {
        assert forall|t: Seq<char>| #[trigger] histories.last().spec_history(t) == entries_added(adds, t) by {
            assert(histories.last() == histories[0]);
            assert(histories[0].spec_history(t) == Seq::<HistoryEntry>::empty());
        }
        assert forall|t: Seq<char>|
            #[trigger] histories.last().spec_history(t).len() > 0 <==> exists|i: int|
                0 <= i < adds.len() && adds[i].0 == t by {
            assert(histories.last() == histories[0]);
            assert(histories[0].spec_history(t) == Seq::<HistoryEntry>::empty());
        }
    }
}

proof fn lemma_sat_capped(a: nat, b: nat)
    ensures
        sat(capped(a) as int, capped(b) as int) == capped(a + b),
{
}

struct Counted {
    messages_below: usize,
    messages: usize,
    topics_below: usize,
    item: TopicTreeItem,
}

fn meta_text(t: &Topic, topics: usize, messages: usize) -> (meta: String)
    requires
        topics == capped(topics_below(*t)),
        messages == capped(messages_below(*t)),
    ensures
        meta@ == spec_meta(*t),
{
    let n = t.history.len();
    if n > 0 {
        let mut text = String::from_str("= ");
        let shown = t.history[n - 1].payload.to_string();
        text.append(shown.as_str());
        text
    } else {
        let mut text = String::from_str("(");
        let topics_text = decimal(topics);
        text.append(topics_text.as_str());
        text.append(" topics, ");
        let messages_text = decimal(messages);
        text.append(messages_text.as_str());
        text.append(" messages)");
        text
    }
}

/// Counts the messages and topics below a level and builds its shown entry.
fn build_item(t: &Topic) -> (counted: Counted)
    ensures
        counted.messages == t.spec_history().len(),
        counted.messages_below == capped(messages_below(*t)),
        counted.topics_below == capped(topics_below(*t)),
        item_shows(counted.item, *t),
    decreases t,
{
    let (messages_below, topics_below, children) = build_items(&t.children);
    let meta = meta_text(t, topics_below, messages_below);
    let leaf = t.leaf.clone();
    let item = TopicTreeItem { leaf, meta, children };
    Counted { messages_below, messages: t.history.len(), topics_below, item }
}

/// Counts the messages and topics of the levels and below them, and builds
/// their shown entries.
fn build_items(ts: &Vec<Topic>) -> (counted: (usize, usize, Vec<TopicTreeItem>))
    ensures
        counted.0 == capped(messages_below_all(ts@)),
        counted.1 == capped(topics_below_all(ts@)),
        items_show(counted.2@, ts@),
    decreases ts@,
{
    let mut messages: usize = 0;
    let mut topics: usize = 0;
    let mut items: Vec<TopicTreeItem> = Vec::new();
    let mut i: usize = 0;
    while i < ts.len()
        invariant
            i <= ts@.len(),
            messages == capped(messages_below_all(ts@.take(i as int))),
            topics == capped(topics_below_all(ts@.take(i as int))),
            items_show(items@, ts@.take(i as int)),
        decreases ts@.len() - i,
    {
        proof {
            assert(ts@.take(i + 1).drop_last() =~= ts@.take(i as int));
            assert(ts@.take(i + 1).last() == ts@[i as int]);
        }
        let below = build_item(&ts[i]);
        proof {
            let m = ts@[i as int].spec_history().len();
            lemma_sat_capped(messages_below_all(ts@.take(i as int)), m);
            lemma_sat_capped(messages_below_all(ts@.take(i as int)) + m, messages_below(ts@[i as int]));
            let h: nat = if m > 0 { 1 } else { 0 };
            lemma_sat_capped(topics_below_all(ts@.take(i as int)), h);
            lemma_sat_capped(topics_below_all(ts@.take(i as int)) + h, topics_below(ts@[i as int]));
        }
        messages = messages.saturating_add(below.messages).saturating_add(below.messages_below);
        let has_messages: usize = if below.messages > 0 {
            1
        } else {
            0
        };
        topics = topics.saturating_add(has_messages).saturating_add(below.topics_below);
        let ghost before = items@;
        items.push(below.item);
        proof {
            assert(items@.drop_last() =~= before);
        }
        i += 1;
    }
    proof {
        assert(ts@.take(i as int) =~= ts@);
    }
    (messages, topics, items)
}

/// The character sequences of borrowed strings.
pub open spec fn ref_views(v: Seq<&String>) -> Seq<Seq<char>> {
    v.map_values(|s: &String| s@)
}

/// `child` is `base` itself or a topic below it.
pub open spec fn spec_is_topic_below(base: Seq<char>, child: Seq<char>) -> bool {
    ||| base == child
    ||| (base.len() < child.len() && child.take(base.len() as int) == base && child[base.len() as int] == '/')
}

/// A topic is below itself, and every topic written as `base`, a `/` and
/// any further levels is below `base`, however deep; a topic below `base`
/// other than `base` itself is written that way. Being below is transitive.
pub proof fn lemma_topic_below_any_depth(base: Seq<char>, rest: Seq<char>, child: Seq<char>, grandchild: Seq<char>)
    ensures
        spec_is_topic_below(base, base),
        spec_is_topic_below(base, base + seq!['/'] + rest),
        spec_is_topic_below(base, child) && child != base ==> child == base + seq!['/'] + child.skip(
            base.len() + 1int,
        ),
        spec_is_topic_below(base, child) && spec_is_topic_below(child, grandchild) ==> spec_is_topic_below(
            base,
            grandchild,
        ),
{
    let c = base + seq!['/'] + rest;
    assert(c.take(base.len() as int) =~= base);
    assert(c[base.len() as int] == '/');
    if spec_is_topic_below(base, child) && child != base {
        assert(child =~= base + seq!['/'] + child.skip(base.len() + 1int)) by {
            assert forall|j: int| 0 <= j < child.len() implies child[j] == (base + seq!['/'] + child.skip(
                base.len() + 1int,
            ))[j] by {
                if j < base.len() {
                    assert(child.take(base.len() as int)[j] == child[j]);
                }
            }
        }
    }
    if spec_is_topic_below(base, child) && spec_is_topic_below(child, grandchild) && base != child && child
        != grandchild {
        assert(grandchild.take(base.len() as int) =~= child.take(base.len() as int)) by {
            assert forall|j: int| 0 <= j < base.len() implies grandchild.take(base.len() as int)[j] == child.take(
                base.len() as int,
            )[j] by {
                assert(grandchild.take(child.len() as int)[j] == grandchild[j]);
            }
        }
        assert(grandchild[base.len() as int] == grandchild.take(child.len() as int)[base.len() as int]);
    }
}

/// Whether `child` is `base` itself or a topic below it.
pub fn is_topic_below(base: &str, child: &str) -> (below: bool)
    ensures
        below == spec_is_topic_below(base@, child@),
{
    if crate::text::str_eq(base, child) {
        return true;
    }
    let n = base.unicode_len();
    let m = child.unicode_len();
    if n >= m {
        return false;
    }
    let mut i: usize = 0;
    while i < n
        invariant
            i <= n < m,
            n == base@.len(),
            m == child@.len(),
            forall|j: int| 0 <= j < i ==> base@[j] == child@[j],
        decreases n - i,
    {
        if base.get_char(i) != child.get_char(i) {
            return false;
        }
        i += 1;
    }
    proof {
        assert(child@.take(n as int) =~= base@);
    }
    child.get_char(n) == '/'
}

/// Inserts a topic into a strictly sorted list unless it is there already.
fn insert_sorted_topic(topics: &mut Vec<String>, topic: String)
    requires
        strictly_sorted(string_views(old(topics)@)),
    ensures
        strictly_sorted(string_views(final(topics)@)),
        forall|t: Seq<char>|
            #[trigger] string_views(final(topics)@).contains(t) <==> (string_views(old(topics)@).contains(t) || t == topic@),
        string_views(old(topics)@).contains(topic@) ==> final(topics)@ == old(topics)@,
        !string_views(old(topics)@).contains(topic@) ==> exists|pos: int|
            0 <= pos <= old(topics)@.len() && string_views(final(topics)@) == string_views(old(topics)@).insert(
                pos,
                topic@,
            ),
{
    let ghost old_views = string_views(topics@);
    let n = topics.len();
    let mut i: usize = 0;
    loop
        invariant
            i <= n,
            n == topics@.len(),
            string_views(topics@) == old_views,
            strictly_sorted(old_views),
            forall|j: int| 0 <= j < i ==> lex_lt(#[trigger] old_views[j], topic@),
        ensures
            i <= n,
            string_views(topics@) == old_views,
            forall|j: int| 0 <= j < i ==> lex_lt(#[trigger] old_views[j], topic@),
            i < n ==> !lex_lt(old_views[i as int], topic@),
        decreases n - i,
    {
        if i >= n {
            break;
        }
        match compare_topics(topics[i].as_str(), topic.as_str()) {
            TopicOrder::Less => {},
            _ => {
                break;
            },
        }
        i += 1;
    }
    if i < n {
        match compare_topics(topics[i].as_str(), topic.as_str()) {
            TopicOrder::Equal => {
                proof {
                    assert(old_views[i as int] == topic@);
                    assert forall|t: Seq<char>|
                        #[trigger] string_views(topics@).contains(t) <==> (old_views.contains(t) || t == topic@) by {
                        if t == topic@ {
                            assert(old_views[i as int] == t);
                        }
                    }
                }
                return;
            },
            _ => {},
        }
    }
    let ghost pos = i as int;
    let ghost x = topic@;
    proof {
        if pos < n {
            lemma_lex_total_ne(old_views[pos], x);
        }
    }
    topics.insert(i, topic);
    proof {
        let nv = string_views(topics@);
        assert(nv =~= old_views.insert(pos, x));
        assert forall|j: int| 0 <= j < old_views.len() implies old_views[j] != x by {
            if j < pos {
                lemma_lex_irreflexive(x);
            } else {
                lemma_lex_total_ne(old_views[pos], x);
                if j > pos {
                    lemma_lex_transitive(x, old_views[pos], old_views[j]);
                }
                lemma_lex_irreflexive(x);
            }
        }
        assert(!old_views.contains(x));
        assert forall|a: int, b: int| 0 <= a < b < nv.len() implies lex_lt(#[trigger] nv[a], #[trigger] nv[b]) by {
            if b < pos {
            } else if a > pos {
                assert(nv[a] == old_views[a - 1]);
                assert(nv[b] == old_views[b - 1]);
            } else if a == pos {
                assert(nv[b] == old_views[b - 1]);
                if b - 1 > pos {
                    lemma_lex_transitive(x, old_views[pos], old_views[b - 1]);
                }
            } else if b == pos {
            } else {
                assert(nv[b] == old_views[b - 1]);
                if b - 1 > pos {
                    lemma_lex_transitive(x, old_views[pos], old_views[b - 1]);
                }
                lemma_lex_transitive(old_views[a], x, old_views[b - 1]);
            }
        }
        assert forall|y: Seq<char>| #[trigger] nv.contains(y) <==> (old_views.contains(y) || y == x) by {
            if nv.contains(y) {
                let k = choose|k: int| 0 <= k < nv.len() && nv[k] == y;
                if k < pos {
                    assert(old_views[k] == y);
                } else if k > pos {
                    assert(old_views[k - 1] == y);
                }
            }
            if old_views.contains(y) {
                let k = choose|k: int| 0 <= k < old_views.len() && old_views[k] == y;
                if k < pos {
                    assert(nv[k] == y);
                } else {
                    assert(nv[k + 1] == y);
                }
            }
            if y == x {
                assert(nv[pos] == y);
            }
        }
    }
}

/// The topic `t` lies strictly below the levels `p`: its levels begin with
/// `p` and go on.
pub open spec fn strictly_below(p: Seq<Seq<char>>, t: Seq<char>) -> bool {
    p.len() < spec_split(t).len() && p.is_prefix_of(spec_split(t))
}

/// How many of the topics `ts` lie strictly below the levels `p`.
pub open spec fn count_below(ts: Seq<Seq<char>>, p: Seq<Seq<char>>) -> nat
    decreases ts.len(),
{
    if ts.len() == 0 {
        0
    } else {
        count_below(ts.drop_last(), p) + if strictly_below(p, ts.last()) {
            1nat
        } else {
            0nat
        }
    }
}

/// How many messages the topics of `ts` that lie strictly below the levels
/// `p` have together.
pub open spec fn messages_below_path(h: MqttHistory, ts: Seq<Seq<char>>, p: Seq<Seq<char>>) -> nat
    decreases ts.len(),
{
    if ts.len() == 0 {
        0
    } else {
        messages_below_path(h, ts.drop_last(), p) + if strictly_below(p, ts.last()) {
            h.spec_history(ts.last()).len()
        } else {
            0nat
        }
    }
}

proof fn lemma_below_insert(h: MqttHistory, ts: Seq<Seq<char>>, pos: int, x: Seq<char>, p: Seq<Seq<char>>)
    requires
        0 <= pos <= ts.len(),
    ensures
        count_below(ts.insert(pos, x), p) == count_below(ts, p) + if strictly_below(p, x) {
            1nat
        } else {
            0nat
        },
        messages_below_path(h, ts.insert(pos, x), p) == messages_below_path(h, ts, p) + if strictly_below(p, x) {
            h.spec_history(x).len()
        } else {
            0nat
        },
    decreases ts.len(),
{
    let u = ts.insert(pos, x);
    if pos == ts.len() {
        assert(u.drop_last() =~= ts);
    } else {
        lemma_below_insert(h, ts.drop_last(), pos, x, p);
        assert(u.drop_last() =~= ts.drop_last().insert(pos, x));
    }
}

proof fn lemma_below_none(h: MqttHistory, ts: Seq<Seq<char>>, p: Seq<Seq<char>>)
    requires
        forall|i: int| 0 <= i < ts.len() ==> !strictly_below(p, #[trigger] ts[i]),
    ensures
        count_below(ts, p) == 0,
        messages_below_path(h, ts, p) == 0,
    decreases ts.len(),
{
    if ts.len() > 0 {
        assert(!strictly_below(p, ts[ts.len() - 1]));
        assert forall|i: int| 0 <= i < ts.drop_last().len() implies !strictly_below(p, #[trigger] ts.drop_last()[i]) by {
            assert(ts.drop_last()[i] == ts[i]);
        }
        lemma_below_none(h, ts.drop_last(), p);
    }
}

proof fn lemma_below_change(h1: MqttHistory, h2: MqttHistory, ts: Seq<Seq<char>>, t0: Seq<char>, p: Seq<Seq<char>>)
    requires
        strictly_sorted(ts),
        forall|t: Seq<char>| t != t0 ==> #[trigger] h2.spec_history(t).len() == h1.spec_history(t).len(),
    ensures
        messages_below_path(h2, ts, p) + (if ts.contains(t0) && strictly_below(p, t0) {
            h1.spec_history(t0).len()
        } else {
            0
        }) == messages_below_path(h1, ts, p) + (if ts.contains(t0) && strictly_below(p, t0) {
            h2.spec_history(t0).len()
        } else {
            0
        }),
    decreases ts.len(),
{
    if ts.len() > 0 {
        let rest = ts.drop_last();
        assert forall|i: int, j: int| 0 <= i < j < rest.len() implies lex_lt(#[trigger] rest[i], #[trigger] rest[j]) by {
            assert(rest[i] == ts[i]);
            assert(rest[j] == ts[j]);
        }
        lemma_below_change(h1, h2, rest, t0, p);
        assert(h2.spec_history(ts.last()).len() == h1.spec_history(ts.last()).len() || ts.last() == t0);
        if ts.last() == t0 {
            assert forall|i: int| 0 <= i < rest.len() implies rest[i] != t0 by {
                assert(lex_lt(ts[i], ts[ts.len() - 1]));
                lemma_lex_irreflexive(t0);
            }
            assert(!rest.contains(t0));
            assert(ts.contains(t0));
        } else {
            if rest.contains(t0) {
                let i = choose|i: int| 0 <= i < rest.len() && rest[i] == t0;
                assert(ts[i] == t0);
            }
            if ts.contains(t0) {
                let i = choose|i: int| 0 <= i < ts.len() && ts[i] == t0;
                assert(i != ts.len() - 1);
                assert(rest[i] == t0);
            }
        }
    }
}

/// The number of messages of the topics `ts` together.
pub open spec fn messages_of(h: MqttHistory, ts: Seq<Seq<char>>) -> nat
    decreases ts.len(),
{
    if ts.len() == 0 {
        0
    } else {
        messages_of(h, ts.drop_last()) + h.spec_history(ts.last()).len()
    }
}

proof fn lemma_messages_of_change(h1: MqttHistory, h2: MqttHistory, ts: Seq<Seq<char>>, t0: Seq<char>)
    requires
        strictly_sorted(ts),
        forall|t: Seq<char>| t != t0 ==> #[trigger] h2.spec_history(t).len() == h1.spec_history(t).len(),
    ensures
        messages_of(h2, ts) + (if ts.contains(t0) {
            h1.spec_history(t0).len()
        } else {
            0
        }) == messages_of(h1, ts) + (if ts.contains(t0) {
            h2.spec_history(t0).len()
        } else {
            0
        }),
    decreases ts.len(),
{
    if ts.len() > 0 {
        let rest = ts.drop_last();
        assert forall|i: int, j: int| 0 <= i < j < rest.len() implies lex_lt(#[trigger] rest[i], #[trigger] rest[j]) by {
            assert(rest[i] == ts[i]);
            assert(rest[j] == ts[j]);
        }
        lemma_messages_of_change(h1, h2, rest, t0);
        assert(h2.spec_history(ts.last()).len() == h1.spec_history(ts.last()).len() || ts.last() == t0);
        if ts.last() == t0 {
            assert forall|i: int| 0 <= i < rest.len() implies rest[i] != t0 by {
                assert(lex_lt(ts[i], ts[ts.len() - 1]));
                lemma_lex_irreflexive(t0);
            }
            assert(!rest.contains(t0));
            assert(ts.contains(t0));
        } else {
            if rest.contains(t0) {
                let i = choose|i: int| 0 <= i < rest.len() && rest[i] == t0;
                assert(ts[i] == t0);
            }
            if ts.contains(t0) {
                let i = choose|i: int| 0 <= i < ts.len() && ts[i] == t0;
                assert(i != ts.len() - 1);
                assert(rest[i] == t0);
            }
        }
    }
}

proof fn lemma_messages_of_insert(h: MqttHistory, ts: Seq<Seq<char>>, pos: int, x: Seq<char>)
    requires
        0 <= pos <= ts.len(),
    ensures
        messages_of(h, ts.insert(pos, x)) == messages_of(h, ts) + h.spec_history(x).len(),
    decreases ts.len(),
{
    let u = ts.insert(pos, x);
    if pos == ts.len() {
        assert(u.drop_last() =~= ts);
    } else {
        lemma_messages_of_insert(h, ts.drop_last(), pos, x);
        assert(u.drop_last() =~= ts.drop_last().insert(pos, x));
    }
}

/// Every level with messages lies at the levels of one of `topics`.
#[verifier::opaque]
pub open spec fn histories_on_topics(root: Topic, topics: Seq<Seq<char>>) -> bool {
    forall|q: Seq<Seq<char>>|
        #[trigger] history_at(root, q).len() > 0 ==> exists|t: Seq<char>|
            #[trigger] topics.contains(t) && spec_split(t) == q
}

/// Every level below `root` lies on the path of one of `topics`.
#[verifier::opaque]
pub open spec fn levels_on_topics(root: Topic, topics: Seq<Seq<char>>) -> bool {
    forall|p: Seq<Seq<char>>|
        p.len() > 0 && #[trigger] node_at(root, p) is Some ==> exists|t: Seq<char>|
            #[trigger] topics.contains(t) && p.is_prefix_of(spec_split(t))
}

/// After a topic gained a message, the first levels and the paths of the
/// tree still belong to the topics with messages.
proof fn lemma_add_keeps_shape(
    before: Topic,
    after: Topic,
    old_views: Seq<Seq<char>>,
    new_views: Seq<Seq<char>>,
    topic: Seq<char>,
)
    requires
        spec_split(topic).len() > 0,
        forall|l: Seq<char>|
            #[trigger] leaves(after.children@).contains(l) <==> (leaves(before.children@).contains(l) || l
                == spec_split(topic)[0]),
        forall|q: Seq<Seq<char>>|
            #[trigger] node_at(after, q) is Some ==> (node_at(before, q) is Some || q.is_prefix_of(spec_split(topic))),
        forall|t: Seq<char>| #[trigger] new_views.contains(t) <==> (old_views.contains(t) || t == topic),
        forall|l: Seq<char>|
            #[trigger] leaves(before.children@).contains(l) <==> exists|t: Seq<char>|
                #[trigger] old_views.contains(t) && spec_split(t)[0] == l,
        levels_on_topics(before, old_views),
    ensures
        forall|l: Seq<char>|
            #[trigger] leaves(after.children@).contains(l) <==> exists|t: Seq<char>|
                #[trigger] new_views.contains(t) && spec_split(t)[0] == l,
        levels_on_topics(after, new_views),
{
    reveal(levels_on_topics);
    assert forall|l: Seq<char>|
        #[trigger] leaves(after.children@).contains(l) <==> exists|t: Seq<char>|
            #[trigger] new_views.contains(t) && spec_split(t)[0] == l by {
        if leaves(before.children@).contains(l) {
            let t = choose|t: Seq<char>| #[trigger] old_views.contains(t) && spec_split(t)[0] == l;
            assert(new_views.contains(t));
        }
        if l == spec_split(topic)[0] {
            assert(new_views.contains(topic));
        }
        if exists|t: Seq<char>| #[trigger] new_views.contains(t) && spec_split(t)[0] == l {
            let t = choose|t: Seq<char>| #[trigger] new_views.contains(t) && spec_split(t)[0] == l;
            if t != topic {
                assert(old_views.contains(t));
            }
        }
    }
    assert forall|p: Seq<Seq<char>>|
        p.len() > 0 && #[trigger] node_at(after, p) is Some implies exists|t: Seq<char>|
            #[trigger] new_views.contains(t) && p.is_prefix_of(spec_split(t)) by {
        if node_at(before, p) is Some {
            let t = choose|t: Seq<char>| #[trigger] old_views.contains(t) && p.is_prefix_of(spec_split(t));
            assert(new_views.contains(t));
        } else {
            assert(new_views.contains(topic));
        }
    }
}

/// The messages of all topics, kept as a tree of topic levels.
pub struct MqttHistory {
    root: Topic,
    /// The topics that have messages, sorted.
    topics: Vec<String>,
}

impl MqttHistory {
    /// The tree is well formed at every level.
    pub closed spec fn well_formed(&self) -> bool {
        &&& self.root.well_formed()
        &&& strictly_sorted(string_views(self.topics@))
        &&& forall|t: Seq<char>| #[trigger] string_views(self.topics@).contains(t) <==> self.spec_history(t).len() > 0
        &&& topics_below(self.root) == self.topics@.len()
        &&& messages_below(self.root) == messages_of(*self, string_views(self.topics@))
        &&& forall|l: Seq<char>|
            #[trigger] leaves(self.root.children@).contains(l) <==> exists|t: Seq<char>|
                #[trigger] string_views(self.topics@).contains(t) && spec_split(t)[0] == l
        &&& levels_on_topics(self.root, string_views(self.topics@))
        &&& histories_on_topics(self.root, string_views(self.topics@))
        &&& self.counts_follow_topics()
    }

    /// Below every level the counts of levels with messages and of messages
    /// are those of the topics that lie strictly below the level.
    #[verifier::opaque]
    pub closed spec fn counts_follow_topics(&self) -> bool {
        forall|p: Seq<Seq<char>>|
            p.len() > 0 && #[trigger] node_at(self.root, p) is Some ==> topics_at(self.root, p) == count_below(
                string_views(self.topics@),
                p,
            ) && messages_at(self.root, p) == messages_below_path(*self, string_views(self.topics@), p)
    }

    proof fn lemma_add_keeps_counts(before: MqttHistory, after: MqttHistory, topic: Seq<char>)
        requires
            before.well_formed(),
            spec_split(topic).len() > 0,
            forall|q: Seq<Seq<char>>|
                q != spec_split(topic) ==> #[trigger] history_at(after.root, q) == history_at(before.root, q),
            history_at(after.root, spec_split(topic)).len() == history_at(before.root, spec_split(topic)).len() + 1,
            forall|q: Seq<Seq<char>>|
                #[trigger] node_at(after.root, q) is Some ==> topics_at(after.root, q) == topics_at(before.root, q) + (
                if strictly_prefix(q, spec_split(topic)) && history_at(before.root, spec_split(topic)).len() == 0 {
                    1nat
                } else {
                    0nat
                }) && messages_at(after.root, q) == messages_at(before.root, q) + (if strictly_prefix(
                    q,
                    spec_split(topic),
                ) {
                    1nat
                } else {
                    0nat
                }),
            string_views(before.topics@).contains(topic) ==> after.topics@ == before.topics@,
            !string_views(before.topics@).contains(topic) ==> exists|pos: int|
                0 <= pos <= before.topics@.len() && string_views(after.topics@) == string_views(before.topics@).insert(
                    pos,
                    topic,
                ),
            forall|t: Seq<char>| t != topic ==> #[trigger] after.spec_history(t) == before.spec_history(t),
        ensures
            histories_on_topics(after.root, string_views(after.topics@)),
            after.counts_follow_topics(),
    {
        let old_views = string_views(before.topics@);
        let new_views = string_views(after.topics@);
        let split = spec_split(topic);
        let pos = if old_views.contains(topic) {
            0
        } else {
            choose|pos: int| 0 <= pos <= before.topics@.len() && new_views == old_views.insert(pos, topic)
        };
        assert(new_views.contains(topic)) by {
            if !old_views.contains(topic) {
                assert(new_views[pos] == topic);
            }
        }
        assert forall|t: Seq<char>| old_views.contains(t) implies new_views.contains(t) by {
            if !old_views.contains(topic) {
                let k = choose|k: int| 0 <= k < old_views.len() && old_views[k] == t;
                if k < pos {
                    assert(new_views[k] == t);
                } else {
                    assert(new_views[k + 1] == t);
                }
            }
        }
        assert(before.spec_history(topic) == history_at(before.root, split));
        assert(after.spec_history(topic) == history_at(after.root, split));
        assert(old_views.contains(topic) <==> history_at(before.root, split).len() > 0);
        reveal(histories_on_topics);
        assert forall|q: Seq<Seq<char>>| #[trigger] history_at(after.root, q).len() > 0 implies exists|t: Seq<char>|
            #[trigger] new_views.contains(t) && spec_split(t) == q by {
            if q == split {
                assert(new_views.contains(topic));
            } else {
                assert(history_at(before.root, q).len() > 0);
                let t = choose|t: Seq<char>| #[trigger] old_views.contains(t) && spec_split(t) == q;
                assert(new_views.contains(t));
            }
        }
        assert forall|t: Seq<char>| t != topic implies #[trigger] after.spec_history(t).len() == before.spec_history(
            t,
        ).len() by {
            assert(after.spec_history(t) == before.spec_history(t));
        }
        before.lemma_levels_are_topic_prefixes();
        reveal(MqttHistory::counts_follow_topics);
        assert forall|p: Seq<Seq<char>>|
            p.len() > 0 && #[trigger] node_at(after.root, p) is Some implies topics_at(after.root, p) == count_below(
                new_views,
                p,
            ) && messages_at(after.root, p) == messages_below_path(after, new_views, p) by {
            if node_at(before.root, p) is Some {
                assert(topics_at(before.root, p) == count_below(old_views, p));
                assert(messages_at(before.root, p) == messages_below_path(before, old_views, p));
            } else {
                assert forall|i: int| 0 <= i < old_views.len() implies !strictly_below(p, #[trigger] old_views[i]) by {
                    if strictly_below(p, old_views[i]) {
                        assert(before.spec_topics().contains(old_views[i]));
                        assert(node_at(before.spec_root(), p) is Some);
                    }
                }
                lemma_below_none(before, old_views, p);
            }
            lemma_below_change(before, after, old_views, topic, p);
            if !old_views.contains(topic) {
                lemma_below_insert(after, old_views, pos, topic, p);
            }
        }
    }

    proof fn lemma_remove_keeps_counts(before: MqttHistory, after: MqttHistory, topic: Seq<char>, removed: bool)
        requires
            before.well_formed(),
            after.topics@ == before.topics@,
            forall|q: Seq<Seq<char>>|
                #[trigger] history_at(after.root, q).len() > 0 ==> history_at(before.root, q).len() > 0,
            forall|q: Seq<Seq<char>>|
                #[trigger] node_at(after.root, q) is Some ==> node_at(before.root, q) is Some && topics_at(
                    after.root,
                    q,
                ) == topics_at(before.root, q) && messages_at(after.root, q) + (if removed && strictly_prefix(
                    q,
                    spec_split(topic),
                ) {
                    1nat
                } else {
                    0nat
                }) == messages_at(before.root, q),
            forall|t: Seq<char>| t != topic ==> #[trigger] after.spec_history(t) == before.spec_history(t),
            removed ==> after.spec_history(topic).len() + 1 == before.spec_history(topic).len(),
            !removed ==> after.spec_history(topic) == before.spec_history(topic),
        ensures
            histories_on_topics(after.root, string_views(after.topics@)),
            after.counts_follow_topics(),
    {
        let views_now = string_views(after.topics@);
        assert(views_now == string_views(before.topics@));
        reveal(histories_on_topics);
        assert forall|q: Seq<Seq<char>>| #[trigger] history_at(after.root, q).len() > 0 implies exists|t: Seq<char>|
            #[trigger] views_now.contains(t) && spec_split(t) == q by {
            assert(history_at(before.root, q).len() > 0);
        }
        assert forall|t: Seq<char>| t != topic implies #[trigger] after.spec_history(t).len() == before.spec_history(
            t,
        ).len() by {
            assert(after.spec_history(t) == before.spec_history(t));
        }
        if removed {
            assert(before.spec_history(topic).len() > 0);
            assert(views_now.contains(topic));
        }
        reveal(MqttHistory::counts_follow_topics);
        assert forall|p: Seq<Seq<char>>|
            p.len() > 0 && #[trigger] node_at(after.root, p) is Some implies topics_at(after.root, p) == count_below(
                views_now,
                p,
            ) && messages_at(after.root, p) == messages_below_path(after, views_now, p) by {
            assert(node_at(before.root, p) is Some);
            assert(topics_at(before.root, p) == count_below(views_now, p));
            assert(messages_at(before.root, p) == messages_below_path(before, views_now, p));
            lemma_below_change(before, after, views_now, topic, p);
        }
    }

    /// The level above all topics.
    pub closed spec fn spec_root(&self) -> Topic {
        self.root
    }

    /// The topics that have messages, sorted.
    pub closed spec fn spec_topics(&self) -> Seq<Seq<char>> {
        string_views(self.topics@)
    }

    /// The tree holds exactly the topics with messages and their parents:
    /// a path of levels below the root reaches a level of the tree exactly
    /// when it begins the levels of some topic with messages.
    pub proof fn lemma_levels_are_topic_prefixes(&self)
        requires
            self.well_formed(),
        ensures
            forall|p: Seq<Seq<char>>|
                p.len() > 0 ==> (#[trigger] node_at(self.spec_root(), p) is Some <==> exists|t: Seq<char>|
                    #[trigger] self.spec_topics().contains(t) && p.is_prefix_of(spec_split(t))),
    {
        assert forall|p: Seq<Seq<char>>|
            p.len() > 0 implies (#[trigger] node_at(self.spec_root(), p) is Some <==> exists|t: Seq<char>|
                #[trigger] self.spec_topics().contains(t) && p.is_prefix_of(spec_split(t))) by {
            if exists|t: Seq<char>| #[trigger] self.spec_topics().contains(t) && p.is_prefix_of(spec_split(t)) {
                let t = choose|t: Seq<char>| #[trigger] self.spec_topics().contains(t) && p.is_prefix_of(spec_split(t));
                assert(self.spec_history(t).len() > 0);
                assert(history_at(self.root, spec_split(t)).len() > 0);
                assert(node_at(self.root, spec_split(t)) is Some);
                lemma_node_at_prefix(self.root, spec_split(t), p.len() as int);
                assert(spec_split(t).take(p.len() as int) =~= p);
                assert(node_at(self.spec_root(), p) is Some);
            }
            if node_at(self.spec_root(), p) is Some {
                reveal(levels_on_topics);
                assert(node_at(self.root, p) is Some);
                let t = choose|t: Seq<char>|
                    #[trigger] string_views(self.topics@).contains(t) && p.is_prefix_of(spec_split(t));
                assert(self.spec_topics().contains(t));
            }
        }
    }

    /// The topics with messages are sorted, each once, and are exactly the
    /// topics whose history is not empty.
    pub proof fn lemma_topics(&self)
        requires
            self.well_formed(),
        ensures
            strictly_sorted(self.spec_topics()),
            forall|t: Seq<char>| #[trigger] self.spec_topics().contains(t) <==> self.spec_history(t).len() > 0,
    {
    }

    /// The messages of a topic, the oldest first; none for an unknown topic.
    pub closed spec fn spec_history(&self, topic: Seq<char>) -> Seq<HistoryEntry> {
        history_at(self.root, spec_split(topic))
    }

    /// The payload of an example message with the text `text`.
    pub open spec fn example_payload(text: Seq<char>) -> crate::payload::PayloadView {
        crate::payload::spec_unlimited(vstd::utf8::encode_utf8(text))
    }

    /// A message of the example history.
    fn example_entry(payload: &str) -> (entry: HistoryEntry)
        ensures
            entry.qos == crate::mqtt::QoS::AtLeastOnce,
            entry.time is Local,
            entry.payload_size == vstd::utf8::encode_utf8(payload@).len(),
            entry.payload@ == Self::example_payload(payload@),
    {
        let bytes = crate::text::text_bytes(payload);
        HistoryEntry {
            qos: crate::mqtt::QoS::AtLeastOnce,
            time: crate::mqtt::Time::new_now(false),
            payload_size: bytes.len(),
            payload: crate::payload::Payload::unlimited(bytes),
        }
    }

    /// An example history: `test` with the messages `A` and `C`, `foo/test`
    /// with `B`, `foo/bar` with `D` and `testing/stuff` with `E`.
    pub fn example() -> (history: MqttHistory)
        ensures
            history.well_formed(),
            history.spec_history("test"@).len() == 2,
            history.spec_history("foo/test"@).len() == 1,
            history.spec_history("foo/bar"@).len() == 1,
            history.spec_history("testing/stuff"@).len() == 1,
            history.spec_history("test"@)[0].payload@ == Self::example_payload("A"@),
            history.spec_history("test"@)[1].payload@ == Self::example_payload("C"@),
            history.spec_history("foo/test"@)[0].payload@ == Self::example_payload("B"@),
            history.spec_history("foo/bar"@)[0].payload@ == Self::example_payload("D"@),
            history.spec_history("testing/stuff"@)[0].payload@ == Self::example_payload("E"@),
            forall|t: Seq<char>|
                t != "test"@ && t != "foo/test"@ && t != "foo/bar"@ && t != "testing/stuff"@
                    ==> #[trigger] history.spec_history(t).len() == 0,
            history.spec_topics() == seq!["foo/bar"@, "foo/test"@, "test"@, "testing/stuff"@],
            messages_of(history, history.spec_topics()) == 5,
    {
        proof {
            reveal_strlit("test");
            reveal_strlit("foo/test");
            reveal_strlit("foo/bar");
            reveal_strlit("testing/stuff");
        }
        let mut history = MqttHistory::new();
        history.add(String::from_str("test"), MqttHistory::example_entry("A"));
        history.add(String::from_str("foo/test"), MqttHistory::example_entry("B"));
        history.add(String::from_str("test"), MqttHistory::example_entry("C"));
        history.add(String::from_str("foo/bar"), MqttHistory::example_entry("D"));
        history.add(String::from_str("testing/stuff"), MqttHistory::example_entry("E"));
        proof {
            let expected = seq!["foo/bar"@, "foo/test"@, "test"@, "testing/stuff"@];
            assert(lex_lt("foo/bar"@, "foo/test"@)) by {
                reveal_with_fuel(lex_lt, 6);
            }
            assert(lex_lt("foo/test"@, "test"@));
            assert("testing/stuff"@.subrange(0, 4) =~= "test"@);
            lemma_prefix_lex_lt("test"@, "testing/stuff"@);
            lemma_lex_transitive("foo/bar"@, "foo/test"@, "test"@);
            lemma_lex_transitive("foo/test"@, "test"@, "testing/stuff"@);
            lemma_lex_transitive("foo/bar"@, "test"@, "testing/stuff"@);
            assert(strictly_sorted(expected));
            history.lemma_topics();
            assert forall|t: Seq<char>| history.spec_topics().contains(t) <==> expected.contains(t) by {
                if t == "test"@ || t == "foo/test"@ || t == "foo/bar"@ || t == "testing/stuff"@ {
                    assert(expected.contains(t)) by {
                        if t == "foo/bar"@ {
                            assert(expected[0] == t);
                        } else if t == "foo/test"@ {
                            assert(expected[1] == t);
                        } else if t == "test"@ {
                            assert(expected[2] == t);
                        } else {
                            assert(expected[3] == t);
                        }
                    }
                }
            }
            lemma_strictly_sorted_unique(history.spec_topics(), expected);
            reveal_with_fuel(messages_of, 5);
            assert(expected.drop_last().drop_last().drop_last().drop_last() =~= Seq::<Seq<char>>::empty());
        }
        history
    }

    /// An empty history.
    pub fn new() -> (history: MqttHistory)
        ensures
            history.well_formed(),
            forall|t: Seq<char>| #[trigger] history.spec_history(t) == Seq::<HistoryEntry>::empty(),
    {
        let history = MqttHistory { root: Topic::new(String::new()), topics: Vec::new() };
        proof {
            assert forall|t: Seq<char>| #[trigger] history.spec_history(t) == Seq::<HistoryEntry>::empty() by {
                lemma_history_at_empty(history.root, spec_split(t));
            }
            assert(string_views(history.topics@) =~= Seq::<Seq<char>>::empty());
            assert forall|t: Seq<char>| #[trigger] string_views(history.topics@).contains(t) <==> history.spec_history(t).len() > 0 by {
                assert(history.spec_history(t) == Seq::<HistoryEntry>::empty());
            }
            assert(topics_below(history.root) == 0);
            assert(messages_below(history.root) == 0);
            assert(leaves(history.root.children@) =~= Seq::<Seq<char>>::empty());
            assert forall|p: Seq<Seq<char>>| p.len() > 0 implies !(#[trigger] node_at(history.root, p) is Some) by {
                assert(history.root.spec_children() == Seq::<Topic>::empty());
                assert(find_child(history.root.spec_children(), p[0]) is None);
            }
            reveal(levels_on_topics);
            reveal(histories_on_topics);
            reveal(MqttHistory::counts_follow_topics);
            assert forall|q: Seq<Seq<char>>| #[trigger] history_at(history.root, q).len() == 0 by {
                lemma_history_at_empty(history.root, q);
            }
        }
        history
    }

    /// Appends a message to the history of its topic. The history of every
    /// other topic stays as it is.
    pub fn add(&mut self, topic: String, history_entry: HistoryEntry)
        requires
            old(self).well_formed(),
        ensures
            final(self).well_formed(),
            forall|t: Seq<char>|
                #[trigger] final(self).spec_history(t) == if t == topic@ {
                    old(self).spec_history(t).push(history_entry)
                } else {
                    old(self).spec_history(t)
                },
    {
        let parts = split_topic(topic.as_str());
        let ghost before = *self;
        add_at(&mut self.root, &parts, 0, history_entry);
        proof {
            assert(views(parts@).skip(0) =~= spec_split(topic@));
            assert(spec_split(topic@).len() > 0);
            assert(history_at(self.root, Seq::empty()) == history_at(before.root, Seq::empty()));
            assert(self.root.spec_history() == before.root.spec_history());
            assert(history_at(before.root, spec_split(topic@)) == before.spec_history(topic@));
            assert forall|t: Seq<char>|
                #[trigger] self.spec_history(t) == if t == topic@ {
                    before.spec_history(t).push(history_entry)
                } else {
                    before.spec_history(t)
                } by {
                if spec_split(t) == spec_split(topic@) {
                    lemma_split_injective(t, topic@);
                }
                assert(history_at(self.root, spec_split(t)) == self.spec_history(t));
            }
        }
        let ghost mid = *self;
        insert_sorted_topic(&mut self.topics, topic);
        proof {
            assert(self.root == mid.root);
            assert forall|t: Seq<char>|
                #[trigger] self.spec_history(t) == if t == topic@ {
                    before.spec_history(t).push(history_entry)
                } else {
                    before.spec_history(t)
                } by {
                assert(self.spec_history(t) == mid.spec_history(t));
            }
            assert forall|t: Seq<char>| #[trigger] string_views(self.topics@).contains(t) <==> self.spec_history(t).len() > 0 by {
                assert(self.spec_history(t) == if t == topic@ {
                    before.spec_history(t).push(history_entry)
                } else {
                    before.spec_history(t)
                });
                assert(string_views(before.topics@).contains(t) <==> before.spec_history(t).len() > 0);
            }
            let old_views = string_views(before.topics@);
            let new_views = string_views(self.topics@);
            assert(views(parts@)[0] == spec_split(topic@)[0]);
            assert forall|t: Seq<char>| #[trigger] new_views.contains(t) <==> (old_views.contains(t) || t == topic@) by {
            }
            lemma_add_keeps_shape(before.root, self.root, old_views, new_views, topic@);
            assert forall|t: Seq<char>| t != topic@ implies #[trigger] self.spec_history(t) == before.spec_history(t) by {
                assert(self.spec_history(t) == if t == topic@ {
                    before.spec_history(t).push(history_entry)
                } else {
                    before.spec_history(t)
                });
            }
            assert(self.spec_history(topic@) == before.spec_history(topic@).push(history_entry));
            MqttHistory::lemma_add_keeps_counts(before, *self, topic@);
            assert(before.spec_history(topic@).len() == 0 <==> !old_views.contains(topic@));
            lemma_messages_of_change(before, *self, old_views, topic@);
            if old_views.contains(topic@) {
                assert(new_views == old_views);
            } else {
                let pos = choose|pos: int|
                    0 <= pos <= before.topics@.len() && new_views == old_views.insert(pos, topic@);
                lemma_messages_of_insert(*self, old_views, pos, topic@);
                assert(self.topics@.len() == new_views.len());
                assert(before.topics@.len() == old_views.len());
            }
        }
    }

    /// The messages of a topic, the oldest first; `None` for a topic without
    /// messages.
    pub fn get(&self, topic: &str) -> (history: Option<&Vec<HistoryEntry>>)
        requires
            self.well_formed(),
        ensures
            history is Some <==> self.spec_history(topic@).len() > 0,
            history matches Some(h) ==> h@ == self.spec_history(topic@),
    {
        let parts = split_topic(topic);
        let ghost all = spec_split(topic@);
        let mut node = &self.root;
        let mut k: usize = 0;
        proof {
            assert(all.skip(0) =~= all);
        }
        while k < parts.len()
            invariant
                k <= parts@.len(),
                views(parts@) == all,
                all == spec_split(topic@),
                node.well_formed(),
                node_at(self.root, all) == node_at(*node, all.skip(k as int)),
            decreases parts@.len() - k,
        {
            let part = parts[k];
            proof {
                assert(all.skip(k as int)[0] == part@);
                assert(all.skip(k as int).drop_first() =~= all.skip(k + 1));
                lemma_sorted_distinct(node.children@);
            }
            let n = node.children.len();
            let mut i: usize = 0;
            while i < n
                invariant
                    i <= n,
                    n == node.children@.len(),
                    forall|j: int| 0 <= j < i ==> #[trigger] node.children@[j].spec_leaf() != part@,
                ensures
                    i <= n,
                    forall|j: int| 0 <= j < i ==> #[trigger] node.children@[j].spec_leaf() != part@,
                    i < n ==> node.children@[i as int].spec_leaf() == part@,
                decreases n - i,
            {
                if crate::text::str_eq(node.children[i].leaf.as_str(), part) {
                    break;
                }
                i += 1;
            }
            if i == n {
                proof {
                    assert(find_child(node.children@, part@) is None);
                }
                return None;
            }
            proof {
                lemma_find_child_at(node.children@, i as int);
                lemma_well_formed_all(node.children@, i as int);
            }
            node = &node.children[i];
            k += 1;
        }
        proof {
            assert(all.skip(k as int).len() == 0);
        }
        if node.history.len() > 0 {
            Some(&node.history)
        } else {
            None
        }
    }

    /// Removes the message at `index` from the history of a topic, unless
    /// it is the newest one or does not exist. Other messages and topics stay
    /// as they are.
    pub fn uncache_topic_entry(&mut self, topic: &str, index: usize) -> (removed: Option<HistoryEntry>)
        requires
            old(self).well_formed(),
        ensures
            final(self).well_formed(),
            removed is Some <==> index + 1 < old(self).spec_history(topic@).len(),
            removed matches Some(e) ==> e == old(self).spec_history(topic@)[index as int],
            forall|t: Seq<char>|
                #[trigger] final(self).spec_history(t) == if t == topic@ && removed is Some {
                    old(self).spec_history(t).remove(index as int)
                } else {
                    old(self).spec_history(t)
                },
    {
        let parts = split_topic(topic);
        let ghost before = *self;
        let removed = remove_at(&mut self.root, &parts, 0, index);
        proof {
            assert(views(parts@).skip(0) =~= spec_split(topic@));
            assert(spec_split(topic@).len() > 0);
            assert(history_at(self.root, Seq::empty()) == history_at(before.root, Seq::empty()));
            assert(self.root.spec_history() == before.root.spec_history());
            assert(history_at(before.root, spec_split(topic@)) == before.spec_history(topic@));
            assert forall|t: Seq<char>|
                #[trigger] self.spec_history(t) == if t == topic@ && removed is Some {
                    before.spec_history(t).remove(index as int)
                } else {
                    before.spec_history(t)
                } by {
                if spec_split(t) == spec_split(topic@) {
                    lemma_split_injective(t, topic@);
                }
                assert(history_at(self.root, spec_split(t)) == self.spec_history(t));
            }
            assert forall|t: Seq<char>| #[trigger] string_views(self.topics@).contains(t) <==> self.spec_history(t).len() > 0 by {
                assert(string_views(before.topics@).contains(t) <==> before.spec_history(t).len() > 0);
                assert(self.spec_history(t) == if t == topic@ && removed is Some {
                    before.spec_history(t).remove(index as int)
                } else {
                    before.spec_history(t)
                });
            }
            let views_now = string_views(self.topics@);
            assert(views_now == string_views(before.topics@));
            assert(leaves(self.root.children@) == leaves(before.root.children@));
            reveal(levels_on_topics);
            assert forall|p: Seq<Seq<char>>|
                p.len() > 0 && #[trigger] node_at(self.root, p) is Some implies exists|t: Seq<char>|
                    #[trigger] views_now.contains(t) && p.is_prefix_of(spec_split(t)) by {
                assert(node_at(before.root, p) is Some);
                let t = choose|t: Seq<char>|
                    #[trigger] string_views(before.topics@).contains(t) && p.is_prefix_of(spec_split(t));
                assert(views_now.contains(t));
            }
            lemma_messages_of_change(before, *self, views_now, topic@);
            if removed is Some {
                assert(views_now.contains(topic@));
            }
            assert forall|t: Seq<char>| t != topic@ implies #[trigger] self.spec_history(t) == before.spec_history(t) by {
                assert(self.spec_history(t) == if t == topic@ && removed is Some {
                    before.spec_history(t).remove(index as int)
                } else {
                    before.spec_history(t)
                });
            }
            assert(self.spec_history(topic@) == if removed is Some {
                before.spec_history(topic@).remove(index as int)
            } else {
                before.spec_history(topic@)
            });
            MqttHistory::lemma_remove_keeps_counts(before, *self, topic@, removed is Some);
        }
        removed
    }

    /// All topics that have messages, sorted.
    pub fn get_all_topics(&self) -> (topics: Vec<&String>)
        requires
            self.well_formed(),
        ensures
            ref_views(topics@) == self.spec_topics(),
            strictly_sorted(ref_views(topics@)),
            forall|t: Seq<char>| #[trigger] ref_views(topics@).contains(t) <==> self.spec_history(t).len() > 0,
    {
        let mut topics: Vec<&String> = Vec::new();
        let mut i: usize = 0;
        while i < self.topics.len()
            invariant
                i <= self.topics@.len(),
                ref_views(topics@) == string_views(self.topics@).take(i as int),
            decreases self.topics@.len() - i,
        {
            let ghost before = ref_views(topics@);
            topics.push(&self.topics[i]);
            proof {
                assert(ref_views(topics@) =~= before.push(self.topics@[i as int]@));
                assert(string_views(self.topics@).take(i + 1) =~= string_views(self.topics@).take(i as int).push(
                    self.topics@[i as int]@,
                ));
            }
            i += 1;
        }
        proof {
            assert(string_views(self.topics@).take(i as int) =~= string_views(self.topics@));
            assert(ref_views(topics@) =~= string_views(self.topics@));
        }
        topics
    }

    /// The topics with messages that are `base` or below it, sorted.
    pub fn get_topics_below(&self, base: &str) -> (topics: Vec<String>)
        requires
            self.well_formed(),
        ensures
            strictly_sorted(string_views(topics@)),
            forall|t: Seq<char>|
                #[trigger] string_views(topics@).contains(t) <==> (self.spec_history(t).len() > 0 && spec_is_topic_below(
                    base@,
                    t,
                )),
    {
        let ghost all = string_views(self.topics@);
        let mut topics: Vec<String> = Vec::new();
        let mut i: usize = 0;
        while i < self.topics.len()
            invariant
                i <= self.topics@.len(),
                all == string_views(self.topics@),
                strictly_sorted(all),
                strictly_sorted(string_views(topics@)),
                forall|t: Seq<char>|
                    #[trigger] string_views(topics@).contains(t) <==> (all.take(i as int).contains(t) && spec_is_topic_below(base@, t)),
                forall|j: int| 0 <= j < topics@.len() ==> exists|k: int| 0 <= k < i && all[k] == #[trigger] string_views(topics@)[j],
            decreases self.topics@.len() - i,
        {
            let ghost before = string_views(topics@);
            let below = is_topic_below(base, self.topics[i].as_str());
            if below {
                topics.push(self.topics[i].clone());
                proof {
                    assert(string_views(topics@) =~= before.push(all[i as int]));
                    assert forall|a: int, b: int| 0 <= a < b < string_views(topics@).len() implies lex_lt(
                        #[trigger] string_views(topics@)[a],
                        #[trigger] string_views(topics@)[b],
                    ) by {
                        if b == before.len() {
                            assert(string_views(topics@)[a] == before[a]);
                            let k = choose|k: int| 0 <= k < i && all[k] == #[trigger] before[a];
                            assert(lex_lt(all[k], all[i as int]));
                        } else {
                            assert(string_views(topics@)[a] == before[a]);
                            assert(string_views(topics@)[b] == before[b]);
                        }
                    }
                    assert forall|j: int| 0 <= j < topics@.len() implies exists|k: int| 0 <= k < i + 1 && all[k] == #[trigger] string_views(topics@)[j] by {
                        if j < before.len() {
                            assert(string_views(topics@)[j] == before[j]);
                            let k = choose|k: int| 0 <= k < i && all[k] == #[trigger] before[j];
                            assert(all[k] == string_views(topics@)[j]);
                        } else {
                            assert(all[i as int] == string_views(topics@)[j]);
                        }
                    }
                }
            } else {
                proof {
                    assert forall|j: int| 0 <= j < topics@.len() implies exists|k: int| 0 <= k < i + 1 && all[k] == #[trigger] string_views(topics@)[j] by {
                        let k = choose|k: int| 0 <= k < i && all[k] == #[trigger] before[j];
                        assert(all[k] == string_views(topics@)[j]);
                    }
                }
            }
            proof {
                let t1 = all.take(i as int);
                let t2 = all.take(i + 1);
                assert(t2 =~= t1.push(all[i as int]));
                assert forall|t: Seq<char>|
                    #[trigger] string_views(topics@).contains(t) <==> (t2.contains(t) && spec_is_topic_below(base@, t)) by {
                    assert(before.contains(t) <==> (t1.contains(t) && spec_is_topic_below(base@, t)));
                    if below {
                        assert(string_views(topics@) =~= before.push(all[i as int]));
                        if string_views(topics@).contains(t) && t != all[i as int] {
                            let m = choose|m: int| 0 <= m < string_views(topics@).len() && string_views(topics@)[m] == t;
                            assert(before[m] == t);
                        }
                        if before.contains(t) {
                            let m = choose|m: int| 0 <= m < before.len() && before[m] == t;
                            assert(string_views(topics@)[m] == t);
                        }
                    } else {
                        assert(string_views(topics@) == before);
                    }
                    if t2.contains(t) && t != all[i as int] {
                        let m = choose|m: int| 0 <= m < t2.len() && t2[m] == t;
                        assert(t1[m] == t);
                    }
                    if t1.contains(t) {
                        let m = choose|m: int| 0 <= m < t1.len() && t1[m] == t;
                        assert(t2[m] == t);
                    }
                    if t == all[i as int] {
                        assert(t2[i as int] == t);
                        if spec_is_topic_below(base@, t) {
                            assert(string_views(topics@)[string_views(topics@).len() - 1] == t);
                        }
                    }
                }
            }
            i += 1;
        }
        proof {
            assert(all.take(i as int) =~= all);
            assert forall|t: Seq<char>|
                #[trigger] string_views(topics@).contains(t) <==> (self.spec_history(t).len() > 0 && spec_is_topic_below(base@, t)) by {
                assert(all.contains(t) <==> self.spec_history(t).len() > 0);
            }
        }
        topics
    }

    /// The shown entries of the topic tree, with how many topics have
    /// messages and how many messages there are in all (each capped at
    /// `usize::MAX`).
    pub fn to_tree_items(&self) -> (tree: (usize, usize, Vec<TopicTreeItem>))
        ensures
            tree.0 == capped(topics_below(self.spec_root())),
            tree.1 == capped(messages_below(self.spec_root())),
            items_show(tree.2@, self.spec_root().spec_children()),
            self.well_formed() ==> items_sorted(tree.2@),
            self.well_formed() ==> tree.0 == capped(self.spec_topics().len()),
            self.well_formed() ==> tree.1 == capped(messages_of(*self, self.spec_topics())),
            self.well_formed() ==> forall|l: Seq<char>|
                #[trigger] item_leaves(tree.2@).contains(l) <==> exists|t: Seq<char>|
                    #[trigger] self.spec_topics().contains(t) && spec_split(t)[0] == l,
            self.well_formed() ==> forall|path: Seq<Seq<char>>|
                #[trigger] item_at(tree.2@, path) is Some <==> (path.len() > 0 && exists|t: Seq<char>|
                    #[trigger] self.spec_topics().contains(t) && path.is_prefix_of(spec_split(t))),
            self.well_formed() ==> forall|path: Seq<Seq<char>>|
                #[trigger] item_at(tree.2@, path) is Some && (forall|t: Seq<char>|
                    self.spec_topics().contains(t) ==> spec_split(t) != path) ==> item_at(tree.2@, path)->0.meta@
                    == "("@ + spec_decimal(capped(count_below(self.spec_topics(), path)) as nat) + " topics, "@
                    + spec_decimal(capped(messages_below_path(*self, self.spec_topics(), path)) as nat)
                    + " messages)"@,
            self.well_formed() ==> forall|t: Seq<char>|
                #[trigger] self.spec_topics().contains(t) ==> item_at(tree.2@, spec_split(t)) is Some && item_at(
                    tree.2@,
                    spec_split(t),
                )->0.meta@ == "= "@ + spec_payload_text(self.spec_history(t).last().payload@),
    {
        let (messages, topics, items) = build_items(&self.root.children);
        proof {
            if self.well_formed() {
                lemma_items_sorted(items@, self.root.children@);
                assert forall|k: int| 0 <= k < items.len() implies item_leaves(items@)[k] == leaves(
                    self.root.children@,
                )[k] by {
                    lemma_items_show_at(items@, self.root.children@, k);
                }
                assert(item_leaves(items@) =~= leaves(self.root.children@));
                self.lemma_levels_are_topic_prefixes();
                assert forall|path: Seq<Seq<char>>|
                    #[trigger] item_at(items@, path) is Some <==> (path.len() > 0 && exists|t: Seq<char>|
                        #[trigger] self.spec_topics().contains(t) && path.is_prefix_of(spec_split(t))) by {
                    lemma_item_at_node(items@, self.root.children@, path);
                    if path.len() > 0 {
                        assert(node_among(self.root.children@, path) == node_at(self.root, path));
                        assert(node_at(self.spec_root(), path) is Some <==> exists|t: Seq<char>|
                            #[trigger] self.spec_topics().contains(t) && path.is_prefix_of(spec_split(t)));
                    }
                }
                reveal(histories_on_topics);
                reveal(MqttHistory::counts_follow_topics);
                assert forall|path: Seq<Seq<char>>|
                    #[trigger] item_at(items@, path) is Some && (forall|t: Seq<char>|
                        self.spec_topics().contains(t) ==> spec_split(t) != path) implies item_at(items@, path)->0.meta@
                        == "("@ + spec_decimal(capped(count_below(self.spec_topics(), path)) as nat) + " topics, "@
                        + spec_decimal(capped(messages_below_path(*self, self.spec_topics(), path)) as nat)
                        + " messages)"@ by {
                    lemma_item_at_node(items@, self.root.children@, path);
                    assert(node_among(self.root.children@, path) == node_at(self.root, path));
                    let n = node_at(self.root, path)->0;
                    assert(history_at(self.root, path) == n.spec_history());
                    if n.spec_history().len() > 0 {
                        let t = choose|t: Seq<char>|
                            #[trigger] string_views(self.topics@).contains(t) && spec_split(t) == path;
                        assert(self.spec_topics().contains(t));
                    }
                    assert(topics_at(self.root, path) == topics_below(n));
                    assert(messages_at(self.root, path) == messages_below(n));
                }
                assert forall|t: Seq<char>| #[trigger] self.spec_topics().contains(t) implies item_at(
                    items@,
                    spec_split(t),
                ) is Some && item_at(items@, spec_split(t))->0.meta@ == "= "@ + spec_payload_text(
                    self.spec_history(t).last().payload@,
                ) by {
                    let path = spec_split(t);
                    assert(self.spec_history(t).len() > 0);
                    assert(history_at(self.root, path).len() > 0);
                    lemma_item_at_node(items@, self.root.children@, path);
                    assert(path.len() > 0);
                    assert(node_among(self.root.children@, path) == node_at(self.root, path));
                    let n = node_at(self.root, path)->0;
                    assert(history_at(self.root, path) == n.spec_history());
                }
            }
        }
        (topics, messages, items)
    }
}

} // verus!
