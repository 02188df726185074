//! The order of names, and the ordering of the nodes of a directory by
//! their names.

use vstd::prelude::*;
use crate::models::{DirectoryNode, FileNode};
use crate::text::chars_of;

verus! {

/// `a` comes before `b`, or equals it, in the order of strings: the texts
/// are compared character by character, by code point, and a text comes
/// before every longer text that starts with it.
pub open spec fn text_le(a: Seq<char>, b: Seq<char>) -> bool
    decreases a.len(),
{
    if a.len() == 0 {
        true
    } else if b.len() == 0 {
        false
    } else if a[0] != b[0] {
        a[0] < b[0]
    } else {
        text_le(a.drop_first(), b.drop_first())
    }
}

/// The order of strings is total.
pub proof fn lemma_text_le_total(a: Seq<char>, b: Seq<char>)
    ensures
        text_le(a, b) || text_le(b, a),
    decreases a.len(),
{
    if a.len() > 0 && b.len() > 0 && a[0] == b[0] {
        lemma_text_le_total(a.drop_first(), b.drop_first());
    }
}

/// The order of strings is transitive.
pub proof fn lemma_text_le_transitive(a: Seq<char>, b: Seq<char>, c: Seq<char>)
    requires
        text_le(a, b),
        text_le(b, c),
    ensures
        text_le(a, c),
    decreases a.len(),
{
    if a.len() > 0 && b.len() > 0 && c.len() > 0 && a[0] == b[0] && b[0] == c[0] {
        lemma_text_le_transitive(a.drop_first(), b.drop_first(), c.drop_first());
    }
}

/// Every text comes before itself, or equals it.
pub proof fn lemma_text_le_reflexive(a: Seq<char>)
    ensures
        text_le(a, a),
    decreases a.len(),
{
    if a.len() > 0 {
        lemma_text_le_reflexive(a.drop_first());
    }
}

/// Two texts of which each comes before the other are the same text.
pub proof fn lemma_text_le_antisymmetric(a: Seq<char>, b: Seq<char>)
    requires
        text_le(a, b),
        text_le(b, a),
    ensures
        a == b,
    decreases a.len(),
{
    if a.len() > 0 && b.len() > 0 {
        lemma_text_le_antisymmetric(a.drop_first(), b.drop_first());
        assert(a == seq![a[0]] + a.drop_first());
        assert(b == seq![b[0]] + b.drop_first());
    } else {
        assert(a =~= b);
    }
}

fn chars_le(a: &Vec<char>, b: &Vec<char>) -> (le: bool)
    ensures
        le == text_le(a@, b@),
{
    let mut i: usize = 0;
    proof {
        assert(a@.subrange(0, a@.len() as int) == a@);
        assert(b@.subrange(0, b@.len() as int) == b@);
    }
    while i < a.len() && i < b.len() && a[i] == b[i]
        invariant
            i <= a.len(),
            i <= b.len(),
            text_le(a@, b@) == text_le(
                a@.subrange(i as int, a@.len() as int),
                b@.subrange(i as int, b@.len() as int),
            ),
        decreases a.len() - i,
    {
        proof {
            let x = a@.subrange(i as int, a@.len() as int);
            let y = b@.subrange(i as int, b@.len() as int);
            assert(x[0] == a@[i as int]);
            assert(y[0] == b@[i as int]);
            assert(x.drop_first() == a@.subrange(i + 1, a@.len() as int));
            assert(y.drop_first() == b@.subrange(i + 1, b@.len() as int));
        }
        i += 1;
    }
    proof {
        assert(a@.subrange(0, a@.len() as int) == a@);
        assert(b@.subrange(0, b@.len() as int) == b@);
        let x = a@.subrange(i as int, a@.len() as int);
        let y = b@.subrange(i as int, b@.len() as int);
        if i < a.len() && i < b.len() {
            assert(x[0] == a@[i as int]);
            assert(y[0] == b@[i as int]);
        }
    }
    if i == a.len() {
        true
    } else if i == b.len() {
        false
    } else {
        a[i] < b[i]
    }
}

/// Whether `a` comes before `b`, or equals it, in the order of strings.
pub fn name_le(a: &str, b: &str) -> (le: bool)
    ensures
        le == text_le(a@, b@),
{
    let x = chars_of(a);
    let y = chars_of(b);
    chars_le(&x, &y)
}

/// A node of a tree listing: something that is listed under its name.
pub trait Named {
    spec fn listed_name(&self) -> Seq<char>;

    fn name_text(&self) -> (name: &str)
        ensures
            name@ == self.listed_name(),
    ;
}

impl Named for FileNode {
    open spec fn listed_name(&self) -> Seq<char> {
        self.name@
    }

    fn name_text(&self) -> (name: &str) {
        self.name.as_str()
    }
}

impl Named for DirectoryNode {
    open spec fn listed_name(&self) -> Seq<char> {
        self.name@
    }

    fn name_text(&self) -> (name: &str) {
        self.name.as_str()
    }
}

/// The names of the nodes stand in the order of strings.
pub open spec fn sorted_by_name<T: Named>(nodes: Seq<T>) -> bool {
    forall|i: int, j: int|
        0 <= i < j < nodes.len() ==> text_le(
            (#[trigger] nodes[i]).listed_name(),
            (#[trigger] nodes[j]).listed_name(),
        )
}

/// Those of the first `n` nodes that are listed under `name`, in their
/// order.
pub open spec fn named_upto<T: Named>(nodes: Seq<T>, name: Seq<char>, n: int) -> Seq<T>
    decreases n,
{
    if n <= 0 {
        Seq::<T>::empty()
    } else {
        let before = named_upto(nodes, name, n - 1);
        if nodes[n - 1].listed_name() == name {
            before.push(nodes[n - 1])
        } else {
            before
        }
    }
}

/// The nodes that are listed under `name`, in their order.
pub open spec fn with_name<T: Named>(nodes: Seq<T>, name: Seq<char>) -> Seq<T> {
    named_upto(nodes, name, nodes.len() as int)
}

proof fn lemma_named_prefix<T: Named>(a: Seq<T>, b: Seq<T>, name: Seq<char>, n: int)
    requires
        0 <= n <= a.len(),
    ensures
        named_upto(a + b, name, n) == named_upto(a, name, n),
    decreases n,
{
    if n > 0 {
        lemma_named_prefix(a, b, name, n - 1);
        assert((a + b)[n - 1] == a[n - 1]);
    }
}

proof fn lemma_named_concat<T: Named>(a: Seq<T>, b: Seq<T>, name: Seq<char>, k: int)
    requires
        0 <= k <= b.len(),
    ensures
        named_upto(a + b, name, a.len() + k) == with_name(a, name) + named_upto(b, name, k),
    decreases k,
{
    if k == 0 {
        lemma_named_prefix(a, b, name, a.len() as int);
        assert(with_name(a, name) + Seq::<T>::empty() == with_name(a, name));
    } else {
        lemma_named_concat(a, b, name, k - 1);
        assert((a + b)[a.len() + k - 1] == b[k - 1]);
        let head = with_name(a, name);
        let tail = named_upto(b, name, k - 1);
        assert((head + tail).push(b[k - 1]) == head + tail.push(b[k - 1]));
    }
}

proof fn lemma_with_name_concat<T: Named>(a: Seq<T>, b: Seq<T>, name: Seq<char>)
    ensures
        with_name(a + b, name) == with_name(a, name) + with_name(b, name),
{
    lemma_named_concat(a, b, name, b.len() as int);
}

proof fn lemma_none_named<T: Named>(nodes: Seq<T>, name: Seq<char>, n: int)
    requires
        0 <= n <= nodes.len(),
        forall|k: int| 0 <= k < n ==> (#[trigger] nodes[k]).listed_name() != name,
    ensures
        named_upto(nodes, name, n) == Seq::<T>::empty(),
    decreases n,
{
    if n > 0 {
        lemma_none_named(nodes, name, n - 1);
    }
}

/// Putting `node` into `nodes` at `at`, in front of nodes that all come
/// strictly behind it in the order of names, adds it behind the nodes of
/// its own name and leaves the nodes of every other name as they were.
proof fn lemma_with_name_insert<T: Named>(nodes: Seq<T>, at: int, node: T, name: Seq<char>)
    requires
        0 <= at <= nodes.len(),
        forall|k: int|
            at <= k < nodes.len() ==> (#[trigger] nodes[k]).listed_name() != node.listed_name(),
    ensures
        with_name(nodes.insert(at, node), name) == if node.listed_name() == name {
            with_name(nodes, name).push(node)
        } else {
            with_name(nodes, name)
        },
{
    let head = nodes.subrange(0, at);
    let tail = nodes.subrange(at, nodes.len() as int);
    let one = seq![node];
    assert(nodes == head + tail);
    assert(nodes.insert(at, node) == (head + one) + tail);
    lemma_with_name_concat(head, tail, name);
    lemma_with_name_concat(head + one, tail, name);
    lemma_with_name_concat(head, one, name);
    assert(named_upto(one, name, 0) == Seq::<T>::empty());
    assert(with_name(one, name) == if node.listed_name() == name {
        Seq::<T>::empty().push(node)
    } else {
        Seq::<T>::empty()
    });
    if node.listed_name() == name {
        assert forall|k: int| 0 <= k < tail.len() implies (#[trigger] tail[k]).listed_name()
            != name by {
            assert(tail[k] == nodes[at + k]);
        }
        lemma_none_named(tail, name, tail.len() as int);
        assert(with_name(head, name) + Seq::<T>::empty().push(node) + Seq::<T>::empty() == (
        with_name(head, name) + Seq::<T>::empty()).push(node));
    } else {
        assert(with_name(head, name) + Seq::<T>::empty() == with_name(head, name));
    }
}

/// Orders the nodes by their names. The nodes are the same as before, each
/// as often as before, and nodes that share a name keep the order they had.
pub fn sort_by_name<T: Named>(nodes: &mut Vec<T>)
    ensures
        sorted_by_name(final(nodes)@),
        final(nodes)@.to_multiset() == old(nodes)@.to_multiset(),
        forall|name: Seq<char>|
            #[trigger] with_name(final(nodes)@, name) == with_name(old(nodes)@, name),
{
    let ghost all = nodes@.to_multiset();
    let ghost given = nodes@;
    assert forall|name: Seq<char>| with_name(Seq::<T>::empty(), name) + #[trigger] with_name(
        given,
        name,
    ) == with_name(given, name) by {
        assert(Seq::<T>::empty() + with_name(given, name) == with_name(given, name));
    }
    let mut sorted: Vec<T> = Vec::new();
    proof {
        sorted@.to_multiset_ensures();
        assert(sorted@.to_multiset() =~= vstd::multiset::Multiset::<T>::empty());
        assert(sorted@.to_multiset().add(nodes@.to_multiset()) =~= all);
    }
    while nodes.len() > 0
        invariant
            sorted_by_name(sorted@),
            sorted@.to_multiset().add(nodes@.to_multiset()) == all,
            forall|name: Seq<char>|
                with_name(sorted@, name) + with_name(nodes@, name) == #[trigger] with_name(
                    given,
                    name,
                ),
        decreases nodes.len(),
    {
        let ghost rest_before = nodes@;
        let ghost sorted_before = sorted@;
        let node = nodes.remove(0);
        let mut at: usize = sorted.len();
        while at > 0 && !name_le(sorted[at - 1].name_text(), node.name_text())
            invariant
                at <= sorted.len(),
                sorted@ == sorted_before,
                forall|k: int|
                    at <= k < sorted@.len() ==> text_le(
                        node.listed_name(),
                        (#[trigger] sorted@[k]).listed_name(),
                    ) && !text_le(sorted@[k].listed_name(), node.listed_name()),
            decreases at,
        {
            proof {
                lemma_text_le_total(sorted@[at - 1].listed_name(), node.listed_name());
            }
            at -= 1;
        }
        sorted.insert(at, node);
        proof {
            let now = sorted@;
            assert(now == sorted_before.insert(at as int, node));
            assert forall|i: int, j: int| 0 <= i < j < now.len() implies text_le(
                (#[trigger] now[i]).listed_name(),
                (#[trigger] now[j]).listed_name(),
            ) by {
                if j < at {
                    assert(now[i] == sorted_before[i] && now[j] == sorted_before[j]);
                } else if j == at {
                    assert(now[i] == sorted_before[i]);
                    if i < at - 1 {
                        assert(text_le(
                            sorted_before[i].listed_name(),
                            sorted_before[at - 1].listed_name(),
                        ));
                        lemma_text_le_transitive(
                            sorted_before[i].listed_name(),
                            sorted_before[at - 1].listed_name(),
                            node.listed_name(),
                        );
                    }
                } else if i < at {
                    assert(now[i] == sorted_before[i] && now[j] == sorted_before[j - 1]);
                } else if i == at {
                    assert(now[j] == sorted_before[j - 1]);
                } else {
                    assert(now[i] == sorted_before[i - 1] && now[j] == sorted_before[j - 1]);
                }
            }
            assert(now.remove(at as int) == sorted_before);
            assert(now[at as int] == node);
            vstd::seq_lib::to_multiset_remove(now, at as int);
            now.to_multiset_ensures();
            assert(now.contains(node));
            assert(now.to_multiset() =~= sorted_before.to_multiset().insert(node));
            assert(nodes@ == rest_before.remove(0));
            assert(rest_before[0] == node);
            vstd::seq_lib::to_multiset_remove(rest_before, 0);
            rest_before.to_multiset_ensures();
            assert(rest_before.contains(node));
            assert(rest_before.to_multiset() =~= nodes@.to_multiset().insert(node));
            assert(now.to_multiset().add(nodes@.to_multiset()) =~= sorted_before.to_multiset().add(
                rest_before.to_multiset(),
            ));
            lemma_text_le_reflexive(node.listed_name());
            assert forall|name: Seq<char>|
                with_name(now, name) + with_name(nodes@, name) == #[trigger] with_name(
                    given,
                    name,
                ) by {
                lemma_with_name_insert(sorted_before, at as int, node, name);
                assert(rest_before == seq![node] + nodes@);
                lemma_with_name_concat(seq![node], nodes@, name);
                assert(named_upto(seq![node], name, 0) == Seq::<T>::empty());
                let kept = with_name(sorted_before, name);
                let rest = with_name(nodes@, name);
                assert(kept + with_name(rest_before, name) == with_name(given, name));
                if node.listed_name() == name {
                    assert(with_name(seq![node], name) == Seq::<T>::empty().push(node));
                    assert(kept.push(node) + rest == kept + (Seq::<T>::empty().push(node) + rest));
                } else {
                    assert(with_name(seq![node], name) == Seq::<T>::empty());
                    assert(Seq::<T>::empty() + rest == rest);
                }
            }
        }
    }
    proof {
        nodes@.to_multiset_ensures();
        assert(nodes@.to_multiset() =~= vstd::multiset::Multiset::<T>::empty());
        assert(sorted@.to_multiset().add(nodes@.to_multiset()) =~= sorted@.to_multiset());
        assert forall|name: Seq<char>| #[trigger]
            with_name(sorted@, name) == with_name(given, name) by {
            assert(with_name(sorted@, name) + with_name(nodes@, name) == with_name(given, name));
            assert(with_name(nodes@, name) == Seq::<T>::empty());
            assert(with_name(sorted@, name) + Seq::<T>::empty() == with_name(sorted@, name));
        }
    }
    *nodes = sorted;
}

} // verus!
