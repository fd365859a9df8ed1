//! The mathematical model of a keymap, and what a configuration document
//! denotes in it.

use crate::config::ConfigValue;
use vstd::prelude::*;

verus! {

/// Mathematical model of a keymap node: the outputs registered at the node's
/// own prefix, and the subtrees reached by one further character.
pub ghost struct Trie {
    pub values: Seq<Seq<char>>,
    pub children: Seq<(char, Trie)>,
}

/// The position of the first pair keyed `c`, or the length of `children`
/// where no pair has that key.
pub open spec fn index_of_key(children: Seq<(char, Trie)>, c: char) -> int
    decreases children.len(),
{
    if children.len() == 0 {
        0
    } else if children[0].0 == c {
        0
    } else {
        1 + index_of_key(children.drop_first(), c)
    }
}

/// `children` with `next` under the key `c`: in the place of the first pair
/// keyed `c`, or behind the other pairs where there is none.
pub open spec fn children_with(children: Seq<(char, Trie)>, c: char, next: Trie) -> Seq<
    (char, Trie),
> {
    let i = index_of_key(children, c);
    if 0 <= i < children.len() {
        children.update(i, (c, next))
    } else {
        children.push((c, next))
    }
}

impl Trie {
    /// The node without outputs and without children.
    pub open spec fn empty() -> Trie {
        Trie { values: Seq::empty(), children: Seq::empty() }
    }

    /// No two children of a node share a key, anywhere in the tree.
    pub open spec fn wf(self) -> bool
        decreases self,
    {
        &&& forall|i: int, j: int|
            0 <= i < j < self.children.len() ==> self.children[i].0 != self.children[j].0
        &&& forall|i: int| 0 <= i < self.children.len() ==> (#[trigger] self.children[i]).1.wf()
    }

    /// The node with `next` as the subtree reached by `c`: in the place of
    /// the child that `c` reached before, or behind the other children
    /// where there was none.
    pub open spec fn with_child(self, c: char, next: Trie) -> Trie {
        Trie { values: self.values, children: children_with(self.children, c, next) }
    }

    /// The subtree reached by the character `c`, if there is one.
    pub open spec fn child(self, c: char) -> Option<Trie> {
        let i = index_of_key(self.children, c);
        if 0 <= i < self.children.len() {
            Some(self.children[i].1)
        } else {
            None
        }
    }

    /// The node reached by following `prefix` from this node, one character
    /// at a time; `None` as soon as a character has no child.
    pub open spec fn descend(self, prefix: Seq<char>) -> Option<Trie>
        decreases prefix.len(),
    {
        if prefix.len() == 0 {
            Some(self)
        } else {
            match self.child(prefix[0]) {
                Some(next) => next.descend(prefix.drop_first()),
                None => None,
            }
        }
    }

    /// Every output of the subtree: the node's own outputs first, then the
    /// outputs of each child's subtree, child after child.
    pub open spec fn gather(self) -> Seq<Seq<char>>
        decreases self, self.children.len() + 1,
    {
        self.values + self.gather_children(self.children.len())
    }

    /// The outputs of the subtrees of the first `n` children.
    pub open spec fn gather_children(self, n: nat) -> Seq<Seq<char>>
        decreases self, n,
    {
        if n == 0 || n > self.children.len() {
            Seq::empty()
        } else {
            self.gather_children((n - 1) as nat) + self.children[n - 1].1.gather()
        }
    }

    /// What a query for `prefix` yields: every output of the node that
    /// `prefix` leads to, and nothing where it leads to no node.
    pub open spec fn lookup(self, prefix: Seq<char>) -> Seq<Seq<char>> {
        match self.descend(prefix) {
            Some(node) => node.gather(),
            None => Seq::empty(),
        }
    }

    /// The number of outputs registered at the nodes of the subtree.
    pub open spec fn count(self) -> nat
        decreases self, self.children.len() + 1,
    {
        self.values.len() + self.count_children(self.children.len())
    }

    /// The number of outputs in the subtrees of the first `n` children.
    pub open spec fn count_children(self, n: nat) -> nat
        decreases self, n,
    {
        if n == 0 || n > self.children.len() {
            0
        } else {
            self.count_children((n - 1) as nat) + self.children[n - 1].1.count()
        }
    }
}

/// `index_of_key` finds position `i` when `i` is the first pair keyed `c`.
pub proof fn lemma_index_of_key_found(children: Seq<(char, Trie)>, c: char, i: int)
    requires
        0 <= i < children.len(),
        children[i].0 == c,
        forall|j: int| 0 <= j < i ==> children[j].0 != c,
    ensures
        index_of_key(children, c) == i,
    decreases children.len(),
{
    if i > 0 {
        lemma_index_of_key_found(children.drop_first(), c, i - 1);
    }
}

/// `index_of_key` is the length of `children` when no pair is keyed `c`.
pub proof fn lemma_index_of_key_absent(children: Seq<(char, Trie)>, c: char)
    requires
        forall|j: int| 0 <= j < children.len() ==> children[j].0 != c,
    ensures
        index_of_key(children, c) == children.len(),
    decreases children.len(),
{
    if children.len() > 0 {
        lemma_index_of_key_absent(children.drop_first(), c);
    }
}

/// The key under which an object lists the outputs of its own prefix.
pub open spec fn marker() -> Seq<char> {
    seq!['>', '>']
}

/// The strings among the first `n` items, in order; items that are no
/// strings are passed over.
pub open spec fn texts_in(items: Seq<ConfigValue>, n: nat) -> Seq<Seq<char>>
    decreases n,
{
    if n == 0 || n > items.len() {
        Seq::empty()
    } else {
        match items[n - 1] {
            ConfigValue::Text(text) => texts_in(items, (n - 1) as nat).push(text),
            _ => texts_in(items, (n - 1) as nat),
        }
    }
}

/// The outputs that a marker's value lists: the strings of an array, and
/// nothing for a value that is no array.
pub open spec fn outputs_of(value: ConfigValue) -> Seq<Seq<char>> {
    match value {
        ConfigValue::Array(items) => texts_in(items, items.len()),
        _ => Seq::empty(),
    }
}

/// The keymap that a configuration document denotes. An object denotes the
/// node built from its pairs; anything else denotes the empty node.
pub open spec fn trie_of(value: ConfigValue) -> Trie
    decreases value, 0nat,
{
    match value {
        ConfigValue::Object(entries) => trie_of_entries(entries, entries.len()),
        _ => Trie::empty(),
    }
}

/// The node built from the first `n` pairs of an object, taken in order.
/// A pair under the marker adds the outputs that its value lists. A pair
/// under any other key that is not empty puts what its value denotes under
/// the key's first character, in place of an earlier child under that
/// character. A pair under the empty key adds nothing.
pub open spec fn trie_of_entries(entries: Seq<(Seq<char>, ConfigValue)>, n: nat) -> Trie
    decreases entries, n,
{
    if n == 0 || n > entries.len() {
        Trie::empty()
    } else {
        let before = trie_of_entries(entries, (n - 1) as nat);
        let (key, value) = entries[n - 1];
        if key == marker() {
            Trie { values: before.values + outputs_of(value), children: before.children }
        } else if key.len() == 0 {
            before
        } else {
            before.with_child(key[0], trie_of(value))
        }
    }
}

/// Where `index_of_key` points: at a pair keyed `c` that no pair keyed `c`
/// precedes, or behind all pairs where none is keyed `c`.
pub proof fn lemma_index_of_key(children: Seq<(char, Trie)>, c: char)
    ensures
        0 <= index_of_key(children, c) <= children.len(),
        index_of_key(children, c) < children.len() ==> children[index_of_key(children, c)].0 == c,
        forall|j: int| 0 <= j < index_of_key(children, c) ==> (#[trigger] children[j]).0 != c,
    decreases children.len(),
{
    if children.len() > 0 && children[0].0 != c {
        let rest = children.drop_first();
        lemma_index_of_key(rest, c);
        assert forall|j: int| 0 <= j < index_of_key(children, c) implies (#[trigger] children[j]).0
            != c by {
            if j > 0 {
                assert(children[j] == rest[j - 1]);
            }
        }
    }
}

/// Putting a well-formed subtree under a key keeps a well-formed node
/// well-formed.
pub proof fn lemma_with_child_wf(node: Trie, c: char, next: Trie)
    requires
        node.wf(),
        next.wf(),
    ensures
        node.with_child(c, next).wf(),
{
    lemma_index_of_key(node.children, c);
}

/// Whatever a configuration document holds, the keymap it denotes is
/// well-formed: no node has two children under one character.
pub proof fn lemma_trie_of_wf(value: ConfigValue)
    ensures
        trie_of(value).wf(),
    decreases value, 0nat,
{
    match value {
        ConfigValue::Object(entries) => lemma_trie_of_entries_wf(entries, entries.len()),
        _ => {},
    }
}

/// The node built from the first `n` pairs of an object is well-formed.
pub proof fn lemma_trie_of_entries_wf(entries: Seq<(Seq<char>, ConfigValue)>, n: nat)
    ensures
        trie_of_entries(entries, n).wf(),
    decreases entries, n,
{
    if 0 < n <= entries.len() {
        lemma_trie_of_entries_wf(entries, (n - 1) as nat);
        let before = trie_of_entries(entries, (n - 1) as nat);
        let (key, value) = entries[n - 1];
        if key != marker() && key.len() > 0 {
            lemma_trie_of_wf(value);
            lemma_with_child_wf(before, key[0], trie_of(value));
        }
    }
}

/// Following `first` and then `rest` is following `first + rest`.
pub proof fn lemma_descend_concat(node: Trie, first: Seq<char>, rest: Seq<char>)
    ensures
        node.descend(first + rest) == match node.descend(first) {
            Some(reached) => reached.descend(rest),
            None => None,
        },
    decreases first.len(),
{
    if first.len() > 0 {
        let whole = first + rest;
        assert(whole.drop_first() == first.drop_first() + rest);
        match node.child(first[0]) {
            Some(next) => lemma_descend_concat(next, first.drop_first(), rest),
            None => {},
        }
    }
}

/// The outputs of a child's subtree are among the outputs gathered from
/// the children up to and including that child.
pub proof fn lemma_gather_children_contains(node: Trie, n: nat, i: int, output: Seq<char>)
    requires
        0 <= i < n <= node.children.len(),
        node.children[i].1.gather().contains(output),
    ensures
        node.gather_children(n).contains(output),
    decreases n,
{
    let earlier = node.gather_children((n - 1) as nat);
    let last = node.children[n - 1].1.gather();
    if i == n - 1 {
        let k = choose|k: int| 0 <= k < last.len() && last[k] == output;
        assert((earlier + last)[earlier.len() + k] == output);
    } else {
        lemma_gather_children_contains(node, (n - 1) as nat, i, output);
        let k = choose|k: int| 0 <= k < earlier.len() && earlier[k] == output;
        assert((earlier + last)[k] == output);
    }
}

/// What a node reached from `node` gathers, `node` gathers too.
pub proof fn lemma_gather_contains_below(node: Trie, path: Seq<char>, output: Seq<char>)
    requires
        node.descend(path) is Some,
        node.descend(path)->0.gather().contains(output),
    ensures
        node.gather().contains(output),
    decreases path.len(),
{
    if path.len() > 0 {
        lemma_index_of_key(node.children, path[0]);
        let i = index_of_key(node.children, path[0]);
        let next = node.children[i].1;
        lemma_gather_contains_below(next, path.drop_first(), output);
        lemma_gather_children_contains(node, node.children.len(), i, output);
        let below = node.gather_children(node.children.len());
        let k = choose|k: int| 0 <= k < below.len() && below[k] == output;
        assert((node.values + below)[node.values.len() + k] == output);
    }
}

/// A subtree gathers as many outputs as its nodes hold.
pub proof fn lemma_gather_len(node: Trie)
    ensures
        node.gather().len() == node.count(),
    decreases node, node.children.len() + 1,
{
    lemma_gather_children_len(node, node.children.len());
}

/// The first `n` children's subtrees gather as many outputs as their nodes
/// hold.
pub proof fn lemma_gather_children_len(node: Trie, n: nat)
    requires
        n <= node.children.len(),
    ensures
        node.gather_children(n).len() == node.count_children(n),
    decreases node, n,
{
    if n > 0 {
        lemma_gather_children_len(node, (n - 1) as nat);
        lemma_gather_len(node.children[n - 1].1);
    }
}

/// A query for the empty prefix yields the whole tree: what the root
/// gathers, as many outputs as all the nodes hold together.
pub proof fn law_empty_prefix_yields_all(root: Trie)
    ensures
        root.lookup(Seq::empty()) == root.gather(),
        root.lookup(Seq::empty()).len() == root.count(),
{
    lemma_gather_len(root);
}

/// No output is left out: an output registered at a node that `path`
/// reaches from the node of `prefix` is among what a query for `prefix`
/// yields. With the empty prefix, that is every output registered
/// anywhere under the root.
pub proof fn law_registered_output_is_yielded(
    root: Trie,
    prefix: Seq<char>,
    path: Seq<char>,
    k: int,
)
    requires
        root.descend(prefix + path) is Some,
        0 <= k < root.descend(prefix + path)->0.values.len(),
    ensures
        root.lookup(prefix).contains(root.descend(prefix + path)->0.values[k]),
{
    lemma_descend_concat(root, prefix, path);
    let from = root.descend(prefix)->0;
    let node = from.descend(path)->0;
    assert(node.gather()[k] == node.values[k]);
    lemma_gather_contains_below(from, path, node.values[k]);
}

/// A longer prefix never yields an output that the shorter prefix does not
/// yield: what `prefix` followed by `more` yields, `prefix` yields too.
pub proof fn law_longer_prefix_narrows(root: Trie, prefix: Seq<char>, more: Seq<char>)
    ensures
        forall|output: Seq<char>|
            root.lookup(prefix + more).contains(output) ==> root.lookup(prefix).contains(output),
{
    lemma_descend_concat(root, prefix, more);
    assert forall|output: Seq<char>| root.lookup(prefix + more).contains(output) implies root.lookup(
        prefix,
    ).contains(output) by {
        if root.descend(prefix) is Some && root.descend(prefix)->0.descend(more) is Some {
            lemma_gather_contains_below(root.descend(prefix)->0, more, output);
        }
    }
}

/// One more character never yields an output that the prefix without it
/// does not yield; and what it yields is what the child under that
/// character gathers.
pub proof fn law_one_more_character_narrows(root: Trie, prefix: Seq<char>, c: char)
    ensures
        forall|output: Seq<char>|
            root.lookup(prefix.push(c)).contains(output) ==> root.lookup(prefix).contains(output),
        root.lookup(prefix.push(c)) == match root.descend(prefix) {
            Some(node) => match node.child(c) {
                Some(next) => next.gather(),
                None => Seq::empty(),
            },
            None => Seq::empty(),
        },
{
    assert(prefix.push(c) == prefix + seq![c]);
    law_longer_prefix_narrows(root, prefix, seq![c]);
    lemma_descend_concat(root, prefix, seq![c]);
    if let Some(node) = root.descend(prefix) {
        assert(seq![c].drop_first() == Seq::<char>::empty());
        if let Some(next) = node.child(c) {
            assert(next.descend(Seq::empty()) == Some(next));
        }
    }
}

/// A prefix that leaves the tree yields nothing: where the first `k`
/// characters lead to a node that has no child under the next character,
/// the query is empty.
pub proof fn law_no_branch_yields_nothing(root: Trie, prefix: Seq<char>, k: int)
    requires
        0 <= k < prefix.len(),
        match root.descend(prefix.take(k)) {
            Some(node) => node.child(prefix[k]) is None,
            None => true,
        },
    ensures
        root.lookup(prefix) == Seq::<Seq<char>>::empty(),
{
    let rest = prefix.skip(k);
    assert(prefix == prefix.take(k) + rest);
    lemma_descend_concat(root, prefix.take(k), rest);
}

} // verus!
