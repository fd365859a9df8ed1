//! The keymap: a trie keyed by single characters.

use crate::config::{items_model, lemma_entries_model, lemma_items_model, Config};
use crate::trie::{
    children_with, lemma_index_of_key_absent, lemma_index_of_key_found, lemma_trie_of_wf, marker,
    outputs_of, texts_in, trie_of, trie_of_entries, Trie,
};
use std::str::Chars;
use vstd::prelude::*;
use vstd::std_specs::iter::IteratorSpec;

verus! {

/// A trie of abbreviations: each node holds the outputs registered at its
/// prefix and one child for each character that extends the prefix.
#[derive(Debug)]
pub struct Keymap {
    here: Vec<String>,
    cont: Vec<(char, Keymap)>,
}

impl View for Keymap {
    type V = Trie;

    closed spec fn view(&self) -> Trie {
        self.model()
    }
}

impl Keymap {
    /// The keymap that `json` denotes. A document that is no object gives
    /// the empty keymap.
    pub fn new(json: Config) -> (keymap: Keymap)
        ensures
            keymap@ == trie_of(json@),
            keymap@.wf(),
    {
        proof {
            lemma_trie_of_wf(json@);
        }
        match Keymap::load(&json) {
            Some(keymap) => keymap,
            None => Keymap::empty(),
        }
    }

    /// Every output registered at `prefix` or at any sequence that extends
    /// it: the outputs at `prefix` itself first. Empty where `prefix` leads
    /// to no node.
    pub fn lookup(&self, prefix: &str) -> (found: Vec<String>)
        ensures
            found.deep_view() == self@.lookup(prefix@),
    {
        broadcast use vstd::string::axiom_spec_iter;
        let mut chars = prefix.chars();
        self.get(&mut chars)
    }

    /// The keymap that the object `json` denotes; `None` where `json` is no
    /// object.
    fn load(json: &Config) -> (loaded: Option<Keymap>)
        ensures
            match loaded {
                Some(keymap) => json@ is Object && keymap@ == trie_of(json@),
                None => !(json@ is Object),
            },
        decreases json,
    {
        match json {
            Config::Object(entries) => {
                let ghost model = json@->Object_0;
                proof {
                    lemma_entries_model(entries@, entries@.len());
                }
                let mut here: Vec<String> = Vec::new();
                let mut cont: Vec<(char, Keymap)> = Vec::new();
                let mut n: usize = 0;
                assert(here.deep_view() =~= Seq::empty());
                while n < entries.len()
                    invariant
                        n <= entries.len(),
                        json matches Config::Object(same) && same == entries,
                        model.len() == entries.len(),
                        forall|i: int|
                            0 <= i < entries.len() ==> #[trigger] model[i] == (
                                entries[i].0@,
                                entries[i].1@,
                            ),
                        trie_of_entries(model, n as nat) == (Trie {
                            values: here.deep_view(),
                            children: children_model(cont@, cont@.len()),
                        }),
                    decreases entries.len() - n,
                {
                    let key = entries[n].0.as_str();
                    let value = &entries[n].1;
                    let ghost before = trie_of_entries(model, n as nat);
                    assert(trie_of_entries(model, (n + 1) as nat) == if key@ == marker() {
                        Trie {
                            values: before.values + outputs_of(value@),
                            children: before.children,
                        }
                    } else if key@.len() == 0 {
                        before
                    } else {
                        before.with_child(key@[0], trie_of(value@))
                    });
                    if is_marker(key) {
                        if let Config::Array(items) = value {
                            proof {
                                lemma_items_model(items@, items@.len());
                            }
                            collect_texts(items, &mut here);
                        }
                    } else if let Some(c) = first_char(key) {
                        let child = match Keymap::load(value) {
                            Some(below) => below,
                            None => Keymap::empty(),
                        };
                        insert_child(&mut cont, c, child);
                    }
                    n += 1;
                }
                let keymap = Keymap { here, cont };
                proof {
                    keymap.lemma_view();
                }
                Some(keymap)
            },
            _ => None,
        }
    }

    /// The outputs for what is left of `prefix`, seen from this node.
    fn get(&self, prefix: &mut Chars<'_>) -> (found: Vec<String>)
        requires
            <Chars<'_> as IteratorSpec>::decrease(old(prefix)) is Some,
        ensures
            found.deep_view() == self@.lookup(<Chars<'_> as IteratorSpec>::remaining(old(prefix))),
        decreases <Chars<'_> as IteratorSpec>::decrease(old(prefix))->0,
    {
        broadcast use vstd::string::next_postcondition;
        if let Some(c) = prefix.next() {
            match self.child(c) {
                Some(next) => next.get(prefix),
                None => Vec::new(),
            }
        } else {
            self.flatten()
        }
    }

    /// Every output of the subtree, the node's own first.
    fn flatten(&self) -> (found: Vec<String>)
        ensures
            found.deep_view() == self@.gather(),
        decreases self,
    {
        proof {
            self.lemma_view();
        }
        let mut found: Vec<String> = Vec::new();
        let mut k: usize = 0;
        while k < self.here.len()
            invariant
                k <= self.here.len(),
                self@.values == self.here.deep_view(),
                found.deep_view() == self@.values.take(k as int),
            decreases self.here.len() - k,
        {
            found.push(self.here[k].clone());
            assert(self@.values.take(k + 1) == self@.values.take(k as int).push(
                self@.values[k as int],
            ));
            k += 1;
        }
        let mut i: usize = 0;
        while i < self.cont.len()
            invariant
                i <= self.cont.len(),
                self@.children.len() == self.cont.len(),
                forall|j: int|
                    0 <= j < self.cont.len() ==> #[trigger] self@.children[j] == (
                        self.cont[j].0,
                        self.cont[j].1@,
                    ),
                found.deep_view() == self@.values + self@.gather_children(i as nat),
            decreases self.cont.len() - i,
        {
            let ghost before = found.deep_view();
            let mut below = self.cont[i].1.flatten();
            found.append(&mut below);
            assert(found.deep_view() == before + self@.children[i as int].1.gather());
            i += 1;
        }
        found
    }

    /// The child reached by `c`, if there is one.
    fn child(&self, c: char) -> (next: Option<&Keymap>)
        ensures
            match next {
                Some(node) => self@.child(c) == Some(node@),
                None => self@.child(c) is None,
            },
    {
        proof {
            self.lemma_view();
        }
        let mut i: usize = 0;
        while i < self.cont.len()
            invariant
                i <= self.cont.len(),
                self@.children.len() == self.cont.len(),
                forall|j: int|
                    0 <= j < self.cont.len() ==> #[trigger] self@.children[j] == (
                        self.cont[j].0,
                        self.cont[j].1@,
                    ),
                forall|j: int| 0 <= j < i ==> self@.children[j].0 != c,
            decreases self.cont.len() - i,
        {
            if self.cont[i].0 == c {
                proof {
                    lemma_index_of_key_found(self@.children, c, i as int);
                }
                return Some(&self.cont[i].1);
            }
            i += 1;
        }
        proof {
            lemma_index_of_key_absent(self@.children, c);
        }
        None
    }

    /// The keymap without outputs and without children.
    fn empty() -> (keymap: Keymap)
        ensures
            keymap@ == Trie::empty(),
    {
        let keymap = Keymap { here: Vec::new(), cont: Vec::new() };
        proof {
            keymap.lemma_view();
            assert(keymap@.values =~= Seq::empty());
        }
        keymap
    }

    /// A keymap with the same nodes.
    fn duplicate(&self) -> (copy: Keymap)
        ensures
            copy@ == self@,
        decreases self,
    {
        let mut here: Vec<String> = Vec::new();
        let mut k: usize = 0;
        while k < self.here.len()
            invariant
                k <= self.here.len(),
                here.len() == k,
                forall|j: int| 0 <= j < k ==> here[j] == self.here[j],
            decreases self.here.len() - k,
        {
            here.push(self.here[k].clone());
            k += 1;
        }
        let mut cont: Vec<(char, Keymap)> = Vec::new();
        let mut i: usize = 0;
        while i < self.cont.len()
            invariant
                i <= self.cont.len(),
                cont.len() == i,
                forall|j: int|
                    0 <= j < i ==> (#[trigger] cont[j]).0 == self.cont[j].0 && cont[j].1@
                        == self.cont[j].1@,
            decreases self.cont.len() - i,
        {
            cont.push((self.cont[i].0, self.cont[i].1.duplicate()));
            i += 1;
        }
        let copy = Keymap { here, cont };
        proof {
            self.lemma_view();
            copy.lemma_view();
            assert(copy@.values =~= self@.values);
            assert(copy@.children =~= self@.children);
        }
        copy
    }

    /// The keymap as a mathematical value.
    spec fn model(&self) -> Trie
        decreases self,
    {
        Trie {
            values: self.here.deep_view(),
            children: children_model(self.cont@, self.cont@.len()),
        }
    }

    /// The model, field by field.
    proof fn lemma_view(&self)
        ensures
            self@.values == self.here.deep_view(),
            self@.children.len() == self.cont.len(),
            forall|i: int|
                0 <= i < self.cont.len() ==> #[trigger] self@.children[i] == (
                    self.cont[i].0,
                    self.cont[i].1@,
                ),
    {
        lemma_children_model(self.cont@, self.cont@.len());
    }
}

impl Clone for Keymap {
    fn clone(&self) -> (copy: Keymap)
        ensures
            copy@ == self@,
    {
        self.duplicate()
    }
}

/// The models of the first `n` children in `cont`, each under its key.
spec fn children_model(cont: Seq<(char, Keymap)>, n: nat) -> Seq<(char, Trie)>
    decreases cont, n,
{
    if n == 0 || n > cont.len() {
        Seq::empty()
    } else {
        children_model(cont, (n - 1) as nat).push((cont[n - 1].0, cont[n - 1].1.model()))
    }
}

/// The model of the children holds one pair for each child, in the same
/// order.
proof fn lemma_children_model(cont: Seq<(char, Keymap)>, n: nat)
    requires
        n <= cont.len(),
    ensures
        children_model(cont, n).len() == n,
        forall|i: int|
            0 <= i < n ==> #[trigger] children_model(cont, n)[i] == (cont[i].0, cont[i].1@),
    decreases n,
{
    if n > 0 {
        lemma_children_model(cont, (n - 1) as nat);
    }
}

/// Whether `key` is the marker under which an object lists its outputs.
fn is_marker(key: &str) -> (yes: bool)
    ensures
        yes == (key@ == marker()),
{
    let yes = key.unicode_len() == 2 && key.get_char(0) == '>' && key.get_char(1) == '>';
    assert(yes ==> key@ =~= marker());
    yes
}

/// The first character of `key`, if it has one.
fn first_char(key: &str) -> (first: Option<char>)
    ensures
        key@.len() == 0 ==> first is None,
        key@.len() > 0 ==> first == Some(key@[0]),
{
    broadcast use {vstd::string::axiom_spec_iter, vstd::string::next_postcondition};
    let mut chars = key.chars();
    chars.next()
}

/// Appends to `here` the strings among `items`, in order.
fn collect_texts(items: &Vec<Config>, here: &mut Vec<String>)
    ensures
        final(here).deep_view() == old(here).deep_view() + texts_in(
            items_model(items@, items@.len()),
            items@.len(),
        ),
{
    let ghost model = items_model(items@, items@.len());
    proof {
        lemma_items_model(items@, items@.len());
    }
    let mut n: usize = 0;
    while n < items.len()
        invariant
            n <= items.len(),
            model.len() == items.len(),
            forall|i: int| 0 <= i < items.len() ==> #[trigger] model[i] == items[i]@,
            here.deep_view() == old(here).deep_view() + texts_in(model, n as nat),
        decreases items.len() - n,
    {
        let ghost before = here.deep_view();
        if let Config::Text(text) = &items[n] {
            here.push(text.clone());
            assert(here.deep_view() == before.push(text@));
        }
        n += 1;
    }
}

/// Puts `node` under the key `c`: in the place of the child that `c`
/// reached before, or behind the other children.
fn insert_child(cont: &mut Vec<(char, Keymap)>, c: char, node: Keymap)
    ensures
        children_model(final(cont)@, final(cont)@.len()) == children_with(
            children_model(old(cont)@, old(cont)@.len()),
            c,
            node@,
        ),
{
    let ghost before = children_model(cont@, cont@.len());
    proof {
        lemma_children_model(cont@, cont@.len());
    }
    let mut i: usize = 0;
    while i < cont.len()
        invariant
            i <= cont.len(),
            cont@ == old(cont)@,
            before == children_model(old(cont)@, old(cont)@.len()),
            before.len() == cont.len(),
            forall|j: int| 0 <= j < cont.len() ==> #[trigger] before[j] == (cont[j].0, cont[j].1@),
            forall|j: int| 0 <= j < i ==> before[j].0 != c,
        decreases cont.len() - i,
    {
        if cont[i].0 == c {
            cont[i] = (c, node);
            proof {
                lemma_index_of_key_found(before, c, i as int);
                lemma_children_model(cont@, cont@.len());
            }
            return ;
        }
        i += 1;
    }
    cont.push((c, node));
    proof {
        lemma_index_of_key_absent(before, c);
        lemma_children_model(cont@, cont@.len());
    }
}

} // verus!
