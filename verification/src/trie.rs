//! A character trie whose nodes live in a [`Slab`], used to resolve key
//! sequences: a lookup says what value a string holds and whether longer
//! strings continue it.
use vstd::prelude::*;
use vstd::string::StrSliceExecFns;

use crate::slab::{Slab, SlotKey};

verus! {

/// One trie node: the character on the edge that leads to it, the value stored
/// for the path that ends here, and the keys of its children.
#[derive(Debug)]
pub struct Node<T> {
    children: Vec<SlotKey>,
    key: char,
    value: Option<T>,
}

impl<T> Default for Node<T> {
    fn default() -> (node: Self)
        ensures
            node.spec_children().len() == 0,
            node.spec_key() == '\0',
            node.spec_value() is None,
    {
        Self { children: Vec::new(), key: '\0', value: None }
    }
}

impl<T> Node<T> {
    pub closed spec fn spec_children(self) -> Seq<SlotKey> {
        self.children@
    }

    pub closed spec fn spec_key(self) -> char {
        self.key
    }

    pub closed spec fn spec_value(self) -> Option<T> {
        self.value
    }

    /// A node with no children.
    pub fn new(key: char, value: Option<T>) -> (node: Self)
        ensures
            node.spec_children().len() == 0,
            node.spec_key() == key,
            node.spec_value() == value,
    {
        Self { children: Vec::new(), key, value }
    }
}

/// The answer to a lookup: the value stored for the string, and whether some
/// longer stored string begins with it.
#[derive(Debug, PartialEq, Eq)]
pub struct TrieQuery<'a, T> {
    pub value: Option<&'a T>,
    pub continues: bool,
}

impl<'a, T> TrieQuery<'a, T> {
    pub fn new(value: Option<&'a T>, continues: bool) -> (query: Self)
        ensures
            query.value == value,
            query.continues == continues,
    {
        Self { value, continues }
    }
}

/// A map from non-empty strings to values that answers prefix queries.
pub struct Trie<T> {
    nodes: Slab<Node<T>>,
    /// The stored strings and their values.
    entries: Ghost<Map<Seq<char>, T>>,
    /// The node that each path of the trie leads to.
    paths: Ghost<Map<Seq<char>, SlotKey>>,
}

/// `p` is a prefix of some key of `entries`.
pub open spec fn is_key_prefix<T>(entries: Map<Seq<char>, T>, p: Seq<char>) -> bool {
    exists|k: Seq<char>| #[trigger] entries.contains_key(k) && p.is_prefix_of(k)
}

/// Some key of `entries` is longer than `p` and begins with it.
pub open spec fn is_continued<T>(entries: Map<Seq<char>, T>, p: Seq<char>) -> bool {
    exists|k: Seq<char>| #[trigger] entries.contains_key(k) && p.is_prefix_of(k) && k.len() > p.len()
}

/// The value that `entries` holds for `p`, as an option.
pub open spec fn entry_opt<T>(entries: Map<Seq<char>, T>, p: Seq<char>) -> Option<T> {
    if entries.contains_key(p) {
        Some(entries[p])
    } else {
        None
    }
}

/// The shape of the trie: paths lead to distinct live nodes, each node
/// carries the value of its path and the last character of its path, and its
/// children are exactly the nodes of the one-character extensions of its path.
spec fn shape_ok<T>(
    nodes: Map<SlotKey, Node<T>>,
    paths: Map<Seq<char>, SlotKey>,
    entries: Map<Seq<char>, T>,
) -> bool {
    &&& paths.contains_key(Seq::<char>::empty())
    &&& paths[Seq::<char>::empty()] == 0
    &&& forall|p: Seq<char>| #[trigger] paths.contains_key(p) ==> nodes.contains_key(paths[p])
    &&& forall|p: Seq<char>, q: Seq<char>|
        #[trigger] paths.contains_key(p) && #[trigger] paths.contains_key(q) && paths[p] == paths[q]
            ==> p == q
    &&& forall|p: Seq<char>| #[trigger]
        paths.contains_key(p) ==> nodes[paths[p]].value == entry_opt(entries, p)
    &&& forall|p: Seq<char>| #[trigger]
        paths.contains_key(p) && p.len() > 0 ==> nodes[paths[p]].key == p.last()
    &&& forall|p: Seq<char>, j: int| #[trigger]
        paths.contains_key(p) && 0 <= j < nodes[paths[p]].children@.len() ==> {
            let c = #[trigger] nodes[paths[p]].children@[j];
            &&& paths.contains_key(p.push(nodes[c].key))
            &&& paths[p.push(nodes[c].key)] == c
        }
    &&& forall|p: Seq<char>, ch: char| #[trigger]
        paths.contains_key(p.push(ch)) ==> paths.contains_key(p)
            && nodes[paths[p]].children@.contains(paths[p.push(ch)])
    &&& forall|k: Seq<char>| #[trigger] entries.contains_key(k) ==> k.len() > 0
}

/// The paths are the empty path, the prefixes of stored keys, and the
/// prefixes of `extra`.
spec fn paths_ok<T>(
    paths: Map<Seq<char>, SlotKey>,
    entries: Map<Seq<char>, T>,
    extra: Seq<char>,
) -> bool {
    forall|p: Seq<char>|
        #[trigger] paths.contains_key(p) <==> (p.len() == 0 || is_key_prefix(entries, p)
            || p.is_prefix_of(extra))
}

impl<T> Trie<T> {
    /// The stored strings and their values.
    pub closed spec fn view(self) -> Map<Seq<char>, T> {
        self.entries@
    }

    /// Well-formedness of the node structure.
    pub closed spec fn wf(self) -> bool {
        &&& self.nodes.wf()
        &&& shape_ok(self.nodes.view(), self.paths@, self.entries@)
        &&& paths_ok(self.paths@, self.entries@, Seq::<char>::empty())
    }

    /// An empty trie: a root node and nothing stored.
    pub fn new() -> (trie: Self)
        ensures
            trie.wf(),
            trie.view() == Map::<Seq<char>, T>::empty(),
    {
        let mut nodes = Slab::<Node<T>>::new();
        let root = nodes.insert(Node::default());
        let ghost paths = Map::<Seq<char>, SlotKey>::empty().insert(Seq::<char>::empty(), root);
        let trie = Trie { nodes, entries: Ghost(Map::empty()), paths: Ghost(paths) };
        proof {
            assert(root == 0);
            assert forall|p: Seq<char>|
                #[trigger] paths.contains_key(p) <==> (p.len() == 0 || is_key_prefix(
                    trie.entries@,
                    p,
                ) || p.is_prefix_of(Seq::<char>::empty())) by {
                if p.len() == 0 {
                    assert(p =~= Seq::<char>::empty());
                }
            }
            assert forall|p: Seq<char>, ch: char| #[trigger]
                paths.contains_key(p.push(ch)) implies paths.contains_key(p)
                && trie.nodes.view()[paths[p]].children@.contains(paths[p.push(ch)]) by {
                assert(p.push(ch).len() > 0);
            }
        }
        trie
    }

    /// Looks for the child of the node of path `p` whose edge is `ch`.
    fn find_child(&self, idx: SlotKey, ch: char, Ghost(p): Ghost<Seq<char>>) -> (r: Option<
        SlotKey,
    >)
        requires
            self.nodes.wf(),
            shape_ok(self.nodes.view(), self.paths@, self.entries@),
            self.paths@.contains_key(p),
            self.paths@[p] == idx,
        ensures
            match r {
                Some(c) => self.paths@.contains_key(p.push(ch)) && self.paths@[p.push(ch)] == c,
                None => !self.paths@.contains_key(p.push(ch)),
            },
    {
        let node = self.nodes.index(idx);
        let mut j: usize = 0;
        while j < node.children.len()
            invariant
                self.nodes.wf(),
                shape_ok(self.nodes.view(), self.paths@, self.entries@),
                self.paths@.contains_key(p),
                self.paths@[p] == idx,
                *node == self.nodes.view()[idx],
                j <= node.children@.len(),
                forall|i: int|
                    0 <= i < j ==> self.nodes.view()[#[trigger] node.children@[i]].key != ch,
            decreases node.children@.len() - j,
        {
            let child = node.children[j];
            proof {
                let jj = j as int;
                assert(self.paths@.contains_key(p) && 0 <= jj < self.nodes.view()[self.paths@[
                    p
                ]].children@.len());
                assert(self.nodes.view()[self.paths@[p]].children@[jj] == child);
                let cp = p.push(self.nodes.view()[child].key);
                assert(self.paths@.contains_key(cp));
                assert(self.nodes.view().contains_key(self.paths@[cp]));
            }
            if self.nodes.index(child).key == ch {
                return Some(child);
            }
            j = j + 1;
        }
        proof {
            if self.paths@.contains_key(p.push(ch)) {
                let c = self.paths@[p.push(ch)];
                assert(node.children@.contains(c));
                let i = choose|i: int| 0 <= i < node.children@.len() && node.children@[i] == c;
                assert(p.push(ch).len() > 0);
                assert(p.push(ch).last() == ch);
                assert(self.nodes.view()[node.children@[i]].key != ch);
            }
        }
        None
    }

    /// Stores `value` under `needle`, replacing any earlier value; an empty
    /// `needle` stores nothing.
    pub fn insert(&mut self, needle: &str, value: T)
        requires
            old(self).wf(),
        ensures
            final(self).wf(),
            needle@.len() == 0 ==> final(self).view() == old(self).view(),
            needle@.len() > 0 ==> final(self).view() == old(self).view().insert(needle@, value),
    {
        let n = needle.unicode_len();
        if n == 0 {
            return ;
        }
        let mut current_idx: SlotKey = 0;
        let mut i: usize = 0;
        proof {
            assert(needle@.subrange(0, 0) =~= Seq::<char>::empty());
            lemma_paths_ok_widen(self.paths@, self.entries@, needle@.subrange(0, 0));
        }
        while i < n
            invariant
                n == needle@.len(),
                i <= n,
                self.nodes.wf(),
                shape_ok(self.nodes.view(), self.paths@, self.entries@),
                paths_ok(self.paths@, self.entries@, needle@.subrange(0, i as int)),
                self.entries@ == old(self).entries@,
                self.paths@.contains_key(needle@.subrange(0, i as int)),
                self.paths@[needle@.subrange(0, i as int)] == current_idx,
            decreases n - i,
        {
            let ghost prefix = needle@.subrange(0, i as int);
            let ch = needle.get_char(i);
            match self.find_child(current_idx, ch, Ghost(prefix)) {
                Some(child_idx) => {
                    current_idx = child_idx;
                },
                None => {
                    let ghost old_nodes = self.nodes.view();
                    let ghost old_paths = self.paths@;
                    let new_node_idx = self.nodes.insert(Node::new(ch, None));
                    let parent = self.nodes.index_mut(current_idx);
                    parent.children.push(new_node_idx);
                    proof {
                        assert(self.nodes.view().dom() =~= old_nodes.dom().insert(new_node_idx));
                        lemma_add_child(
                            old_nodes,
                            old_paths,
                            self.entries@,
                            needle@.subrange(0, i as int),
                            ch,
                            new_node_idx,
                            self.nodes.view(),
                        );
                        self.paths@ = old_paths.insert(prefix.push(ch), new_node_idx);
                    }
                    current_idx = new_node_idx;
                },
            }
            proof {
                assert(needle@.subrange(0, i + 1) =~= prefix.push(ch));
                lemma_paths_ok_extend(self.paths@, self.entries@, needle@, i as int);
            }
            i = i + 1;
        }
        proof {
            assert(needle@.subrange(0, n as int) =~= needle@);
        }
        let ghost old_nodes = self.nodes.view();
        let ghost old_entries = self.entries@;
        let node = self.nodes.index_mut(current_idx);
        node.value = Some(value);
        proof {
            assert(self.nodes.view().dom() =~= old_nodes.dom());
            self.entries@ = old_entries.insert(needle@, value);
            lemma_set_value(old_nodes, self.paths@, old_entries, needle@, value, self.nodes.view());
        }
    }

    /// Looks `needle` up. `None` when `needle` is empty or no stored string
    /// begins with it; otherwise the value stored for `needle` itself, and
    /// whether a longer stored string begins with it.
    pub fn get(&self, needle: &str) -> (r: Option<TrieQuery<'_, T>>)
        requires
            self.wf(),
        ensures
            needle@.len() == 0 ==> r is None,
            needle@.len() > 0 ==> (r is Some <==> is_key_prefix(self.view(), needle@)),
            r matches Some(q) ==> q.value == (if self.view().contains_key(needle@) {
                Some(&self.view()[needle@])
            } else {
                None::<&T>
            }) && q.continues == is_continued(self.view(), needle@),
    {
        let n = needle.unicode_len();
        if n == 0 {
            return None;
        }
        let mut current_idx: SlotKey = 0;
        let mut i: usize = 0;
        proof {
            assert(needle@.subrange(0, 0) =~= Seq::<char>::empty());
        }
        while i < n
            invariant
                n == needle@.len(),
                i <= n,
                self.wf(),
                self.paths@.contains_key(needle@.subrange(0, i as int)),
                self.paths@[needle@.subrange(0, i as int)] == current_idx,
            decreases n - i,
        {
            let ghost prefix = needle@.subrange(0, i as int);
            let ch = needle.get_char(i);
            match self.find_child(current_idx, ch, Ghost(prefix)) {
                Some(child_idx) => {
                    current_idx = child_idx;
                },
                None => {
                    proof {
                        assert(prefix.push(ch).len() > 0);
                        if is_key_prefix(self.entries@, needle@) {
                            let k = choose|k: Seq<char>|
                                #[trigger] self.entries@.contains_key(k) && needle@.is_prefix_of(
                                    k,
                                );
                            assert(prefix.push(ch).is_prefix_of(k));
                            assert(is_key_prefix(self.entries@, prefix.push(ch)));
                        }
                    }
                    return None;
                },
            }
            proof {
                assert(needle@.subrange(0, i + 1) =~= prefix.push(ch));
            }
            i = i + 1;
        }
        proof {
            assert(needle@.subrange(0, n as int) =~= needle@);
        }
        let node = self.nodes.index(current_idx);
        let continues = node.children.len() > 0;
        proof {
            lemma_continues(self.nodes.view(), self.paths@, self.entries@, needle@);
            assert(is_key_prefix(self.entries@, needle@));
        }
        Some(TrieQuery { value: node.value.as_ref(), continues })
    }
}

impl<T> Default for Trie<T> {
    fn default() -> (trie: Self)
        ensures
            trie.wf(),
            trie.view() == Map::<Seq<char>, T>::empty(),
    {
        Self::new()
    }
}

proof fn lemma_paths_ok_widen<T>(
    paths: Map<Seq<char>, SlotKey>,
    entries: Map<Seq<char>, T>,
    extra: Seq<char>,
)
    requires
        paths_ok(paths, entries, Seq::<char>::empty()),
        extra.len() == 0,
    ensures
        paths_ok(paths, entries, extra),
{
    assert(extra =~= Seq::<char>::empty());
}

/// Once the path `needle[..i+1]` is present, the paths are the prefixes of
/// the keys and of `needle[..i+1]`.
proof fn lemma_paths_ok_extend<T>(
    paths: Map<Seq<char>, SlotKey>,
    entries: Map<Seq<char>, T>,
    needle: Seq<char>,
    i: int,
)
    requires
        0 <= i < needle.len(),
        paths.contains_key(needle.subrange(0, i + 1)),
        forall|p: Seq<char>|
            #[trigger] paths.contains_key(p) <==> (p.len() == 0 || is_key_prefix(entries, p)
                || p.is_prefix_of(needle.subrange(0, i)) || p == needle.subrange(0, i + 1)),
    ensures
        paths_ok(paths, entries, needle.subrange(0, i + 1)),
{
    assert forall|p: Seq<char>| #[trigger]
        paths.contains_key(p) <==> (p.len() == 0 || is_key_prefix(entries, p) || p.is_prefix_of(
            needle.subrange(0, i + 1),
        )) by {
        if p.is_prefix_of(needle.subrange(0, i + 1)) && p.len() <= i {
            assert(p.is_prefix_of(needle.subrange(0, i)));
        }
        if p.is_prefix_of(needle.subrange(0, i + 1)) && p.len() == i + 1 {
            assert(p =~= needle.subrange(0, i + 1));
        }
        if p.is_prefix_of(needle.subrange(0, i)) {
            assert(p.is_prefix_of(needle.subrange(0, i + 1)));
        }
    }
}

/// Adding a fresh node for `prefix.push(ch)` as a child of the node of
/// `prefix` keeps the shape.
proof fn lemma_add_child<T>(
    nodes: Map<SlotKey, Node<T>>,
    paths: Map<Seq<char>, SlotKey>,
    entries: Map<Seq<char>, T>,
    prefix: Seq<char>,
    ch: char,
    new_idx: SlotKey,
    new_nodes: Map<SlotKey, Node<T>>,
)
    requires
        shape_ok(nodes, paths, entries),
        paths_ok(paths, entries, prefix),
        paths.contains_key(prefix),
        !paths.contains_key(prefix.push(ch)),
        !nodes.contains_key(new_idx),
        new_nodes.dom() == nodes.dom().insert(new_idx),
        new_nodes[new_idx].key == ch,
        new_nodes[new_idx].value is None,
        new_nodes[new_idx].children@.len() == 0,
        new_nodes[paths[prefix]].key == nodes[paths[prefix]].key,
        new_nodes[paths[prefix]].value == nodes[paths[prefix]].value,
        new_nodes[paths[prefix]].children@ == nodes[paths[prefix]].children@.push(new_idx),
        forall|k: SlotKey|
            nodes.contains_key(k) && k != paths[prefix] ==> new_nodes[k] == nodes[k],
    ensures
        shape_ok(new_nodes, paths.insert(prefix.push(ch), new_idx), entries),
        forall|p: Seq<char>|
            #[trigger] paths.insert(prefix.push(ch), new_idx).contains_key(p) <==> (p.len() == 0
                || is_key_prefix(entries, p) || p.is_prefix_of(prefix) || p == prefix.push(ch)),
{
    let np = prefix.push(ch);
    let new_paths = paths.insert(np, new_idx);
    let parent = paths[prefix];
    assert(nodes.contains_key(parent));
    assert(np.len() > 0 && np.last() == ch);
    assert(np.drop_last() =~= prefix);
    // the new path is not a key
    assert(!entries.contains_key(np)) by {
        if entries.contains_key(np) {
            assert(np.is_prefix_of(np));
            assert(is_key_prefix(entries, np));
        }
    }
    assert forall|p: Seq<char>| #[trigger] new_paths.contains_key(p) implies new_nodes.contains_key(
        new_paths[p],
    ) by {
        if p != np {
            assert(nodes.contains_key(paths[p]));
        }
    }
    assert forall|p: Seq<char>, q: Seq<char>|
        #[trigger] new_paths.contains_key(p) && #[trigger] new_paths.contains_key(q)
            && new_paths[p] == new_paths[q] implies p == q by {
        if p != np && q != np {
            assert(paths.contains_key(p) && paths.contains_key(q));
        } else if p != np {
            assert(nodes.contains_key(paths[p]));
        } else if q != np {
            assert(nodes.contains_key(paths[q]));
        }
    }
    assert forall|p: Seq<char>| #[trigger]
        new_paths.contains_key(p) implies new_nodes[new_paths[p]].value == entry_opt(entries, p) by {
        if p != np {
            assert(nodes.contains_key(paths[p]));
            if paths[p] != parent {
                assert(new_nodes[paths[p]] == nodes[paths[p]]);
            }
        }
    }
    assert forall|p: Seq<char>| #[trigger]
        new_paths.contains_key(p) && p.len() > 0 implies new_nodes[new_paths[p]].key == p.last() by {
        if p != np {
            assert(nodes.contains_key(paths[p]));
            if paths[p] != parent {
                assert(new_nodes[paths[p]] == nodes[paths[p]]);
            }
        }
    }
    assert forall|p: Seq<char>, j: int| #[trigger]
        new_paths.contains_key(p) && 0 <= j < new_nodes[new_paths[p]].children@.len() implies {
        let c = #[trigger] new_nodes[new_paths[p]].children@[j];
        &&& new_paths.contains_key(p.push(new_nodes[c].key))
        &&& new_paths[p.push(new_nodes[c].key)] == c
    } by {
        if p == np {
        } else {
            assert(paths.contains_key(p));
            assert(nodes.contains_key(paths[p]));
            let c = new_nodes[new_paths[p]].children@[j];
            if paths[p] == parent && j == nodes[parent].children@.len() {
                assert(c == new_idx);
                assert(p == prefix);
            } else {
                if paths[p] != parent {
                    assert(new_nodes[paths[p]] == nodes[paths[p]]);
                }
                assert(c == nodes[paths[p]].children@[j]);
                let cp = p.push(nodes[c].key);
                assert(paths.contains_key(cp) && paths[cp] == c);
                assert(nodes.contains_key(c));
                assert(c != new_idx);
                if c != parent {
                    assert(new_nodes[c] == nodes[c]);
                }
                assert(new_nodes[c].key == nodes[c].key);
                assert(cp != np);
            }
        }
    }
    assert forall|p: Seq<char>, c: char| #[trigger]
        new_paths.contains_key(p.push(c)) implies new_paths.contains_key(p)
        && new_nodes[new_paths[p]].children@.contains(new_paths[p.push(c)]) by {
        if p.push(c) == np {
            assert(p =~= p.push(c).drop_last());
            assert(new_nodes[parent].children@[nodes[parent].children@.len() as int] == new_idx);
        } else {
            assert(paths.contains_key(p.push(c)));
            assert(paths.contains_key(p));
            assert(nodes[paths[p]].children@.contains(paths[p.push(c)]));
            let j = choose|j: int|
                0 <= j < nodes[paths[p]].children@.len() && nodes[paths[p]].children@[j]
                    == paths[p.push(c)];
            if paths[p] == parent {
                assert(new_nodes[parent].children@[j] == paths[p.push(c)]);
            } else {
                assert(nodes.contains_key(paths[p]));
                assert(new_nodes[paths[p]] == nodes[paths[p]]);
            }
            if p == np {
                assert(false);
            }
        }
    }
    assert forall|p: Seq<char>|
        #[trigger] new_paths.contains_key(p) <==> (p.len() == 0 || is_key_prefix(entries, p)
            || p.is_prefix_of(prefix) || p == np) by {
    }
}

/// Storing `value` in the node of `needle` keeps the shape once `needle` is a
/// key.
proof fn lemma_set_value<T>(
    nodes: Map<SlotKey, Node<T>>,
    paths: Map<Seq<char>, SlotKey>,
    entries: Map<Seq<char>, T>,
    needle: Seq<char>,
    value: T,
    new_nodes: Map<SlotKey, Node<T>>,
)
    requires
        shape_ok(nodes, paths, entries),
        paths_ok(paths, entries, needle),
        needle.len() > 0,
        paths.contains_key(needle),
        new_nodes.dom() == nodes.dom(),
        new_nodes[paths[needle]].key == nodes[paths[needle]].key,
        new_nodes[paths[needle]].children@ == nodes[paths[needle]].children@,
        new_nodes[paths[needle]].value == Some(value),
        forall|k: SlotKey|
            nodes.contains_key(k) && k != paths[needle] ==> new_nodes[k] == nodes[k],
    ensures
        shape_ok(new_nodes, paths, entries.insert(needle, value)),
        paths_ok(paths, entries.insert(needle, value), Seq::<char>::empty()),
{
    let new_entries = entries.insert(needle, value);
    let target = paths[needle];
    assert forall|p: Seq<char>| #[trigger]
        paths.contains_key(p) implies new_nodes[paths[p]].value == entry_opt(new_entries, p) by {
        assert(nodes.contains_key(paths[p]));
        if p != needle {
            assert(paths[p] != target);
            assert(new_nodes[paths[p]] == nodes[paths[p]]);
        }
    }
    assert forall|p: Seq<char>| #[trigger]
        paths.contains_key(p) && p.len() > 0 implies new_nodes[paths[p]].key == p.last() by {
        assert(nodes.contains_key(paths[p]));
        if paths[p] != target {
            assert(new_nodes[paths[p]] == nodes[paths[p]]);
        }
    }
    assert forall|p: Seq<char>, j: int| #[trigger]
        paths.contains_key(p) && 0 <= j < new_nodes[paths[p]].children@.len() implies {
        let c = #[trigger] new_nodes[paths[p]].children@[j];
        &&& paths.contains_key(p.push(new_nodes[c].key))
        &&& paths[p.push(new_nodes[c].key)] == c
    } by {
        assert(nodes.contains_key(paths[p]));
        if paths[p] != target {
            assert(new_nodes[paths[p]] == nodes[paths[p]]);
        }
        let c = nodes[paths[p]].children@[j];
        let cp = p.push(nodes[c].key);
        assert(paths.contains_key(cp) && paths[cp] == c);
        assert(nodes.contains_key(c));
        if c != target {
            assert(new_nodes[c] == nodes[c]);
        }
    }
    assert forall|p: Seq<char>, c: char| #[trigger]
        paths.contains_key(p.push(c)) implies paths.contains_key(p)
        && new_nodes[paths[p]].children@.contains(paths[p.push(c)]) by {
        assert(nodes.contains_key(paths[p]));
        if paths[p] != target {
            assert(new_nodes[paths[p]] == nodes[paths[p]]);
        }
    }
    assert forall|p: Seq<char>|
        #[trigger] paths.contains_key(p) <==> (p.len() == 0 || is_key_prefix(new_entries, p)
            || p.is_prefix_of(Seq::<char>::empty())) by {
        if p.is_prefix_of(Seq::<char>::empty()) {
            assert(p.len() == 0);
        }
        if paths.contains_key(p) && p.len() > 0 {
            if is_key_prefix(entries, p) {
                let k = choose|k: Seq<char>| #[trigger] entries.contains_key(k) && p.is_prefix_of(k);
                assert(new_entries.contains_key(k));
            } else {
                assert(p.is_prefix_of(needle));
                assert(new_entries.contains_key(needle));
            }
        }
        if p.is_prefix_of(needle) {
            assert(new_entries.contains_key(needle));
            assert(is_key_prefix(new_entries, p));
        }
        if is_key_prefix(new_entries, p) {
            let k = choose|k: Seq<char>| #[trigger]
                new_entries.contains_key(k) && p.is_prefix_of(k);
            if k != needle {
                assert(entries.contains_key(k));
                assert(is_key_prefix(entries, p));
            }
        }
    }
}

/// The node of `p` has children exactly when a longer stored string begins
/// with `p`.
proof fn lemma_continues<T>(
    nodes: Map<SlotKey, Node<T>>,
    paths: Map<Seq<char>, SlotKey>,
    entries: Map<Seq<char>, T>,
    p: Seq<char>,
)
    requires
        shape_ok(nodes, paths, entries),
        paths_ok(paths, entries, Seq::<char>::empty()),
        paths.contains_key(p),
        p.len() > 0,
    ensures
        (nodes[paths[p]].children@.len() > 0) == is_continued(entries, p),
        is_key_prefix(entries, p),
{
    assert(!p.is_prefix_of(Seq::<char>::empty()));
    if nodes[paths[p]].children@.len() > 0 {
        let c = nodes[paths[p]].children@[0];
        let cp = p.push(nodes[c].key);
        assert(paths.contains_key(cp));
        assert(!cp.is_prefix_of(Seq::<char>::empty()));
        let k = choose|k: Seq<char>| #[trigger] entries.contains_key(k) && cp.is_prefix_of(k);
        assert(p.is_prefix_of(k));
        assert(is_continued(entries, p));
    }
    if is_continued(entries, p) {
        let k = choose|k: Seq<char>|
            #[trigger] entries.contains_key(k) && p.is_prefix_of(k) && k.len() > p.len();
        let cp = k.subrange(0, p.len() as int + 1);
        assert(cp =~= p.push(k[p.len() as int]));
        assert(cp.is_prefix_of(k));
        assert(paths.contains_key(cp));
        assert(nodes[paths[p]].children@.contains(paths[cp]));
    }
}

/// After `insert` of a non-empty key, a lookup of the key finds the value,
/// and every shorter non-empty beginning of the key is found, with more
/// stored after it.
pub proof fn law_get_after_insert<T>(trie: Trie<T>, key: Seq<char>, value: T, p: Seq<char>)
    requires
        trie.wf(),
        key.len() > 0,
    ensures
        is_key_prefix(trie.view().insert(key, value), key),
        entry_opt(trie.view().insert(key, value), key) == Some(value),
        0 < p.len() < key.len() && p.is_prefix_of(key) ==> is_key_prefix(
            trie.view().insert(key, value),
            p,
        ) && is_continued(trie.view().insert(key, value), p),
{
    let after = trie.view().insert(key, value);
    assert(after.contains_key(key) && key.is_prefix_of(key));
    if 0 < p.len() < key.len() && p.is_prefix_of(key) {
        assert(after.contains_key(key) && p.is_prefix_of(key) && key.len() > p.len());
    }
}

/// An `insert` leaves the lookups of every other string as they were, but
/// for the beginnings of the inserted key, which are now found.
pub proof fn law_insert_keeps_other_lookups<T>(trie: Trie<T>, key: Seq<char>, value: T, q: Seq<char>)
    requires
        trie.wf(),
        key.len() > 0,
        q != key,
    ensures
        entry_opt(trie.view().insert(key, value), q) == entry_opt(trie.view(), q),
        is_key_prefix(trie.view().insert(key, value), q) == (is_key_prefix(trie.view(), q)
            || q.is_prefix_of(key)),
        is_continued(trie.view().insert(key, value), q) == (is_continued(trie.view(), q) || (
        q.is_prefix_of(key) && key.len() > q.len())),
{
    let before = trie.view();
    let after = before.insert(key, value);
    if is_key_prefix(before, q) {
        let k = choose|k: Seq<char>| #[trigger] before.contains_key(k) && q.is_prefix_of(k);
        assert(after.contains_key(k));
    }
    if q.is_prefix_of(key) {
        assert(after.contains_key(key));
    }
    if is_key_prefix(after, q) {
        let k = choose|k: Seq<char>| #[trigger] after.contains_key(k) && q.is_prefix_of(k);
        if k != key {
            assert(before.contains_key(k));
        }
    }
    if is_continued(before, q) {
        let k = choose|k: Seq<char>|
            #[trigger] before.contains_key(k) && q.is_prefix_of(k) && k.len() > q.len();
        assert(after.contains_key(k));
    }
    if is_continued(after, q) {
        let k = choose|k: Seq<char>|
            #[trigger] after.contains_key(k) && q.is_prefix_of(k) && k.len() > q.len();
        if k != key {
            assert(before.contains_key(k));
        }
    }
}

/// A second `insert` under the same key replaces the value of the first.
pub proof fn law_insert_overwrites<T>(trie: Trie<T>, key: Seq<char>, first: T, second: T)
    requires
        trie.wf(),
    ensures
        trie.view().insert(key, first).insert(key, second) == trie.view().insert(key, second),
{
    assert(trie.view().insert(key, first).insert(key, second) =~= trie.view().insert(key, second));
}

} // verus!
