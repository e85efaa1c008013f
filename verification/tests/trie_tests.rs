use glyph::editor_layer::{KeymapAction, KeymapResult};
use glyph::slab::{Slab, SlotStatus};
use glyph::trie::{Trie, TrieQuery};

#[test]
fn test_basic_insert_and_get() {
    let mut trie = Trie::new();
    trie.insert("foo", 1);
    trie.insert("bar", 2);

    assert_eq!(trie.get("foo").unwrap(), TrieQuery::new(Some(&1), false));
    assert_eq!(trie.get("f").unwrap(), TrieQuery::new(None, true));
    assert_eq!(trie.get("x"), None);
}

#[test]
fn test_overlapping_prefixes() {
    let mut trie = Trie::new();
    trie.insert("cat", 1);
    trie.insert("car", 2);
    trie.insert("card", 3);
    trie.insert("care", 4);

    assert_eq!(trie.get("cat").unwrap(), TrieQuery::new(Some(&1), false));
    assert_eq!(trie.get("car").unwrap(), TrieQuery::new(Some(&2), true));
    assert_eq!(trie.get("card").unwrap(), TrieQuery::new(Some(&3), false));
    assert_eq!(trie.get("care").unwrap(), TrieQuery::new(Some(&4), false));
    assert_eq!(trie.get("ca").unwrap(), TrieQuery::new(None, true));
    assert_eq!(trie.get("cards"), None);
}

#[test]
fn test_empty_string() {
    let mut trie = Trie::new();
    trie.insert("", 42);
    assert_eq!(trie.get(""), None);
}

#[test]
fn test_overwrite_value() {
    let mut trie = Trie::new();
    trie.insert("key", 1);
    trie.insert("key", 2);

    assert_eq!(trie.get("key").unwrap(), TrieQuery::new(Some(&2), false));
}

#[test]
fn trie_unicode_keys_are_per_char() {
    let mut trie = Trie::new();
    trie.insert("<c-é>", 7);
    assert_eq!(trie.get("<c-").unwrap(), TrieQuery::new(None, true));
    assert_eq!(trie.get("<c-é>").unwrap(), TrieQuery::new(Some(&7), false));
    assert_eq!(trie.get("<c-e"), None);
}

#[test]
fn test_insert() {
    let mut slab = Slab::new();
    let a = slab.insert(1);
    let b = slab.insert(2);
    let c = slab.insert(3);

    assert_eq!(slab.get(a), Some(&1));
    assert_eq!(slab.get(b), Some(&2));
    assert_eq!(slab.get(c), Some(&3));
}

#[test]
fn test_remove() {
    let mut slab = Slab::new();
    let a = slab.insert(1);
    let b = slab.insert(2);
    let c = slab.insert(3);

    assert_eq!(slab.get(a), Some(&1));
    assert_eq!(slab.get(b), Some(&2));
    assert_eq!(slab.get(c), Some(&3));

    slab.remove(a);
    assert_eq!(slab.get(a), None);
    assert_eq!(slab.get(b), Some(&2));
    assert_eq!(slab.get(c), Some(&3));
    assert_eq!(slab.next_slot(), Some(a));
    assert_eq!(*slab.slot_status(a).unwrap(), SlotStatus::Empty(None));

    slab.remove(b);
    assert_eq!(slab.get(a), None);
    assert_eq!(slab.get(b), None);
    assert_eq!(slab.get(c), Some(&3));
    assert_eq!(slab.next_slot(), Some(b));
    assert_eq!(*slab.slot_status(b).unwrap(), SlotStatus::Empty(Some(a)));

    slab.remove(c);
    assert_eq!(slab.get(a), None);
    assert_eq!(slab.get(b), None);
    assert_eq!(slab.get(c), None);
    assert_eq!(slab.next_slot(), Some(c));
    assert_eq!(*slab.slot_status(c).unwrap(), SlotStatus::Empty(Some(b)));
}

#[test]
fn test_add_take_empty_slots() {
    let mut slab = Slab::new();
    slab.insert(1);
    let b = slab.insert(2);
    slab.insert(3);

    slab.remove(b);

    let d = slab.insert(4);
    assert_eq!(d, b);
    assert_eq!(slab.next_slot(), None);
    assert_eq!(*slab.slot_status(b).unwrap(), SlotStatus::Occupied(4));
    assert_eq!(*slab.slot_status(d).unwrap(), SlotStatus::Occupied(4));
}

#[test]
fn slab_iter_lists_occupied_in_key_order() {
    let mut slab = Slab::new();
    let a = slab.insert(10);
    let b = slab.insert(20);
    let c = slab.insert(30);
    slab.remove(b);
    assert_eq!(slab.iter(), vec![(a, &10), (c, &30)]);
    assert_eq!(slab.iter_values(), vec![&10, &30]);
    *slab.index_mut(c) = 31;
    assert_eq!(*slab.index(c), 31);
    if let Some(v) = slab.get_mut(a) {
        *v = 11;
    }
    assert_eq!(slab.get(a), Some(&11));
    assert_eq!(slab.get_mut(b), None);
}

#[test]
fn keymap_result_from_queries() {
    let mut trie = Trie::new();
    trie.insert("gg", 1);
    trie.insert("g", 2);
    trie.insert("x", 3);
    let waiting = KeymapResult::from_query_result(trie.get("g").unwrap());
    assert_eq!(waiting.action, KeymapAction::Continue);
    assert_eq!(waiting.keymap, Some(&2));
    let run = KeymapResult::from_query_result(trie.get("x").unwrap());
    assert_eq!(run.action, KeymapAction::Execute);
    assert_eq!(run.keymap, Some(&3));
    let none = KeymapResult::from_query_result(TrieQuery::<i32>::new(None, false));
    assert_eq!(none.action, KeymapAction::Clear);
    assert_eq!(none.keymap, None::<&i32>);
}

#[test]
fn slab_reuses_most_recently_freed_first() {
    let mut slab = Slab::new();
    let a = slab.insert('a');
    let b = slab.insert('b');
    let c = slab.insert('c');
    slab.remove(a);
    slab.remove(c);
    assert_eq!(slab.insert('x'), c);
    assert_eq!(slab.insert('y'), a);
    assert_eq!(slab.insert('z'), 3);
    assert_eq!(slab.get(b), Some(&'b'));
}

#[test]
fn slab_fresh_inserts_count_up_and_iter_lists_occupied_keys() {
    let mut slab = Slab::new();
    assert_eq!(slab.insert('a'), 0);
    assert_eq!(slab.insert('b'), 1);
    assert_eq!(slab.insert('c'), 2);
    assert_eq!(slab.insert('d'), 3);
    slab.remove(1);
    slab.remove(3);
    let keys: Vec<usize> = slab.iter().into_iter().map(|(k, _)| k).collect();
    assert_eq!(keys, vec![0, 2]);
    assert_eq!(*slab.slot_status(3).unwrap(), SlotStatus::Empty(Some(1)));
    assert_eq!(*slab.slot_status(1).unwrap(), SlotStatus::Empty(None));
    assert_eq!(slab.insert('e'), 3);
    assert_eq!(*slab.slot_status(3).unwrap(), SlotStatus::Occupied('e'));
}
