//! A slab allocator: a vector of slots that hands out stable keys and keeps
//! vacated slots on an intrusive free list so that they are reused, most
//! recently freed first.
use vstd::prelude::*;

verus! {

/// Keys handed out by a [`Slab`].
pub type SlotKey = usize;

/// The state of one slot: either it holds a value, or it is free and links to
/// the next free slot.
#[derive(Debug, PartialEq, Eq)]
pub enum SlotStatus<T> {
    Occupied(T),
    Empty(Option<SlotKey>),
}

/// A vector of slots with a free list threaded through the empty ones.
pub struct Slab<T> {
    items: Vec<SlotStatus<T>>,
    next_slot: Option<SlotKey>,
    /// The free list, head first.
    free: Ghost<Seq<SlotKey>>,
}

/// The link that the free slot at position `i` of `free` holds.
pub open spec fn free_link(free: Seq<SlotKey>, i: int) -> Option<SlotKey> {
    if i + 1 < free.len() {
        Some(free[i + 1])
    } else {
        None
    }
}

impl<T> Slab<T> {
    /// The slots, in key order.
    pub closed spec fn slots(self) -> Seq<SlotStatus<T>> {
        self.items@
    }

    /// The free slots, in the order in which `insert` will reuse them.
    pub closed spec fn free_list(self) -> Seq<SlotKey> {
        self.free@
    }

    /// The head of the free list, as the slab stores it.
    pub closed spec fn spec_next_slot(self) -> Option<SlotKey> {
        self.next_slot
    }

    /// The values held, by key.
    pub open spec fn view(self) -> Map<SlotKey, T> {
        Map::new(
            |k: SlotKey| k < self.slots().len() && self.slots()[k as int] is Occupied,
            |k: SlotKey| self.slots()[k as int]->Occupied_0,
        )
    }

    /// The head of the free list: the most recently freed slot.
    pub open spec fn free_head(self) -> Option<SlotKey> {
        if self.free_list().len() > 0 {
            Some(self.free_list()[0])
        } else {
            None
        }
    }

    /// The key that the next `insert` hands out.
    pub open spec fn next_key(self) -> SlotKey {
        if self.free_list().len() > 0 {
            self.free_list()[0]
        } else {
            self.slots().len() as SlotKey
        }
    }

    /// Well-formedness: the free list threads exactly the empty slots, each
    /// once, and `next_slot` is its head.
    pub closed spec fn wf(self) -> bool {
        let free = self.free@;
        &&& free.no_duplicates()
        &&& forall|i: int| 0 <= i < free.len() ==> #[trigger] free[i] < self.items@.len()
        &&& self.next_slot == (if free.len() > 0 { Some(free[0]) } else { None::<SlotKey> })
        &&& forall|i: int|
            0 <= i < free.len() ==> self.items@[#[trigger] free[i] as int] == SlotStatus::<T>::Empty(
                free_link(free, i),
            )
        &&& forall|k: int|
            0 <= k < self.items@.len() && #[trigger] self.items@[k] is Empty ==> free.contains(
                k as SlotKey,
            )
    }

    proof fn lemma_empty_iff_free(self, k: SlotKey)
        requires
            self.wf(),
            k < self.slots().len(),
        ensures
            self.slots()[k as int] is Empty <==> self.free_list().contains(k),
    {
        if self.free_list().contains(k) {
            let i = choose|i: int| 0 <= i < self.free@.len() && self.free@[i] == k;
            assert(self.items@[self.free@[i] as int] is Empty);
        }
    }

    /// An empty slab.
    pub fn new() -> (slab: Self)
        ensures
            slab.wf(),
            slab.slots().len() == 0,
            slab.free_list().len() == 0,
            slab.view() == Map::<SlotKey, T>::empty(),
    {
        let slab = Slab { items: Vec::new(), next_slot: None, free: Ghost(Seq::empty()) };
        assert(slab.view() =~= Map::<SlotKey, T>::empty());
        slab
    }

    /// The head of the free list.
    pub fn next_slot(&self) -> (r: Option<SlotKey>)
        requires
            self.wf(),
        ensures
            r == self.free_head(),
    {
        self.next_slot
    }

    /// The status of the slot at `index`, if there is such a slot.
    pub fn slot_status(&self, index: SlotKey) -> (r: Option<&SlotStatus<T>>)
        requires
            self.wf(),
        ensures
            r == (if index < self.slots().len() {
                Some(&self.slots()[index as int])
            } else {
                None::<&SlotStatus<T>>
            }),
    {
        if index < self.items.len() {
            Some(&self.items[index])
        } else {
            None
        }
    }

    /// Stores `value` and returns its key: the most recently freed slot when
    /// there is one, else a new slot at the end.
    pub fn insert(&mut self, value: T) -> (key: SlotKey)
        requires
            old(self).wf(),
        ensures
            final(self).wf(),
            key == old(self).next_key(),
            !old(self).view().contains_key(key),
            final(self).view() == old(self).view().insert(key, value),
            old(self).free_list().len() > 0 ==> final(self).free_list() == old(
                self,
            ).free_list().drop_first() && final(self).slots().len() == old(self).slots().len(),
            old(self).free_list().len() == 0 ==> final(self).free_list() == old(self).free_list()
                && final(self).slots().len() == old(self).slots().len() + 1,
            insert_step(*old(self), *final(self), key),
            final(self).slots() == (if old(self).free_list().len() > 0 {
                old(self).slots().update(key as int, SlotStatus::Occupied(value))
            } else {
                old(self).slots().push(SlotStatus::Occupied(value))
            }),
    {
        let ghost old_free = self.free@;
        let ghost old_items = self.items@;
        match self.next_slot.take() {
            Some(index) => {
                assert(old_items[old_free[0] as int] is Empty);
                let next = match &self.items[index] {
                    SlotStatus::Empty(next) => *next,
                    SlotStatus::Occupied(_) => None,
                };
                self.next_slot = next;
                let mut item = SlotStatus::Occupied(value);
                std::mem::swap(&mut self.items[index], &mut item);
                proof {
                    assert(self.items@.len() == self.items.len());
                    self.free@ = old_free.drop_first();
                    assert forall|i: int| 0 <= i < self.free@.len() implies self.items@[
                        #[trigger] self.free@[i] as int
                    ] == SlotStatus::<T>::Empty(free_link(self.free@, i)) by {
                        assert(self.free@[i] == old_free[i + 1]);
                        assert(old_free[i + 1] != old_free[0]);
                        assert(old_items[old_free[i + 1] as int] == SlotStatus::<T>::Empty(
                            free_link(old_free, i + 1),
                        ));
                    }
                    assert forall|k: int|
                        0 <= k < self.items@.len() && #[trigger] self.items@[k]
                            is Empty implies self.free@.contains(k as SlotKey) by {
                        assert(k != index as int);
                        assert(old_items[k] is Empty);
                        assert(old_free.contains(k as SlotKey));
                        let j = choose|j: int| 0 <= j < old_free.len() && old_free[j] == k;
                        assert(j != 0);
                        assert(self.free@[j - 1] == k);
                    }
                    assert(self.view() =~= old(self).view().insert(index, value));
                }
                index
            },
            None => {
                let index = self.items.len();
                self.items.push(SlotStatus::Occupied(value));
                proof {
                    assert forall|k: int|
                        0 <= k < self.items@.len() && #[trigger] self.items@[k]
                            is Empty implies self.free@.contains(k as SlotKey) by {
                        assert(old_items[k] is Empty);
                    }
                    assert(self.view() =~= old(self).view().insert(index, value));
                }
                index
            },
        }
    }

    /// The value stored under `index`, if any.
    pub fn get(&self, index: SlotKey) -> (r: Option<&T>)
        requires
            self.wf(),
        ensures
            r == (if self.view().contains_key(index) {
                Some(&self.view()[index])
            } else {
                None::<&T>
            }),
    {
        if index >= self.items.len() {
            return None;
        }
        match &self.items[index] {
            SlotStatus::Occupied(value) => Some(value),
            SlotStatus::Empty(_) => None,
        }
    }

    /// A mutable reference to the value stored under `index`, if any.
    pub fn get_mut(&mut self, index: SlotKey) -> (r: Option<&mut T>)
        requires
            old(self).wf(),
        ensures
            final(self).wf(),
            old(self).view().contains_key(index) ==> r is Some && *r->0 == old(self).view()[index]
                && final(self).view() == old(self).view().insert(index, *final(r->0)),
            !old(self).view().contains_key(index) ==> r is None && final(self).view() == old(
                self,
            ).view(),
            final(self).free_list() == old(self).free_list(),
            final(self).slots().len() == old(self).slots().len(),
    {
        if index >= self.items.len() {
            assert(self.view() =~= old(self).view());
            return None;
        }
        let ghost old_self = *self;
        proof {
            if old_self.slots()[index as int] is Empty {
                assert(old_self.view() =~= old(self).view());
            }
        }
        match &mut self.items[index] {
            SlotStatus::Occupied(value) => Some(value),
            SlotStatus::Empty(_) => None,
        }
    }

    /// The value stored under `index`.
    pub fn index(&self, index: SlotKey) -> (r: &T)
        requires
            self.wf(),
            self.view().contains_key(index),
        ensures
            *r == self.view()[index],
    {
        match &self.items[index] {
            SlotStatus::Occupied(value) => value,
            SlotStatus::Empty(_) => vstd::pervasive::unreached(),
        }
    }

    /// A mutable reference to the value stored under `index`.
    pub fn index_mut(&mut self, index: SlotKey) -> (r: &mut T)
        requires
            old(self).wf(),
            old(self).view().contains_key(index),
        ensures
            final(self).wf(),
            *r == old(self).view()[index],
            final(self).view() == old(self).view().insert(index, *final(r)),
            final(self).free_list() == old(self).free_list(),
            final(self).slots().len() == old(self).slots().len(),
    {
        match self.get_mut(index) {
            Some(value) => value,
            None => vstd::pervasive::unreached(),
        }
    }

    /// Takes the value out of `index` and puts the slot at the head of the
    /// free list.
    pub fn remove(&mut self, index: SlotKey) -> (value: T)
        requires
            old(self).wf(),
            old(self).view().contains_key(index),
        ensures
            final(self).wf(),
            value == old(self).view()[index],
            final(self).view() == old(self).view().remove(index),
            final(self).free_list() == seq![index] + old(self).free_list(),
            final(self).slots() == old(self).slots().update(
                index as int,
                SlotStatus::Empty(old(self).free_head()),
            ),
    {
        let ghost old_free = self.free@;
        let ghost old_items = self.items@;
        proof {
            old(self).lemma_empty_iff_free(index);
        }
        let mut entry = SlotStatus::Empty(self.next_slot.take());
        self.next_slot = Some(index);
        std::mem::swap(&mut self.items[index], &mut entry);
        let taken = entry;
        proof {
            assert(self.items@.len() == self.items.len());
            self.free@ = seq![index] + old_free;
            assert forall|i: int| 0 <= i < self.free@.len() implies self.items@[
                #[trigger] self.free@[i] as int
            ] == SlotStatus::<T>::Empty(free_link(self.free@, i)) by {
                if i > 0 {
                    assert(self.free@[i] == old_free[i - 1]);
                    assert(old_items[old_free[i - 1] as int] == SlotStatus::<T>::Empty(
                        free_link(old_free, i - 1),
                    ));
                }
            }
            assert forall|k: int|
                0 <= k < self.items@.len() && #[trigger] self.items@[k] is Empty implies self.free@.contains(
                k as SlotKey,
            ) by {
                if k != index {
                    assert(old_items[k] is Empty);
                    assert(old_free.contains(k as SlotKey));
                    let j = choose|j: int| 0 <= j < old_free.len() && old_free[j] == k;
                    assert(self.free@[j + 1] == k);
                } else {
                    assert(self.free@[0] == k);
                }
            }
            assert(self.view() =~= old(self).view().remove(index));
        }
        match taken {
            SlotStatus::Occupied(value) => value,
            SlotStatus::Empty(_) => vstd::pervasive::unreached(),
        }
    }

    /// References to the stored values, in key order.
    pub fn iter_values(&self) -> (r: Vec<&T>)
        requires
            self.wf(),
        ensures
            r@.len() == self.occupied_keys(self.slots().len() as int).len(),
            forall|i: int|
                0 <= i < r@.len() ==> *r@[i] == self.view()[self.occupied_keys(
                    self.slots().len() as int,
                )[i]],
    {
        let mut out: Vec<&T> = Vec::new();
        let mut i: usize = 0;
        while i < self.items.len()
            invariant
                self.wf(),
                i <= self.items@.len(),
                out@.len() == self.occupied_keys(i as int).len(),
                forall|j: int|
                    0 <= j < out@.len() ==> *out@[j] == self.view()[self.occupied_keys(
                        i as int,
                    )[j]],
            decreases self.items@.len() - i,
        {
            proof {
                self.lemma_occupied_keys_bounded(i as int);
            }
            match &self.items[i] {
                SlotStatus::Occupied(value) => {
                    out.push(value);
                },
                SlotStatus::Empty(_) => {},
            }
            i = i + 1;
        }
        out
    }

    /// The keys of the occupied slots below `n`, in increasing order.
    pub open spec fn occupied_keys(self, n: int) -> Seq<SlotKey>
        decreases n,
    {
        if n <= 0 {
            Seq::empty()
        } else if self.view().contains_key((n - 1) as SlotKey) {
            self.occupied_keys(n - 1).push((n - 1) as SlotKey)
        } else {
            self.occupied_keys(n - 1)
        }
    }

    proof fn lemma_occupied_keys_bounded(self, n: int)
        requires
            0 <= n <= self.slots().len(),
        ensures
            forall|j: int|
                0 <= j < self.occupied_keys(n).len() ==> {
                    let k = #[trigger] self.occupied_keys(n)[j];
                    k < n && self.view().contains_key(k)
                },
        decreases n,
    {
        if n > 0 {
            self.lemma_occupied_keys_bounded(n - 1);
            let prev = self.occupied_keys(n - 1);
            assert forall|j: int| 0 <= j < self.occupied_keys(n).len() implies {
                let k = #[trigger] self.occupied_keys(n)[j];
                k < n && self.view().contains_key(k)
            } by {
                if j < prev.len() {
                    assert(self.occupied_keys(n)[j] == prev[j]);
                }
            }
        }
    }

    proof fn lemma_occupied_keys_exact(self, n: int)
        requires
            0 <= n <= self.slots().len(),
        ensures
            forall|i: int, j: int|
                0 <= i < j < self.occupied_keys(n).len() ==> #[trigger] self.occupied_keys(n)[i]
                    < #[trigger] self.occupied_keys(n)[j],
            forall|k: SlotKey|
                #[trigger] self.occupied_keys(n).contains(k) <==> (k < n && self.view().contains_key(
                    k,
                )),
        decreases n,
    {
        if n > 0 {
            self.lemma_occupied_keys_exact(n - 1);
            self.lemma_occupied_keys_bounded(n - 1);
            let prev = self.occupied_keys(n - 1);
            let cur = self.occupied_keys(n);
            assert(self.items.len() == self.slots().len());
            let last = (n - 1) as SlotKey;
            assert(last as int == n - 1);
            if self.view().contains_key(last) {
                assert(cur == prev.push(last));
                assert forall|i: int, j: int| 0 <= i < j < cur.len() implies #[trigger] cur[i]
                    < #[trigger] cur[j] by {
                    if j < prev.len() {
                        assert(cur[i] == prev[i] && cur[j] == prev[j]);
                    } else {
                        assert(cur[i] == prev[i]);
                        assert(cur[j] == last);
                        assert(prev[i] < n - 1);
                    }
                }
                assert forall|k: SlotKey| #[trigger] cur.contains(k) <==> (k < n
                    && self.view().contains_key(k)) by {
                    if k == last {
                        assert(cur[prev.len() as int] == k);
                    } else if prev.contains(k) {
                        let j = choose|j: int| 0 <= j < prev.len() && prev[j] == k;
                        assert(cur[j] == k);
                    } else if cur.contains(k) {
                        let j = choose|j: int| 0 <= j < cur.len() && cur[j] == k;
                        if j < prev.len() {
                            assert(prev[j] == k);
                        }
                    }
                }
            }
        }
    }

    /// The stored keys with references to their values, in key order.
    pub fn iter(&self) -> (r: Vec<(SlotKey, &T)>)
        requires
            self.wf(),
        ensures
            r@.len() == self.occupied_keys(self.slots().len() as int).len(),
            forall|i: int|
                0 <= i < r@.len() ==> r@[i].0 == self.occupied_keys(self.slots().len() as int)[i]
                    && *r@[i].1 == self.view()[r@[i].0],
            forall|i: int, j: int| 0 <= i < j < r@.len() ==> #[trigger] r@[i].0 < #[trigger] r@[j].0,
            forall|k: SlotKey|
                self.view().contains_key(k) <==> exists|i: int|
                    0 <= i < r@.len() && #[trigger] r@[i].0 == k,
    {
        let mut out: Vec<(SlotKey, &T)> = Vec::new();
        let mut i: usize = 0;
        while i < self.items.len()
            invariant
                self.wf(),
                i <= self.items@.len(),
                out@.len() == self.occupied_keys(i as int).len(),
                forall|j: int|
                    0 <= j < out@.len() ==> out@[j].0 == self.occupied_keys(i as int)[j]
                        && *out@[j].1 == self.view()[out@[j].0],
            decreases self.items@.len() - i,
        {
            proof {
                self.lemma_occupied_keys_bounded(i as int);
            }
            match &self.items[i] {
                SlotStatus::Occupied(value) => {
                    out.push((i, value));
                },
                SlotStatus::Empty(_) => {},
            }
            i = i + 1;
        }
        proof {
            let n = self.slots().len() as int;
            let keys = self.occupied_keys(n);
            self.lemma_occupied_keys_exact(n);
            assert forall|k: SlotKey| self.view().contains_key(k) <==> exists|i: int|
                0 <= i < out@.len() && #[trigger] out@[i].0 == k by {
                if self.view().contains_key(k) {
                    assert(keys.contains(k));
                    let i = choose|i: int| 0 <= i < keys.len() && keys[i] == k;
                    assert(out@[i].0 == k);
                }
                if exists|i: int| 0 <= i < out@.len() && #[trigger] out@[i].0 == k {
                    let i = choose|i: int| 0 <= i < out@.len() && #[trigger] out@[i].0 == k;
                    assert(keys[i] == k);
                    assert(keys.contains(k));
                }
            }
            assert forall|i: int, j: int| 0 <= i < j < out@.len() implies #[trigger] out@[i].0
                < #[trigger] out@[j].0 by {
                assert(keys[i] < keys[j]);
            }
        }
        out
    }
}

/// The key that `insert` hands out is never one that holds a value: an
/// insert never overwrites.
pub proof fn law_next_key_is_vacant<T>(slab: Slab<T>)
    requires
        slab.wf(),
    ensures
        !slab.view().contains_key(slab.next_key()),
{
    let free = slab.free_list();
    assert(slab.items.len() == slab.slots().len());
    if free.len() > 0 {
        assert(free[0] < slab.slots().len());
        assert(slab.slots()[free[0] as int] == SlotStatus::<T>::Empty(free_link(free, 0)));
    }
}

/// Removing the key that an `insert` handed out gives back the slab's
/// contents from before the insert.
pub proof fn law_remove_undoes_insert<T>(slab: Slab<T>, value: T)
    requires
        slab.wf(),
    ensures
        slab.view().insert(slab.next_key(), value).remove(slab.next_key()) == slab.view(),
{
    law_next_key_is_vacant(slab);
    assert(slab.view().insert(slab.next_key(), value).remove(slab.next_key()) =~= slab.view());
}

/// After a `remove`, the next `insert` reuses the slot that was just
/// vacated: freed slots are reused most recently freed first.
pub proof fn law_insert_reuses_removed<T>(before: Slab<T>, after: Slab<T>, key: SlotKey)
    requires
        before.wf(),
        after.wf(),
        after.free_list() == seq![key] + before.free_list(),
    ensures
        after.next_key() == key,
{
}

/// Keys that an `insert` does not hand out keep their values: what `get`
/// gives for them is unchanged.
pub proof fn law_insert_keeps_others<T>(slab: Slab<T>, value: T, other: SlotKey)
    requires
        slab.wf(),
        other != slab.next_key(),
    ensures
        slab.view().insert(slab.next_key(), value).contains_key(other) == slab.view().contains_key(
            other,
        ),
        slab.view().contains_key(other) ==> slab.view().insert(slab.next_key(), value)[other]
            == slab.view()[other],
{
}

/// A well-formed slab threads exactly its empty slots on the free list, each
/// once: each free slot links to the one freed before it, and the last to
/// none.
pub proof fn law_free_list_threads_empty_slots<T>(slab: Slab<T>)
    requires
        slab.wf(),
    ensures
        slab.free_list().no_duplicates(),
        forall|i: int|
            0 <= i < slab.free_list().len() ==> #[trigger] slab.free_list()[i] < slab.slots().len()
                && slab.slots()[slab.free_list()[i] as int] == SlotStatus::<T>::Empty(
                free_link(slab.free_list(), i),
            ),
        forall|k: SlotKey|
            k < slab.slots().len() ==> (#[trigger] slab.slots()[k as int] is Empty
                <==> slab.free_list().contains(k)),
{
    assert forall|k: SlotKey| k < slab.slots().len() implies (#[trigger] slab.slots()[k as int]
        is Empty <==> slab.free_list().contains(k)) by {
        slab.lemma_empty_iff_free(k);
    }
}

/// `iter` lists exactly the keys that hold a value, each once, in strictly
/// increasing order.
pub proof fn law_iter_lists_occupied_keys_in_order<T>(slab: Slab<T>)
    requires
        slab.wf(),
    ensures
        ({
            let keys = slab.occupied_keys(slab.slots().len() as int);
            &&& forall|i: int, j: int| 0 <= i < j < keys.len() ==> #[trigger] keys[i] < #[trigger] keys[j]
            &&& forall|k: SlotKey| #[trigger] keys.contains(k) <==> slab.view().contains_key(k)
        }),
{
    slab.lemma_occupied_keys_exact(slab.slots().len() as int);
}

/// What an `insert` that handed out `key` made of `before`, as far as its
/// keys and free slots go.
pub open spec fn insert_step<T>(before: Slab<T>, after: Slab<T>, key: SlotKey) -> bool {
    &&& key == before.next_key()
    &&& before.free_list().len() > 0 ==> after.free_list() == before.free_list().drop_first()
        && after.slots().len() == before.slots().len()
    &&& before.free_list().len() == 0 ==> after.free_list() == before.free_list()
        && after.slots().len() == before.slots().len() + 1
}

proof fn lemma_fresh_inserts<T>(states: Seq<Slab<T>>, keys: Seq<SlotKey>, n: int)
    requires
        states.len() == keys.len() + 1,
        0 <= n <= keys.len(),
        states[0].slots().len() == 0,
        states[0].free_list().len() == 0,
        forall|i: int|
            0 <= i < keys.len() ==> insert_step(states[i], states[i + 1], #[trigger] keys[i]),
    ensures
        states[n].free_list().len() == 0,
        states[n].slots().len() == n,
    decreases n,
{
    if n > 0 {
        lemma_fresh_inserts(states, keys, n - 1);
        assert(insert_step(states[n - 1], states[n], keys[n - 1]));
    }
}

/// On a new slab, inserts with no remove between them hand out the keys
/// 0, 1, 2, ... in turn.
pub proof fn law_fresh_inserts_count_up<T>(states: Seq<Slab<T>>, keys: Seq<SlotKey>)
    requires
        states.len() == keys.len() + 1,
        states[0].slots().len() == 0,
        states[0].free_list().len() == 0,
        forall|i: int|
            0 <= i < keys.len() ==> insert_step(states[i], states[i + 1], #[trigger] keys[i]),
    ensures
        forall|i: int| 0 <= i < keys.len() ==> #[trigger] keys[i] == i,
{
    assert forall|i: int| 0 <= i < keys.len() implies #[trigger] keys[i] == i by {
        lemma_fresh_inserts(states, keys, i);
        assert(insert_step(states[i], states[i + 1], keys[i]));
        assert(states[i].items.len() == states[i].slots().len());
    }
}

impl<T> Default for Slab<T> {
    fn default() -> (slab: Self)
        ensures
            slab.wf(),
            slab.slots().len() == 0,
            slab.free_list().len() == 0,
            slab.view() == Map::<SlotKey, T>::empty(),
    {
        Self::new()
    }
}

} // verus!
