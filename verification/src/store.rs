//! The notification store: an ordered, keyed collection with stable keys.
//!
//! Entries form an intrusive doubly linked order over the live key space:
//! each entry carries the keys (never addresses) of its two neighbours.
//! Retired keys go onto a free list and are reissued in LIFO order; a
//! monotonically increasing counter supplies fresh keys when the free list
//! is empty. When the counter is exhausted and the free list is empty, no
//! key is issued at all (the reserved key 0 is returned instead), so no two
//! live entries can ever share a key.

use vstd::prelude::*;

verus! {

use std::collections::HashMap;

broadcast use vstd::std_specs::hash::group_hash_axioms;

/// One entry of the store: a value together with the keys of its two
/// neighbours in the list order.
pub(crate) struct Node<T> {
    pub(crate) prev: Option<u32>,
    pub(crate) next: Option<u32>,
    pub(crate) value: T,
}

/// A structural violation detected while unlinking an entry. Under the
/// store's well-formedness invariant none of these can occur, but removal
/// reports them as distinguishable errors rather than aborting, since a
/// removal happens on behalf of a client request already in flight.
#[derive(Debug, PartialEq, Eq)]
pub enum StoreError {
    /// The entry's links contradict the recorded head or tail.
    Malformed,
    /// The entry names a predecessor that is not present.
    PrevNodeNotFound,
    /// The entry names a successor that is not present.
    NextNodeNotFound,
}

/// An ordered, keyed collection of values with stable keys.
///
/// Keys are `u32` values; 0 is reserved and never held by a live entry.
/// The abstract state is the sequence of live keys in head-to-tail order
/// (`key_seq`) together with the value stored under each key (`val_seq`),
/// the stack of retired keys (`free_list`) and the fresh-key counter
/// (`key_counter`).
pub struct Store<T> {
    items: HashMap<u32, Node<T>>,
    free_ids: Vec<u32>,
    id: u32,
    head: Option<u32>,
    tail: Option<u32>,
    /// Advisory position hint: a `(position, key)` pair pointing at a live
    /// entry. It is reseeded on insertion and consulted read-only by
    /// lookups; staleness is prevented by dropping it on removal.
    cache: Option<(usize, u32)>,
    order: Ghost<Seq<u32>>,
}

/// Follow a link map from a starting key, collecting the keys visited.
/// The walk stops at a `None` link, at a key with no entry, or when the
/// fuel runs out; fuel bounds the number of steps, so the walk is well
/// defined even on a cyclic link map.
pub open spec fn walk_links(links: Map<u32, Option<u32>>, cur: Option<u32>, fuel: nat) -> Seq<u32>
    decreases fuel,
{
    if fuel == 0 {
        Seq::empty()
    } else {
        match cur {
            None => Seq::empty(),
            Some(k) => {
                if links.dom().contains(k) {
                    seq![k] + walk_links(links, links[k], (fuel - 1) as nat)
                } else {
                    Seq::empty()
                }
            },
        }
    }
}

/// Membership in a sequence extended at the back.
proof fn lemma_push_contains(s: Seq<u32>, v: u32)
    ensures
        forall|x: u32| #[trigger] s.push(v).contains(x) <==> (s.contains(x) || x == v),
{
    assert forall|x: u32| #[trigger] s.push(v).contains(x) implies (s.contains(x) || x == v) by {
        let i = choose|i: int| 0 <= i < s.push(v).len() && s.push(v)[i] == x;
        if i < s.len() {
            assert(s[i] == x);
        }
    }
    assert forall|x: u32| (s.contains(x) || x == v) implies #[trigger] s.push(v).contains(x) by {
        if s.contains(x) {
            let i = choose|i: int| 0 <= i < s.len() && s[i] == x;
            assert(s.push(v)[i] == x);
        } else {
            assert(s.push(v)[s.len() as int] == x);
        }
    }
}

/// Membership in a sequence extended at the front.
proof fn lemma_prepend_contains(s: Seq<u32>, v: u32)
    ensures
        forall|x: u32| #[trigger] (seq![v] + s).contains(x) <==> (s.contains(x) || x == v),
{
    assert forall|x: u32| #[trigger] (seq![v] + s).contains(x) implies (s.contains(x) || x == v) by {
        let i = choose|i: int| 0 <= i < (seq![v] + s).len() && (seq![v] + s)[i] == x;
        if i > 0 {
            assert(s[i - 1] == x);
        }
    }
    assert forall|x: u32| (s.contains(x) || x == v) implies #[trigger] (seq![v] + s).contains(
        x,
    ) by {
        if s.contains(x) {
            let i = choose|i: int| 0 <= i < s.len() && s[i] == x;
            assert((seq![v] + s)[i + 1] == x);
        } else {
            assert((seq![v] + s)[0] == x);
        }
    }
}

/// Membership in a duplicate-free sequence with one element removed.
proof fn lemma_remove_contains(s: Seq<u32>, i: int)
    requires
        s.no_duplicates(),
        0 <= i < s.len(),
    ensures
        s.remove(i).no_duplicates(),
        forall|x: u32| #[trigger] s.remove(i).contains(x) <==> (s.contains(x) && x != s[i]),
{
    s.remove_ensures(i);
    assert forall|x: u32| #[trigger] s.remove(i).contains(x) implies (s.contains(x) && x
        != s[i]) by {
        let j = choose|j: int| 0 <= j < s.remove(i).len() && s.remove(i)[j] == x;
        if j < i {
            assert(s[j] == x);
        } else {
            assert(s[j + 1] == x);
        }
    }
    assert forall|x: u32| (s.contains(x) && x != s[i]) implies #[trigger] s.remove(i).contains(
        x,
    ) by {
        let j = choose|j: int| 0 <= j < s.len() && s[j] == x;
        if j < i {
            assert(s.remove(i)[j] == x);
        } else {
            assert(s.remove(i)[j - 1] == x);
        }
    }
}

impl<T> Store<T> {
    /// The live keys in head-to-tail order.
    pub closed spec fn key_seq(self) -> Seq<u32> {
        self.order@
    }

    /// The stored values in head-to-tail order.
    pub closed spec fn val_seq(self) -> Seq<T> {
        Seq::new(self.order@.len(), |i: int| self.items@[self.order@[i]].value)
    }

    /// The retired keys, most recently retired last.
    pub closed spec fn free_list(self) -> Seq<u32> {
        self.free_ids@
    }

    /// The next never-yet-issued key.
    pub closed spec fn key_counter(self) -> u32 {
        self.id
    }

    /// The key of the first entry, if any.
    pub closed spec fn head_key(self) -> Option<u32> {
        self.head
    }

    /// The key of the last entry, if any.
    pub closed spec fn tail_key(self) -> Option<u32> {
        self.tail
    }

    /// The number of live entries.
    pub open spec fn spec_len(self) -> nat {
        self.key_seq().len()
    }

    /// The key that the next allocation will yield: the top of the free
    /// list if one is retired, else the counter value, else 0 when the
    /// key space is exhausted.
    pub open spec fn spec_next_key(self) -> u32 {
        if self.free_list().len() > 0 {
            self.free_list().last()
        } else if self.key_counter() < u32::MAX {
            self.key_counter()
        } else {
            0u32
        }
    }

    /// Each live key mapped to the key of its successor.
    pub closed spec fn nexts(self) -> Map<u32, Option<u32>> {
        Map::new(
            |k: u32| self.items@.dom().contains(k),
            |k: u32| self.items@[k].next,
        )
    }

    /// Each live key mapped to the key of its predecessor.
    pub closed spec fn prevs(self) -> Map<u32, Option<u32>> {
        Map::new(
            |k: u32| self.items@.dom().contains(k),
            |k: u32| self.items@[k].prev,
        )
    }

    /// The value stored under a live key.
    pub closed spec fn value_of(self, k: u32) -> T {
        self.items@[k].value
    }

    /// Well-formedness: the arena holds exactly the keys of the order
    /// sequence, without duplicates; the links of each entry name its
    /// neighbours in that order; head and tail are its endpoints; every
    /// live or retired key is nonzero and below the counter; retired keys
    /// are distinct and not live; and the position hint, when present,
    /// names a live entry at its true position.
    pub closed spec fn wf(self) -> bool {
        &&& self.order@.no_duplicates()
        &&& (forall|k: u32|
            self.items@.dom().contains(k) <==> #[trigger] self.order@.contains(k))
        &&& (forall|i: int|
            #![trigger self.order@[i]]
            0 <= i < self.order@.len() ==> {
                let k = self.order@[i];
                &&& k != 0
                &&& k < self.id
            })
        &&& (forall|i: int|
            #![trigger self.items@[self.order@[i]]]
            0 <= i < self.order@.len() ==> {
                let k = self.order@[i];
                &&& self.items@[k].prev == (if i == 0 {
                    None::<u32>
                } else {
                    Some(self.order@[i - 1])
                })
                &&& self.items@[k].next == (if i == self.order@.len() - 1 {
                    None::<u32>
                } else {
                    Some(self.order@[i + 1])
                })
            })
        &&& self.head == (if self.order@.len() == 0 {
            None::<u32>
        } else {
            Some(self.order@[0])
        })
        &&& self.tail == (if self.order@.len() == 0 {
            None::<u32>
        } else {
            Some(self.order@[self.order@.len() - 1])
        })
        &&& self.id >= 1
        &&& self.free_ids@.no_duplicates()
        &&& (forall|j: int|
            #![trigger self.free_ids@[j]]
            0 <= j < self.free_ids@.len() ==> {
                let f = self.free_ids@[j];
                &&& f != 0
                &&& f < self.id
                &&& !self.order@.contains(f)
            })
        &&& match self.cache {
            Some((p, k)) => p < self.order@.len() && self.order@[p as int] == k,
            None => true,
        }
    }

    /// The arena holds exactly as many entries as the order names.
    proof fn lemma_len(self)
        requires
            self.wf(),
        ensures
            self.items@.dom().len() == self.order@.len(),
    {
        assert(self.items@.dom() =~= self.order@.to_set());
        self.order@.unique_seq_to_set();
    }

    /// An empty store. The first key issued will be 1.
    pub fn new() -> (s: Self)
        ensures
            s.wf(),
            s.key_seq() == Seq::<u32>::empty(),
            s.val_seq() == Seq::<T>::empty(),
            s.free_list() == Seq::<u32>::empty(),
            s.key_counter() == 1,
    {
        Store {
            items: HashMap::new(),
            free_ids: Vec::new(),
            id: 1,
            head: None,
            tail: None,
            cache: None,
            order: Ghost(Seq::empty()),
        }
    }

    /// Allocate a key: pop the free list (LIFO), or take the counter value
    /// and advance the counter. Returns 0 when the free list is empty and
    /// the counter is exhausted, leaving the store unchanged.
    pub fn next_id(&mut self) -> (k: u32)
        requires
            old(self).wf(),
        ensures
            final(self).wf(),
            k == old(self).spec_next_key(),
            final(self).key_seq() == old(self).key_seq(),
            final(self).val_seq() == old(self).val_seq(),
            final(self).head_key() == old(self).head_key(),
            final(self).tail_key() == old(self).tail_key(),
            k != 0 ==> !old(self).key_seq().contains(k),
            old(self).free_list().len() > 0 ==> {
                &&& final(self).free_list() == old(self).free_list().drop_last()
                &&& final(self).key_counter() == old(self).key_counter()
            },
            old(self).free_list().len() == 0 && old(self).key_counter() < u32::MAX ==> {
                &&& final(self).free_list() == old(self).free_list()
                &&& final(self).key_counter() == old(self).key_counter() + 1
            },
            old(self).free_list().len() == 0 && old(self).key_counter() == u32::MAX ==> *final(self)
                == *old(self),
    {
        if self.free_ids.len() > 0 {
            let popped = self.free_ids.pop();
            let k = popped.unwrap();
            proof {
                assert(old(self).free_list()[old(self).free_list().len() - 1] == k);
                if self.order@.contains(k) {
                    assert(false);
                }
            }
            k
        } else if self.id < u32::MAX {
            let k = self.id;
            self.id = self.id + 1;
            proof {
                if old(self).order@.contains(k) {
                    let i = choose|i: int|
                        0 <= i < old(self).order@.len() && old(self).order@[i] == k;
                    assert(old(self).order@[i] == k);
                    assert(false);
                }
            }
            k
        } else {
            0
        }
    }

    /// The key that the next allocation will yield, without consuming it.
    pub fn peek_next_id(&self) -> (k: u32)
        requires
            self.wf(),
        ensures
            k == self.spec_next_key(),
    {
        if self.free_ids.len() > 0 {
            self.free_ids[self.free_ids.len() - 1]
        } else if self.id < u32::MAX {
            self.id
        } else {
            0
        }
    }

    /// Whether a key is held by a live entry.
    pub fn contains(&self, id: u32) -> (b: bool)
        requires
            self.wf(),
        ensures
            b == self.key_seq().contains(id),
    {
        self.items.contains_key(&id)
    }

    /// Install the sole entry of an empty store.
    fn initialize(&mut self, item: T, id: u32)
        requires
            old(self).wf(),
            old(self).spec_len() == 0,
            id != 0,
            id < old(self).key_counter(),
            !old(self).free_list().contains(id),
        ensures
            final(self).wf(),
            final(self).key_seq() == seq![id],
            final(self).val_seq() == seq![item],
            final(self).free_list() == old(self).free_list(),
            final(self).key_counter() == old(self).key_counter(),
    {
        proof {
            assert forall|k: u32| !old(self).items@.dom().contains(k) by {
                assert(!old(self).order@.contains(k));
            }
        }
        self.items.insert(
            id,
            Node { prev: None, next: None, value: item },
        );
        self.head = Some(id);
        self.tail = Some(id);
        self.cache = Some((0, id));
        let ghost new_order: Seq<u32> = seq![id];
        self.order = Ghost(new_order);
        proof {
            assert forall|k: u32|
                self.items@.dom().contains(k) <==> self.order@.contains(k) by {
                if k == id {
                    assert(self.order@[0] == id);
                    assert(self.order@.contains(id));
                } else {
                    if self.order@.contains(k) {
                        let i = choose|i: int|
                            0 <= i < self.order@.len() && self.order@[i] == k;
                        assert(false);
                    }
                }
            }
            assert forall|j: int| 0 <= j < self.free_ids@.len() implies self.free_ids@[j]
                != id by {
                if self.free_ids@[j] == id {
                    assert(self.free_ids@.contains(id));
                }
            }
            assert(self.wf());
            assert(self.val_seq() =~= seq![item]);
        }
    }

    /// Append a value at the tail under a freshly allocated key, returned
    /// as the result. On an empty store this installs the sole entry.
    /// Returns 0, leaving the store unchanged, when no key can be issued.
    pub fn push_tail(&mut self, item: T) -> (k: u32)
        requires
            old(self).wf(),
        ensures
            final(self).wf(),
            k == old(self).spec_next_key(),
            k == 0 ==> *final(self) == *old(self),
            k != 0 ==> {
                &&& !old(self).key_seq().contains(k)
                &&& final(self).key_seq() == old(self).key_seq().push(k)
                &&& final(self).val_seq() == old(self).val_seq().push(item)
            },
            k != 0 && old(self).free_list().len() > 0 ==> {
                &&& final(self).free_list() == old(self).free_list().drop_last()
                &&& final(self).key_counter() == old(self).key_counter()
            },
            k != 0 && old(self).free_list().len() == 0 ==> {
                &&& final(self).free_list() == old(self).free_list()
                &&& final(self).key_counter() == old(self).key_counter() + 1
            },
    {
        let id = self.next_id();
        if id == 0 {
            proof {
                if old(self).free_list().len() > 0 {
                    assert(old(self).free_list()[old(self).free_list().len() - 1] != 0);
                }
            }
            return 0;
        }
        proof {
            self.lemma_fresh_key_ok(*old(self), id);
        }
        let tail_key_opt = self.tail;
        match tail_key_opt {
            None => {
                self.initialize(item, id);
                proof {
                    assert(old(self).key_seq().push(id) =~= seq![id]);
                    assert(old(self).val_seq().push(item) =~= seq![item]);
                }
                id
            },
            Some(tail_key) => {
                let ghost s1: Store<T> = *self;
                let ghost o: Seq<u32> = self.order@;
                let pos = self.items.len();
                proof {
                    self.lemma_len();
                    assert(o[o.len() - 1] == tail_key);
                    assert(o.contains(tail_key));
                }
                let tn_opt = self.items.remove(&tail_key);
                let tn = tn_opt.unwrap();
                self.items.insert(
                    tail_key,
                    Node { prev: tn.prev, next: Some(id), value: tn.value },
                );
                self.items.insert(
                    id,
                    Node { prev: Some(tail_key), next: None, value: item },
                );
                self.tail = Some(id);
                self.cache = Some((pos, id));
                let ghost o2: Seq<u32> = o.push(id);
                self.order = Ghost(o2);
                proof {
                    let n0 = o.len() as int;
                    lemma_push_contains(o, id);
                    assert forall|j: int| 0 <= j < n0 implies o[j] != id by {
                        if o[j] == id {
                            assert(o.contains(id));
                        }
                    }
                    assert(self.items@ =~= s1.items@.insert(
                        tail_key,
                        Node { prev: s1.items@[tail_key].prev, next: Some(id), value: s1.items@[tail_key].value },
                    ).insert(id, Node { prev: Some(tail_key), next: None, value: item }));
                    assert forall|x: u32|
                        self.items@.dom().contains(x) <==> self.order@.contains(x) by {
                        assert(s1.items@.dom().contains(x) <==> o.contains(x));
                    }
                    assert(o2.no_duplicates());
                    assert forall|i: int|
                        #![trigger o2[i]]
                        0 <= i < o2.len() implies {
                        let kk = o2[i];
                        &&& kk != 0
                        &&& kk < self.id
                        &&& self.items@[kk].prev == (if i == 0 {
                            None::<u32>
                        } else {
                            Some(o2[i - 1])
                        })
                        &&& self.items@[kk].next == (if i == o2.len() - 1 {
                            None::<u32>
                        } else {
                            Some(o2[i + 1])
                        })
                    } by {
                        if i < n0 - 1 {
                            assert(o2[i] == o[i]);
                            assert(o[i] != o[n0 - 1]);
                            assert(o[i] != id);
                            assert(self.items@[o[i]] == s1.items@[o[i]]);
                        } else if i == n0 - 1 {
                            assert(o2[i] == tail_key);
                            assert(self.items@[tail_key].next == Some(id));
                            assert(self.items@[tail_key].prev == s1.items@[tail_key].prev);
                        } else {
                            assert(i == n0);
                            assert(o2[i] == id);
                        }
                    }
                    assert(self.wf());
                    assert forall|i: int| 0 <= i < n0 implies self.val_seq()[i] == s1.val_seq()[i] by {
                        if i < n0 - 1 {
                            assert(o[i] != o[n0 - 1]);
                            assert(o[i] != id);
                        }
                    }
                    assert(self.val_seq() =~= old(self).val_seq().push(item));
                }
                id
            },
        }
    }

    /// Prepend a value at the head under a freshly allocated key, returned
    /// as the result. On an empty store this installs the sole entry.
    /// Returns 0, leaving the store unchanged, when no key can be issued.
    pub fn push_head(&mut self, item: T) -> (k: u32)
        requires
            old(self).wf(),
        ensures
            final(self).wf(),
            k == old(self).spec_next_key(),
            k == 0 ==> *final(self) == *old(self),
            k != 0 ==> {
                &&& !old(self).key_seq().contains(k)
                &&& final(self).key_seq() == seq![k] + old(self).key_seq()
                &&& final(self).val_seq() == seq![item] + old(self).val_seq()
            },
            k != 0 && old(self).free_list().len() > 0 ==> {
                &&& final(self).free_list() == old(self).free_list().drop_last()
                &&& final(self).key_counter() == old(self).key_counter()
            },
            k != 0 && old(self).free_list().len() == 0 ==> {
                &&& final(self).free_list() == old(self).free_list()
                &&& final(self).key_counter() == old(self).key_counter() + 1
            },
    {
        let id = self.next_id();
        if id == 0 {
            proof {
                if old(self).free_list().len() > 0 {
                    assert(old(self).free_list()[old(self).free_list().len() - 1] != 0);
                }
            }
            return 0;
        }
        proof {
            self.lemma_fresh_key_ok(*old(self), id);
        }
        let head_key_opt = self.head;
        match head_key_opt {
            None => {
                self.initialize(item, id);
                proof {
                    assert(seq![id] + old(self).key_seq() =~= seq![id]);
                    assert(seq![item] + old(self).val_seq() =~= seq![item]);
                }
                id
            },
            Some(head_key) => {
                let ghost s1: Store<T> = *self;
                let ghost o: Seq<u32> = self.order@;
                proof {
                    assert(o[0] == head_key);
                    assert(o.contains(head_key));
                }
                let hn_opt = self.items.remove(&head_key);
                let hn = hn_opt.unwrap();
                self.items.insert(
                    head_key,
                    Node { prev: Some(id), next: hn.next, value: hn.value },
                );
                self.items.insert(
                    id,
                    Node { prev: None, next: Some(head_key), value: item },
                );
                self.head = Some(id);
                self.cache = Some((0, id));
                let ghost o2: Seq<u32> = seq![id] + o;
                self.order = Ghost(o2);
                proof {
                    let n0 = o.len() as int;
                    lemma_prepend_contains(o, id);
                    assert forall|j: int| 0 <= j < n0 implies o[j] != id by {
                        if o[j] == id {
                            assert(o.contains(id));
                        }
                    }
                    assert(self.items@ =~= s1.items@.insert(
                        head_key,
                        Node { prev: Some(id), next: s1.items@[head_key].next, value: s1.items@[head_key].value },
                    ).insert(id, Node { prev: None, next: Some(head_key), value: item }));
                    assert forall|x: u32|
                        self.items@.dom().contains(x) <==> self.order@.contains(x) by {
                        assert(s1.items@.dom().contains(x) <==> o.contains(x));
                    }
                    assert(o2.no_duplicates());
                    assert forall|i: int|
                        #![trigger o2[i]]
                        0 <= i < o2.len() implies {
                        let kk = o2[i];
                        &&& kk != 0
                        &&& kk < self.id
                        &&& self.items@[kk].prev == (if i == 0 {
                            None::<u32>
                        } else {
                            Some(o2[i - 1])
                        })
                        &&& self.items@[kk].next == (if i == o2.len() - 1 {
                            None::<u32>
                        } else {
                            Some(o2[i + 1])
                        })
                    } by {
                        if i == 0 {
                            assert(o2[i] == id);
                        } else if i == 1 {
                            assert(o2[i] == head_key);
                            assert(self.items@[head_key].prev == Some(id));
                            assert(self.items@[head_key].next == s1.items@[head_key].next);
                        } else {
                            assert(o2[i] == o[i - 1]);
                            assert(o[i - 1] != o[0]);
                            assert(o[i - 1] != id);
                            assert(self.items@[o[i - 1]] == s1.items@[o[i - 1]]);
                        }
                    }
                    assert(self.wf());
                    assert forall|i: int| 1 <= i < n0 + 1 implies self.val_seq()[i]
                        == s1.val_seq()[i - 1] by {
                        if i > 1 {
                            assert(o[i - 1] != o[0]);
                            assert(o[i - 1] != id);
                        }
                    }
                    assert(self.val_seq() =~= seq![item] + old(self).val_seq());
                }
                id
            },
        }
    }

    /// Overwrite the value stored under a live key in place, returning the
    /// previous value; the key keeps its position and links. Returns `None`
    /// and leaves the store unchanged when the key is not live.
    pub fn replace(&mut self, id: &u32, item: T) -> (prev: Option<T>)
        requires
            old(self).wf(),
        ensures
            final(self).wf(),
            final(self).key_seq() == old(self).key_seq(),
            final(self).free_list() == old(self).free_list(),
            final(self).key_counter() == old(self).key_counter(),
            !old(self).key_seq().contains(*id) ==> prev == None::<T> && *final(self) == *old(self),
            old(self).key_seq().contains(*id) ==> {
                let i = old(self).key_seq().index_of(*id);
                &&& prev == Some(old(self).val_seq()[i])
                &&& final(self).val_seq() == old(self).val_seq().update(i, item)
            },
    {
        if !self.items.contains_key(id) {
            return None;
        }
        let ghost s1: Store<T> = *self;
        let ghost o: Seq<u32> = self.order@;
        let node_opt = self.items.remove(id);
        let node = node_opt.unwrap();
        self.items.insert(
            *id,
            Node { prev: node.prev, next: node.next, value: item },
        );
        proof {
            let k = *id;
            assert(o.contains(k));
            let i = o.index_of(k);
            assert(exists|j: int| 0 <= j < o.len() && o[j] == k);
            assert(0 <= i < o.len() && o[i] == k);
            assert(self.items@ =~= s1.items@.insert(
                k,
                Node { prev: s1.items@[k].prev, next: s1.items@[k].next, value: item },
            ));
            assert forall|x: u32| self.items@.dom().contains(x) <==> self.order@.contains(x) by {
                assert(s1.items@.dom().contains(x) <==> o.contains(x));
            }
            assert forall|j: int|
                #![trigger o[j]]
                0 <= j < o.len() implies {
                let kk = o[j];
                &&& self.items@[kk].prev == s1.items@[kk].prev
                &&& self.items@[kk].next == s1.items@[kk].next
            } by {
                if o[j] != k {
                    assert(self.items@[o[j]] == s1.items@[o[j]]);
                }
            }
            assert(self.wf());
            assert forall|j: int| 0 <= j < o.len() && j != i implies self.val_seq()[j]
                == s1.val_seq()[j] by {
                assert(o[j] != o[i]);
                assert(self.items@[o[j]] == s1.items@[o[j]]);
            }
            assert(self.val_seq() =~= old(self).val_seq().update(i, item));
        }
        Some(node.value)
    }

    /// Detach the entry under a key: splice its neighbours together (or
    /// move head/tail inward), retire the key onto the free list, and
    /// return the removed value. Returns `Ok(None)` and leaves the store
    /// unchanged when the key is not live. A structural violation is
    /// reported as a `StoreError`; under `wf` none can occur, so the
    /// contract promises `Ok`.
    #[verifier::rlimit(100)]
    pub fn remove(&mut self, id: &u32) -> (r: Result<Option<T>, StoreError>)
        requires
            old(self).wf(),
        ensures
            final(self).wf(),
            final(self).key_counter() == old(self).key_counter(),
            !old(self).key_seq().contains(*id) ==> r == Ok::<Option<T>, StoreError>(None::<T>)
                && *final(self) == *old(self),
            old(self).key_seq().contains(*id) ==> {
                let i = old(self).key_seq().index_of(*id);
                &&& r == Ok::<Option<T>, StoreError>(Some(old(self).val_seq()[i]))
                &&& final(self).key_seq() == old(self).key_seq().remove(i)
                &&& final(self).val_seq() == old(self).val_seq().remove(i)
                &&& final(self).free_list() == old(self).free_list().push(*id)
            },
    {
        if !self.items.contains_key(id) {
            return Ok(None);
        }
        let ghost s1: Store<T> = *self;
        let ghost o: Seq<u32> = self.order@;
        let ghost i: int = o.index_of(*id);
        proof {
            assert(o.contains(*id));
            assert(exists|j: int| 0 <= j < o.len() && o[j] == *id);
            assert(0 <= i < o.len() && o[i] == *id);
            lemma_remove_contains(o, i);
            o.remove_ensures(i);
            assert forall|j: int| 0 <= j < o.len() && j != i implies o[j] != *id by {
                assert(o[j] != o[i]);
            }
            if s1.free_ids@.contains(*id) {
                let j = choose|j: int| 0 <= j < s1.free_ids@.len() && s1.free_ids@[j] == *id;
                assert(s1.free_ids@[j] == *id);
            }
        }
        let node_opt = self.items.remove(id);
        let node = node_opt.unwrap();
        proof {
            assert(node == s1.items@[*id]);
        }
        match (node.prev, node.next) {
            (Some(pk), Some(nk)) => {
                proof {
                    assert(0 < i < o.len() - 1);
                    assert(pk == o[i - 1] && nk == o[i + 1]);
                    assert(pk != *id && nk != *id && pk != nk);
                    assert(o.contains(pk)) by {
                        assert(o[i - 1] == pk);
                    }
                    assert(o.contains(nk)) by {
                        assert(o[i + 1] == nk);
                    }
                    assert(self.items@.dom().contains(pk));
                    assert(self.items@.dom().contains(nk));
                }
                let pn_opt = self.items.remove(&pk);
                let pn = match pn_opt {
                    Some(n) => n,
                    None => {
                        return Err(StoreError::PrevNodeNotFound);
                    },
                };
                self.items.insert(
                    pk,
                    Node { prev: pn.prev, next: Some(nk), value: pn.value },
                );
                let nn_opt = self.items.remove(&nk);
                let nn = match nn_opt {
                    Some(n) => n,
                    None => {
                        return Err(StoreError::NextNodeNotFound);
                    },
                };
                self.items.insert(
                    nk,
                    Node { prev: Some(pk), next: nn.next, value: nn.value },
                );
                proof {
                    assert(self.items@ =~= s1.items@.remove(*id).insert(
                        pk,
                        Node { prev: s1.items@[pk].prev, next: Some(nk), value: s1.items@[pk].value },
                    ).insert(
                        nk,
                        Node { prev: Some(pk), next: s1.items@[nk].next, value: s1.items@[nk].value },
                    ));
                }
            },
            (Some(pk), None) => {
                proof {
                    assert(i == o.len() - 1);
                    assert(i > 0);
                    assert(pk == o[i - 1] && pk != *id);
                    assert(s1.tail == Some(*id));
                    assert(o.contains(pk)) by {
                        assert(o[i - 1] == pk);
                    }
                    assert(self.items@.dom().contains(pk));
                }
                let is_tail = match self.tail {
                    Some(t) => t == *id,
                    None => false,
                };
                if !is_tail {
                    return Err(StoreError::Malformed);
                }
                let pn_opt = self.items.remove(&pk);
                let pn = match pn_opt {
                    Some(n) => n,
                    None => {
                        return Err(StoreError::PrevNodeNotFound);
                    },
                };
                self.items.insert(
                    pk,
                    Node { prev: pn.prev, next: None, value: pn.value },
                );
                self.tail = Some(pk);
                proof {
                    assert(self.items@ =~= s1.items@.remove(*id).insert(
                        pk,
                        Node { prev: s1.items@[pk].prev, next: None::<u32>, value: s1.items@[pk].value },
                    ));
                }
            },
            (None, Some(nk)) => {
                proof {
                    assert(i == 0);
                    assert(i < o.len() - 1);
                    assert(nk == o[i + 1] && nk != *id);
                    assert(s1.head == Some(*id));
                    assert(o.contains(nk)) by {
                        assert(o[i + 1] == nk);
                    }
                    assert(self.items@.dom().contains(nk));
                }
                let is_head = match self.head {
                    Some(h) => h == *id,
                    None => false,
                };
                if !is_head {
                    return Err(StoreError::Malformed);
                }
                let nn_opt = self.items.remove(&nk);
                let nn = match nn_opt {
                    Some(n) => n,
                    None => {
                        return Err(StoreError::NextNodeNotFound);
                    },
                };
                self.items.insert(
                    nk,
                    Node { prev: None, next: nn.next, value: nn.value },
                );
                self.head = Some(nk);
                proof {
                    assert(self.items@ =~= s1.items@.remove(*id).insert(
                        nk,
                        Node { prev: None::<u32>, next: s1.items@[nk].next, value: s1.items@[nk].value },
                    ));
                }
            },
            (None, None) => {
                proof {
                    assert(i == 0 && i == o.len() - 1);
                    assert(o.len() == 1);
                }
                self.head = None;
                self.tail = None;
                proof {
                    assert(self.items@ =~= s1.items@.remove(*id));
                }
            },
        }
        self.free_ids.push(*id);
        self.cache = None;
        let ghost o2: Seq<u32> = o.remove(i);
        self.order = Ghost(o2);
        proof {
            let n0 = o.len() as int;
            assert forall|x: u32| self.items@.dom().contains(x) <==> self.order@.contains(x) by {
                assert(s1.items@.dom().contains(x) <==> o.contains(x));
            }
            assert forall|j: int|
                #![trigger o2[j]]
                0 <= j < o2.len() implies {
                let kk = o2[j];
                &&& kk != 0
                &&& kk < self.id
                &&& self.items@[kk].prev == (if j == 0 {
                    None::<u32>
                } else {
                    Some(o2[j - 1])
                })
                &&& self.items@[kk].next == (if j == o2.len() - 1 {
                    None::<u32>
                } else {
                    Some(o2[j + 1])
                })
            } by {
                if j < i - 1 {
                    assert(o2[j] == o[j]);
                    assert(o[j] != o[i] && o[j] != o[i - 1]);
                    if i < n0 - 1 {
                        assert(o[j] != o[i + 1]);
                    }
                    assert(self.items@[o[j]] == s1.items@[o[j]]);
                } else if j == i - 1 {
                    assert(o2[j] == o[i - 1]);
                    assert(self.items@[o[i - 1]].prev == s1.items@[o[i - 1]].prev);
                    if i < n0 - 1 {
                        assert(self.items@[o[i - 1]].next == Some(o[i + 1]));
                        assert(o2[j + 1] == o[i + 1]);
                    } else {
                        assert(self.items@[o[i - 1]].next == None::<u32>);
                        assert(j == o2.len() - 1);
                    }
                } else if j == i {
                    assert(o2[j] == o[i + 1]);
                    assert(self.items@[o[i + 1]].next == s1.items@[o[i + 1]].next);
                    if i > 0 {
                        assert(self.items@[o[i + 1]].prev == Some(o[i - 1]));
                        assert(o2[j - 1] == o[i - 1]);
                    } else {
                        assert(self.items@[o[i + 1]].prev == None::<u32>);
                    }
                    if j == o2.len() - 1 {
                        assert(i + 1 == n0 - 1);
                    } else {
                        assert(o2[j + 1] == o[i + 2]);
                    }
                } else {
                    assert(o2[j] == o[j + 1]);
                    assert(o[j + 1] != o[i]);
                    if i > 0 {
                        assert(o[j + 1] != o[i - 1]);
                    }
                    if i < n0 - 1 && j + 1 != i + 1 {
                        assert(o[j + 1] != o[i + 1]);
                    }
                    if j + 1 > i + 1 {
                        assert(self.items@[o[j + 1]] == s1.items@[o[j + 1]]);
                    }
                    assert(o2[j - 1] == (if j - 1 < i {
                        o[j - 1]
                    } else {
                        o[j]
                    }));
                    if j < o2.len() - 1 {
                        assert(o2[j + 1] == o[j + 2]);
                    }
                }
            }
            assert forall|j: int|
                #![trigger self.free_ids@[j]]
                0 <= j < self.free_ids@.len() implies {
                let f = self.free_ids@[j];
                &&& f != 0
                &&& f < self.id
                &&& !o2.contains(f)
            } by {
                if j < s1.free_ids@.len() {
                    assert(self.free_ids@[j] == s1.free_ids@[j]);
                    assert(!o.contains(s1.free_ids@[j]));
                } else {
                    assert(self.free_ids@[j] == *id);
                    assert(o[i] != 0 && o[i] < self.id);
                }
            }
            assert(self.free_ids@.no_duplicates());
            assert(self.wf());
            assert forall|j: int| 0 <= j < o2.len() implies self.val_seq()[j] == (if j < i {
                s1.val_seq()[j]
            } else {
                s1.val_seq()[j + 1]
            }) by {
                let kk = o2[j];
                assert(o.contains(kk) && kk != *id);
                assert(self.items@[kk].value == s1.items@[kk].value);
                if j < i {
                    assert(o2[j] == o[j]);
                } else {
                    assert(o2[j] == o[j + 1]);
                }
            }
            assert(self.val_seq() =~= old(self).val_seq().remove(i));
            assert(node.value == s1.val_seq()[i]);
        }
        Ok(Some(node.value))
    }

    /// The key at a list index, as a walk cursor: `None` off either end.
    spec fn cursor_at(self, i: int) -> Option<u32> {
        if 0 <= i < self.key_seq().len() {
            Some(self.key_seq()[i])
        } else {
            None
        }
    }

    /// The forward walk from index `i` visits exactly the keys from `i` on.
    proof fn lemma_walk_next_from(self, i: int, fuel: nat)
        requires
            self.wf(),
            0 <= i <= self.key_seq().len(),
            fuel >= self.key_seq().len() - i,
        ensures
            walk_links(self.nexts(), self.cursor_at(i), fuel) == self.key_seq().subrange(
                i,
                self.key_seq().len() as int,
            ),
        decreases self.key_seq().len() - i,
    {
        let o = self.key_seq();
        let n = o.len() as int;
        if i == n {
            assert(o.subrange(n, n) =~= Seq::<u32>::empty());
        } else {
            let k = o[i];
            assert(o.contains(k));
            assert(self.nexts().dom().contains(k));
            assert(self.nexts()[k] == self.items@[k].next);
            assert(self.items@[k].next == self.cursor_at(i + 1));
            self.lemma_walk_next_from(i + 1, (fuel - 1) as nat);
            assert(walk_links(self.nexts(), self.cursor_at(i), fuel) == seq![k] + o.subrange(
                i + 1,
                n,
            ));
            assert(seq![k] + o.subrange(i + 1, n) =~= o.subrange(i, n));
        }
    }

    /// The backward walk from index `i` visits exactly the keys up to `i`,
    /// in reverse order.
    proof fn lemma_walk_prev_from(self, i: int, fuel: nat)
        requires
            self.wf(),
            -1 <= i < self.key_seq().len(),
            fuel >= i + 1,
        ensures
            walk_links(self.prevs(), self.cursor_at(i), fuel) == self.key_seq().subrange(
                0,
                i + 1,
            ).reverse(),
        decreases i + 1,
    {
        let o = self.key_seq();
        if i == -1 {
            assert(o.subrange(0, 0).reverse() =~= Seq::<u32>::empty());
        } else {
            let k = o[i];
            assert(o.contains(k));
            assert(self.prevs().dom().contains(k));
            assert(self.prevs()[k] == self.items@[k].prev);
            assert(self.items@[k].prev == self.cursor_at(i - 1));
            self.lemma_walk_prev_from(i - 1, (fuel - 1) as nat);
            assert(walk_links(self.prevs(), self.cursor_at(i), fuel) == seq![k] + o.subrange(
                0,
                i,
            ).reverse());
            assert(seq![k] + o.subrange(0, i).reverse() =~= o.subrange(0, i + 1).reverse());
        }
    }

    /// Law: on a well-formed store, the forward walk from the head and the
    /// backward walk from the tail (each bounded by the store's length)
    /// produce reverse-of-each-other key sequences, and a key is live
    /// exactly when the walk visits it: no orphans and no duplicates.
    pub proof fn lemma_walks_mirror(self)
        requires
            self.wf(),
        ensures
            walk_links(self.nexts(), self.head_key(), self.spec_len()) == self.key_seq(),
            walk_links(self.prevs(), self.tail_key(), self.spec_len()) == self.key_seq().reverse(),
            forall|k: u32|
                self.nexts().dom().contains(k) <==> #[trigger] self.key_seq().contains(k),
            self.key_seq().no_duplicates(),
    {
        let o = self.key_seq();
        let n = o.len() as int;
        assert(self.head_key() == self.cursor_at(0));
        self.lemma_walk_next_from(0, self.spec_len());
        assert(o.subrange(0, n) =~= o);
        if n > 0 {
            assert(self.tail_key() == self.cursor_at(n - 1));
            self.lemma_walk_prev_from(n - 1, self.spec_len());
            assert(o.subrange(0, n) =~= o);
        } else {
            assert(o.reverse() =~= Seq::<u32>::empty());
        }
    }

    /// Law: no key is ever held by two simultaneously live entries, and a
    /// retired key is never live.
    pub proof fn lemma_keys_unique(self)
        requires
            self.wf(),
        ensures
            self.key_seq().no_duplicates(),
            forall|i: int, j: int|
                #![trigger self.key_seq()[i], self.key_seq()[j]]
                0 <= i < j < self.spec_len() ==> self.key_seq()[i] != self.key_seq()[j],
            forall|j: int|
                0 <= j < self.free_list().len() ==> !self.key_seq().contains(
                    #[trigger] self.free_list()[j],
                ),
    {
    }

    /// Law: resolving a position agrees with a straight head walk: entry
    /// `p` of the forward walk is the `p`-th live key, and the value that
    /// `nth_item(p)` returns is the value stored under that key.
    pub proof fn lemma_nth_matches_head_walk(self, p: int)
        requires
            self.wf(),
            0 <= p < self.spec_len(),
        ensures
            walk_links(self.nexts(), self.head_key(), self.spec_len())[p] == self.key_seq()[p],
            self.val_seq()[p] == self.value_of(
                walk_links(self.nexts(), self.head_key(), self.spec_len())[p],
            ),
    {
        self.lemma_walks_mirror();
    }

    /// A key just returned by a successful allocation is nonzero, below
    /// the counter, not live, and not on the free list.
    proof fn lemma_fresh_key_ok(self, pre: Store<T>, id: u32)
        requires
            pre.wf(),
            self.wf(),
            id == pre.spec_next_key(),
            id != 0,
            self.key_seq() == pre.key_seq(),
            pre.free_list().len() > 0 ==> self.free_list() == pre.free_list().drop_last()
                && self.key_counter() == pre.key_counter(),
            pre.free_list().len() == 0 ==> self.free_list() == pre.free_list()
                && self.key_counter() == pre.key_counter() + 1,
        ensures
            id < self.key_counter(),
            !self.free_list().contains(id),
            !self.key_seq().contains(id),
    {
        if pre.free_list().len() > 0 {
            assert(pre.free_list()[pre.free_list().len() - 1] == id);
            assert(id < pre.key_counter());
            if self.free_list().contains(id) {
                let j = choose|j: int|
                    0 <= j < self.free_list().len() && self.free_list()[j] == id;
                assert(pre.free_list()[j] == id);
            }
            if self.key_seq().contains(id) {
                assert(!pre.key_seq().contains(pre.free_list()[pre.free_list().len() - 1]));
            }
        } else {
            if self.key_seq().contains(id) {
                let i = choose|i: int|
                    0 <= i < self.key_seq().len() && self.key_seq()[i] == id;
                assert(self.key_seq()[i] == id);
            }
        }
    }

    /// Consult the position hint: answer directly on an exact hit, or by
    /// one link hop when the asked position is adjacent to the hint.
    /// `None` means the hint cannot help, never that the position is bad.
    fn try_cache_lookup(&self, pos: usize) -> (r: Option<&T>)
        requires
            self.wf(),
        ensures
            match r {
                Some(v) => pos < self.spec_len() && *v == self.val_seq()[pos as int],
                None => true,
            },
    {
        let (cpos, ckey) = match self.cache {
            Some(c) => c,
            None => {
                return None;
            },
        };
        proof {
            assert(self.order@[cpos as int] == ckey);
            assert(self.order@.contains(ckey));
        }
        let node = match self.items.get(&ckey) {
            Some(n) => n,
            None => {
                return None;
            },
        };
        let target: Option<u32> = if pos == cpos {
            Some(ckey)
        } else if pos > cpos && pos - 1 == cpos {
            node.next
        } else if cpos >= 1 && pos == cpos - 1 {
            node.prev
        } else {
            None
        };
        let tk = match target {
            Some(k) => k,
            None => {
                return None;
            },
        };
        proof {
            assert(pos < self.order@.len() && self.order@[pos as int] == tk);
            assert(self.order@.contains(tk));
        }
        match self.items.get(&tk) {
            Some(n2) => Some(&n2.value),
            None => None,
        }
    }

    /// Walk `pos` links forward from the head.
    fn nth_item_from_head(&self, pos: usize) -> (r: Option<&T>)
        requires
            self.wf(),
            pos < self.spec_len(),
        ensures
            r matches Some(v) && *v == self.val_seq()[pos as int],
    {
        let mut key = match self.head {
            Some(h) => h,
            None => {
                return None;
            },
        };
        let mut j: usize = 0;
        while j < pos
            invariant
                self.wf(),
                pos < self.spec_len(),
                j <= pos,
                key == self.key_seq()[j as int],
            decreases pos - j,
        {
            proof {
                assert(self.order@.contains(key)) by {
                    assert(self.order@[j as int] == key);
                }
            }
            let node = self.items.get(&key).unwrap();
            key = match node.next {
                Some(nk) => nk,
                None => key,
            };
            j = j + 1;
        }
        proof {
            assert(self.order@.contains(key)) by {
                assert(self.order@[pos as int] == key);
            }
        }
        match self.items.get(&key) {
            Some(node) => Some(&node.value),
            None => None,
        }
    }

    /// Walk `len - 1 - pos` links backward from the tail; `len` must be
    /// the current number of entries.
    fn nth_item_from_tail(&self, pos: usize, len: usize) -> (r: Option<&T>)
        requires
            self.wf(),
            len == self.spec_len(),
            pos < len,
        ensures
            r matches Some(v) && *v == self.val_seq()[pos as int],
    {
        let mut key = match self.tail {
            Some(t) => t,
            None => {
                return None;
            },
        };
        let mut j: usize = len - 1;
        while j > pos
            invariant
                self.wf(),
                len == self.spec_len(),
                pos <= j <= len - 1,
                key == self.key_seq()[j as int],
            decreases j,
        {
            proof {
                assert(self.order@.contains(key)) by {
                    assert(self.order@[j as int] == key);
                }
            }
            let node = self.items.get(&key).unwrap();
            key = match node.prev {
                Some(pk) => pk,
                None => key,
            };
            j = j - 1;
        }
        proof {
            assert(self.order@.contains(key)) by {
                assert(self.order@[pos as int] == key);
            }
        }
        match self.items.get(&key) {
            Some(node) => Some(&node.value),
            None => None,
        }
    }

    /// Resolve a 0-based position to the value stored there, or `None`
    /// when the position is out of range. The position hint is consulted
    /// first; otherwise the walk starts from whichever end is nearer, so
    /// at most half the list is traversed.
    pub fn nth_item(&self, pos: usize) -> (r: Option<&T>)
        requires
            self.wf(),
        ensures
            match r {
                Some(v) => pos < self.spec_len() && *v == self.val_seq()[pos as int],
                None => pos >= self.spec_len(),
            },
    {
        let cached = self.try_cache_lookup(pos);
        if cached.is_some() {
            return cached;
        }
        proof {
            self.lemma_len();
        }
        let len = self.items.len();
        if pos >= len {
            return None;
        }
        if pos < len / 2 {
            self.nth_item_from_head(pos)
        } else {
            self.nth_item_from_tail(pos, len)
        }
    }

    /// The position a live key currently holds, or `None` when the key is
    /// not live. This is the inverse of `nth_item`, used to name the
    /// position of a change span for a virtualized list.
    pub fn position_of(&self, id: u32) -> (r: Option<usize>)
        requires
            self.wf(),
        ensures
            match r {
                Some(p) => p < self.spec_len() && self.key_seq()[p as int] == id,
                None => !self.key_seq().contains(id),
            },
    {
        if !self.items.contains_key(&id) {
            return None;
        }
        let mut key = match self.head {
            Some(h) => h,
            None => {
                return None;
            },
        };
        let n = self.len();
        proof {
            assert(self.order@.contains(id));
        }
        let ghost i0: int = choose|i: int|
            0 <= i < self.order@.len() && self.order@[i] == id;
        proof {
            assert(0 <= i0 < self.order@.len() && self.order@[i0] == id);
        }
        let mut j: usize = 0;
        while key != id
            invariant
                self.wf(),
                n == self.spec_len(),
                0 <= i0 < n,
                self.key_seq()[i0] == id,
                j <= i0,
                key == self.key_seq()[j as int],
            decreases i0 - j,
        {
            proof {
                assert(self.order@.contains(key)) by {
                    assert(self.order@[j as int] == key);
                }
            }
            let node = self.items.get(&key).unwrap();
            key = match node.next {
                Some(nk) => nk,
                None => key,
            };
            j = j + 1;
        }
        Some(j)
    }

    /// The number of live entries.
    pub fn len(&self) -> (n: usize)
        requires
            self.wf(),
        ensures
            n == self.spec_len(),
    {
        proof {
            self.lemma_len();
        }
        self.items.len()
    }
}

} // verus!
