//! A singly linked list with head and tail references and an element count.
//!
//! The nodes live in an arena: a growable array of value slots with a
//! parallel array of forward links, chained by index rather than by
//! pointer. Slots freed by a removal are remembered and reused by later
//! insertions. A ghost sequence records the slot of each position in order,
//! which is what the well-formedness invariant and the contracts are
//! stated over; the list a caller sees is its sequence of values, `self@`.

use vstd::prelude::*;
use vstd::pervasive::cloned;

verus! {

/// Linked list with generic type.
#[derive(Clone)]
pub struct LinkedList<T> {
    values: Vec<T>,
    links: Vec<Option<usize>>,
    head: Option<usize>,
    tail: Option<usize>,
    pub length: u64,
    free: Vec<usize>,
    chain: Ghost<Seq<usize>>,
}

impl<T> View for LinkedList<T> {
    type V = Seq<T>;

    closed spec fn view(&self) -> Seq<T> {
        Seq::new(self.chain@.len(), |k: int| self.values@[self.chain@[k] as int])
    }
}

impl<T> LinkedList<T> {
    /// The stored element count, as the contracts speak of it; it is the
    /// same value as the public `length` field.
    pub closed spec fn spec_length(&self) -> u64 {
        self.length
    }

    /// The stored element count: the value of the `length` field, handed
    /// out under its specification name. Verus keeps a type with private
    /// fields opaque in public specifications, so contracts cannot name
    /// the field itself; a verified caller reads the count through this
    /// function, an unverified one may read the field directly.
    pub fn len(&self) -> (n: u64)
        ensures
            n == self.spec_length(),
            self.wf() ==> n as nat == self@.len(),
    {
        self.length
    }

    /// The arena really holds the chain the list stands for: the chain's
    /// slots are in bounds and pairwise distinct, the links connect them in
    /// order, head and tail name its ends, `length` counts it, and the free
    /// slots are sound to hand out again.
    pub closed spec fn wf(&self) -> bool {
        let c = self.chain@;
        let n = self.values@.len();
        &&& self.links@.len() == n
        &&& self.length as nat == c.len()
        &&& forall|k: int| 0 <= k < c.len() ==> (#[trigger] c[k]) < n
        &&& forall|k1: int, k2: int| 0 <= k1 < k2 < c.len() ==> c[k1] != c[k2]
        &&& self.head == (if c.len() == 0 {
            Option::<usize>::None
        } else {
            Some(c[0])
        })
        &&& self.tail == (if c.len() == 0 {
            Option::<usize>::None
        } else {
            Some(c[c.len() - 1])
        })
        &&& forall|k: int|
            0 <= k < c.len() - 1 ==> self.links@[(#[trigger] c[k]) as int] == Some(c[k + 1])
        &&& (c.len() > 0 ==> self.links@[c[c.len() - 1] as int] == Option::<usize>::None)
        &&& forall|k: int| 0 <= k < self.free@.len() ==> (#[trigger] self.free@[k]) < n
        &&& forall|k1: int, k2: int|
            0 <= k1 < k2 < self.free@.len() ==> self.free@[k1] != self.free@[k2]
        &&& forall|k1: int, k2: int|
            0 <= k1 < c.len() && 0 <= k2 < self.free@.len() ==> c[k1] != self.free@[k2]
    }
}

/// While a list is well formed, its stored `length` is exactly the number
/// of elements it holds. Each insertion's contract grows the contents by
/// one and each successful removal's contract shrinks them by one, so over
/// any run of operations `length` equals the successful insertions minus
/// the successful removals.
pub proof fn lemma_length_matches_contents<T>(l: &LinkedList<T>)
    requires
        l.wf(),
    ensures
        l.spec_length() as nat == l@.len(),
{
}

/// Appending at the back leaves the front element where it is.
pub proof fn lemma_front_unmoved_by_push<T>(s: Seq<T>, x: T)
    requires
        s.len() > 0,
    ensures
        s.push(x)[0] == s[0],
{
}

/// Removing at a later position leaves the front element where it is.
/// With [`lemma_front_unmoved_by_push`] this says that once `insert_first`
/// has made a value the front, `get(0)` keeps returning it across
/// `insert_last` and `remove_ith` at positions past zero, until something
/// is inserted before it or it is itself removed.
pub proof fn lemma_front_unmoved_by_later_removal<T>(s: Seq<T>, i: int)
    requires
        0 < i < s.len(),
    ensures
        s.remove(i)[0] == s[0],
{
}

impl<T: Clone> LinkedList<T> {
    /// Create an empty linked list.
    pub fn new() -> (l: LinkedList<T>)
        ensures
            l.wf(),
            l@ == Seq::<T>::empty(),
            l.spec_length() == 0,
    {
        let l = LinkedList {
            values: Vec::new(),
            links: Vec::new(),
            head: None,
            tail: None,
            length: 0,
            free: Vec::new(),
            chain: Ghost(Seq::empty()),
        };
        proof {
            assert(l@ =~= Seq::<T>::empty());
        }
        l
    }

    /// Put `value` into a slot that no chain position uses — a remembered
    /// free slot when there is one, a fresh one otherwise — and hand the
    /// slot back with its link cleared. Everything else is left alone.
    fn take_slot(&mut self, value: T) -> (idx: usize)
        requires
            old(self).wf(),
        ensures
            final(self).chain@ == old(self).chain@,
            final(self).head == old(self).head,
            final(self).tail == old(self).tail,
            final(self).spec_length() == old(self).spec_length(),
            final(self).links@.len() == final(self).values@.len(),
            old(self).values@.len() <= final(self).values@.len(),
            idx < final(self).values@.len(),
            final(self).values@[idx as int] == value,
            final(self).links@[idx as int] == Option::<usize>::None,
            forall|k: int|
                0 <= k < old(self).values@.len() && k != idx ==> #[trigger] final(self).values@[k]
                    == old(self).values@[k],
            forall|k: int|
                0 <= k < old(self).links@.len() && k != idx ==> #[trigger] final(self).links@[k]
                    == old(self).links@[k],
            forall|k: int|
                0 <= k < old(self).chain@.len() ==> (#[trigger] old(self).chain@[k]) != idx,
            forall|k: int|
                0 <= k < final(self).free@.len() ==> (#[trigger] final(self).free@[k])
                    < final(self).values@.len(),
            forall|k1: int, k2: int|
                0 <= k1 < k2 < final(self).free@.len() ==> final(self).free@[k1]
                    != final(self).free@[k2],
            forall|k1: int, k2: int|
                0 <= k1 < final(self).chain@.len() && 0 <= k2 < final(self).free@.len()
                    ==> final(self).chain@[k1] != final(self).free@[k2],
            forall|k: int|
                0 <= k < final(self).free@.len() ==> (#[trigger] final(self).free@[k]) != idx,
    {
        match self.free.pop() {
            Some(idx) => {
                self.values[idx] = value;
                self.links[idx] = None;
                idx
            },
            None => {
                let idx = self.values.len();
                self.values.push(value);
                self.links.push(None);
                idx
            },
        }
    }

    /// Append a new node to the start of the list. Always succeeds and
    /// grows the count by one.
    pub fn insert_first(&mut self, value: T)
        requires
            old(self).wf(),
            old(self).spec_length() < u64::MAX,
        ensures
            final(self).wf(),
            final(self)@ == seq![value] + old(self)@,
            final(self).spec_length() == old(self).spec_length() + 1,
    {
        let idx = self.take_slot(value);
        let old_head = self.head;
        if old_head.is_none() {
            self.tail = Some(idx);
        }
        self.links[idx] = old_head;
        self.head = Some(idx);
        self.length = self.length + 1;
        proof {
            self.chain@ = seq![idx] + self.chain@;
            assert(final(self)@ =~= seq![value] + old(self)@);
        }
    }

    /// Append a new node to the end of the list. Always succeeds and grows
    /// the count by one.
    pub fn insert_last(&mut self, value: T)
        requires
            old(self).wf(),
            old(self).spec_length() < u64::MAX,
        ensures
            final(self).wf(),
            final(self)@ == old(self)@.push(value),
            final(self).spec_length() == old(self).spec_length() + 1,
    {
        let idx = self.take_slot(value);
        match self.tail {
            None => {
                self.head = Some(idx);
            },
            Some(t) => {
                self.links[t] = Some(idx);
            },
        }
        self.tail = Some(idx);
        self.length = self.length + 1;
        proof {
            self.chain@ = self.chain@.push(idx);
            assert(final(self)@ =~= old(self)@.push(value));
        }
    }

    /// The slot holding position `index`, found by walking `index` links
    /// from the head; `None` past the end.
    fn slot_at(&self, index: u64) -> (r: Option<usize>)
        requires
            self.wf(),
        ensures
            r == (if (index as nat) < self.chain@.len() {
                Some(self.chain@[index as int])
            } else {
                Option::<usize>::None
            }),
    {
        let mut current: Option<usize> = self.head;
        let mut i: u64 = 0;
        while i < index && current.is_some()
            invariant
                self.wf(),
                i <= index,
                current == (if (i as nat) < self.chain@.len() {
                    Some(self.chain@[i as int])
                } else {
                    Option::<usize>::None
                }),
            decreases index - i,
        {
            let k = current.unwrap();
            current = self.links[k];
            i = i + 1;
        }
        current
    }

    /// Equivalent to `get(0)`.
    pub fn get_first(&self) -> (r: Option<T>)
        requires
            self.wf(),
        ensures
            match r {
                Some(v) => self@.len() > 0 && cloned::<T>(self@[0], v),
                None => self@.len() == 0,
            },
    {
        self.get(0)
    }

    /// A copy of the value at position `index`, reached by walking `index`
    /// links from the head, or `None` if the position is past the end.
    pub fn get(&self, index: u64) -> (r: Option<T>)
        requires
            self.wf(),
        ensures
            match r {
                Some(v) => (index as nat) < self@.len() && cloned::<T>(self@[index as int], v),
                None => (index as nat) >= self@.len(),
            },
    {
        match self.slot_at(index) {
            None => None,
            Some(k) => Some(self.values[k].clone()),
        }
    }

    /// Remove and return the head's value, or `None` on an empty list,
    /// which is left unchanged. When the last element goes, the tail
    /// reference is cleared too.
    pub fn remove_first(&mut self) -> (r: Option<T>)
        requires
            old(self).wf(),
        ensures
            final(self).wf(),
            match r {
                Some(v) => {
                    &&& old(self)@.len() > 0
                    &&& cloned::<T>(old(self)@[0], v)
                    &&& final(self)@ == old(self)@.drop_first()
                    &&& final(self).spec_length() == old(self).spec_length() - 1
                },
                None => {
                    &&& old(self)@.len() == 0
                    &&& final(self)@ == old(self)@
                    &&& final(self).spec_length() == old(self).spec_length()
                },
            },
    {
        match self.head {
            None => None,
            Some(h) => {
                let v = self.values[h].clone();
                self.head = self.links[h];
                if self.head.is_none() {
                    self.tail = None;
                }
                self.length = self.length - 1;
                self.free.push(h);
                proof {
                    self.chain@ = self.chain@.drop_first();
                    assert(final(self)@ =~= old(self)@.drop_first());
                }
                Some(v)
            },
        }
    }

    /// Remove and return the value at position `index`; `None` with no
    /// mutation when the position is past the end. Position zero delegates
    /// to `remove_first`; otherwise the predecessor is re-pointed past the
    /// removed node. Removing the last node also moves the tail reference
    /// back to its predecessor, so the list stays well formed.
    pub fn remove_ith(&mut self, index: u64) -> (r: Option<T>)
        requires
            old(self).wf(),
        ensures
            final(self).wf(),
            match r {
                Some(v) => {
                    &&& (index as nat) < old(self)@.len()
                    &&& cloned::<T>(old(self)@[index as int], v)
                    &&& final(self)@ == old(self)@.remove(index as int)
                    &&& final(self).spec_length() == old(self).spec_length() - 1
                },
                None => {
                    &&& (index as nat) >= old(self)@.len()
                    &&& final(self)@ == old(self)@
                    &&& final(self).spec_length() == old(self).spec_length()
                },
            },
    {
        if index == 0 {
            let r = self.remove_first();
            proof {
                if old(self)@.len() > 0 {
                    assert(old(self)@.remove(0) =~= old(self)@.drop_first());
                }
            }
            return r;
        }
        let prev = match self.slot_at(index - 1) {
            None => {
                return None;
            },
            Some(p) => p,
        };
        let next = match self.links[prev] {
            None => {
                return None;
            },
            Some(t) => t,
        };
        let v = self.values[next].clone();
        let after = self.links[next];
        if after.is_none() {
            self.tail = Some(prev);
        }
        self.links[prev] = after;
        self.length = self.length - 1;
        self.free.push(next);
        proof {
            self.chain@ = self.chain@.remove(index as int);
            assert(final(self)@ =~= old(self)@.remove(index as int));
        }
        Some(v)
    }
}

/// Forward, single-pass iteration over a list's values, from head to tail:
/// lazily hands out a copy of one value at a time and cannot be restarted.
pub struct ListIterator<T> {
    list: LinkedList<T>,
    current: Option<usize>,
    pos: Ghost<int>,
}

impl<T> View for ListIterator<T> {
    type V = Seq<T>;

    closed spec fn view(&self) -> Seq<T> {
        self.list@.skip(self.pos@)
    }
}

impl<T: Clone> ListIterator<T> {
    /// The iterator stands at a position of its list's chain.
    pub closed spec fn wf(&self) -> bool {
        &&& self.list.wf()
        &&& 0 <= self.pos@ <= self.list@.len()
        &&& self.current == (if self.pos@ < self.list@.len() {
            Some(self.list.chain@[self.pos@])
        } else {
            Option::<usize>::None
        })
    }

    /// Start iterating the given list from its head.
    pub fn new(list: LinkedList<T>) -> (it: ListIterator<T>)
        requires
            list.wf(),
        ensures
            it.wf(),
            it@ == list@,
    {
        let current = list.head;
        let it = ListIterator { list, current, pos: Ghost(0) };
        proof {
            assert(it@ =~= it.list@);
        }
        it
    }

    /// A copy of the next value, or `None` once the tail has been passed.
    pub fn next(&mut self) -> (r: Option<T>)
        requires
            old(self).wf(),
        ensures
            final(self).wf(),
            match r {
                Some(v) => {
                    &&& old(self)@.len() > 0
                    &&& cloned::<T>(old(self)@[0], v)
                    &&& final(self)@ == old(self)@.drop_first()
                },
                None => {
                    &&& old(self)@.len() == 0
                    &&& final(self)@ == old(self)@
                },
            },
    {
        match self.current {
            None => None,
            Some(k) => {
                let v = self.list.values[k].clone();
                self.current = self.list.links[k];
                proof {
                    self.pos@ = self.pos@ + 1;
                    assert(final(self)@ =~= old(self)@.drop_first());
                }
                Some(v)
            },
        }
    }
}

} // verus!
