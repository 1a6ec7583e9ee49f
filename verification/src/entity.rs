//! Entity identifiers, the registry that hands them out, and ordered entity sets.

use vstd::prelude::*;

verus! {

/// An identifier that groups components. It carries no data of its own.
#[derive(Clone, Copy, Debug, PartialEq, Eq, Structural, PartialOrd, Ord, Hash)]
pub struct Entity {
    pub id: u64,
}

impl Entity {
    /// The number behind the identifier.
    pub fn id(&self) -> (n: u64)
        ensures
            n == self.id,
    {
        self.id
    }
}

/// Hands out identifiers, each one exactly once.
pub struct EntityRegistry {
    next: u64,
}

impl EntityRegistry {
    /// How many identifiers have been handed out so far.
    pub closed spec fn count(&self) -> nat {
        self.next as nat
    }

    /// Whether `e` is one of the identifiers handed out so far.
    pub open spec fn is_allocated(&self, e: Entity) -> bool {
        e.id < self.count()
    }

    /// A registry that has handed out nothing yet.
    pub fn new() -> (r: Self)
        ensures
            r.count() == 0,
    {
        EntityRegistry { next: 0 }
    }

    /// The number of identifiers handed out so far.
    pub fn allocated(&self) -> (n: u64)
        ensures
            n == self.count(),
    {
        self.next
    }

    /// Whether every identifier has been handed out.
    pub fn is_exhausted(&self) -> (b: bool)
        ensures
            b == (self.count() == u64::MAX),
    {
        self.next == u64::MAX
    }

    /// Hands out an identifier that no earlier call has returned.
    pub fn allocate(&mut self) -> (e: Entity)
        requires
            old(self).count() < u64::MAX,
        ensures
            e.id == old(self).count(),
            !old(self).is_allocated(e),
            final(self).is_allocated(e),
            final(self).count() == old(self).count() + 1,
    {
        let e = Entity { id: self.next };
        self.next = self.next + 1;
        e
    }

    /// Hands out a fresh identifier, or nothing once all of them are in use.
    pub fn try_allocate(&mut self) -> (r: Option<Entity>)
        ensures
            r == next_entity(old(self).count()),
            final(self).count() == count_after_allocation(old(self).count()),
    {
        if self.next == u64::MAX {
            None
        } else {
            Some(self.allocate())
        }
    }
}

/// The identifier that the next allocation yields once `count` have been handed out.
pub open spec fn next_entity(count: nat) -> Option<Entity> {
    if count < u64::MAX {
        Some(Entity { id: count as u64 })
    } else {
        None
    }
}

/// The number of identifiers handed out after one more allocation was asked for.
pub open spec fn count_after_allocation(count: nat) -> nat {
    if count < u64::MAX {
        count + 1
    } else {
        count
    }
}

/// Whether the identifiers in `s` grow strictly from left to right.
pub open spec fn ascending(s: Seq<Entity>) -> bool {
    forall|i: int, j: int| 0 <= i < j < s.len() ==> s[i].id < s[j].id
}

/// Two ascending sequences with the same elements are the same sequence.
pub proof fn lemma_ascending_unique(a: Seq<Entity>, b: Seq<Entity>)
    requires
        ascending(a),
        ascending(b),
        forall|e: Entity| a.contains(e) <==> b.contains(e),
    ensures
        a == b,
    decreases a.len(),
{
    if a.len() == 0 {
        if b.len() > 0 {
            assert(b.contains(b[0]));
            assert(a.contains(b[0]));
        }
        assert(a =~= b);
    } else {
        let x = a.last();
        assert(a.contains(x));
        assert(b.contains(x));
        let k = choose|k: int| 0 <= k < b.len() && b[k] == x;
        if k < b.len() - 1 {
            let y = b.last();
            assert(b.contains(y));
            assert(a.contains(y));
            let m = choose|m: int| 0 <= m < a.len() && a[m] == y;
            assert(b[k].id < b[b.len() - 1].id);
            if m < a.len() - 1 {
                assert(a[m].id < a[a.len() - 1].id);
            }
            assert(false);
        }
        let a0 = a.drop_last();
        let b0 = b.drop_last();
        assert forall|e: Entity| a0.contains(e) <==> b0.contains(e) by {
            if a0.contains(e) {
                let i = choose|i: int| 0 <= i < a0.len() && a0[i] == e;
                assert(a[i] == e);
                assert(a[i].id < a[a.len() - 1].id);
                assert(a.contains(e));
                let j = choose|j: int| 0 <= j < b.len() && b[j] == e;
                assert(j < b.len() - 1);
                assert(b0[j] == e);
            }
            if b0.contains(e) {
                let i = choose|i: int| 0 <= i < b0.len() && b0[i] == e;
                assert(b[i] == e);
                assert(b[i].id < b[b.len() - 1].id);
                assert(b.contains(e));
                let j = choose|j: int| 0 <= j < a.len() && a[j] == e;
                assert(j < a.len() - 1);
                assert(a0[j] == e);
            }
        }
        lemma_ascending_unique(a0, b0);
        assert(a =~= a0.push(x));
        assert(b =~= b0.push(x));
    }
}

/// The first `i + 1` members of an ascending sequence are the first `i` and
/// the one at position `i`, which is none of the first `i`.
pub proof fn lemma_take_next(s: Seq<Entity>, i: int)
    requires
        ascending(s),
        0 <= i < s.len(),
    ensures
        !s.take(i).contains(s[i]),
        forall|x: Entity| s.take(i + 1).contains(x) <==> (s.take(i).contains(x) || x == s[i]),
{
    let head = s.take(i);
    let more = s.take(i + 1);
    if head.contains(s[i]) {
        let j = choose|j: int| 0 <= j < head.len() && head[j] == s[i];
        assert(s[j].id < s[i].id);
    }
    assert forall|x: Entity| more.contains(x) <==> (head.contains(x) || x == s[i]) by {
        if more.contains(x) {
            let j = choose|j: int| 0 <= j < more.len() && more[j] == x;
            if j < i {
                assert(head[j] == x);
            }
        }
        if head.contains(x) {
            let j = choose|j: int| 0 <= j < head.len() && head[j] == x;
            assert(more[j] == x);
        }
        if x == s[i] {
            assert(more[i] == x);
        }
    }
}

/// A set of entities kept in ascending order of identifier.
pub struct EntitySet {
    items: Vec<Entity>,
}

impl View for EntitySet {
    type V = Seq<Entity>;

    /// The members, lowest identifier first.
    closed spec fn view(&self) -> Seq<Entity> {
        self.items@
    }
}

impl EntitySet {
    /// The members are in strictly ascending order, so none occurs twice.
    pub open spec fn wf(&self) -> bool {
        ascending(self@)
    }

    /// The empty set.
    pub fn new() -> (s: Self)
        ensures
            s.wf(),
            s@ == Seq::<Entity>::empty(),
    {
        EntitySet { items: Vec::new() }
    }

    /// The number of members.
    pub fn len(&self) -> (n: usize)
        ensures
            n == self@.len(),
    {
        self.items.len()
    }

    /// The member at position `i`, counting from the lowest identifier.
    pub fn get(&self, i: usize) -> (e: Entity)
        requires
            i < self@.len(),
        ensures
            e == self@[i as int],
    {
        self.items[i]
    }

    /// The number of members whose identifier is below that of `e`.
    fn rank(&self, e: Entity) -> (i: usize)
        requires
            self.wf(),
        ensures
            i <= self@.len(),
            forall|j: int| 0 <= j < i ==> self@[j].id < e.id,
            forall|j: int| i <= j < self@.len() ==> self@[j].id >= e.id,
    {
        let mut i: usize = 0;
        while i < self.items.len() && self.items[i].id < e.id
            invariant
                self.wf(),
                i <= self.items.len(),
                forall|j: int| 0 <= j < i ==> self@[j].id < e.id,
            decreases self.items.len() - i,
        {
            i = i + 1;
        }
        i
    }

    /// Whether `e` is a member.
    pub fn has(&self, e: Entity) -> (b: bool)
        requires
            self.wf(),
        ensures
            b == self@.contains(e),
    {
        let i = self.rank(e);
        i < self.items.len() && self.items[i].id == e.id
    }

    /// Adds `e`; a set that already holds it stays as it is.
    pub fn insert(&mut self, e: Entity)
        requires
            old(self).wf(),
        ensures
            final(self).wf(),
            forall|x: Entity| final(self)@.contains(x) <==> (old(self)@.contains(x) || x == e),
            old(self)@.contains(e) ==> final(self)@ == old(self)@,
    {
        let i = self.rank(e);
        if i < self.items.len() && self.items[i].id == e.id {
            assert(self@[i as int] == e);
        } else {
            self.items.insert(i, e);
            assert(self@[i as int] == e);
            assert forall|x: Entity| self@.contains(x) <==> (old(self)@.contains(x) || x == e) by {
                if old(self)@.contains(x) {
                    let j = choose|j: int| 0 <= j < old(self)@.len() && old(self)@[j] == x;
                    if j < i {
                        assert(self@[j] == x);
                    } else {
                        assert(self@[j + 1] == x);
                    }
                }
                if self@.contains(x) {
                    let j = choose|j: int| 0 <= j < self@.len() && self@[j] == x;
                    if j < i {
                        assert(old(self)@[j] == x);
                    } else if j > i {
                        assert(old(self)@[j - 1] == x);
                    }
                }
            }
        }
    }

    /// Takes `e` out; a set that does not hold it stays as it is.
    pub fn remove(&mut self, e: Entity)
        requires
            old(self).wf(),
        ensures
            final(self).wf(),
            forall|x: Entity| final(self)@.contains(x) <==> (old(self)@.contains(x) && x != e),
            !old(self)@.contains(e) ==> final(self)@ == old(self)@,
    {
        let i = self.rank(e);
        if i < self.items.len() && self.items[i].id == e.id {
            assert(self@[i as int] == e);
            self.items.remove(i);
            assert forall|x: Entity| self@.contains(x) <==> (old(self)@.contains(x) && x != e) by {
                if old(self)@.contains(x) && x != e {
                    let j = choose|j: int| 0 <= j < old(self)@.len() && old(self)@[j] == x;
                    if j < i {
                        assert(self@[j] == x);
                    } else {
                        assert(self@[j - 1] == x);
                    }
                }
                if self@.contains(x) {
                    let j = choose|j: int| 0 <= j < self@.len() && self@[j] == x;
                    if j < i {
                        assert(old(self)@[j] == x);
                    } else {
                        assert(old(self)@[j + 1] == x);
                    }
                }
            }
        } else {
            assert(!old(self)@.contains(e)) by {
                if old(self)@.contains(e) {
                    let j = choose|j: int| 0 <= j < old(self)@.len() && old(self)@[j] == e;
                    assert(old(self)@[j].id == e.id);
                }
            }
        }
    }
}

} // verus!
