use vstd::prelude::*;
use crate::value::Value;

verus! {

/// A handle to a scope record: the slot it lives in and the generation of its stay there.
#[derive(Clone, Copy, Debug, PartialEq, Eq, Structural)]
pub struct Handle {
    pub index: usize,
    pub generation: u64,
}

/// A name and the value bound to it.
#[derive(Debug)]
pub struct Binding {
    pub name: String,
    pub value: Value,
}

/// A scope record: the bindings of one namespace and the named scopes that it owns.
#[derive(Debug)]
pub struct ScopeValue {
    /// The short name of a named scope; empty for a block.
    name: String,
    values: Vec<Binding>,
    named_scope_refs: Vec<Handle>,
}

impl ScopeValue {
    /// No name is bound twice.
    pub closed spec fn wf(&self) -> bool {
        forall|i: int, j: int|
            0 <= i < j < self.values@.len() ==> self.values@[i].name@ != self.values@[j].name@
    }

    /// Whether some binding of the record is one of `name`.
    closed spec fn listed(&self, name: Seq<char>) -> bool {
        exists|i: int| 0 <= i < self.values@.len() && #[trigger] self.values@[i].name@ == name
    }

    /// Whether the record binds `name`.
    pub open spec fn holds(&self, name: Seq<char>) -> bool {
        self.get(name) is Some
    }

    /// Where the record binds `name`.
    pub closed spec fn position(&self, name: Seq<char>) -> int {
        choose|i: int| 0 <= i < self.values@.len() && #[trigger] self.values@[i].name@ == name
    }

    /// The value that the record binds to `name`.
    pub closed spec fn get(&self, name: Seq<char>) -> Option<Value> {
        if self.listed(name) {
            Some(self.values@[self.position(name)].value)
        } else {
            None
        }
    }

    /// The number of bindings.
    pub closed spec fn count(&self) -> nat {
        self.values@.len()
    }

    /// The bound names, oldest binding first.
    pub closed spec fn names(&self) -> Seq<Seq<char>> {
        Seq::new(self.values@.len(), |i: int| self.values@[i].name@)
    }

    /// The bound values, in the order of `names`.
    pub closed spec fn bound_values(&self) -> Seq<Value> {
        Seq::new(self.values@.len(), |i: int| self.values@[i].value)
    }

    /// The named scopes that the record owns, oldest first.
    pub closed spec fn refs(&self) -> Seq<Handle> {
        self.named_scope_refs@
    }

    /// The short name under which a named scope was declared.
    pub closed spec fn label(&self) -> Seq<char> {
        self.name@
    }

    /// A record binds the names that `get` finds a value for.
    pub proof fn lemma_get(&self, name: Seq<char>)
        ensures
            self.holds(name) <==> self.get(name) is Some,
    {
    }

    /// Each name is listed once, and `get` returns the value listed beside it.
    pub proof fn lemma_names(&self)
        requires
            self.wf(),
        ensures
            self.names().len() == self.count(),
            self.bound_values().len() == self.count(),
            forall|i: int|
                0 <= i < self.count() ==> #[trigger] self.get(self.names()[i]) == Some(
                    self.bound_values()[i],
                ),
            forall|i: int, j: int|
                0 <= i < j < self.count() ==> self.names()[i] != self.names()[j],
            forall|n: Seq<char>| self.holds(n) <==> self.names().contains(n),
    {
        assert forall|i: int| 0 <= i < self.count() implies #[trigger] self.get(self.names()[i])
            == Some(self.bound_values()[i]) by {
            let n = self.values@[i].name@;
            assert(self.holds(n));
            let p = self.position(n);
            assert(p == i);
        }
        assert forall|n: Seq<char>| self.holds(n) <==> self.names().contains(n) by {
            if self.holds(n) {
                let p = self.position(n);
                assert(self.names()[p] == n);
            }
            if self.names().contains(n) {
                let i = choose|i: int| 0 <= i < self.names().len() && self.names()[i] == n;
                assert(self.values@[i].name@ == n);
            }
        }
    }

    /// An empty record without a name.
    pub fn new() -> (r: ScopeValue)
        ensures
            r.wf(),
            r.count() == 0,
            r.refs() == Seq::<Handle>::empty(),
            r.label() == Seq::<char>::empty(),
            forall|n: Seq<char>| r.get(n) is None,
    {
        ScopeValue { name: String::new(), values: Vec::new(), named_scope_refs: Vec::new() }
    }

    /// An empty record for a named scope.
    pub fn named(name: String) -> (r: ScopeValue)
        ensures
            r.wf(),
            r.count() == 0,
            r.refs() == Seq::<Handle>::empty(),
            r.label() == name@,
            forall|n: Seq<char>| r.get(n) is None,
    {
        ScopeValue { name, values: Vec::new(), named_scope_refs: Vec::new() }
    }

    fn find(&self, name: &String) -> (r: Option<usize>)
        requires
            self.wf(),
        ensures
            match r {
                Some(i) => i < self.values@.len() && self.values@[i as int].name@ == name@
                    && self.holds(name@) && self.position(name@) == i,
                None => !self.holds(name@),
            },
    {
        let mut i: usize = 0;
        while i < self.values.len()
            invariant
                self.wf(),
                i <= self.values@.len(),
                forall|j: int| 0 <= j < i ==> self.values@[j].name@ != name@,
            decreases self.values@.len() - i,
        {
            if self.values[i].name == *name {
                assert(self.values@[i as int].name@ == name@);
                assert(self.holds(name@));
                return Some(i);
            }
            i += 1;
        }
        None
    }

    /// The value bound to `name`.
    pub fn lookup(&self, name: &String) -> (r: Option<&Value>)
        requires
            self.wf(),
        ensures
            match r {
                Some(v) => self.get(name@) == Some(*v),
                None => self.get(name@) is None,
            },
    {
        match self.find(name) {
            Some(i) => Some(&self.values[i].value),
            None => None,
        }
    }

    /// Binds `name` to `value`, in place of what it was bound to.
    pub fn bind(&mut self, name: String, value: Value)
        requires
            old(self).wf(),
        ensures
            final(self).wf(),
            final(self).refs() == old(self).refs(),
            final(self).label() == old(self).label(),
            forall|n: Seq<char>|
                #[trigger] final(self).get(n) == (if n == name@ {
                    Some(value)
                } else {
                    old(self).get(n)
                }),
            final(self).count() == old(self).count() + (if old(self).holds(name@) {
                0nat
            } else {
                1nat
            }),
    {
        let found = self.find(&name);
        match found {
            Some(i) => {
                self.values[i].value = value;
                proof {
                    assert forall|n: Seq<char>| #[trigger]
                        final(self).get(n) == (if n == name@ {
                            Some(value)
                        } else {
                            old(self).get(n)
                        }) by {
                        if old(self).holds(n) {
                            let p = old(self).position(n);
                            assert(self.values@[p].name@ == n);
                            assert(self.position(n) == p);
                        }
                        if self.holds(n) {
                            let p = self.position(n);
                            assert(old(self).values@[p].name@ == n);
                        }
                    }
                }
            },
            None => {
                self.values.push(Binding { name, value });
                proof {
                    let last = old(self).values@.len() as int;
                    assert forall|n: Seq<char>| #[trigger]
                        final(self).get(n) == (if n == name@ {
                            Some(value)
                        } else {
                            old(self).get(n)
                        }) by {
                        if old(self).holds(n) {
                            let p = old(self).position(n);
                            assert(self.values@[p].name@ == n);
                            assert(self.position(n) == p);
                        }
                        if self.holds(n) {
                            let p = self.position(n);
                            if p < last {
                                assert(old(self).values@[p].name@ == n);
                            }
                        }
                        if n == name@ {
                            assert(self.values@[last].name@ == n);
                            assert(self.position(n) == last);
                        }
                    }
                }
            },
        }
    }

    /// Removes the binding of `name`, if there is one.
    pub fn unbind(&mut self, name: &String)
        requires
            old(self).wf(),
        ensures
            final(self).wf(),
            final(self).refs() == old(self).refs(),
            final(self).label() == old(self).label(),
            forall|n: Seq<char>|
                #[trigger] final(self).get(n) == (if n == name@ {
                    None
                } else {
                    old(self).get(n)
                }),
            final(self).count() == old(self).count() - (if old(self).holds(name@) {
                1nat
            } else {
                0nat
            }),
    {
        let found = self.find(name);
        match found {
            Some(i) => {
                self.values.remove(i);
                proof {
                    assert forall|n: Seq<char>| #[trigger]
                        final(self).get(n) == (if n == name@ {
                            None
                        } else {
                            old(self).get(n)
                        }) by {
                        if old(self).holds(n) && n != name@ {
                            let p = old(self).position(n);
                            let q = if p < i {
                                p
                            } else {
                                p - 1
                            };
                            assert(self.values@[q].name@ == n);
                            assert(self.position(n) == q);
                        }
                        if self.holds(n) {
                            let q = self.position(n);
                            let p = if q < i {
                                q
                            } else {
                                q + 1
                            };
                            assert(old(self).values@[p].name@ == n);
                        }
                    }
                }
            },
            None => {},
        }
    }

    /// The number of bindings.
    pub fn len(&self) -> (n: usize)
        ensures
            n == self.count(),
    {
        self.values.len()
    }

    /// The binding at place `i`, in the order of `names`.
    pub fn entry(&self, i: usize) -> (r: &Binding)
        requires
            i < self.count(),
        ensures
            r.name@ == self.names()[i as int],
            r.value == self.bound_values()[i as int],
    {
        &self.values[i]
    }

    /// The number of named scopes that the record owns.
    pub fn owned(&self) -> (n: usize)
        ensures
            n == self.refs().len(),
    {
        self.named_scope_refs.len()
    }

    /// The named scope at place `i` among those that the record owns.
    pub fn owned_at(&self, i: usize) -> (h: Handle)
        requires
            i < self.refs().len(),
        ensures
            h == self.refs()[i as int],
    {
        self.named_scope_refs[i]
    }

    /// The short name under which a named scope was declared.
    pub fn label_text(&self) -> (r: &String)
        ensures
            r@ == self.label(),
    {
        &self.name
    }

    fn adopt(&mut self, h: Handle)
        ensures
            final(self).wf() == old(self).wf(),
            final(self).refs() == old(self).refs().push(h),
            final(self).label() == old(self).label(),
            final(self).count() == old(self).count(),
            forall|n: Seq<char>| #[trigger] final(self).get(n) == old(self).get(n),
            forall|n: Seq<char>| #[trigger] final(self).holds(n) == old(self).holds(n),
    {
        self.named_scope_refs.push(h);
        proof {
            assert(self.values == old(self).values);
        }
    }
}

/// How a frame came onto the scope stack.
#[derive(Clone, Copy, Debug, PartialEq, Eq, Structural)]
pub enum FrameKind {
    /// A block that was entered: its record goes when the block exits.
    Block,
    /// A named scope whose declaration is under way.
    Declaration,
    /// A named scope that was entered through a handle: its record stays when it is left.
    Entered,
}

/// An entry of the scope stack.
#[derive(Clone, Copy, Debug, PartialEq, Eq, Structural)]
pub struct Frame {
    pub handle: Handle,
    pub kind: FrameKind,
}

/// Why the vault refused an operation.
#[derive(Clone, Copy, Debug, PartialEq, Eq, Structural)]
pub enum VaultError {
    /// The scope stack holds no frame to work on.
    NoActiveScope,
    /// The innermost frame is not a block.
    NotABlock,
    /// The innermost frame is not a declaration under way.
    NotADeclaration,
    /// The innermost frame was not entered through a handle.
    NotEntered,
    /// The handle names no live record.
    StaleHandle,
}

#[derive(Debug)]
struct Slot {
    generation: u64,
    record: Option<ScopeValue>,
}

/// The scope store: an arena of scope records and the stack of the active ones.
#[derive(Debug)]
pub struct Vault {
    slots: Vec<Slot>,
    /// Slots that were vacated, to be tried first by the next allocation.
    free: Vec<usize>,
    frames: Vec<Frame>,
}

/// The number of slots that hold a record.
spec fn occupied(slots: Seq<Slot>) -> nat
    decreases slots.len(),
{
    if slots.len() == 0 {
        0
    } else {
        occupied(slots.drop_last()) + (if slots.last().record is Some {
            1nat
        } else {
            0nat
        })
    }
}

proof fn lemma_occupied_vacate(slots: Seq<Slot>, i: int, s: Slot)
    requires
        0 <= i < slots.len(),
        slots[i].record is Some,
        s.record is None,
    ensures
        occupied(slots.update(i, s)) + 1 == occupied(slots),
    decreases slots.len(),
{
    if i == slots.len() - 1 {
        assert(slots.update(i, s).drop_last() =~= slots.drop_last());
    } else {
        lemma_occupied_vacate(slots.drop_last(), i, s);
        assert(slots.update(i, s).drop_last() =~= slots.drop_last().update(i, s));
    }
}

impl Vault {
    /// Whether `h` names a record of the vault.
    pub closed spec fn live(&self, h: Handle) -> bool {
        &&& h.index < self.slots@.len()
        &&& self.slots@[h.index as int].generation == h.generation
        &&& self.slots@[h.index as int].record is Some
    }

    /// Whether `h` named a record that has since been deleted.
    pub closed spec fn retired(&self, h: Handle) -> bool {
        &&& h.index < self.slots@.len()
        &&& h.generation < self.slots@[h.index as int].generation
    }

    /// Whether `h` was ever handed out.
    pub open spec fn issued(&self, h: Handle) -> bool {
        self.live(h) || self.retired(h)
    }

    /// The record that a live handle names.
    pub closed spec fn scope(&self, h: Handle) -> ScopeValue {
        self.slots@[h.index as int].record->Some_0
    }

    /// The scope stack, innermost frame last.
    pub closed spec fn frames(&self) -> Seq<Frame> {
        self.frames@
    }

    /// Whether the live record `p` lists `c` among the named scopes that it owns.
    pub open spec fn owns(&self, p: Handle, c: Handle) -> bool {
        self.live(p) && self.scope(p).refs().contains(c)
    }

    /// Whether the stack holds `h` as a block or as a declaration under way.
    pub open spec fn rooted(&self, h: Handle) -> bool {
        exists|j: int|
            0 <= j < self.frames().len() && #[trigger] self.frames()[j].handle == h
                && self.frames()[j].kind != FrameKind::Entered
    }

    /// Every record is well formed, and a slot that holds one can still be vacated.
    pub closed spec fn slots_wf(&self) -> bool {
        forall|i: int|
            0 <= i < self.slots@.len() && (#[trigger] self.slots@[i]).record is Some
                ==> self.slots@[i].generation < u64::MAX && self.slots@[i].record->Some_0.wf()
    }

    /// The stack and the ownership lists agree with the set of live records: nothing dangles
    /// and nothing is left over.
    pub open spec fn coherent(&self) -> bool {
        // the record of a block or of a declaration under way is live
        &&& forall|j: int|
            0 <= j < self.frames().len() && (#[trigger] self.frames()[j]).kind
                != FrameKind::Entered ==> self.live(self.frames()[j].handle)
        // every frame was handed out
        &&& forall|j: int|
            0 <= j < self.frames().len() ==> self.issued((#[trigger] self.frames()[j]).handle)
        // a block or a declaration under way is on the stack once, above all its other frames
        &&& forall|i: int, j: int|
            0 <= i < j < self.frames().len() && (#[trigger] self.frames()[j]).kind
                != FrameKind::Entered ==> (#[trigger] self.frames()[i]).handle
                != self.frames()[j].handle
        // an owned scope is live, and is no block or declaration under way
        &&& forall|p: Handle, c: Handle| #[trigger]
            self.owns(p, c) ==> self.live(c) && !self.rooted(c)
        // a scope has one owner at most
        &&& forall|p: Handle, q: Handle, c: Handle|
            #[trigger] self.owns(p, c) && #[trigger] self.owns(q, c) ==> p == q
        // and is listed once
        &&& forall|p: Handle, i: int, j: int|
            self.live(p) && 0 <= i < j < self.scope(p).refs().len() ==> #[trigger] self.scope(
                p,
            ).refs()[i] != #[trigger] self.scope(p).refs()[j]
        // every live record is on the stack or owned
        &&& forall|h: Handle| #[trigger]
            self.live(h) ==> self.rooted(h) || exists|p: Handle| #[trigger] self.owns(p, h)
    }

    /// The invariant of the vault.
    pub open spec fn wf(&self) -> bool {
        self.slots_wf() && self.coherent() && forall|h: Handle| #[trigger]
            self.live(h) ==> self.scope(h).wf()
    }

    /// How far the slot `i` has come: it rises when a record moves in and when it moves out,
    /// and never falls.
    pub closed spec fn level(&self, i: int) -> int {
        if 0 <= i < self.slots@.len() {
            2 * self.slots@[i].generation + (if self.slots@[i].record is Some {
                1int
            } else {
                0int
            })
        } else {
            -1
        }
    }

    /// `later` can be reached from `self`: no slot has gone back, so that no handle that was
    /// handed out can be handed out again.
    pub open spec fn precedes(&self, later: &Vault) -> bool {
        forall|i: int|
            #![trigger self.level(i)]
            #![trigger later.level(i)]
            self.level(i) <= later.level(i)
    }

    /// The innermost of the first `depth` frames whose record is live and binds `name`.
    pub open spec fn holder_within(&self, depth: int, name: Seq<char>) -> Option<Handle>
        decreases depth,
    {
        if depth <= 0 || depth > self.frames().len() {
            None
        } else {
            let h = self.frames()[depth - 1].handle;
            if self.live(h) && self.scope(h).holds(name) {
                Some(h)
            } else {
                self.holder_within(depth - 1, name)
            }
        }
    }

    /// The record that a lookup of `name` finds: the innermost active one that binds it.
    pub open spec fn holder(&self, name: Seq<char>) -> Option<Handle> {
        self.holder_within(self.frames().len() as int, name)
    }

    /// The value that a lookup of `name` finds.
    pub open spec fn resolved(&self, name: Seq<char>) -> Option<Value> {
        match self.holder(name) {
            Some(h) => self.scope(h).get(name),
            None => None,
        }
    }

    /// The record of the innermost frame.
    pub open spec fn current(&self) -> Option<Handle> {
        if self.frames().len() > 0 {
            Some(self.frames().last().handle)
        } else {
            None
        }
    }

    /// A vault without records or frames.
    pub fn new() -> (v: Vault)
        ensures
            v.wf(),
            v.frames() == Seq::<Frame>::empty(),
            forall|h: Handle| !v.issued(h),
    {
        Vault { slots: Vec::new(), free: Vec::new(), frames: Vec::new() }
    }

    /// Whether `h` names a record of the vault.
    pub fn is_live(&self, h: Handle) -> (b: bool)
        ensures
            b == self.live(h),
    {
        h.index < self.slots.len() && self.slots[h.index].generation == h.generation
            && self.slots[h.index].record.is_some()
    }

    /// The number of frames on the scope stack.
    pub fn depth(&self) -> (n: usize)
        ensures
            n == self.frames().len(),
    {
        self.frames.len()
    }

    /// The frame at place `i` of the scope stack, outermost first.
    pub fn frame(&self, i: usize) -> (f: Frame)
        requires
            i < self.frames().len(),
        ensures
            f == self.frames()[i as int],
    {
        self.frames[i]
    }

    /// The record of the innermost frame.
    pub fn current_scope(&self) -> (r: Option<Handle>)
        ensures
            r == self.current(),
    {
        if self.frames.len() > 0 {
            Some(self.frames[self.frames.len() - 1].handle)
        } else {
            None
        }
    }

    /// The record that `h` names.
    pub fn record(&self, h: Handle) -> (r: Option<&ScopeValue>)
        ensures
            match r {
                Some(rec) => self.live(h) && *rec == self.scope(h),
                None => !self.live(h),
            },
    {
        if self.is_live(h) {
            self.slots[h.index].record.as_ref()
        } else {
            None
        }
    }

    /// `post` is `pre` with a new, empty record `h` on top of the stack.
    pub open spec fn opened(
        pre: &Vault,
        post: &Vault,
        h: Handle,
        kind: FrameKind,
        label: Seq<char>,
    ) -> bool {
        &&& !pre.issued(h)
        &&& post.live(h)
        &&& post.scope(h).count() == 0
        &&& post.scope(h).refs().len() == 0
        &&& post.scope(h).label() == label
        &&& forall|n: Seq<char>| (#[trigger] post.scope(h).get(n)) is None
        &&& post.frames() == pre.frames().push(Frame { handle: h, kind })
        &&& forall|g: Handle| g != h ==> #[trigger] post.live(g) == pre.live(g)
        &&& forall|g: Handle| #[trigger] pre.live(g) ==> post.scope(g) == pre.scope(g)
    }

    /// `post` is `pre` without the record `root` and without the named scopes that it owned,
    /// directly or through them; all other records are as they were.
    pub open spec fn released(pre: &Vault, post: &Vault, root: Handle) -> bool {
        &&& !post.live(root)
        &&& forall|h: Handle| #[trigger]
            post.live(h) ==> pre.live(h) && post.scope(h) == pre.scope(h)
        &&& forall|p: Handle, c: Handle| #[trigger]
            pre.owns(p, c) && !post.live(p) ==> !post.live(c)
        &&& forall|h: Handle|
            #[trigger] pre.live(h) && !post.live(h) && h != root ==> exists|p: Handle| #[trigger]
                pre.owns(p, h) && !post.live(p)
    }

    /// `post` is `pre` but for the bindings of the live record `h`, which are those of `rec`.
    pub open spec fn rebound(pre: &Vault, post: &Vault, h: Handle) -> bool {
        &&& pre.live(h)
        &&& post.frames() == pre.frames()
        &&& forall|g: Handle| #[trigger] post.live(g) == pre.live(g)
        &&& forall|g: Handle| g != h && #[trigger] pre.live(g) ==> post.scope(g) == pre.scope(g)
        &&& post.scope(h).refs() == pre.scope(h).refs()
        &&& post.scope(h).label() == pre.scope(h).label()
    }

    /// Two changes of the bindings of one record make one.
    pub proof fn lemma_rebound_twice(pre: &Vault, mid: &Vault, post: &Vault, h: Handle)
        requires
            Vault::rebound(pre, mid, h),
            Vault::rebound(mid, post, h),
        ensures
            Vault::rebound(pre, post, h),
    {
        assert forall|g: Handle| #[trigger] post.live(g) == pre.live(g) by {
            assert(post.live(g) == mid.live(g));
        }
        assert forall|g: Handle| g != h && #[trigger] pre.live(g) implies post.scope(g)
            == pre.scope(g) by {
            assert(mid.live(g));
        }
    }

    /// `precedes` holds of a vault and itself.
    pub proof fn lemma_precedes_itself(&self)
        ensures
            self.precedes(self),
    {
    }

    /// `precedes` is transitive.
    pub proof fn lemma_precedes_chain(&self, mid: &Vault, later: &Vault)
        requires
            self.precedes(mid),
            mid.precedes(later),
        ensures
            self.precedes(later),
    {
        assert forall|i: int|
            #![trigger self.level(i)]
            #![trigger later.level(i)]
            self.level(i) <= later.level(i) by {
            assert(self.level(i) <= mid.level(i));
            assert(mid.level(i) <= later.level(i));
        }
    }

    /// A handle that was handed out stays handed out, and one that was retired stays retired:
    /// it names no record of any later vault.
    pub proof fn lemma_no_return(&self, later: &Vault, h: Handle)
        requires
            self.precedes(later),
        ensures
            self.issued(h) ==> later.issued(h),
            self.retired(h) ==> later.retired(h) && !later.live(h),
            self.issued(h) && later.live(h) ==> self.live(h),
    {
        assert(self.level(h.index as int) <= later.level(h.index as int));
    }

    fn allocate(&mut self, label: String) -> (h: Handle)
        requires
            old(self).slots_wf(),
        ensures
            final(self).slots_wf(),
            old(self).precedes(final(self)),
            final(self).frames() == old(self).frames(),
            !old(self).issued(h),
            final(self).live(h),
            final(self).scope(h).wf(),
            final(self).scope(h).count() == 0,
            final(self).scope(h).refs().len() == 0,
            final(self).scope(h).label() == label@,
            forall|n: Seq<char>| (#[trigger] final(self).scope(h).get(n)) is None,
            forall|g: Handle| g != h ==> #[trigger] final(self).live(g) == old(self).live(g),
            forall|g: Handle| #[trigger] old(self).live(g) ==> final(self).scope(g) == old(self).scope(g),
    {
        while self.free.len() > 0
            invariant
                self.slots == old(self).slots,
                self.frames == old(self).frames,
                self.slots_wf(),
            decreases self.free.len(),
        {
            let i = self.free.pop().unwrap();
            if i < self.slots.len() && self.slots[i].record.is_none() && self.slots[i].generation
                < u64::MAX {
                let generation = self.slots[i].generation;
                self.slots[i].record = Some(ScopeValue::named(label));
                let h = Handle { index: i, generation };
                assert forall|g: Handle| g != h implies #[trigger] self.live(g) == old(self).live(
                    g,
                ) by {
                    if g.index != i && g.index < self.slots@.len() {
                        assert(self.slots@[g.index as int] == old(self).slots@[g.index as int]);
                    }
                }
                return h;
            }
        }
        let i = self.slots.len();
        self.slots.push(Slot { generation: 0, record: Some(ScopeValue::named(label)) });
        Handle { index: i, generation: 0 }
    }

    /// A vault stays coherent when a new record is opened on it.
    proof fn lemma_opened_coherent(pre: &Vault, post: &Vault, h: Handle, kind: FrameKind, label: Seq<char>)
        requires
            pre.coherent(),
            pre.precedes(post),
            Vault::opened(pre, post, h, kind, label),
            kind != FrameKind::Entered,
        ensures
            post.coherent(),
    {
        let top = pre.frames().len() as int;
        assert forall|g: Handle| pre.issued(g) implies post.issued(g) by {
            pre.lemma_no_return(post, g);
        }
        assert forall|p: Handle, c: Handle| #[trigger] post.owns(p, c) implies pre.owns(p, c) by {
            if p == h {
                assert(post.scope(h).refs().len() == 0);
            } else {
                assert(post.live(p) == pre.live(p));
            }
        }
        assert forall|g: Handle| pre.rooted(g) implies post.rooted(g) by {
            let j = choose|j: int|
                0 <= j < pre.frames().len() && #[trigger] pre.frames()[j].handle == g
                    && pre.frames()[j].kind != FrameKind::Entered;
            assert(post.frames()[j].handle == g);
        }
        assert forall|g: Handle| post.rooted(g) && g != h implies pre.rooted(g) by {
            let j = choose|j: int|
                0 <= j < post.frames().len() && #[trigger] post.frames()[j].handle == g
                    && post.frames()[j].kind != FrameKind::Entered;
            assert(j < top);
            assert(pre.frames()[j].handle == g);
        }
        assert(post.frames()[top].handle == h);
        assert(post.rooted(h));
        assert forall|j: int|
            0 <= j < post.frames().len() && (#[trigger] post.frames()[j]).kind
                != FrameKind::Entered implies post.live(post.frames()[j].handle) by {
            if j < top {
                assert(pre.frames()[j] == post.frames()[j]);
                assert(pre.live(pre.frames()[j].handle));
            }
        }
        assert forall|j: int| 0 <= j < post.frames().len() implies post.issued(
            (#[trigger] post.frames()[j]).handle,
        ) by {
            if j < top {
                assert(pre.frames()[j] == post.frames()[j]);
                assert(pre.issued(pre.frames()[j].handle));
            }
        }
        assert forall|i: int, j: int|
            0 <= i < j < post.frames().len() && (#[trigger] post.frames()[j]).kind
                != FrameKind::Entered implies (#[trigger] post.frames()[i]).handle
            != post.frames()[j].handle by {
            assert(pre.frames()[i] == post.frames()[i]);
            if j < top {
                assert(pre.frames()[j] == post.frames()[j]);
            } else {
                assert(pre.issued(pre.frames()[i].handle));
            }
        }
        assert forall|p: Handle, c: Handle| #[trigger] post.owns(p, c) implies post.live(c)
            && !post.rooted(c) by {
            assert(pre.owns(p, c));
            assert(pre.live(c));
        }
        assert forall|p: Handle, i: int, j: int|
            post.live(p) && 0 <= i < j < post.scope(p).refs().len() implies #[trigger] post.scope(
            p,
        ).refs()[i] != #[trigger] post.scope(p).refs()[j] by {
            assert(p != h);
            assert(pre.live(p));
        }
        assert forall|g: Handle| #[trigger] post.live(g) implies post.rooted(g) || exists|
            p: Handle,
        | #[trigger] post.owns(p, g) by {
            if g != h {
                assert(pre.live(g));
                if !pre.rooted(g) {
                    let p = choose|p: Handle| #[trigger] pre.owns(p, g);
                    assert(p != h);
                    assert(post.live(p));
                    assert(post.owns(p, g));
                }
            }
        }
    }

    fn open(&mut self, kind: FrameKind, label: String) -> (h: Handle)
        requires
            old(self).wf(),
            kind != FrameKind::Entered,
        ensures
            final(self).wf(),
            old(self).precedes(final(self)),
            Vault::opened(old(self), final(self), h, kind, label@),
    {
        let h = self.allocate(label);
        let ghost mid = *self;
        self.frames.push(Frame { handle: h, kind });
        proof {
            assert(self.slots == mid.slots);
            assert(self.live(h));
            assert(self.scope(h) == mid.scope(h));
            assert(forall|g: Handle| #[trigger] self.live(g) == mid.live(g));
            assert(forall|g: Handle| #[trigger] self.scope(g) == mid.scope(g));
            assert(self.frames() == old(self).frames().push(Frame { handle: h, kind }));
            assert(Vault::opened(old(self), self, h, kind, label@));
            Vault::lemma_opened_coherent(old(self), self, h, kind, label@);
        }
        h
    }

    /// Enters a block: a new, empty record becomes the innermost scope.
    pub fn enter_block(&mut self) -> (h: Handle)
        requires
            old(self).wf(),
        ensures
            final(self).wf(),
            old(self).precedes(final(self)),
            Vault::opened(old(self), final(self), h, FrameKind::Block, Seq::empty()),
    {
        self.open(FrameKind::Block, String::new())
    }

    /// Starts the declaration of a named scope: a new, empty record becomes the innermost
    /// scope until `end_declaration` hands it to the scope around it.
    pub fn declare_named_scope(&mut self, name: String) -> (h: Handle)
        requires
            old(self).wf(),
        ensures
            final(self).wf(),
            old(self).precedes(final(self)),
            Vault::opened(old(self), final(self), h, FrameKind::Declaration, name@),
    {
        self.open(FrameKind::Declaration, name)
    }

    /// Deletes the record `root`, if it is live, and the named scopes that it owns, directly
    /// or through them.
    fn release_tree(&mut self, root: Handle)
        requires
            old(self).slots_wf(),
        ensures
            final(self).slots_wf(),
            old(self).precedes(final(self)),
            final(self).frames() == old(self).frames(),
            Vault::released(old(self), final(self), root),
    {
        let ghost pre = *self;
        let mut work: Vec<Handle> = Vec::new();
        work.push(root);
        assert(work@[0] == root);
        while work.len() > 0
            invariant
                self.slots_wf(),
                pre.precedes(self),
                self.frames == pre.frames,
                forall|h: Handle| #[trigger]
                    self.live(h) ==> pre.live(h) && self.scope(h) == pre.scope(h),
                forall|p: Handle, c: Handle| #[trigger]
                    pre.owns(p, c) && !self.live(p) ==> !self.live(c) || work@.contains(c),
                forall|h: Handle|
                    #[trigger] pre.live(h) && !self.live(h) && h != root ==> exists|p: Handle|
                     #[trigger]
                        pre.owns(p, h) && !self.live(p),
                forall|j: int|
                    0 <= j < work@.len() ==> (#[trigger] work@[j]) == root || exists|p: Handle|
                     #[trigger]
                        pre.owns(p, work@[j]) && !self.live(p),
                !self.live(root) || work@.contains(root),
            decreases occupied(self.slots@), work@.len(),
        {
            let ghost before = work@;
            let ghost entry = *self;
            let h = work.pop().unwrap();
            assert(h == before[before.len() - 1]);
            assert(forall|c: Handle| before.contains(c) ==> c == h || work@.contains(c)) by {
                assert forall|c: Handle| before.contains(c) implies c == h || work@.contains(
                    c,
                ) by {
                    let j = choose|j: int| 0 <= j < before.len() && before[j] == c;
                    if j < before.len() - 1 {
                        assert(work@[j] == c);
                    }
                }
            }
            if self.is_live(h) {
                let ghost popped = work@;
                let count = self.owned_count(h);
                let mut k: usize = 0;
                while k < count
                    invariant
                        *self == entry,
                        self.live(h),
                        count == self.scope(h).refs().len(),
                        k <= count,
                        work@ == popped + self.scope(h).refs().take(k as int),
                    decreases count - k,
                {
                    let child = self.owned_child(h, k);
                    work.push(child);
                    k += 1;
                    assert(self.scope(h).refs().take(k as int) == self.scope(h).refs().take(
                        k as int - 1,
                    ).push(child));
                }
                assert(self.scope(h).refs().take(count as int) == self.scope(h).refs());
                let ghost refs = self.scope(h).refs();
                assert(work@ == popped + refs);
                assert(pre.live(h) && pre.scope(h).refs() == refs);
                let generation = self.slots[h.index].generation;
                self.slots[h.index].record = None;
                self.slots[h.index].generation = generation + 1;
                self.free.push(h.index);
                proof {
                    let vacant = self.slots@[h.index as int];
                    assert(self.slots@ == entry.slots@.update(h.index as int, vacant));
                    lemma_occupied_vacate(entry.slots@, h.index as int, vacant);
                    assert(!self.live(h));
                    assert forall|g: Handle| #[trigger] self.live(g) implies entry.live(g)
                        && self.scope(g) == entry.scope(g) by {
                        assert(g.index != h.index);
                    }
                    assert forall|g: Handle| g.index != h.index implies #[trigger] self.live(g)
                        == entry.live(g) by {
                        if g.index < self.slots@.len() {
                            assert(self.slots@[g.index as int] == entry.slots@[g.index as int]);
                        }
                    }
                    assert forall|g: Handle| entry.live(g) && g != h implies self.live(g) by {
                        assert(g.index != h.index);
                    }
                    assert forall|c: Handle| popped.contains(c) implies work@.contains(c) by {
                        let j = choose|j: int| 0 <= j < popped.len() && popped[j] == c;
                        assert(work@[j] == c);
                    }
                    assert forall|c: Handle| refs.contains(c) implies work@.contains(c) by {
                        let j = choose|j: int| 0 <= j < refs.len() && refs[j] == c;
                        assert(work@[popped.len() + j] == c);
                    }
                    assert forall|p: Handle, c: Handle| #[trigger]
                        pre.owns(p, c) && !self.live(p) implies !self.live(c) || work@.contains(
                        c,
                    ) by {
                        if p == h {
                            assert(refs.contains(c));
                        } else {
                            assert(!entry.live(p));
                            if entry.live(c) && c != h {
                                assert(before.contains(c));
                                assert(popped.contains(c));
                            }
                        }
                    }
                    assert forall|g: Handle|
                        #[trigger] pre.live(g) && !self.live(g) && g != root implies exists|
                        p: Handle,
                    | #[trigger] pre.owns(p, g) && !self.live(p) by {
                        if g == h {
                            let p = choose|p: Handle| #[trigger]
                                pre.owns(p, before[before.len() - 1]) && !entry.live(p);
                            assert(pre.owns(p, g) && !self.live(p));
                        } else {
                            assert(!entry.live(g));
                            let p = choose|p: Handle| #[trigger]
                                pre.owns(p, g) && !entry.live(p);
                            assert(pre.owns(p, g) && !self.live(p));
                        }
                    }
                    assert forall|j: int| 0 <= j < work@.len() implies (#[trigger] work@[j])
                        == root || exists|p: Handle| #[trigger]
                        pre.owns(p, work@[j]) && !self.live(p) by {
                        if j < popped.len() {
                            assert(work@[j] == before[j]);
                            if before[j] != root {
                                let p = choose|p: Handle| #[trigger]
                                    pre.owns(p, before[j]) && !entry.live(p);
                                assert(pre.owns(p, work@[j]) && !self.live(p));
                            }
                        } else {
                            assert(work@[j] == refs[j - popped.len()]);
                            assert(pre.owns(h, work@[j]) && !self.live(h));
                        }
                    }
                    assert(!self.live(root) || work@.contains(root)) by {
                        if self.live(root) {
                            assert(entry.live(root));
                            assert(before.contains(root));
                            assert(root != h);
                            assert(popped.contains(root));
                        }
                    }
                    assert(pre.precedes(self)) by {
                        assert(entry.precedes(self));
                        pre.lemma_precedes_chain(&entry, self);
                    }
                }
            } else {
                proof {
                    assert forall|j: int| 0 <= j < work@.len() implies (#[trigger] work@[j])
                        == root || exists|p: Handle| #[trigger]
                        pre.owns(p, work@[j]) && !self.live(p) by {
                        assert(work@[j] == before[j]);
                    }
                }
            }
        }
        proof {
            assert forall|p: Handle, c: Handle| #[trigger]
                pre.owns(p, c) && !self.live(p) implies !self.live(c) by {
                assert(!work@.contains(c));
            }
        }
    }

    fn owned_count(&self, h: Handle) -> (n: usize)
        requires
            self.live(h),
        ensures
            n == self.scope(h).refs().len(),
    {
        match &self.slots[h.index].record {
            Some(rec) => rec.owned(),
            None => 0,
        }
    }

    fn owned_child(&self, h: Handle, k: usize) -> (c: Handle)
        requires
            self.live(h),
            k < self.scope(h).refs().len(),
        ensures
            c == self.scope(h).refs()[k as int],
    {
        match &self.slots[h.index].record {
            Some(rec) => rec.owned_at(k),
            None => h,
        }
    }

    /// `post` is `pre` with `h` on top of the stack as a scope entered through its handle.
    pub open spec fn entered(pre: &Vault, post: &Vault, h: Handle) -> bool {
        &&& pre.live(h)
        &&& post.frames() == pre.frames().push(Frame { handle: h, kind: FrameKind::Entered })
        &&& forall|g: Handle| #[trigger] post.live(g) == pre.live(g)
        &&& forall|g: Handle| #[trigger] pre.live(g) ==> post.scope(g) == pre.scope(g)
    }

    /// `post` is `pre` without its innermost frame; the records are as they were.
    pub open spec fn left(pre: &Vault, post: &Vault) -> bool {
        &&& pre.frames().len() > 0
        &&& post.frames() == pre.frames().drop_last()
        &&& forall|g: Handle| #[trigger] post.live(g) == pre.live(g)
        &&& forall|g: Handle| #[trigger] pre.live(g) ==> post.scope(g) == pre.scope(g)
    }

    /// `post` is `pre` after the declaration of `h` has ended: its frame is gone, and the
    /// scope below owns it and binds its name to its handle.
    pub open spec fn adopted(pre: &Vault, post: &Vault, h: Handle) -> bool {
        let owner = pre.frames()[pre.frames().len() - 2].handle;
        &&& pre.frames().len() >= 2
        &&& pre.frames().last() == Frame { handle: h, kind: FrameKind::Declaration }
        &&& pre.live(owner)
        &&& pre.live(h)
        &&& owner != h
        &&& post.frames() == pre.frames().drop_last()
        &&& forall|g: Handle| #[trigger] post.live(g) == pre.live(g)
        &&& forall|g: Handle|
            g != owner && #[trigger] pre.live(g) ==> post.scope(g) == pre.scope(g)
        &&& post.scope(owner).refs() == pre.scope(owner).refs().push(h)
        &&& post.scope(owner).label() == pre.scope(owner).label()
        &&& forall|n: Seq<char>|
            #[trigger] post.scope(owner).get(n) == (if n == pre.scope(h).label() {
                Some(Value::ScopeRef(h))
            } else {
                pre.scope(owner).get(n)
            })
    }

    /// Why the declaration on top of the stack cannot end, if it cannot.
    pub open spec fn declaration_refusal(&self) -> Option<VaultError> {
        if self.frames().len() == 0 {
            Some(VaultError::NoActiveScope)
        } else if self.frames().last().kind != FrameKind::Declaration {
            Some(VaultError::NotADeclaration)
        } else if self.frames().len() < 2 {
            Some(VaultError::NoActiveScope)
        } else if !self.live(self.frames()[self.frames().len() - 2].handle) {
            Some(VaultError::StaleHandle)
        } else {
            None
        }
    }

    /// A vault stays coherent when its innermost block, or declaration under way, is released.
    proof fn lemma_released_coherent(pre: &Vault, post: &Vault, root: Handle)
        requires
            pre.coherent(),
            pre.precedes(post),
            Vault::released(pre, post, root),
            pre.frames().len() > 0,
            pre.frames().last().handle == root,
            pre.frames().last().kind != FrameKind::Entered,
            post.frames() == pre.frames().drop_last(),
        ensures
            post.coherent(),
    {
        let top = pre.frames().len() - 1;
        assert(pre.rooted(root));
        assert forall|g: Handle| post.rooted(g) implies pre.rooted(g) && g != root by {
            let j = choose|j: int|
                0 <= j < post.frames().len() && #[trigger] post.frames()[j].handle == g
                    && post.frames()[j].kind != FrameKind::Entered;
            assert(pre.frames()[j] == post.frames()[j]);
            assert(pre.frames()[j].handle != pre.frames()[top].handle);
        }
        assert forall|g: Handle| pre.rooted(g) && g != root implies post.rooted(g) by {
            let j = choose|j: int|
                0 <= j < pre.frames().len() && #[trigger] pre.frames()[j].handle == g
                    && pre.frames()[j].kind != FrameKind::Entered;
            assert(j < top);
            assert(post.frames()[j].handle == g);
        }
        assert forall|p: Handle, c: Handle| #[trigger] post.owns(p, c) implies pre.owns(p, c) by {
            assert(post.live(p));
        }
        // a live record that is not the root is not deleted unless its owner is
        assert forall|g: Handle| pre.rooted(g) && g != root implies post.live(g) by {
            let j = choose|j: int|
                0 <= j < pre.frames().len() && #[trigger] pre.frames()[j].handle == g
                    && pre.frames()[j].kind != FrameKind::Entered;
            assert(pre.live(pre.frames()[j].handle));
            if !post.live(g) {
                let p = choose|p: Handle| #[trigger] pre.owns(p, g) && !post.live(p);
                assert(pre.owns(p, g));
            }
        }
        assert forall|j: int|
            0 <= j < post.frames().len() && (#[trigger] post.frames()[j]).kind
                != FrameKind::Entered implies post.live(post.frames()[j].handle) by {
            assert(pre.frames()[j] == post.frames()[j]);
            assert(post.rooted(post.frames()[j].handle));
        }
        assert forall|j: int| 0 <= j < post.frames().len() implies post.issued(
            (#[trigger] post.frames()[j]).handle,
        ) by {
            assert(pre.frames()[j] == post.frames()[j]);
            pre.lemma_no_return(post, pre.frames()[j].handle);
        }
        assert forall|i: int, j: int|
            0 <= i < j < post.frames().len() && (#[trigger] post.frames()[j]).kind
                != FrameKind::Entered implies (#[trigger] post.frames()[i]).handle
            != post.frames()[j].handle by {
            assert(pre.frames()[i] == post.frames()[i]);
            assert(pre.frames()[j] == post.frames()[j]);
        }
        assert forall|p: Handle, c: Handle| #[trigger] post.owns(p, c) implies post.live(c)
            && !post.rooted(c) by {
            assert(pre.owns(p, c));
            if !post.live(c) {
                assert(pre.live(c) && c != root);
                let q = choose|q: Handle| #[trigger] pre.owns(q, c) && !post.live(q);
                assert(pre.owns(q, c));
                assert(q == p);
            }
        }
        assert forall|p: Handle, i: int, j: int|
            post.live(p) && 0 <= i < j < post.scope(p).refs().len() implies #[trigger] post.scope(
            p,
        ).refs()[i] != #[trigger] post.scope(p).refs()[j] by {
            assert(pre.live(p));
        }
        assert forall|g: Handle| #[trigger] post.live(g) implies post.rooted(g) || exists|
            p: Handle,
        | #[trigger] post.owns(p, g) by {
            assert(pre.live(g));
            if !pre.rooted(g) {
                let p = choose|p: Handle| #[trigger] pre.owns(p, g);
                assert(pre.owns(p, g));
                if !post.live(p) {
                    assert(!post.live(g));
                }
                assert(post.owns(p, g));
            }
        }
    }

    /// A vault stays coherent when bindings change.
    proof fn lemma_rebound_coherent(pre: &Vault, post: &Vault, h: Handle)
        requires
            pre.coherent(),
            pre.precedes(post),
            Vault::rebound(pre, post, h),
        ensures
            post.coherent(),
    {
        assert forall|p: Handle| #[trigger] post.live(p) implies post.scope(p).refs() == pre.scope(
            p,
        ).refs() by {
            assert(pre.live(p));
        }
        assert forall|p: Handle, c: Handle| #[trigger] post.owns(p, c) == pre.owns(p, c) by {
            assert(post.live(p) == pre.live(p));
        }
        assert forall|g: Handle| post.rooted(g) == pre.rooted(g) by {}
        assert forall|j: int| 0 <= j < post.frames().len() implies post.issued(
            (#[trigger] post.frames()[j]).handle,
        ) by {
            pre.lemma_no_return(post, pre.frames()[j].handle);
        }
        assert forall|p: Handle, c: Handle| #[trigger] post.owns(p, c) implies post.live(c)
            && !post.rooted(c) by {
            assert(pre.owns(p, c));
        }
        assert forall|p: Handle, q: Handle, c: Handle|
            #[trigger] post.owns(p, c) && #[trigger] post.owns(q, c) implies p == q by {
            assert(pre.owns(p, c) && pre.owns(q, c));
        }
        assert forall|p: Handle, i: int, j: int|
            post.live(p) && 0 <= i < j < post.scope(p).refs().len() implies #[trigger] post.scope(
            p,
        ).refs()[i] != #[trigger] post.scope(p).refs()[j] by {
            assert(pre.live(p));
        }
        assert forall|g: Handle| #[trigger] post.live(g) implies post.rooted(g) || exists|
            p: Handle,
        | #[trigger] post.owns(p, g) by {
            assert(pre.live(g));
            if !pre.rooted(g) {
                let p = choose|p: Handle| #[trigger] pre.owns(p, g);
                assert(post.owns(p, g));
            }
        }
    }

    /// Removes the innermost frame; the record of a block, or of a declaration under way, is
    /// deleted with all that it owns.
    fn drop_frame(&mut self) -> (top: Frame)
        requires
            old(self).wf(),
            old(self).frames().len() > 0,
        ensures
            final(self).wf(),
            old(self).precedes(final(self)),
            top == old(self).frames().last(),
            final(self).frames() == old(self).frames().drop_last(),
            top.kind != FrameKind::Entered ==> Vault::released(old(self), final(self), top.handle),
            top.kind == FrameKind::Entered ==> Vault::left(old(self), final(self)),
            forall|h: Handle| #[trigger]
                final(self).live(h) ==> old(self).live(h) && final(self).scope(h) == old(self).scope(h),
    {
        let top = self.frames.pop().unwrap();
        let ghost mid = *self;
        proof {
            assert(mid.slots == old(self).slots);
            assert(forall|g: Handle| #[trigger] mid.live(g) == old(self).live(g));
            assert(forall|g: Handle| #[trigger] mid.scope(g) == old(self).scope(g));
            assert(forall|p: Handle, c: Handle| #[trigger] mid.owns(p, c) == old(self).owns(p, c));
            assert(old(self).precedes(&mid));
        }
        if top.kind != FrameKind::Entered {
            self.release_tree(top.handle);
            proof {
                old(self).lemma_precedes_chain(&mid, self);
                assert(Vault::released(old(self), self, top.handle)) by {
                    assert forall|h: Handle|
                        #[trigger] old(self).live(h) && !self.live(h) && h
                            != top.handle implies exists|p: Handle| #[trigger]
                        old(self).owns(p, h) && !self.live(p) by {
                        assert(mid.live(h));
                        let p = choose|p: Handle| #[trigger] mid.owns(p, h) && !self.live(p);
                        assert(old(self).owns(p, h) && !self.live(p));
                    }
                    assert forall|p: Handle, c: Handle| #[trigger]
                        old(self).owns(p, c) && !self.live(p) implies !self.live(c) by {
                        assert(mid.owns(p, c));
                    }
                }
                Vault::lemma_released_coherent(old(self), self, top.handle);
                assert forall|h: Handle| #[trigger] self.live(h) implies self.scope(h).wf() by {
                    assert(old(self).live(h));
                }
            }
        } else {
            proof {
                assert(Vault::left(old(self), self));
                Vault::lemma_left_coherent(old(self), self);
            }
        }
        top
    }

    /// A vault stays coherent when a scope that was entered through its handle is left.
    proof fn lemma_left_coherent(pre: &Vault, post: &Vault)
        requires
            pre.coherent(),
            pre.precedes(post),
            Vault::left(pre, post),
            pre.frames().last().kind == FrameKind::Entered,
        ensures
            post.coherent(),
    {
        let top = pre.frames().len() - 1;
        assert forall|p: Handle, c: Handle| #[trigger] post.owns(p, c) == pre.owns(p, c) by {
            assert(post.live(p) == pre.live(p));
        }
        assert forall|g: Handle| post.rooted(g) == pre.rooted(g) by {
            if post.rooted(g) {
                let j = choose|j: int|
                    0 <= j < post.frames().len() && #[trigger] post.frames()[j].handle == g
                        && post.frames()[j].kind != FrameKind::Entered;
                assert(pre.frames()[j] == post.frames()[j]);
            }
            if pre.rooted(g) {
                let j = choose|j: int|
                    0 <= j < pre.frames().len() && #[trigger] pre.frames()[j].handle == g
                        && pre.frames()[j].kind != FrameKind::Entered;
                assert(j < top);
                assert(post.frames()[j].handle == g);
            }
        }
        assert forall|j: int|
            0 <= j < post.frames().len() && (#[trigger] post.frames()[j]).kind
                != FrameKind::Entered implies post.live(post.frames()[j].handle) by {
            assert(pre.frames()[j] == post.frames()[j]);
        }
        assert forall|j: int| 0 <= j < post.frames().len() implies post.issued(
            (#[trigger] post.frames()[j]).handle,
        ) by {
            assert(pre.frames()[j] == post.frames()[j]);
            pre.lemma_no_return(post, pre.frames()[j].handle);
        }
        assert forall|i: int, j: int|
            0 <= i < j < post.frames().len() && (#[trigger] post.frames()[j]).kind
                != FrameKind::Entered implies (#[trigger] post.frames()[i]).handle
            != post.frames()[j].handle by {
            assert(pre.frames()[i] == post.frames()[i]);
            assert(pre.frames()[j] == post.frames()[j]);
        }
        assert forall|p: Handle, c: Handle| #[trigger] post.owns(p, c) implies post.live(c)
            && !post.rooted(c) by {
            assert(pre.owns(p, c));
        }
        assert forall|p: Handle, q: Handle, c: Handle|
            #[trigger] post.owns(p, c) && #[trigger] post.owns(q, c) implies p == q by {
            assert(pre.owns(p, c) && pre.owns(q, c));
        }
        assert forall|p: Handle, i: int, j: int|
            post.live(p) && 0 <= i < j < post.scope(p).refs().len() implies #[trigger] post.scope(
            p,
        ).refs()[i] != #[trigger] post.scope(p).refs()[j] by {
            assert(pre.live(p));
        }
        assert forall|g: Handle| #[trigger] post.live(g) implies post.rooted(g) || exists|
            p: Handle,
        | #[trigger] post.owns(p, g) by {
            assert(pre.live(g));
            if !pre.rooted(g) {
                let p = choose|p: Handle| #[trigger] pre.owns(p, g);
                assert(post.owns(p, g));
            }
        }
    }

    /// Exits the innermost block: its record is deleted, and so is every named scope that it
    /// owns, directly or through them.
    pub fn exit_block(&mut self) -> (r: Result<(), VaultError>)
        requires
            old(self).wf(),
        ensures
            final(self).wf(),
            old(self).precedes(final(self)),
            match r {
                Ok(()) => {
                    &&& old(self).frames().len() > 0
                    &&& old(self).frames().last().kind == FrameKind::Block
                    &&& final(self).frames() == old(self).frames().drop_last()
                    &&& Vault::released(old(self), final(self), old(self).frames().last().handle)
                },
                Err(e) => {
                    &&& *final(self) == *old(self)
                    &&& e == (if old(self).frames().len() == 0 {
                        VaultError::NoActiveScope
                    } else {
                        VaultError::NotABlock
                    })
                    &&& old(self).frames().len() > 0 ==> old(self).frames().last().kind
                        != FrameKind::Block
                },
            },
    {
        proof {
            self.lemma_precedes_itself();
        }
        if self.frames.len() == 0 {
            return Err(VaultError::NoActiveScope);
        }
        if self.frames[self.frames.len() - 1].kind != FrameKind::Block {
            return Err(VaultError::NotABlock);
        }
        let _ = self.drop_frame();
        Ok(())
    }

    /// Removes frames, innermost first, until `depth` of them are left. The record of a block,
    /// or of a declaration under way, is deleted with all that it owns.
    pub fn unwind(&mut self, depth: usize)
        requires
            old(self).wf(),
        ensures
            final(self).wf(),
            old(self).precedes(final(self)),
            final(self).frames() == (if depth <= old(self).frames().len() {
                old(self).frames().take(depth as int)
            } else {
                old(self).frames()
            }),
            forall|h: Handle| #[trigger]
                final(self).live(h) ==> old(self).live(h) && final(self).scope(h) == old(self).scope(h),
    {
        proof {
            self.lemma_precedes_itself();
            assert(old(self).frames().take(old(self).frames().len() as int) == old(self).frames());
        }
        while self.frames.len() > depth
            invariant
                self.wf(),
                old(self).precedes(self),
                self.frames().len() <= old(self).frames().len(),
                depth <= old(self).frames().len() ==> depth <= self.frames().len(),
                depth > old(self).frames().len() ==> self.frames().len() == old(self).frames().len(),
                self.frames() == old(self).frames().take(self.frames().len() as int),
                forall|h: Handle| #[trigger]
                    self.live(h) ==> old(self).live(h) && self.scope(h) == old(self).scope(h),
            decreases self.frames().len(),
        {
            let ghost entry = *self;
            let _ = self.drop_frame();
            proof {
                old(self).lemma_precedes_chain(&entry, self);
                assert(self.frames() == old(self).frames().take(self.frames().len() as int));
            }
        }
    }

    /// A vault stays coherent when the scope below a declaration adopts it.
    proof fn lemma_adopted_coherent(pre: &Vault, post: &Vault, h: Handle)
        requires
            pre.coherent(),
            pre.precedes(post),
            Vault::adopted(pre, post, h),
        ensures
            post.coherent(),
    {
        let top = pre.frames().len() - 1;
        let owner = pre.frames()[top - 1].handle;
        assert(pre.frames()[top].handle == h);
        assert(pre.rooted(h));
        assert(pre.live(h));
        assert forall|p: Handle| !pre.owns(p, h) by {
            if pre.owns(p, h) {
                assert(!pre.rooted(h));
            }
        }
        assert(!pre.scope(owner).refs().contains(h)) by {
            if pre.scope(owner).refs().contains(h) {
                assert(pre.owns(owner, h));
            }
        }
        let new_refs = post.scope(owner).refs();
        assert(new_refs[new_refs.len() - 1] == h);
        assert(new_refs.contains(h));
        assert forall|c: Handle| new_refs.contains(c) implies c == h || pre.scope(
            owner,
        ).refs().contains(c) by {
            let j = choose|j: int| 0 <= j < new_refs.len() && new_refs[j] == c;
            if j < new_refs.len() - 1 {
                assert(pre.scope(owner).refs()[j] == c);
            }
        }
        assert forall|c: Handle| pre.scope(owner).refs().contains(c) implies new_refs.contains(
            c,
        ) by {
            let j = choose|j: int|
                0 <= j < pre.scope(owner).refs().len() && pre.scope(owner).refs()[j] == c;
            assert(new_refs[j] == c);
        }
        assert forall|p: Handle, c: Handle| #[trigger] post.owns(p, c) implies pre.owns(p, c) || (
        p == owner && c == h) by {
            assert(post.live(p) == pre.live(p));
            if p != owner {
                assert(post.scope(p) == pre.scope(p));
            }
        }
        assert forall|p: Handle, c: Handle| #[trigger] pre.owns(p, c) implies post.owns(p, c) by {
            assert(post.live(p) == pre.live(p));
            if p != owner {
                assert(post.scope(p) == pre.scope(p));
            }
        }
        assert(post.owns(owner, h));
        assert forall|g: Handle| post.rooted(g) implies pre.rooted(g) && g != h by {
            let j = choose|j: int|
                0 <= j < post.frames().len() && #[trigger] post.frames()[j].handle == g
                    && post.frames()[j].kind != FrameKind::Entered;
            assert(pre.frames()[j] == post.frames()[j]);
            assert(pre.frames()[j].handle != pre.frames()[top].handle);
        }
        assert forall|g: Handle| pre.rooted(g) && g != h implies post.rooted(g) by {
            let j = choose|j: int|
                0 <= j < pre.frames().len() && #[trigger] pre.frames()[j].handle == g
                    && pre.frames()[j].kind != FrameKind::Entered;
            assert(j < top);
            assert(post.frames()[j].handle == g);
        }
        assert forall|j: int|
            0 <= j < post.frames().len() && (#[trigger] post.frames()[j]).kind
                != FrameKind::Entered implies post.live(post.frames()[j].handle) by {
            assert(pre.frames()[j] == post.frames()[j]);
            assert(pre.live(pre.frames()[j].handle));
        }
        assert forall|j: int| 0 <= j < post.frames().len() implies post.issued(
            (#[trigger] post.frames()[j]).handle,
        ) by {
            assert(pre.frames()[j] == post.frames()[j]);
            pre.lemma_no_return(post, pre.frames()[j].handle);
        }
        assert forall|i: int, j: int|
            0 <= i < j < post.frames().len() && (#[trigger] post.frames()[j]).kind
                != FrameKind::Entered implies (#[trigger] post.frames()[i]).handle
            != post.frames()[j].handle by {
            assert(pre.frames()[i] == post.frames()[i]);
            assert(pre.frames()[j] == post.frames()[j]);
        }
        assert forall|p: Handle, c: Handle| #[trigger] post.owns(p, c) implies post.live(c)
            && !post.rooted(c) by {
            if !(p == owner && c == h) {
                assert(pre.owns(p, c));
            }
        }
        assert forall|p: Handle, q: Handle, c: Handle|
            #[trigger] post.owns(p, c) && #[trigger] post.owns(q, c) implies p == q by {
            if c == h {
                assert(!pre.owns(p, c) && !pre.owns(q, c));
            } else {
                assert(pre.owns(p, c) && pre.owns(q, c));
            }
        }
        assert forall|p: Handle, i: int, j: int|
            post.live(p) && 0 <= i < j < post.scope(p).refs().len() implies #[trigger] post.scope(
            p,
        ).refs()[i] != #[trigger] post.scope(p).refs()[j] by {
            assert(pre.live(p));
            if p == owner {
                assert(post.scope(p).refs()[i] == pre.scope(p).refs()[i]);
                if j < new_refs.len() - 1 {
                    assert(post.scope(p).refs()[j] == pre.scope(p).refs()[j]);
                } else {
                    assert(pre.scope(owner).refs().contains(pre.scope(p).refs()[i]));
                }
            } else {
                assert(post.scope(p) == pre.scope(p));
            }
        }
        assert forall|g: Handle| #[trigger] post.live(g) implies post.rooted(g) || exists|
            p: Handle,
        | #[trigger] post.owns(p, g) by {
            assert(pre.live(g));
            if g == h {
                assert(post.owns(owner, g));
            } else if !pre.rooted(g) {
                let p = choose|p: Handle| #[trigger] pre.owns(p, g);
                assert(post.owns(p, g));
            }
        }
    }

    /// Ends the declaration of the innermost named scope: its frame is removed, and the scope
    /// below owns it from now on and binds its name to its handle.
    pub fn end_declaration(&mut self) -> (r: Result<Handle, VaultError>)
        requires
            old(self).wf(),
        ensures
            final(self).wf(),
            old(self).precedes(final(self)),
            match r {
                Ok(h) => old(self).declaration_refusal() is None && Vault::adopted(
                    old(self),
                    final(self),
                    h,
                ),
                Err(e) => *final(self) == *old(self) && old(self).declaration_refusal() == Some(
                    e,
                ),
            },
    {
        proof {
            self.lemma_precedes_itself();
        }
        let n = self.frames.len();
        if n == 0 {
            return Err(VaultError::NoActiveScope);
        }
        if self.frames[n - 1].kind != FrameKind::Declaration {
            return Err(VaultError::NotADeclaration);
        }
        if n < 2 {
            return Err(VaultError::NoActiveScope);
        }
        let owner = self.frames[n - 2].handle;
        if !self.is_live(owner) {
            return Err(VaultError::StaleHandle);
        }
        let top = self.frames[n - 1];
        let h = top.handle;
        assert(self.live(h));
        assert(owner != h);
        let label = match &self.slots[h.index].record {
            Some(rec) => rec.name.clone(),
            None => String::new(),
        };
        assert(label@ == self.scope(h).label());
        self.frames.pop();
        match &mut self.slots[owner.index].record {
            Some(rec) => {
                rec.adopt(h);
                rec.bind(label, Value::ScopeRef(h));
            },
            None => {},
        }
        proof {
            assert forall|g: Handle| #[trigger] self.live(g) == old(self).live(g) by {
                if g.index < self.slots@.len() && g.index != owner.index {
                    assert(self.slots@[g.index as int] == old(self).slots@[g.index as int]);
                }
            }
            assert forall|g: Handle| g != owner && #[trigger] old(self).live(g) implies self.scope(
                g,
            ) == old(self).scope(g) by {
                assert(g.index != owner.index);
                assert(self.slots@[g.index as int] == old(self).slots@[g.index as int]);
            }
            assert(self.frames() == old(self).frames().drop_last());
            assert(Vault::adopted(old(self), self, h));
            assert(old(self).precedes(self));
            Vault::lemma_adopted_coherent(old(self), self, h);
            assert forall|g: Handle| #[trigger] self.live(g) implies self.scope(g).wf() by {
                assert(old(self).live(g));
            }
        }
        Ok(h)
    }

    /// Enters the named scope that `h` names: it becomes the innermost scope.
    pub fn enter_named_scope(&mut self, h: Handle) -> (r: Result<(), VaultError>)
        requires
            old(self).wf(),
        ensures
            final(self).wf(),
            old(self).precedes(final(self)),
            match r {
                Ok(()) => Vault::entered(old(self), final(self), h),
                Err(e) => *final(self) == *old(self) && !old(self).live(h) && e
                    == VaultError::StaleHandle,
            },
    {
        proof {
            self.lemma_precedes_itself();
        }
        if !self.is_live(h) {
            return Err(VaultError::StaleHandle);
        }
        self.frames.push(Frame { handle: h, kind: FrameKind::Entered });
        proof {
            assert(self.slots == old(self).slots);
            assert(forall|g: Handle| #[trigger] self.live(g) == old(self).live(g));
            assert(forall|g: Handle| #[trigger] self.scope(g) == old(self).scope(g));
            assert(Vault::entered(old(self), self, h));
            Vault::lemma_entered_coherent(old(self), self, h);
        }
        Ok(())
    }

    /// A vault stays coherent when a named scope is entered through its handle.
    proof fn lemma_entered_coherent(pre: &Vault, post: &Vault, h: Handle)
        requires
            pre.coherent(),
            pre.precedes(post),
            Vault::entered(pre, post, h),
        ensures
            post.coherent(),
    {
        let top = pre.frames().len() as int;
        assert forall|p: Handle, c: Handle| #[trigger] post.owns(p, c) == pre.owns(p, c) by {
            assert(post.live(p) == pre.live(p));
        }
        assert forall|g: Handle| post.rooted(g) == pre.rooted(g) by {
            if post.rooted(g) {
                let j = choose|j: int|
                    0 <= j < post.frames().len() && #[trigger] post.frames()[j].handle == g
                        && post.frames()[j].kind != FrameKind::Entered;
                assert(j < top);
                assert(pre.frames()[j] == post.frames()[j]);
            }
            if pre.rooted(g) {
                let j = choose|j: int|
                    0 <= j < pre.frames().len() && #[trigger] pre.frames()[j].handle == g
                        && pre.frames()[j].kind != FrameKind::Entered;
                assert(post.frames()[j].handle == g);
            }
        }
        assert forall|j: int|
            0 <= j < post.frames().len() && (#[trigger] post.frames()[j]).kind
                != FrameKind::Entered implies post.live(post.frames()[j].handle) by {
            assert(j < top);
            assert(pre.frames()[j] == post.frames()[j]);
        }
        assert forall|j: int| 0 <= j < post.frames().len() implies post.issued(
            (#[trigger] post.frames()[j]).handle,
        ) by {
            if j < top {
                assert(pre.frames()[j] == post.frames()[j]);
                pre.lemma_no_return(post, pre.frames()[j].handle);
            }
        }
        assert forall|i: int, j: int|
            0 <= i < j < post.frames().len() && (#[trigger] post.frames()[j]).kind
                != FrameKind::Entered implies (#[trigger] post.frames()[i]).handle
            != post.frames()[j].handle by {
            assert(j < top);
            assert(pre.frames()[i] == post.frames()[i]);
            assert(pre.frames()[j] == post.frames()[j]);
        }
        assert forall|p: Handle, c: Handle| #[trigger] post.owns(p, c) implies post.live(c)
            && !post.rooted(c) by {
            assert(pre.owns(p, c));
        }
        assert forall|p: Handle, q: Handle, c: Handle|
            #[trigger] post.owns(p, c) && #[trigger] post.owns(q, c) implies p == q by {
            assert(pre.owns(p, c) && pre.owns(q, c));
        }
        assert forall|p: Handle, i: int, j: int|
            post.live(p) && 0 <= i < j < post.scope(p).refs().len() implies #[trigger] post.scope(
            p,
        ).refs()[i] != #[trigger] post.scope(p).refs()[j] by {
            assert(pre.live(p));
        }
        assert forall|g: Handle| #[trigger] post.live(g) implies post.rooted(g) || exists|
            p: Handle,
        | #[trigger] post.owns(p, g) by {
            assert(pre.live(g));
            if !pre.rooted(g) {
                let p = choose|p: Handle| #[trigger] pre.owns(p, g);
                assert(post.owns(p, g));
            }
        }
    }

    /// Leaves the named scope that was entered last; its record stays.
    pub fn exit_named_scope(&mut self) -> (r: Result<Handle, VaultError>)
        requires
            old(self).wf(),
        ensures
            final(self).wf(),
            old(self).precedes(final(self)),
            match r {
                Ok(h) => {
                    &&& Vault::left(old(self), final(self))
                    &&& old(self).frames().last() == Frame {
                        handle: h,
                        kind: FrameKind::Entered,
                    }
                },
                Err(e) => {
                    &&& *final(self) == *old(self)
                    &&& e == (if old(self).frames().len() == 0 {
                        VaultError::NoActiveScope
                    } else {
                        VaultError::NotEntered
                    })
                    &&& old(self).frames().len() > 0 ==> old(self).frames().last().kind
                        != FrameKind::Entered
                },
            },
    {
        proof {
            self.lemma_precedes_itself();
        }
        if self.frames.len() == 0 {
            return Err(VaultError::NoActiveScope);
        }
        if self.frames[self.frames.len() - 1].kind != FrameKind::Entered {
            return Err(VaultError::NotEntered);
        }
        let top = self.drop_frame();
        Ok(top.handle)
    }

    /// Binds `name` to `value` in the record that `h` names.
    pub fn set_in(&mut self, h: Handle, name: String, value: Value) -> (r: Result<
        (),
        VaultError,
    >)
        requires
            old(self).wf(),
        ensures
            final(self).wf(),
            old(self).precedes(final(self)),
            match r {
                Ok(()) => {
                    &&& Vault::rebound(old(self), final(self), h)
                    &&& forall|n: Seq<char>|
                        #[trigger] final(self).scope(h).get(n) == (if n == name@ {
                            Some(value)
                        } else {
                            old(self).scope(h).get(n)
                        })
                    &&& final(self).scope(h).count() == old(self).scope(h).count() + (if old(self).scope(h).holds(name@) {
                        0nat
                    } else {
                        1nat
                    })
                },
                Err(e) => *final(self) == *old(self) && !old(self).live(h) && e
                    == VaultError::StaleHandle,
            },
    {
        proof {
            self.lemma_precedes_itself();
        }
        if !self.is_live(h) {
            return Err(VaultError::StaleHandle);
        }
        match &mut self.slots[h.index].record {
            Some(rec) => {
                rec.bind(name, value);
            },
            None => {},
        }
        proof {
            self.lemma_after_rebinding(old(self), h);
        }
        Ok(())
    }

    /// What holds when only the bindings of the record `h` have changed.
    proof fn lemma_after_rebinding(&self, pre: &Vault, h: Handle)
        requires
            pre.wf(),
            pre.live(h),
            self.frames == pre.frames,
            self.slots@.len() == pre.slots@.len(),
            forall|i: int|
                0 <= i < pre.slots@.len() && i != h.index ==> self.slots@[i] == pre.slots@[i],
            self.slots@[h.index as int].generation == pre.slots@[h.index as int].generation,
            self.slots@[h.index as int].record is Some,
            self.slots@[h.index as int].record->Some_0.wf(),
            self.slots@[h.index as int].record->Some_0.refs() == pre.scope(h).refs(),
            self.slots@[h.index as int].record->Some_0.label() == pre.scope(h).label(),
        ensures
            self.wf(),
            pre.precedes(self),
            Vault::rebound(pre, self, h),
    {
        assert forall|g: Handle| #[trigger] self.live(g) == pre.live(g) by {
            if g.index < self.slots@.len() && g.index != h.index {
                assert(self.slots@[g.index as int] == pre.slots@[g.index as int]);
            }
        }
        assert forall|g: Handle| g != h && #[trigger] pre.live(g) implies self.scope(g)
            == pre.scope(g) by {
            assert(g.index != h.index);
            assert(self.slots@[g.index as int] == pre.slots@[g.index as int]);
        }
        assert(self.slots_wf()) by {
            assert forall|i: int|
                0 <= i < self.slots@.len() && (#[trigger] self.slots@[i]).record is Some implies self.slots@[i].generation
                < u64::MAX && self.slots@[i].record->Some_0.wf() by {
                if i != h.index {
                    assert(self.slots@[i] == pre.slots@[i]);
                }
            }
        }
        assert(pre.precedes(self)) by {
            assert forall|i: int|
                #![trigger pre.level(i)]
                #![trigger self.level(i)]
                pre.level(i) <= self.level(i) by {
                if 0 <= i < pre.slots@.len() && i != h.index {
                    assert(self.slots@[i] == pre.slots@[i]);
                }
            }
        }
        Vault::lemma_rebound_coherent(pre, self, h);
        assert forall|g: Handle| #[trigger] self.live(g) implies self.scope(g).wf() by {
            assert(pre.live(g));
        }
    }

    /// Removes the binding of `name` from the record that `h` names.
    pub fn remove_in(&mut self, h: Handle, name: &String) -> (r: Result<(), VaultError>)
        requires
            old(self).wf(),
        ensures
            final(self).wf(),
            old(self).precedes(final(self)),
            match r {
                Ok(()) => {
                    &&& Vault::rebound(old(self), final(self), h)
                    &&& forall|n: Seq<char>|
                        #[trigger] final(self).scope(h).get(n) == (if n == name@ {
                            None
                        } else {
                            old(self).scope(h).get(n)
                        })
                    &&& final(self).scope(h).count() == old(self).scope(h).count() - (if old(self).scope(h).holds(name@) {
                        1nat
                    } else {
                        0nat
                    })
                },
                Err(e) => *final(self) == *old(self) && !old(self).live(h) && e
                    == VaultError::StaleHandle,
            },
    {
        proof {
            self.lemma_precedes_itself();
        }
        if !self.is_live(h) {
            return Err(VaultError::StaleHandle);
        }
        match &mut self.slots[h.index].record {
            Some(rec) => {
                rec.unbind(name);
            },
            None => {},
        }
        proof {
            self.lemma_after_rebinding(old(self), h);
        }
        Ok(())
    }

    /// The value that the record `h` binds to `name`.
    pub fn get_in(&self, h: Handle, name: &String) -> (r: Result<Option<&Value>, VaultError>)
        requires
            self.wf(),
        ensures
            match r {
                Ok(Some(v)) => self.live(h) && self.scope(h).get(name@) == Some(*v),
                Ok(None) => self.live(h) && self.scope(h).get(name@) is None,
                Err(e) => !self.live(h) && e == VaultError::StaleHandle,
            },
    {
        match self.record(h) {
            Some(rec) => Ok(rec.lookup(name)),
            None => Err(VaultError::StaleHandle),
        }
    }

    /// Binds `name` to `value` in the innermost scope.
    pub fn declare_variable(&mut self, name: String, value: Value) -> (r: Result<(), VaultError>)
        requires
            old(self).wf(),
        ensures
            final(self).wf(),
            old(self).precedes(final(self)),
            match r {
                Ok(()) => {
                    &&& old(self).current() matches Some(h)
                    &&& Vault::rebound(old(self), final(self), h)
                    &&& forall|n: Seq<char>|
                        #[trigger] final(self).scope(h).get(n) == (if n == name@ {
                            Some(value)
                        } else {
                            old(self).scope(h).get(n)
                        })
                },
                Err(e) => {
                    &&& *final(self) == *old(self)
                    &&& match old(self).current() {
                        Some(h) => !old(self).live(h) && e == VaultError::StaleHandle,
                        None => e == VaultError::NoActiveScope,
                    }
                },
            },
    {
        proof {
            self.lemma_precedes_itself();
        }
        match self.current_scope() {
            Some(h) => self.set_in(h, name, value),
            None => Err(VaultError::NoActiveScope),
        }
    }

    /// The record that a lookup of `name` finds: the innermost active one that binds it.
    pub fn holder_of(&self, name: &String) -> (r: Option<Handle>)
        requires
            self.wf(),
        ensures
            r == self.holder(name@),
            r matches Some(h) ==> self.live(h) && self.scope(h).holds(name@),
    {
        let mut depth: usize = self.frames.len();
        while depth > 0
            invariant
                self.wf(),
                depth <= self.frames().len(),
                self.holder(name@) == self.holder_within(depth as int, name@),
            decreases depth,
        {
            let h = self.frames[depth - 1].handle;
            match self.record(h) {
                Some(rec) => {
                    if rec.lookup(name).is_some() {
                        assert(self.scope(h).get(name@) is Some);
                        assert(self.scope(h).holds(name@)) by {
                            self.scope(h).lemma_get(name@);
                        }
                        return Some(h);
                    }
                    proof {
                        self.scope(h).lemma_get(name@);
                    }
                },
                None => {},
            }
            depth -= 1;
        }
        None
    }

    /// Looks `name` up: the value bound to it in the innermost active scope that binds it.
    pub fn resolve(&self, name: &String) -> (r: Option<&Value>)
        requires
            self.wf(),
        ensures
            match r {
                Some(v) => self.resolved(name@) == Some(*v),
                None => self.resolved(name@) is None && self.holder(name@) is None,
            },
    {
        match self.holder_of(name) {
            Some(h) => {
                proof {
                    self.scope(h).lemma_get(name@);
                }
                match self.record(h) {
                    Some(rec) => rec.lookup(name),
                    None => None,
                }
            },
            None => None,
        }
    }

    /// Binds `name` to `value` in the innermost active scope that binds it already.
    pub fn assign(&mut self, name: String, value: Value) -> (r: bool)
        requires
            old(self).wf(),
        ensures
            final(self).wf(),
            old(self).precedes(final(self)),
            r == (old(self).holder(name@) is Some),
            !r ==> *final(self) == *old(self),
            r ==> {
                let h = old(self).holder(name@)->Some_0;
                &&& Vault::rebound(old(self), final(self), h)
                &&& forall|n: Seq<char>|
                    #[trigger] final(self).scope(h).get(n) == (if n == name@ {
                        Some(value)
                    } else {
                        old(self).scope(h).get(n)
                    })
            },
    {
        proof {
            self.lemma_precedes_itself();
        }
        match self.holder_of(&name) {
            Some(h) => {
                let done = self.set_in(h, name, value);
                true
            },
            None => false,
        }
    }

    /// Cleanup: once a record is released, every scope on a chain of ownership that starts at
    /// it is gone, however long the chain.
    pub proof fn law_release_follows_ownership(
        pre: &Vault,
        post: &Vault,
        root: Handle,
        chain: Seq<Handle>,
    )
        requires
            Vault::released(pre, post, root),
            chain.len() > 0,
            chain[0] == root,
            forall|i: int| 0 <= i < chain.len() - 1 ==> pre.owns(#[trigger] chain[i], chain[i + 1]),
        ensures
            forall|i: int| 0 <= i < chain.len() ==> !post.live(#[trigger] chain[i]),
        decreases chain.len(),
    {
        if chain.len() > 1 {
            let shorter = chain.drop_last();
            assert forall|i: int| 0 <= i < shorter.len() - 1 implies pre.owns(
                #[trigger] shorter[i],
                shorter[i + 1],
            ) by {
                assert(pre.owns(chain[i], chain[i + 1]));
            }
            Vault::law_release_follows_ownership(pre, post, root, shorter);
            let n = chain.len() - 1;
            assert(!post.live(shorter[n - 1]));
            assert(pre.owns(chain[n - 1], chain[n]));
            assert forall|i: int| 0 <= i < chain.len() implies !post.live(#[trigger] chain[i]) by {
                if i < n {
                    assert(chain[i] == shorter[i]);
                }
            }
        }
    }

    /// No return: a handle that was handed out and names no record any more names none in any
    /// later vault.
    pub proof fn law_deleted_for_good(pre: &Vault, post: &Vault, later: &Vault, h: Handle)
        requires
            pre.issued(h),
            pre.precedes(post),
            !post.live(h),
            post.precedes(later),
        ensures
            !later.live(h),
    {
        pre.lemma_no_return(post, h);
        post.lemma_no_return(later, h);
    }

    /// Isolation of bindings: a binding made in one record leaves every other record as it
    /// was.
    pub proof fn law_binding_is_local(pre: &Vault, post: &Vault, h: Handle, other: Handle)
        requires
            Vault::rebound(pre, post, h),
            other != h,
            pre.live(other),
        ensures
            post.live(other),
            post.scope(other) == pre.scope(other),
    {
    }

    /// Isolation of activations: when a block is entered while another is active, binds a
    /// name that the outer one binds too, and exits, the outer block still holds its own
    /// value, and a lookup finds it.
    pub proof fn law_activations_are_isolated(
        before: &Vault,
        outer_entered: &Vault,
        outer_bound: &Vault,
        inner_entered: &Vault,
        inner_bound: &Vault,
        inner_exited: &Vault,
        outer: Handle,
        inner: Handle,
        name: Seq<char>,
        outer_value: Value,
        inner_value: Value,
    )
        requires
            inner_exited.wf(),
            Vault::opened(before, outer_entered, outer, FrameKind::Block, Seq::empty()),
            Vault::rebound(outer_entered, outer_bound, outer),
            outer_bound.scope(outer).get(name) == Some(outer_value),
            Vault::opened(outer_bound, inner_entered, inner, FrameKind::Block, Seq::empty()),
            Vault::rebound(inner_entered, inner_bound, inner),
            inner_bound.scope(inner).get(name) == Some(inner_value),
            Vault::released(inner_bound, inner_exited, inner),
            inner_exited.frames() == inner_bound.frames().drop_last(),
        ensures
            inner != outer,
            inner_bound.resolved(name) == Some(inner_value),
            inner_bound.scope(outer).get(name) == Some(outer_value),
            inner_exited.live(outer),
            inner_exited.resolved(name) == Some(outer_value),
    {
        assert(outer_entered.live(outer));
        assert(outer_bound.live(outer));
        assert(inner_entered.live(outer));
        assert(inner_bound.live(outer));
        assert(inner_bound.scope(outer) == outer_bound.scope(outer));
        // during the inner activation
        let deep = inner_bound.frames();
        assert(deep == before.frames().push(Frame { handle: outer, kind: FrameKind::Block }).push(
            Frame { handle: inner, kind: FrameKind::Block },
        ));
        assert(deep[deep.len() - 1].handle == inner);
        inner_bound.scope(inner).lemma_get(name);
        assert(inner_bound.holder(name) == Some(inner));
        // after it
        let shallow = inner_exited.frames();
        assert(shallow == before.frames().push(Frame { handle: outer, kind: FrameKind::Block }));
        assert(shallow[shallow.len() - 1] == Frame { handle: outer, kind: FrameKind::Block });
        assert(inner_exited.live(outer));
        assert(inner_exited.scope(outer) == inner_bound.scope(outer));
        inner_exited.scope(outer).lemma_get(name);
        assert(inner_exited.holder(name) == Some(outer));
    }

    /// Aliasing: a handle is a reference. What is bound through one copy of it is read through
    /// every other copy.
    pub proof fn law_alias_sees_mutation(
        pre: &Vault,
        post: &Vault,
        handle: Value,
        alias: Value,
        field: Seq<char>,
        value: Value,
    )
        requires
            handle is ScopeRef,
            alias == handle,
            Vault::rebound(pre, post, alias->ScopeRef_0),
            post.scope(alias->ScopeRef_0).get(field) == Some(value),
        ensures
            post.live(handle->ScopeRef_0),
            post.scope(handle->ScopeRef_0).get(field) == Some(value),
    {
    }

    /// Independence of declarations: a named scope that is declared while another is live gets
    /// a record of its own, and the other is left as it was.
    pub proof fn law_declarations_are_distinct(
        pre: &Vault,
        post: &Vault,
        first: Handle,
        second: Handle,
        label: Seq<char>,
    )
        requires
            pre.live(first),
            Vault::opened(pre, post, second, FrameKind::Declaration, label),
        ensures
            second != first,
            post.live(first),
            post.scope(first) == pre.scope(first),
            post.scope(second).count() == 0,
    {
    }
}

} // verus!
