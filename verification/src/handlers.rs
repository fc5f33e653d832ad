//! Handler contracts for the two kinds of globals, and reference
//! implementations of both.
//!
//! A "single" global handler stores at most one live binding and replaces it
//! on every new advertisement (last advertisement wins). A "multi" global
//! handler keeps one binding per live id, in creation order; a removal drops
//! the binding for that id and nothing else.

use vstd::prelude::*;

use crate::BoundInstance;

verus! {

/// Whether some live instance carries the given id.
pub open spec fn has_id(s: Seq<BoundInstance>, id: u32) -> bool {
    exists|k: int| 0 <= k < s.len() && s[k].id == id
}

/// No two live instances share an id.
pub open spec fn ids_distinct(s: Seq<BoundInstance>) -> bool {
    forall|j: int, k: int| 0 <= j < k < s.len() ==> #[trigger] s[j].id != #[trigger] s[k].id
}

/// Every instance whose id matches is replaced in place by the fresh
/// binding; the others, and the order, are kept.
pub open spec fn replace_id(s: Seq<BoundInstance>, id: u32, version: u32) -> Seq<BoundInstance> {
    s.map(|_k: int, b: BoundInstance| if b.id == id { BoundInstance { id, version } } else { b })
}

/// The live instances after a creation with `id`: replaced in place if the
/// id is already live (a duplicate advertisement is idempotent), appended
/// otherwise.
pub open spec fn after_created(s: Seq<BoundInstance>, id: u32, version: u32) -> Seq<BoundInstance> {
    if has_id(s, id) {
        replace_id(s, id, version)
    } else {
        s.push(BoundInstance { id, version })
    }
}

/// The live instances after a removal of `id`: all the others, in their
/// original order. Removing an id that is not live changes nothing.
pub open spec fn after_removed(s: Seq<BoundInstance>, id: u32) -> Seq<BoundInstance>
    decreases s.len(),
{
    if s.len() == 0 {
        Seq::<BoundInstance>::empty()
    } else {
        let rest = after_removed(s.drop_last(), id);
        if s.last().id == id {
            rest
        } else {
            rest.push(s.last())
        }
    }
}

/// Contract for handling a "single" global: a capability the server
/// announces at most meaningfully once per session. The handler records the
/// advertisement it acted on; a later advertisement for the same interface
/// replaces the record.
pub trait GlobalHandler: Sized {
    /// The binding currently stored by the handler, if any.
    spec fn bound(&self) -> Option<BoundInstance>;

    /// A new advertisement for the handled interface was delivered: store
    /// the binding for it, replacing any earlier one.
    fn created(&mut self, id: u32, version: u32)
        ensures
            final(self).bound() == Some(BoundInstance { id, version }),
    ;

    /// The most recently stored binding, or `None` if none was ever created.
    fn get(&self) -> (r: Option<BoundInstance>)
        ensures
            r == self.bound(),
    ;
}

/// Contract for handling a "multi" global: a resource with any number of
/// simultaneous live instances, keyed by id.
pub trait MultiGlobalHandler: Sized {
    /// The live instances, in creation order.
    spec fn instances(&self) -> Seq<BoundInstance>;

    /// A new instance was advertised: insert its binding, or replace the
    /// binding in place if the id is already live.
    fn created(&mut self, id: u32, version: u32)
        requires
            ids_distinct(old(self).instances()),
        ensures
            final(self).instances() == after_created(old(self).instances(), id, version),
    ;

    /// The instance with the given id was retracted: drop its binding if it
    /// is live, and do nothing otherwise.
    fn removed(&mut self, id: u32)
        requires
            ids_distinct(old(self).instances()),
        ensures
            final(self).instances() == after_removed(old(self).instances(), id),
    ;

    /// A snapshot of all live instances, in creation order.
    fn get_all(&self) -> (r: Vec<BoundInstance>)
        ensures
            r@ == self.instances(),
    ;
}

/// A minimalist handler for "single" globals that only need to be bound,
/// with no further per-global bookkeeping.
pub struct SimpleGlobal {
    global: Option<BoundInstance>,
}

impl SimpleGlobal {
    /// A fresh handler, with nothing bound yet.
    pub fn new() -> (r: SimpleGlobal)
        ensures
            r.bound() is None,
    {
        SimpleGlobal { global: None }
    }
}

impl GlobalHandler for SimpleGlobal {
    closed spec fn bound(&self) -> Option<BoundInstance> {
        self.global
    }

    fn created(&mut self, id: u32, version: u32) {
        self.global = Some(BoundInstance { id, version });
    }

    fn get(&self) -> (r: Option<BoundInstance>) {
        self.global
    }
}

/// A minimalist handler for "multi" globals that keeps the live bindings in
/// creation order, with no further per-instance bookkeeping.
pub struct SimpleMultiGlobal {
    instances: Vec<BoundInstance>,
}

impl SimpleMultiGlobal {
    /// A fresh handler, with no live instance.
    pub fn new() -> (r: SimpleMultiGlobal)
        ensures
            r.instances() == Seq::<BoundInstance>::empty(),
    {
        SimpleMultiGlobal { instances: Vec::new() }
    }
}

impl MultiGlobalHandler for SimpleMultiGlobal {
    closed spec fn instances(&self) -> Seq<BoundInstance> {
        self.instances@
    }

    fn created(&mut self, id: u32, version: u32) {
        let fresh = BoundInstance { id, version };
        let mut i: usize = 0;
        while i < self.instances.len()
            invariant
                i <= self.instances.len(),
                self.instances@ == old(self).instances@,
                ids_distinct(old(self).instances@),
                fresh == (BoundInstance { id, version }),
                forall|k: int| 0 <= k < i ==> #[trigger] old(self).instances@[k].id != id,
            decreases self.instances.len() - i,
        {
            if self.instances[i].id == id {
                self.instances[i] = fresh;
                proof {
                    let s0 = old(self).instances@;
                    let ii = i as int;
                    assert(s0[ii].id == id);
                    assert(has_id(s0, id));
                    assert forall|k: int| 0 <= k < s0.len() implies
                        #[trigger] replace_id(s0, id, version)[k] == s0.update(ii, fresh)[k] by {
                        assert(replace_id(s0, id, version)[k] == (if s0[k].id == id {
                            BoundInstance { id, version }
                        } else {
                            s0[k]
                        }));
                        if k == ii {
                            assert(s0[k].id == id);
                            assert(s0.update(ii, fresh)[k] == fresh);
                        } else if k < ii {
                            assert(s0[k].id != id);
                            assert(s0.update(ii, fresh)[k] == s0[k]);
                        } else {
                            assert(s0[ii].id != s0[k].id);
                            assert(s0[k].id != id);
                            assert(s0.update(ii, fresh)[k] == s0[k]);
                        }
                    }
                    assert(self.instances@ =~= replace_id(s0, id, version));
                }
                return;
            }
            i += 1;
        }
        self.instances.push(fresh);
        proof {
            assert(!has_id(old(self).instances@, id));
        }
    }

    fn removed(&mut self, id: u32) {
        let mut i: usize = 0;
        while i < self.instances.len()
            invariant
                i <= self.instances.len(),
                self.instances@ == old(self).instances@,
                ids_distinct(old(self).instances@),
                forall|k: int| 0 <= k < i ==> #[trigger] old(self).instances@[k].id != id,
            decreases self.instances.len() - i,
        {
            if self.instances[i].id == id {
                proof {
                    lemma_after_removed_at(old(self).instances@, id, i as int);
                }
                self.instances.remove(i);
                return;
            }
            i += 1;
        }
        proof {
            assert(!has_id(old(self).instances@, id));
            lemma_after_removed_absent(old(self).instances@, id);
        }
    }

    fn get_all(&self) -> (r: Vec<BoundInstance>) {
        let mut out: Vec<BoundInstance> = Vec::new();
        let mut i: usize = 0;
        while i < self.instances.len()
            invariant
                i <= self.instances.len(),
                out@ == self.instances@.take(i as int),
            decreases self.instances.len() - i,
        {
            out.push(self.instances[i]);
            proof {
                assert(out@ =~= self.instances@.take(i as int + 1));
            }
            i += 1;
        }
        proof {
            assert(self.instances@.take(self.instances@.len() as int) =~= self.instances@);
        }
        out
    }
}

/// Removing an id that is not live changes nothing.
pub proof fn lemma_after_removed_absent(s: Seq<BoundInstance>, id: u32)
    requires
        !has_id(s, id),
    ensures
        after_removed(s, id) == s,
    decreases s.len(),
{
    if s.len() == 0 {
        assert(after_removed(s, id) =~= s);
    } else {
        assert(s.drop_last() =~= s.subrange(0, s.len() - 1));
        assert(!has_id(s.drop_last(), id)) by {
            assert forall|k: int| 0 <= k < s.drop_last().len() implies
                #[trigger] s.drop_last()[k].id != id by {
                assert(s.drop_last()[k] == s[k]);
            }
        }
        lemma_after_removed_absent(s.drop_last(), id);
        assert(s[s.len() - 1].id != id);
        assert(after_removed(s, id) =~= s);
    }
}

/// Removing a live id with distinct ids drops exactly the entry at its
/// index.
pub proof fn lemma_after_removed_at(s: Seq<BoundInstance>, id: u32, i: int)
    requires
        ids_distinct(s),
        0 <= i < s.len(),
        s[i].id == id,
        forall|k: int| 0 <= k < i ==> s[k].id != id,
    ensures
        after_removed(s, id) == s.remove(i),
    decreases s.len(),
{
    if i == s.len() - 1 {
        assert(!has_id(s.drop_last(), id)) by {
            assert forall|k: int| 0 <= k < s.drop_last().len() implies
                #[trigger] s.drop_last()[k].id != id by {
                assert(s.drop_last()[k] == s[k]);
            }
        }
        lemma_after_removed_absent(s.drop_last(), id);
        assert(after_removed(s, id) =~= s.remove(i));
    } else {
        lemma_drop_last_distinct(s);
        assert(s.drop_last()[i] == s[i]);
        lemma_after_removed_at(s.drop_last(), id, i);
        assert(s.last().id != id);
        assert(after_removed(s, id) =~= s.remove(i));
    }
}

/// No instance with the removed id stays live.
pub proof fn lemma_after_removed_no_id(s: Seq<BoundInstance>, id: u32)
    ensures
        !has_id(after_removed(s, id), id),
    decreases s.len(),
{
    if s.len() > 0 {
        lemma_after_removed_no_id(s.drop_last(), id);
    }
}

/// A removal keeps the ids distinct.
pub proof fn lemma_after_removed_distinct(s: Seq<BoundInstance>, id: u32)
    requires
        ids_distinct(s),
    ensures
        ids_distinct(after_removed(s, id)),
    decreases s.len(),
{
    if s.len() > 0 {
        lemma_drop_last_distinct(s);
        lemma_after_removed_distinct(s.drop_last(), id);
        if s.last().id != id {
            lemma_after_removed_keeps_ids(s.drop_last(), id);
            let rest = after_removed(s.drop_last(), id);
            assert(!has_id(rest, s.last().id)) by {
                if has_id(rest, s.last().id) {
                    assert(has_id(s.drop_last(), s.last().id));
                    let k = choose|k: int|
                        0 <= k < s.drop_last().len() && #[trigger] s.drop_last()[k].id
                            == s.last().id;
                    assert(s[k].id == s[s.len() - 1].id);
                }
            }
            assert forall|j: int, k: int| 0 <= j < k < rest.push(s.last()).len() implies
                #[trigger] rest.push(s.last())[j].id != #[trigger] rest.push(s.last())[k].id by {
                if k < rest.len() {
                    assert(rest[j].id != rest[k].id);
                } else {
                    assert(rest.push(s.last())[k] == s.last());
                    assert(!(rest[j].id == s.last().id)) by {
                        if rest[j].id == s.last().id {
                            assert(has_id(rest, s.last().id));
                        }
                    }
                }
            }
        }
    }
}

/// A removal never invents an id: every id live afterwards was live before.
pub proof fn lemma_after_removed_keeps_ids(s: Seq<BoundInstance>, id: u32)
    ensures
        forall|x: u32| has_id(after_removed(s, id), x) ==> has_id(s, x),
    decreases s.len(),
{
    if s.len() > 0 {
        lemma_after_removed_keeps_ids(s.drop_last(), id);
        assert forall|x: u32| has_id(after_removed(s, id), x) implies has_id(s, x) by {
            let rest = after_removed(s.drop_last(), id);
            let k = choose|k: int|
                0 <= k < after_removed(s, id).len() && #[trigger] after_removed(s, id)[k].id
                    == x;
            if k < rest.len() {
                assert(has_id(rest, x));
                assert(has_id(s.drop_last(), x));
                let m = choose|m: int|
                    0 <= m < s.drop_last().len() && #[trigger] s.drop_last()[m].id == x;
                assert(s[m].id == x);
            } else {
                assert(after_removed(s, id)[k] == s.last());
                assert(s[s.len() - 1].id == x);
            }
        }
    }
}

/// Dropping the last instance keeps the ids distinct.
pub proof fn lemma_drop_last_distinct(s: Seq<BoundInstance>)
    requires
        ids_distinct(s),
        s.len() > 0,
    ensures
        ids_distinct(s.drop_last()),
{
    assert forall|j: int, k: int| 0 <= j < k < s.drop_last().len() implies
        #[trigger] s.drop_last()[j].id != #[trigger] s.drop_last()[k].id by {
        assert(s.drop_last()[j] == s[j]);
        assert(s.drop_last()[k] == s[k]);
    }
}

/// A creation keeps the ids distinct.
pub proof fn lemma_after_created_distinct(s: Seq<BoundInstance>, id: u32, version: u32)
    requires
        ids_distinct(s),
    ensures
        ids_distinct(after_created(s, id, version)),
{
    if has_id(s, id) {
        assert forall|j: int, k: int|
            0 <= j < k < replace_id(s, id, version).len() implies
            #[trigger] replace_id(s, id, version)[j].id
                != #[trigger] replace_id(s, id, version)[k].id by {
            assert(replace_id(s, id, version)[j].id == s[j].id);
            assert(replace_id(s, id, version)[k].id == s[k].id);
        }
    }
}

} // verus!
