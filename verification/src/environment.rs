//! The environment facade: the declared slot table, the dispatcher that
//! routes registry notifications into it, and typed accessors over the
//! bound globals.
//!
//! An [`Environment`] is built once, from the application's static
//! declaration of interesting interfaces, by [`Environment::wrap`]. Registry
//! notifications are fed to [`Environment::process_event`]; a notification
//! for an undeclared interface is silently discarded. The accessors mirror
//! the declared kinds: [`Environment::get_global`] and
//! [`Environment::require_global`] for "single" slots,
//! [`Environment::get_all_globals`] for "multi" slots, and
//! [`Environment::with_extras`] for the auxiliary application fields stored
//! alongside the slots.

use vstd::prelude::*;
use vstd::string::StringExecFns;

use crate::BoundInstance;
use crate::handlers::{
    GlobalHandler, MultiGlobalHandler, after_created, after_removed, ids_distinct,
    lemma_after_created_distinct, lemma_after_removed_distinct,
};

verus! {

/// A registry notification, as the transport delivers it.
pub enum GlobalEvent {
    /// A global with this id is available under this interface name, at
    /// most at this version.
    Added { id: u32, interface: String, version: u32 },
    /// The global with this id, advertised under this interface name, was
    /// retracted.
    Removed { id: u32, interface: String },
}

/// A binding the dispatcher decided on: the transport should bind this
/// interface, at this id and version, to back the instance just recorded.
pub struct BindRequest {
    pub interface: String,
    pub id: u32,
    pub version: u32,
}

/// One declared "single" slot: an interface name and the handler
/// responsible for it.
pub struct SingleSlot<S> {
    pub interface: String,
    pub handler: S,
}

/// One declared "multi" slot: an interface name and the handler responsible
/// for it.
pub struct MultiSlot<M> {
    pub interface: String,
    pub handler: M,
}

/// The abstract state of an environment: what each declared interface name
/// currently holds.
#[verifier::ext_equal]
pub struct EnvModel {
    pub singles: Map<Seq<char>, Option<BoundInstance>>,
    pub multis: Map<Seq<char>, Seq<BoundInstance>>,
}

impl EnvModel {
    /// The state after one registry notification is dispatched: the
    /// matching slot absorbs it, a notification for an undeclared interface
    /// changes nothing, and a removal for a "single" slot is ignored by
    /// design.
    pub open spec fn apply_event(self, e: GlobalEvent) -> EnvModel {
        match e {
            GlobalEvent::Added { id, interface, version } => {
                if self.singles.contains_key(interface@) {
                    EnvModel {
                        singles: self.singles.insert(
                            interface@,
                            Some(BoundInstance { id, version }),
                        ),
                        multis: self.multis,
                    }
                } else if self.multis.contains_key(interface@) {
                    EnvModel {
                        singles: self.singles,
                        multis: self.multis.insert(
                            interface@,
                            after_created(self.multis[interface@], id, version),
                        ),
                    }
                } else {
                    self
                }
            },
            GlobalEvent::Removed { id, interface } => {
                if self.multis.contains_key(interface@) {
                    EnvModel {
                        singles: self.singles,
                        multis: self.multis.insert(
                            interface@,
                            after_removed(self.multis[interface@], id),
                        ),
                    }
                } else {
                    self
                }
            },
        }
    }

    /// The state after a whole notification sequence, applied in delivery
    /// order.
    pub open spec fn apply_events(self, events: Seq<GlobalEvent>) -> EnvModel
        decreases events.len(),
    {
        if events.len() == 0 {
            self
        } else {
            self.apply_event(events[0]).apply_events(events.drop_first())
        }
    }
}

/// No interface name is declared twice, in whatever combination of slots.
pub open spec fn slot_names_distinct<S, M>(
    singles: Seq<SingleSlot<S>>,
    multis: Seq<MultiSlot<M>>,
) -> bool {
    &&& forall|j: int, k: int|
        0 <= j < k < singles.len() ==> #[trigger] singles[j].interface@ != #[trigger] singles[k].interface@
    &&& forall|j: int, k: int|
        0 <= j < k < multis.len() ==> #[trigger] multis[j].interface@ != #[trigger] multis[k].interface@
    &&& forall|j: int, k: int|
        0 <= j < singles.len() && 0 <= k < multis.len() ==> #[trigger] singles[j].interface@
            != #[trigger] multis[k].interface@
}

/// The failure `require_global` reports: the named interface, treated as
/// mandatory by the caller, has no live binding.
#[derive(Debug)]
pub struct MissingGlobal {
    pub interface: String,
}

/// The wording that prefixes every missing-global diagnostic.
pub open spec fn missing_global_prefix() -> Seq<char> {
    "a missing global was required: "@
}

impl MissingGlobal {
    /// A diagnostic that names the missing interface exactly.
    pub fn message(&self) -> (r: String)
        ensures
            r@ == missing_global_prefix() + self.interface@,
    {
        String::from_str("a missing global was required: ").concat(self.interface.as_str())
    }
}

/// Whether two interface names read the same.
fn names_equal(a: &String, b: &String) -> (r: bool)
    ensures
        r == (a@ == b@),
{
    *a == *b
}

/// The central access point to the declared globals: one slot per declared
/// interface, plus the application's auxiliary fields.
pub struct Environment<E, S, M> {
    /// The declared "single" slots.
    pub singles: Vec<SingleSlot<S>>,
    /// The declared "multi" slots.
    pub multis: Vec<MultiSlot<M>>,
    /// The auxiliary application fields stored alongside the slots.
    pub extras: E,
}

impl<E, S: GlobalHandler, M: MultiGlobalHandler> Environment<E, S, M> {
    /// The structural invariant: no name occupies two slots, and every
    /// multi slot keeps one binding per id.
    pub open spec fn wf(&self) -> bool {
        &&& slot_names_distinct(self.singles@, self.multis@)
        &&& forall|k: int|
            0 <= k < self.multis@.len() ==> ids_distinct(
                #[trigger] self.multis@[k].handler.instances(),
            )
    }

    /// Whether the declaration includes a "single" slot for this name.
    pub open spec fn declared_single(&self, name: Seq<char>) -> bool {
        exists|k: int| 0 <= k < self.singles@.len() && #[trigger] self.singles@[k].interface@ == name
    }

    /// Whether the declaration includes a "multi" slot for this name.
    pub open spec fn declared_multi(&self, name: Seq<char>) -> bool {
        exists|k: int| 0 <= k < self.multis@.len() && #[trigger] self.multis@[k].interface@ == name
    }

    /// The index of the "single" slot declared for this name.
    pub open spec fn single_index(&self, name: Seq<char>) -> int {
        choose|k: int| 0 <= k < self.singles@.len() && #[trigger] self.singles@[k].interface@ == name
    }

    /// The index of the "multi" slot declared for this name.
    pub open spec fn multi_index(&self, name: Seq<char>) -> int {
        choose|k: int| 0 <= k < self.multis@.len() && #[trigger] self.multis@[k].interface@ == name
    }

    /// The abstract state: each declared name mapped to what its slot
    /// currently holds.
    pub open spec fn model(&self) -> EnvModel {
        EnvModel {
            singles: Map::new(
                |name: Seq<char>| self.declared_single(name),
                |name: Seq<char>| self.singles@[self.single_index(name)].handler.bound(),
            ),
            multis: Map::new(
                |name: Seq<char>| self.declared_multi(name),
                |name: Seq<char>| self.multis@[self.multi_index(name)].handler.instances(),
            ),
        }
    }

    /// In a well-formed environment a declared name picks out exactly one
    /// "single" slot.
    pub proof fn lemma_single_index_of(&self, i: int)
        requires
            self.wf(),
            0 <= i < self.singles@.len(),
        ensures
            self.single_index(self.singles@[i].interface@) == i,
    {
        let name = self.singles@[i].interface@;
        assert(self.declared_single(name));
        let k = self.single_index(name);
        if k != i {
            if k < i {
                assert(self.singles@[k].interface@ != self.singles@[i].interface@);
            } else {
                assert(self.singles@[i].interface@ != self.singles@[k].interface@);
            }
        }
    }

    /// In a well-formed environment a declared name picks out exactly one
    /// "multi" slot.
    pub proof fn lemma_multi_index_of(&self, i: int)
        requires
            self.wf(),
            0 <= i < self.multis@.len(),
        ensures
            self.multi_index(self.multis@[i].interface@) == i,
    {
        let name = self.multis@[i].interface@;
        assert(self.declared_multi(name));
        let k = self.multi_index(name);
        if k != i {
            if k < i {
                assert(self.multis@[k].interface@ != self.multis@[i].interface@);
            } else {
                assert(self.multis@[i].interface@ != self.multis@[k].interface@);
            }
        }
    }

    /// Build an environment from the application's static declaration. The
    /// declaration is accepted exactly when no interface name is given
    /// twice and every handed-in multi handler holds at most one binding
    /// per id; fresh handlers trivially satisfy the latter.
    #[verifier::loop_isolation(false)]
    pub fn wrap(singles: Vec<SingleSlot<S>>, multis: Vec<MultiSlot<M>>, extras: E) -> (r: Option<
        Environment<E, S, M>,
    >)
        ensures
            match r {
                Some(env) => {
                    &&& env.wf()
                    &&& env.singles@ == singles@
                    &&& env.multis@ == multis@
                    &&& env.extras == extras
                },
                None => !(slot_names_distinct(singles@, multis@) && (forall|k: int|
                    0 <= k < multis@.len() ==> ids_distinct(
                        #[trigger] multis@[k].handler.instances(),
                    ))),
            },
    {
        let mut i: usize = 0;
        while i < singles.len()
            invariant
                i <= singles@.len(),
                forall|j: int, k: int|
                    0 <= j < k < singles@.len() && j < i ==> #[trigger] singles@[j].interface@
                        != #[trigger] singles@[k].interface@,
            decreases singles@.len() - i,
        {
            let mut k: usize = i + 1;
            while k < singles.len()
                invariant
                    i < k <= singles@.len() || (i >= singles@.len()),
                    i < singles@.len(),
                    forall|m: int|
                        i < m < k ==> #[trigger] singles@[m].interface@ != singles@[i as int].interface@,
                decreases singles@.len() - k,
            {
                if names_equal(&singles[i].interface, &singles[k].interface) {
                    return None;
                }
                k += 1;
            }
            i += 1;
        }
        let mut i: usize = 0;
        while i < multis.len()
            invariant
                i <= multis@.len(),
                forall|j: int, k: int|
                    0 <= j < k < multis@.len() && j < i ==> #[trigger] multis@[j].interface@
                        != #[trigger] multis@[k].interface@,
            decreases multis@.len() - i,
        {
            let mut k: usize = i + 1;
            while k < multis.len()
                invariant
                    i < k <= multis@.len() || (i >= multis@.len()),
                    i < multis@.len(),
                    forall|m: int|
                        i < m < k ==> #[trigger] multis@[m].interface@ != multis@[i as int].interface@,
                decreases multis@.len() - k,
            {
                if names_equal(&multis[i].interface, &multis[k].interface) {
                    return None;
                }
                k += 1;
            }
            i += 1;
        }
        let mut i: usize = 0;
        while i < singles.len()
            invariant
                i <= singles@.len(),
                forall|j: int, k: int|
                    0 <= j < singles@.len() && 0 <= k < multis@.len() && j < i
                        ==> #[trigger] singles@[j].interface@ != #[trigger] multis@[k].interface@,
            decreases singles@.len() - i,
        {
            let mut k: usize = 0;
            while k < multis.len()
                invariant
                    k <= multis@.len(),
                    i < singles@.len(),
                    forall|m: int|
                        0 <= m < k ==> #[trigger] multis@[m].interface@ != singles@[i as int].interface@,
                decreases multis@.len() - k,
            {
                if names_equal(&singles[i].interface, &multis[k].interface) {
                    return None;
                }
                k += 1;
            }
            i += 1;
        }
        let mut i: usize = 0;
        while i < multis.len()
            invariant
                i <= multis@.len(),
                forall|k: int|
                    0 <= k < i ==> ids_distinct(#[trigger] multis@[k].handler.instances()),
            decreases multis@.len() - i,
        {
            let live = multis[i].handler.get_all();
            let mut j: usize = 0;
            while j < live.len()
                invariant
                    j <= live@.len(),
                    live@ == multis@[i as int].handler.instances(),
                    i < multis@.len(),
                    forall|a: int, b: int|
                        0 <= a < b < live@.len() && a < j ==> #[trigger] live@[a].id
                            != #[trigger] live@[b].id,
                decreases live@.len() - j,
            {
                let mut k: usize = j + 1;
                while k < live.len()
                    invariant
                        j < k <= live@.len() || (j >= live@.len()),
                        j < live@.len(),
                        forall|m: int| j < m < k ==> #[trigger] live@[m].id != live@[j as int].id,
                    decreases live@.len() - k,
                {
                    if live[j].id == live[k].id {
                        return None;
                    }
                    k += 1;
                }
                j += 1;
            }
            i += 1;
        }
        Some(Environment { singles, multis, extras })
    }

    /// Access a "single" global: the binding from the last advertisement
    /// dispatched for this interface, or `None` if none was ever
    /// dispatched. The interface must be among the declared "single" slots.
    pub fn get_global(&self, interface: &String) -> (r: Option<BoundInstance>)
        requires
            self.wf(),
            self.declared_single(interface@),
        ensures
            r == self.model().singles[interface@],
    {
        let mut i: usize = 0;
        while i < self.singles.len()
            invariant
                i <= self.singles@.len(),
                self.wf(),
                self.declared_single(interface@),
                forall|k: int| 0 <= k < i ==> #[trigger] self.singles@[k].interface@ != interface@,
            decreases self.singles@.len() - i,
        {
            if names_equal(&self.singles[i].interface, interface) {
                proof {
                    self.lemma_single_index_of(i as int);
                }
                return self.singles[i].handler.get();
            }
            i += 1;
        }
        proof {
            assert(!self.declared_single(interface@));
        }
        None
    }

    /// Access a "single" global that the application treats as mandatory.
    /// Exactly when no advertisement was ever dispatched for the interface,
    /// the call fails with a diagnostic naming it.
    pub fn require_global(&self, interface: &String) -> (r: Result<BoundInstance, MissingGlobal>)
        requires
            self.wf(),
            self.declared_single(interface@),
        ensures
            match r {
                Ok(b) => self.model().singles[interface@] == Some(b),
                Err(e) => {
                    &&& self.model().singles[interface@] is None
                    &&& e.interface@ == interface@
                },
            },
    {
        match self.get_global(interface) {
            Some(b) => Ok(b),
            None => Err(MissingGlobal { interface: interface.clone() }),
        }
    }

    /// Access all live instances of a "multi" global, in creation order.
    /// The interface must be among the declared "multi" slots.
    pub fn get_all_globals(&self, interface: &String) -> (r: Vec<BoundInstance>)
        requires
            self.wf(),
            self.declared_multi(interface@),
        ensures
            r@ == self.model().multis[interface@],
    {
        let mut i: usize = 0;
        while i < self.multis.len()
            invariant
                i <= self.multis@.len(),
                self.wf(),
                self.declared_multi(interface@),
                forall|k: int| 0 <= k < i ==> #[trigger] self.multis@[k].interface@ != interface@,
            decreases self.multis@.len() - i,
        {
            if names_equal(&self.multis[i].interface, interface) {
                proof {
                    self.lemma_multi_index_of(i as int);
                }
                return self.multis[i].handler.get_all();
            }
            i += 1;
        }
        proof {
            assert(!self.declared_multi(interface@));
        }
        Vec::new()
    }

    /// Scoped access to the auxiliary application fields: the closure runs
    /// on them and its result is handed back, with the scope released on
    /// every path. Writing goes through [`Environment::replace_extras`],
    /// whose exclusivity the borrow checker enforces.
    pub fn with_extras<T, F: FnOnce(&E) -> T>(&self, f: F) -> (r: T)
        requires
            call_requires(f, (&self.extras,)),
        ensures
            call_ensures(f, (&self.extras,), r),
    {
        f(&self.extras)
    }

    /// Exclusive write access to the auxiliary application fields: the
    /// given value moves in, the previous one is handed back.
    pub fn replace_extras(&mut self, extras: E) -> (r: E)
        ensures
            final(self).singles@ == old(self).singles@,
            final(self).multis@ == old(self).multis@,
            final(self).extras == extras,
            r == old(self).extras,
    {
        let mut taken = extras;
        core::mem::swap(&mut self.extras, &mut taken);
        taken
    }

    /// Dispatch one registry notification. The slot declared for the
    /// event's interface absorbs it; an event for an undeclared interface
    /// is discarded; a removal for a "single" slot is ignored by design.
    /// An absorbed advertisement hands back the binding the transport
    /// should now perform.
    #[verifier::loop_isolation(false)]
    pub fn process_event(&mut self, event: &GlobalEvent) -> (r: Option<BindRequest>)
        requires
            old(self).wf(),
        ensures
            final(self).wf(),
            final(self).extras == old(self).extras,
            final(self).model() =~~= old(self).model().apply_event(*event),
            forall|n: Seq<char>| final(self).declared_single(n) == old(self).declared_single(n),
            forall|n: Seq<char>| final(self).declared_multi(n) == old(self).declared_multi(n),
            match *event {
                GlobalEvent::Added { id, interface, version } => {
                    if old(self).declared_single(interface@) || old(self).declared_multi(
                        interface@,
                    ) {
                        match r {
                            Some(req) => req.interface@ == interface@ && req.id == id
                                && req.version == version,
                            None => false,
                        }
                    } else {
                        r is None
                    }
                },
                GlobalEvent::Removed { .. } => r is None,
            },
    {
        match event {
            GlobalEvent::Added { id, interface, version } => {
                let mut i: usize = 0;
                while i < self.singles.len()
                    invariant
                        i <= self.singles@.len(),
                        *self == *old(self),
                        old(self).wf(),
                        forall|k: int|
                            0 <= k < i ==> #[trigger] self.singles@[k].interface@ != interface@,
                    decreases self.singles@.len() - i,
                {
                    if names_equal(&self.singles[i].interface, interface) {
                        let request = BindRequest {
                            interface: interface.clone(),
                            id: *id,
                            version: *version,
                        };
                        self.singles[i].handler.created(*id, *version);
                        proof {
                            old(self).lemma_single_index_of(i as int);
                            self.lemma_model_after_single_update(*old(self), i as int);
                            assert(old(self).singles@[i as int].interface@ == interface@);
                            assert(old(self).declared_single(interface@));
                            assert(old(self).model().singles.contains_key(interface@));
                            assert(self.singles@[i as int].handler.bound() == Some(
                                BoundInstance { id: *id, version: *version },
                            ));
                            assert(request.interface@ == interface@);
                            assert(self.model() =~~= old(self).model().apply_event(*event));
                        }
                        return Some(request);
                    }
                    i += 1;
                }
                let mut j: usize = 0;
                while j < self.multis.len()
                    invariant
                        j <= self.multis@.len(),
                        *self == *old(self),
                        old(self).wf(),
                        forall|k: int|
                            0 <= k < self.singles@.len() ==> #[trigger] self.singles@[k].interface@
                                != interface@,
                        forall|k: int|
                            0 <= k < j ==> #[trigger] self.multis@[k].interface@ != interface@,
                    decreases self.multis@.len() - j,
                {
                    if names_equal(&self.multis[j].interface, interface) {
                        let request = BindRequest {
                            interface: interface.clone(),
                            id: *id,
                            version: *version,
                        };
                        proof {
                            lemma_after_created_distinct(
                                old(self).multis@[j as int].handler.instances(),
                                *id,
                                *version,
                            );
                        }
                        self.multis[j].handler.created(*id, *version);
                        proof {
                            old(self).lemma_multi_index_of(j as int);
                            self.lemma_model_after_multi_update(*old(self), j as int);
                            assert(old(self).multis@[j as int].interface@ == interface@);
                            assert(old(self).declared_multi(interface@));
                            assert(!old(self).declared_single(interface@));
                            assert(!old(self).model().singles.contains_key(interface@));
                            assert(old(self).model().multis.contains_key(interface@));
                            assert(old(self).model().multis[interface@] == old(
                                self,
                            ).multis@[j as int].handler.instances());
                            assert(self.multis@[j as int].handler.instances() == after_created(
                                old(self).multis@[j as int].handler.instances(),
                                *id,
                                *version,
                            ));
                            assert(request.interface@ == interface@);
                            assert(self.model() =~~= old(self).model().apply_event(*event));
                        }
                        return Some(request);
                    }
                    j += 1;
                }
                proof {
                    assert(!old(self).declared_single(interface@));
                    assert(!old(self).declared_multi(interface@));
                    assert(self.model() =~~= old(self).model());
                }
                None
            },
            GlobalEvent::Removed { id, interface } => {
                let mut j: usize = 0;
                while j < self.multis.len()
                    invariant
                        j <= self.multis@.len(),
                        *self == *old(self),
                        old(self).wf(),
                        forall|k: int|
                            0 <= k < j ==> #[trigger] self.multis@[k].interface@ != interface@,
                    decreases self.multis@.len() - j,
                {
                    if names_equal(&self.multis[j].interface, interface) {
                        proof {
                            lemma_after_removed_distinct(
                                old(self).multis@[j as int].handler.instances(),
                                *id,
                            );
                        }
                        self.multis[j].handler.removed(*id);
                        proof {
                            old(self).lemma_multi_index_of(j as int);
                            self.lemma_model_after_multi_update(*old(self), j as int);
                            assert(old(self).multis@[j as int].interface@ == interface@);
                            assert(old(self).declared_multi(interface@));
                            assert(old(self).model().multis.contains_key(interface@));
                            assert(old(self).model().multis[interface@] == old(
                                self,
                            ).multis@[j as int].handler.instances());
                            assert(self.multis@[j as int].handler.instances() == after_removed(
                                old(self).multis@[j as int].handler.instances(),
                                *id,
                            ));
                            assert(self.model() =~~= old(self).model().apply_event(*event));
                        }
                        return None;
                    }
                    j += 1;
                }
                proof {
                    assert(!old(self).declared_multi(interface@));
                    assert(self.model() =~~= old(self).model());
                }
                None
            },
        }
    }

    /// After one "single" slot's handler changed and nothing else did, the
    /// abstract state is the old one with that slot's name re-mapped.
    proof fn lemma_model_after_single_update(&self, pre: Environment<E, S, M>, i: int)
        requires
            pre.wf(),
            0 <= i < pre.singles@.len(),
            self.singles@.len() == pre.singles@.len(),
            self.multis@ == pre.multis@,
            forall|k: int|
                0 <= k < pre.singles@.len() ==> #[trigger] self.singles@[k].interface@
                    == pre.singles@[k].interface@,
            forall|k: int|
                0 <= k < pre.singles@.len() && k != i ==> #[trigger] self.singles@[k].handler
                    == pre.singles@[k].handler,
        ensures
            self.wf(),
            forall|n: Seq<char>| self.declared_single(n) == pre.declared_single(n),
            forall|n: Seq<char>| self.declared_multi(n) == pre.declared_multi(n),
            self.model() =~~= (EnvModel {
                singles: pre.model().singles.insert(
                    pre.singles@[i].interface@,
                    self.singles@[i].handler.bound(),
                ),
                multis: pre.model().multis,
            }),
    {
        assert forall|n: Seq<char>| self.declared_single(n) == pre.declared_single(n) by {
            if self.declared_single(n) {
                let k = choose|k: int|
                    0 <= k < self.singles@.len() && #[trigger] self.singles@[k].interface@ == n;
                assert(pre.singles@[k].interface@ == n);
            }
            if pre.declared_single(n) {
                let k = choose|k: int|
                    0 <= k < pre.singles@.len() && #[trigger] pre.singles@[k].interface@ == n;
                assert(self.singles@[k].interface@ == n);
            }
        }
        assert(self.wf());
        let name = pre.singles@[i].interface@;
        assert forall|n: Seq<char>| self.declared_single(n) implies #[trigger] self.model().singles[n]
            == pre.model().singles.insert(name, self.singles@[i].handler.bound())[n] by {
            let k = choose|k: int|
                0 <= k < pre.singles@.len() && #[trigger] pre.singles@[k].interface@ == n;
            pre.lemma_single_index_of(k);
            self.lemma_single_index_of(k);
            if n == name {
                pre.lemma_single_index_of(i);
                self.lemma_single_index_of(i);
            } else {
                assert(k != i);
            }
        }
        assert forall|n: Seq<char>| self.declared_multi(n) == pre.declared_multi(n) by {
            if self.declared_multi(n) {
                let k = choose|k: int|
                    0 <= k < self.multis@.len() && #[trigger] self.multis@[k].interface@ == n;
                assert(pre.multis@[k].interface@ == n);
            }
            if pre.declared_multi(n) {
                let k = choose|k: int|
                    0 <= k < pre.multis@.len() && #[trigger] pre.multis@[k].interface@ == n;
                assert(self.multis@[k].interface@ == n);
            }
        }
        assert forall|n: Seq<char>| self.declared_multi(n) implies #[trigger] self.model().multis[n]
            == pre.model().multis[n] by {
            let k = choose|k: int|
                0 <= k < pre.multis@.len() && #[trigger] pre.multis@[k].interface@ == n;
            pre.lemma_multi_index_of(k);
            self.lemma_multi_index_of(k);
        }
    }

    /// After one "multi" slot's handler changed and nothing else did, the
    /// abstract state is the old one with that slot's name re-mapped.
    proof fn lemma_model_after_multi_update(&self, pre: Environment<E, S, M>, i: int)
        requires
            pre.wf(),
            0 <= i < pre.multis@.len(),
            self.multis@.len() == pre.multis@.len(),
            self.singles@ == pre.singles@,
            ids_distinct(self.multis@[i].handler.instances()),
            forall|k: int|
                0 <= k < pre.multis@.len() ==> #[trigger] self.multis@[k].interface@
                    == pre.multis@[k].interface@,
            forall|k: int|
                0 <= k < pre.multis@.len() && k != i ==> #[trigger] self.multis@[k].handler
                    == pre.multis@[k].handler,
        ensures
            self.wf(),
            forall|n: Seq<char>| self.declared_single(n) == pre.declared_single(n),
            forall|n: Seq<char>| self.declared_multi(n) == pre.declared_multi(n),
            self.model() =~~= (EnvModel {
                singles: pre.model().singles,
                multis: pre.model().multis.insert(
                    pre.multis@[i].interface@,
                    self.multis@[i].handler.instances(),
                ),
            }),
    {
        assert forall|n: Seq<char>| self.declared_multi(n) == pre.declared_multi(n) by {
            if self.declared_multi(n) {
                let k = choose|k: int|
                    0 <= k < self.multis@.len() && #[trigger] self.multis@[k].interface@ == n;
                assert(pre.multis@[k].interface@ == n);
            }
            if pre.declared_multi(n) {
                let k = choose|k: int|
                    0 <= k < pre.multis@.len() && #[trigger] pre.multis@[k].interface@ == n;
                assert(self.multis@[k].interface@ == n);
            }
        }
        assert forall|k: int| 0 <= k < self.multis@.len() implies ids_distinct(
            #[trigger] self.multis@[k].handler.instances(),
        ) by {
            if k != i {
                assert(self.multis@[k].handler == pre.multis@[k].handler);
            }
        }
        assert(self.wf());
        let name = pre.multis@[i].interface@;
        assert forall|n: Seq<char>| self.declared_multi(n) implies #[trigger] self.model().multis[n]
            == pre.model().multis.insert(name, self.multis@[i].handler.instances())[n] by {
            let k = choose|k: int|
                0 <= k < pre.multis@.len() && #[trigger] pre.multis@[k].interface@ == n;
            pre.lemma_multi_index_of(k);
            self.lemma_multi_index_of(k);
            if n == name {
                pre.lemma_multi_index_of(i);
                self.lemma_multi_index_of(i);
            } else {
                assert(k != i);
            }
        }
        assert forall|n: Seq<char>| self.declared_single(n) == pre.declared_single(n) by {
            if self.declared_single(n) {
                let k = choose|k: int|
                    0 <= k < self.singles@.len() && #[trigger] self.singles@[k].interface@ == n;
                assert(pre.singles@[k].interface@ == n);
            }
            if pre.declared_single(n) {
                let k = choose|k: int|
                    0 <= k < pre.singles@.len() && #[trigger] pre.singles@[k].interface@ == n;
                assert(self.singles@[k].interface@ == n);
            }
        }
        assert forall|n: Seq<char>| self.declared_single(n) implies #[trigger] self.model().singles[n]
            == pre.model().singles[n] by {
            let k = choose|k: int|
                0 <= k < pre.singles@.len() && #[trigger] pre.singles@[k].interface@ == n;
            pre.lemma_single_index_of(k);
            self.lemma_single_index_of(k);
        }
    }
}

} // verus!
