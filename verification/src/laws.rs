//! Laws the environment obeys across whole notification sequences, stated
//! over the abstract state and proved once and for all.

use vstd::prelude::*;

use crate::BoundInstance;
use crate::environment::{EnvModel, GlobalEvent};
use crate::handlers::{
    after_created, after_removed, has_id, lemma_after_removed_absent, lemma_after_removed_no_id,
};
use crate::init::{InitError, InitPhase};

verus! {

/// The interface name a notification speaks of.
pub open spec fn event_name(e: GlobalEvent) -> Seq<char> {
    match e {
        GlobalEvent::Added { interface, .. } => interface@,
        GlobalEvent::Removed { interface, .. } => interface@,
    }
}

/// The id a notification speaks of.
pub open spec fn event_id(e: GlobalEvent) -> u32 {
    match e {
        GlobalEvent::Added { id, .. } => id,
        GlobalEvent::Removed { id, .. } => id,
    }
}

/// The version an advertisement speaks of.
pub open spec fn event_version(e: GlobalEvent) -> u32 {
    match e {
        GlobalEvent::Added { version, .. } => version,
        GlobalEvent::Removed { .. } => 0,
    }
}

/// For a declared "single" slot, the last advertisement processed wins:
/// after any non-empty sequence of advertisements for that interface, the
/// slot holds the binding of the sequence's last element.
pub proof fn lemma_single_last_wins(m: EnvModel, events: Seq<GlobalEvent>, name: Seq<char>)
    requires
        m.singles.contains_key(name),
        events.len() > 0,
        forall|k: int|
            0 <= k < events.len() ==> (#[trigger] events[k]) is Added && event_name(events[k])
                == name,
    ensures
        m.apply_events(events).singles[name] == Some(
            BoundInstance {
                id: event_id(events.last()),
                version: event_version(events.last()),
            },
        ),
    decreases events.len(),
{
    let m1 = m.apply_event(events[0]);
    let rest = events.drop_first();
    assert(m.apply_events(events) == m1.apply_events(rest));
    assert(m1.singles.contains_key(name));
    if events.len() == 1 {
        assert(rest.len() == 0);
        assert(m1.apply_events(rest) == m1);
        assert(events.last() == events[0]);
        assert(m1.singles[name] == Some(
            BoundInstance { id: event_id(events[0]), version: event_version(events[0]) },
        ));
    } else {
        assert(forall|k: int|
            0 <= k < rest.len() ==> (#[trigger] rest[k]) is Added && event_name(rest[k]) == name);
        lemma_single_last_wins(m1, rest, name);
        assert(rest.last() == events.last());
    }
}

/// A notification whose interface is declared nowhere changes nothing: it
/// never reaches a slot and never surfaces as an error.
pub proof fn lemma_undeclared_ignored(m: EnvModel, e: GlobalEvent)
    requires
        !m.singles.contains_key(event_name(e)),
        !m.multis.contains_key(event_name(e)),
    ensures
        m.apply_event(e) == m,
{
}

/// Creations with three distinct ids followed by a removal of the middle
/// one leave exactly the first and the third instance, in creation order.
pub proof fn lemma_create_three_remove_middle(a: u32, b: u32, c: u32, va: u32, vb: u32, vc: u32)
    requires
        a != b,
        b != c,
        c != a,
    ensures
        ({
            let s = after_created(
                after_created(after_created(Seq::<BoundInstance>::empty(), a, va), b, vb),
                c,
                vc,
            );
            after_removed(s, b) == seq![
                (BoundInstance { id: a, version: va }),
                (BoundInstance { id: c, version: vc }),
            ]
        }),
{
    let ia = BoundInstance { id: a, version: va };
    let ib = BoundInstance { id: b, version: vb };
    let ic = BoundInstance { id: c, version: vc };
    let s0 = Seq::<BoundInstance>::empty();
    assert(!has_id(s0, a));
    let s1 = after_created(s0, a, va);
    assert(s1 =~= seq![ia]);
    assert(!has_id(s1, b));
    let s2 = after_created(s1, b, vb);
    assert(s2 =~= seq![ia, ib]);
    assert(!has_id(s2, c));
    let s3 = after_created(s2, c, vc);
    assert(s3 =~= seq![ia, ib, ic]);
    assert(s3.drop_last() =~= seq![ia, ib]);
    assert(seq![ia, ib].drop_last() =~= seq![ia]);
    assert(seq![ia].drop_last() =~= s0);
    assert(after_removed(s0, b) =~= s0);
    assert(after_removed(seq![ia], b) =~= seq![ia]);
    assert(after_removed(seq![ia, ib], b) =~= seq![ia]);
    assert(after_removed(s3, b) =~= seq![ia, ic]);
}

/// The same, lifted to whole dispatches: a declared "multi" slot starting
/// empty, after advertisements with three distinct ids and a removal of the
/// middle one, holds exactly the first and the third binding, in creation
/// order.
pub proof fn lemma_multi_dispatch_scenario(
    m: EnvModel,
    ea: GlobalEvent,
    eb: GlobalEvent,
    ec: GlobalEvent,
    er: GlobalEvent,
    name: Seq<char>,
)
    requires
        !m.singles.contains_key(name),
        m.multis.contains_key(name),
        m.multis[name] == Seq::<BoundInstance>::empty(),
        ea is Added && event_name(ea) == name,
        eb is Added && event_name(eb) == name,
        ec is Added && event_name(ec) == name,
        er is Removed && event_name(er) == name,
        event_id(er) == event_id(eb),
        event_id(ea) != event_id(eb),
        event_id(eb) != event_id(ec),
        event_id(ec) != event_id(ea),
    ensures
        m.apply_events(seq![ea, eb, ec, er]).multis[name] == seq![
            (BoundInstance { id: event_id(ea), version: event_version(ea) }),
            (BoundInstance { id: event_id(ec), version: event_version(ec) }),
        ],
{
    let events = seq![ea, eb, ec, er];
    let m1 = m.apply_event(ea);
    let m2 = m1.apply_event(eb);
    let m3 = m2.apply_event(ec);
    let m4 = m3.apply_event(er);
    assert(events.drop_first() =~= seq![eb, ec, er]);
    assert(seq![eb, ec, er].drop_first() =~= seq![ec, er]);
    assert(seq![ec, er].drop_first() =~= seq![er]);
    assert(seq![er].drop_first() =~= Seq::<GlobalEvent>::empty());
    assert(m.apply_events(events) == m1.apply_events(seq![eb, ec, er]));
    assert(m1.apply_events(seq![eb, ec, er]) == m2.apply_events(seq![ec, er]));
    assert(m2.apply_events(seq![ec, er]) == m3.apply_events(seq![er]));
    assert(m3.apply_events(seq![er]) == m4.apply_events(Seq::<GlobalEvent>::empty()));
    assert(m4.apply_events(Seq::<GlobalEvent>::empty()) == m4);
    lemma_create_three_remove_middle(
        event_id(ea),
        event_id(eb),
        event_id(ec),
        event_version(ea),
        event_version(eb),
        event_version(ec),
    );
    assert(m4.multis[name] == after_removed(
        after_created(
            after_created(
                after_created(Seq::<BoundInstance>::empty(), event_id(ea), event_version(ea)),
                event_id(eb),
                event_version(eb),
            ),
            event_id(ec),
            event_version(ec),
        ),
        event_id(er),
    ));
}

/// Removing the same id twice is a no-op the second time: nothing with that
/// id is live any more, so the state no longer moves.
pub proof fn lemma_removal_idempotent(m: EnvModel, e: GlobalEvent)
    requires
        e is Removed,
    ensures
        m.apply_event(e).apply_event(e) =~~= m.apply_event(e),
{
    let name = event_name(e);
    if m.multis.contains_key(name) {
        let s1 = after_removed(m.multis[name], event_id(e));
        lemma_after_removed_no_id(m.multis[name], event_id(e));
        lemma_after_removed_absent(s1, event_id(e));
    }
}

/// Removing an id that was never created is a no-op.
pub proof fn lemma_removal_of_absent_ignored(m: EnvModel, e: GlobalEvent)
    requires
        e is Removed,
        m.multis.contains_key(event_name(e)) ==> !has_id(
            m.multis[event_name(e)],
            event_id(e),
        ),
    ensures
        m.apply_event(e) =~~= m,
{
    let name = event_name(e);
    if m.multis.contains_key(name) {
        lemma_after_removed_absent(m.multis[name], event_id(e));
        assert(m.multis.insert(name, m.multis[name]) =~= m.multis);
    }
}

/// Initialization completes exactly when both rounds succeed, in order; the
/// first failure is kept, each under its own reason.
pub proof fn lemma_two_round_initialization(first: bool, second: bool)
    ensures
        first && second ==> InitPhase::AwaitingFirstSync.advance(first).advance(second)
            is Complete,
        !first ==> InitPhase::AwaitingFirstSync.advance(first).advance(second) == InitPhase::Failed(
            InitError::FirstRoundtripFailed,
        ),
        first && !second ==> InitPhase::AwaitingFirstSync.advance(first).advance(second)
            == InitPhase::Failed(InitError::SecondRoundtripFailed),
{
}

} // verus!
