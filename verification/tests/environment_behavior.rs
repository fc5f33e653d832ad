use wayland_environment::BoundInstance;
use wayland_environment::environment::{
    BindRequest, Environment, GlobalEvent, MultiSlot, SingleSlot,
};
use wayland_environment::handlers::{SimpleGlobal, SimpleMultiGlobal};

type TestEnv = Environment<u32, SimpleGlobal, SimpleMultiGlobal>;

fn make_env() -> TestEnv {
    let singles = vec![
        SingleSlot { interface: "compositor".to_string(), handler: SimpleGlobal::new() },
        SingleSlot { interface: "shm".to_string(), handler: SimpleGlobal::new() },
    ];
    let multis = vec![
        MultiSlot { interface: "output".to_string(), handler: SimpleMultiGlobal::new() },
    ];
    Environment::wrap(singles, multis, 0u32).expect("distinct declaration accepted")
}

fn added(interface: &str, id: u32, version: u32) -> GlobalEvent {
    GlobalEvent::Added { id, interface: interface.to_string(), version }
}

fn removed(interface: &str, id: u32) -> GlobalEvent {
    GlobalEvent::Removed { id, interface: interface.to_string() }
}

#[test]
fn single_last_advertisement_wins() {
    let mut env = make_env();
    env.process_event(&added("compositor", 1, 3));
    env.process_event(&added("compositor", 2, 4));
    let got = env.get_global(&"compositor".to_string());
    assert_eq!(got, Some(BoundInstance { id: 2, version: 4 }));
}

#[test]
fn single_unadvertised_is_none() {
    let env = make_env();
    assert_eq!(env.get_global(&"compositor".to_string()), None);
    assert_eq!(env.get_global(&"shm".to_string()), None);
}

#[test]
fn advertise_single_compositor_binds_within_version() {
    let mut env = make_env();
    env.process_event(&added("compositor", 1, 4));
    let got = env.get_global(&"compositor".to_string()).expect("bound");
    assert_eq!(got.id, 1);
    assert!(got.version <= 4);
}

#[test]
fn multi_create_three_remove_middle_keeps_order() {
    let mut env = make_env();
    env.process_event(&added("output", 10, 2));
    env.process_event(&added("output", 11, 2));
    env.process_event(&added("output", 12, 2));
    env.process_event(&removed("output", 11));
    let got = env.get_all_globals(&"output".to_string());
    assert_eq!(
        got,
        vec![
            BoundInstance { id: 10, version: 2 },
            BoundInstance { id: 12, version: 2 },
        ]
    );
}

#[test]
fn outputs_two_then_remove_one() {
    let mut env = make_env();
    env.process_event(&added("output", 5, 2));
    env.process_event(&added("output", 6, 2));
    let got = env.get_all_globals(&"output".to_string());
    assert_eq!(got.len(), 2);
    env.process_event(&removed("output", 5));
    let got = env.get_all_globals(&"output".to_string());
    assert_eq!(got.len(), 1);
    assert_eq!(got[0].id, 6);
}

#[test]
fn duplicate_multi_advertisement_is_idempotent() {
    let mut env = make_env();
    env.process_event(&added("output", 5, 1));
    env.process_event(&added("output", 6, 2));
    env.process_event(&added("output", 5, 3));
    let got = env.get_all_globals(&"output".to_string());
    assert_eq!(
        got,
        vec![
            BoundInstance { id: 5, version: 3 },
            BoundInstance { id: 6, version: 2 },
        ]
    );
}

#[test]
fn undeclared_interface_is_silently_ignored() {
    let mut env = make_env();
    let req = env.process_event(&added("zxdg_unknown_v1", 9, 1));
    assert!(req.is_none());
    let req = env.process_event(&removed("zxdg_unknown_v1", 9));
    assert!(req.is_none());
    assert_eq!(env.get_global(&"compositor".to_string()), None);
    assert_eq!(env.get_global(&"shm".to_string()), None);
    assert!(env.get_all_globals(&"output".to_string()).is_empty());
}

#[test]
fn unknown_advertisement_never_surfaces_its_id() {
    let mut env = make_env();
    env.process_event(&added("output", 5, 2));
    env.process_event(&added("zxdg_unknown_v1", 9, 1));
    let outputs = env.get_all_globals(&"output".to_string());
    assert!(outputs.iter().all(|b| b.id != 9));
    assert_eq!(outputs.len(), 1);
    assert!(env.get_global(&"compositor".to_string()).is_none());
}

#[test]
fn remove_twice_and_remove_unknown_are_noops() {
    let mut env = make_env();
    env.process_event(&added("output", 5, 2));
    env.process_event(&removed("output", 99));
    assert_eq!(env.get_all_globals(&"output".to_string()).len(), 1);
    env.process_event(&removed("output", 5));
    env.process_event(&removed("output", 5));
    assert!(env.get_all_globals(&"output".to_string()).is_empty());
}

#[test]
fn removal_of_a_single_global_is_ignored_by_design() {
    let mut env = make_env();
    env.process_event(&added("compositor", 1, 4));
    env.process_event(&removed("compositor", 1));
    assert_eq!(
        env.get_global(&"compositor".to_string()),
        Some(BoundInstance { id: 1, version: 4 })
    );
}

#[test]
fn require_global_returns_the_binding_when_present() {
    let mut env = make_env();
    env.process_event(&added("shm", 3, 1));
    let got = env.require_global(&"shm".to_string());
    assert_eq!(got.unwrap(), BoundInstance { id: 3, version: 1 });
}

#[test]
fn require_global_names_the_missing_interface() {
    let env = make_env();
    let err = env.require_global(&"compositor".to_string()).unwrap_err();
    assert_eq!(err.interface, "compositor");
    let msg = err.message();
    assert!(msg.contains("compositor"));
    assert_eq!(msg, "a missing global was required: compositor");
}

#[test]
fn bind_request_carries_the_advertisement() {
    let mut env = make_env();
    let req = env.process_event(&added("compositor", 7, 2)).expect("declared");
    let BindRequest { interface, id, version } = req;
    assert_eq!(interface, "compositor");
    assert_eq!(id, 7);
    assert_eq!(version, 2);
}

#[test]
fn wrap_rejects_a_name_declared_twice() {
    let singles = vec![
        SingleSlot { interface: "compositor".to_string(), handler: SimpleGlobal::new() },
    ];
    let multis = vec![
        MultiSlot { interface: "compositor".to_string(), handler: SimpleMultiGlobal::new() },
    ];
    let env: Option<TestEnv> = Environment::wrap(singles, multis, 0u32);
    assert!(env.is_none());
}

#[test]
fn extras_can_be_read_and_replaced() {
    let mut env = make_env();
    let doubled = env.with_extras(|extras| *extras * 2);
    assert_eq!(doubled, 0);
    let previous = env.replace_extras(21);
    assert_eq!(previous, 0);
    assert_eq!(env.with_extras(|extras| *extras * 2), 42);
}

#[test]
fn clones_of_a_shared_handle_observe_one_state() {
    let shared = std::rc::Rc::new(std::cell::RefCell::new(make_env()));
    let other = shared.clone();
    shared.borrow_mut().process_event(&added("compositor", 1, 4));
    let seen = other.borrow().get_global(&"compositor".to_string());
    assert_eq!(seen, Some(BoundInstance { id: 1, version: 4 }));
    other.borrow_mut().process_event(&added("output", 5, 2));
    assert_eq!(shared.borrow().get_all_globals(&"output".to_string()).len(), 1);
}
