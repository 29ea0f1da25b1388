use skchain::events::{check_genesis_block, event_message, LifeCycleEvents, SkEvents};
use std::cell::RefCell;
use std::rc::Rc;

#[test]
fn test_events() {
    let mut evt = SkEvents::new();
    fn test_reg(key: LifeCycleEvents, msgs: String) {
        assert_eq!(key.to_string(), LifeCycleEvents::BeforeInit.to_string());
        assert_eq!(msgs, "test11".to_string());
    }
    evt.register(LifeCycleEvents::BeforeInit, test_reg);
    evt.emit(LifeCycleEvents::BeforeInit, "test11".to_string());
}

#[test]
fn test_all_events() {
    let mut evt = SkEvents::new();

    fn test_all(key: LifeCycleEvents, msgs: String) {
        assert_eq!(key, LifeCycleEvents::BeforeInit);
        assert_eq!(msgs, "test11".to_string());
    }
    evt.registerAll(test_all);
    evt.emit(LifeCycleEvents::BeforeInit, "test11".to_string());
}

type Callback = Box<dyn Fn(LifeCycleEvents, String)>;

fn recorder(log: &Rc<RefCell<Vec<String>>>, name: &str) -> Callback {
    let log = log.clone();
    let name = name.to_string();
    Box::new(move |key: LifeCycleEvents, msg: String| {
        log.borrow_mut().push(format!("{}:{}:{}", name, key.to_string(), msg));
    })
}

#[test]
fn emit_runs_all_handlers_then_key_handlers_in_order() {
    let log = Rc::new(RefCell::new(Vec::new()));
    let mut evt: SkEvents<Callback> = SkEvents::new();
    evt.register(LifeCycleEvents::InitGenesis, recorder(&log, "g1"));
    evt.registerAll(recorder(&log, "all1"));
    evt.register(LifeCycleEvents::BeforeInit, recorder(&log, "b1"));
    evt.register(LifeCycleEvents::InitGenesis, recorder(&log, "g2"));
    evt.registerAll(recorder(&log, "all2"));
    evt.emit(LifeCycleEvents::InitGenesis, "m".to_string());
    assert_eq!(
        *log.borrow(),
        vec![
            "all1:InitGenesis:m".to_string(),
            "all2:InitGenesis:m".to_string(),
            "g1:InitGenesis:m".to_string(),
            "g2:InitGenesis:m".to_string(),
        ]
    );
    log.borrow_mut().clear();
    evt.emit(LifeCycleEvents::BeforeInit, "x".to_string());
    assert_eq!(
        *log.borrow(),
        vec![
            "all1:BeforeInit:x".to_string(),
            "all2:BeforeInit:x".to_string(),
            "b1:BeforeInit:x".to_string(),
        ]
    );
}

#[test]
fn emit_without_handlers_for_key_runs_only_all_handlers() {
    let log = Rc::new(RefCell::new(Vec::new()));
    let mut evt: SkEvents<Callback> = SkEvents::new();
    evt.registerAll(recorder(&log, "all"));
    evt.emit(LifeCycleEvents::BeforeInit, "env".to_string());
    assert_eq!(*log.borrow(), vec!["all:BeforeInit:env".to_string()]);
}

#[test]
fn emit_on_empty_registry_does_nothing() {
    let mut evt: SkEvents<Callback> = SkEvents::new();
    evt.emit(LifeCycleEvents::InitGenesis, "env: local".to_string());
}

#[test]
fn boxed_callbacks_can_be_registered() {
    let log = Rc::new(RefCell::new(Vec::new()));
    let l2 = log.clone();
    let cb = SkEvents::<Callback>::create_callback(move |k: LifeCycleEvents, m: String| {
        l2.borrow_mut().push(event_message(k, &m));
    });
    let mut evt: SkEvents<Callback> = SkEvents::new();
    evt.registerAll(cb);
    evt.emit(LifeCycleEvents::InitGenesis, "env: local".to_string());
    assert_eq!(*log.borrow(), vec!["InitGenesis env: local".to_string()]);
}

#[test]
fn event_names() {
    assert_eq!(LifeCycleEvents::BeforeInit.to_string(), "BeforeInit");
    assert_eq!(LifeCycleEvents::InitGenesis.to_string(), "InitGenesis");
    assert_eq!(event_message(LifeCycleEvents::BeforeInit, "hi"), "BeforeInit hi");
}

#[test]
fn check_genesis_block_announces_local_env() {
    let log = Rc::new(RefCell::new(Vec::new()));
    let mut evt: SkEvents<Callback> = SkEvents::new();
    evt.registerAll(recorder(&log, "all"));
    evt.register(LifeCycleEvents::InitGenesis, recorder(&log, "genesis"));
    evt.register(LifeCycleEvents::BeforeInit, recorder(&log, "before"));
    check_genesis_block(&mut evt);
    assert_eq!(
        *log.borrow(),
        vec![
            "all:InitGenesis:env: local".to_string(),
            "genesis:InitGenesis:env: local".to_string(),
        ]
    );
}
