//! Lifecycle events of a chain node and the registry of their handlers.
//!
//! Handlers are registered either for one event kind or for every event.
//! Emitting an event runs the handlers registered for all events first,
//! then those registered for that kind, each group in registration order.
use vstd::prelude::*;

verus! {

/// The lifecycle stages a node announces.
#[derive(Eq, Hash, PartialEq, Clone, Copy, Debug, Structural)]
pub enum LifeCycleEvents {
    BeforeInit,
    InitGenesis,
}

/// The text an event is displayed as: the name of its variant.
pub open spec fn event_name(e: LifeCycleEvents) -> Seq<char> {
    match e {
        LifeCycleEvents::BeforeInit => "BeforeInit"@,
        LifeCycleEvents::InitGenesis => "InitGenesis"@,
    }
}

impl LifeCycleEvents {
    /// The displayed form of the event, the name of its variant.
    pub fn to_string(&self) -> (s: String)
        ensures
            s@ == event_name(*self),
    {
        match self {
            LifeCycleEvents::BeforeInit => {
                let s = "BeforeInit".to_owned();
                proof {
                    reveal_strlit("BeforeInit");
                }
                s
            },
            LifeCycleEvents::InitGenesis => {
                let s = "InitGenesis".to_owned();
                proof {
                    reveal_strlit("InitGenesis");
                }
                s
            },
        }
    }
}

/// The line an event is reported as: its name, a space, and the message.
pub fn event_message(key: LifeCycleEvents, msg: &str) -> (r: String)
    ensures
        r@ == event_name(key) + " "@ + msg@,
{
    let mut s = key.to_string();
    s.append(" ");
    s.append(msg);
    proof {
        reveal_strlit(" ");
    }
    s
}

/// The callbacks registered for one event kind.
struct HandlerList<C> {
    key: LifeCycleEvents,
    callbacks: Vec<C>,
}

/// A registry of event handlers.
///
/// `C` is the type of the callbacks; a registry of boxed closures
/// (`Box<dyn Fn(LifeCycleEvents, String)>`) holds callbacks of any kind.
pub struct SkEvents<C> {
    handlers: Vec<HandlerList<C>>,
    all_handlers: Vec<C>,
}

impl<C> SkEvents<C> {
    /// No event kind has two handler lists.
    #[verifier::type_invariant]
    spec fn keys_unique(self) -> bool {
        forall|i: int, j: int|
            0 <= i < self.handlers@.len() && 0 <= j < self.handlers@.len() && i != j
                ==> self.handlers@[i].key != self.handlers@[j].key
    }

    spec fn has_list(self, key: LifeCycleEvents) -> bool {
        exists|i: int| 0 <= i < self.handlers@.len() && self.handlers@[i].key == key
    }

    /// The callbacks registered for `key`, in registration order.
    pub closed spec fn handlers_for(self, key: LifeCycleEvents) -> Seq<C> {
        if self.has_list(key) {
            let i = choose|i: int| 0 <= i < self.handlers@.len() && self.handlers@[i].key == key;
            self.handlers@[i].callbacks@
        } else {
            Seq::empty()
        }
    }

    /// The callbacks registered for every event, in registration order.
    pub closed spec fn all_handlers(self) -> Seq<C> {
        self.all_handlers@
    }

    /// The callbacks that emitting `key` runs, in the order it runs them.
    pub open spec fn dispatch(self, key: LifeCycleEvents) -> Seq<C> {
        self.all_handlers() + self.handlers_for(key)
    }

    proof fn lemma_list_at(self, i: int)
        requires
            self.keys_unique(),
            0 <= i < self.handlers@.len(),
        ensures
            self.handlers_for(self.handlers@[i].key) == self.handlers@[i].callbacks@,
    {
        let key = self.handlers@[i].key;
        assert(self.has_list(key));
    }

    /// An empty registry.
    pub fn new() -> (r: Self)
        ensures
            forall|k: LifeCycleEvents| r.handlers_for(k) == Seq::<C>::empty(),
            r.all_handlers() == Seq::<C>::empty(),
    {
        SkEvents { handlers: Vec::new(), all_handlers: Vec::new() }
    }

    /// The position of the handler list of `key`, if it has one.
    fn find(&self, key: LifeCycleEvents) -> (r: Option<usize>)
        ensures
            match r {
                Some(i) => i < self.handlers@.len() && self.handlers@[i as int].key == key,
                None => !self.has_list(key),
            },
    {
        let mut i: usize = 0;
        while i < self.handlers.len()
            invariant
                i <= self.handlers@.len(),
                forall|j: int| 0 <= j < i ==> self.handlers@[j].key != key,
            decreases self.handlers@.len() - i,
        {
            if self.handlers[i].key == key {
                return Some(i);
            }
            i += 1;
        }
        None
    }

    /// Boxes a callback; a box of a callback is a callback, and can be
    /// turned into a `Box<dyn Fn(LifeCycleEvents, String)>`.
    pub fn create_callback<F>(f: F) -> (r: Box<F>)
        where
            F: Fn(LifeCycleEvents, String) + 'static,
        ensures
            *r == f,
    {
        Box::new(f)
    }

    /// Registers `handler` to run whenever `key` is emitted.
    pub fn register(&mut self, key: LifeCycleEvents, handler: C)
        ensures
            final(self).handlers_for(key) == old(self).handlers_for(key).push(handler),
            forall|k: LifeCycleEvents|
                k != key ==> final(self).handlers_for(k) == old(self).handlers_for(k),
            final(self).all_handlers() == old(self).all_handlers(),
    {
        proof {
            use_type_invariant(&*self);
        }
        let ghost pre = *self;
        match self.find(key) {
            Some(i) => {
                let mut list = HandlerList { key, callbacks: Vec::new() };
                let mut lists = Vec::new();
                std::mem::swap(&mut lists, &mut self.handlers);
                std::mem::swap(&mut list, &mut lists[i]);
                list.callbacks.push(handler);
                std::mem::swap(&mut list, &mut lists[i]);
                std::mem::swap(&mut lists, &mut self.handlers);
                proof {
                    assert forall|k: LifeCycleEvents| true implies self.handlers_for(k) == (if k
                        == key {
                        pre.handlers_for(key).push(handler)
                    } else {
                        pre.handlers_for(k)
                    }) by {
                        pre.lemma_list_at(i as int);
                        self.lemma_list_at(i as int);
                        if k != key && pre.has_list(k) {
                            let j = choose|j: int|
                                0 <= j < pre.handlers@.len() && pre.handlers@[j].key == k;
                            pre.lemma_list_at(j);
                            self.lemma_list_at(j);
                        }
                        if k != key && self.has_list(k) {
                            let j = choose|j: int|
                                0 <= j < self.handlers@.len() && self.handlers@[j].key == k;
                            assert(pre.handlers@[j].key == k);
                        }
                    }
                }
            },
            None => {
                let mut callbacks = Vec::new();
                callbacks.push(handler);
                let mut lists = Vec::new();
                std::mem::swap(&mut lists, &mut self.handlers);
                lists.push(HandlerList { key, callbacks });
                std::mem::swap(&mut lists, &mut self.handlers);
                proof {
                    let n = pre.handlers@.len() as int;
                    assert forall|k: LifeCycleEvents| true implies self.handlers_for(k) == (if k
                        == key {
                        pre.handlers_for(key).push(handler)
                    } else {
                        pre.handlers_for(k)
                    }) by {
                        self.lemma_list_at(n);
                        assert(self.handlers@[n].callbacks@ =~= seq![handler]);
                        if k != key && pre.has_list(k) {
                            let j = choose|j: int|
                                0 <= j < pre.handlers@.len() && pre.handlers@[j].key == k;
                            pre.lemma_list_at(j);
                            self.lemma_list_at(j);
                        }
                        if k != key && self.has_list(k) {
                            let j = choose|j: int|
                                0 <= j < self.handlers@.len() && self.handlers@[j].key == k;
                            assert(j != n);
                            assert(pre.handlers@[j].key == k);
                        }
                    }
                }
            },
        }
    }

    /// Registers `handler` to run whenever any event is emitted.
    #[allow(non_snake_case)]
    pub fn registerAll(&mut self, handler: C)
        ensures
            final(self).all_handlers() == old(self).all_handlers().push(handler),
            forall|k: LifeCycleEvents| final(self).handlers_for(k) == old(self).handlers_for(k),
    {
        proof {
            use_type_invariant(&*self);
        }
        let mut all = Vec::new();
        std::mem::swap(&mut all, &mut self.all_handlers);
        all.push(handler);
        std::mem::swap(&mut all, &mut self.all_handlers);
    }
}

impl<C: Fn(LifeCycleEvents, String)> SkEvents<C> {
    /// Runs every callback of `dispatch(key)` on `(key, arg)`: first those
    /// registered for all events, then those registered for `key`, each
    /// once and in registration order. The result records the callbacks
    /// run, in the order they ran.
    pub fn emit(&mut self, key: LifeCycleEvents, arg: String) -> (calls: Ghost<Seq<C>>)
        requires
            forall|i: int|
                0 <= i < old(self).dispatch(key).len() ==> call_requires(
                    old(self).dispatch(key)[i],
                    (key, arg),
                ),
        ensures
            *final(self) == *old(self),
            calls@ == old(self).dispatch(key),
            forall|i: int|
                0 <= i < old(self).dispatch(key).len() ==> call_ensures(
                    old(self).dispatch(key)[i],
                    (key, arg),
                    (),
                ),
    {
        proof {
            use_type_invariant(&*self);
        }
        let n_all = self.all_handlers.len();
        let ghost mut log: Seq<C> = Seq::empty();
        let mut i: usize = 0;
        while i < n_all
            invariant
                n_all == self.all_handlers@.len(),
                i <= n_all,
                forall|j: int|
                    0 <= j < self.dispatch(key).len() ==> call_requires(
                        self.dispatch(key)[j],
                        (key, arg),
                    ),
                forall|j: int| 0 <= j < i ==> call_ensures(self.dispatch(key)[j], (key, arg), ()),
                log == self.dispatch(key).take(i as int),
                n_all <= self.dispatch(key).len(),
            decreases n_all - i,
        {
            assert(self.dispatch(key)[i as int] == self.all_handlers@[i as int]);
            let cb = &self.all_handlers[i];
            cb(key, arg.clone());
            proof {
                log = log.push(*cb);
                assert(log =~= self.dispatch(key).take(i + 1));
            }
            i += 1;
        }
        match self.find(key) {
            None => {
                assert(self.dispatch(key) =~= self.all_handlers());
                assert(log =~= self.dispatch(key));
            },
            Some(k) => {
                proof {
                    self.lemma_list_at(k as int);
                }
                let n = self.handlers[k].callbacks.len();
                let mut m: usize = 0;
                while m < n
                    invariant
                        n == self.handlers@[k as int].callbacks@.len(),
                        k < self.handlers@.len(),
                        self.handlers_for(key) == self.handlers@[k as int].callbacks@,
                        n_all == self.all_handlers@.len(),
                        m <= n,
                        forall|j: int|
                            0 <= j < self.dispatch(key).len() ==> call_requires(
                                self.dispatch(key)[j],
                                (key, arg),
                            ),
                        forall|j: int|
                            0 <= j < n_all + m ==> call_ensures(
                                self.dispatch(key)[j],
                                (key, arg),
                                (),
                            ),
                        log == self.dispatch(key).take(n_all + m),
                        self.dispatch(key).len() == n_all + n,
                    decreases n - m,
                {
                    assert(self.dispatch(key)[n_all + m] == self.handlers@[k as int].callbacks@[m
                        as int]);
                    let cb = &self.handlers[k].callbacks[m];
                    cb(key, arg.clone());
                    proof {
                        log = log.push(*cb);
                        assert(log =~= self.dispatch(key).take(n_all + m + 1));
                    }
                    m += 1;
                }
                assert(log =~= self.dispatch(key));
            },
        }
        Ghost(log)
    }
}

/// The message a chain announces the check of its genesis block with.
pub open spec fn genesis_message() -> Seq<char> {
    "env: local"@
}

/// Announces that the chain checks its genesis block: emits `InitGenesis`
/// with the message `"env: local"`.
pub fn check_genesis_block<C: Fn(LifeCycleEvents, String)>(events: &mut SkEvents<C>)
    requires
        forall|i: int, s: String|
            0 <= i < old(events).dispatch(LifeCycleEvents::InitGenesis).len() ==> call_requires(
                old(events).dispatch(LifeCycleEvents::InitGenesis)[i],
                (LifeCycleEvents::InitGenesis, s),
            ),
    ensures
        *final(events) == *old(events),
        exists|s: String|
            s@ == genesis_message() && forall|i: int|
                0 <= i < old(events).dispatch(LifeCycleEvents::InitGenesis).len() ==> call_ensures(
                    old(events).dispatch(LifeCycleEvents::InitGenesis)[i],
                    (LifeCycleEvents::InitGenesis, s),
                    (),
                ),
{
    let msg = "env: local".to_string();
    proof {
        reveal_strlit("env: local");
    }
    let ghost m = msg;
    events.emit(LifeCycleEvents::InitGenesis, msg);
    assert(m@ == genesis_message());
}

} // verus!
