//! The live-instance registry: at most one running instance per plugin id,
//! with the lifecycle hooks called here and every call observed in a log.

use crate::extension_interface::{
    hooks_of, installed_event, lemma_hooks_of_push, lemma_msgs_of_push, make_payload, msgs_of,
    payload_of, unloaded_event, EmitContent, Extension, HookEvent, HookV, Msg,
};
use vstd::prelude::*;
use vstd::string::StringExecFns;

verus! {

/// The request context a command was submitted under; its id keys the
/// notifications that answer the command.
pub struct Context {
    pub id: String,
}

impl Context {
    /// A context with an empty id, for work no request asked for.
    pub fn default() -> (r: Context)
        ensures
            r.id@ == Seq::<char>::empty(),
    {
        Context { id: String::new() }
    }
}

/// The abstract state of the registry: the ids of the live instances in
/// registration order, every notification sent so far, and every lifecycle
/// hook call observed so far.
pub ghost struct RegistryV {
    pub running: Seq<Seq<char>>,
    pub msgs: Seq<Msg>,
    pub hooks: Seq<HookV>,
}

/// The table of live plugin instances.  It owns the call-outs to the load
/// and unload hooks and it alone decides what runs: callers hand it freshly
/// constructed instances and get refused or dropped ones back.
pub struct Extensions<T: Extension> {
    running: Vec<(String, T)>,
    sent: Vec<EmitContent>,
    hook_log: Vec<HookEvent>,
}

impl<T: Extension> View for Extensions<T> {
    type V = RegistryV;

    closed spec fn view(&self) -> RegistryV {
        RegistryV {
            running: self.running@.map_values(|e: (String, T)| e.0@),
            msgs: msgs_of(self.sent@),
            hooks: hooks_of(self.hook_log@),
        }
    }
}

impl<T: Extension> Extensions<T> {
    /// Well-formed: every entry is keyed by its own instance's id, and no id
    /// occurs twice.
    pub closed spec fn wf(&self) -> bool {
        &&& forall|i: int|
            0 <= i < self.running@.len() ==> (#[trigger] self.running@[i]).0@
                == self.running@[i].1.spec_id()
        &&& forall|i: int, j: int|
            0 <= i < j < self.running@.len() ==> (#[trigger] self.running@[i]).0@ != (
            #[trigger] self.running@[j]).0@
    }

    /// The registry holds zero or one live instance per id, never more.
    pub proof fn lemma_at_most_one(&self)
        requires
            self.wf(),
        ensures
            forall|i: int, j: int|
                0 <= i < j < self@.running.len() ==> self@.running[i] != self@.running[j],
    {
    }

    /// An empty registry.
    pub fn new() -> (r: Extensions<T>)
        ensures
            r.wf(),
            r@.running == Seq::<Seq<char>>::empty(),
            r@.msgs == Seq::<Msg>::empty(),
            r@.hooks == Seq::<HookV>::empty(),
    {
        let r = Extensions { running: Vec::new(), sent: Vec::new(), hook_log: Vec::new() };
        proof {
            assert(r@.running =~= Seq::<Seq<char>>::empty());
            assert(r@.msgs =~= Seq::<Msg>::empty());
            assert(r@.hooks =~= Seq::<HookV>::empty());
        }
        r
    }

    /// The index of the live instance with this id, if any.
    fn find(&self, id: &String) -> (r: Option<usize>)
        ensures
            match r {
                Some(j) => j < self.running@.len() && self.running@[j as int].0@ == id@,
                None => forall|j: int|
                    0 <= j < self.running@.len() ==> (#[trigger] self.running@[j]).0@ != id@,
            },
    {
        let mut i: usize = 0;
        while i < self.running.len()
            invariant
                i <= self.running@.len(),
                forall|j: int| 0 <= j < i ==> (#[trigger] self.running@[j]).0@ != id@,
            decreases self.running@.len() - i,
        {
            if self.running[i].0 == *id {
                return Some(i);
            }
            i = i + 1;
        }
        None
    }

    /// Whether an instance with this id is live.
    pub fn contains(&self, id: &String) -> (r: bool)
        ensures
            r == self@.running.contains(id@),
    {
        match self.find(id) {
            Some(j) => {
                proof {
                    assert(self@.running[j as int] == id@);
                }
                true
            },
            None => {
                proof {
                    assert forall|i: int| 0 <= i < self@.running.len() implies self@.running[i]
                        != id@ by {
                        assert(self@.running[i] == self.running@[i].0@);
                    }
                }
                false
            },
        }
    }

    /// How many instances are live.
    pub fn count(&self) -> (r: usize)
        ensures
            r == self@.running.len(),
    {
        self.running.len()
    }

    /// Every notification sent so far, oldest first.
    pub fn sent(&self) -> (r: &Vec<EmitContent>)
        ensures
            msgs_of(r@) == self@.msgs,
    {
        &self.sent
    }

    /// Every lifecycle hook call observed so far, oldest first.
    pub fn hook_log(&self) -> (r: &Vec<HookEvent>)
        ensures
            hooks_of(r@) == self@.hooks,
    {
        &self.hook_log
    }

    /// Sends one notification through the registry's emit queue.
    pub(crate) fn emit(&mut self, m: EmitContent)
        requires
            old(self).wf(),
        ensures
            final(self).wf(),
            final(self)@.running == old(self)@.running,
            final(self)@.hooks == old(self)@.hooks,
            final(self)@.msgs == old(self)@.msgs.push(m@),
    {
        proof {
            lemma_msgs_of_push(self.sent@, m);
        }
        self.sent.push(m);
    }

    /// Registers a freshly constructed instance: records that its load hook
    /// begins, runs the hook, announces `installed_extension`, and files the
    /// instance under its id.  An id that is already live is refused and the
    /// instance handed back: a previous instance is never replaced silently.
    pub fn load_extension(&mut self, service: T, context: &Context) -> (r: Result<
        (String, String),
        T,
    >)
        requires
            old(self).wf(),
        ensures
            final(self).wf(),
            match r {
                Ok(p) => {
                    &&& !old(self)@.running.contains(service.spec_id())
                    &&& p.0@ == service.spec_id()
                    &&& p.1@ == service.spec_info()
                    &&& final(self)@.running == old(self)@.running.push(service.spec_id())
                    &&& final(self)@.msgs == old(self)@.msgs.push(
                        Msg {
                            ctx: context.id@,
                            event: installed_event(),
                            payload: payload_of(service.spec_id(), service.spec_info()),
                        },
                    )
                    &&& final(self)@.hooks == old(self)@.hooks.push(
                        HookV { loaded: true, id: service.spec_id() },
                    )
                },
                Err(returned) => {
                    &&& returned == service
                    &&& old(self)@.running.contains(service.spec_id())
                    &&& final(self)@ == old(self)@
                },
            },
    {
        let id = service.id();
        match self.find(&id) {
            Some(j) => {
                proof {
                    assert(self@.running[j as int] == service.spec_id());
                }
                Err(service)
            },
            None => {
                proof {
                    assert forall|i: int|
                        0 <= i < self@.running.len() implies self@.running[i]
                        != service.spec_id() by {
                        assert(self@.running[i] == self.running@[i].0@);
                    }
                }
                let ev = HookEvent::Loaded { id: id.clone() };
                proof {
                    lemma_hooks_of_push(self.hook_log@, ev);
                }
                self.hook_log.push(ev);
                service.load();
                let info = service.info();
                let payload = make_payload(id.as_str(), info.as_str());
                let note = EmitContent {
                    id: context.id.clone(),
                    event: String::from_str("installed_extension"),
                    payload,
                };
                proof {
                    lemma_msgs_of_push(self.sent@, note);
                }
                self.sent.push(note);
                let key = id.clone();
                self.running.push((key, service));
                proof {
                    assert(self.running@.map_values(|e: (String, T)| e.0@) =~= old(
                        self,
                    ).running@.map_values(|e: (String, T)| e.0@).push(service.spec_id()));
                }
                Ok((id, info))
            },
        }
    }

    /// Removes the live instance with this id, runs its unload hook to
    /// completion, and announces `unloaded_extension`.  An id with no live
    /// instance is a no-op, not an error: removal is idempotent.
    pub fn unload_extension_by_id(&mut self, ext_id: &String, context: &Context) -> (r: Option<T>)
        requires
            old(self).wf(),
        ensures
            final(self).wf(),
            match r {
                Some(inst) => {
                    &&& old(self)@.running.contains(ext_id@)
                    &&& inst.spec_id() == ext_id@
                    &&& final(self)@.running == old(self)@.running.remove_value(ext_id@)
                    &&& final(self)@.msgs == old(self)@.msgs.push(
                        Msg { ctx: context.id@, event: unloaded_event(), payload: ext_id@ },
                    )
                    &&& final(self)@.hooks == old(self)@.hooks.push(
                        HookV { loaded: false, id: ext_id@ },
                    )
                },
                None => {
                    &&& !old(self)@.running.contains(ext_id@)
                    &&& final(self)@ == old(self)@
                },
            },
    {
        match self.find(ext_id) {
            Some(j) => {
                proof {
                    assert(self@.running[j as int] == ext_id@);
                }
                let (key, inst) = self.running.remove(j);
                inst.unload();
                let ev = HookEvent::Unloaded { id: key };
                proof {
                    lemma_hooks_of_push(self.hook_log@, ev);
                }
                self.hook_log.push(ev);
                let note = EmitContent {
                    id: context.id.clone(),
                    event: String::from_str("unloaded_extension"),
                    payload: ext_id.clone(),
                };
                proof {
                    lemma_msgs_of_push(self.sent@, note);
                }
                self.sent.push(note);
                proof {
                    let pre = old(self).running@.map_values(|e: (String, T)| e.0@);
                    assert(self.running@.map_values(|e: (String, T)| e.0@) =~= pre.remove(
                        j as int,
                    ));
                    assert(pre[j as int] == ext_id@);
                    pre.index_of_first_ensures(ext_id@);
                    let w = pre.index_of_first(ext_id@)->Some_0;
                    assert(0 <= w < pre.len() && pre[w] == ext_id@);
                    assert(w == j);
                    assert(pre.remove_value(ext_id@) == pre.remove(j as int));
                }
                Some(inst)
            },
            None => {
                proof {
                    assert forall|i: int| 0 <= i < self@.running.len() implies self@.running[i]
                        != ext_id@ by {
                        assert(self@.running[i] == self.running@[i].0@);
                    }
                }
                None
            },
        }
    }

    /// The hot-reload unregistration path: the id is taken from the incoming
    /// build of the library, whose factory must report the same id as the
    /// instance it replaces, and the currently running instance under that id
    /// is unloaded.  Returns the resolved id.
    pub fn unload_extension(&mut self, probe: &T, context: &Context) -> (r: String)
        requires
            old(self).wf(),
        ensures
            final(self).wf(),
            r@ == probe.spec_id(),
            old(self)@.running.contains(probe.spec_id()) ==> {
                &&& final(self)@.running == old(self)@.running.remove_value(probe.spec_id())
                &&& final(self)@.msgs == old(self)@.msgs.push(
                    Msg {
                        ctx: context.id@,
                        event: unloaded_event(),
                        payload: probe.spec_id(),
                    },
                )
                &&& final(self)@.hooks == old(self)@.hooks.push(
                    HookV { loaded: false, id: probe.spec_id() },
                )
            },
            !old(self)@.running.contains(probe.spec_id()) ==> final(self)@ == old(self)@,
    {
        let id = probe.id();
        let dropped = self.unload_extension_by_id(&id, context);
        id
    }
}

} // verus!
