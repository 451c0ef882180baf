//! The orchestrator: single owner of the live-instance registry and the
//! descriptor store.  Install, remove and list commands are processed one at
//! a time, strictly in submission order; every outcome is answered by
//! exactly one notification to the submitting context.
//!
//! Opening libraries, copying files and running the command loop belong to
//! the embedding application, which hands each outside outcome to these
//! functions as a plain value.

use crate::descriptors::{
    lemma_insert_then_remove, lemma_store_at_unique, pairs_of, store_at, store_distinct,
    store_has, store_insert, store_remove, store_val, Descriptors,
};
use crate::extension_error::{install_error_text, remove_error_text, InstallError, LoadError,
    RemoveError};
use crate::extension_interface::{
    error_event, hooks_of, installed_event, loaded_event, msgs_of, payload_of, unloaded_event,
    EmitContent, Extension, HookEvent, HookV, Msg,
};
use crate::extension_interface::make_payload;
use crate::extension_store::{Context, Extensions};
use crate::record::{check_info, decode_record, encode_record, lemma_record_roundtrip,
    parse_record, record_of, valid_info, wf_info};
use vstd::prelude::*;
use vstd::string::StringExecFns;

verus! {

/// What a command carries: the submitting context id and its payload (a
/// source path for install, a plugin id for remove).
#[derive(Debug)]
pub struct EventContent {
    pub id: String,
    pub payload: String,
}

/// One submitted command; queued and processed strictly in submission order.
#[derive(Debug)]
pub enum ManagerEvent {
    InstallExtension(EventContent),
    RemoveExtension(EventContent),
    ListAllExtension(EventContent),
}

/// Wraps a payload as an install command (`true`) or a remove command
/// (`false`) under the given context id.
pub fn new_manager_event(install_or_remove: bool, id: String, payload: &str) -> (r: ManagerEvent)
    ensures
        install_or_remove ==> (r matches ManagerEvent::InstallExtension(c) && c.id@ == id@
            && c.payload@ == payload@),
        !install_or_remove ==> (r matches ManagerEvent::RemoveExtension(c) && c.id@ == id@
            && c.payload@ == payload@),
{
    if install_or_remove {
        ManagerEvent::InstallExtension(EventContent { id, payload: payload.to_owned() })
    } else {
        ManagerEvent::RemoveExtension(EventContent { id, payload: payload.to_owned() })
    }
}

/// The abstract state of the manager: ids of live instances, the persisted
/// descriptor store, every notification sent, and every hook call observed.
pub ghost struct ManagerV {
    pub running: Seq<Seq<char>>,
    pub store: Seq<(Seq<char>, Seq<char>)>,
    pub msgs: Seq<Msg>,
    pub hooks: Seq<HookV>,
}

/// Every stored value is a well-formed record.
pub open spec fn all_records(s: Seq<(Seq<char>, Seq<char>)>) -> bool {
    forall|i: int| 0 <= i < s.len() ==> parse_record((#[trigger] s[i]).1) is Some
}

/// The notification a successful install sends.
pub open spec fn install_msgs(ctx: Seq<char>, id: Seq<char>, info: Seq<char>) -> Seq<Msg> {
    seq![Msg { ctx, event: installed_event(), payload: payload_of(id, info) }]
}

/// The notification a successful remove of a live instance sends.
pub open spec fn remove_msgs(ctx: Seq<char>, id: Seq<char>) -> Seq<Msg> {
    seq![Msg { ctx, event: unloaded_event(), payload: id }]
}

/// The notifications a list command sends: one per stored descriptor, in
/// store order.
pub open spec fn list_msgs(store: Seq<(Seq<char>, Seq<char>)>, ctx: Seq<char>) -> Seq<Msg> {
    store.map_values(
        |p: (Seq<char>, Seq<char>)|
            Msg { ctx, event: loaded_event(), payload: payload_of(p.0, p.1) },
    )
}

/// The notification that answers a failed command.
pub open spec fn error_msg(ctx: Seq<char>, text: Seq<char>) -> Msg {
    Msg { ctx, event: error_event(), payload: text }
}

/// Why an install failed, tied to the outside outcomes it was given.
pub open spec fn install_fail_cause<T: Extension>(
    e: InstallError,
    pre: ManagerV,
    source_is_file: bool,
    loaded: Result<T, LoadError>,
) -> bool {
    match e {
        InstallError::NotAFile => !source_is_file,
        InstallError::LoadFailed => source_is_file && loaded is Err,
        InstallError::MetadataParseError => source_is_file && (loaded matches Ok(s)
            && !valid_info(s.spec_info())),
        InstallError::AlreadyInstalled => source_is_file && (loaded matches Ok(s) && valid_info(
            s.spec_info(),
        ) && pre.running.contains(s.spec_id())),
    }
}

/// The state change a successful install makes, and the message it sends.
pub open spec fn install_success<T: Extension>(
    pre: ManagerV,
    post: ManagerV,
    service: T,
    file_name: Seq<char>,
    ctx: Seq<char>,
) -> bool {
    &&& valid_info(service.spec_info())
    &&& !pre.running.contains(service.spec_id())
    &&& post.running == pre.running.push(service.spec_id())
    &&& post.store == store_insert(
        pre.store,
        service.spec_id(),
        record_of(service.spec_info(), file_name),
    )
    &&& post.msgs == pre.msgs + install_msgs(ctx, service.spec_id(), service.spec_info())
    &&& post.hooks == pre.hooks.push(HookV { loaded: true, id: service.spec_id() })
}

/// The orchestrator.  It is the single writer of the registry and the
/// store; the embedding application drives it from one consuming loop and
/// mirrors every store change into the durable map.
pub struct ExtensionManager<T: Extension> {
    extension_store: Extensions<T>,
    db: Descriptors,
}

impl<T: Extension> View for ExtensionManager<T> {
    type V = ManagerV;

    closed spec fn view(&self) -> ManagerV {
        ManagerV {
            running: self.extension_store@.running,
            store: self.db@,
            msgs: self.extension_store@.msgs,
            hooks: self.extension_store@.hooks,
        }
    }
}

impl<T: Extension> ExtensionManager<T> {
    /// Well-formed: the registry and store invariants hold and every stored
    /// value is a record.
    pub closed spec fn wf(&self) -> bool {
        &&& self.extension_store.wf()
        &&& self.db.wf()
        &&& all_records(self.db@)
    }

    /// What well-formedness guarantees of the visible state.
    pub proof fn lemma_wf(&self)
        requires
            self.wf(),
        ensures
            store_distinct(self@.store),
            all_records(self@.store),
            forall|i: int, j: int|
                0 <= i < j < self@.running.len() ==> self@.running[i] != self@.running[j],
    {
        self.extension_store.lemma_at_most_one();
    }

    /// How many instances are live.
    pub fn running_count(&self) -> (r: usize)
        ensures
            r == self@.running.len(),
    {
        self.extension_store.count()
    }

    /// Whether an instance with this id is live.
    pub fn is_running(&self, id: &String) -> (r: bool)
        ensures
            r == self@.running.contains(id@),
    {
        self.extension_store.contains(id)
    }

    /// Every notification sent so far, oldest first.
    pub fn sent(&self) -> (r: &Vec<EmitContent>)
        ensures
            msgs_of(r@) == self@.msgs,
    {
        self.extension_store.sent()
    }

    /// Every lifecycle hook call observed so far, oldest first.
    pub fn hook_log(&self) -> (r: &Vec<HookEvent>)
        ensures
            hooks_of(r@) == self@.hooks,
    {
        self.extension_store.hook_log()
    }

    /// How many descriptors are persisted.
    pub fn store_len(&self) -> (r: usize)
        ensures
            r == self@.store.len(),
    {
        self.db.len()
    }

    /// The persisted entry at a position, in store order.
    pub fn store_entry(&self, i: usize) -> (r: &(String, String))
        requires
            i < self@.store.len(),
        ensures
            r.0@ == self@.store[i as int].0,
            r.1@ == self@.store[i as int].1,
    {
        self.db.entry(i)
    }

    /// The record persisted under this id, if any.
    pub fn stored(&self, id: &String) -> (r: Option<&String>)
        requires
            self.wf(),
        ensures
            match r {
                Some(v) => store_has(self@.store, id@) && v@ == store_val(self@.store, id@),
                None => !store_has(self@.store, id@),
            },
    {
        self.db.get(id)
    }

    /// Installs a plugin: the embedding application has copied the source
    /// file into the install directory under `file_name` and attempted to
    /// construct an instance; this function decides the outcome.  On success
    /// the instance is registered (its load hook runs), the combined record
    /// is persisted under the plugin's id, and `installed_extension` is
    /// announced.  On failure nothing changes.
    pub fn install_extension(
        &mut self,
        source_is_file: bool,
        file_name: String,
        loaded: Result<T, LoadError>,
        context: &Context,
    ) -> (r: Result<(), InstallError>)
        requires
            old(self).wf(),
        ensures
            final(self).wf(),
            match r {
                Ok(u) => loaded matches Ok(service) && source_is_file && install_success(
                    old(self)@,
                    final(self)@,
                    service,
                    file_name@,
                    context.id@,
                ),
                Err(e) => install_fail_cause(e, old(self)@, source_is_file, loaded)
                    && final(self)@ == old(self)@,
            },
    {
        if !source_is_file {
            return Err(InstallError::NotAFile);
        }
        let service = match loaded {
            Ok(s) => s,
            Err(_) => {
                return Err(InstallError::LoadFailed);
            },
        };
        let probe_info = service.info();
        if !check_info(probe_info.as_str()) {
            return Err(InstallError::MetadataParseError);
        }
        match self.extension_store.load_extension(service, context) {
            Err(_rejected) => Err(InstallError::AlreadyInstalled),
            Ok(pair) => {
                let value = encode_record(pair.1.as_str(), file_name.as_str());
                let ghost pre_store = self.db@;
                self.db.insert(pair.0, value);
                proof {
                    lemma_record_roundtrip(pair.1@, file_name@);
                    let post = store_insert(pre_store, pair.0@, value@);
                    assert(all_records(post)) by {
                        if store_has(pre_store, pair.0@) {
                            assert(forall|i: int|
                                0 <= i < post.len() && i != store_at(pre_store, pair.0@)
                                    ==> post[i] == pre_store[i]);
                        }
                    }
                    assert(old(self)@.msgs + install_msgs(
                        context.id@,
                        pair.0@,
                        pair.1@,
                    ) =~= old(self)@.msgs.push(
                        Msg {
                            ctx: context.id@,
                            event: installed_event(),
                            payload: payload_of(pair.0@, pair.1@),
                        },
                    ));
                }
                Ok(())
            },
        }
    }

    /// Removes an installed plugin: the descriptor is deleted, the live
    /// instance, if there is one, is unloaded with `unloaded_extension`
    /// announced, and the backing file name is returned for the embedding
    /// application to delete.  An id with no persisted descriptor is
    /// refused and nothing changes: removal is idempotent.
    pub fn remove_extension(&mut self, id: &String, context: &Context) -> (r: Result<
        String,
        RemoveError,
    >)
        requires
            old(self).wf(),
        ensures
            final(self).wf(),
            match r {
                Ok(name) => {
                    &&& store_has(old(self)@.store, id@)
                    &&& parse_record(store_val(old(self)@.store, id@)) matches Some(p)
                        && name@ == p.1
                    &&& final(self)@.store == store_remove(old(self)@.store, id@)
                    &&& old(self)@.running.contains(id@) ==> {
                        &&& final(self)@.running == old(self)@.running.remove_value(id@)
                        &&& final(self)@.msgs == old(self)@.msgs + remove_msgs(
                            context.id@,
                            id@,
                        )
                        &&& final(self)@.hooks == old(self)@.hooks.push(
                            HookV { loaded: false, id: id@ },
                        )
                    }
                    &&& !old(self)@.running.contains(id@) ==> {
                        &&& final(self)@.running == old(self)@.running
                        &&& final(self)@.msgs == old(self)@.msgs
                        &&& final(self)@.hooks == old(self)@.hooks
                    }
                },
                Err(e) => {
                    &&& e matches RemoveError::NotInstalled(s) && s@ == id@
                    &&& !store_has(old(self)@.store, id@)
                    &&& final(self)@ == old(self)@
                },
            },
    {
        match self.db.remove(id) {
            None => Err(RemoveError::NotInstalled(id.clone())),
            Some(value) => {
                proof {
                    assert(parse_record(value@) is Some);
                }
                let dropped = self.extension_store.unload_extension_by_id(id, context);
                proof {
                    if old(self)@.running.contains(id@) {
                        assert(old(self)@.msgs + remove_msgs(context.id@, id@) =~= old(
                            self,
                        )@.msgs.push(
                            Msg { ctx: context.id@, event: unloaded_event(), payload: id@ },
                        ));
                    }
                }
                match decode_record(value.as_str()) {
                    Some(pair) => Ok(pair.1),
                    None => {
                        // not reachable: well-formedness makes every stored
                        // value a record
                        proof {
                            assert(false);
                        }
                        Err(RemoveError::NotInstalled(id.clone()))
                    },
                }
            },
        }
    }

    /// Lists the installed plugins: one `loaded_extension` notification per
    /// persisted descriptor, in store order, each carrying the stored
    /// record; nothing else changes.
    pub fn list_all_extension(&mut self, context: &Context)
        requires
            old(self).wf(),
        ensures
            final(self).wf(),
            final(self)@.running == old(self)@.running,
            final(self)@.store == old(self)@.store,
            final(self)@.hooks == old(self)@.hooks,
            final(self)@.msgs == old(self)@.msgs + list_msgs(old(self)@.store, context.id@),
    {
        let n = self.db.len();
        let mut i: usize = 0;
        proof {
            assert(old(self)@.msgs + list_msgs(old(self)@.store.take(0), context.id@) =~= old(
                self,
            )@.msgs);
        }
        while i < n
            invariant
                n == self@.store.len(),
                i <= n,
                self.wf(),
                self@.store == old(self)@.store,
                self@.running == old(self)@.running,
                self@.hooks == old(self)@.hooks,
                self@.msgs == old(self)@.msgs + list_msgs(
                    old(self)@.store.take(i as int),
                    context.id@,
                ),
            decreases n - i,
        {
            let payload = {
                let entry = self.db.entry(i);
                make_payload(entry.0.as_str(), entry.1.as_str())
            };
            let note = EmitContent {
                id: context.id.clone(),
                event: String::from_str("loaded_extension"),
                payload,
            };
            let ghost m = note@;
            self.extension_store.emit(note);
            proof {
                let s = old(self)@.store;
                assert(s.take(i + 1) =~= s.take(i as int).push(s[i as int]));
                assert(list_msgs(s.take(i + 1), context.id@) =~= list_msgs(
                    s.take(i as int),
                    context.id@,
                ).push(m));
                assert(old(self)@.msgs + list_msgs(s.take(i + 1), context.id@) =~= (old(
                    self,
                )@.msgs + list_msgs(s.take(i as int), context.id@)).push(m));
            }
            i = i + 1;
        }
        proof {
            assert(old(self)@.store.take(n as int) =~= old(self)@.store);
        }
    }

    /// One hot-reload cycle for a library whose file changed on disk.  The
    /// embedding application staged a copy and attempted to construct an
    /// instance from the new build; this function decides the swap.  On
    /// success the running instance under the new build's id, if any, is
    /// unloaded strictly before the new instance's load hook begins.  A
    /// build that failed to load changes nothing: the previous instance
    /// stays registered.
    pub fn try_hot_reload(&mut self, new_build: Result<T, LoadError>, context: &Context) -> (r:
        Result<String, LoadError>)
        requires
            old(self).wf(),
        ensures
            final(self).wf(),
            final(self)@.store == old(self)@.store,
            match r {
                Err(e) => new_build matches Err(cause) && e == cause && final(self)@ == old(
                    self,
                )@,
                Ok(id) => (new_build matches Ok(service) && id@ == service.spec_id() && {
                    let was = old(self)@.running.contains(service.spec_id());
                    &&& final(self)@.running == (if was {
                        old(self)@.running.remove_value(service.spec_id()).push(
                            service.spec_id(),
                        )
                    } else {
                        old(self)@.running.push(service.spec_id())
                    })
                    &&& final(self)@.msgs == old(self)@.msgs + reload_msgs(
                        was,
                        context.id@,
                        service.spec_id(),
                        service.spec_info(),
                    )
                    &&& final(self)@.hooks == old(self)@.hooks + reload_hooks(
                        was,
                        service.spec_id(),
                    )
                }),
            },
    {
        match new_build {
            Err(e) => Err(e),
            Ok(service) => {
                let ghost was = old(self)@.running.contains(service.spec_id());
                proof {
                    self.extension_store.lemma_at_most_one();
                }
                let id = self.extension_store.unload_extension(&service, context);
                proof {
                    if was {
                        let pre = old(self)@.running;
                        pre.index_of_first_ensures(service.spec_id());
                        let w = pre.index_of_first(service.spec_id())->Some_0;
                        pre.remove_ensures(w);
                        let cur = self@.running;
                        assert forall|k: int| 0 <= k < cur.len() implies cur[k]
                            != service.spec_id() by {
                            if k < w {
                                assert(cur[k] == pre[k]);
                            } else {
                                assert(cur[k] == pre[k + 1]);
                            }
                        }
                        assert(!cur.contains(service.spec_id()));
                    }
                }
                match self.extension_store.load_extension(service, context) {
                    Ok(_pair) => {
                        proof {
                            let sid = new_build->Ok_0.spec_id();
                            let sinfo = new_build->Ok_0.spec_info();
                            if was {
                                assert(old(self)@.msgs + reload_msgs(
                                    true,
                                    context.id@,
                                    sid,
                                    sinfo,
                                ) =~= old(self)@.msgs.push(
                                    Msg {
                                        ctx: context.id@,
                                        event: unloaded_event(),
                                        payload: sid,
                                    },
                                ).push(
                                    Msg {
                                        ctx: context.id@,
                                        event: installed_event(),
                                        payload: payload_of(sid, sinfo),
                                    },
                                ));
                                assert(old(self)@.hooks + reload_hooks(true, sid) =~= old(
                                    self,
                                )@.hooks.push(HookV { loaded: false, id: sid }).push(
                                    HookV { loaded: true, id: sid },
                                ));
                            } else {
                                assert(old(self)@.msgs + reload_msgs(
                                    false,
                                    context.id@,
                                    sid,
                                    sinfo,
                                ) =~= old(self)@.msgs.push(
                                    Msg {
                                        ctx: context.id@,
                                        event: installed_event(),
                                        payload: payload_of(sid, sinfo),
                                    },
                                ));
                                assert(old(self)@.hooks + reload_hooks(false, sid) =~= old(
                                    self,
                                )@.hooks.push(HookV { loaded: true, id: sid }));
                            }
                        }
                        Ok(id)
                    },
                    Err(_rejected) => {
                        // not reachable: the id was unregistered just above
                        proof {
                            assert(false);
                        }
                        Err(LoadError::OsLoadFailure)
                    },
                }
            },
        }
    }
}

/// The descriptors kept at startup from a raw dump of the durable map:
/// entries that decode as records, first occurrence of each id, in order.
pub open spec fn replay_keep(
    acc: Seq<(Seq<char>, Seq<char>)>,
    rest: Seq<(Seq<char>, Seq<char>)>,
) -> Seq<(Seq<char>, Seq<char>)>
    decreases rest.len(),
{
    if rest.len() == 0 {
        acc
    } else {
        if parse_record(rest[0].1) is Some && !store_has(acc, rest[0].0) {
            replay_keep(acc.push(rest[0]), rest.skip(1))
        } else {
            replay_keep(acc, rest.skip(1))
        }
    }
}

impl<T: Extension> ExtensionManager<T> {
    /// Builds a manager from a dump of the durable descriptor map, as the
    /// embedding application read it back at startup.  Entries that do not
    /// decode as records, and later duplicates of an id, are dropped.
    /// Returns the manager and the replay plan: for each kept descriptor,
    /// its id and backing file name, in store order.  The caller attempts
    /// to load each backing file that still exists — a missing file is
    /// skipped, its descriptor kept — and hands every load outcome to
    /// `register_replayed` before accepting commands.
    pub fn new(persisted: Vec<(String, String)>) -> (r: (
        ExtensionManager<T>,
        Vec<(String, String)>,
    ))
        ensures
            r.0.wf(),
            r.0@.running == Seq::<Seq<char>>::empty(),
            r.0@.msgs == Seq::<Msg>::empty(),
            r.0@.hooks == Seq::<HookV>::empty(),
            r.0@.store == replay_keep(
                Seq::<(Seq<char>, Seq<char>)>::empty(),
                pairs_of(persisted@),
            ),
            r.1@.len() == r.0@.store.len(),
            forall|i: int|
                0 <= i < r.1@.len() ==> {
                    &&& (#[trigger] r.1@[i]).0@ == r.0@.store[i].0
                    &&& (parse_record(r.0@.store[i].1) matches Some(p) && r.1@[i].1@ == p.1)
                },
    {
        let mut mgr = ExtensionManager::<T> {
            extension_store: Extensions::new(),
            db: Descriptors::new(),
        };
        let mut plan: Vec<(String, String)> = Vec::new();
        let n = persisted.len();
        let mut i: usize = 0;
        proof {
            assert(mgr@.store =~= Seq::<(Seq<char>, Seq<char>)>::empty());
            assert(pairs_of(persisted@).skip(0) =~= pairs_of(persisted@));
        }
        while i < n
            invariant
                n == persisted@.len(),
                i <= n,
                mgr.wf(),
                mgr@.running == Seq::<Seq<char>>::empty(),
                mgr@.msgs == Seq::<Msg>::empty(),
                mgr@.hooks == Seq::<HookV>::empty(),
                replay_keep(Seq::<(Seq<char>, Seq<char>)>::empty(), pairs_of(persisted@))
                    == replay_keep(mgr@.store, pairs_of(persisted@).skip(i as int)),
                plan@.len() == mgr@.store.len(),
                forall|k: int|
                    0 <= k < plan@.len() ==> {
                        &&& (#[trigger] plan@[k]).0@ == mgr@.store[k].0
                        &&& (parse_record(mgr@.store[k].1) matches Some(p) && plan@[k].1@
                            == p.1)
                    },
            decreases n - i,
        {
            let ghost rest = pairs_of(persisted@).skip(i as int);
            proof {
                assert(rest[0] == (persisted@[i as int].0@, persisted@[i as int].1@));
                assert(rest.skip(1) =~= pairs_of(persisted@).skip(i + 1));
            }
            let key = persisted[i].0.clone();
            let value = persisted[i].1.clone();
            match decode_record(value.as_str()) {
                Some(pair) => {
                    let fresh = match mgr.db.get(&key) {
                        Some(_) => false,
                        None => true,
                    };
                    if fresh {
                        let ghost pre = mgr@.store;
                        mgr.db.insert(key.clone(), value);
                        plan.push((key, pair.1));
                        proof {
                            assert(mgr@.store =~= pre.push(rest[0]));
                        }
                    }
                },
                None => {},
            }
            i = i + 1;
        }
        proof {
            assert(pairs_of(persisted@).skip(n as int) =~= Seq::<(Seq<char>, Seq<char>)>::empty());
        }
        (mgr, plan)
    }

    /// One step of startup replay: the outcome of loading the backing file
    /// of one planned descriptor.  A build that failed to load, or whose id
    /// is already live, is skipped; the descriptor stays persisted either
    /// way.
    pub fn register_replayed(&mut self, loaded: Result<T, LoadError>, context: &Context) -> (r:
        Option<(String, String)>)
        requires
            old(self).wf(),
        ensures
            final(self).wf(),
            final(self)@.store == old(self)@.store,
            match r {
                Some(p) => (loaded matches Ok(service) && {
                    &&& p.0@ == service.spec_id()
                    &&& p.1@ == service.spec_info()
                    &&& !old(self)@.running.contains(service.spec_id())
                    &&& final(self)@.running == old(self)@.running.push(service.spec_id())
                    &&& final(self)@.msgs == old(self)@.msgs + install_msgs(
                        context.id@,
                        service.spec_id(),
                        service.spec_info(),
                    )
                    &&& final(self)@.hooks == old(self)@.hooks.push(
                        HookV { loaded: true, id: service.spec_id() },
                    )
                }),
                None => (loaded is Err || (loaded matches Ok(s) && old(
                    self,
                )@.running.contains(s.spec_id()))) && final(self)@ == old(self)@,
            },
    {
        match loaded {
            Err(_) => None,
            Ok(service) => match self.extension_store.load_extension(service, context) {
                Ok(pair) => {
                    proof {
                        let sid = loaded->Ok_0.spec_id();
                        let sinfo = loaded->Ok_0.spec_info();
                        assert(old(self)@.msgs + install_msgs(context.id@, sid, sinfo) =~= old(
                            self,
                        )@.msgs.push(
                            Msg {
                                ctx: context.id@,
                                event: installed_event(),
                                payload: payload_of(sid, sinfo),
                            },
                        ));
                    }
                    Some(pair)
                },
                Err(_rejected) => None,
            },
        }
    }

    /// Runs one install command to completion at the manager boundary: a
    /// failure never escapes the loop, it is answered by exactly one
    /// `error` notification to the submitting context.
    pub fn install_command(
        &mut self,
        source_is_file: bool,
        file_name: String,
        loaded: Result<T, LoadError>,
        context: &Context,
    ) -> (r: Result<(), InstallError>)
        requires
            old(self).wf(),
        ensures
            final(self).wf(),
            match r {
                Ok(u) => (loaded matches Ok(service) && source_is_file && install_success(
                    old(self)@,
                    final(self)@,
                    service,
                    file_name@,
                    context.id@,
                )),
                Err(e) => {
                    &&& install_fail_cause(e, old(self)@, source_is_file, loaded)
                    &&& final(self)@.running == old(self)@.running
                    &&& final(self)@.store == old(self)@.store
                    &&& final(self)@.hooks == old(self)@.hooks
                    &&& final(self)@.msgs == old(self)@.msgs.push(
                        error_msg(context.id@, install_error_text(e)),
                    )
                },
            },
    {
        match self.install_extension(source_is_file, file_name, loaded, context) {
            Ok(u) => Ok(u),
            Err(e) => {
                let m = e.message();
                let note = EmitContent {
                    id: context.id.clone(),
                    event: String::from_str("error"),
                    payload: m,
                };
                self.extension_store.emit(note);
                Err(e)
            },
        }
    }

    /// Runs one remove command to completion at the manager boundary:
    /// success hands back the backing file name for the embedding
    /// application to delete; failure is answered by exactly one `error`
    /// notification.
    pub fn remove_command(&mut self, id: &String, context: &Context) -> (r: Result<
        String,
        RemoveError,
    >)
        requires
            old(self).wf(),
        ensures
            final(self).wf(),
            match r {
                Ok(name) => {
                    &&& store_has(old(self)@.store, id@)
                    &&& parse_record(store_val(old(self)@.store, id@)) matches Some(p)
                        && name@ == p.1
                    &&& final(self)@.store == store_remove(old(self)@.store, id@)
                    &&& old(self)@.running.contains(id@) ==> {
                        &&& final(self)@.running == old(self)@.running.remove_value(id@)
                        &&& final(self)@.msgs == old(self)@.msgs + remove_msgs(
                            context.id@,
                            id@,
                        )
                        &&& final(self)@.hooks == old(self)@.hooks.push(
                            HookV { loaded: false, id: id@ },
                        )
                    }
                    &&& !old(self)@.running.contains(id@) ==> {
                        &&& final(self)@.running == old(self)@.running
                        &&& final(self)@.msgs == old(self)@.msgs
                        &&& final(self)@.hooks == old(self)@.hooks
                    }
                },
                Err(e) => {
                    &&& (e matches RemoveError::NotInstalled(s) && s@ == id@)
                    &&& !store_has(old(self)@.store, id@)
                    &&& final(self)@.running == old(self)@.running
                    &&& final(self)@.store == old(self)@.store
                    &&& final(self)@.hooks == old(self)@.hooks
                    &&& final(self)@.msgs == old(self)@.msgs.push(
                        error_msg(context.id@, remove_error_text(e)),
                    )
                },
            },
    {
        match self.remove_extension(id, context) {
            Ok(name) => Ok(name),
            Err(e) => {
                let m = e.message();
                let note = EmitContent {
                    id: context.id.clone(),
                    event: String::from_str("error"),
                    payload: m,
                };
                self.extension_store.emit(note);
                Err(e)
            },
        }
    }
}

/// The hook calls one reload cycle makes: where an old instance was
/// running, its unload hook completes strictly before the new instance's
/// load hook begins.
pub open spec fn reload_hooks(was_running: bool, id: Seq<char>) -> Seq<HookV> {
    if was_running {
        seq![HookV { loaded: false, id }, HookV { loaded: true, id }]
    } else {
        seq![HookV { loaded: true, id }]
    }
}

/// The notifications one reload cycle sends.
pub open spec fn reload_msgs(
    was_running: bool,
    ctx: Seq<char>,
    id: Seq<char>,
    info: Seq<char>,
) -> Seq<Msg> {
    if was_running {
        seq![Msg { ctx, event: unloaded_event(), payload: id }] + install_msgs(ctx, id, info)
    } else {
        install_msgs(ctx, id, info)
    }
}

/// Hot-reload ordering: among the hook calls of one reload cycle, every
/// unload observation stands strictly before every load observation — the
/// old instance is gone before the new instance's load hook begins.
pub proof fn lemma_reload_hook_order(was_running: bool, id: Seq<char>)
    ensures
        forall|i: int, j: int|
            0 <= i < reload_hooks(was_running, id).len() && 0 <= j < reload_hooks(
                was_running,
                id,
            ).len() && !(#[trigger] reload_hooks(was_running, id)[i]).loaded && (
            #[trigger] reload_hooks(was_running, id)[j]).loaded ==> i < j,
{
    let h = reload_hooks(was_running, id);
    if was_running {
        assert(h[0].loaded == false && h[1].loaded == true);
    } else {
        assert(h[0].loaded == true);
    }
}

/// Install persists metadata: a successful install leaves, under the
/// plugin's id, a record that decodes back to exactly the plugin's
/// metadata and the backing file name.
pub proof fn lemma_install_persists(
    store: Seq<(Seq<char>, Seq<char>)>,
    id: Seq<char>,
    info: Seq<char>,
    fname: Seq<char>,
)
    requires
        store_distinct(store),
        wf_info(info),
    ensures
        ({
            let store1 = store_insert(store, id, record_of(info, fname));
            &&& store_has(store1, id)
            &&& parse_record(store_val(store1, id)) == Some::<(Seq<char>, Seq<char>)>(
                (info, fname),
            )
        }),
{
    lemma_record_roundtrip(info, fname);
    let store1 = store_insert(store, id, record_of(info, fname));
    if store_has(store, id) {
        let w = store_at(store, id);
        assert(0 <= w < store.len() && store[w].0 == id);
        assert(store1 == store.update(w, (id, record_of(info, fname))));
        assert(store_distinct(store1)) by {
            assert(forall|i: int|
                0 <= i < store1.len() ==> (#[trigger] store1[i]).0 == store[i].0);
        }
        lemma_store_at_unique(store1, id, w);
    } else {
        assert(store1[store.len() as int].0 == id);
        assert(store_distinct(store1)) by {
            assert(forall|i: int| 0 <= i < store.len() ==> store1[i] == store[i]);
            assert forall|i: int, j: int| 0 <= i < j < store1.len() implies (
            #[trigger] store1[i]).0 != (#[trigger] store1[j]).0 by {
                if j < store.len() {
                } else {
                    assert(store1[j].0 == id);
                    assert(store1[i] == store[i]);
                    assert(!store_has(store, id));
                }
            }
        }
        lemma_store_at_unique(store1, id, store.len() as int);
    }
}

/// Command ordering: installing a fresh plugin, then removing it, then
/// listing — processed strictly in this order — answers with exactly an
/// `installed_extension` notification for it, then an `unloaded_extension`
/// notification for it, then a listing in which its id does not appear.
pub proof fn lemma_command_ordering(
    m0: ManagerV,
    id: Seq<char>,
    info: Seq<char>,
    fname: Seq<char>,
    c1: Seq<char>,
    c2: Seq<char>,
    c3: Seq<char>,
)
    requires
        store_distinct(m0.store),
        !store_has(m0.store, id),
    ensures
        ({
            let store1 = store_insert(m0.store, id, record_of(info, fname));
            let store2 = store_remove(store1, id);
            let answers = install_msgs(c1, id, info) + remove_msgs(c2, id) + list_msgs(
                store2,
                c3,
            );
            &&& store2 == m0.store
            &&& answers.len() == 2 + m0.store.len()
            &&& answers[0].ctx == c1 && answers[0].event == installed_event()
                && answers[0].payload == payload_of(id, info)
            &&& answers[1].ctx == c2 && answers[1].event == unloaded_event()
                && answers[1].payload == id
            &&& forall|k: int|
                2 <= k < answers.len() ==> ({
                    &&& (#[trigger] answers[k]).ctx == c3
                    &&& answers[k].event == loaded_event()
                    &&& answers[k].payload == payload_of(
                        m0.store[k - 2].0,
                        m0.store[k - 2].1,
                    )
                    &&& m0.store[k - 2].0 != id
                })
        }),
{
    lemma_insert_then_remove(m0.store, id, record_of(info, fname));
    let store1 = store_insert(m0.store, id, record_of(info, fname));
    let store2 = store_remove(store1, id);
    let answers = install_msgs(c1, id, info) + remove_msgs(c2, id) + list_msgs(store2, c3);
    assert(store2 == m0.store);
    assert forall|k: int| 2 <= k < answers.len() implies {
        &&& (#[trigger] answers[k]).ctx == c3
        &&& answers[k].event == loaded_event()
        &&& answers[k].payload == payload_of(m0.store[k - 2].0, m0.store[k - 2].1)
        &&& m0.store[k - 2].0 != id
    } by {
        assert(answers[k] == list_msgs(m0.store, c3)[k - 2]);
        assert(list_msgs(m0.store, c3)[k - 2] == Msg {
            ctx: c3,
            event: loaded_event(),
            payload: payload_of(m0.store[k - 2].0, m0.store[k - 2].1),
        });
        assert(m0.store[k - 2].0 != id);
    }
}

} // verus!
