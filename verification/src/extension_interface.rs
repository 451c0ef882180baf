//! The interface between the engine and plugin code: the capability trait a
//! plugin instance exposes, the messages that travel the emit and listen
//! channels, and the record of lifecycle hook calls.

use vstd::prelude::*;
use vstd::string::StringExecFns;

verus! {

/// A notification bound for the host's event bus: the request context it
/// answers, the event name, and the payload text.
#[derive(Debug)]
pub struct EmitContent {
    pub id: String,
    pub event: String,
    pub payload: String,
}

/// The mathematical content of one emit notification.
pub ghost struct Msg {
    pub ctx: Seq<char>,
    pub event: Seq<char>,
    pub payload: Seq<char>,
}

impl View for EmitContent {
    type V = Msg;

    open spec fn view(&self) -> Msg {
        Msg { ctx: self.id@, event: self.event@, payload: self.payload@ }
    }
}

/// The contents of a notification queue, message by message.
pub open spec fn msgs_of(q: Seq<EmitContent>) -> Seq<Msg> {
    q.map_values(|m: EmitContent| m@)
}

pub proof fn lemma_msgs_of_push(q: Seq<EmitContent>, m: EmitContent)
    ensures
        msgs_of(q.push(m)) == msgs_of(q).push(m@),
{
    assert(msgs_of(q.push(m)) =~= msgs_of(q).push(m@));
}

/// A plugin's request on the listen channel: have the host event of this
/// name forwarded to the callback registered under the carried token, or
/// stop.  The callback itself stays with the embedding application; messages
/// carry only its token.
#[derive(Debug)]
pub enum ListenType {
    Listen(u64),
    Unlisten,
}

/// One message on the listen channel.
#[derive(Debug)]
pub struct ListenContent {
    pub event: String,
    pub content_type: ListenType,
}

/// One observed lifecycle hook call: `Loaded` is recorded when a load hook
/// is about to begin, `Unloaded` once an unload hook has completed.
#[derive(Debug)]
pub enum HookEvent {
    Loaded { id: String },
    Unloaded { id: String },
}

/// The mathematical content of one hook observation.
pub ghost struct HookV {
    pub loaded: bool,
    pub id: Seq<char>,
}

impl View for HookEvent {
    type V = HookV;

    open spec fn view(&self) -> HookV {
        match self {
            HookEvent::Loaded { id } => HookV { loaded: true, id: id@ },
            HookEvent::Unloaded { id } => HookV { loaded: false, id: id@ },
        }
    }
}

/// The contents of a hook log, call by call.
pub open spec fn hooks_of(t: Seq<HookEvent>) -> Seq<HookV> {
    t.map_values(|h: HookEvent| h@)
}

pub proof fn lemma_hooks_of_push(t: Seq<HookEvent>, h: HookEvent)
    ensures
        hooks_of(t.push(h)) == hooks_of(t).push(h@),
{
    assert(hooks_of(t.push(h)) =~= hooks_of(t).push(h@));
}

/// Event name under which a fresh installation is announced.
pub open spec fn installed_event() -> Seq<char> {
    "installed_extension"@
}

/// Event name under which a removal is announced.
pub open spec fn unloaded_event() -> Seq<char> {
    "unloaded_extension"@
}

/// Event name under which each persisted descriptor is listed.
pub open spec fn loaded_event() -> Seq<char> {
    "loaded_extension"@
}

/// Event name under which a failed command is answered.
pub open spec fn error_event() -> Seq<char> {
    "error"@
}

/// The `{"<id>":<info>}` payload carried by install and list notifications.
pub open spec fn payload_of(id: Seq<char>, info: Seq<char>) -> Seq<char> {
    seq!['{', '"'] + id + seq!['"', ':'] + info + seq!['}']
}

/// Builds the `{"<id>":<info>}` payload.
pub fn make_payload(id: &str, info: &str) -> (r: String)
    ensures
        r@ == payload_of(id@, info@),
{
    let mut s = String::from_str("{\"");
    s.append(id);
    s.append("\":");
    s.append(info);
    s.append("}");
    proof {
        reveal_strlit("{\"");
        reveal_strlit("\":");
        reveal_strlit("}");
        assert(s@ =~= payload_of(id@, info@));
    }
    s
}

/// The capability interface every plugin exposes: a stable identity, its
/// self-reported metadata, and the two lifecycle hooks.  The embedding
/// application implements it for instances produced by a library's factory
/// symbol.  `spec_id` must be stable across builds of the same logical
/// plugin, so that hot-reload can match old and new instances.
pub trait Extension: Sized {
    /// The plugin id as a mathematical value.  The default leaves it
    /// unconstrained, for implementations outside the verified world.
    open spec fn spec_id(&self) -> Seq<char> {
        vstd::pervasive::arbitrary()
    }

    /// The self-reported metadata as a mathematical value.  The default
    /// leaves it unconstrained, for implementations outside the verified
    /// world.
    open spec fn spec_info(&self) -> Seq<char> {
        vstd::pervasive::arbitrary()
    }

    /// The plugin's unique, stable id.
    fn id(&self) -> (r: String)
        ensures
            r@ == self.spec_id(),
    ;

    /// The plugin's self-reported metadata.
    fn info(&self) -> (r: String)
        ensures
            r@ == self.spec_info(),
    ;

    /// The load lifecycle hook; may run arbitrary plugin code.
    fn load(&self);

    /// The unload lifecycle hook; may run arbitrary plugin code.
    fn unload(&self);
}

} // verus!
