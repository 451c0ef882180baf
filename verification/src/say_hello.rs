//! A minimal plugin written against the capability interface, the same one
//! a dynamically loaded library's factory would produce.  It doubles as the
//! reference implementation for exercising the engine without any native
//! code.

use crate::extension_interface::Extension;
use vstd::prelude::*;
use vstd::string::StringExecFns;

verus! {

/// A plugin that does nothing but exist under its id, reporting whatever
/// metadata it was built with.
pub struct PluginSayHello {
    pub id: String,
    pub info: String,
}

/// The metadata the factory builds the plugin with.
pub open spec fn say_hello_info() -> Seq<char> {
    "{\"name\":\"say_hello\"}"@
}

impl Extension for PluginSayHello {
    open spec fn spec_id(&self) -> Seq<char> {
        self.id@
    }

    open spec fn spec_info(&self) -> Seq<char> {
        self.info@
    }

    fn id(&self) -> (r: String) {
        self.id.clone()
    }

    fn info(&self) -> (r: String) {
        self.info.clone()
    }

    fn load(&self) {
    }

    fn unload(&self) {
    }
}

/// The factory, shaped like the exported entry point of a plugin library.
pub fn new(id: String) -> (r: PluginSayHello)
    ensures
        r.spec_id() == id@,
        r.spec_info() == say_hello_info(),
{
    PluginSayHello { id, info: String::from_str("{\"name\":\"say_hello\"}") }
}

} // verus!
