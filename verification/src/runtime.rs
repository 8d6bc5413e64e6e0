use vstd::prelude::*;

use crate::config::Config;
use crate::postman::{Channel, Postman};

verus! {

/// The process-level supervisor's state: it owns the settings and the
/// message bus that every subsystem is wired through.
pub struct Runtime {
    pub postman: Postman,
    pub cfg: Config,
}

impl Runtime {
    /// A runtime over the given settings, with a fresh bus.
    pub fn new(cfg: Config) -> (r: Self)
        ensures
            r.cfg == cfg,
            forall|c: Channel| !(#[trigger] r.postman.spec_registered(c)),
    {
        Runtime { postman: Postman::new(), cfg }
    }

    /// A runtime over the default settings.
    pub fn new_with_default_config() -> (r: Self)
        ensures
            forall|c: Channel| !(#[trigger] r.postman.spec_registered(c)),
            r.cfg.listen_port == 7111,
    {
        Runtime::new(Config::new())
    }
}

} // verus!
