//! The two cross-request shared resources, each behind an exclusive lock:
//! the usage accumulator and the client loader config store. A writer holds
//! the lock for its whole read-modify-write, so the dedup-check-then-append
//! and the whole-record swap are single critical sections, and a reader's
//! snapshot is a copy of one consistent state, never a mixture of two writes.
//! Locks are only held for in-memory work, never across I/O.

use vstd::prelude::*;
use vstd::rwlock::{RwLock, RwLockPredicate};
use crate::usage::{UsageAccumulator, ModuleData, distinct_mds};
use crate::client_config::ClientLoaderConfig;

verus! {

/// The accumulator's lock invariant: the collection stays duplicate-free.
pub struct AccumulatorInv {}

impl RwLockPredicate<UsageAccumulator> for AccumulatorInv {
    open spec fn inv(self, v: UsageAccumulator) -> bool {
        v.wf()
    }
}

/// The usage accumulator shared across request handlers.
pub struct SharedAccumulator {
    lock: RwLock<UsageAccumulator, AccumulatorInv>,
}

impl SharedAccumulator {
    /// An empty shared accumulator.
    pub fn new() -> SharedAccumulator {
        SharedAccumulator {
            lock: RwLock::new(UsageAccumulator::new(), Ghost(AccumulatorInv {  })),
        }
    }

    /// Record one observation: the duplicate check and the append happen in
    /// one critical section, so two concurrent calls for the same logical
    /// entry never both append.
    pub fn record(&self, entry: ModuleData) {
        let (mut acc, handle) = self.lock.acquire_write();
        acc.record(entry);
        handle.release_write(acc);
    }

    /// A consistent point-in-time copy, taken under the lock; whatever
    /// interleaving of writers came before, it holds no two structurally
    /// equal entries and keeps first-seen order.
    pub fn snapshot(&self) -> (r: Vec<ModuleData>)
        ensures
            distinct_mds(r@),
    {
        let handle = self.lock.acquire_read();
        let r = handle.borrow().snapshot();
        handle.release_read();
        r
    }

    /// Watch one request's tracking parameter: decode it and record what it
    /// carries, in one critical section; malformed input records nothing.
    pub fn track(&self, bs_track: Option<&String>)
        requires
            bs_track is Some ==> bs_track->0@.len() < usize::MAX,
    {
        let catcher = crate::preset::ReqCatcher::new();
        let (mut acc, handle) = self.lock.acquire_write();
        catcher.finish(&mut acc, bs_track);
        handle.release_write(acc);
    }
}

/// The config store carries no internal invariant; the lock alone orders its
/// readers and writers.
pub struct ConfigInv {}

impl RwLockPredicate<ClientLoaderConfig> for ConfigInv {
    open spec fn inv(self, v: ClientLoaderConfig) -> bool {
        true
    }
}

/// The client loader config store shared across request handlers.
pub struct SharedConfigStore {
    lock: RwLock<ClientLoaderConfig, ConfigInv>,
}

impl SharedConfigStore {
    /// A store holding the empty configuration.
    pub fn new() -> SharedConfigStore {
        SharedConfigStore { lock: RwLock::new(ClientLoaderConfig::new(), Ghost(ConfigInv {  })) }
    }

    /// Swap the five posted fields in one critical section: a concurrent
    /// reader sees the record as it was before or after this call as a whole,
    /// never a mixture.
    pub fn replace(&self, next: ClientLoaderConfig) {
        let (mut cfg, handle) = self.lock.acquire_write();
        cfg.replace(next);
        handle.release_write(cfg);
    }

    /// Overwrite the dependency list in one critical section.
    pub fn merge_deps(&self, deps: Vec<String>) {
        let (mut cfg, handle) = self.lock.acquire_write();
        cfg.merge_deps(deps);
        handle.release_write(cfg);
    }

    /// A consistent point-in-time copy of one state.
    pub fn snapshot(&self) -> ClientLoaderConfig {
        let handle = self.lock.acquire_read();
        let r = handle.borrow().snapshot();
        handle.release_read();
        r
    }

    /// Handle a posted snapshot under the lock; the store is changed as
    /// `handle_post_data` states, and the reply is the acknowledgement when
    /// the body decodes as a configuration and the parse-error text otherwise.
    pub fn post(&self, body: &str) -> (r: String)
        requires
            body@.len() < usize::MAX,
        ensures
            crate::json::json_of(body@) is Some && crate::wire::config_decodes(
                crate::json::json_of(body@)->0,
            ) ==> r@ == crate::handlers::post_ack(),
            crate::json::json_of(body@) is None || !crate::wire::config_decodes(
                crate::json::json_of(body@)->0,
            ) ==> r@ == crate::handlers::post_parse_error(),
    {
        let (mut cfg, handle) = self.lock.acquire_write();
        let reply = crate::handlers::handle_post_data(&mut cfg, body);
        handle.release_write(cfg);
        reply
    }

    /// Transform an intercepted loader-configuration response under the lock;
    /// the store's `deps` are merged as `serve_requirejs_config` states, and
    /// the returned body is pinned here: over the cap or not UTF-8 the
    /// request fails, otherwise the decoded text with the instrumentation
    /// snippet appended comes back.
    pub fn instrument_loader_config(&self, bytes: &Vec<u8>) -> (r: Result<
        String,
        crate::proxy::ProxyBodyError,
    >)
        ensures
            bytes@.len() > crate::proxy::BODY_CAP ==> r is Err && r->Err_0 is TooLarge,
            bytes@.len() <= crate::proxy::BODY_CAP && !vstd::utf8::valid_utf8(bytes@) ==> r is Err
                && r->Err_0 is NotText,
            bytes@.len() <= crate::proxy::BODY_CAP && vstd::utf8::valid_utf8(bytes@) ==> r is Ok
                && r->Ok_0@ == vstd::utf8::decode_utf8(bytes@)
                + crate::handlers::post_config_snippet(),
    {
        let (mut cfg, handle) = self.lock.acquire_write();
        let out = crate::handlers::serve_requirejs_config(&mut cfg, bytes);
        handle.release_write(cfg);
        out
    }
}

} // verus!
