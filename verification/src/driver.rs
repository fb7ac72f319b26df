//! A minimal observer interface and manager kept beside the full pipeline:
//! two hooks, no interest sets, and errors handed back verbatim. The thin
//! HTTP client that uses it lives with the embedding program.

use vstd::prelude::*;

use std::sync::Arc;

use crate::error::ApiError;

verus! {

/// A minimal observer: consulted before every request and after every
/// response, with its result pinned to an outcome function of the event's
/// plain values.
pub trait DriverPlugin {
    /// An observer without a name of its own reads as the empty name.
    open spec fn spec_name(&self) -> Seq<char> {
        Seq::<char>::empty()
    }

    /// Every handler passes by default.
    open spec fn before_outcome(&self, url: Seq<char>) -> Option<ApiError> {
        None
    }

    open spec fn after_outcome(&self, url: Seq<char>, status: u16) -> Option<ApiError> {
        None
    }

    fn name(&self) -> (r: String)
        ensures
            r@ == self.spec_name(),
    ;

    fn before_request(&self, url: &str) -> (r: Result<(), ApiError>)
        ensures
            r == crate::plugin::outcome_to_result(self.before_outcome(url@)),
    ;

    fn after_response(&self, url: &str, status: u16) -> (r: Result<(), ApiError>)
        ensures
            r == crate::plugin::outcome_to_result(self.after_outcome(url@, status)),
    ;
}

/// One registered minimal observer, held behind a shared handle inside a
/// sized entry.
pub struct DriverEntry {
    pub plugin: Arc<dyn DriverPlugin>,
}

/// The first failure among the observers' before-request outcomes, from
/// position `i` on, with the observer that reports it.
pub open spec fn spec_before_from(
    plugins: Seq<DriverEntry>,
    url: Seq<char>,
    i: int,
) -> Option<(int, ApiError)>
    decreases plugins.len() - i,
{
    if i < 0 || i >= plugins.len() {
        None
    } else {
        match plugins[i].plugin.before_outcome(url) {
            Option::Some(e) => Some((i, e)),
            Option::None => spec_before_from(plugins, url, i + 1),
        }
    }
}

/// The first failure among the observers' after-response outcomes, from
/// position `i` on, with the observer that reports it.
pub open spec fn spec_after_from(
    plugins: Seq<DriverEntry>,
    url: Seq<char>,
    status: u16,
    i: int,
) -> Option<(int, ApiError)>
    decreases plugins.len() - i,
{
    if i < 0 || i >= plugins.len() {
        None
    } else {
        match plugins[i].plugin.after_outcome(url, status) {
            Option::Some(e) => Some((i, e)),
            Option::None => spec_after_from(plugins, url, status, i + 1),
        }
    }
}

/// The minimal pipeline: every observer runs for every hook, in the order
/// they were added, and the first failure comes back verbatim.
pub struct DriverPluginManager {
    pub plugins: Vec<DriverEntry>,
}

impl DriverPluginManager {
    pub fn new() -> (r: DriverPluginManager)
        ensures
            r.plugins@.len() == 0,
    {
        DriverPluginManager { plugins: Vec::new() }
    }

    pub fn add_plugin(&mut self, entry: DriverEntry)
        ensures
            final(self).plugins@ == old(self).plugins@.push(entry),
    {
        self.plugins.push(entry);
    }

    /// Consults every observer before a request, in order; the first
    /// failure stops the run and is returned as that observer reported it.
    pub fn before_request(&self, url: &str) -> (r: Result<(), ApiError>)
        ensures
            match spec_before_from(self.plugins@, url@, 0) {
                Option::None => r is Ok,
                Option::Some((i, e)) => r == Result::<(), ApiError>::Err(e),
            },
    {
        let mut i: usize = 0;
        while i < self.plugins.len()
            invariant
                0 <= i <= self.plugins@.len(),
                spec_before_from(self.plugins@, url@, 0) == spec_before_from(
                    self.plugins@,
                    url@,
                    i as int,
                ),
            decreases self.plugins@.len() - i,
        {
            match self.plugins[i].plugin.before_request(url) {
                Ok(()) => {},
                Err(e) => {
                    return Err(e);
                },
            }
            i += 1;
        }
        Ok(())
    }

    /// Consults every observer after a response, in order; the first
    /// failure stops the run and is returned as that observer reported it.
    pub fn after_response(&self, url: &str, status: u16) -> (r: Result<(), ApiError>)
        ensures
            match spec_after_from(self.plugins@, url@, status, 0) {
                Option::None => r is Ok,
                Option::Some((i, e)) => r == Result::<(), ApiError>::Err(e),
            },
    {
        let mut i: usize = 0;
        while i < self.plugins.len()
            invariant
                0 <= i <= self.plugins@.len(),
                spec_after_from(self.plugins@, url@, status, 0) == spec_after_from(
                    self.plugins@,
                    url@,
                    status,
                    i as int,
                ),
            decreases self.plugins@.len() - i,
        {
            match self.plugins[i].plugin.after_response(url, status) {
                Ok(()) => {},
                Err(e) => {
                    return Err(e);
                },
            }
            i += 1;
        }
        Ok(())
    }
}

/// A minimal observer that watches and always lets the request pass; the
/// log output itself is the embedding program's concern.
pub struct LoggingPlugin;

impl DriverPlugin for LoggingPlugin {
    open spec fn spec_name(&self) -> Seq<char> {
        "logging"@
    }

    open spec fn before_outcome(&self, url: Seq<char>) -> Option<ApiError> {
        None
    }

    open spec fn after_outcome(&self, url: Seq<char>, status: u16) -> Option<ApiError> {
        None
    }

    fn name(&self) -> String {
        "logging".to_owned()
    }

    fn before_request(&self, url: &str) -> Result<(), ApiError> {
        Ok(())
    }

    fn after_response(&self, url: &str, status: u16) -> Result<(), ApiError> {
        Ok(())
    }
}

} // verus!
