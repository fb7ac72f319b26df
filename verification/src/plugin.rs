//! The hook pipeline: hook kinds, per-invocation context, the observer
//! trait, and the manager that dispatches observers in registration order
//! and stops at the first failure.

use vstd::prelude::*;
use vstd::string::StringExecFns;

use std::sync::Arc;

use crate::error::ApiError;

verus! {

/// A point in the request lifecycle where observers may run.
#[derive(Debug, Clone, Copy, PartialEq, Eq, Hash, Structural)]
pub enum PluginHook {
    PreRequest,
    PostRequest,
    PreResponse,
    PostResponse,
    OnError,
    OnRetry,
    OnStream,
}

/// Per-invocation context handed to every observer: the hook being run and
/// an open key-value metadata map. It is built for one dispatch and dropped
/// when the dispatch returns.
#[derive(Debug)]
pub struct PluginContext {
    pub hook: PluginHook,
    pub metadata: Vec<(String, String)>,
}

impl PluginContext {
    pub fn new(hook: PluginHook) -> (r: PluginContext)
        ensures
            r.hook == hook,
            r.metadata@.len() == 0,
    {
        PluginContext { hook, metadata: Vec::new() }
    }

    pub fn with_metadata(self, key: String, value: String) -> (r: PluginContext)
        ensures
            r.hook == self.hook,
            r.metadata@ == self.metadata@.push((key, value)),
    {
        let mut m = self;
        m.metadata.push((key, value));
        m
    }
}

/// The event carried to observers of one hook invocation, at the
/// specification level: each variant holds the plain values the matching
/// handler receives.
pub enum HookEv {
    PreRequest { url: Seq<char> },
    PostRequest { url: Seq<char>, status: u16 },
    PreResponse { status: u16 },
    PostResponse { body: Seq<char> },
    OnError { error: ApiError },
    OnRetry { attempt: u32 },
    OnStream { chunk: Seq<u8> },
}

pub open spec fn hook_of(ev: HookEv) -> PluginHook {
    match ev {
        HookEv::PreRequest { .. } => PluginHook::PreRequest,
        HookEv::PostRequest { .. } => PluginHook::PostRequest,
        HookEv::PreResponse { .. } => PluginHook::PreResponse,
        HookEv::PostResponse { .. } => PluginHook::PostResponse,
        HookEv::OnError { .. } => PluginHook::OnError,
        HookEv::OnRetry { .. } => PluginHook::OnRetry,
        HookEv::OnStream { .. } => PluginHook::OnStream,
    }
}

pub open spec fn outcome_to_result(o: Option<ApiError>) -> Result<(), ApiError> {
    match o {
        Option::None => Result::Ok(()),
        Option::Some(e) => Result::Err(e),
    }
}

/// An observer of the request lifecycle. Each observer declares, through
/// `spec_handles`, which hooks it is interested in, and each handler's
/// result is pinned to the matching `..._outcome` function of the event's
/// plain values, so that dispatch has an exact meaning.
pub trait Plugin {
    /// An observer without a name of its own reads as the empty name.
    open spec fn spec_name(&self) -> Seq<char> {
        Seq::<char>::empty()
    }

    /// By default an observer watches requests only, as the request and
    /// response hooks carry the traffic most observers care about.
    open spec fn spec_handles(&self, hook: PluginHook) -> bool {
        hook == PluginHook::PreRequest || hook == PluginHook::PostRequest
    }

    /// Every handler passes by default.
    open spec fn pre_request_outcome(&self, url: Seq<char>) -> Option<ApiError> {
        None
    }

    open spec fn post_request_outcome(&self, url: Seq<char>, status: u16) -> Option<ApiError> {
        None
    }

    open spec fn error_outcome(&self, error: ApiError) -> Option<ApiError> {
        None
    }

    open spec fn retry_outcome(&self, attempt: u32) -> Option<ApiError> {
        None
    }

    open spec fn pre_response_outcome(&self, status: u16) -> Option<ApiError> {
        None
    }

    open spec fn post_response_outcome(&self, body: Seq<char>) -> Option<ApiError> {
        None
    }

    open spec fn stream_outcome(&self, chunk: Seq<u8>) -> Option<ApiError> {
        None
    }

    fn name(&self) -> (r: String)
        ensures
            r@ == self.spec_name(),
    ;

    fn version(&self) -> String;

    fn description(&self) -> String;

    /// Prepare the observer before it joins a pipeline; the default does
    /// nothing and accepts any configuration.
    fn initialize(&mut self, config: &serde_json::Value) -> Result<(), ApiError> {
        Ok(())
    }

    fn handles_hook(&self, hook: &PluginHook) -> (r: bool)
        ensures
            r == self.spec_handles(*hook),
    ;

    fn handle_pre_request(&self, url: &str, context: &PluginContext) -> (r: Result<(), ApiError>)
        ensures
            r == outcome_to_result(self.pre_request_outcome(url@)),
    ;

    fn handle_post_request(&self, url: &str, status: u16, context: &PluginContext) -> (r: Result<
        (),
        ApiError,
    >)
        ensures
            r == outcome_to_result(self.post_request_outcome(url@, status)),
    ;

    fn handle_error(&self, error: &ApiError, context: &PluginContext) -> (r: Result<(), ApiError>)
        ensures
            r == outcome_to_result(self.error_outcome(*error)),
    ;

    fn handle_retry(&self, attempt: u32, context: &PluginContext) -> (r: Result<(), ApiError>)
        ensures
            r == outcome_to_result(self.retry_outcome(attempt)),
    ;

    fn handle_pre_response(&self, status: u16, context: &PluginContext) -> (r: Result<
        (),
        ApiError,
    >)
        ensures
            r == outcome_to_result(self.pre_response_outcome(status)),
    ;

    fn handle_post_response(&self, body: &str, context: &PluginContext) -> (r: Result<
        (),
        ApiError,
    >)
        ensures
            r == outcome_to_result(self.post_response_outcome(body@)),
    ;

    fn handle_stream(&self, chunk: &[u8], context: &PluginContext) -> (r: Result<(), ApiError>)
        ensures
            r == outcome_to_result(self.stream_outcome(chunk@)),
    ;
}

/// One registered observer. The shared handle is held inside a sized entry
/// so the pipeline can be stored and grown as a plain vector.
pub struct PluginEntry {
    pub plugin: Arc<dyn Plugin>,
}

/// Whether one observer is consulted for one event.
pub open spec fn applies(p: &PluginEntry, ev: HookEv) -> bool {
    p.plugin.spec_handles(hook_of(ev))
}

/// The outcome one observer reports for one event.
pub open spec fn outcome_of(p: &PluginEntry, ev: HookEv) -> Option<ApiError> {
    match ev {
        HookEv::PreRequest { url } => p.plugin.pre_request_outcome(url),
        HookEv::PostRequest { url, status } => p.plugin.post_request_outcome(url, status),
        HookEv::PreResponse { status } => p.plugin.pre_response_outcome(status),
        HookEv::PostResponse { body } => p.plugin.post_response_outcome(body),
        HookEv::OnError { error } => p.plugin.error_outcome(error),
        HookEv::OnRetry { attempt } => p.plugin.retry_outcome(attempt),
        HookEv::OnStream { chunk } => p.plugin.stream_outcome(chunk),
    }
}

/// The meaning of dispatch from position `i` on: the index of the first
/// interested observer at or after `i` whose outcome is a failure, with that
/// failure, or `None` when every interested observer from `i` on succeeds.
pub open spec fn spec_dispatch_from(
    plugins: Seq<PluginEntry>,
    ev: HookEv,
    i: int,
) -> Option<(int, ApiError)>
    decreases plugins.len() - i,
{
    if i < 0 || i >= plugins.len() {
        None
    } else if applies(&plugins[i], ev) {
        match outcome_of(&plugins[i], ev) {
            Option::Some(e) => Some((i, e)),
            Option::None => spec_dispatch_from(plugins, ev, i + 1),
        }
    } else {
        spec_dispatch_from(plugins, ev, i + 1)
    }
}

/// The meaning of a whole dispatch over a registration-ordered pipeline.
pub open spec fn spec_dispatch(plugins: Seq<PluginEntry>, ev: HookEv) -> Option<
    (int, ApiError),
> {
    spec_dispatch_from(plugins, ev, 0)
}

/// What the executors promise: success exactly when the dispatch meaning is
/// failure-free, and otherwise the first failing observer's hook, name and
/// error, carried verbatim.
pub open spec fn dispatch_post(
    plugins: Seq<PluginEntry>,
    ev: HookEv,
    r: Result<(), ApiError>,
) -> bool {
    match (r, spec_dispatch(plugins, ev)) {
        (Result::Ok(()), d) => d is None,
        (Result::Err(e), Option::Some((i, cause))) => match e {
            ApiError::HookFailure { hook, plugin_name, cause: c } => {
                &&& hook == hook_of(ev)
                &&& plugin_name@ == plugins[i].plugin.spec_name()
                &&& *c == cause
            },
            _ => false,
        },
        (Result::Err(_), Option::None) => false,
    }
}

/// Dispatch consults observers in registration order: a failing dispatch
/// names an interested observer whose outcome is that failure and before
/// which every interested observer succeeds, and a successful dispatch means
/// every interested observer succeeds.
proof fn lemma_dispatch_order_from(plugins: Seq<PluginEntry>, ev: HookEv, i: int)
    requires
        0 <= i <= plugins.len(),
    ensures
        spec_dispatch_from(plugins, ev, i) matches Some((k, e)) ==> {
            &&& i <= k < plugins.len()
            &&& applies(&plugins[k], ev)
            &&& outcome_of(&plugins[k], ev) == Some(e)
            &&& forall|j: int|
                i <= j < k && applies(&plugins[j], ev) ==> outcome_of(&plugins[j], ev) is None
        },
        spec_dispatch_from(plugins, ev, i) is None ==> forall|j: int|
            i <= j < plugins.len() && applies(&plugins[j], ev) ==> outcome_of(
                &plugins[j],
                ev,
            ) is None,
    decreases plugins.len() - i,
{
    if i < plugins.len() {
        lemma_dispatch_order_from(plugins, ev, i + 1);
    }
}

/// The registration-order law for a whole dispatch.
pub proof fn lemma_dispatch_order(plugins: Seq<PluginEntry>, ev: HookEv)
    ensures
        spec_dispatch(plugins, ev) matches Some((k, e)) ==> {
            &&& 0 <= k < plugins.len()
            &&& applies(&plugins[k], ev)
            &&& outcome_of(&plugins[k], ev) == Some(e)
            &&& forall|j: int|
                0 <= j < k && applies(&plugins[j], ev) ==> outcome_of(&plugins[j], ev) is None
        },
        spec_dispatch(plugins, ev) is None ==> forall|j: int|
            0 <= j < plugins.len() && applies(&plugins[j], ev) ==> outcome_of(
                &plugins[j],
                ev,
            ) is None,
{
    lemma_dispatch_order_from(plugins, ev, 0);
}

/// Hook ordering: with observers registered in the order first, second,
/// third, all interested in the event's hook, where the first succeeds and
/// the second fails, dispatch reports the second observer's failure; and the
/// third observer is never consulted, in that the dispatch meaning is the
/// same whatever observer stands third.
pub proof fn lemma_first_failure_stops_dispatch(
    pipeline: Seq<PluginEntry>,
    other_pipeline: Seq<PluginEntry>,
    ev: HookEv,
    e: ApiError,
)
    requires
        pipeline.len() == 3,
        other_pipeline.len() == 3,
        other_pipeline[0] == pipeline[0],
        other_pipeline[1] == pipeline[1],
        applies(&pipeline[0], ev),
        applies(&pipeline[1], ev),
        outcome_of(&pipeline[0], ev) is None,
        outcome_of(&pipeline[1], ev) == Some(e),
    ensures
        spec_dispatch(pipeline, ev) == Some((1int, e)),
        spec_dispatch(pipeline, ev) == spec_dispatch(other_pipeline, ev),
{
    reveal_with_fuel(spec_dispatch_from, 3);
}


/// The pipeline itself: observers in registration order, consulted read-only
/// by every dispatch. Registration rejects a duplicate name, so one name
/// always denotes one observer.
pub struct PluginManager {
    pub plugins: Vec<PluginEntry>,
}

impl PluginManager {
    pub fn new() -> (r: PluginManager)
        ensures
            r.plugins@.len() == 0,
    {
        PluginManager { plugins: Vec::new() }
    }

    /// Adds an observer at the end of the pipeline. An observer whose name
    /// is already registered is rejected and the pipeline is unchanged.
    pub fn register_plugin(&mut self, entry: PluginEntry) -> (r: Result<(), ApiError>)
        ensures
            if exists|j: int|
                0 <= j < old(self).plugins@.len() && #[trigger] old(
                    self,
                ).plugins@[j].plugin.spec_name() == entry.plugin.spec_name() {
                &&& r matches Err(e) && e is Plugin
                &&& final(self).plugins@ == old(self).plugins@
            } else {
                &&& r is Ok
                &&& final(self).plugins@ == old(self).plugins@.push(entry)
            },
    {
        let name = entry.plugin.name();
        let mut i: usize = 0;
        while i < self.plugins.len()
            invariant
                0 <= i <= self.plugins@.len(),
                self.plugins == old(self).plugins,
                name@ == entry.plugin.spec_name(),
                forall|j: int|
                    0 <= j < i ==> #[trigger] self.plugins@[j].plugin.spec_name()
                        != entry.plugin.spec_name(),
            decreases self.plugins@.len() - i,
        {
            let existing = self.plugins[i].plugin.name();
            if existing == name {
                let mut msg = "duplicate plugin name: ".to_owned();
                msg.append(name.as_str());
                return Err(ApiError::Plugin(msg));
            }
            i += 1;
        }
        self.plugins.push(entry);
        Ok(())
    }

    /// Runs the interested observers for the pre-request hook, in
    /// registration order, stopping at the first failure.
    pub fn execute_pre_request(&self, url: &str) -> (r: Result<(), ApiError>)
        ensures
            dispatch_post(self.plugins@, HookEv::PreRequest { url: url@ }, r),
    {
        let ghost ev = HookEv::PreRequest { url: url@ };
        let context = PluginContext::new(PluginHook::PreRequest);
        let mut i: usize = 0;
        while i < self.plugins.len()
            invariant
                0 <= i <= self.plugins@.len(),
                ev == (HookEv::PreRequest { url: url@ }),
                spec_dispatch(self.plugins@, ev) == spec_dispatch_from(
                    self.plugins@,
                    ev,
                    i as int,
                ),
            decreases self.plugins@.len() - i,
        {
            let p = &self.plugins[i].plugin;
            if p.handles_hook(&PluginHook::PreRequest) {
                match p.handle_pre_request(url, &context) {
                    Ok(()) => {},
                    Err(e) => {
                        let plugin_name = p.name();
                        return Err(ApiError::HookFailure {
                            hook: PluginHook::PreRequest,
                            plugin_name,
                            cause: Box::new(e),
                        });
                    },
                }
            }
            i += 1;
        }
        Ok(())
    }

    /// Runs the interested observers for the post-request hook, in
    /// registration order, stopping at the first failure.
    pub fn execute_post_request(&self, url: &str, status: u16) -> (r: Result<(), ApiError>)
        ensures
            dispatch_post(self.plugins@, HookEv::PostRequest { url: url@, status }, r),
    {
        let ghost ev = HookEv::PostRequest { url: url@, status };
        let context = PluginContext::new(PluginHook::PostRequest);
        let mut i: usize = 0;
        while i < self.plugins.len()
            invariant
                0 <= i <= self.plugins@.len(),
                ev == (HookEv::PostRequest { url: url@, status }),
                spec_dispatch(self.plugins@, ev) == spec_dispatch_from(
                    self.plugins@,
                    ev,
                    i as int,
                ),
            decreases self.plugins@.len() - i,
        {
            let p = &self.plugins[i].plugin;
            if p.handles_hook(&PluginHook::PostRequest) {
                match p.handle_post_request(url, status, &context) {
                    Ok(()) => {},
                    Err(e) => {
                        let plugin_name = p.name();
                        return Err(ApiError::HookFailure {
                            hook: PluginHook::PostRequest,
                            plugin_name,
                            cause: Box::new(e),
                        });
                    },
                }
            }
            i += 1;
        }
        Ok(())
    }

    /// Runs the interested observers for the error hook, in registration
    /// order, stopping at the first failure.
    pub fn execute_error(&self, error: &ApiError) -> (r: Result<(), ApiError>)
        ensures
            dispatch_post(self.plugins@, HookEv::OnError { error: *error }, r),
    {
        let ghost ev = HookEv::OnError { error: *error };
        let context = PluginContext::new(PluginHook::OnError);
        let mut i: usize = 0;
        while i < self.plugins.len()
            invariant
                0 <= i <= self.plugins@.len(),
                ev == (HookEv::OnError { error: *error }),
                spec_dispatch(self.plugins@, ev) == spec_dispatch_from(
                    self.plugins@,
                    ev,
                    i as int,
                ),
            decreases self.plugins@.len() - i,
        {
            let p = &self.plugins[i].plugin;
            if p.handles_hook(&PluginHook::OnError) {
                match p.handle_error(error, &context) {
                    Ok(()) => {},
                    Err(e) => {
                        let plugin_name = p.name();
                        return Err(ApiError::HookFailure {
                            hook: PluginHook::OnError,
                            plugin_name,
                            cause: Box::new(e),
                        });
                    },
                }
            }
            i += 1;
        }
        Ok(())
    }

    /// Runs the interested observers for the retry hook with the upcoming
    /// attempt number, in registration order, stopping at the first failure.
    pub fn execute_retry(&self, attempt: u32) -> (r: Result<(), ApiError>)
        ensures
            dispatch_post(self.plugins@, HookEv::OnRetry { attempt }, r),
    {
        let ghost ev = HookEv::OnRetry { attempt };
        let context = PluginContext::new(PluginHook::OnRetry);
        let mut i: usize = 0;
        while i < self.plugins.len()
            invariant
                0 <= i <= self.plugins@.len(),
                ev == (HookEv::OnRetry { attempt }),
                spec_dispatch(self.plugins@, ev) == spec_dispatch_from(
                    self.plugins@,
                    ev,
                    i as int,
                ),
            decreases self.plugins@.len() - i,
        {
            let p = &self.plugins[i].plugin;
            if p.handles_hook(&PluginHook::OnRetry) {
                match p.handle_retry(attempt, &context) {
                    Ok(()) => {},
                    Err(e) => {
                        let plugin_name = p.name();
                        return Err(ApiError::HookFailure {
                            hook: PluginHook::OnRetry,
                            plugin_name,
                            cause: Box::new(e),
                        });
                    },
                }
            }
            i += 1;
        }
        Ok(())
    }

    /// Runs the interested observers for the pre-response hook, in
    /// registration order, stopping at the first failure.
    pub fn execute_pre_response(&self, status: u16) -> (r: Result<(), ApiError>)
        ensures
            dispatch_post(self.plugins@, HookEv::PreResponse { status }, r),
    {
        let ghost ev = HookEv::PreResponse { status };
        let context = PluginContext::new(PluginHook::PreResponse);
        let mut i: usize = 0;
        while i < self.plugins.len()
            invariant
                0 <= i <= self.plugins@.len(),
                ev == (HookEv::PreResponse { status }),
                spec_dispatch(self.plugins@, ev) == spec_dispatch_from(
                    self.plugins@,
                    ev,
                    i as int,
                ),
            decreases self.plugins@.len() - i,
        {
            let p = &self.plugins[i].plugin;
            if p.handles_hook(&PluginHook::PreResponse) {
                match p.handle_pre_response(status, &context) {
                    Ok(()) => {},
                    Err(e) => {
                        let plugin_name = p.name();
                        return Err(ApiError::HookFailure {
                            hook: PluginHook::PreResponse,
                            plugin_name,
                            cause: Box::new(e),
                        });
                    },
                }
            }
            i += 1;
        }
        Ok(())
    }

    /// Runs the interested observers for the post-response hook, in
    /// registration order, stopping at the first failure.
    pub fn execute_post_response(&self, body: &str) -> (r: Result<(), ApiError>)
        ensures
            dispatch_post(self.plugins@, HookEv::PostResponse { body: body@ }, r),
    {
        let ghost ev = HookEv::PostResponse { body: body@ };
        let context = PluginContext::new(PluginHook::PostResponse);
        let mut i: usize = 0;
        while i < self.plugins.len()
            invariant
                0 <= i <= self.plugins@.len(),
                ev == (HookEv::PostResponse { body: body@ }),
                spec_dispatch(self.plugins@, ev) == spec_dispatch_from(
                    self.plugins@,
                    ev,
                    i as int,
                ),
            decreases self.plugins@.len() - i,
        {
            let p = &self.plugins[i].plugin;
            if p.handles_hook(&PluginHook::PostResponse) {
                match p.handle_post_response(body, &context) {
                    Ok(()) => {},
                    Err(e) => {
                        let plugin_name = p.name();
                        return Err(ApiError::HookFailure {
                            hook: PluginHook::PostResponse,
                            plugin_name,
                            cause: Box::new(e),
                        });
                    },
                }
            }
            i += 1;
        }
        Ok(())
    }

    /// Runs the interested observers for the stream hook with one chunk, in
    /// registration order, stopping at the first failure.
    pub fn execute_stream(&self, chunk: &[u8]) -> (r: Result<(), ApiError>)
        ensures
            dispatch_post(self.plugins@, HookEv::OnStream { chunk: chunk@ }, r),
    {
        let ghost ev = HookEv::OnStream { chunk: chunk@ };
        let context = PluginContext::new(PluginHook::OnStream);
        let mut i: usize = 0;
        while i < self.plugins.len()
            invariant
                0 <= i <= self.plugins@.len(),
                ev == (HookEv::OnStream { chunk: chunk@ }),
                spec_dispatch(self.plugins@, ev) == spec_dispatch_from(
                    self.plugins@,
                    ev,
                    i as int,
                ),
            decreases self.plugins@.len() - i,
        {
            let p = &self.plugins[i].plugin;
            if p.handles_hook(&PluginHook::OnStream) {
                match p.handle_stream(chunk, &context) {
                    Ok(()) => {},
                    Err(e) => {
                        let plugin_name = p.name();
                        return Err(ApiError::HookFailure {
                            hook: PluginHook::OnStream,
                            plugin_name,
                            cause: Box::new(e),
                        });
                    },
                }
            }
            i += 1;
        }
        Ok(())
    }
}

impl Default for PluginManager {
    fn default() -> (r: PluginManager)
        ensures
            r.plugins@.len() == 0,
    {
        PluginManager::new()
    }
}

/// An observer of requests, responses and errors that always lets them
/// pass. The log output itself is the embedding program's concern; within
/// the pipeline this observer never fails a dispatch.
pub struct LoggingPlugin;

impl LoggingPlugin {
    pub fn new() -> LoggingPlugin {
        LoggingPlugin
    }
}

impl Plugin for LoggingPlugin {
    open spec fn spec_name(&self) -> Seq<char> {
        "logging"@
    }

    open spec fn spec_handles(&self, hook: PluginHook) -> bool {
        hook == PluginHook::PreRequest || hook == PluginHook::PostRequest
    }

    open spec fn pre_request_outcome(&self, url: Seq<char>) -> Option<ApiError> {
        None
    }

    open spec fn post_request_outcome(&self, url: Seq<char>, status: u16) -> Option<ApiError> {
        None
    }

    open spec fn error_outcome(&self, error: ApiError) -> Option<ApiError> {
        None
    }

    open spec fn retry_outcome(&self, attempt: u32) -> Option<ApiError> {
        None
    }

    open spec fn pre_response_outcome(&self, status: u16) -> Option<ApiError> {
        None
    }

    open spec fn post_response_outcome(&self, body: Seq<char>) -> Option<ApiError> {
        None
    }

    open spec fn stream_outcome(&self, chunk: Seq<u8>) -> Option<ApiError> {
        None
    }

    fn name(&self) -> String {
        "logging".to_owned()
    }

    fn version(&self) -> String {
        "1.0.0".to_owned()
    }

    fn description(&self) -> String {
        "Logs HTTP requests and responses".to_owned()
    }

    fn handles_hook(&self, hook: &PluginHook) -> bool {
        match hook {
            PluginHook::PreRequest => true,
            PluginHook::PostRequest => true,
            _ => false,
        }
    }

    fn handle_pre_request(&self, url: &str, context: &PluginContext) -> Result<(), ApiError> {
        Ok(())
    }

    fn handle_post_request(&self, url: &str, status: u16, context: &PluginContext) -> Result<
        (),
        ApiError,
    > {
        Ok(())
    }

    fn handle_error(&self, error: &ApiError, context: &PluginContext) -> Result<(), ApiError> {
        Ok(())
    }

    fn handle_retry(&self, attempt: u32, context: &PluginContext) -> Result<(), ApiError> {
        Ok(())
    }

    fn handle_pre_response(&self, status: u16, context: &PluginContext) -> Result<(), ApiError> {
        Ok(())
    }

    fn handle_post_response(&self, body: &str, context: &PluginContext) -> Result<(), ApiError> {
        Ok(())
    }

    fn handle_stream(&self, chunk: &[u8], context: &PluginContext) -> Result<(), ApiError> {
        Ok(())
    }
}

/// An observer that paces requests to a configured rate. The pipeline sees
/// an observer that never fails; the pacing arithmetic itself stands below
/// as exact functions of the clock values the embedding program reads.
pub struct RateLimitPlugin {
    pub requests_per_second: u32,
}

impl RateLimitPlugin {
    pub fn new(requests_per_second: u32) -> (r: RateLimitPlugin)
        ensures
            r.requests_per_second == requests_per_second,
    {
        RateLimitPlugin { requests_per_second }
    }

    /// The least spacing between two consecutive requests that keeps the
    /// configured rate, in whole milliseconds (rounded down).
    pub fn min_interval_ms(&self) -> (r: u64)
        requires
            self.requests_per_second >= 1,
        ensures
            r == 1000u64 / self.requests_per_second as u64,
    {
        1000u64 / (self.requests_per_second as u64)
    }

    /// How long a caller must still wait before the next request may start:
    /// what is left of the minimum interval since the last request, and zero
    /// when no request was made yet or the interval has already passed.
    pub fn delay_before_ms(&self, last_request_ms: Option<u64>, now_ms: u64) -> (r: u64)
        requires
            self.requests_per_second >= 1,
            last_request_ms matches Some(l) ==> l <= now_ms,
        ensures
            r == match last_request_ms {
                Option::None => 0u64,
                Option::Some(l) => {
                    let interval = 1000u64 / self.requests_per_second as u64;
                    if now_ms - l < interval {
                        (interval - (now_ms - l)) as u64
                    } else {
                        0u64
                    }
                },
            },
    {
        match last_request_ms {
            None => 0,
            Some(l) => {
                let interval = self.min_interval_ms();
                let elapsed = now_ms - l;
                if elapsed < interval {
                    interval - elapsed
                } else {
                    0
                }
            },
        }
    }
}

impl Plugin for RateLimitPlugin {
    open spec fn spec_name(&self) -> Seq<char> {
        "rate_limit"@
    }

    open spec fn spec_handles(&self, hook: PluginHook) -> bool {
        hook == PluginHook::PreRequest
    }

    open spec fn pre_request_outcome(&self, url: Seq<char>) -> Option<ApiError> {
        None
    }

    open spec fn post_request_outcome(&self, url: Seq<char>, status: u16) -> Option<ApiError> {
        None
    }

    open spec fn error_outcome(&self, error: ApiError) -> Option<ApiError> {
        None
    }

    open spec fn retry_outcome(&self, attempt: u32) -> Option<ApiError> {
        None
    }

    open spec fn pre_response_outcome(&self, status: u16) -> Option<ApiError> {
        None
    }

    open spec fn post_response_outcome(&self, body: Seq<char>) -> Option<ApiError> {
        None
    }

    open spec fn stream_outcome(&self, chunk: Seq<u8>) -> Option<ApiError> {
        None
    }

    fn name(&self) -> String {
        "rate_limit".to_owned()
    }

    fn version(&self) -> String {
        "1.0.0".to_owned()
    }

    fn description(&self) -> String {
        "Rate limits API requests".to_owned()
    }

    fn handles_hook(&self, hook: &PluginHook) -> bool {
        match hook {
            PluginHook::PreRequest => true,
            _ => false,
        }
    }

    fn handle_pre_request(&self, url: &str, context: &PluginContext) -> Result<(), ApiError> {
        Ok(())
    }

    fn handle_post_request(&self, url: &str, status: u16, context: &PluginContext) -> Result<
        (),
        ApiError,
    > {
        Ok(())
    }

    fn handle_error(&self, error: &ApiError, context: &PluginContext) -> Result<(), ApiError> {
        Ok(())
    }

    fn handle_retry(&self, attempt: u32, context: &PluginContext) -> Result<(), ApiError> {
        Ok(())
    }

    fn handle_pre_response(&self, status: u16, context: &PluginContext) -> Result<(), ApiError> {
        Ok(())
    }

    fn handle_post_response(&self, body: &str, context: &PluginContext) -> Result<(), ApiError> {
        Ok(())
    }

    fn handle_stream(&self, chunk: &[u8], context: &PluginContext) -> Result<(), ApiError> {
        Ok(())
    }
}

} // verus!

