use std::sync::Arc;
use std::sync::atomic::{AtomicUsize, Ordering};

use kick::error::ApiError;
use kick::plugin::{
    LoggingPlugin, Plugin, PluginContext, PluginEntry, PluginHook, PluginManager, RateLimitPlugin,
};

/// An observer for these tests: counts its invocations and fails the
/// pre-request hook on demand.
struct CountingPlugin {
    name: String,
    fail_pre_request: bool,
    calls: Arc<AtomicUsize>,
}

impl Plugin for CountingPlugin {
    fn name(&self) -> String {
        self.name.clone()
    }

    fn version(&self) -> String {
        "1.0.0".to_string()
    }

    fn description(&self) -> String {
        "counts invocations".to_string()
    }

    fn handles_hook(&self, hook: &PluginHook) -> bool {
        matches!(hook, PluginHook::PreRequest)
    }

    fn handle_pre_request(&self, _url: &str, _context: &PluginContext) -> Result<(), ApiError> {
        self.calls.fetch_add(1, Ordering::SeqCst);
        if self.fail_pre_request {
            Err(ApiError::Plugin(format!("{} failed", self.name)))
        } else {
            Ok(())
        }
    }

    fn handle_post_request(
        &self,
        _url: &str,
        _status: u16,
        _context: &PluginContext,
    ) -> Result<(), ApiError> {
        Ok(())
    }

    fn handle_error(&self, _error: &ApiError, _context: &PluginContext) -> Result<(), ApiError> {
        Ok(())
    }

    fn handle_retry(&self, _attempt: u32, _context: &PluginContext) -> Result<(), ApiError> {
        Ok(())
    }

    fn handle_pre_response(&self, _status: u16, _context: &PluginContext) -> Result<(), ApiError> {
        Ok(())
    }

    fn handle_post_response(&self, _body: &str, _context: &PluginContext) -> Result<(), ApiError> {
        Ok(())
    }

    fn handle_stream(&self, _chunk: &[u8], _context: &PluginContext) -> Result<(), ApiError> {
        Ok(())
    }
}

fn counting(name: &str, fail: bool) -> (PluginEntry, Arc<AtomicUsize>) {
    let calls = Arc::new(AtomicUsize::new(0));
    let entry = PluginEntry {
        plugin: Arc::new(CountingPlugin {
            name: name.to_string(),
            fail_pre_request: fail,
            calls: calls.clone(),
        }),
    };
    (entry, calls)
}

#[test]
fn test_plugin_manager_creation() {
    let manager = PluginManager::new();
    assert_eq!(manager.plugins.len(), 0);
}

#[test]
fn test_plugin_registration() {
    let mut manager = PluginManager::new();
    let entry = PluginEntry { plugin: Arc::new(LoggingPlugin::new()) };

    assert!(manager.register_plugin(entry).is_ok());
    assert_eq!(manager.plugins.len(), 1);
}

#[test]
fn test_plugin_execution() {
    let mut manager = PluginManager::new();
    manager
        .register_plugin(PluginEntry { plugin: Arc::new(LoggingPlugin::new()) })
        .unwrap();

    assert!(manager.execute_pre_request("https://test.com").is_ok());
    assert!(manager.execute_post_request("https://test.com", 200).is_ok());
}

#[test]
fn test_duplicate_plugin_name_rejected() {
    let mut manager = PluginManager::new();
    manager
        .register_plugin(PluginEntry { plugin: Arc::new(LoggingPlugin::new()) })
        .unwrap();
    let err = manager
        .register_plugin(PluginEntry { plugin: Arc::new(LoggingPlugin::new()) })
        .unwrap_err();
    assert!(matches!(err, ApiError::Plugin(_)));
    assert_eq!(manager.plugins.len(), 1);

    // A different name still registers.
    manager
        .register_plugin(PluginEntry { plugin: Arc::new(RateLimitPlugin::new(10)) })
        .unwrap();
    assert_eq!(manager.plugins.len(), 2);
}

#[test]
fn test_hook_ordering_first_failure_wins() {
    let mut manager = PluginManager::new();
    let (a, a_calls) = counting("a", false);
    let (b, b_calls) = counting("b", true);
    let (c, c_calls) = counting("c", false);
    manager.register_plugin(a).unwrap();
    manager.register_plugin(b).unwrap();
    manager.register_plugin(c).unwrap();

    let err = manager.execute_pre_request("https://test.com").unwrap_err();
    match err {
        ApiError::HookFailure { hook, plugin_name, cause } => {
            assert!(matches!(hook, PluginHook::PreRequest));
            assert_eq!(plugin_name, "b");
            assert!(matches!(*cause, ApiError::Plugin(m) if m == "b failed"));
        }
        other => panic!("expected a hook failure, got {:?}", other),
    }

    // The first observer ran, the failing one ran, the one after it never did.
    assert_eq!(a_calls.load(Ordering::SeqCst), 1);
    assert_eq!(b_calls.load(Ordering::SeqCst), 1);
    assert_eq!(c_calls.load(Ordering::SeqCst), 0);
}

#[test]
fn test_uninterested_observer_is_skipped() {
    let mut manager = PluginManager::new();
    let (a, a_calls) = counting("a", false);
    manager.register_plugin(a).unwrap();

    // The observer declares interest in the pre-request hook only, so the
    // retry dispatch never consults it.
    assert!(manager.execute_retry(1).is_ok());
    assert_eq!(a_calls.load(Ordering::SeqCst), 0);

    assert!(manager.execute_pre_request("https://test.com").is_ok());
    assert_eq!(a_calls.load(Ordering::SeqCst), 1);
}

#[test]
fn test_plugin_context_metadata() {
    let ctx = PluginContext::new(PluginHook::OnRetry)
        .with_metadata("attempt".to_string(), "2".to_string());
    assert!(matches!(ctx.hook, PluginHook::OnRetry));
    assert_eq!(ctx.metadata.len(), 1);
    assert_eq!(ctx.metadata[0].0, "attempt");
    assert_eq!(ctx.metadata[0].1, "2");
}

#[test]
fn test_rate_limit_plugin_delay() {
    let plugin = RateLimitPlugin::new(4);
    assert_eq!(plugin.min_interval_ms(), 250);

    // No earlier request: no wait.
    assert_eq!(plugin.delay_before_ms(None, 1000), 0);
    // The last request was 100 ms ago: wait out the rest of the interval.
    assert_eq!(plugin.delay_before_ms(Some(900), 1000), 150);
    // The interval has passed: no wait.
    assert_eq!(plugin.delay_before_ms(Some(700), 1000), 0);
}
