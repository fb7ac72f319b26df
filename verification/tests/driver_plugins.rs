use std::sync::Arc;

use kick::driver::{DriverEntry, DriverPlugin, DriverPluginManager, LoggingPlugin};
use kick::error::ApiError;

#[test]
fn test_plugin_manager() {
    let mut manager = DriverPluginManager::new();
    manager.add_plugin(DriverEntry { plugin: Arc::new(LoggingPlugin) });

    // Test plugin execution doesn't panic
    assert!(manager.before_request("https://test.com").is_ok());
    assert!(manager.after_response("https://test.com", 200).is_ok());
}

/// An observer that refuses every request.
struct RefusingPlugin;

impl DriverPlugin for RefusingPlugin {
    fn name(&self) -> String {
        "refuser".to_string()
    }

    fn before_request(&self, _url: &str) -> Result<(), ApiError> {
        Err(ApiError::Plugin("refused".to_string()))
    }

    fn after_response(&self, _url: &str, _status: u16) -> Result<(), ApiError> {
        Ok(())
    }
}

#[test]
fn test_driver_failure_comes_back_verbatim() {
    let mut manager = DriverPluginManager::new();
    manager.add_plugin(DriverEntry { plugin: Arc::new(LoggingPlugin) });
    manager.add_plugin(DriverEntry { plugin: Arc::new(RefusingPlugin) });

    let err = manager.before_request("https://test.com").unwrap_err();
    assert!(matches!(err, ApiError::Plugin(m) if m == "refused"));
    assert!(manager.after_response("https://test.com", 200).is_ok());
}
