use std::sync::Arc;

use kick::client::{check_status, ApiClient, ApiClientBuilder, HeaderMap, HttpMethod};
use kick::config::Config;
use kick::error::ApiError;
use kick::plugin::{LoggingPlugin, PluginEntry, PluginManager};

#[test]
fn test_api_client_creation() {
    let config = Config::new(".".to_string());
    let client = ApiClient::new(config);

    // Verify client was created successfully
    assert_eq!(client.config().client.max_retries, 3);
}

#[test]
fn test_client_with_plugins() {
    let config = Config::new(".".to_string());
    let mut plugin_manager = PluginManager::new();
    plugin_manager
        .register_plugin(PluginEntry { plugin: Arc::new(LoggingPlugin::new()) })
        .unwrap();

    let client = ApiClient::new(config).with_plugins(plugin_manager);

    // Verify plugin manager was integrated
    assert_eq!(client.plugin_manager().plugins.len(), 1);
}

#[test]
fn test_api_client_builder() {
    let config = Config::new(".".to_string());

    let client = ApiClientBuilder::new()
        .with_config(config)
        .with_user_agent("TestClient/1.0".to_string())
        .with_header("X-Test-Header".to_string(), "test-value".to_string())
        .build()
        .unwrap();

    // Verify client configuration
    assert_eq!(client.user_agent, "TestClient/1.0");
    assert_eq!(client.custom_headers.get("X-Test-Header"), Some(&"test-value".to_string()));
}

#[test]
fn test_builder_with_plugins() {
    let config = Config::new(".".to_string());

    let mut plugin_manager = PluginManager::new();
    plugin_manager
        .register_plugin(PluginEntry { plugin: Arc::new(LoggingPlugin::new()) })
        .unwrap();

    let client = ApiClientBuilder::new()
        .with_config(config)
        .with_plugin_manager(plugin_manager)
        .build()
        .unwrap();

    // Verify plugin manager was integrated
    assert_eq!(client.plugin_manager().plugins.len(), 1);
}

#[test]
fn test_download_json() {
    // Test deserializing a simple JSON structure
    let test_json = r#"{"test": "value", "number": 42}"#;

    // We can't easily test download_json without a mock server,
    // but we can test the JSON parsing logic separately
    let parsed: serde_json::Value = serde_json::from_str(test_json).unwrap();
    assert_eq!(parsed["test"], "value");
    assert_eq!(parsed["number"], 42);
}

#[test]
fn test_header_map_is_case_insensitive_last_write_wins() {
    let mut headers = HeaderMap::new();
    headers.insert("X-Custom".to_string(), "default-value".to_string());
    headers.insert("x-custom".to_string(), "override-value".to_string());
    assert_eq!(headers.len(), 1);
    assert_eq!(headers.get("X-CUSTOM"), Some(&"override-value".to_string()));

    headers.insert("Other".to_string(), "kept".to_string());
    assert_eq!(headers.get("other"), Some(&"kept".to_string()));
    assert_eq!(headers.get("missing"), None);
}

#[test]
fn test_prepare_request_headers() {
    let client = ApiClientBuilder::new()
        .with_user_agent("TestClient/1.0".to_string())
        .with_header("X-API-Key".to_string(), "secret-key".to_string())
        .build()
        .unwrap();

    let request = client.prepare_request(HttpMethod::Get, "https://example.com/get", None);
    assert!(matches!(request.method, HttpMethod::Get));
    assert_eq!(request.url, "https://example.com/get");
    assert!(request.body.is_none());
    assert_eq!(request.headers.get("user-agent"), Some(&"TestClient/1.0".to_string()));
    assert_eq!(request.headers.get("X-Api-Key"), Some(&"secret-key".to_string()));
    // No body, so no content type.
    assert_eq!(request.headers.get("content-type"), None);
}

#[test]
fn test_prepare_request_custom_headers_override_defaults() {
    let client = ApiClientBuilder::new()
        .with_user_agent("Default/1.0".to_string())
        .with_header("User-Agent".to_string(), "Override/2.0".to_string())
        .build()
        .unwrap();

    let request = client.prepare_request(HttpMethod::Get, "https://example.com", None);
    assert_eq!(request.headers.get("user-agent"), Some(&"Override/2.0".to_string()));
}

#[test]
fn test_prepare_json_request_encodes_body() {
    let client = ApiClientBuilder::new().build().unwrap();
    let data: serde_json::Value = serde_json::from_str(r#"{"test":"data"}"#).unwrap();

    let request = client
        .prepare_json_request(HttpMethod::Post, "https://example.com/post", &data)
        .unwrap();
    assert!(matches!(request.method, HttpMethod::Post));
    assert_eq!(request.headers.get("content-type"), Some(&"application/json".to_string()));
    let body = request.body.expect("a JSON request carries a body");
    assert_eq!(body, serde_json::to_vec(&data).unwrap());
}

#[test]
fn test_check_status_classification() {
    assert!(check_status(200).is_ok());
    assert!(check_status(299).is_ok());
    assert!(matches!(check_status(404), Err(ApiError::HttpStatus { status: 404 })));
    assert!(matches!(check_status(500), Err(ApiError::HttpStatus { status: 500 })));
    assert!(matches!(check_status(199), Err(ApiError::HttpStatus { status: 199 })));
    assert!(matches!(check_status(301), Err(ApiError::HttpStatus { status: 301 })));
}

#[test]
fn test_http_method_text() {
    assert_eq!(HttpMethod::Get.as_str(), "GET");
    assert_eq!(HttpMethod::Post.as_str(), "POST");
    assert_eq!(HttpMethod::Put.as_str(), "PUT");
    assert_eq!(HttpMethod::Patch.as_str(), "PATCH");
    assert_eq!(HttpMethod::Delete.as_str(), "DELETE");
}

#[test]
fn test_config_defaults_and_getters() {
    let config = Config::default();
    assert_eq!(config.storage.base_path, ".");
    assert_eq!(config.storage.temp_path, ".");
    assert_eq!(config.client.user_agent, "ModularApiClient/0.1.0");
    assert_eq!(config.client.timeout, 30);
    assert_eq!(config.client.max_retries, 3);
    assert_eq!(config.client.retry_delay, 1000);
    assert_eq!(config.timeout(), 30);
    assert_eq!(config.retry_delay(), 1000);
    assert_eq!(config.stream_timeout(), 300);
    assert_eq!(config.streaming.buffer_size, 8192);
    assert_eq!(config.streaming.chunk_size, 4096);
    assert_eq!(config.storage.max_file_size, 100 * 1024 * 1024);

    let rooted = Config::new("/tmp/data".to_string());
    assert_eq!(rooted.data_dir(), "/tmp/data");
    assert_eq!(rooted.cache_dir(), "/tmp/data");
}

#[test]
fn test_storage_stats_total() {
    let stats = kick::storage::StorageStats::new(100, 24);
    assert_eq!(stats.total_size, 124);
    assert!(kick::storage::within_size_limit(10, 5, 15));
    assert!(!kick::storage::within_size_limit(10, 6, 15));
}

#[test]
fn test_finish_attempt_sequencing() {
    let client = ApiClientBuilder::new().build().unwrap();

    // A transport failure passes through untouched.
    let r = client.finish_attempt("https://example.com", Err(ApiError::Timeout));
    assert!(matches!(r, Err(ApiError::Timeout)));

    // A success status yields the body.
    let r = client.finish_attempt("https://example.com", Ok((200, vec![104, 105])));
    assert_eq!(r.unwrap(), vec![104, 105]);

    // Any other status becomes the status error.
    let r = client.finish_attempt("https://example.com", Ok((404, vec![])));
    assert!(matches!(r, Err(ApiError::HttpStatus { status: 404 })));
}
