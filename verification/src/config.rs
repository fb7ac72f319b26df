//! Configuration of the runtime: plain values the verified components read.
//! Loading and saving configuration files, and resolving platform
//! directories, are the embedding program's work; this module fixes the
//! shape of the values and their defaults.

use vstd::prelude::*;

verus! {

/// Settings of the request path: identification, deadlines and the retry
/// budget. Header keys in `default_headers` are looked up case-insensitively
/// with last-write-wins, as the request builder states.
#[derive(Debug)]
pub struct ClientConfig {
    pub user_agent: String,
    /// Seconds each network attempt may take.
    pub timeout: u64,
    pub max_retries: usize,
    /// Milliseconds between attempts.
    pub retry_delay: u64,
    pub default_headers: Vec<(String, String)>,
    pub base_url: Option<String>,
}

/// Settings of the storage collaborator: where files go and how large one
/// may grow.
#[derive(Debug)]
pub struct StorageConfig {
    pub base_path: String,
    pub temp_path: String,
    pub max_file_size: u64,
    pub cleanup_on_exit: bool,
}

/// Settings of the observer pipeline: which plugins to enable and their
/// open-ended per-plugin settings, carried through opaquely.
#[derive(Debug)]
pub struct PluginConfig {
    pub enabled_plugins: Vec<String>,
    pub plugin_paths: Vec<String>,
    pub plugin_settings: Vec<(String, serde_json::Value)>,
}

/// Settings of the transform chain: framing sizes and stream deadlines.
#[derive(Debug)]
pub struct StreamingConfig {
    pub buffer_size: usize,
    pub chunk_size: usize,
    pub max_concurrent_streams: usize,
    /// Seconds a stream may stay silent.
    pub stream_timeout: u64,
}

#[derive(Debug)]
pub struct Config {
    pub client: ClientConfig,
    pub storage: StorageConfig,
    pub plugins: PluginConfig,
    pub streaming: StreamingConfig,
}

impl Config {
    /// What every component assumes of a configuration: framing sizes are
    /// positive and the retry budget fits the attempt counter.
    pub open spec fn wf(&self) -> bool {
        &&& self.streaming.buffer_size >= 1
        &&& self.streaming.chunk_size >= 1
        &&& self.client.max_retries < u32::MAX
    }

    /// A configuration rooted at one directory, with every other setting at
    /// its default.
    pub fn new(base_path: String) -> (r: Config)
        ensures
            r.storage.base_path == base_path,
            r.storage.temp_path@ == base_path@,
            r.client.user_agent@ == "ModularApiClient/0.1.0"@,
            r.client.timeout == 30,
            r.client.max_retries == 3,
            r.client.retry_delay == 1000,
            r.client.default_headers@.len() == 0,
            r.client.base_url is None,
            r.storage.max_file_size == 104857600,
            r.storage.cleanup_on_exit,
            r.plugins.enabled_plugins@.len() == 0,
            r.streaming.buffer_size == 8192,
            r.streaming.chunk_size == 4096,
            r.streaming.max_concurrent_streams == 10,
            r.streaming.stream_timeout == 300,
            r.wf(),
    {
        let temp_path = clone_string(&base_path);
        Config {
            client: ClientConfig {
                user_agent: "ModularApiClient/0.1.0".to_owned(),
                timeout: 30,
                max_retries: 3,
                retry_delay: 1000,
                default_headers: Vec::new(),
                base_url: None,
            },
            storage: StorageConfig {
                base_path,
                temp_path,
                max_file_size: 104857600,
                cleanup_on_exit: true,
            },
            plugins: PluginConfig {
                enabled_plugins: Vec::new(),
                plugin_paths: Vec::new(),
                plugin_settings: Vec::new(),
            },
            streaming: StreamingConfig {
                buffer_size: 8192,
                chunk_size: 4096,
                max_concurrent_streams: 10,
                stream_timeout: 300,
            },
        }
    }

    pub fn data_dir(&self) -> (r: &String)
        ensures
            r == &self.storage.base_path,
    {
        &self.storage.base_path
    }

    pub fn cache_dir(&self) -> (r: &String)
        ensures
            r == &self.storage.temp_path,
    {
        &self.storage.temp_path
    }

    /// The network-attempt deadline, in seconds.
    pub fn timeout(&self) -> (r: u64)
        ensures
            r == self.client.timeout,
    {
        self.client.timeout
    }

    /// The pause between attempts, in milliseconds.
    pub fn retry_delay(&self) -> (r: u64)
        ensures
            r == self.client.retry_delay,
    {
        self.client.retry_delay
    }

    /// The stream-silence deadline, in seconds.
    pub fn stream_timeout(&self) -> (r: u64)
        ensures
            r == self.streaming.stream_timeout,
    {
        self.streaming.stream_timeout
    }
}

impl Default for Config {
    /// The default configuration roots storage in the current directory;
    /// embedding programs that know the platform's data directories put
    /// them in `storage` themselves.
    fn default() -> (r: Config)
        ensures
            r.storage.base_path@ == "."@,
            r.storage.temp_path@ == "."@,
            r.client.user_agent@ == "ModularApiClient/0.1.0"@,
            r.client.timeout == 30,
            r.client.max_retries == 3,
            r.client.retry_delay == 1000,
            r.client.default_headers@.len() == 0,
            r.client.base_url is None,
            r.storage.max_file_size == 104857600,
            r.storage.cleanup_on_exit,
            r.plugins.enabled_plugins@.len() == 0,
            r.streaming.buffer_size == 8192,
            r.streaming.chunk_size == 4096,
            r.streaming.max_concurrent_streams == 10,
            r.streaming.stream_timeout == 300,
            r.wf(),
    {
        Config::new(".".to_owned())
    }
}

fn clone_string(s: &String) -> (r: String)
    ensures
        r@ == s@,
{
    s.as_str().to_owned()
}

} // verus!
