use vstd::prelude::*;

verus! {

/// Configuration of the whole store: storage paths and intervals, the
/// network server, the write ceilings, and the (unenforced) TTL settings.
#[derive(Debug, Clone)]
pub struct KlineConfig {
    pub storage: StorageConfig,
    pub server: ServerConfig,
    pub limits: LimitsConfig,
    pub ttl: TtlConfig,
}

#[derive(Debug, Clone)]
pub struct StorageConfig {
    pub data_dir: String,
    pub compaction_interval_secs: u64,
    pub max_log_size_mb: u64,
}

#[derive(Debug, Clone)]
pub struct ServerConfig {
    pub port: u16,
    pub bind_address: String,
    pub max_connections: usize,
}

#[derive(Debug, Clone)]
pub struct LimitsConfig {
    pub max_key_size: usize,
    pub max_value_size: usize,
    pub max_keys: usize,
}

#[derive(Debug, Clone)]
pub struct TtlConfig {
    pub cleanup_interval_secs: u64,
    pub default_ttl_secs: Option<u64>,
    pub max_ttl_secs: u64,
}

/// The built-in configuration used when no file and no overrides are given.
pub open spec fn is_default_config(c: KlineConfig) -> bool {
    &&& c.storage.data_dir@ == "./data"@
    &&& c.storage.compaction_interval_secs == 60
    &&& c.storage.max_log_size_mb == 100
    &&& c.server.port == 3000
    &&& c.server.bind_address@ == "127.0.0.1"@
    &&& c.server.max_connections == 1000
    &&& c.limits.max_key_size == 1024
    &&& c.limits.max_value_size == 10485760
    &&& c.limits.max_keys == 1000000
    &&& c.ttl.cleanup_interval_secs == 30
    &&& c.ttl.default_ttl_secs is None
    &&& c.ttl.max_ttl_secs == 86400 * 365
}

/// `r` is `base` with the given overrides applied to the port, the data
/// directory and the bind address, every other field kept.
pub open spec fn config_with_overrides(
    base: KlineConfig,
    port: Option<u16>,
    data_dir: Option<String>,
    bind_address: Option<String>,
    r: KlineConfig,
) -> bool {
    &&& r.server.port == (match port {
        Some(p) => p,
        None => base.server.port,
    })
    &&& r.storage.data_dir == (match data_dir {
        Some(d) => d,
        None => base.storage.data_dir,
    })
    &&& r.server.bind_address == (match bind_address {
        Some(b) => b,
        None => base.server.bind_address,
    })
    &&& r.storage.compaction_interval_secs == base.storage.compaction_interval_secs
    &&& r.storage.max_log_size_mb == base.storage.max_log_size_mb
    &&& r.server.max_connections == base.server.max_connections
    &&& r.limits == base.limits
    &&& r.ttl == base.ttl
}

impl Default for KlineConfig {
    fn default() -> (r: Self)
        ensures
            is_default_config(r),
    {
        KlineConfig {
            storage: StorageConfig {
                data_dir: "./data".to_owned(),
                compaction_interval_secs: 60,
                max_log_size_mb: 100,
            },
            server: ServerConfig {
                port: 3000,
                bind_address: "127.0.0.1".to_owned(),
                max_connections: 1000,
            },
            limits: LimitsConfig {
                max_key_size: 1024,
                max_value_size: 10485760,
                max_keys: 1000000,
            },
            ttl: TtlConfig { cleanup_interval_secs: 30, default_ttl_secs: None, max_ttl_secs: 86400 * 365 },
        }
    }
}

impl KlineConfig {
    /// Builds the session configuration: the file's configuration if one was
    /// read, the defaults otherwise, with the environment overrides applied.
    /// The caller reads the file and the environment and hands the results in.
    pub fn load(
        file_config: Option<KlineConfig>,
        port: Option<u16>,
        data_dir: Option<String>,
        bind_address: Option<String>,
    ) -> (r: KlineConfig)
        ensures
            (match file_config {
                Some(c) => config_with_overrides(c, port, data_dir, bind_address, r),
                None => exists|base: KlineConfig|
                    is_default_config(base) && config_with_overrides(
                        base,
                        port,
                        data_dir,
                        bind_address,
                        r,
                    ),
            }),
    {
        let mut config = match file_config {
            Some(c) => c,
            None => KlineConfig::default(),
        };
        let ghost base = config;
        config.apply_env_vars(port, data_dir, bind_address);
        proof {
            assert(config_with_overrides(base, port, data_dir, bind_address, config));
        }
        config
    }

    /// Applies overrides drawn from the environment: the port, the data
    /// directory and the bind address, each only where one was set.
    pub fn apply_env_vars(
        &mut self,
        port: Option<u16>,
        data_dir: Option<String>,
        bind_address: Option<String>,
    )
        ensures
            config_with_overrides(*old(self), port, data_dir, bind_address, *final(self)),
    {
        match port {
            Some(p) => {
                self.server.port = p;
            },
            None => {},
        }
        match data_dir {
            Some(d) => {
                self.storage.data_dir = d;
            },
            None => {},
        }
        match bind_address {
            Some(b) => {
                self.server.bind_address = b;
            },
            None => {},
        }
    }
}

} // verus!
