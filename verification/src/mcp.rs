//! Management of the system and model configuration (the MCP handler).
//!
//! A model's default threshold is an `f32`; it is held here by its bit
//! pattern (`f32::to_bits`). An update value carries what the JSON accessors
//! (`as_str`, `as_f64`, `as_array` of `as_u64`, `as_bool`, `as_u64`) give
//! for it, the `f64` already narrowed to an `f32` bit pattern.

use vstd::prelude::*;
use crate::strmap::StrMap;

verus! {

/// System-wide settings.
pub struct SystemConfiguration {
    pub server_port: u16,
    pub tls_cert_path: String,
    pub tls_key_path: String,
    pub data_path: String,
    pub backup_retention_days: u32,
    pub cache_size: usize,
    pub cache_ttl_seconds: u64,
    pub shard_count: u32,
    pub max_connections: u32,
    pub query_timeout_seconds: u64,
    pub enable_metrics: bool,
    pub log_level: String,
    /// Free-form parameters: key and JSON text.
    pub custom_parameters: Vec<(String, String)>,
}

/// Whether `c` holds the default settings.
pub open spec fn is_default_config(c: SystemConfiguration) -> bool {
    &&& c.server_port == 8443
    &&& c.tls_cert_path@ == "cert.pem"@
    &&& c.tls_key_path@ == "key.pem"@
    &&& c.data_path@ == "./data"@
    &&& c.backup_retention_days == 7
    &&& c.cache_size == 1000
    &&& c.cache_ttl_seconds == 3600
    &&& c.shard_count == 3
    &&& c.max_connections == 100
    &&& c.query_timeout_seconds == 30
    &&& c.enable_metrics
    &&& c.log_level@ == "info"@
    &&& c.custom_parameters@.len() == 0
}

impl Default for SystemConfiguration {
    /// Port 8443, `cert.pem`/`key.pem`, data in `./data`, seven days of
    /// backups, a cache of 1000 entries for an hour, three shards, 100
    /// connections, 30 s query timeout, metrics on, log level `info`.
    fn default() -> (c: Self)
        ensures
            is_default_config(c),
    {
        SystemConfiguration {
            server_port: 8443,
            tls_cert_path: String::from_str("cert.pem"),
            tls_key_path: String::from_str("key.pem"),
            data_path: String::from_str("./data"),
            backup_retention_days: 7,
            cache_size: 1000,
            cache_ttl_seconds: 3600,
            shard_count: 3,
            max_connections: 100,
            query_timeout_seconds: 30,
            enable_metrics: true,
            log_level: String::from_str("info"),
            custom_parameters: Vec::new(),
        }
    }
}

/// Search-optimisation settings of a model.
pub struct OptimizationSettings {
    pub enable_caching: bool,
    /// `LRU`, `LFU` or `FIFO`.
    pub cache_strategy: String,
    pub enable_parallel_search: bool,
    pub early_termination: bool,
    pub batch_size: usize,
}

/// Topology settings of a model.
pub struct TopologySettings {
    pub enable_toroidal_topology: bool,
    pub enable_ricci_flow: bool,
    pub ricci_iterations: usize,
    pub homotopy_class_tracking: bool,
}

/// Resource settings of a model.
pub struct PerformanceSettings {
    pub thread_pool_size: usize,
    pub memory_limit_mb: usize,
    pub disk_cache_enabled: bool,
    pub disk_cache_path: String,
}

/// The configuration of one embedding model.
pub struct ModelConfiguration {
    pub name: String,
    pub version: String,
    /// Supported dimensions.
    pub dimensions: Vec<u32>,
    /// Bit pattern of the `f32` default threshold.
    pub default_threshold_bits: u32,
    pub optimization_settings: OptimizationSettings,
    pub topology_settings: TopologySettings,
    pub performance_settings: PerformanceSettings,
}

/// Abstract value of a [`ModelConfiguration`].
pub struct ModelView {
    pub name: Seq<char>,
    pub version: Seq<char>,
    pub dimensions: Seq<u32>,
    pub default_threshold_bits: u32,
    pub enable_caching: bool,
    pub cache_strategy: Seq<char>,
    pub enable_parallel_search: bool,
    pub early_termination: bool,
    pub batch_size: usize,
    pub enable_toroidal_topology: bool,
    pub enable_ricci_flow: bool,
    pub ricci_iterations: usize,
    pub homotopy_class_tracking: bool,
    pub thread_pool_size: usize,
    pub memory_limit_mb: usize,
    pub disk_cache_enabled: bool,
    pub disk_cache_path: Seq<char>,
}

impl View for ModelConfiguration {
    type V = ModelView;

    open spec fn view(&self) -> ModelView {
        ModelView {
            name: self.name@,
            version: self.version@,
            dimensions: self.dimensions@,
            default_threshold_bits: self.default_threshold_bits,
            enable_caching: self.optimization_settings.enable_caching,
            cache_strategy: self.optimization_settings.cache_strategy@,
            enable_parallel_search: self.optimization_settings.enable_parallel_search,
            early_termination: self.optimization_settings.early_termination,
            batch_size: self.optimization_settings.batch_size,
            enable_toroidal_topology: self.topology_settings.enable_toroidal_topology,
            enable_ricci_flow: self.topology_settings.enable_ricci_flow,
            ricci_iterations: self.topology_settings.ricci_iterations,
            homotopy_class_tracking: self.topology_settings.homotopy_class_tracking,
            thread_pool_size: self.performance_settings.thread_pool_size,
            memory_limit_mb: self.performance_settings.memory_limit_mb,
            disk_cache_enabled: self.performance_settings.disk_cache_enabled,
            disk_cache_path: self.performance_settings.disk_cache_path@,
        }
    }
}

impl ModelConfiguration {
    /// A copy of the configuration.
    pub fn clone_model(&self) -> (r: Self)
        ensures
            r@ == self@,
    {
        let mut dims: Vec<u32> = Vec::new();
        let mut i: usize = 0;
        while i < self.dimensions.len()
            invariant
                i <= self.dimensions@.len(),
                dims@ == self.dimensions@.take(i as int),
            decreases self.dimensions@.len() - i,
        {
            dims.push(self.dimensions[i]);
            i = i + 1;
            assert(dims@ =~= self.dimensions@.take(i as int));
        }
        assert(self.dimensions@.take(self.dimensions@.len() as int) =~= self.dimensions@);
        ModelConfiguration {
            name: self.name.clone(),
            version: self.version.clone(),
            dimensions: dims,
            default_threshold_bits: self.default_threshold_bits,
            optimization_settings: OptimizationSettings {
                enable_caching: self.optimization_settings.enable_caching,
                cache_strategy: self.optimization_settings.cache_strategy.clone(),
                enable_parallel_search: self.optimization_settings.enable_parallel_search,
                early_termination: self.optimization_settings.early_termination,
                batch_size: self.optimization_settings.batch_size,
            },
            topology_settings: TopologySettings {
                enable_toroidal_topology: self.topology_settings.enable_toroidal_topology,
                enable_ricci_flow: self.topology_settings.enable_ricci_flow,
                ricci_iterations: self.topology_settings.ricci_iterations,
                homotopy_class_tracking: self.topology_settings.homotopy_class_tracking,
            },
            performance_settings: PerformanceSettings {
                thread_pool_size: self.performance_settings.thread_pool_size,
                memory_limit_mb: self.performance_settings.memory_limit_mb,
                disk_cache_enabled: self.performance_settings.disk_cache_enabled,
                disk_cache_path: self.performance_settings.disk_cache_path.clone(),
            },
        }
    }
}

/// What the JSON accessors give for one update value.
pub struct UpdateValue {
    /// `as_str`.
    pub as_str: Option<String>,
    /// `as_f64`, narrowed to `f32` and taken as its bit pattern.
    pub as_f32_bits: Option<u32>,
    /// `as_array`, each element through `as_u64`.
    pub as_u64_array: Option<Vec<Option<u64>>>,
    /// `as_bool`.
    pub as_bool: Option<bool>,
    /// `as_u64`.
    pub as_u64: Option<u64>,
}

/// Abstract value of an [`UpdateValue`].
pub struct UpdateView {
    pub as_str: Option<Seq<char>>,
    pub as_f32_bits: Option<u32>,
    pub as_u64_array: Option<Seq<Option<u64>>>,
    pub as_bool: Option<bool>,
    pub as_u64: Option<u64>,
}

impl View for UpdateValue {
    type V = UpdateView;

    open spec fn view(&self) -> UpdateView {
        UpdateView {
            as_str: match self.as_str { Some(s) => Some(s@), None => None },
            as_f32_bits: self.as_f32_bits,
            as_u64_array: match self.as_u64_array { Some(a) => Some(a@), None => None },
            as_bool: self.as_bool,
            as_u64: self.as_u64,
        }
    }
}

/// Whether every element of `a` is a number.
pub open spec fn all_numbers(a: Seq<Option<u64>>) -> bool {
    forall|i: int| 0 <= i < a.len() ==> (#[trigger] a[i]) is Some
}

/// The dimensions an all-number array gives (each truncated to 32 bits).
pub open spec fn as_dimensions(a: Seq<Option<u64>>) -> Seq<u32> {
    a.map_values(|x: Option<u64>| x.unwrap() as u32)
}

/// `m` after the update of `key` to `v`: a known key whose value has the
/// right kind sets its field; anything else leaves `m` as it is.
pub open spec fn apply_update(m: ModelView, key: Seq<char>, v: UpdateView) -> ModelView {
    if key == "version"@ {
        match v.as_str { Some(s) => ModelView { version: s, ..m }, None => m }
    } else if key == "default_threshold"@ {
        match v.as_f32_bits { Some(b) => ModelView { default_threshold_bits: b, ..m }, None => m }
    } else if key == "dimensions"@ {
        match v.as_u64_array {
            Some(a) => if all_numbers(a) { ModelView { dimensions: as_dimensions(a), ..m } } else { m },
            None => m,
        }
    } else if key == "enable_caching"@ {
        match v.as_bool { Some(b) => ModelView { enable_caching: b, ..m }, None => m }
    } else if key == "cache_strategy"@ {
        match v.as_str { Some(s) => ModelView { cache_strategy: s, ..m }, None => m }
    } else if key == "enable_parallel_search"@ {
        match v.as_bool { Some(b) => ModelView { enable_parallel_search: b, ..m }, None => m }
    } else if key == "early_termination"@ {
        match v.as_bool { Some(b) => ModelView { early_termination: b, ..m }, None => m }
    } else if key == "batch_size"@ {
        match v.as_u64 { Some(n) => ModelView { batch_size: n as usize, ..m }, None => m }
    } else if key == "enable_toroidal_topology"@ {
        match v.as_bool { Some(b) => ModelView { enable_toroidal_topology: b, ..m }, None => m }
    } else if key == "enable_ricci_flow"@ {
        match v.as_bool { Some(b) => ModelView { enable_ricci_flow: b, ..m }, None => m }
    } else if key == "ricci_iterations"@ {
        match v.as_u64 { Some(n) => ModelView { ricci_iterations: n as usize, ..m }, None => m }
    } else if key == "thread_pool_size"@ {
        match v.as_u64 { Some(n) => ModelView { thread_pool_size: n as usize, ..m }, None => m }
    } else if key == "memory_limit_mb"@ {
        match v.as_u64 { Some(n) => ModelView { memory_limit_mb: n as usize, ..m }, None => m }
    } else if key == "disk_cache_enabled"@ {
        match v.as_bool { Some(b) => ModelView { disk_cache_enabled: b, ..m }, None => m }
    } else if key == "disk_cache_path"@ {
        match v.as_str { Some(s) => ModelView { disk_cache_path: s, ..m }, None => m }
    } else {
        m
    }
}

/// `m` after the updates `us`, applied in order.
pub open spec fn apply_updates(m: ModelView, us: Seq<(Seq<char>, UpdateView)>) -> ModelView
    decreases us.len(),
{
    if us.len() == 0 {
        m
    } else {
        apply_update(apply_updates(m, us.drop_last()), us.last().0, us.last().1)
    }
}

/// The updates as abstract values.
pub open spec fn updates_view(us: Seq<(String, UpdateValue)>) -> Seq<(Seq<char>, UpdateView)> {
    us.map_values(|p: (String, UpdateValue)| (p.0@, p.1@))
}

fn is_key(key: &String, lit: &str) -> (b: bool)
    ensures
        b == (key@ == lit@),
{
    let l = String::from_str(lit);
    key.eq(&l)
}

/// The dimensions an array of `as_u64` results gives, or `None` when some
/// element is not a number.
fn dimensions_from(a: &Vec<Option<u64>>) -> (r: Option<Vec<u32>>)
    ensures
        match r {
            Some(d) => all_numbers(a@) && d@ == as_dimensions(a@),
            None => !all_numbers(a@),
        },
{
    let mut dims: Vec<u32> = Vec::new();
    let mut i: usize = 0;
    while i < a.len()
        invariant
            i <= a@.len(),
            all_numbers(a@.take(i as int)),
            dims@ == as_dimensions(a@.take(i as int)),
        decreases a@.len() - i,
    {
        match a[i] {
            Some(x) => {
                dims.push(x as u32);
                proof {
                    assert(a@.take(i + 1) =~= a@.take(i as int).push(a@[i as int]));
                    assert(dims@ =~= as_dimensions(a@.take(i + 1)));
                    assert forall|j: int| 0 <= j < i + 1 implies (#[trigger] a@.take(i + 1)[j]) is Some by {
                        if j < i {
                            assert(a@.take(i + 1)[j] == a@.take(i as int)[j]);
                        }
                    }
                }
            },
            None => {
                return None;
            },
        }
        i = i + 1;
    }
    assert(a@.take(a@.len() as int) =~= a@);
    Some(dims)
}

/// Applies one update to `m` (see [`apply_update`]).
#[verifier::rlimit(40)]
fn update_one(m: &mut ModelConfiguration, key: &String, v: UpdateValue)
    ensures
        final(m)@ == apply_update(old(m)@, key@, v@),
{
    if is_key(key, "version") {
        if let Some(s) = v.as_str {
            m.version = s;
        }
    } else if is_key(key, "default_threshold") {
        if let Some(b) = v.as_f32_bits {
            m.default_threshold_bits = b;
        }
    } else if is_key(key, "dimensions") {
        if let Some(a) = v.as_u64_array {
            if let Some(dims) = dimensions_from(&a) {
                m.dimensions = dims;
            }
        }
    } else if is_key(key, "enable_caching") {
        if let Some(b) = v.as_bool {
            m.optimization_settings.enable_caching = b;
        }
    } else if is_key(key, "cache_strategy") {
        if let Some(s) = v.as_str {
            m.optimization_settings.cache_strategy = s;
        }
    } else if is_key(key, "enable_parallel_search") {
        if let Some(b) = v.as_bool {
            m.optimization_settings.enable_parallel_search = b;
        }
    } else if is_key(key, "early_termination") {
        if let Some(b) = v.as_bool {
            m.optimization_settings.early_termination = b;
        }
    } else if is_key(key, "batch_size") {
        if let Some(n) = v.as_u64 {
            m.optimization_settings.batch_size = n as usize;
        }
    } else if is_key(key, "enable_toroidal_topology") {
        if let Some(b) = v.as_bool {
            m.topology_settings.enable_toroidal_topology = b;
        }
    } else if is_key(key, "enable_ricci_flow") {
        if let Some(b) = v.as_bool {
            m.topology_settings.enable_ricci_flow = b;
        }
    } else if is_key(key, "ricci_iterations") {
        if let Some(n) = v.as_u64 {
            m.topology_settings.ricci_iterations = n as usize;
        }
    } else if is_key(key, "thread_pool_size") {
        if let Some(n) = v.as_u64 {
            m.performance_settings.thread_pool_size = n as usize;
        }
    } else if is_key(key, "memory_limit_mb") {
        if let Some(n) = v.as_u64 {
            m.performance_settings.memory_limit_mb = n as usize;
        }
    } else if is_key(key, "disk_cache_enabled") {
        if let Some(b) = v.as_bool {
            m.performance_settings.disk_cache_enabled = b;
        }
    } else if is_key(key, "disk_cache_path") {
        if let Some(s) = v.as_str {
            m.performance_settings.disk_cache_path = s;
        }
    }
}

/// The text `a` followed by `b`.
fn concat_str(a: &str, b: &str) -> (r: String)
    ensures
        r@ == a@ + b@,
{
    let mut r = String::from_str(a);
    r.append(b);
    r
}

/// Holder of the system configuration and of the model configurations,
/// keyed by model name.
pub struct MCPHandler {
    pub config: SystemConfiguration,
    pub models: StrMap<ModelConfiguration>,
}

impl MCPHandler {
    /// Default system settings and no models.
    pub fn new() -> (h: Self)
        ensures
            is_default_config(h.config),
            h.models.spec_map() == Map::<Seq<char>, ModelConfiguration>::empty(),
    {
        MCPHandler { config: SystemConfiguration::default(), models: StrMap::new() }
    }

    /// The system settings.
    pub fn get_system_config(&self) -> (c: &SystemConfiguration)
        ensures
            *c == self.config,
    {
        &self.config
    }

    /// Replaces the system settings.
    pub fn update_system_config(&mut self, new_config: SystemConfiguration) -> (r: Result<(), String>)
        ensures
            r is Ok,
            final(self).config == new_config,
            final(self).models == old(self).models,
    {
        self.config = new_config;
        Ok(())
    }

    /// A copy of the configuration of model `model_name`, if there is one.
    pub fn get_model_config(&self, model_name: &str) -> (r: Option<ModelConfiguration>)
        ensures
            match r {
                Some(m) => self.models.spec_map().contains_key(model_name@)
                    && m@ == self.models.spec_map()[model_name@]@,
                None => !self.models.spec_map().contains_key(model_name@),
            },
    {
        match self.models.get(model_name) {
            Some(m) => Some(m.clone_model()),
            None => None,
        }
    }

    /// Stores `model_config` under its name, replacing any earlier one.
    pub fn set_model_config(&mut self, model_config: ModelConfiguration) -> (r: Result<(), String>)
        ensures
            r is Ok,
            final(self).config == old(self).config,
            final(self).models.spec_map() == old(self).models.spec_map().insert(model_config.name@, model_config),
    {
        let name = model_config.name.clone();
        self.models.insert(name, model_config);
        Ok(())
    }

    /// The names of the stored models, each once.
    pub fn list_models(&self) -> (r: Vec<String>)
        ensures
            r@.map_values(|s: String| s@).no_duplicates(),
            r@.map_values(|s: String| s@).to_set() == self.models.spec_map().dom(),
    {
        self.models.keys()
    }

    /// Applies `updates`, in order, to model `model_name` (see
    /// [`apply_update`]); fails with `Model <name> not found` when there is
    /// no such model.
    pub fn update_model_config(&mut self, model_name: &str, updates: Vec<(String, UpdateValue)>) -> (r: Result<(), String>)
        ensures
            final(self).config == old(self).config,
            old(self).models.spec_map().contains_key(model_name@) <==> r is Ok,
            match r {
                Ok(()) => {
                    &&& final(self).models.spec_map().dom() == old(self).models.spec_map().dom()
                    &&& forall|k: Seq<char>| old(self).models.spec_map().contains_key(k) && k != model_name@
                        ==> #[trigger] final(self).models.spec_map()[k]
                        == old(self).models.spec_map()[k]
                    &&& final(self).models.spec_map()[model_name@]@ == apply_updates(
                        old(self).models.spec_map()[model_name@]@,
                        updates_view(updates@),
                    )
                },
                Err(e) => {
                    &&& e@ == "Model "@ + model_name@ + " not found"@
                    &&& final(self).models.spec_map() == old(self).models.spec_map()
                },
            },
    {
        match self.models.remove(model_name) {
            None => {
                let e = concat_str("Model ", model_name);
                let e2 = concat_str(e.as_str(), " not found");
                Err(e2)
            },
            Some(m) => {
                let ghost m0 = m@;
                let ghost us = updates_view(updates@);
                let mut m = m;
                let mut updates = updates;
                let n = updates.len();
                let mut i: usize = 0;
                while i < n
                    invariant
                        n == updates@.len() + i,
                        updates_view(updates@) == us.subrange(i as int, n as int),
                        us.len() == n,
                        m@ == apply_updates(m0, us.take(i as int)),
                    decreases n - i,
                {
                    let ghost before = updates@;
                    let (key, v) = updates.remove(0);
                    proof {
                        assert(us.take(i + 1).drop_last() =~= us.take(i as int));
                        assert(updates_view(before)[0] == (before[0].0@, before[0].1@));
                        assert(us.subrange(i as int, n as int)[0] == us[i as int]);
                        assert(us.take(i + 1).last() == (key@, v@));
                        assert(updates_view(updates@) =~= us.subrange(i + 1, n as int)) by {
                            assert forall|j: int| 0 <= j < updates@.len() implies
                                #[trigger] updates_view(updates@)[j] == us.subrange(i + 1, n as int)[j] by {
                                assert(updates@[j] == before[j + 1]);
                                assert(updates_view(before)[j + 1] == us.subrange(i as int, n as int)[j + 1]);
                            }
                        }
                    }
                    update_one(&mut m, &key, v);
                    i = i + 1;
                }
                proof {
                    assert(us.take(n as int) =~= us);
                }
                let ghost before = self.models.spec_map();
                let name = String::from_str(model_name);
                self.models.insert(name, m);
                proof {
                    assert(self.models.spec_map().dom() =~= before.dom().insert(model_name@));
                    assert(self.models.spec_map().dom() =~= old(self).models.spec_map().dom());
                }
                Ok(())
            },
        }
    }

    /// Restores the default system settings and forgets every model.
    pub fn reset_to_defaults(&mut self) -> (r: Result<(), String>)
        ensures
            r is Ok,
            is_default_config(final(self).config),
            final(self).models.spec_map() == Map::<Seq<char>, ModelConfiguration>::empty(),
    {
        self.config = SystemConfiguration::default();
        self.models = StrMap::new();
        Ok(())
    }

    /// Checks the system settings, given whether the certificate and key
    /// files exist: the port must be 1024 or above, both files must exist,
    /// and the cache size, cache lifetime and shard count must be positive.
    /// The first failing check gives the error.
    pub fn validate_config(&self, cert_exists: bool, key_exists: bool) -> (r: Result<bool, String>)
        ensures
            ({
                let c = self.config;
                if c.server_port < 1024 {
                    r matches Err(e) && e@ == "Server port must be between 1024 and 65535"@
                } else if !cert_exists {
                    r matches Err(e) && e@ == "TLS certificate file does not exist: "@ + c.tls_cert_path@
                } else if !key_exists {
                    r matches Err(e) && e@ == "TLS key file does not exist: "@ + c.tls_key_path@
                } else if c.cache_size == 0 {
                    r matches Err(e) && e@ == "Cache size must be greater than 0"@
                } else if c.cache_ttl_seconds == 0 {
                    r matches Err(e) && e@ == "Cache TTL must be greater than 0"@
                } else if c.shard_count == 0 {
                    r matches Err(e) && e@ == "Shard count must be greater than 0"@
                } else {
                    r == Ok::<bool, String>(true)
                }
            }),
    {
        let c = &self.config;
        if c.server_port < 1024 {
            return Err(String::from_str("Server port must be between 1024 and 65535"));
        }
        if !cert_exists {
            return Err(concat_str("TLS certificate file does not exist: ", c.tls_cert_path.as_str()));
        }
        if !key_exists {
            return Err(concat_str("TLS key file does not exist: ", c.tls_key_path.as_str()));
        }
        if c.cache_size == 0 {
            return Err(String::from_str("Cache size must be greater than 0"));
        }
        if c.cache_ttl_seconds == 0 {
            return Err(String::from_str("Cache TTL must be greater than 0"));
        }
        if c.shard_count == 0 {
            return Err(String::from_str("Shard count must be greater than 0"));
        }
        Ok(true)
    }
}

} // verus!
