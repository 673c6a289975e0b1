//! Configuration of a memory database.
use vstd::prelude::*;
use crate::float::{f32_bits_unit_clamp, f32_unit_clamp};
use crate::memory::opt_view;
use crate::scope::Scope;
use crate::text::owned;
use crate::time::Ttl;

verus! {

/// Working-memory settings.
#[derive(Clone, Copy, Debug)]
pub struct WorkingConfig {
    /// Whether records expire after their time to live.
    pub ttl_enabled: bool,
    /// How often expired records are swept.
    pub ttl_check_interval: Ttl,
    /// Most records held (zero: no limit).
    pub max_entries: usize,
}

impl Default for WorkingConfig {
    fn default() -> (r: WorkingConfig)
        ensures
            r.ttl_enabled,
            r.ttl_check_interval.total() == 1_000_000_000,
            r.max_entries == 10000,
    {
        WorkingConfig { ttl_enabled: true, ttl_check_interval: Ttl::from_secs(1), max_entries: 10000 }
    }
}

/// Tool-registry settings.
#[derive(Clone, Copy, Debug)]
pub struct ToolsConfig {
    /// Decay of ranking updates, in [0, 1] (an `f32` bit pattern).
    pub decay_factor: u32,
}

impl Default for ToolsConfig {
    fn default() -> (r: ToolsConfig)
        ensures
            r.decay_factor == 0x3F66_6666,
    {
        ToolsConfig { decay_factor: 0x3F66_6666 }
    }
}

/// Procedure-graph settings.
#[derive(Clone, Copy, Debug)]
pub struct ProceduralConfig {
    /// Least similarity for a pattern match, in [0, 1] (an `f32` bit pattern).
    pub default_threshold: u32,
}

impl Default for ProceduralConfig {
    fn default() -> (r: ProceduralConfig)
        ensures
            r.default_threshold == 0x3F33_3333,
    {
        ProceduralConfig { default_threshold: 0x3F33_3333 }
    }
}

/// Settings of a memory database.
#[derive(Debug)]
pub struct AdbConfig {
    pub default_scope: Scope,
    /// Namespace of the agent, when there is one.
    pub default_namespace: Option<String>,
    pub max_concurrent_queries: usize,
    pub default_timeout: Ttl,
    pub working: WorkingConfig,
    pub tools: ToolsConfig,
    pub procedural: ProceduralConfig,
}

/// The default settings: private scope, no namespace, 100 concurrent
/// queries, 100 ms timeout, and the default settings of each backend.
pub open spec fn default_config(c: AdbConfig) -> bool {
    &&& c.default_scope == Scope::Private
    &&& c.default_namespace is None
    &&& c.max_concurrent_queries == 100
    &&& c.default_timeout.total() == 100_000_000
    &&& c.working.ttl_enabled
    &&& c.working.ttl_check_interval.total() == 1_000_000_000
    &&& c.working.max_entries == 10000
    &&& c.tools.decay_factor == 0x3F66_6666
    &&& c.procedural.default_threshold == 0x3F33_3333
}

impl Default for AdbConfig {
    fn default() -> (r: AdbConfig)
        ensures
            default_config(r),
    {
        AdbConfig {
            default_scope: Scope::Private,
            default_namespace: None,
            max_concurrent_queries: 100,
            default_timeout: Ttl::from_millis(100),
            working: WorkingConfig::default(),
            tools: ToolsConfig::default(),
            procedural: ProceduralConfig::default(),
        }
    }
}

impl AdbConfig {
    /// A builder starting from the default settings.
    pub fn builder() -> (r: AdbConfigBuilder)
        ensures
            default_config(r.config),
    {
        AdbConfigBuilder { config: AdbConfig::default() }
    }
}

/// Builds settings one field at a time.
#[derive(Debug)]
pub struct AdbConfigBuilder {
    pub config: AdbConfig,
}

impl Default for AdbConfigBuilder {
    fn default() -> (r: AdbConfigBuilder)
        ensures
            default_config(r.config),
    {
        AdbConfig::builder()
    }
}

impl AdbConfigBuilder {
    /// Sets the default scope.
    pub fn default_scope(self, scope: Scope) -> (r: AdbConfigBuilder)
        ensures
            r.config == (AdbConfig { default_scope: scope, ..self.config }),
    {
        let mut b = self;
        b.config.default_scope = scope;
        b
    }

    /// Sets the default namespace.
    pub fn default_namespace(self, namespace: &str) -> (r: AdbConfigBuilder)
        ensures
            opt_view(r.config.default_namespace) == Some(namespace@),
            r.config == (AdbConfig { default_namespace: r.config.default_namespace, ..self.config }),
    {
        let mut b = self;
        b.config.default_namespace = Some(owned(namespace));
        b
    }

    /// Sets the default timeout.
    pub fn default_timeout(self, timeout: Ttl) -> (r: AdbConfigBuilder)
        ensures
            r.config == (AdbConfig { default_timeout: timeout, ..self.config }),
    {
        let mut b = self;
        b.config.default_timeout = timeout;
        b
    }

    /// Turns expiry of working-memory records on or off.
    pub fn ttl_enabled(self, enabled: bool) -> (r: AdbConfigBuilder)
        ensures
            r.config == (AdbConfig {
                working: WorkingConfig { ttl_enabled: enabled, ..self.config.working },
                ..self.config
            }),
    {
        let mut b = self;
        b.config.working.ttl_enabled = enabled;
        b
    }

    /// Sets how often expired working-memory records are swept.
    pub fn ttl_check_interval(self, interval: Ttl) -> (r: AdbConfigBuilder)
        ensures
            r.config == (AdbConfig {
                working: WorkingConfig { ttl_check_interval: interval, ..self.config.working },
                ..self.config
            }),
    {
        let mut b = self;
        b.config.working.ttl_check_interval = interval;
        b
    }

    /// Sets the decay of tool rankings, clamped to [0, 1].
    pub fn tools_decay_factor(self, factor: u32) -> (r: AdbConfigBuilder)
        ensures
            r.config == (AdbConfig {
                tools: ToolsConfig { decay_factor: f32_unit_clamp(factor) },
                ..self.config
            }),
    {
        let mut b = self;
        b.config.tools.decay_factor = f32_bits_unit_clamp(factor);
        b
    }

    /// Sets the least similarity of a pattern match, clamped to [0, 1].
    pub fn procedural_threshold(self, threshold: u32) -> (r: AdbConfigBuilder)
        ensures
            r.config == (AdbConfig {
                procedural: ProceduralConfig { default_threshold: f32_unit_clamp(threshold) },
                ..self.config
            }),
    {
        let mut b = self;
        b.config.procedural.default_threshold = f32_bits_unit_clamp(threshold);
        b
    }

    /// The settings built.
    pub fn build(self) -> (r: AdbConfig)
        ensures
            r == self.config,
    {
        self.config
    }
}

} // verus!
