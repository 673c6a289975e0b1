//! What each backend offers and how fast it is expected to answer.
use vstd::prelude::*;
use crate::memory::MemoryType;

verus! {

/// Capabilities and expected latencies of a backend.
#[derive(Clone, Copy, Debug, PartialEq, Eq, Structural)]
pub struct BackendInfo {
    pub memory_type: MemoryType,
    /// Expected median latency of a lookup, in milliseconds.
    pub lookup_p50_ms: u64,
    /// Expected 99th-percentile latency of a lookup, in milliseconds.
    pub lookup_p99_ms: u64,
    /// Expected median latency of a recall, in milliseconds.
    pub recall_p50_ms: u64,
    /// Expected 99th-percentile latency of a recall, in milliseconds.
    pub recall_p99_ms: u64,
    pub supports_scan: bool,
    pub supports_load: bool,
    pub supports_pattern: bool,
    pub supports_embedding: bool,
}

/// The description of the backend for memory kind `t`.
pub open spec fn backend_info_of(t: MemoryType) -> BackendInfo {
    match t {
        MemoryType::Working => BackendInfo {
            memory_type: t,
            lookup_p50_ms: 0,
            lookup_p99_ms: 1,
            recall_p50_ms: 0,
            recall_p99_ms: 1,
            supports_scan: true,
            supports_load: false,
            supports_pattern: false,
            supports_embedding: false,
        },
        MemoryType::Tools => BackendInfo {
            memory_type: t,
            lookup_p50_ms: 1,
            lookup_p99_ms: 2,
            recall_p50_ms: 1,
            recall_p99_ms: 2,
            supports_scan: false,
            supports_load: true,
            supports_pattern: false,
            supports_embedding: false,
        },
        MemoryType::Procedural => BackendInfo {
            memory_type: t,
            lookup_p50_ms: 2,
            lookup_p99_ms: 5,
            recall_p50_ms: 3,
            recall_p99_ms: 8,
            supports_scan: false,
            supports_load: false,
            supports_pattern: true,
            supports_embedding: false,
        },
        MemoryType::Semantic => BackendInfo {
            memory_type: t,
            lookup_p50_ms: 5,
            lookup_p99_ms: 15,
            recall_p50_ms: 10,
            recall_p99_ms: 25,
            supports_scan: false,
            supports_load: false,
            supports_pattern: false,
            supports_embedding: true,
        },
        MemoryType::Episodic => BackendInfo {
            memory_type: t,
            lookup_p50_ms: 15,
            lookup_p99_ms: 40,
            recall_p50_ms: 20,
            recall_p99_ms: 50,
            supports_scan: false,
            supports_load: false,
            supports_pattern: false,
            supports_embedding: false,
        },
    }
}

impl BackendInfo {
    /// The working-memory backend: sub-millisecond, scans.
    pub fn working() -> (r: BackendInfo)
        ensures
            r == backend_info_of(MemoryType::Working),
    {
        BackendInfo {
            memory_type: MemoryType::Working,
            lookup_p50_ms: 0,
            lookup_p99_ms: 1,
            recall_p50_ms: 0,
            recall_p99_ms: 1,
            supports_scan: true,
            supports_load: false,
            supports_pattern: false,
            supports_embedding: false,
        }
    }

    /// The tool registry: loads ranked tools.
    pub fn tools() -> (r: BackendInfo)
        ensures
            r == backend_info_of(MemoryType::Tools),
    {
        BackendInfo {
            memory_type: MemoryType::Tools,
            lookup_p50_ms: 1,
            lookup_p99_ms: 2,
            recall_p50_ms: 1,
            recall_p99_ms: 2,
            supports_scan: false,
            supports_load: true,
            supports_pattern: false,
            supports_embedding: false,
        }
    }

    /// The procedure graph: matches patterns.
    pub fn procedural() -> (r: BackendInfo)
        ensures
            r == backend_info_of(MemoryType::Procedural),
    {
        BackendInfo {
            memory_type: MemoryType::Procedural,
            lookup_p50_ms: 2,
            lookup_p99_ms: 5,
            recall_p50_ms: 3,
            recall_p99_ms: 8,
            supports_scan: false,
            supports_load: false,
            supports_pattern: true,
            supports_embedding: false,
        }
    }

    /// The semantic store: similarity search on embeddings.
    pub fn semantic() -> (r: BackendInfo)
        ensures
            r == backend_info_of(MemoryType::Semantic),
    {
        BackendInfo {
            memory_type: MemoryType::Semantic,
            lookup_p50_ms: 5,
            lookup_p99_ms: 15,
            recall_p50_ms: 10,
            recall_p99_ms: 25,
            supports_scan: false,
            supports_load: false,
            supports_pattern: false,
            supports_embedding: true,
        }
    }

    /// The episode log.
    pub fn episodic() -> (r: BackendInfo)
        ensures
            r == backend_info_of(MemoryType::Episodic),
    {
        BackendInfo {
            memory_type: MemoryType::Episodic,
            lookup_p50_ms: 15,
            lookup_p99_ms: 40,
            recall_p50_ms: 20,
            recall_p99_ms: 50,
            supports_scan: false,
            supports_load: false,
            supports_pattern: false,
            supports_embedding: false,
        }
    }

    /// The description of the backend for memory kind `t`.
    pub fn of(t: MemoryType) -> (r: BackendInfo)
        ensures
            r == backend_info_of(t),
    {
        match t {
            MemoryType::Working => BackendInfo::working(),
            MemoryType::Tools => BackendInfo::tools(),
            MemoryType::Procedural => BackendInfo::procedural(),
            MemoryType::Semantic => BackendInfo::semantic(),
            MemoryType::Episodic => BackendInfo::episodic(),
        }
    }
}

/// Each backend is described with its own memory kind, and no backend both
/// scans and loads.
pub proof fn lemma_backend_info_kind(t: MemoryType)
    ensures
        backend_info_of(t).memory_type == t,
        !(backend_info_of(t).supports_scan && backend_info_of(t).supports_load),
        backend_info_of(t).lookup_p50_ms <= backend_info_of(t).lookup_p99_ms,
        backend_info_of(t).recall_p50_ms <= backend_info_of(t).recall_p99_ms,
{
}

} // verus!
