//! The configuration surface the pipeline recognizes, as plain values,
//! and the websocket form of an endpoint URL. Reading and expanding the
//! configuration file happens outside the library.

use vstd::prelude::*;

verus! {

/// The whole configuration.
#[derive(Debug, Clone)]
pub struct Config {
    pub server: ServerConfig,
    pub database: DatabaseConfig,
    pub redis: RedisConfig,
    pub rpc: RpcConfig,
    pub scheduler: SchedulerConfig,
    pub broadcaster: BroadcasterConfig,
    pub watcher: WatcherConfig,
    pub api: ApiConfig,
}

/// Where the HTTP server binds.
#[derive(Debug, Clone)]
pub struct ServerConfig {
    pub bind: String,
}

/// Where the store lives.
#[derive(Debug, Clone)]
pub struct DatabaseConfig {
    pub url: String,
}

/// Where the ready index lives.
#[derive(Debug, Clone)]
pub struct RedisConfig {
    pub url: String,
}

/// The ordered endpoint URLs of one chain.
#[derive(Debug, Clone)]
pub struct ChainEndpoints {
    pub chain_id: u64,
    pub urls: Vec<String>,
}

/// The chains served, each with its ordered endpoint list.
#[derive(Debug, Clone)]
pub struct RpcConfig {
    pub chains: Vec<ChainEndpoints>,
}

/// The per-chain scheduler's knobs.
#[derive(Debug, Clone)]
pub struct SchedulerConfig {
    pub poll_interval_ms: u64,
    pub lease_ttl_seconds: i64,
    pub max_concurrency: usize,
    pub retry_min_ms: u64,
    pub retry_max_ms: u64,
}

/// The broadcaster's knobs.
#[derive(Debug, Clone)]
pub struct BroadcasterConfig {
    pub fanout: usize,
    pub timeout_ms: u64,
}

/// The watcher's knobs.
#[derive(Debug, Clone)]
pub struct WatcherConfig {
    pub poll_interval_ms: u64,
    pub use_websocket: bool,
}

/// The ingress limits.
#[derive(Debug, Clone)]
pub struct ApiConfig {
    pub max_body_bytes: usize,
}

impl SchedulerConfig {
    /// The scheduler's knobs make sense: a positive lease, a non-empty
    /// worker pool, and an ordered backoff window that the schedule
    /// arithmetic cannot overflow on.
    pub open spec fn spec_valid(&self) -> bool {
        &&& self.lease_ttl_seconds > 0
        &&& self.max_concurrency > 0
        &&& self.retry_min_ms <= self.retry_max_ms
        &&& self.retry_max_ms <= 0x4000_0000_0000
    }

    /// Checks the scheduler knobs.
    pub fn valid(&self) -> (r: bool)
        ensures
            r == self.spec_valid(),
    {
        self.lease_ttl_seconds > 0 && self.max_concurrency > 0 && self.retry_min_ms
            <= self.retry_max_ms && self.retry_max_ms <= 0x4000_0000_0000
    }
}

/// The websocket form of an HTTP endpoint URL, where it has one.
pub open spec fn spec_to_ws_url(url: Seq<char>) -> Option<Seq<char>> {
    if url.len() >= 8 && url.subrange(0, 8) == "https://"@ {
        Some("wss://"@ + url.skip(8))
    } else if url.len() >= 7 && url.subrange(0, 7) == "http://"@ {
        Some("ws://"@ + url.skip(7))
    } else {
        None
    }
}

/// Rewrites an HTTP(S) endpoint URL to its websocket scheme; a URL of any
/// other scheme has no websocket form.
pub fn to_ws_url(url: &str) -> (r: Option<String>)
    ensures
        (r is Some <==> spec_to_ws_url(url@) is Some),
        r is Some ==> Some(r->0@) == spec_to_ws_url(url@),
{
    let n = url.unicode_len();
    if n >= 8 {
        let head = url.substring_char(0, 8);
        if crate::status::str_eq(head, "https://") {
            let mut out = String::from_str("wss://");
            let rest = url.substring_char(8, n);
            out.append(rest);
            return Some(out);
        }
    }
    if n >= 7 {
        let head = url.substring_char(0, 7);
        if crate::status::str_eq(head, "http://") {
            proof {
                assert(!(url@.len() >= 8 && url@.subrange(0, 8) == "https://"@)) by {
                    if url@.len() >= 8 && url@.subrange(0, 8) == "https://"@ {
                        reveal_strlit("https://");
                        reveal_strlit("http://");
                        assert(url@.subrange(0, 7)[6] == url@.subrange(0, 8)[6]);
                    }
                }
            }
            let mut out = String::from_str("ws://");
            let rest = url.substring_char(7, n);
            out.append(rest);
            return Some(out);
        }
    }
    proof {
        if url@.len() >= 8 && url@.subrange(0, 8) == "https://"@ {
            assert(false);
        }
    }
    None
}

} // verus!
