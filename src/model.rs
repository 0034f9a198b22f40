use std::collections::VecDeque;
use vstd::prelude::*;

verus! {

/// How a target is probed.
#[derive(Debug, Clone, Copy, PartialEq, Eq, Hash, Structural)]
pub enum Protocol {
    Tcp,
    Icmp,
    Dns,
    Http,
    Https,
}

/// Protocol assumed when a configuration entry names none.
pub fn default_proto() -> (r: Protocol)
    ensures
        r == Protocol::Tcp,
{
    Protocol::Tcp
}

/// One monitored endpoint.
#[derive(Debug, Clone)]
pub struct Target {
    pub id: String,
    /// IP literal or DNS name; for the DNS protocol, the resolver to query.
    pub host: String,
    pub port: Option<u16>,
    pub name: String,
    pub protocol: Protocol,
    /// Debounced state persisted by the engine, consumed on startup.
    pub last_known_state: Option<bool>,
}

/// The fields that decide what a probe does: two targets with equal keys are
/// probed identically, and a target keeps its history only while its key stays.
pub open spec fn probe_key(t: Target) -> (Seq<char>, Seq<char>, Option<u16>, Protocol) {
    (t.id@, t.host@, t.port, t.protocol)
}

/// `t` with its persisted state replaced by `s`.
pub open spec fn with_state(t: Target, s: Option<bool>) -> Target {
    Target { last_known_state: s, ..t }
}

#[derive(Debug, Clone, Default)]
pub struct AlertConfig {
    pub enabled: bool,
    pub webhooks: Vec<WebhookConfig>,
}

#[derive(Debug, Clone)]
pub struct WebhookConfig {
    pub id: String,
    pub name: String,
    pub url: String,
    /// Optional payload template with `{{...}}` markers.
    pub template: Option<String>,
    pub enabled: bool,
}

#[derive(Debug, Clone)]
pub struct AppConfig {
    /// Ordered: the order is shown to operators and kept by every reader.
    pub targets: Vec<Target>,
    pub alert: AlertConfig,
    pub data_retention_days: u64,
}

/// Retention in days assumed when a configuration names none.
pub fn default_retention_days() -> (r: u64)
    ensures
        r == 3,
{
    3
}

/// Outcome of one probe.
#[derive(Debug, Clone)]
pub struct ProbeRecord {
    /// Completion time, milliseconds since the Unix epoch.
    pub timestamp_ms: i64,
    /// Round-trip time in microseconds; present iff `success`.
    pub latency_us: Option<u64>,
    pub success: bool,
    /// Resolved addresses, HTTP status, or error text.
    pub message: Option<String>,
}

/// Per-target engine state: history newest first and the debounced state.
#[derive(Debug)]
pub struct MonitorStatus {
    pub target: Target,
    pub records: VecDeque<ProbeRecord>,
    pub current_state: bool,
}

/// State a target starts from before any probe.
pub open spec fn initial_state(t: Target) -> bool {
    match t.last_known_state {
        Some(b) => b,
        None => false,
    }
}

impl MonitorStatus {
    /// Fresh state for a target: no history, state seeded from the persisted one.
    pub fn new(target: Target) -> (r: MonitorStatus)
        ensures
            r.target == target,
            r.records@.len() == 0,
            r.current_state == initial_state(target),
    {
        let initial = match target.last_known_state {
            Some(b) => b,
            None => false,
        };
        MonitorStatus { target, records: VecDeque::with_capacity(60), current_state: initial }
    }
}

} // verus!
