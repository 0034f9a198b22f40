use crate::model::{with_state, AlertConfig, AppConfig, MonitorStatus, Protocol, Target};
use crate::table::{find_first_id, find_status, lemma_find_first_id, probe_keys, reloaded};
use vstd::prelude::*;
use vstd::string::*;

verus! {

/// Configuration file used when none was chosen.
pub open spec fn default_config_path() -> Seq<char> {
    "config.json"@
}

/// Records the configuration file path once; returns false, leaving the slot
/// as it was, if a path was already recorded.
pub fn init_config_path(slot: &mut Option<String>, path: String) -> (r: bool)
    ensures
        r == (*old(slot) is None),
        r ==> *final(slot) == Some(path),
        !r ==> *final(slot) == *old(slot),
{
    if slot.is_none() {
        *slot = Some(path);
        true
    } else {
        false
    }
}

/// The recorded configuration file path, or `config.json`.
pub fn get_config_path(slot: &Option<String>) -> (r: String)
    ensures
        r@ == match slot {
            Some(p) => p@,
            None => default_config_path(),
        },
{
    match slot {
        Some(p) => p.clone(),
        None => "config.json".to_owned(),
    }
}

/// Sibling file written first and then renamed over `path`.
pub fn temp_config_path(path: &String) -> (r: String)
    ensures
        r@ == path@ + ".tmp"@,
{
    let r = path.clone();
    r.concat(".tmp")
}

/// The configuration created on first run.
pub fn get_default_config() -> (r: AppConfig)
    ensures
        r.targets@.len() == 4,
        r.targets@[0].id@ == "1"@ && r.targets@[0].host@ == "8.8.8.8"@ && r.targets@[0].port
            == Some(53u16) && r.targets@[0].protocol == Protocol::Tcp,
        r.targets@[1].id@ == "2"@ && r.targets@[1].host@ == "1.1.1.1"@ && r.targets@[1].port
            is None && r.targets@[1].protocol == Protocol::Icmp,
        r.targets@[2].id@ == "3"@ && r.targets@[2].host@ == "8.8.8.8"@ && r.targets@[2].port
            == Some(53u16) && r.targets@[2].protocol == Protocol::Dns,
        r.targets@[3].id@ == "4"@ && r.targets@[3].host@ == "www.google.com"@
            && r.targets@[3].port is None && r.targets@[3].protocol == Protocol::Https,
        r.targets@[0].name@ == "Google DNS (TCP)"@,
        r.targets@[1].name@ == "Cloudflare Ping"@,
        r.targets@[2].name@ == "Google DNS Query"@,
        r.targets@[3].name@ == "Google Web (HTTPS)"@,
        forall|i: int| 0 <= i < 4 ==> (#[trigger] r.targets@[i]).last_known_state is None,
        !r.alert.enabled,
        r.alert.webhooks@.len() == 0,
        r.data_retention_days == 3,
{
    let mut targets: Vec<Target> = Vec::new();
    targets.push(
        Target {
            id: "1".to_owned(),
            host: "8.8.8.8".to_owned(),
            port: Some(53),
            name: "Google DNS (TCP)".to_owned(),
            protocol: Protocol::Tcp,
            last_known_state: None,
        },
    );
    targets.push(
        Target {
            id: "2".to_owned(),
            host: "1.1.1.1".to_owned(),
            port: None,
            name: "Cloudflare Ping".to_owned(),
            protocol: Protocol::Icmp,
            last_known_state: None,
        },
    );
    targets.push(
        Target {
            id: "3".to_owned(),
            host: "8.8.8.8".to_owned(),
            port: Some(53),
            name: "Google DNS Query".to_owned(),
            protocol: Protocol::Dns,
            last_known_state: None,
        },
    );
    targets.push(
        Target {
            id: "4".to_owned(),
            host: "www.google.com".to_owned(),
            port: None,
            name: "Google Web (HTTPS)".to_owned(),
            protocol: Protocol::Https,
            last_known_state: None,
        },
    );
    AppConfig {
        targets,
        alert: AlertConfig { enabled: false, webhooks: Vec::new() },
        data_retention_days: 3,
    }
}

/// Target `j` is the first of `ts` with id `id`.
pub open spec fn first_target_with_id(ts: Seq<Target>, id: Seq<char>, j: int) -> bool {
    &&& 0 <= j < ts.len()
    &&& ts[j].id@ == id
    &&& forall|x: int| 0 <= x < j ==> (#[trigger] ts[x]).id@ != id
}

/// The first target of `ts` with id `id`, if any.
pub open spec fn target_index(ts: Seq<Target>, id: Seq<char>) -> Option<int> {
    if exists|j: int| first_target_with_id(ts, id, j) {
        Some(choose|j: int| first_target_with_id(ts, id, j))
    } else {
        None
    }
}

proof fn lemma_first_target_exists(ts: Seq<Target>, id: Seq<char>, x: int)
    requires
        0 <= x < ts.len(),
        ts[x].id@ == id,
    ensures
        exists|j: int| first_target_with_id(ts, id, j),
    decreases x,
{
    if exists|z: int| 0 <= z < x && (#[trigger] ts[z]).id@ == id {
        let z = choose|z: int| 0 <= z < x && (#[trigger] ts[z]).id@ == id;
        lemma_first_target_exists(ts, id, z);
    } else {
        assert(first_target_with_id(ts, id, x));
    }
}

/// `target_index` names the first target with the id, or none has it.
pub proof fn lemma_target_index(ts: Seq<Target>, id: Seq<char>)
    ensures
        match target_index(ts, id) {
            Some(j) => first_target_with_id(ts, id, j),
            None => forall|x: int| 0 <= x < ts.len() ==> (#[trigger] ts[x]).id@ != id,
        },
        forall|j: int| first_target_with_id(ts, id, j) ==> target_index(ts, id) == Some(j),
{
    if exists|j: int| first_target_with_id(ts, id, j) {
        let c = choose|j: int| first_target_with_id(ts, id, j);
        assert forall|j: int| first_target_with_id(ts, id, j) implies j == c by {
            if j < c {
                assert(ts[j].id@ != id);
            } else if j > c {
                assert(ts[c].id@ != id);
            }
        }
    } else {
        assert forall|x: int| 0 <= x < ts.len() implies (#[trigger] ts[x]).id@ != id by {
            if ts[x].id@ == id {
                lemma_first_target_exists(ts, id, x);
            }
        }
    }
}

/// Position of the first target with id `id`.
pub fn find_target(ts: &Vec<Target>, id: &String) -> (r: Option<usize>)
    ensures
        match r {
            Some(j) => first_target_with_id(ts@, id@, j as int),
            None => forall|x: int| 0 <= x < ts@.len() ==> (#[trigger] ts@[x]).id@ != id@,
        },
{
    let mut i: usize = 0;
    while i < ts.len()
        invariant
            0 <= i <= ts@.len(),
            forall|x: int| 0 <= x < i ==> (#[trigger] ts@[x]).id@ != id@,
        decreases ts@.len() - i,
    {
        if ts[i].id == *id {
            assert(first_target_with_id(ts@, id@, i as int));
            return Some(i);
        }
        i = i + 1;
    }
    None
}

/// Targets after persisting state `s` for the first target with id `id`.
pub open spec fn targets_with_state(ts: Seq<Target>, id: Seq<char>, s: bool) -> Seq<Target> {
    match target_index(ts, id) {
        Some(j) => ts.update(j, with_state(ts[j], Some(s))),
        None => ts,
    }
}

/// Writes a debounced state into the configuration as the target's persisted
/// state; nothing else changes.
pub fn apply_state_change(config: &mut AppConfig, id: &String, s: bool)
    ensures
        final(config).targets@ == targets_with_state(old(config).targets@, id@, s),
        final(config).alert == old(config).alert,
        final(config).data_retention_days == old(config).data_retention_days,
{
    proof { lemma_target_index(config.targets@, id@); }
    match find_target(&config.targets, id) {
        None => {},
        Some(j) => {
            let mut t = config.targets.remove(j);
            t.last_known_state = Some(s);
            config.targets.insert(j, t);
            assert(config.targets@ =~= targets_with_state(old(config).targets@, id@, s));
        },
    }
}

/// A state change written into the configuration leaves the target with
/// that state persisted, and every other target as it was.
pub proof fn lemma_state_change_persisted(ts: Seq<Target>, j: int, s: bool)
    requires
        0 <= j < ts.len(),
        forall|x: int| 0 <= x < j ==> (#[trigger] ts[x]).id@ != ts[j].id@,
    ensures
        targets_with_state(ts, ts[j].id@, s)[j].last_known_state == Some(s),
        forall|x: int|
            0 <= x < ts.len() && x != j ==> #[trigger] targets_with_state(ts, ts[j].id@, s)[x]
                == ts[x],
{
    lemma_target_index(ts, ts[j].id@);
    assert(first_target_with_id(ts, ts[j].id@, j));
}

/// Persisted state that a submitted target is saved with: the live debounced
/// state if the engine monitors its id, else the one of the first target with
/// that id in the configuration in force, else the submitted value.
pub open spec fn merged_state(t: Target, tab: Seq<MonitorStatus>, prev: Seq<Target>) -> Option<
    bool,
> {
    match find_first_id(tab, t.id@) {
        Some(m) => Some(tab[m].current_state),
        None => match target_index(prev, t.id@) {
            Some(j) => prev[j].last_known_state,
            None => t.last_known_state,
        },
    }
}

/// Prepares a submitted configuration for saving: each target's persisted
/// state is taken from live engine state first, then from the configuration
/// in force, then from what was sent. Everything else is kept as sent.
pub fn merge_live_state(new_config: AppConfig, table: &Vec<MonitorStatus>, current: &AppConfig) -> (r:
    AppConfig)
    ensures
        r.targets@.len() == new_config.targets@.len(),
        forall|i: int|
            0 <= i < r.targets@.len() ==> #[trigger] r.targets@[i] == with_state(
                new_config.targets@[i],
                merged_state(new_config.targets@[i], table@, current.targets@),
            ),
        r.alert == new_config.alert,
        r.data_retention_days == new_config.data_retention_days,
{
    let ghost ts = new_config.targets@;
    let AppConfig { targets, alert, data_retention_days } = new_config;
    let mut rest = targets;
    let mut out: Vec<Target> = Vec::new();
    let n = rest.len();
    let mut i: usize = 0;
    while i < n
        invariant
            n == ts.len(),
            0 <= i <= n,
            rest@ == ts.subrange(i as int, n as int),
            out@.len() == i,
            forall|x: int|
                0 <= x < i ==> #[trigger] out@[x] == with_state(
                    ts[x],
                    merged_state(ts[x], table@, current.targets@),
                ),
        decreases n - i,
    {
        let mut t = rest.remove(0);
        let ghost t0 = t;
        assert(t == ts[i as int]);
        proof {
            lemma_find_first_id(table@, t.id@);
            lemma_target_index(current.targets@, t.id@);
        }
        match find_status(table, &t.id) {
            Some(m) => {
                assert(find_first_id(table@, t.id@) == Some(m as int));
                t.last_known_state = Some(table[m].current_state);
            },
            None => {
                assert(find_first_id(table@, t.id@) is None);
                match find_target(&current.targets, &t.id) {
                    Some(j) => {
                        assert(target_index(current.targets@, t.id@) == Some(j as int));
                        t.last_known_state = current.targets[j].last_known_state;
                    },
                    None => {
                        assert(target_index(current.targets@, t.id@) is None);
                    },
                }
            },
        }
        assert(t == with_state(ts[i as int], merged_state(ts[i as int], table@, current.targets@)));
        let ghost o0 = out@;
        out.push(t);
        assert forall|x: int| 0 <= x <= i implies #[trigger] out@[x] == with_state(
            ts[x],
            merged_state(ts[x], table@, current.targets@),
        ) by {
            if x < i {
                assert(out@[x] == o0[x]);
            }
        }
        i = i + 1;
    }
    AppConfig { targets: out, alert, data_retention_days }
}

/// Writing a persisted state into the configuration changes no probe key, so
/// the reload it triggers keeps every target's history and state.
pub proof fn lemma_persist_keeps_history(
    tab: Seq<MonitorStatus>,
    ts: Seq<Target>,
    id: Seq<char>,
    s: bool,
    r: Seq<MonitorStatus>,
)
    requires
        reloaded(tab, ts, targets_with_state(ts, id, s), r),
    ensures
        r == tab,
{
    lemma_target_index(ts, id);
    assert(probe_keys(ts) =~= probe_keys(targets_with_state(ts, id, s)));
}

/// A submitted configuration that keeps every probe key of the one in force
/// keeps, once merged and reloaded, every target's history and state.
pub proof fn lemma_post_keeps_history(
    tab: Seq<MonitorStatus>,
    cur: Seq<Target>,
    sent: Seq<Target>,
    merged: Seq<Target>,
    r: Seq<MonitorStatus>,
)
    requires
        probe_keys(sent) == probe_keys(cur),
        merged.len() == sent.len(),
        forall|i: int|
            0 <= i < merged.len() ==> #[trigger] merged[i] == with_state(
                sent[i],
                merged_state(sent[i], tab, cur),
            ),
        reloaded(tab, cur, merged, r),
    ensures
        r == tab,
{
    assert(probe_keys(merged) =~= probe_keys(sent));
}

} // verus!
