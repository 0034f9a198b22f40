use netwatch::assets::asset_path;
use netwatch::alert::{payload_from_body, plan_alerts, render_payload, render_template, status_text};
use netwatch::config::{
    apply_state_change, get_config_path, get_default_config, init_config_path, merge_live_state,
    temp_config_path,
};
use netwatch::model::{
    default_proto, default_retention_days, AlertConfig, AppConfig, MonitorStatus, ProbeRecord,
    Protocol, Target, WebhookConfig,
};
use netwatch::monitor::{apply_probe, push_record, retention_limit, MonitorEvent};
use netwatch::probe::{contains_scheme, http_url, probe_port, tcp_address};
use netwatch::table::{
    init_order, probe_keys_changed, record_probe, reload_table, restore_cache,
    set_persisted_state, sync_targets,
};
use std::collections::VecDeque;

fn target(id: &str, host: &str, port: Option<u16>, protocol: Protocol, lks: Option<bool>) -> Target {
    Target {
        id: id.to_string(),
        host: host.to_string(),
        port,
        name: format!("target {}", id),
        protocol,
        last_known_state: lks,
    }
}

fn rec(ts: i64, success: bool) -> ProbeRecord {
    ProbeRecord {
        timestamp_ms: ts,
        latency_us: if success { Some(1500) } else { None },
        success,
        message: if success { None } else { Some("Connection refused".to_string()) },
    }
}

fn with_history(t: Target, n: usize, success: bool, state: bool) -> MonitorStatus {
    let mut st = MonitorStatus::new(t);
    for i in 0..n {
        st.records.push_back(rec(1_000_000 - i as i64, success));
    }
    st.current_state = state;
    st
}

fn event_of(e: &Option<MonitorEvent>) -> Option<(String, bool)> {
    e.as_ref().map(|MonitorEvent::StateChanged(id, s)| (id.clone(), *s))
}

#[test]
fn retention_zero_days_gives_sixty() {
    assert_eq!(retention_limit(0), 60);
}

#[test]
fn retention_formula() {
    assert_eq!(retention_limit(1), 8640);
    assert_eq!(retention_limit(3), 25920);
    assert_eq!(retention_limit(u64::MAX), usize::MAX);
}

#[test]
fn history_stays_within_retention_and_newest_first() {
    let mut records = VecDeque::new();
    for i in 0..70 {
        push_record(&mut records, rec(i, i % 2 == 0), 60);
        assert!(records.len() <= 60);
    }
    assert_eq!(records.len(), 60);
    assert_eq!(records[0].timestamp_ms, 69);
    assert_eq!(records[59].timestamp_ms, 10);
    for i in 1..records.len() {
        assert!(records[i - 1].timestamp_ms >= records[i].timestamp_ms);
    }
}

#[test]
fn history_shrinks_to_a_lowered_limit() {
    let mut records = VecDeque::new();
    for i in 0..100 {
        push_record(&mut records, rec(i, true), 100);
    }
    push_record(&mut records, rec(100, false), 60);
    assert_eq!(records.len(), 60);
    assert!(!records[0].success);
}

#[test]
fn flap_suppression() {
    let t = target("t1", "127.0.0.1", Some(9), Protocol::Tcp, Some(true));
    let mut st = with_history(t, 3, true, true);
    let outcomes = [false, false, true, false, false, true, false, false, false, true];
    let mut events = Vec::new();
    for (i, s) in outcomes.iter().enumerate() {
        let out = apply_probe(&mut st, rec(2_000_000 + i as i64, *s), 60);
        if let Some(e) = event_of(&out.event) {
            events.push((i, e, out.alert));
        }
        if i < 8 {
            assert!(st.current_state, "probe {}", i);
        } else {
            assert!(!st.current_state, "probe {}", i);
        }
    }
    assert_eq!(events, vec![(8, ("t1".to_string(), false), true)]);
    assert!(!st.records[1].success && !st.records[2].success && !st.records[3].success);
}

#[test]
fn flips_back_after_three_successes() {
    let t = target("t1", "127.0.0.1", Some(9), Protocol::Tcp, Some(false));
    let mut st = with_history(t, 5, false, false);
    assert!(apply_probe(&mut st, rec(2_000_001, true), 60).event.is_none());
    assert!(apply_probe(&mut st, rec(2_000_002, true), 60).event.is_none());
    let out = apply_probe(&mut st, rec(2_000_003, true), 60);
    assert_eq!(event_of(&out.event), Some(("t1".to_string(), true)));
    assert!(out.alert);
    assert!(st.current_state);
}

#[test]
fn first_probe_truth() {
    let t = target("n", "10.0.0.1", Some(22), Protocol::Tcp, None);
    let mut st = MonitorStatus::new(t.clone());
    assert!(!st.current_state);
    let out = apply_probe(&mut st, rec(1, true), 60);
    assert!(st.current_state);
    assert_eq!(event_of(&out.event), Some(("n".to_string(), true)));
    assert!(out.alert);

    let mut config = AppConfig {
        targets: vec![t.clone()],
        alert: AlertConfig { enabled: false, webhooks: vec![] },
        data_retention_days: 3,
    };
    apply_state_change(&mut config, &"n".to_string(), true);
    assert_eq!(config.targets[0].last_known_state, Some(true));
    let hook = WebhookConfig {
        id: "w".to_string(),
        name: "w".to_string(),
        url: "http://hook".to_string(),
        template: None,
        enabled: true,
    };
    config.alert.webhooks.push(hook);
    let plan = plan_alerts(&t, true, &config.alert, &None, &"2024-01-01 00:00:00".to_string());
    assert!(plan.is_empty());
}

#[test]
fn first_probe_quiet_when_persisted_state_confirmed() {
    let t = target("q", "10.0.0.1", Some(22), Protocol::Tcp, Some(true));
    let mut st = MonitorStatus::new(t);
    assert!(st.current_state);
    let out = apply_probe(&mut st, rec(1, true), 60);
    assert!(out.event.is_none());
    assert!(!out.alert);
    assert!(st.current_state);
}

#[test]
fn first_probe_down_with_persisted_up() {
    let t = target("a", "10.0.0.1", Some(22), Protocol::Tcp, Some(true));
    let mut st = MonitorStatus::new(t.clone());
    let out = apply_probe(&mut st, rec(1, false), 60);
    assert_eq!(event_of(&out.event), Some(("a".to_string(), false)));
    assert!(out.alert);
    assert!(!st.current_state);
    let out2 = apply_probe(&mut st, rec(2, false), 60);
    assert!(out2.event.is_none());

    let mut config = AppConfig {
        targets: vec![t],
        alert: AlertConfig::default(),
        data_retention_days: 3,
    };
    apply_state_change(&mut config, &"a".to_string(), false);
    assert_eq!(config.targets[0].last_known_state, Some(false));
}

#[test]
fn warm_up_shortcut_flips_on_second_record() {
    let t = target("w", "10.0.0.1", Some(22), Protocol::Tcp, None);
    let mut st = MonitorStatus::new(t);
    apply_probe(&mut st, rec(1, true), 60);
    let out = apply_probe(&mut st, rec(2, false), 60);
    assert_eq!(event_of(&out.event), Some(("w".to_string(), false)));
    assert!(out.alert);
    assert!(!st.current_state);
}

#[test]
fn live_reload_keeps_history() {
    let a = target("a", "10.0.0.1", Some(80), Protocol::Tcp, Some(true));
    let b = target("b", "10.0.0.2", None, Protocol::Icmp, None);
    let table = vec![with_history(a.clone(), 50, true, true)];
    let cur = vec![a.clone()];
    let table = reload_table(table, &cur, vec![a.clone(), b]);
    assert_eq!(table.len(), 2);
    assert_eq!(table[0].target.id, "a");
    assert_eq!(table[0].records.len(), 50);
    assert!(table[0].current_state);
    assert_eq!(table[1].target.id, "b");
    assert!(table[1].records.is_empty());
}

#[test]
fn persistence_race_keeps_history() {
    let a = target("a", "10.0.0.1", Some(80), Protocol::Tcp, None);
    let mut config = AppConfig {
        targets: vec![a.clone()],
        alert: AlertConfig::default(),
        data_retention_days: 3,
    };
    let table = vec![with_history(a, 7, false, false)];
    let before = config.targets.clone();
    apply_state_change(&mut config, &"a".to_string(), false);
    assert!(!probe_keys_changed(&before, &config.targets));
    let table = reload_table(table, &before, config.targets.clone());
    assert_eq!(table.len(), 1);
    assert_eq!(table[0].records.len(), 7);
    assert!(!table[0].current_state);
}

#[test]
fn rename_keeps_history() {
    let a = target("a", "10.0.0.1", Some(80), Protocol::Tcp, None);
    let mut renamed = a.clone();
    renamed.name = "new name".to_string();
    let cur = vec![a.clone()];
    assert!(!probe_keys_changed(&cur, &vec![renamed.clone()]));
    let table = reload_table(vec![with_history(a, 12, true, true)], &cur, vec![renamed]);
    assert_eq!(table[0].records.len(), 12);
    assert!(table[0].current_state);
}

#[test]
fn port_change_discards_history() {
    let a = target("a", "10.0.0.1", Some(80), Protocol::Tcp, Some(false));
    let mut moved = a.clone();
    moved.port = Some(8080);
    let cur = vec![a.clone()];
    assert!(probe_keys_changed(&cur, &vec![moved.clone()]));
    let table = reload_table(vec![with_history(a, 12, true, true)], &cur, vec![moved]);
    assert_eq!(table.len(), 1);
    assert_eq!(table[0].target.port, Some(8080));
    assert!(table[0].records.is_empty());
    assert!(!table[0].current_state);
}

#[test]
fn sync_drops_removed_and_repeated_targets() {
    let a = target("a", "h", Some(1), Protocol::Tcp, None);
    let c = target("c", "h", Some(3), Protocol::Tcp, Some(true));
    let table = vec![with_history(a.clone(), 4, true, true), with_history(c.clone(), 2, true, true)];
    let out = sync_targets(table, vec![c.clone(), c.clone()]);
    assert_eq!(out.len(), 2);
    assert_eq!(out[0].records.len(), 2);
    assert!(out[1].records.is_empty());
    assert!(out[1].current_state);
}

#[test]
fn sse_init_ordering() {
    let z = target("z", "h1", None, Protocol::Icmp, None);
    let a = target("a", "h2", None, Protocol::Icmp, None);
    let ghost_target = target("gone", "h3", None, Protocol::Icmp, None);
    let statuses = vec![
        MonitorStatus::new(a.clone()),
        MonitorStatus::new(ghost_target),
        MonitorStatus::new(z.clone()),
    ];
    let order = init_order(&statuses, &vec![z, a]);
    let ids: Vec<&str> = order.iter().map(|&i| statuses[i].target.id.as_str()).collect();
    assert_eq!(ids, vec!["z", "a", "gone"]);
}

#[test]
fn cache_restores_known_targets() {
    let a = target("a", "h", Some(1), Protocol::Tcp, None);
    let b = target("b", "h", Some(2), Protocol::Tcp, None);
    let unknown = target("x", "h", Some(3), Protocol::Tcp, None);
    let mut table = vec![MonitorStatus::new(a.clone()), MonitorStatus::new(b.clone())];
    let saved = vec![with_history(unknown, 5, true, true), with_history(a, 9, true, true)];
    restore_cache(&mut table, saved);
    assert_eq!(table[0].records.len(), 9);
    assert!(table[0].current_state);
    assert!(table[1].records.is_empty());
    assert!(!table[1].current_state);
}

#[test]
fn record_probe_by_id() {
    let a = target("a", "h", Some(1), Protocol::Tcp, None);
    let mut table = vec![MonitorStatus::new(a)];
    assert!(record_probe(&mut table, &"zz".to_string(), rec(1, true), 60).is_none());
    let out = record_probe(&mut table, &"a".to_string(), rec(1, true), 60).unwrap();
    assert_eq!(event_of(&out.event), Some(("a".to_string(), true)));
    assert_eq!(table[0].records.len(), 1);
}

#[test]
fn persisted_state_keeps_history() {
    let a = target("a", "h", Some(1), Protocol::Tcp, None);
    let mut table = vec![with_history(a, 3, true, true)];
    set_persisted_state(&mut table, &"a".to_string(), true);
    assert_eq!(table[0].target.last_known_state, Some(true));
    assert_eq!(table[0].records.len(), 3);
    assert!(table[0].current_state);
}

#[test]
fn post_config_prefers_live_state() {
    let a = target("a", "h", Some(1), Protocol::Tcp, Some(false));
    let b = target("b", "h", Some(2), Protocol::Tcp, Some(true));
    let current = AppConfig {
        targets: vec![a.clone(), b.clone()],
        alert: AlertConfig::default(),
        data_retention_days: 3,
    };
    let table = vec![with_history(a.clone(), 2, true, true)];
    let mut sent_a = a.clone();
    sent_a.last_known_state = None;
    let mut sent_b = b.clone();
    sent_b.last_known_state = Some(false);
    let c = target("c", "h", Some(3), Protocol::Tcp, None);
    let d = target("d", "h", Some(4), Protocol::Tcp, Some(false));
    let submitted = AppConfig {
        targets: vec![sent_a, sent_b, c, d],
        alert: AlertConfig::default(),
        data_retention_days: 7,
    };
    let merged = merge_live_state(submitted, &table, &current);
    assert_eq!(merged.targets[0].last_known_state, Some(true));
    assert_eq!(merged.targets[1].last_known_state, Some(true));
    assert_eq!(merged.targets[2].last_known_state, None);
    assert_eq!(merged.targets[3].last_known_state, Some(false));
    assert_eq!(merged.data_retention_days, 7);
}

#[test]
fn webhook_template_fallback() {
    let t = target("a", "10.0.0.1", None, Protocol::Icmp, None);
    let w = WebhookConfig {
        id: "w".to_string(),
        name: "w".to_string(),
        url: "http://hook".to_string(),
        template: Some("not valid json {{STATUS}}".to_string()),
        enabled: true,
    };
    let body = render_payload(&w, &t, false, &"2024-01-01 00:00:00".to_string(), &String::new());
    assert_eq!(body, "{\"text\":\"not valid json 🔴 DOWN\"}");
    let v: serde_json::Value = serde_json::from_str(&body).unwrap();
    assert_eq!(v["text"], "not valid json 🔴 DOWN");
}

#[test]
fn webhook_template_json_is_kept() {
    let t = target("a", "10.0.0.1", None, Protocol::Icmp, None);
    let w = WebhookConfig {
        id: "w".to_string(),
        name: "w".to_string(),
        url: "http://hook".to_string(),
        template: Some("{\"msg\":\"{{TARGET}} {{HOST}} {{STATUS}} {{TIME}} {{MESSAGE}}\"}".to_string()),
        enabled: true,
    };
    let body = render_payload(&w, &t, true, &"T".to_string(), &"M".to_string());
    assert_eq!(body, "{\"msg\":\"target a 10.0.0.1 🟢 UP T M\"}");
}

#[test]
fn default_payload_fields() {
    let t = target("a", "10.0.0.1", None, Protocol::Icmp, None);
    let alert = AlertConfig {
        enabled: true,
        webhooks: vec![
            WebhookConfig {
                id: "1".to_string(),
                name: "off".to_string(),
                url: "http://off".to_string(),
                template: None,
                enabled: false,
            },
            WebhookConfig {
                id: "2".to_string(),
                name: "no url".to_string(),
                url: String::new(),
                template: None,
                enabled: true,
            },
            WebhookConfig {
                id: "3".to_string(),
                name: "on".to_string(),
                url: "http://on".to_string(),
                template: None,
                enabled: true,
            },
        ],
    };
    let plan = plan_alerts(&t, false, &alert, &Some("refused \"x\"".to_string()), &"T".to_string());
    assert_eq!(plan.len(), 1);
    assert_eq!(plan[0].url, "http://on");
    let v: serde_json::Value = serde_json::from_str(&plan[0].body).unwrap();
    assert_eq!(v["target"], "target a");
    assert_eq!(v["host"], "10.0.0.1");
    assert_eq!(v["status"], "🔴 DOWN");
    assert_eq!(v["timestamp"], "T");
    assert_eq!(v["message"], "refused \"x\"");
}

#[test]
fn template_markers_are_replaced() {
    let r = render_template(
        &"{{TARGET}}/{{HOST}}/{{STATUS}}/{{TIME}}/{{MESSAGE}}/{{TARGET}}".to_string(),
        &"n".to_string(),
        &"h".to_string(),
        &status_text(true),
        &"t".to_string(),
        &"m".to_string(),
    );
    assert_eq!(r, "n/h/🟢 UP/t/m/n");
}

#[test]
fn payload_from_body_cases() {
    assert_eq!(payload_from_body(Some("{}".to_string()), "\"{}\"".to_string()), "{}");
    assert_eq!(payload_from_body(None, "\"x\"".to_string()), "{\"text\":\"x\"}");
}

#[test]
fn default_config_contents() {
    let c = get_default_config();
    assert_eq!(c.targets.len(), 4);
    assert_eq!(c.targets[0].id, "1");
    assert_eq!(c.targets[3].protocol, Protocol::Https);
    assert_eq!(c.data_retention_days, 3);
    assert!(!c.alert.enabled);
    assert_eq!(default_retention_days(), 3);
    assert_eq!(default_proto(), Protocol::Tcp);
}

#[test]
fn config_path_is_set_once() {
    let mut slot = None;
    assert_eq!(get_config_path(&slot), "config.json");
    assert!(init_config_path(&mut slot, "a.json".to_string()));
    assert!(!init_config_path(&mut slot, "b.json".to_string()));
    assert_eq!(get_config_path(&slot), "a.json");
    assert_eq!(temp_config_path(&"a.json".to_string()), "a.json.tmp");
}

#[test]
fn probe_addresses() {
    let t = target("a", "10.0.0.1", None, Protocol::Tcp, None);
    assert_eq!(tcp_address(&t), "10.0.0.1:80");
    assert_eq!(probe_port(&t), Some(80));
    let d = target("d", "8.8.8.8", None, Protocol::Dns, None);
    assert_eq!(probe_port(&d), Some(53));
    let h = target("h", "example.com", Some(8443), Protocol::Https, None);
    assert_eq!(http_url(&h), "https://example.com:8443");
    let h2 = target("h2", "example.com", None, Protocol::Http, None);
    assert_eq!(http_url(&h2), "http://example.com");
    let h3 = target("h3", "http://x.org/path", Some(1), Protocol::Https, None);
    assert_eq!(http_url(&h3), "http://x.org/path");
    assert!(contains_scheme(&"a://b".to_string()));
    assert!(!contains_scheme(&"a:/b".to_string()));
}

#[test]
fn asset_paths() {
    assert_eq!(asset_path("/"), "index.html");
    assert_eq!(asset_path(""), "index.html");
    assert_eq!(asset_path("//app.js"), "app.js");
    assert_eq!(asset_path("/static/css/site.css"), "css/site.css");
    assert_eq!(asset_path("/static/"), "index.html");
    assert_eq!(asset_path("/img/static/x.png"), "img/static/x.png");
}

#[test]
fn webhook_template_json_is_rewritten() {
    let t = target("a", "10.0.0.1", None, Protocol::Icmp, None);
    let w = WebhookConfig {
        id: "w".to_string(),
        name: "w".to_string(),
        url: "http://hook".to_string(),
        template: Some("{ \"n\" : 1 ,\n \"s\": \"{{STATUS}}\" }".to_string()),
        enabled: true,
    };
    let body = render_payload(&w, &t, true, &"T".to_string(), &String::new());
    assert_eq!(body, "{\"n\":1,\"s\":\"🟢 UP\"}");
}

#[test]
fn fallback_escapes_control_characters() {
    let t = target("a", "10.0.0.1", None, Protocol::Icmp, None);
    let w = WebhookConfig {
        id: "w".to_string(),
        name: "w".to_string(),
        url: "http://hook".to_string(),
        template: Some("say \"{{MESSAGE}}\"\\".to_string()),
        enabled: true,
    };
    let body = render_payload(&w, &t, false, &"T".to_string(), &"a\tb\u{1}".to_string());
    assert_eq!(body, "{\"text\":\"say \\\"a\\tb\\u0001\\\"\\\\\"}");
}
