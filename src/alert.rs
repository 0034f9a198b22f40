use crate::model::{AlertConfig, Target, WebhookConfig};
use vstd::prelude::*;
use vstd::string::*;

verus! {

/// Label of a state in alerts.
pub open spec fn status_label(up: bool) -> Seq<char> {
    if up {
        "🟢 UP"@
    } else {
        "🔴 DOWN"@
    }
}

/// Label of a state in alerts.
pub fn status_text(up: bool) -> (r: String)
    ensures
        r@ == status_label(up),
{
    if up {
        "🟢 UP".to_owned()
    } else {
        "🔴 DOWN".to_owned()
    }
}

/// `s` with every occurrence of a non-empty `from` replaced by `to`: matches
/// are taken leftmost first and do not overlap.
pub open spec fn replaced(s: Seq<char>, from: Seq<char>, to: Seq<char>) -> Seq<char>
    decreases s.len(),
{
    if from.len() == 0 || s.len() < from.len() {
        s
    } else if s.subrange(0, from.len() as int) == from {
        to + replaced(s.subrange(from.len() as int, s.len() as int), from, to)
    } else {
        seq![s[0]] + replaced(s.drop_first(), from, to)
    }
}

/// Relies on `str::replace`: replaces all matches of a pattern, leftmost
/// first and non-overlapping.
#[verifier::external_body]
pub(crate) fn replace_all(s: &str, from: &str, to: &str) -> (r: String)
    requires
        from@.len() > 0,
    ensures
        r@ == replaced(s@, from@, to@),
{
    s.replace(from, to)
}

/// Whether `s` is one JSON value, as `serde_json` parses it.
pub uninterp spec fn parses_as_json(s: Seq<char>) -> bool;

/// The compact text `serde_json` writes for the value it parses from `s`.
pub uninterp spec fn json_rewritten(s: Seq<char>) -> Seq<char>;

/// Relies on `serde_json::from_str::<serde_json::Value>` and on
/// `serde_json::to_string` of the parsed value: whether the text parses, and
/// the text written back, depend on the text alone (writing a `Value` to a
/// string cannot fail).
#[verifier::external_body]
fn rewrite_json(s: &str) -> (r: Option<String>)
    ensures
        r is Some == parses_as_json(s@),
        r is Some ==> r->0@ == json_rewritten(s@),
{
    match serde_json::from_str::<serde_json::Value>(s) {
        Ok(v) => Some(serde_json::to_string(&v).unwrap_or_default()),
        Err(_) => None,
    }
}

/// Lower-case hexadecimal digit of `d < 16`.
pub open spec fn hex_digit(d: nat) -> char {
    seq!['0', '1', '2', '3', '4', '5', '6', '7', '8', '9', 'a', 'b', 'c', 'd', 'e', 'f'][d as int]
}

/// How one character stands inside a JSON string literal as `serde_json`
/// writes it: quote and backslash escaped, the control characters below
/// 0x20 as short escapes or `\u00XX`, everything else as itself.
pub open spec fn escaped_char(c: char) -> Seq<char> {
    if c == '"' {
        seq!['\\', '"']
    } else if c == '\\' {
        seq!['\\', '\\']
    } else if c == '\u{8}' {
        seq!['\\', 'b']
    } else if c == '\t' {
        seq!['\\', 't']
    } else if c == '\n' {
        seq!['\\', 'n']
    } else if c == '\u{c}' {
        seq!['\\', 'f']
    } else if c == '\r' {
        seq!['\\', 'r']
    } else if (c as u32) < 0x20 {
        seq!['\\', 'u', '0', '0', hex_digit((c as u32 / 16) as nat), hex_digit((c as u32 % 16) as nat)]
    } else {
        seq![c]
    }
}

/// The characters of `s`, each escaped.
pub open spec fn escaped(s: Seq<char>) -> Seq<char>
    decreases s.len(),
{
    if s.len() == 0 {
        Seq::empty()
    } else {
        escaped_char(s[0]) + escaped(s.drop_first())
    }
}

/// The JSON string literal, quotes included, that `serde_json` writes for `s`.
pub open spec fn json_string(s: Seq<char>) -> Seq<char> {
    seq!['"'] + escaped(s) + seq!['"']
}

/// Relies on `serde_json::to_string` on a `str`: a quoted literal escaped as
/// `escaped_char` says (serialising a string cannot fail).
#[verifier::external_body]
fn quote_json(s: &str) -> (r: String)
    ensures
        r@ == json_string(s@),
{
    match serde_json::to_string(s) {
        Ok(q) => q,
        Err(_) => String::new(),
    }
}

/// A template with its markers substituted, in the order target, host,
/// status, time, message.
pub open spec fn filled(
    tmpl: Seq<char>,
    name: Seq<char>,
    host: Seq<char>,
    status: Seq<char>,
    time: Seq<char>,
    msg: Seq<char>,
) -> Seq<char> {
    replaced(
        replaced(
            replaced(replaced(replaced(tmpl, "{{TARGET}}"@, name), "{{HOST}}"@, host), "{{STATUS}}"@, status),
            "{{TIME}}"@,
            time,
        ),
        "{{MESSAGE}}"@,
        msg,
    )
}

/// Substitutes the markers `{{TARGET}}`, `{{HOST}}`, `{{STATUS}}`, `{{TIME}}`
/// and `{{MESSAGE}}` of a webhook template.
pub fn render_template(
    tmpl: &String,
    name: &String,
    host: &String,
    status: &String,
    time: &String,
    msg: &String,
) -> (r: String)
    ensures
        r@ == filled(tmpl@, name@, host@, status@, time@, msg@),
{
    proof {
        reveal_strlit("{{TARGET}}");
        reveal_strlit("{{HOST}}");
        reveal_strlit("{{STATUS}}");
        reveal_strlit("{{TIME}}");
        reveal_strlit("{{MESSAGE}}");
    }
    let a = replace_all(tmpl.as_str(), "{{TARGET}}", name.as_str());
    let b = replace_all(a.as_str(), "{{HOST}}", host.as_str());
    let c = replace_all(b.as_str(), "{{STATUS}}", status.as_str());
    let d = replace_all(c.as_str(), "{{TIME}}", time.as_str());
    replace_all(d.as_str(), "{{MESSAGE}}", msg.as_str())
}

/// The object `{"text": <quoted>}` for a JSON string literal.
pub open spec fn text_object(quoted: Seq<char>) -> Seq<char> {
    "{\"text\":"@ + quoted + "}"@
}

/// Payload for a rendered template: the text `serde_json` writes back for it
/// when it parses as JSON, otherwise an object whose `text` field is the
/// JSON literal `quoted_body`.
pub fn payload_from_body(rewritten: Option<String>, quoted_body: String) -> (r: String)
    ensures
        r@ == match rewritten {
            Some(v) => v@,
            None => text_object(quoted_body@),
        },
{
    match rewritten {
        Some(v) => v,
        None => {
            let open = "{\"text\":".to_owned();
            let with_body = open.concat(quoted_body.as_str());
            with_body.concat("}")
        },
    }
}

/// The payload sent without a template, from the JSON literals of its fields.
pub open spec fn default_object(
    qname: Seq<char>,
    qhost: Seq<char>,
    qstatus: Seq<char>,
    qtime: Seq<char>,
    qmsg: Seq<char>,
) -> Seq<char> {
    "{\"target\":"@ + qname + ",\"host\":"@ + qhost + ",\"status\":"@ + qstatus
        + ",\"timestamp\":"@ + qtime + ",\"message\":"@ + qmsg + "}"@
}

/// Builds the template-less payload from the JSON literals of its fields.
pub fn default_payload(
    qname: &String,
    qhost: &String,
    qstatus: &String,
    qtime: &String,
    qmsg: &String,
) -> (r: String)
    ensures
        r@ == default_object(qname@, qhost@, qstatus@, qtime@, qmsg@),
{
    let s = "{\"target\":".to_owned();
    let s = s.concat(qname.as_str());
    let s = s.concat(",\"host\":");
    let s = s.concat(qhost.as_str());
    let s = s.concat(",\"status\":");
    let s = s.concat(qstatus.as_str());
    let s = s.concat(",\"timestamp\":");
    let s = s.concat(qtime.as_str());
    let s = s.concat(",\"message\":");
    let s = s.concat(qmsg.as_str());
    s.concat("}")
}

/// JSON text posted to webhook `w` when target `t` goes UP (`up`) or DOWN.
pub open spec fn payload_text(
    w: WebhookConfig,
    t: Target,
    up: bool,
    time: Seq<char>,
    msg: Seq<char>,
) -> Seq<char> {
    match w.template {
        Some(tm) => {
            let body = filled(tm@, t.name@, t.host@, status_label(up), time, msg);
            if parses_as_json(body) {
                json_rewritten(body)
            } else {
                text_object(json_string(body))
            }
        },
        None => default_object(
            json_string(t.name@),
            json_string(t.host@),
            json_string(status_label(up)),
            json_string(time),
            json_string(msg),
        ),
    }
}

/// Renders the payload for one webhook.
pub fn render_payload(w: &WebhookConfig, t: &Target, up: bool, time: &String, msg: &String) -> (r:
    String)
    ensures
        r@ == payload_text(*w, *t, up, time@, msg@),
{
    let status = status_text(up);
    match &w.template {
        Some(tm) => {
            let body = render_template(tm, &t.name, &t.host, &status, time, msg);
            let rewritten = rewrite_json(body.as_str());
            let quoted = quote_json(body.as_str());
            payload_from_body(rewritten, quoted)
        },
        None => {
            let qn = quote_json(t.name.as_str());
            let qh = quote_json(t.host.as_str());
            let qs = quote_json(status.as_str());
            let qt = quote_json(time.as_str());
            let qm = quote_json(msg.as_str());
            default_payload(&qn, &qh, &qs, &qt, &qm)
        },
    }
}

/// A webhook delivery: where to POST and the JSON body.
#[derive(Debug)]
pub struct AlertRequest {
    pub url: String,
    pub body: String,
}

/// A webhook is posted to when enabled and given a URL.
pub open spec fn deliverable(w: WebhookConfig) -> bool {
    w.enabled && w.url@.len() > 0
}

/// The deliverable webhooks among the first `end`, in order.
pub open spec fn deliveries(ws: Seq<WebhookConfig>, end: int) -> Seq<WebhookConfig>
    decreases end,
{
    if end <= 0 {
        Seq::empty()
    } else if deliverable(ws[end - 1]) {
        deliveries(ws, end - 1).push(ws[end - 1])
    } else {
        deliveries(ws, end - 1)
    }
}

/// Message placed in alerts: the probe's message, or empty.
pub open spec fn detail_of(msg: Option<String>) -> Seq<char> {
    match msg {
        Some(m) => m@,
        None => Seq::empty(),
    }
}

/// The webhook deliveries for a state change of `target`: none when alerting
/// is disabled, else one per enabled webhook with a URL, in order.
pub fn plan_alerts(
    target: &Target,
    is_online: bool,
    config: &AlertConfig,
    extra_msg: &Option<String>,
    time: &String,
) -> (r: Vec<AlertRequest>)
    ensures
        !config.enabled ==> r@.len() == 0,
        config.enabled ==> {
            let d = deliveries(config.webhooks@, config.webhooks@.len() as int);
            &&& r@.len() == d.len()
            &&& forall|i: int|
                0 <= i < d.len() ==> (#[trigger] r@[i]).url@ == d[i].url@ && r@[i].body@
                    == payload_text(d[i], *target, is_online, time@, detail_of(*extra_msg))
        },
{
    let mut out: Vec<AlertRequest> = Vec::new();
    if !config.enabled {
        return out;
    }
    let detail = match extra_msg {
        Some(m) => m.clone(),
        None => String::new(),
    };
    let ws = &config.webhooks;
    let mut i: usize = 0;
    while i < ws.len()
        invariant
            0 <= i <= ws@.len(),
            detail@ == detail_of(*extra_msg),
            out@.len() == deliveries(ws@, i as int).len(),
            forall|j: int|
                0 <= j < out@.len() ==> (#[trigger] out@[j]).url@ == deliveries(ws@, i as int)[j].url@
                    && out@[j].body@ == payload_text(
                    deliveries(ws@, i as int)[j],
                    *target,
                    is_online,
                    time@,
                    detail@,
                ),
        decreases ws@.len() - i,
    {
        let w = &ws[i];
        if w.enabled && !w.url.as_str().is_empty() {
            let body = render_payload(w, target, is_online, time, &detail);
            let ghost o0 = out@;
            out.push(AlertRequest { url: w.url.clone(), body });
            assert forall|j: int| 0 <= j < out@.len() implies (#[trigger] out@[j]).url@ == deliveries(ws@, i + 1)[j].url@
                && out@[j].body@ == payload_text(deliveries(ws@, i + 1)[j], *target, is_online, time@, detail@) by {
                if j < o0.len() {
                    assert(out@[j] == o0[j]);
                }
            }
        }
        i = i + 1;
    }
    out
}

} // verus!
