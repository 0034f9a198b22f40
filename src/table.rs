use crate::model::{initial_state, probe_key, with_state, MonitorStatus, ProbeRecord, Protocol, Target};
use crate::monitor::{apply_probe, probe_applied, ProbeOutcome};
use vstd::prelude::*;

verus! {

/// Probe keys of a target list, in order.
pub open spec fn probe_keys(ts: Seq<Target>) -> Seq<(Seq<char>, Seq<char>, Option<u16>, Protocol)> {
    ts.map_values(|t: Target| probe_key(t))
}

/// Some target among the first `end` of `ts` has probe key `k`.
pub open spec fn targets_have_key(
    ts: Seq<Target>,
    k: (Seq<char>, Seq<char>, Option<u16>, Protocol),
    end: int,
) -> bool {
    exists|j: int| 0 <= j < end && #[trigger] probe_key(ts[j]) == k
}

/// Some entry among the first `end` of `tab` has probe key `k`.
pub open spec fn table_has_key(
    tab: Seq<MonitorStatus>,
    k: (Seq<char>, Seq<char>, Option<u16>, Protocol),
    end: int,
) -> bool {
    exists|j: int| 0 <= j < end && #[trigger] probe_key(tab[j].target) == k
}

/// Entry `m` is the first of `tab` with probe key `k`.
pub open spec fn first_with_key(
    tab: Seq<MonitorStatus>,
    k: (Seq<char>, Seq<char>, Option<u16>, Protocol),
    m: int,
) -> bool {
    0 <= m < tab.len() && probe_key(tab[m].target) == k && !table_has_key(tab, k, m)
}

/// `st` is the state that target `i` of `ts` gets when the engine moves from
/// table `tab` to target list `ts`: the history of the first entry with the
/// same probe key if the key is new in `ts` at `i`, otherwise a fresh state.
pub open spec fn synced_entry(tab: Seq<MonitorStatus>, ts: Seq<Target>, i: int, st: MonitorStatus) -> bool {
    let k = probe_key(ts[i]);
    &&& st.target == ts[i]
    &&& if !targets_have_key(ts, k, i) && table_has_key(tab, k, tab.len() as int) {
        exists|m: int|
            first_with_key(tab, k, m) && st.records@ == #[trigger] tab[m].records@
                && st.current_state == tab[m].current_state
    } else {
        st.records@.len() == 0 && st.current_state == initial_state(ts[i])
    }
}

/// `r` is the table for target list `ts` rebuilt from table `tab`.
pub open spec fn synced(tab: Seq<MonitorStatus>, ts: Seq<Target>, r: Seq<MonitorStatus>) -> bool {
    &&& r.len() == ts.len()
    &&& forall|i: int| 0 <= i < ts.len() ==> synced_entry(tab, ts, i, #[trigger] r[i])
}

/// Whether two targets are probed identically.
pub fn same_probe_key(a: &Target, b: &Target) -> (r: bool)
    ensures
        r == (probe_key(*a) == probe_key(*b)),
{
    let ports = match (a.port, b.port) {
        (Some(x), Some(y)) => x == y,
        (None, None) => true,
        _ => false,
    };
    a.id == b.id && a.host == b.host && ports && a.protocol == b.protocol
}

/// Whether a configuration change touches any probe-affecting field
/// (id, host, port, protocol) or the number or order of targets.
pub fn probe_keys_changed(cur: &Vec<Target>, new: &Vec<Target>) -> (r: bool)
    ensures
        r == (probe_keys(cur@) != probe_keys(new@)),
{
    if cur.len() != new.len() {
        assert(probe_keys(cur@).len() != probe_keys(new@).len());
        return true;
    }
    let mut i: usize = 0;
    while i < cur.len()
        invariant
            cur.len() == new.len(),
            0 <= i <= cur.len(),
            forall|j: int| 0 <= j < i ==> probe_key(cur@[j]) == probe_key(new@[j]),
        decreases cur.len() - i,
    {
        if !same_probe_key(&cur[i], &new[i]) {
            assert(probe_keys(cur@)[i as int] != probe_keys(new@)[i as int]);
            return true;
        }
        i = i + 1;
    }
    assert(probe_keys(cur@) =~= probe_keys(new@));
    false
}

/// Rebuilds the state table for a new target list, in the list's order.
/// A target keeps the history and state of the entry with its probe key; a
/// target whose key is new, or repeats an earlier target's, starts fresh.
pub fn sync_targets(table: Vec<MonitorStatus>, targets: Vec<Target>) -> (r: Vec<MonitorStatus>)
    ensures
        synced(table@, targets@, r@),
{
    let ghost tab = table@;
    let ghost ts = targets@;
    let mut table = table;
    let mut pool: Vec<Option<MonitorStatus>> = Vec::new();
    while table.len() > 0
        invariant
            pool@.len() + table@.len() == tab.len(),
            forall|p: int| 0 <= p < pool@.len() ==> pool@[p] == Some(tab[p]),
            forall|q: int| 0 <= q < table@.len() ==> table@[q] == tab[pool@.len() + q],
        decreases table@.len(),
    {
        let e = table.remove(0);
        pool.push(Some(e));
    }
    let mut targets = targets;
    let mut r: Vec<MonitorStatus> = Vec::new();
    let n = targets.len();
    let mut i: usize = 0;
    while i < n
        invariant
            n == ts.len(),
            0 <= i <= n,
            targets@ == ts.subrange(i as int, n as int),
            r@.len() == i,
            pool@.len() == tab.len(),
            forall|j: int| 0 <= j < i ==> synced_entry(tab, ts, j, #[trigger] r@[j]),
            forall|p: int|
                0 <= p < pool@.len() ==> pool@[p] == Some(tab[p]) || (pool@[p] is None
                    && targets_have_key(ts, probe_key(tab[p].target), i as int)),
        decreases n - i,
    {
        let t = targets.remove(0);
        assert(t == ts[i as int]);
        let mut dup = false;
        let mut j: usize = 0;
        while j < i
            invariant
                0 <= j <= i,
                r@.len() == i,
                i < ts.len(),
                t == ts[i as int],
                forall|x: int| 0 <= x < i ==> (#[trigger] r@[x]).target == ts[x],
                dup == targets_have_key(ts, probe_key(t), j as int),
            decreases i - j,
        {
            if same_probe_key(&r[j].target, &t) {
                dup = true;
            }
            j = j + 1;
        }
        let mut found: Option<usize> = None;
        if !dup {
            let mut p: usize = 0;
            while p < pool.len()
                invariant
                    0 <= p <= pool@.len(),
                    pool@.len() == tab.len(),
                    forall|x: int|
                        0 <= x < p && (found is None || x < found->0) ==> match #[trigger] pool@[x] {
                            Some(e) => probe_key(e.target) != probe_key(t),
                            None => true,
                        },
                    match found {
                        Some(q) => q < p && match pool@[q as int] {
                            Some(e) => probe_key(e.target) == probe_key(t),
                            None => false,
                        },
                        None => true,
                    },
                decreases pool@.len() - p,
            {
                if found.is_none() {
                    let hit = match &pool[p] {
                        Some(e) => same_probe_key(&e.target, &t),
                        None => false,
                    };
                    if hit {
                        found = Some(p);
                    }
                }
                p = p + 1;
            }
        }
        proof {
            let k = probe_key(t);
            if !dup {
                assert forall|x: int| 0 <= x < tab.len() && (found is None || x < found->0) implies probe_key(
                    tab[x].target,
                ) != k by {
                    if pool@[x] is None {
                        assert(targets_have_key(ts, probe_key(tab[x].target), i as int));
                    }
                }
                match found {
                    Some(q) => {
                        assert(pool@[q as int] == Some(tab[q as int]));
                        assert(first_with_key(tab, k, q as int));
                    },
                    None => {
                        assert(!table_has_key(tab, k, tab.len() as int));
                    },
                }
            }
        }
        let ghost pool0 = pool@;
        let st = match found {
            Some(p) => {
                let taken = pool.remove(p);
                pool.insert(p, None);
                match taken {
                    Some(e) => MonitorStatus {
                        target: t,
                        records: e.records,
                        current_state: e.current_state,
                    },
                    None => MonitorStatus::new(t),
                }
            },
            None => MonitorStatus::new(t),
        };
        proof {
            let k = probe_key(ts[i as int]);
            if !dup {
                if let Some(q) = found {
                    assert(pool0[q as int] == Some(tab[q as int]));
                    assert(st.records@ == tab[q as int].records@);
                    assert(first_with_key(tab, k, q as int));
                    assert(table_has_key(tab, k, tab.len() as int));
                }
            }
            assert(synced_entry(tab, ts, i as int, st));
        }
        let ghost r0 = r@;
        r.push(st);
        assert forall|j: int| 0 <= j <= i implies synced_entry(tab, ts, j, #[trigger] r@[j]) by {
            if j < i {
                assert(r@[j] == r0[j]);
            }
        }
        assert forall|p: int| 0 <= p < pool@.len() implies pool@[p] == Some(tab[p]) || (pool@[p] is None
            && targets_have_key(ts, probe_key(tab[p].target), i + 1)) by {
            if pool@[p] is None {
                if targets_have_key(ts, probe_key(tab[p].target), i as int) {
                    let w = choose|w: int| 0 <= w < i && #[trigger] probe_key(ts[w]) == probe_key(tab[p].target);
                    assert(0 <= w < i + 1 && probe_key(ts[w]) == probe_key(tab[p].target));
                } else {
                    assert(probe_key(ts[i as int]) == probe_key(tab[p].target));
                }
            }
        }
        i = i + 1;
    }
    r
}

/// `r` is the table after the configuration's targets move from `cur` to
/// `new`: rebuilt when a probe key changed, otherwise left exactly as it was.
pub open spec fn reloaded(
    tab: Seq<MonitorStatus>,
    cur: Seq<Target>,
    new: Seq<Target>,
    r: Seq<MonitorStatus>,
) -> bool {
    if probe_keys(cur) != probe_keys(new) {
        synced(tab, new, r)
    } else {
        r == tab
    }
}

/// Applies a configuration change to the state table. Edits that leave every
/// probe key in place (names, persisted states, retention, alerting) keep
/// the table untouched, so that persisting a state never resets history.
pub fn reload_table(table: Vec<MonitorStatus>, cur: &Vec<Target>, new: Vec<Target>) -> (r: Vec<
    MonitorStatus,
>)
    ensures
        reloaded(table@, cur@, new@, r@),
{
    if probe_keys_changed(cur, &new) {
        sync_targets(table, new)
    } else {
        table
    }
}

/// Entry `m` is the first of `tab` whose target has id `id`.
pub open spec fn first_with_id(tab: Seq<MonitorStatus>, id: Seq<char>, m: int) -> bool {
    &&& 0 <= m < tab.len()
    &&& tab[m].target.id@ == id
    &&& forall|x: int| 0 <= x < m ==> (#[trigger] tab[x]).target.id@ != id
}

/// No entry of `tab` has a target with id `id`.
pub open spec fn no_id(tab: Seq<MonitorStatus>, id: Seq<char>) -> bool {
    forall|x: int| 0 <= x < tab.len() ==> (#[trigger] tab[x]).target.id@ != id
}

/// Position of the first entry with target id `id`.
pub fn find_status(table: &Vec<MonitorStatus>, id: &String) -> (r: Option<usize>)
    ensures
        match r {
            Some(m) => first_with_id(table@, id@, m as int),
            None => no_id(table@, id@),
        },
{
    let mut i: usize = 0;
    while i < table.len()
        invariant
            0 <= i <= table@.len(),
            forall|x: int| 0 <= x < i ==> (#[trigger] table@[x]).target.id@ != id@,
        decreases table@.len() - i,
    {
        if table[i].target.id == *id {
            return Some(i);
        }
        i = i + 1;
    }
    None
}

/// Records a completed probe for the target with id `id` and applies the
/// debounce rules to it; nothing happens if no such target is monitored.
pub fn record_probe(
    table: &mut Vec<MonitorStatus>,
    id: &String,
    rec: ProbeRecord,
    limit: usize,
) -> (r: Option<ProbeOutcome>)
    ensures
        final(table)@.len() == old(table)@.len(),
        match r {
            None => no_id(old(table)@, id@) && final(table)@ == old(table)@,
            Some(out) => exists|m: int|
                first_with_id(old(table)@, id@, m) && probe_applied(
                    old(table)@[m],
                    rec,
                    limit as nat,
                    #[trigger] final(table)@[m],
                    out,
                ) && final(table)@ == old(table)@.update(m, final(table)@[m]),
        },
{
    match find_status(table, id) {
        None => None,
        Some(m) => {
            let mut st = table.remove(m);
            let out = apply_probe(&mut st, rec, limit);
            table.insert(m, st);
            assert(table@ =~= old(table)@.update(m as int, table@[m as int]));
            Some(out)
        },
    }
}

/// Notes a persisted state on the first entry with target id `id`; the
/// history and the debounced state stay as they are.
pub fn set_persisted_state(table: &mut Vec<MonitorStatus>, id: &String, s: bool)
    ensures
        final(table)@.len() == old(table)@.len(),
        match find_first_id(old(table)@, id@) {
            None => final(table)@ == old(table)@,
            Some(m) => {
                &&& final(table)@[m].target == with_state(old(table)@[m].target, Some(s))
                &&& final(table)@[m].records@ == old(table)@[m].records@
                &&& final(table)@[m].current_state == old(table)@[m].current_state
                &&& forall|x: int|
                    0 <= x < old(table)@.len() && x != m ==> #[trigger] final(table)@[x]
                        == old(table)@[x]
            },
        },
{
    match find_status(table, id) {
        None => {
            proof { lemma_find_first_id(old(table)@, id@); }
        },
        Some(m) => {
            proof { lemma_find_first_id(old(table)@, id@); }
            let mut st = table.remove(m);
            st.target.last_known_state = Some(s);
            table.insert(m, st);
        },
    }
}

/// The first entry with target id `id`, if any.
pub open spec fn find_first_id(tab: Seq<MonitorStatus>, id: Seq<char>) -> Option<int> {
    if exists|m: int| first_with_id(tab, id, m) {
        Some(choose|m: int| first_with_id(tab, id, m))
    } else {
        None
    }
}

/// There is at most one first entry for an id, and it exists unless no entry has the id.
pub proof fn lemma_find_first_id(tab: Seq<MonitorStatus>, id: Seq<char>)
    ensures
        match find_first_id(tab, id) {
            Some(m) => first_with_id(tab, id, m),
            None => no_id(tab, id),
        },
        forall|m: int| first_with_id(tab, id, m) ==> find_first_id(tab, id) == Some(m),
{
    if exists|m: int| first_with_id(tab, id, m) {
        let c = choose|m: int| first_with_id(tab, id, m);
        assert forall|m: int| first_with_id(tab, id, m) implies m == c by {
            if m < c {
                assert(tab[m].target.id@ != id);
            } else if m > c {
                assert(tab[c].target.id@ != id);
            }
        }
    } else {
        assert forall|x: int| 0 <= x < tab.len() implies (#[trigger] tab[x]).target.id@ != id by {
            if tab[x].target.id@ == id {
                lemma_first_id_exists(tab, id, x);
            }
        }
    }
}

/// An entry with id `id` at `x` means a first such entry exists.
proof fn lemma_first_id_exists(tab: Seq<MonitorStatus>, id: Seq<char>, x: int)
    requires
        0 <= x < tab.len(),
        tab[x].target.id@ == id,
    ensures
        exists|m: int| first_with_id(tab, id, m),
    decreases x,
{
    if exists|z: int| 0 <= z < x && (#[trigger] tab[z]).target.id@ == id {
        let z = choose|z: int| 0 <= z < x && (#[trigger] tab[z]).target.id@ == id;
        lemma_first_id_exists(tab, id, z);
    } else {
        assert(first_with_id(tab, id, x));
    }
}

/// Edits that keep every probe key (renames, persisted-state rewrites,
/// retention or alert changes) keep every target's history and state exactly.
pub proof fn lemma_same_keys_keep_history(
    tab: Seq<MonitorStatus>,
    cur: Seq<Target>,
    new: Seq<Target>,
    r: Seq<MonitorStatus>,
)
    requires
        reloaded(tab, cur, new, r),
        probe_keys(cur) == probe_keys(new),
    ensures
        r == tab,
{
}

/// Renaming a target keeps all history.
pub proof fn lemma_rename_keeps_history(
    tab: Seq<MonitorStatus>,
    cur: Seq<Target>,
    i: int,
    name: String,
    r: Seq<MonitorStatus>,
)
    requires
        0 <= i < cur.len(),
        reloaded(tab, cur, cur.update(i, Target { name: name, ..cur[i] }), r),
    ensures
        r == tab,
{
    let new = cur.update(i, Target { name: name, ..cur[i] });
    assert(probe_keys(cur) =~= probe_keys(new));
}

/// Changing the port of a target (same id) discards its history: with ids
/// unique and a table built for the old list, the target starts fresh.
pub proof fn lemma_port_change_discards_history(
    tab: Seq<MonitorStatus>,
    cur: Seq<Target>,
    i: int,
    port: Option<u16>,
    r: Seq<MonitorStatus>,
)
    requires
        0 <= i < cur.len(),
        port != cur[i].port,
        forall|a: int, b: int| 0 <= a < b < cur.len() ==> cur[a].id@ != cur[b].id@,
        forall|m: int|
            0 <= m < tab.len() ==> exists|j: int|
                0 <= j < cur.len() && probe_key(#[trigger] tab[m].target) == probe_key(cur[j]),
        reloaded(tab, cur, cur.update(i, Target { port: port, ..cur[i] }), r),
    ensures
        r.len() == cur.len(),
        r[i].records@.len() == 0,
        r[i].current_state == initial_state(cur[i]),
{
    let new = cur.update(i, Target { port: port, ..cur[i] });
    assert(probe_keys(cur)[i] != probe_keys(new)[i]);
    let k = probe_key(new[i]);
    if table_has_key(tab, k, tab.len() as int) {
        let m = choose|m: int| 0 <= m < tab.len() && #[trigger] probe_key(tab[m].target) == k;
        let j = choose|j: int| 0 <= j < cur.len() && probe_key(#[trigger] tab[m].target) == probe_key(cur[j]);
        if j < i {
            assert(cur[j].id@ != cur[i].id@);
        } else if j > i {
            assert(cur[i].id@ != cur[j].id@);
        }
    }
    assert(synced_entry(tab, new, i, r[i]));
}

/// The last of the first `end` cached entries with target id `id`.
pub open spec fn last_item_with_id(items: Seq<MonitorStatus>, id: Seq<char>, end: int) -> Option<int>
    decreases end,
{
    if end <= 0 {
        None
    } else if items[end - 1].target.id@ == id {
        Some(end - 1)
    } else {
        last_item_with_id(items, id, end - 1)
    }
}

/// Entry `x` is the first of `tab` with its target id.
pub open spec fn first_of_its_id(tab: Seq<MonitorStatus>, x: int) -> bool {
    forall|y: int| 0 <= y < x ==> (#[trigger] tab[y]).target.id@ != tab[x].target.id@
}

/// Entry `x` after restoring cached entries `items` into `tab`: the first
/// entry of each id takes history and state from the last cached entry with
/// that id; every other entry is untouched.
pub open spec fn restored_entry(tab: Seq<MonitorStatus>, items: Seq<MonitorStatus>, end: int, x: int, st: MonitorStatus) -> bool {
    &&& st.target == tab[x].target
    &&& match last_item_with_id(items, tab[x].target.id@, end) {
        Some(j) => if first_of_its_id(tab, x) {
            st.records@ == items[j].records@ && st.current_state == items[j].current_state
        } else {
            st.records@ == tab[x].records@ && st.current_state == tab[x].current_state
        },
        None => st.records@ == tab[x].records@ && st.current_state == tab[x].current_state,
    }
}

/// Restores cached history and state into the table; cached entries whose id
/// is not monitored are ignored.
pub fn restore_cache(table: &mut Vec<MonitorStatus>, items: Vec<MonitorStatus>)
    ensures
        final(table)@.len() == old(table)@.len(),
        forall|x: int|
            0 <= x < old(table)@.len() ==> restored_entry(
                old(table)@,
                items@,
                items@.len() as int,
                x,
                #[trigger] final(table)@[x],
            ),
{
    let ghost tab = table@;
    let ghost its = items@;
    let mut rest = items;
    let n = rest.len();
    let mut i: usize = 0;
    while i < n
        invariant
            n == its.len(),
            0 <= i <= n,
            rest@ == its.subrange(i as int, n as int),
            table@.len() == tab.len(),
            forall|x: int| 0 <= x < tab.len() ==> restored_entry(tab, its, i as int, x, #[trigger] table@[x]),
        decreases n - i,
    {
        let item = rest.remove(0);
        assert(item == its[i as int]);
        let ghost t0 = table@;
        match find_status(table, &item.target.id) {
            None => {
                assert forall|x: int| 0 <= x < tab.len() implies restored_entry(tab, its, i + 1, x, #[trigger] table@[x]) by {
                    assert(t0[x].target.id@ != item.target.id@);
                }
            },
            Some(m) => {
                let mut st = table.remove(m);
                st.records = item.records;
                st.current_state = item.current_state;
                table.insert(m, st);
                assert forall|x: int| 0 <= x < tab.len() implies restored_entry(tab, its, i + 1, x, #[trigger] table@[x]) by {
                    if x == m {
                        assert forall|y: int| 0 <= y < x implies (#[trigger] tab[y]).target.id@ != tab[x].target.id@ by {
                            assert(t0[y].target.id@ != item.target.id@);
                        }
                    } else {
                        assert(table@[x] == t0[x]);
                        if tab[x].target.id@ == item.target.id@ {
                            assert(!first_of_its_id(tab, x)) by {
                                if x > m {
                                    assert(tab[m as int].target.id@ == tab[x].target.id@);
                                } else {
                                    assert(t0[x].target.id@ != item.target.id@);
                                }
                            }
                        }
                    }
                }
            },
        }
        i = i + 1;
    }
}

/// With unique ids in the cache, the cached entry with an id is the last one.
proof fn lemma_unique_last_item(items: Seq<MonitorStatus>, j: int, end: int)
    requires
        0 <= j < end <= items.len(),
        forall|a: int, b: int| 0 <= a < b < items.len() ==> items[a].target.id@ != items[b].target.id@,
    ensures
        last_item_with_id(items, items[j].target.id@, end) == Some(j),
    decreases end,
{
    if end - 1 != j {
        lemma_unique_last_item(items, j, end - 1);
    }
}

/// Saving the table and loading it back into the table built for a
/// configuration restores history and state of every target whose id is still
/// configured (for the first entry of each id).
pub proof fn lemma_cache_round_trip(
    saved: Seq<MonitorStatus>,
    tab: Seq<MonitorStatus>,
    r: Seq<MonitorStatus>,
    x: int,
    j: int,
)
    requires
        forall|a: int, b: int| 0 <= a < b < saved.len() ==> saved[a].target.id@ != saved[b].target.id@,
        r.len() == tab.len(),
        forall|y: int| 0 <= y < tab.len() ==> restored_entry(tab, saved, saved.len() as int, y, #[trigger] r[y]),
        0 <= x < tab.len(),
        first_of_its_id(tab, x),
        0 <= j < saved.len(),
        saved[j].target.id@ == tab[x].target.id@,
    ensures
        r[x].records@ == saved[j].records@,
        r[x].current_state == saved[j].current_state,
{
    lemma_unique_last_item(saved, j, saved.len() as int);
    assert(restored_entry(tab, saved, saved.len() as int, x, r[x]));
}

/// Display rank of an id: its position in the configuration (the last one if
/// repeated), or after every configured target if unknown.
pub open spec fn rank_of(ts: Seq<Target>, id: Seq<char>, end: int) -> int
    decreases end,
{
    if end <= 0 {
        ts.len() as int
    } else if ts[end - 1].id@ == id {
        end - 1
    } else {
        rank_of(ts, id, end - 1)
    }
}

/// Positions among the first `end` of `ranks` whose rank is `k`, in order.
pub open spec fn positions_with_rank(ranks: Seq<int>, k: int, end: int) -> Seq<int>
    decreases end,
{
    if end <= 0 {
        Seq::empty()
    } else if ranks[end - 1] == k {
        positions_with_rank(ranks, k, end - 1).push(end - 1)
    } else {
        positions_with_rank(ranks, k, end - 1)
    }
}

/// Positions grouped by rank below `k`, ascending, keeping the input order within a rank.
pub open spec fn rank_order(ranks: Seq<int>, k: int) -> Seq<int>
    decreases k,
{
    if k <= 0 {
        Seq::empty()
    } else {
        rank_order(ranks, k - 1) + positions_with_rank(ranks, k - 1, ranks.len() as int)
    }
}

/// Rank of each status in configuration order.
pub open spec fn status_ranks(sts: Seq<MonitorStatus>, ts: Seq<Target>) -> Seq<int> {
    sts.map_values(|st: MonitorStatus| rank_of(ts, st.target.id@, ts.len() as int))
}

/// Display rank of `id` in `targets`.
pub fn rank_in(targets: &Vec<Target>, id: &String) -> (r: usize)
    ensures
        r as int == rank_of(targets@, id@, targets@.len() as int),
{
    let mut e: usize = targets.len();
    while e > 0
        invariant
            0 <= e <= targets@.len(),
            rank_of(targets@, id@, targets@.len() as int) == rank_of(targets@, id@, e as int),
        decreases e,
    {
        if targets[e - 1].id == *id {
            return e - 1;
        }
        e = e - 1;
    }
    targets.len()
}

/// Order in which statuses are listed to a new observer: by the position of
/// their target in the configuration, unknown ids last, ties in input order.
/// Returns positions into `statuses`.
pub fn init_order(statuses: &Vec<MonitorStatus>, targets: &Vec<Target>) -> (r: Vec<usize>)
    requires
        targets@.len() < usize::MAX,
    ensures
        r@.map_values(|p: usize| p as int) == rank_order(
            status_ranks(statuses@, targets@),
            targets@.len() as int + 1,
        ),
{
    let ghost ranks = status_ranks(statuses@, targets@);
    let mut ranks_v: Vec<usize> = Vec::new();
    let mut p: usize = 0;
    while p < statuses.len()
        invariant
            0 <= p <= statuses@.len(),
            ranks == status_ranks(statuses@, targets@),
            ranks.len() == statuses@.len(),
            ranks_v@.len() == p,
            forall|q: int| 0 <= q < p ==> ranks_v@[q] as int == #[trigger] ranks[q],
        decreases statuses@.len() - p,
    {
        let rk = rank_in(targets, &statuses[p].target.id);
        let ghost r0 = ranks_v@;
        ranks_v.push(rk);
        assert forall|q: int| 0 <= q < p + 1 implies ranks_v@[q] as int == #[trigger] ranks[q] by {
            if q < p {
                assert(ranks_v@[q] == r0[q]);
            } else {
                assert(ranks[q] == rank_of(targets@, statuses@[q].target.id@, targets@.len() as int));
            }
        }
        p = p + 1;
    }
    let mut out: Vec<usize> = Vec::new();
    let top = targets.len() + 1;
    let mut k: usize = 0;
    while k < top
        invariant
            top == targets@.len() + 1,
            0 <= k <= top,
            ranks.len() == statuses@.len(),
            ranks_v@.len() == statuses@.len(),
            forall|q: int| 0 <= q < ranks.len() ==> ranks_v@[q] as int == #[trigger] ranks[q],
            out@.map_values(|p: usize| p as int) == rank_order(ranks, k as int),
        decreases top - k,
    {
        let ghost before = out@.map_values(|p: usize| p as int);
        let mut j: usize = 0;
        while j < ranks_v.len()
            invariant
                0 <= j <= ranks_v@.len(),
                ranks.len() == ranks_v@.len(),
                forall|q: int| 0 <= q < ranks.len() ==> ranks_v@[q] as int == #[trigger] ranks[q],
                out@.map_values(|p: usize| p as int) == before + positions_with_rank(ranks, k as int, j as int),
            decreases ranks_v@.len() - j,
        {
            let ghost o0 = out@;
            if ranks_v[j] == k {
                assert(ranks[j as int] == k as int);
                assert(positions_with_rank(ranks, k as int, j + 1) == positions_with_rank(ranks, k as int, j as int).push(j as int));
                out.push(j);
                assert(out@ == o0.push(j));
                assert(out@.map_values(|p: usize| p as int) =~= o0.map_values(|p: usize| p as int).push(j as int));
                assert(out@.map_values(|p: usize| p as int) =~= before + positions_with_rank(ranks, k as int, j + 1));
            } else {
                assert(ranks[j as int] != k as int);
                assert(positions_with_rank(ranks, k as int, j + 1) == positions_with_rank(ranks, k as int, j as int));
            }
            j = j + 1;
        }
        assert(rank_order(ranks, k + 1) == rank_order(ranks, k as int) + positions_with_rank(ranks, k as int, ranks.len() as int));
        k = k + 1;
    }
    out
}

} // verus!
