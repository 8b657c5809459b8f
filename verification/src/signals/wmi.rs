//! The machine's state: what the system's tools and files say of it, and when a change in
//! it wakes the decision loop.

use crate::json::{
    field, item_models, items_in, lemma_item_models, parsed_json, read_json, text_in, Json,
    JsonModel,
};
use crate::metric::Metric;
use crate::models::{
    unknown_posture, DefenderStatus, FirewallStatus, NetworkInterface, SecurityPosture,
    SystemState,
};
use crate::cycle::{lemma_join_len, lemma_ordered_total};
use crate::text::{
    after_prefix, chars_of, copy_list, decimal, has_prefix, join, joined, lemma_views_push, lines,
    lines_of, listed, lossy_utf16, lossy_utf8, opt_view, ordered,
    ordered_is_the_same_texts_in_order, parse_nat, parsed_nat, same, sort_texts, split_by, split_on,
    split_whitespace, string_range, strip_text_prefix, total_len, trim, trimmed, unicode_lowercase,
    utf16_lossy, utf8_lossy, views, what_follows_a_prefix, words, written_number_reads_back,
};
use vstd::prelude::*;
use vstd::string::*;

verus! {

// ── Collecting ────────────────────────────────────────────────────────────────

/// Keep the last good value and record which collector failed, rather than letting one
/// flaky probe blank out an otherwise good snapshot.
pub fn retain_or_report<T: Clone>(
    value: Option<T>,
    previous: &T,
    source: &'static str,
    errors: &mut Vec<String>,
) -> (r: T)
    ensures
        match value {
            Some(v) => r == v && final(errors)@ == old(errors)@,
            None => cloned(*previous, r) && views(final(errors)@) == views(old(errors)@).push(
                source@,
            ),
        },
{
    match value {
        Some(v) => v,
        None => {
            let text = source.to_owned();
            proof {
                lemma_views_push(errors@, text);
            }
            errors.push(text);
            previous.clone()
        },
    }
}

/// What the probes of one snapshot found; a probe that failed found nothing.
pub struct Probes {
    pub uptime_secs: u64,
    pub cpu_usage_percent: Option<Metric>,
    /// Usage in per cent, and what is available in gigabytes.
    pub memory: Option<(Metric, Metric)>,
    /// Usage in per cent, and what is free in gigabytes.
    pub disk: Option<(Metric, Metric)>,
    /// How many services run, and which failed.
    pub services: Option<(usize, Vec<String>)>,
    pub network_interfaces: Option<Vec<NetworkInterface>>,
    pub network_errors: Option<u32>,
}

/// The probes that failed, in order.
pub open spec fn failed_probes(p: Probes) -> Seq<Seq<char>> {
    missing(p.cpu_usage_percent is None, "cpu"@) + missing(p.memory is None, "memory"@) + missing(
        p.disk is None,
        "disk"@,
    ) + missing(p.services is None, "services"@) + missing(
        p.network_interfaces is None,
        "network_interfaces"@,
    ) + missing(p.network_errors is None, "network_errors"@)
}

/// The name of a probe, where it failed.
pub open spec fn missing(failed: bool, source: Seq<char>) -> Seq<Seq<char>> {
    if failed {
        seq![source]
    } else {
        Seq::empty()
    }
}

fn report(failed: bool, source: &str, errors: &mut Vec<String>)
    ensures
        views(final(errors)@) == views(old(errors)@) + missing(failed, source@),
{
    if failed {
        let text = source.to_owned();
        proof {
            lemma_views_push(errors@, text);
        }
        errors.push(text);
    }
    assert(views(errors@) =~= views(old(errors)@) + missing(failed, source@));
}

/// The state of a snapshot: what the probes found, what was known before where a probe
/// failed, and which ones failed. A machine without the Windows stores knows nothing of its
/// disk's health, its updates or its security posture, which is no fault.
pub fn snapshot_state(previous: SystemState, probes: Probes, collected_at: i64) -> (r: SystemState)
    ensures
        r.collected_at == collected_at,
        views(r.collector_errors@) == failed_probes(probes),
        r.uptime_secs == probes.uptime_secs,
        r.cpu_usage_percent == (match probes.cpu_usage_percent {
            Some(v) => v,
            None => previous.cpu_usage_percent,
        }),
        (r.memory_usage_percent, r.memory_available_gb) == (match probes.memory {
            Some(v) => v,
            None => (previous.memory_usage_percent, previous.memory_available_gb),
        }),
        (r.disk_usage_percent, r.disk_free_gb) == (match probes.disk {
            Some(v) => v,
            None => (previous.disk_usage_percent, previous.disk_free_gb),
        }),
        (r.running_services_count, r.failed_services) == (match probes.services {
            Some(v) => v,
            None => (previous.running_services_count, previous.failed_services),
        }),
        r.network_interfaces == (match probes.network_interfaces {
            Some(v) => v,
            None => previous.network_interfaces,
        }),
        r.network_errors == (match probes.network_errors {
            Some(v) => v,
            None => previous.network_errors,
        }),
        r.disk_health@ == "unknown"@,
        r.windows_update_status@ == "unknown"@,
        r.security == unknown_posture(),
{
    let mut errors: Vec<String> = Vec::new();
    assert(views(errors@) =~= Seq::<Seq<char>>::empty());
    report(probes.cpu_usage_percent.is_none(), "cpu", &mut errors);
    report(probes.memory.is_none(), "memory", &mut errors);
    report(probes.disk.is_none(), "disk", &mut errors);
    report(probes.services.is_none(), "services", &mut errors);
    report(probes.network_interfaces.is_none(), "network_interfaces", &mut errors);
    report(probes.network_errors.is_none(), "network_errors", &mut errors);
    assert(views(errors@) =~= failed_probes(probes));
    let cpu_usage_percent = match probes.cpu_usage_percent {
        Some(v) => v,
        None => previous.cpu_usage_percent,
    };
    let (memory_usage_percent, memory_available_gb) = match probes.memory {
        Some(v) => v,
        None => (previous.memory_usage_percent, previous.memory_available_gb),
    };
    let (disk_usage_percent, disk_free_gb) = match probes.disk {
        Some(v) => v,
        None => (previous.disk_usage_percent, previous.disk_free_gb),
    };
    let (running_services_count, failed_services) = match probes.services {
        Some(v) => v,
        None => (previous.running_services_count, previous.failed_services),
    };
    let network_interfaces = match probes.network_interfaces {
        Some(v) => v,
        None => previous.network_interfaces,
    };
    let network_errors: u32 = match probes.network_errors {
        Some(v) => v,
        None => previous.network_errors,
    };
    SystemState {
        collected_at,
        collector_errors: errors,
        uptime_secs: probes.uptime_secs,
        cpu_usage_percent,
        memory_usage_percent,
        memory_available_gb,
        disk_usage_percent,
        disk_free_gb,
        running_services_count,
        failed_services,
        network_interfaces,
        network_errors,
        disk_health: "unknown".to_owned(),
        windows_update_status: "unknown".to_owned(),
        security: SecurityPosture {
            firewall: FirewallStatus { domain: None, private: None, public: None },
            defender: DefenderStatus {
                realtime_enabled: None,
                antivirus_enabled: None,
                signature_age_days: None,
            },
        },
    }
}

/// Whether a state is the one before anything was collected.
pub open spec fn not_collected(s: SystemState) -> bool {
    let zero = Metric { bits: 0 };
    &&& s.collected_at == 0
    &&& views(s.collector_errors@) == seq!["not_collected"@]
    &&& s.uptime_secs == 0
    &&& s.cpu_usage_percent == zero
    &&& s.memory_usage_percent == zero
    &&& s.memory_available_gb == zero
    &&& s.disk_usage_percent == zero
    &&& s.disk_free_gb == zero
    &&& s.running_services_count == 0
    &&& s.failed_services@.len() == 0
    &&& s.network_interfaces@.len() == 0
    &&& s.network_errors == 0
    &&& s.disk_health@ == "unknown"@
    &&& s.windows_update_status@ == "unknown"@
    &&& s.security == unknown_posture()
}

/// The collected state, or the one before anything was collected.
pub fn current(collected: Option<SystemState>) -> (r: SystemState)
    ensures
        match collected {
            Some(state) => r == state,
            None => not_collected(r),
        },
{
    match collected {
        Some(state) => state,
        None => {
            let zero = Metric { bits: 0 };
            let mut collector_errors: Vec<String> = Vec::new();
            collector_errors.push("not_collected".to_owned());
            assert(views(collector_errors@) =~= seq!["not_collected"@]);
            SystemState {
                collected_at: 0,
                collector_errors,
                uptime_secs: 0,
                cpu_usage_percent: zero,
                memory_usage_percent: zero,
                memory_available_gb: zero,
                disk_usage_percent: zero,
                disk_free_gb: zero,
                running_services_count: 0,
                failed_services: Vec::new(),
                network_interfaces: Vec::new(),
                network_errors: 0,
                disk_health: "unknown".to_owned(),
                windows_update_status: "unknown".to_owned(),
                security: SecurityPosture {
                    firewall: FirewallStatus { domain: None, private: None, public: None },
                    defender: DefenderStatus {
                        realtime_enabled: None,
                        antivirus_enabled: None,
                        signature_age_days: None,
                    },
                },
            }
        },
    }
}

/// The errors without those of the services.
pub open spec fn without_services(errors: Seq<String>) -> Seq<String>
    decreases errors.len(),
{
    if errors.len() == 0 {
        Seq::empty()
    } else if errors.last()@ == "services"@ {
        without_services(errors.drop_last())
    } else {
        without_services(errors.drop_last()).push(errors.last())
    }
}

/// A state with other services, and errors.
pub open spec fn with_services(
    s: SystemState,
    running: usize,
    failed: Seq<String>,
    errors: Seq<String>,
    r: SystemState,
) -> bool {
    &&& r.running_services_count == running
    &&& r.failed_services@ == failed
    &&& r.collector_errors@ == errors
    &&& r.collected_at == s.collected_at
    &&& r.uptime_secs == s.uptime_secs
    &&& r.cpu_usage_percent == s.cpu_usage_percent
    &&& r.memory_usage_percent == s.memory_usage_percent
    &&& r.memory_available_gb == s.memory_available_gb
    &&& r.disk_usage_percent == s.disk_usage_percent
    &&& r.disk_free_gb == s.disk_free_gb
    &&& r.network_interfaces == s.network_interfaces
    &&& r.network_errors == s.network_errors
    &&& r.disk_health == s.disk_health
    &&& r.windows_update_status == s.windows_update_status
    &&& r.security == s.security
}

fn drop_services(errors: &Vec<String>) -> (r: Vec<String>)
    ensures
        r@ == without_services(errors@),
{
    let mut out: Vec<String> = Vec::new();
    let mut i: usize = 0;
    assert(errors@.take(0) =~= Seq::<String>::empty());
    while i < errors.len()
        invariant
            i <= errors@.len(),
            out@ == without_services(errors@.take(i as int)),
        decreases errors@.len() - i,
    {
        assert(errors@.take(i + 1).drop_last() =~= errors@.take(i as int));
        if !same(errors[i].as_str(), "services") {
            out.push(errors[i].clone());
        }
        i += 1;
    }
    assert(errors@.take(errors@.len() as int) =~= errors@);
    out
}

fn has_services_error(errors: &Vec<String>) -> (r: bool)
    ensures
        r == listed(errors@, "services"@),
{
    crate::text::is_listed(errors, "services")
}

/// Apply a rescan of the services alone to the collected state, and the failed services to
/// show. Where it could not be made, the last good ones stand, and the state says so.
pub fn rescan_failed_services(
    collected: &mut Option<SystemState>,
    found: Option<(usize, Vec<String>)>,
) -> (r: Vec<String>)
    ensures
        match (*old(collected), found) {
            (Some(state), Some((running, failed))) => {
                &&& r@ == failed@
                &&& *final(collected) is Some
                &&& with_services(
                    state,
                    running,
                    failed@,
                    without_services(state.collector_errors@),
                    (*final(collected))->0,
                )
            },
            (None, Some((_, failed))) => r@ == failed@ && *final(collected) is None,
            (Some(state), None) => {
                &&& r@ == state.failed_services@
                &&& *final(collected) is Some
                &&& with_services(
                    state,
                    state.running_services_count,
                    state.failed_services@,
                    ((*final(collected))->0).collector_errors@,
                    (*final(collected))->0,
                )
                &&& views(((*final(collected))->0).collector_errors@) == (if listed(
                    state.collector_errors@,
                    "services"@,
                ) {
                    views(state.collector_errors@)
                } else {
                    views(state.collector_errors@).push("services"@)
                })
            },
            (None, None) => r@.len() == 0 && *final(collected) is None,
        },
{
    match collected.take() {
        Some(mut state) => match found {
            Some((running, failed)) => {
                let shown = copy_list(&failed);
                state.running_services_count = running;
                state.failed_services = failed;
                let errors = drop_services(&state.collector_errors);
                state.collector_errors = errors;
                *collected = Some(state);
                shown
            },
            None => {
                let shown = copy_list(&state.failed_services);
                if !has_services_error(&state.collector_errors) {
                    let text = "services".to_owned();
                    proof {
                        lemma_views_push(state.collector_errors@, text);
                    }
                    state.collector_errors.push(text);
                }
                *collected = Some(state);
                shown
            },
        },
        None => match found {
            Some((_, failed)) => failed,
            None => Vec::new(),
        },
    }
}

// ── Faults ────────────────────────────────────────────────────────────────────

/// The key of a state's faults: its parts, in order, one to a line.
pub open spec fn key_of_faults(s: SystemState) -> Seq<char> {
    join(ordered(s.faults()), "\n"@)
}

/// The key of a state's faults, by which a change in them is noticed.
pub fn fault_key(s: &SystemState) -> (r: String)
    ensures
        r@ == key_of_faults(*s),
{
    let parts = sort_texts(s.fault_parts());
    joined(&parts, "\n")
}

/// Whether the faults changed between two snapshots, by their keys. One that comes and one
/// that goes both count; one that stays does not.
pub fn fault_changed(prev: &str, cur: &str) -> (r: bool)
    ensures
        r == (prev@ != cur@),
{
    !same(prev, cur)
}

/// The order in which the services are listed does not change the key.
pub proof fn fault_key_ignores_the_order_of_faults(a: SystemState, b: SystemState)
    requires
        a.faults().to_multiset() == b.faults().to_multiset(),
    ensures
        key_of_faults(a) == key_of_faults(b),
{
    crate::text::order_of_arrival_does_not_matter(a.faults(), b.faults());
}

/// A machine without faults has the empty key.
pub proof fn healthy_machine_has_the_empty_key(s: SystemState)
    requires
        s.faults().len() == 0,
    ensures
        key_of_faults(s).len() == 0,
{
    ordered_is_the_same_texts_in_order(s.faults());
}

// ── Files of the system ───────────────────────────────────────────────────────

/// The numbers among the words, in order; a word that is none is passed over.
pub open spec fn numbers(ws: Seq<Seq<char>>) -> Seq<u64>
    decreases ws.len(),
{
    if ws.len() == 0 {
        Seq::empty()
    } else {
        match parsed_nat(ws.last(), u64::MAX as int) {
            Some(n) => numbers(ws.drop_last()).push(n as u64),
            None => numbers(ws.drop_last()),
        }
    }
}

fn parse_numbers(ws: &Vec<String>, from: usize) -> (r: Vec<u64>)
    requires
        from <= ws@.len(),
    ensures
        r@ == numbers(views(ws@).skip(from as int)),
{
    let ghost all = views(ws@).skip(from as int);
    let mut out: Vec<u64> = Vec::new();
    let mut i: usize = from;
    assert(all.take(0) =~= Seq::<Seq<char>>::empty());
    while i < ws.len()
        invariant
            from <= i <= ws@.len(),
            all == views(ws@).skip(from as int),
            out@ == numbers(all.take(i - from)),
        decreases ws@.len() - i,
    {
        assert(all.take(i + 1 - from).drop_last() =~= all.take(i - from));
        assert(all.take(i + 1 - from).last() == ws@[i as int]@);
        if let Some(n) = parse_nat(ws[i].as_str(), u64::MAX) {
            out.push(n);
        }
        i += 1;
    }
    assert(all.take(all.len() as int) =~= all);
    out
}

/// The sum of some numbers.
pub open spec fn total(s: Seq<u64>) -> nat
    decreases s.len(),
{
    if s.len() == 0 {
        0
    } else {
        total(s.drop_last()) + s.last() as nat
    }
}

/// The first line that starts with a text.
pub open spec fn first_with_prefix(ls: Seq<Seq<char>>, prefix: Seq<char>) -> Option<Seq<char>>
    decreases ls.len(),
{
    if ls.len() == 0 {
        None
    } else if prefix.is_prefix_of(ls[0]) {
        Some(ls[0])
    } else {
        first_with_prefix(ls.skip(1), prefix)
    }
}

/// The idle ticks and the ticks in all of a line of counts: idle and waiting for devices,
/// which are the fourth and the fifth; fewer than four counts say nothing, nor do counts
/// whose sum is no number of that size.
pub open spec fn ticks(counts: Seq<u64>) -> Option<(u64, u64)> {
    let waiting = if counts.len() > 4 {
        counts[4]
    } else {
        0
    };
    if counts.len() < 4 || total(counts) > u64::MAX {
        None
    } else {
        Some(((counts[3] + waiting) as u64, total(counts) as u64))
    }
}

/// The words of a line after the name that it starts with.
pub open spec fn after_name(ws: Seq<Seq<char>>) -> Seq<Seq<char>> {
    if ws.len() > 0 {
        ws.skip(1)
    } else {
        ws
    }
}

/// The idle ticks and the ticks in all of the processors together.
pub open spec fn cpu_ticks(contents: Seq<char>) -> Option<(u64, u64)> {
    match first_with_prefix(lines(contents), "cpu "@) {
        Some(line) => ticks(numbers(after_name(words(line)))),
        None => None,
    }
}

fn first_line_with(ls: &Vec<String>, prefix: &str) -> (r: Option<usize>)
    ensures
        match r {
            Some(i) => i < ls@.len() && first_with_prefix(views(ls@), prefix@) == Some(
                ls@[i as int]@,
            ),
            None => first_with_prefix(views(ls@), prefix@) is None,
        },
{
    let ghost all = views(ls@);
    let mut i: usize = 0;
    assert(all.skip(0) =~= all);
    while i < ls.len()
        invariant
            i <= ls@.len(),
            all == views(ls@),
            first_with_prefix(all, prefix@) == first_with_prefix(all.skip(i as int), prefix@),
        decreases ls@.len() - i,
    {
        assert(all.skip(i as int)[0] == ls@[i as int]@);
        if has_prefix(ls[i].as_str(), prefix) {
            return Some(i);
        }
        assert(all.skip(i as int).skip(1) =~= all.skip(i + 1));
        i += 1;
    }
    None
}

proof fn lemma_total_covers(s: Seq<u64>, k: int)
    requires
        0 <= k <= s.len(),
    ensures
        total(s.take(k)) <= total(s),
    decreases s.len(),
{
    if k < s.len() {
        lemma_total_covers(s.drop_last(), k);
        assert(s.drop_last().take(k) =~= s.take(k));
    } else {
        assert(s.take(k) =~= s);
    }
}

fn sum_ticks(counts: &Vec<u64>) -> (r: Option<u64>)
    ensures
        r == (if total(counts@) <= u64::MAX {
            Some(total(counts@) as u64)
        } else {
            None
        }),
{
    let mut sum: u64 = 0;
    let mut i: usize = 0;
    assert(counts@.take(0) =~= Seq::<u64>::empty());
    while i < counts.len()
        invariant
            i <= counts@.len(),
            sum == total(counts@.take(i as int)),
        decreases counts@.len() - i,
    {
        let ghost next = counts@.take(i + 1);
        assert(next.drop_last() =~= counts@.take(i as int));
        assert(next.last() == counts@[i as int]);
        match sum.checked_add(counts[i]) {
            Some(s) => {
                sum = s;
            },
            None => {
                proof {
                    lemma_total_covers(counts@, i + 1);
                }
                return None;
            },
        }
        i += 1;
    }
    assert(counts@.take(counts@.len() as int) =~= counts@);
    Some(sum)
}

/// The idle ticks and the ticks in all, from the kernel's statistics.
pub fn parse_cpu_line(contents: &str) -> (r: Option<(u64, u64)>)
    ensures
        r == cpu_ticks(contents@),
{
    let ls = lines_of(contents);
    let i: usize = match first_line_with(&ls, "cpu ") {
        Some(i) => i,
        None => return None,
    };
    let ws = split_whitespace(ls[i].as_str());
    assert(views(ws@).len() == ws@.len());
    let from: usize = if ws.len() > 0 {
        1
    } else {
        0
    };
    let counts = parse_numbers(&ws, from);
    assert(views(ws@).skip(from as int) =~= after_name(words(ls@[i as int]@)));
    if counts.len() < 4 {
        return None;
    }
    match sum_ticks(&counts) {
        Some(sum) => {
            proof {
                lemma_total_covers(counts@, 4);
                let c = counts@;
                assert(c.take(4).drop_last() =~= c.take(3));
                if c.len() > 4 {
                    lemma_total_covers(c, 5);
                    assert(c.take(5).drop_last() =~= c.take(4));
                }
            }
            let waiting: u64 = if counts.len() > 4 {
                counts[4]
            } else {
                0
            };
            Some((counts[3] + waiting, sum))
        },
        None => None,
    }
}

/// The idle ticks and the ticks in all between two readings; none where no tick passed.
pub fn tick_deltas(first: (u64, u64), second: (u64, u64)) -> (r: Option<(u64, u64)>)
    ensures
        r == (if second.1 > first.1 {
            Some(
                (
                    if second.0 > first.0 {
                        (second.0 - first.0) as u64
                    } else {
                        0
                    },
                    (second.1 - first.1) as u64,
                ),
            )
        } else {
            None
        }),
{
    let idle: u64 = second.0.saturating_sub(first.0);
    let all: u64 = second.1.saturating_sub(first.1);
    if all == 0 {
        None
    } else {
        Some((idle, all))
    }
}

/// What reading the lines of the memory's statistics came to so far: the kilobytes in all
/// and those available, and whether a line had no number at all.
pub struct MemoryLines {
    pub all: Option<u64>,
    pub available: Option<u64>,
    pub broken: bool,
}

/// The number that a line gives after its name.
pub open spec fn first_number(rest: Seq<char>) -> Option<u64> {
    if words(rest).len() == 0 {
        None
    } else {
        match parsed_nat(words(rest)[0], u64::MAX as int) {
            Some(n) => Some(n as u64),
            None => None,
        }
    }
}

/// The state after some lines.
pub open spec fn memory_lines(ls: Seq<Seq<char>>) -> MemoryLines
    decreases ls.len(),
{
    if ls.len() == 0 {
        MemoryLines { all: None, available: None, broken: false }
    } else {
        let before = memory_lines(ls.drop_last());
        match (after_prefix(ls.last(), "MemTotal:"@), after_prefix(ls.last(), "MemAvailable:"@)) {
            (Some(rest), _) => MemoryLines {
                all: first_number(rest),
                broken: before.broken || words(rest).len() == 0,
                ..before
            },
            (None, Some(rest)) => MemoryLines {
                available: first_number(rest),
                broken: before.broken || words(rest).len() == 0,
                ..before
            },
            (None, None) => before,
        }
    }
}

/// The memory in all, the part in use and the part available, in kilobytes; none where one
/// of them cannot be read or there is no memory at all.
pub open spec fn memory_kb(contents: Seq<char>) -> Option<(u64, u64, u64)> {
    let m = memory_lines(lines(contents));
    match (m.all, m.available) {
        (Some(all), Some(available)) => if m.broken || all == 0 {
            None
        } else {
            Some(
                (
                    all,
                    if all > available {
                        (all - available) as u64
                    } else {
                        0
                    },
                    available,
                ),
            )
        },
        _ => None,
    }
}

/// The number that a line gives after its name, and whether there is a word at all.
fn number_after(rest: &str) -> (r: (Option<u64>, bool))
    ensures
        r.0 == first_number(rest@),
        r.1 == (words(rest@).len() == 0),
{
    let ws = split_whitespace(rest);
    assert(views(ws@).len() == ws@.len());
    if ws.len() == 0 {
        (None, true)
    } else {
        assert(views(ws@)[0] == ws@[0]@);
        (parse_nat(ws[0].as_str(), u64::MAX), false)
    }
}

/// The memory in all, the part in use and the part available, in kilobytes.
pub fn parse_meminfo(contents: &str) -> (r: Option<(u64, u64, u64)>)
    ensures
        r == memory_kb(contents@),
{
    let ls = lines_of(contents);
    let ghost texts = lines(contents@);
    let mut all: Option<u64> = None;
    let mut available: Option<u64> = None;
    let mut broken = false;
    let mut i: usize = 0;
    assert(texts.take(0) =~= Seq::<Seq<char>>::empty());
    while i < ls.len()
        invariant
            i <= ls@.len(),
            views(ls@) == texts,
            memory_lines(texts.take(i as int)) == (MemoryLines { all, available, broken }),
        decreases ls@.len() - i,
    {
        assert(texts.take(i + 1).drop_last() =~= texts.take(i as int));
        assert(texts.take(i + 1).last() == ls@[i as int]@);
        let line = ls[i].as_str();
        if let Some(rest) = strip_text_prefix(line, "MemTotal:") {
            let (number, blank) = number_after(rest.as_str());
            all = number;
            broken = broken || blank;
        } else if let Some(rest) = strip_text_prefix(line, "MemAvailable:") {
            let (number, blank) = number_after(rest.as_str());
            available = number;
            broken = broken || blank;
        }
        i += 1;
    }
    assert(texts.take(texts.len() as int) =~= texts);
    if broken {
        return None;
    }
    match (all, available) {
        (Some(a), Some(b)) => {
            if a == 0 {
                None
            } else {
                Some((a, a.saturating_sub(b), b))
            }
        },
        _ => None,
    }
}

/// The kilobytes of memory that the first line about them gives.
pub open spec fn total_kb(contents: Seq<char>) -> Option<u64> {
    match first_with_prefix(lines(contents), "MemTotal:"@) {
        Some(line) => first_number(line.skip("MemTotal:"@.len() as int)),
        None => None,
    }
}

/// The kilobytes of memory that the first line about them gives.
pub fn parse_total_kb(contents: &str) -> (r: Option<u64>)
    ensures
        r == total_kb(contents@),
{
    let ls = lines_of(contents);
    match first_line_with(&ls, "MemTotal:") {
        Some(i) => {
            proof {
                lemma_first_has_prefix(views(ls@), "MemTotal:"@);
            }
            match strip_text_prefix(ls[i].as_str(), "MemTotal:") {
                Some(rest) => number_after(rest.as_str()).0,
                None => None,
            }
        },
        None => None,
    }
}

proof fn lemma_first_has_prefix(ls: Seq<Seq<char>>, prefix: Seq<char>)
    ensures
        first_with_prefix(ls, prefix) is Some ==> prefix.is_prefix_of(
            first_with_prefix(ls, prefix)->0,
        ),
    decreases ls.len(),
{
    if ls.len() > 0 && !prefix.is_prefix_of(ls[0]) {
        lemma_first_has_prefix(ls.skip(1), prefix);
    }
}

/// The bytes in all, in use and available of a file system, from its counts of blocks; none
/// where it has no blocks or their bytes are no number of that size.
pub fn disk_bytes(blocks: u64, available: u64, block_size: u64) -> (r: Option<(u64, u64, u64)>)
    ensures
        r == ({
            let size = if block_size == 0 {
                1
            } else {
                block_size as int
            };
            let all = blocks * size;
            let free = available * size;
            if all == 0 || all > u64::MAX || free > u64::MAX {
                None
            } else {
                Some(
                    (
                        all as u64,
                        if all > free {
                            (all - free) as u64
                        } else {
                            0
                        },
                        free as u64,
                    ),
                )
            }
        }),
{
    let size: u64 = if block_size == 0 {
        1
    } else {
        block_size
    };
    let all: u64 = match blocks.checked_mul(size) {
        Some(n) => n,
        None => return None,
    };
    let free: u64 = match available.checked_mul(size) {
        Some(n) => n,
        None => return None,
    };
    if all == 0 {
        None
    } else {
        Some((all, all.saturating_sub(free), free))
    }
}

/// How many lines are not blank.
pub open spec fn nonblank(ls: Seq<Seq<char>>) -> nat
    decreases ls.len(),
{
    if ls.len() == 0 {
        0
    } else if trim(ls.last()).len() > 0 {
        nonblank(ls.drop_last()) + 1
    } else {
        nonblank(ls.drop_last())
    }
}

/// The first word of each line that has one.
pub open spec fn first_words(ls: Seq<Seq<char>>) -> Seq<Seq<char>>
    decreases ls.len(),
{
    if ls.len() == 0 {
        Seq::empty()
    } else if words(ls.last()).len() > 0 {
        first_words(ls.drop_last()).push(words(ls.last())[0])
    } else {
        first_words(ls.drop_last())
    }
}

/// How many services run and which failed, from what the service manager printed of each.
pub fn get_services(running: &Vec<u8>, failed: &Vec<u8>) -> (r: (usize, Vec<String>))
    ensures
        r.0 == nonblank(lines(utf8_lossy(running@))),
        views(r.1@) == first_words(lines(utf8_lossy(failed@))),
{
    let up = lossy_utf8(running.as_slice());
    let up = lines_of(up.as_str());
    let ghost texts = lines(utf8_lossy(running@));
    let mut count: usize = 0;
    let mut i: usize = 0;
    assert(texts.take(0) =~= Seq::<Seq<char>>::empty());
    while i < up.len()
        invariant
            i <= up@.len(),
            count <= i,
            views(up@) == texts,
            count == nonblank(texts.take(i as int)),
        decreases up@.len() - i,
    {
        assert(texts.take(i + 1).drop_last() =~= texts.take(i as int));
        assert(texts.take(i + 1).last() == up@[i as int]@);
        let text = trimmed(up[i].as_str());
        if !text.as_str().is_empty() {
            count += 1;
        }
        i += 1;
    }
    assert(texts.take(texts.len() as int) =~= texts);
    let down = lossy_utf8(failed.as_slice());
    let down = lines_of(down.as_str());
    let ghost texts = lines(utf8_lossy(failed@));
    let mut names: Vec<String> = Vec::new();
    let mut k: usize = 0;
    assert(texts.take(0) =~= Seq::<Seq<char>>::empty());
    assert(views(names@) =~= Seq::<Seq<char>>::empty());
    while k < down.len()
        invariant
            k <= down@.len(),
            views(down@) == texts,
            views(names@) == first_words(texts.take(k as int)),
        decreases down@.len() - k,
    {
        assert(texts.take(k + 1).drop_last() =~= texts.take(k as int));
        assert(texts.take(k + 1).last() == down@[k as int]@);
        let ws = split_whitespace(down[k].as_str());
        assert(views(ws@).len() == ws@.len());
        if ws.len() > 0 {
            assert(views(ws@)[0] == ws@[0]@);
            let name = ws[0].clone();
            proof {
                lemma_views_push(names@, name);
            }
            names.push(name);
        }
        k += 1;
    }
    assert(texts.take(texts.len() as int) =~= texts);
    (count, names)
}

/// What stands before the first colon of a line, and after it.
pub open spec fn at_colon(line: Seq<char>) -> Option<(Seq<char>, Seq<char>)>
    decreases line.len(),
{
    if line.len() == 0 {
        None
    } else if line[0] == ':' {
        Some((Seq::empty(), line.skip(1)))
    } else {
        match at_colon(line.skip(1)) {
            Some((before, after)) => Some((seq![line[0]] + before, after)),
            None => None,
        }
    }
}

/// What stands before the first colon of a line, and after it.
pub fn split_at_colon(line: &str) -> (r: Option<(String, String)>)
    ensures
        match r {
            Some((before, after)) => at_colon(line@) == Some((before@, after@)),
            None => at_colon(line@) is None,
        },
{
    let v = chars_of(line);
    let ghost s = line@;
    let mut i: usize = 0;
    assert(s.skip(0) =~= s);
    assert(s.take(0) =~= Seq::<char>::empty());
    assert(match at_colon(s) {
        Some((before, after)) => Seq::<char>::empty() + before =~= before,
        None => true,
    });
    while i < v.len()
        invariant
            i <= v@.len(),
            v@ == s,
            s == line@,
            at_colon(s) == (match at_colon(s.skip(i as int)) {
                Some((before, after)) => Some((s.take(i as int) + before, after)),
                None => None,
            }),
        decreases v@.len() - i,
    {
        let ghost rest = s.skip(i as int);
        assert(rest[0] == v@[i as int]);
        assert(rest.skip(1) =~= s.skip(i + 1));
        if v[i] == ':' {
            let before = string_range(&v, 0, i);
            let after = string_range(&v, i + 1, v.len());
            assert(before@ =~= s.take(i as int) + Seq::<char>::empty());
            assert(after@ =~= rest.skip(1));
            return Some((before, after));
        }
        proof {
            match at_colon(rest.skip(1)) {
                Some((before, after)) => {
                    assert(s.take(i as int) + (seq![rest[0]] + before) =~= s.take(i + 1) + before);
                },
                None => {},
            }
        }
        i += 1;
    }
    assert(s.skip(s.len() as int).len() == 0);
    None
}

/// The errors that a line of the network's statistics gives: received and sent. The
/// loopback interface and a line with too few counts give none.
pub open spec fn line_errors(line: Seq<char>) -> nat {
    match at_colon(line) {
        Some((name, rest)) => {
            let counts = numbers(words(rest));
            if trim(name) == "lo"@ || counts.len() < 16 {
                0
            } else {
                (counts[2] + counts[10]) as nat
            }
        },
        None => 0,
    }
}

/// The errors of all lines together.
pub open spec fn all_errors(ls: Seq<Seq<char>>) -> nat
    decreases ls.len(),
{
    if ls.len() == 0 {
        0
    } else {
        all_errors(ls.drop_last()) + line_errors(ls.last())
    }
}

/// The network errors of all interfaces but the loopback, at most as many as the result can
/// hold. The first two lines are headings.
pub open spec fn net_errors(contents: Seq<char>) -> nat {
    let ls = lines(contents);
    let n = all_errors(
        if ls.len() > 2 {
            ls.skip(2)
        } else {
            Seq::empty()
        },
    );
    if n > u32::MAX {
        u32::MAX as nat
    } else {
        n
    }
}

fn errors_of_line(line: &str) -> (r: u64)
    ensures
        r == (if line_errors(line@) > u64::MAX {
            u64::MAX as nat
        } else {
            line_errors(line@)
        }),
{
    match split_at_colon(line) {
        Some((name, rest)) => {
            let name = trimmed(name.as_str());
            if same(name.as_str(), "lo") {
                return 0;
            }
            let ws = split_whitespace(rest.as_str());
            let counts = parse_numbers(&ws, 0);
            assert(views(ws@).skip(0) =~= views(ws@));
            if counts.len() < 16 {
                return 0;
            }
            counts[2].saturating_add(counts[10])
        },
        None => 0,
    }
}

/// The network errors of all interfaces but the loopback.
pub fn parse_net_dev_errors(contents: &str) -> (r: Option<u32>)
    ensures
        r == Some(net_errors(contents@) as u32),
{
    let ls = lines_of(contents);
    let ghost texts = lines(contents@);
    let ghost body = if texts.len() > 2 {
        texts.skip(2)
    } else {
        Seq::empty()
    };
    let mut sum: u64 = 0;
    let mut i: usize = 2;
    assert(texts.len() == ls@.len());
    assert(body.take(0) =~= Seq::<Seq<char>>::empty());
    while i < ls.len()
        invariant
            2 <= i,
            i <= ls@.len() || i == 2,
            views(ls@) == texts,
            texts.len() == ls@.len(),
            body == (if texts.len() > 2 {
                texts.skip(2)
            } else {
                Seq::empty()
            }),
            sum == (if all_errors(body.take(i - 2)) > u64::MAX {
                u64::MAX as nat
            } else {
                all_errors(body.take(i - 2))
            }),
        decreases ls@.len() - i,
    {
        assert(body.take(i - 1).drop_last() =~= body.take(i - 2));
        assert(body.take(i - 1).last() == ls@[i as int]@);
        sum = sum.saturating_add(errors_of_line(ls[i].as_str()));
        i += 1;
    }
    assert(body.take(body.len() as int) =~= body);
    if sum > u32::MAX as u64 {
        Some(u32::MAX)
    } else {
        Some(sum as u32)
    }
}

// ── Interfaces ────────────────────────────────────────────────────────────────

/// A network interface with its texts as characters.
pub struct InterfaceModel {
    pub name: Seq<char>,
    pub status: Seq<char>,
    pub ipv4: Option<Seq<char>>,
}

impl View for NetworkInterface {
    type V = InterfaceModel;

    open spec fn view(&self) -> InterfaceModel {
        InterfaceModel { name: self.name@, status: self.status@, ipv4: opt_view(self.ipv4) }
    }
}

/// The views of a sequence of interfaces.
pub open spec fn interface_views(s: Seq<NetworkInterface>) -> Seq<InterfaceModel> {
    s.map_values(|i: NetworkInterface| i@)
}

/// The first address among some that is an IPv4 one and is given.
pub open spec fn first_inet(addrs: Seq<JsonModel>) -> Option<Seq<char>>
    decreases addrs.len(),
{
    if addrs.len() == 0 {
        None
    } else if text_in(field(addrs[0], "family"@)) == Some("inet"@) && text_in(
        field(addrs[0], "local"@),
    ) is Some {
        text_in(field(addrs[0], "local"@))
    } else {
        first_inet(addrs.skip(1))
    }
}

/// Whether a text is one of some values.
pub open spec fn has_text(items: Seq<JsonModel>, s: Seq<char>) -> bool {
    exists|i: int| 0 <= i < items.len() && #[trigger] items[i] == JsonModel::Text(s)
}

/// Whether an interface works: it says so, or it does not say but is enabled and has a
/// carrier, as the loopback and some virtual links do.
pub open spec fn is_up(entry: JsonModel) -> bool {
    let state = match text_in(field(entry, "operstate"@)) {
        Some(s) => unicode_lowercase(s),
        None => unicode_lowercase("unknown"@),
    };
    let flags = match items_in(field(entry, "flags"@)) {
        Some(items) => items,
        None => Seq::empty(),
    };
    state == "up"@ || (state == "unknown"@ && has_text(flags, "UP"@) && has_text(
        flags,
        "LOWER_UP"@,
    ))
}

/// The interface that an entry describes, if it has a name.
pub open spec fn interface_of(entry: JsonModel) -> Option<InterfaceModel> {
    match text_in(field(entry, "ifname"@)) {
        Some(name) => Some(
            InterfaceModel {
                name,
                status: if is_up(entry) {
                    "up"@
                } else {
                    "down"@
                },
                ipv4: match items_in(field(entry, "addr_info"@)) {
                    Some(addrs) => first_inet(addrs),
                    None => None,
                },
            },
        ),
        None => None,
    }
}

/// The interfaces that some entries describe, in order.
pub open spec fn interfaces_of_items(items: Seq<JsonModel>) -> Seq<InterfaceModel>
    decreases items.len(),
{
    if items.len() == 0 {
        Seq::empty()
    } else {
        match interface_of(items.last()) {
            Some(i) => interfaces_of_items(items.drop_last()).push(i),
            None => interfaces_of_items(items.drop_last()),
        }
    }
}

/// The interfaces that a value lists; a value that is no array lists none.
pub open spec fn interfaces_of(value: JsonModel) -> Seq<InterfaceModel> {
    match value {
        JsonModel::Array(items) => interfaces_of_items(items),
        _ => Seq::empty(),
    }
}

fn text_field(entry: &Json, key: &str) -> (r: Option<String>)
    ensures
        opt_view(r) == text_in(field(entry@, key@)),
{
    match entry.get(key) {
        Some(value) => match value.as_text() {
            Some(s) => Some(s.to_owned()),
            None => None,
        },
        None => None,
    }
}

fn inet_of(addrs: &Vec<Json>) -> (r: Option<String>)
    ensures
        opt_view(r) == first_inet(item_models(addrs@)),
{
    let ghost all = item_models(addrs@);
    proof {
        lemma_item_models(addrs@);
    }
    let mut i: usize = 0;
    assert(all.skip(0) =~= all);
    while i < addrs.len()
        invariant
            i <= addrs@.len(),
            all == item_models(addrs@),
            all.len() == addrs@.len(),
            forall|i: int| 0 <= i < addrs@.len() ==> #[trigger] all[i] == addrs@[i]@,
            first_inet(all) == first_inet(all.skip(i as int)),
        decreases addrs@.len() - i,
    {
        assert(all.skip(i as int)[0] == all[i as int]);
        assert(all[i as int] == addrs@[i as int]@);
        let family = text_field(&addrs[i], "family");
        let local = text_field(&addrs[i], "local");
        let inet = match &family {
            Some(f) => same(f.as_str(), "inet"),
            None => false,
        };
        if inet && local.is_some() {
            return local;
        }
        assert(all.skip(i as int).skip(1) =~= all.skip(i + 1));
        i += 1;
    }
    None
}

fn lists_text(items: &Vec<Json>, s: &str) -> (r: bool)
    ensures
        r == has_text(item_models(items@), s@),
{
    let ghost all = item_models(items@);
    proof {
        lemma_item_models(items@);
    }
    let mut i: usize = 0;
    while i < items.len()
        invariant
            i <= items@.len(),
            all == item_models(items@),
            all.len() == items@.len(),
            forall|i: int| 0 <= i < items@.len() ==> #[trigger] all[i] == items@[i]@,
            forall|k: int| 0 <= k < i ==> #[trigger] all[k] != JsonModel::Text(s@),
        decreases items@.len() - i,
    {
        assert(all[i as int] == items@[i as int]@);
        let found = match items[i].as_text() {
            Some(t) => same(t, s),
            None => false,
        };
        if found {
            assert(all[i as int] == JsonModel::Text(s@));
            return true;
        }
        i += 1;
    }
    false
}

fn entry_is_up(entry: &Json) -> (r: bool)
    ensures
        r == is_up(entry@),
{
    let state = match text_field(entry, "operstate") {
        Some(s) => s.to_lowercase(),
        None => "unknown".to_lowercase(),
    };
    if same(state.as_str(), "up") {
        return true;
    }
    if !same(state.as_str(), "unknown") {
        return false;
    }
    match entry.get("flags") {
        Some(Json::Array(items)) => lists_text(items, "UP") && lists_text(items, "LOWER_UP"),
        _ => false,
    }
}

fn entry_interface(entry: &Json) -> (r: Option<NetworkInterface>)
    ensures
        match r {
            Some(i) => interface_of(entry@) == Some(i@),
            None => interface_of(entry@) is None,
        },
{
    let name = match text_field(entry, "ifname") {
        Some(name) => name,
        None => return None,
    };
    let ipv4 = match entry.get("addr_info") {
        Some(Json::Array(addrs)) => inet_of(addrs),
        _ => None,
    };
    let status = if entry_is_up(entry) {
        "up"
    } else {
        "down"
    };
    Some(NetworkInterface { name, status: status.to_owned(), ipv4 })
}

/// The interfaces that the network tool lists in its JSON.
pub fn parse_ip_addr_json(json: &Json) -> (r: Vec<NetworkInterface>)
    ensures
        interface_views(r@) == interfaces_of(json@),
{
    let mut out: Vec<NetworkInterface> = Vec::new();
    assert(interface_views(out@) =~= Seq::<InterfaceModel>::empty());
    match json {
        Json::Array(items) => {
            let ghost all = item_models(items@);
            proof {
                lemma_item_models(items@);
            }
            let mut i: usize = 0;
            assert(all.take(0) =~= Seq::<JsonModel>::empty());
            while i < items.len()
                invariant
                    i <= items@.len(),
                    all == item_models(items@),
                    all.len() == items@.len(),
                    forall|i: int| 0 <= i < items@.len() ==> #[trigger] all[i] == items@[i]@,
                    interface_views(out@) == interfaces_of_items(all.take(i as int)),
                decreases items@.len() - i,
            {
                assert(all.take(i + 1).drop_last() =~= all.take(i as int));
                assert(all.take(i + 1).last() == items@[i as int]@);
                if let Some(found) = entry_interface(&items[i]) {
                    let ghost before = out@;
                    out.push(found);
                    assert(interface_views(out@) =~= interface_views(before).push(found@));
                }
                i += 1;
            }
            assert(all.take(all.len() as int) =~= all);
        },
        _ => {},
    }
    out
}

/// The interfaces that the network tool printed; none where that is no JSON.
pub fn get_network_interfaces(printed: &Vec<u8>) -> (r: Option<Vec<NetworkInterface>>)
    ensures
        match r {
            Some(found) => parsed_json(printed@) is Some && interface_views(found@)
                == interfaces_of(parsed_json(printed@)->0),
            None => parsed_json(printed@) is None,
        },
{
    match read_json(printed.as_slice()) {
        Some(json) => Some(parse_ip_addr_json(&json)),
        None => None,
    }
}

// ── Windows ───────────────────────────────────────────────────────────────────

/// The text of bytes up to the first zero.
pub open spec fn until_zero(bytes: Seq<u8>) -> Seq<u8>
    decreases bytes.len(),
{
    if bytes.len() == 0 || bytes[0] == 0 {
        Seq::empty()
    } else {
        seq![bytes[0]] + until_zero(bytes.skip(1))
    }
}

/// The text of a fixed field: its bytes up to the first zero.
pub fn i8_array_to_string(bytes: &Vec<u8>) -> (r: String)
    ensures
        r@ == utf8_lossy(until_zero(bytes@)),
{
    let mut out: Vec<u8> = Vec::new();
    let mut i: usize = 0;
    let ghost all = until_zero(bytes@);
    assert(bytes@.skip(0) =~= bytes@);
    assert(out@ + all =~= all);
    while i < bytes.len() && bytes[i] != 0
        invariant
            i <= bytes@.len(),
            all == out@ + until_zero(bytes@.skip(i as int)),
        ensures
            out@ == all,
        decreases bytes@.len() - i,
    {
        let ghost rest = bytes@.skip(i as int);
        assert(rest.skip(1) =~= bytes@.skip(i + 1));
        let ghost before = out@;
        out.push(bytes[i]);
        assert(before + (seq![rest[0]] + until_zero(rest.skip(1))) =~= out@ + until_zero(
            rest.skip(1),
        ));
        i += 1;
    }
    lossy_utf8(out.as_slice())
}

/// The interface of an adapter: one without an address, or with the address that stands for
/// none, is down.
pub fn adapter_interface(name: String, ip: String) -> (r: NetworkInterface)
    ensures
        ({
            let none = ip@ == "0.0.0.0"@ || ip@.len() == 0;
            &&& r.name == name
            &&& r.status@ == (if none {
                "down"@
            } else {
                "up"@
            })
            &&& r.ipv4 == (if none {
                None
            } else {
                Some(ip)
            })
        }),
{
    if same(ip.as_str(), "0.0.0.0") || ip.as_str().is_empty() {
        NetworkInterface { name, status: "down".to_owned(), ipv4: None }
    } else {
        NetworkInterface { name, status: "up".to_owned(), ipv4: Some(ip) }
    }
}

/// A profile's effective firewall state. A policy that is on has it on; one that is off
/// holds it off on purpose, which is not a fault to repair; without one the local value
/// counts.
pub open spec fn effective(policy: Option<bool>, local: Option<bool>) -> Option<bool> {
    match policy {
        Some(true) => Some(true),
        Some(false) => None,
        None => local,
    }
}

/// A profile's effective firewall state.
pub fn effective_firewall(policy: Option<bool>, local: Option<bool>) -> (r: Option<bool>)
    ensures
        r == effective(policy, local),
{
    match policy {
        Some(on) => {
            if on {
                Some(true)
            } else {
                None
            }
        },
        None => local,
    }
}

/// A firewall that a policy decides on is never a fault.
pub proof fn policy_is_never_a_fault(policy: bool, local: Option<bool>)
    ensures
        effective(Some(policy), local) != Some(false),
{
}

/// The truth value that a part of a line gives, if there is such a part and it gives one.
pub open spec fn part_bool(parts: Seq<Seq<char>>, i: int) -> Option<bool> {
    if i >= parts.len() {
        None
    } else {
        let lower = unicode_lowercase(trim(parts[i]));
        if lower == "true"@ {
            Some(true)
        } else if lower == "false"@ {
            Some(false)
        } else {
            None
        }
    }
}

/// What a line of the form `realtime|antivirus|age` says of Defender; a part that is
/// missing or says nothing is unknown.
pub open spec fn defender_of(line: Seq<char>) -> DefenderStatus {
    let parts = split_on(trim(line), |c: char| c == '|');
    DefenderStatus {
        realtime_enabled: part_bool(parts, 0),
        antivirus_enabled: part_bool(parts, 1),
        signature_age_days: if parts.len() > 2 {
            match parsed_nat(trim(parts[2]), u32::MAX as int) {
                Some(n) => Some(n as u32),
                None => None,
            }
        } else {
            None
        },
    }
}

fn is_bar(c: char) -> (r: bool)
    ensures
        r == (c == '|'),
{
    c == '|'
}

fn bool_part(parts: &Vec<String>, i: usize) -> (r: Option<bool>)
    ensures
        r == part_bool(views(parts@), i as int),
{
    if i >= parts.len() {
        return None;
    }
    assert(views(parts@)[i as int] == parts@[i as int]@);
    proof {
        reveal_strlit("true");
        reveal_strlit("false");
        assert("true"@.len() == 4 && "false"@.len() == 5);
    }
    let text = trimmed(parts[i].as_str());
    let lower = text.to_lowercase();
    if same(lower.as_str(), "true") {
        Some(true)
    } else if same(lower.as_str(), "false") {
        Some(false)
    } else {
        None
    }
}

/// What the line that the system's query prints says of Defender.
pub fn parse_defender_status(line: &str) -> (r: DefenderStatus)
    ensures
        r == defender_of(line@),
{
    let text = trimmed(line);
    let ghost sep = |c: char| c == '|';
    let parts = split_by(text.as_str(), is_bar, Ghost(sep));
    assert(views(parts@).len() == parts@.len());
    let signature_age_days = if parts.len() > 2 {
        assert(views(parts@)[2] == parts@[2]@);
        let age = trimmed(parts[2].as_str());
        match parse_nat(age.as_str(), u32::MAX as u64) {
            Some(n) => Some(n as u32),
            None => None,
        }
    } else {
        None
    };
    DefenderStatus {
        realtime_enabled: bool_part(&parts, 0),
        antivirus_enabled: bool_part(&parts, 1),
        signature_age_days,
    }
}

/// The state of each firewall profile, from the values of its policy and of its local
/// setting, as far as either could be read: zero is off.
pub fn get_firewall(policy: [Option<u32>; 3], local: [Option<u32>; 3]) -> (r: FirewallStatus)
    ensures
        r.domain == effective(is_set(policy@[0]), is_set(local@[0])),
        r.private == effective(is_set(policy@[1]), is_set(local@[1])),
        r.public == effective(is_set(policy@[2]), is_set(local@[2])),
{
    FirewallStatus {
        domain: effective_firewall(value_is_set(policy[0]), value_is_set(local[0])),
        private: effective_firewall(value_is_set(policy[1]), value_is_set(local[1])),
        public: effective_firewall(value_is_set(policy[2]), value_is_set(local[2])),
    }
}

/// Whether a value that could be read is set.
pub open spec fn is_set(value: Option<u32>) -> Option<bool> {
    match value {
        Some(v) => Some(v != 0),
        None => None,
    }
}

fn value_is_set(value: Option<u32>) -> (r: Option<bool>)
    ensures
        r == is_set(value),
{
    match value {
        Some(v) => Some(v != 0),
        None => None,
    }
}

/// The names of the listed services that do not run, in order.
pub open spec fn not_running(services: Seq<(String, bool)>) -> Seq<String>
    decreases services.len(),
{
    if services.len() == 0 {
        Seq::empty()
    } else if services.last().1 {
        not_running(services.drop_last())
    } else {
        not_running(services.drop_last()).push(services.last().0)
    }
}

/// How many services are active and which of them do not run, from the name of each and
/// whether it runs.
pub fn summarize_services(services: Vec<(String, bool)>) -> (r: (usize, Vec<String>))
    ensures
        r.0 == services@.len(),
        r.1@ == not_running(services@),
{
    let count: usize = services.len();
    let ghost all = services@;
    let mut failed: Vec<String> = Vec::new();
    assert(all.take(0) =~= Seq::<(String, bool)>::empty());
    for service in it: services
        invariant
            it.seq() == all,
            failed@ == not_running(all.take(it.index() as int)),
    {
        let ghost next = all.take(it.index() as int + 1);
        assert(next.drop_last() =~= all.take(it.index() as int));
        assert(next.last() == service);
        if !service.1 {
            failed.push(service.0);
        }
    }
    assert(all.take(all.len() as int) =~= all);
    (count, failed)
}

/// What is known of a probe that was started as a process of its own.
#[derive(Debug, Clone, Copy, PartialEq, Eq, Structural)]
pub enum ProbeState {
    Exited,
    Running,
    /// It cannot be told.
    Lost,
}

/// What is done about a probe.
#[derive(Debug, Clone, Copy, PartialEq, Eq, Structural)]
pub enum ProbeStep {
    /// Take what it printed.
    Read,
    /// Look again in a moment.
    Wait,
    /// Stop it; it gives nothing.
    Kill,
    /// It gives nothing.
    GiveUp,
}

/// What is done about a probe: one that runs past its deadline is stopped, so that it cannot
/// hold up every signal.
pub fn probe_step(state: ProbeState, now: u64, deadline: u64) -> (r: ProbeStep)
    ensures
        r == (match state {
            ProbeState::Exited => ProbeStep::Read,
            ProbeState::Running => if now >= deadline {
                ProbeStep::Kill
            } else {
                ProbeStep::Wait
            },
            ProbeState::Lost => ProbeStep::GiveUp,
        }),
{
    match state {
        ProbeState::Exited => ProbeStep::Read,
        ProbeState::Running => {
            if now >= deadline {
                ProbeStep::Kill
            } else {
                ProbeStep::Wait
            }
        },
        ProbeState::Lost => ProbeStep::GiveUp,
    }
}

/// What is said of the last installed update, from the units of its stored time and the
/// zero after them; unknown where none is stored.
pub fn update_status(stored: Option<Vec<u16>>) -> (r: String)
    ensures
        r@ == (match stored {
            Some(units) if units@.len() > 0 => "last_install: "@ + utf16_lossy(
                units@.drop_last(),
            ),
            _ => "unknown"@,
        }),
{
    match stored {
        Some(units) => {
            let mut units = units;
            let ghost all = units@;
            match units.pop() {
                Some(_) => {
                    assert(units@ =~= all.drop_last());
                    let text = lossy_utf16(units.as_slice());
                    let mut r = "last_install: ".to_owned();
                    r.append(text.as_str());
                    r
                },
                None => "unknown".to_owned(),
            }
        },
        None => "unknown".to_owned(),
    }
}

/// Keep a snapshot, and whether its faults are other than those of the one before, which
/// wakes the decision loop.
pub fn note_snapshot(
    collected: &mut Option<SystemState>,
    last_key: &mut String,
    state: SystemState,
) -> (r: bool)
    ensures
        r == (old(last_key)@ != key_of_faults(state)),
        final(last_key)@ == key_of_faults(state),
        *final(collected) == Some(state),
{
    let key = fault_key(&state);
    let changed = fault_changed(last_key.as_str(), key.as_str());
    *last_key = key;
    *collected = Some(state);
    changed
}

/// A fault that stays does not wake the loop again.
pub proof fn steady_faults_stay_quiet(before: SystemState, after: SystemState)
    ensures
        before.faults() == after.faults() ==> key_of_faults(before) == key_of_faults(after),
{
}

proof fn lemma_fault_is_text(s: SystemState, i: int)
    requires
        0 <= i < s.faults().len(),
    ensures
        s.faults()[i].len() > 0,
{
    reveal_strlit("S|");
    reveal_strlit("FW|domain");
    reveal_strlit("FW|private");
    reveal_strlit("FW|public");
    reveal_strlit("DEF|realtime_off");
    reveal_strlit("DEF|sig_stale");
    reveal_strlit("DISK_HEALTH|");
}

/// A first fault and a full recovery each change the key, so that they wake the loop.
pub proof fn coming_and_going_faults_are_noticed(healthy: SystemState, faulty: SystemState)
    requires
        healthy.faults().len() == 0,
        faulty.faults().len() > 0,
    ensures
        key_of_faults(healthy) != key_of_faults(faulty),
{
    broadcast use vstd::seq_lib::group_to_multiset_ensures;

    healthy_machine_has_the_empty_key(healthy);
    let parts = faulty.faults();
    let sorted = ordered(parts);
    ordered_is_the_same_texts_in_order(parts);
    let last = sorted.last();
    assert(sorted.contains(last));
    assert(parts.to_multiset().count(last) > 0);
    assert(parts.contains(last));
    let i = choose|i: int| 0 <= i < parts.len() && parts[i] == last;
    lemma_fault_is_text(faulty, i);
    assert(key_of_faults(faulty).len() > 0);
}

// ── What the readings mean ────────────────────────────────────────────────────

/// The probes that failed are named, each by its name and in order, and no other is.
pub proof fn failed_probes_are_named(p: Probes)
    ensures
        ({
            let f = failed_probes(p);
            &&& p.cpu_usage_percent is Some && p.memory is Some && p.disk is Some
                && p.services is Some && p.network_interfaces is Some && p.network_errors is Some
                ==> f.len() == 0
            &&& p.cpu_usage_percent is None ==> f.contains("cpu"@)
            &&& p.memory is None ==> f.contains("memory"@)
            &&& p.disk is None ==> f.contains("disk"@)
            &&& p.services is None ==> f.contains("services"@)
            &&& p.network_interfaces is None ==> f.contains("network_interfaces"@)
            &&& p.network_errors is None ==> f.contains("network_errors"@)
            &&& f.len() == missing(p.cpu_usage_percent is None, "cpu"@).len() + missing(
                p.memory is None,
                "memory"@,
            ).len() + missing(p.disk is None, "disk"@).len() + missing(
                p.services is None,
                "services"@,
            ).len() + missing(p.network_interfaces is None, "network_interfaces"@).len() + missing(
                p.network_errors is None,
                "network_errors"@,
            ).len()
        }),
{
    let a = missing(p.cpu_usage_percent is None, "cpu"@);
    let b = missing(p.memory is None, "memory"@);
    let c = missing(p.disk is None, "disk"@);
    let d = missing(p.services is None, "services"@);
    let e = missing(p.network_interfaces is None, "network_interfaces"@);
    let f = failed_probes(p);
    if p.cpu_usage_percent is None {
        assert(f[0] == "cpu"@);
    }
    if p.memory is None {
        assert(f[a.len() as int] == "memory"@);
    }
    if p.disk is None {
        assert(f[(a + b).len() as int] == "disk"@);
    }
    if p.services is None {
        assert(f[(a + b + c).len() as int] == "services"@);
    }
    if p.network_interfaces is None {
        assert(f[(a + b + c + d).len() as int] == "network_interfaces"@);
    }
    if p.network_errors is None {
        assert(f[(a + b + c + d + e).len() as int] == "network_errors"@);
    }
}

/// The errors without those of the services are all the others, in order.
pub proof fn other_errors_stay(errors: Seq<String>)
    ensures
        without_services(errors) == errors.filter(|e: String| e@ != "services"@),
    decreases errors.len(),
{
    reveal(Seq::filter);
    if errors.len() > 0 {
        other_errors_stay(errors.drop_last());
    }
}

/// One more failed service changes the key of the faults, whatever else is wrong.
pub proof fn another_failed_service_changes_the_key(a: SystemState, b: SystemState, name: String)
    requires
        b.failed_services@ == a.failed_services@.push(name),
        b.security == a.security,
        b.disk_health@ == a.disk_health@,
    ensures
        key_of_faults(a) != key_of_faults(b),
{
    let x = a.faults();
    let y = b.faults();
    let n = a.failed_services@.len() as int;
    let part = "S|"@ + name@;
    reveal_strlit("S|");
    assert(part.len() >= 2);
    assert(y =~= x.insert(n, part)) by {
        assert(crate::models::service_parts(b.failed_services@)
            =~= crate::models::service_parts(a.failed_services@).push(part));
    }
    lemma_total_insert(x, n, part);
    lemma_ordered_total(x);
    lemma_ordered_total(y);
    reveal_strlit("\n");
    assert("\n"@.len() == 1);
    lemma_join_len(ordered(y), "\n"@);
    if x.len() > 0 {
        lemma_join_len(ordered(x), "\n"@);
    } else {
        assert(ordered(x).len() == 0);
        assert(key_of_faults(a).len() == 0);
    }
}

proof fn lemma_total_insert(s: Seq<Seq<char>>, i: int, x: Seq<char>)
    requires
        0 <= i <= s.len(),
    ensures
        total_len(s.insert(i, x)) == total_len(s) + x.len(),
    decreases s.len(),
{
    let t = s.insert(i, x);
    if i == s.len() {
        assert(t.drop_last() =~= s);
    } else {
        lemma_total_insert(s.drop_last(), i, x);
        assert(t.drop_last() =~= s.drop_last().insert(i, x));
        assert(t.last() == s.last());
    }
}

/// The numbers among some words are those that are written in decimal, each at its value; any
/// other word is passed over.
pub proof fn written_numbers_are_read(ws: Seq<Seq<char>>, n: nat, word: Seq<char>)
    ensures
        numbers(Seq::empty()) == Seq::<u64>::empty(),
        n <= u64::MAX ==> numbers(ws.push(decimal(n))) == numbers(ws).push(n as u64),
        parsed_nat(word, u64::MAX as int) is None ==> numbers(ws.push(word)) == numbers(ws),
{
    written_number_reads_back(n, 0, u64::MAX as int, Seq::empty());
    assert(ws.push(decimal(n)).drop_last() =~= ws);
    assert(ws.push(word).drop_last() =~= ws);
}

/// The ticks of a line of counts: those in all are the sum of the counts, and the idle ones the
/// fourth and the fifth together.
pub proof fn ticks_are_of_their_counts(counts: Seq<u64>, x: u64)
    ensures
        total(Seq::empty()) == 0,
        total(counts.push(x)) == total(counts) + x,
        counts.len() < 4 ==> ticks(counts) is None,
        ticks(counts) matches Some(t) ==> t.1 == total(counts),
        ticks(counts) is Some && counts.len() == 4 ==> (ticks(counts)->0).0 == counts[3],
        ticks(counts) is Some && counts.len() > 4 ==> (ticks(counts)->0).0 == counts[3] + counts[4],
        counts.len() >= 4 && total(counts) <= u64::MAX ==> ticks(counts) is Some,
{
    assert(counts.push(x).drop_last() =~= counts);
    if counts.len() >= 4 && total(counts) <= u64::MAX {
        lemma_two_fit(counts);
    }
}

proof fn lemma_two_fit(counts: Seq<u64>)
    requires
        counts.len() >= 4,
    ensures
        counts[3] <= total(counts),
        counts.len() > 4 ==> counts[3] + counts[4] <= total(counts),
    decreases counts.len(),
{
    if counts.len() > 5 {
        lemma_two_fit(counts.drop_last());
    } else if counts.len() == 5 {
        lemma_two_fit(counts.drop_last());
        assert(counts.last() == counts[4]);
    }
}

/// The first line that starts with a text is found, and none where no line does.
pub proof fn first_line_is_found(ls: Seq<Seq<char>>, prefix: Seq<char>, i: int)
    ensures
        0 <= i < ls.len() && prefix.is_prefix_of(ls[i]) && (forall|k: int|
            0 <= k < i ==> !prefix.is_prefix_of(#[trigger] ls[k])) ==> first_with_prefix(
            ls,
            prefix,
        ) == Some(ls[i]),
        (forall|k: int| 0 <= k < ls.len() ==> !prefix.is_prefix_of(#[trigger] ls[k]))
            ==> first_with_prefix(ls, prefix) is None,
    decreases ls.len(),
{
    if ls.len() > 0 {
        let rest = ls.skip(1);
        first_line_is_found(rest, prefix, i - 1);
        if 0 < i < ls.len() && forall|k: int|
            0 <= k < i ==> !prefix.is_prefix_of(#[trigger] ls[k]) {
            assert(!prefix.is_prefix_of(ls[0]));
            assert(rest[i - 1] == ls[i]);
            assert forall|k: int| 0 <= k < i - 1 implies !prefix.is_prefix_of(
                #[trigger] rest[k],
            ) by {
                assert(rest[k] == ls[k + 1]);
            }
        }
        if forall|k: int| 0 <= k < ls.len() ==> !prefix.is_prefix_of(#[trigger] ls[k]) {
            assert(!prefix.is_prefix_of(ls[0]));
            assert forall|k: int| 0 <= k < rest.len() implies !prefix.is_prefix_of(
                #[trigger] rest[k],
            ) by {
                assert(rest[k] == ls[k + 1]);
            }
        }
    }
}

/// The memory's numbers are those of the last lines that give them: what is in use is the rest of
/// what there is in all.
pub proof fn memory_is_what_its_lines_say(contents: Seq<char>)
    ensures
        memory_kb(contents) matches Some(m) ==> {
            &&& memory_lines(lines(contents)).all == Some(m.0)
            &&& memory_lines(lines(contents)).available == Some(m.2)
            &&& m.0 > 0
            &&& m.2 <= m.0 ==> m.1 + m.2 == m.0
            &&& m.2 > m.0 ==> m.1 == 0
        },
{
}

/// A line about the memory in all, or about what is available, sets that number and leaves the
/// other; any other line leaves both.
pub proof fn memory_lines_are_read_in_turn(
    ls: Seq<Seq<char>>,
    rest: Seq<char>,
    other: Seq<char>,
)
    requires
        !"MemTotal:"@.is_prefix_of(other),
        !"MemAvailable:"@.is_prefix_of(other),
    ensures
        ({
            let m = memory_lines(ls);
            let t = memory_lines(ls.push("MemTotal:"@ + rest));
            let a = memory_lines(ls.push("MemAvailable:"@ + rest));
            &&& t.all == first_number(rest) && t.available == m.available
            &&& a.available == first_number(rest) && a.all == m.all
            &&& words(rest).len() > 0 ==> t.broken == m.broken && a.broken == m.broken
            &&& words(rest).len() == 0 ==> t.broken && a.broken
            &&& memory_lines(ls.push(other)) == m
        }),
        memory_lines(Seq::empty()).all is None && memory_lines(Seq::empty()).available is None
            && !memory_lines(Seq::empty()).broken,
{
    let x = "MemTotal:"@ + rest;
    let y = "MemAvailable:"@ + rest;
    assert(ls.push(x).drop_last() =~= ls);
    assert(ls.push(y).drop_last() =~= ls);
    assert(ls.push(other).drop_last() =~= ls);
    what_follows_a_prefix("MemTotal:"@, rest, other);
    what_follows_a_prefix("MemAvailable:"@, rest, other);
    reveal_strlit("MemTotal:");
    reveal_strlit("MemAvailable:");
    assert(x[3] == 'T' && y[3] == 'A');
    assert(!"MemTotal:"@.is_prefix_of(y)) by {
        assert("MemTotal:"@[3] != y.take(9)[3]);
    }
}

/// A number after a name is the first word there, where that is one.
pub proof fn number_is_the_first_word(rest: Seq<char>, n: nat)
    ensures
        words(rest).len() > 0 && words(rest)[0] == decimal(n) && n <= u64::MAX ==> first_number(rest)
            == Some(n as u64),
        words(rest).len() == 0 ==> first_number(rest) is None,
{
    written_number_reads_back(n, 0, u64::MAX as int, Seq::empty());
}

/// The services that run are as many as there are lines that are not blank, and the failed ones
/// are named by the first word of each such line, in order.
pub proof fn each_line_is_a_service(ls: Seq<Seq<char>>)
    ensures
        nonblank(ls) == ls.filter(|l: Seq<char>| trim(l).len() > 0).len(),
        first_words(ls) == ls.filter(|l: Seq<char>| words(l).len() > 0).map_values(
            |l: Seq<char>| words(l)[0],
        ),
    decreases ls.len(),
{
    reveal(Seq::filter);
    let keep = |l: Seq<char>| words(l).len() > 0;
    let name = |l: Seq<char>| words(l)[0];
    if ls.len() > 0 {
        let before = ls.drop_last();
        each_line_is_a_service(before);
        if keep(ls.last()) {
            assert(ls.filter(keep) == before.filter(keep).push(ls.last()));
            assert(before.filter(keep).push(ls.last()).map_values(name)
                =~= before.filter(keep).map_values(name).push(words(ls.last())[0]));
        }
    } else {
        assert(ls.filter(keep).map_values(name) =~= first_words(ls));
    }
}

/// A line is split at its first colon: what stands before it holds none, and the two parts make
/// up the line again.
pub proof fn line_is_split_at_its_first_colon(before: Seq<char>, after: Seq<char>, line: Seq<char>)
    requires
        forall|i: int| 0 <= i < before.len() ==> before[i] != ':',
    ensures
        at_colon(before + seq![':'] + after) == Some((before, after)),
        (forall|i: int| 0 <= i < line.len() ==> line[i] != ':') ==> at_colon(line) is None,
    decreases before.len() + line.len(),
{
    let all = before + seq![':'] + after;
    if before.len() == 0 {
        assert(all.skip(1) =~= after);
        assert(before =~= Seq::<char>::empty());
    } else {
        let rest = before.skip(1);
        assert forall|i: int| 0 <= i < rest.len() implies rest[i] != ':' by {
            assert(rest[i] == before[i + 1]);
        }
        line_is_split_at_its_first_colon(rest, after, Seq::empty());
        assert(all.skip(1) =~= rest + seq![':'] + after);
        assert(all[0] == before[0]);
        assert(seq![before[0]] + rest =~= before);
    }
    if line.len() > 0 && forall|i: int| 0 <= i < line.len() ==> line[i] != ':' {
        let rest = line.skip(1);
        assert forall|i: int| 0 <= i < rest.len() implies rest[i] != ':' by {
            assert(rest[i] == line[i + 1]);
        }
        line_is_split_at_its_first_colon(Seq::empty(), after, rest);
    }
}

/// The errors of an interface are the third count, of what was received, and the eleventh, of
/// what was sent; the loopback interface has none, and the lines add up.
pub proof fn network_errors_are_received_and_sent(
    name: Seq<char>,
    rest: Seq<char>,
    ls: Seq<Seq<char>>,
)
    requires
        forall|i: int| 0 <= i < name.len() ==> name[i] != ':',
    ensures
        ({
            let line = name + seq![':'] + rest;
            let counts = numbers(words(rest));
            &&& trim(name) == "lo"@ ==> line_errors(line) == 0
            &&& trim(name) != "lo"@ && counts.len() >= 16 ==> line_errors(line) == counts[2]
                + counts[10]
            &&& all_errors(ls.push(line)) == all_errors(ls) + line_errors(line)
        }),
        all_errors(Seq::empty()) == 0,
{
    line_is_split_at_its_first_colon(name, rest, Seq::empty());
    let line = name + seq![':'] + rest;
    assert(ls.push(line).drop_last() =~= ls);
}

/// The address of an interface is the first that is an IPv4 one and is given.
pub proof fn first_ipv4_address_is_taken(addrs: Seq<JsonModel>, i: int)
    ensures
        0 <= i < addrs.len() && text_in(field(addrs[i], "family"@)) == Some("inet"@) && text_in(
            field(addrs[i], "local"@),
        ) is Some && (forall|k: int|
            0 <= k < i ==> text_in(field(#[trigger] addrs[k], "family"@)) != Some("inet"@))
            ==> first_inet(addrs) == text_in(field(addrs[i], "local"@)),
        (forall|k: int|
            0 <= k < addrs.len() ==> text_in(field(#[trigger] addrs[k], "family"@)) != Some(
                "inet"@,
            )) ==> first_inet(addrs) is None,
    decreases addrs.len(),
{
    if addrs.len() > 0 {
        let rest = addrs.skip(1);
        first_ipv4_address_is_taken(rest, i - 1);
        if 0 < i < addrs.len() && forall|k: int|
            0 <= k < i ==> text_in(field(#[trigger] addrs[k], "family"@)) != Some("inet"@) {
            assert(text_in(field(addrs[0], "family"@)) != Some("inet"@));
            assert(rest[i - 1] == addrs[i]);
            assert forall|k: int| 0 <= k < i - 1 implies text_in(
                field(#[trigger] rest[k], "family"@),
            ) != Some("inet"@) by {
                assert(rest[k] == addrs[k + 1]);
            }
        }
        if forall|k: int|
            0 <= k < addrs.len() ==> text_in(field(#[trigger] addrs[k], "family"@)) != Some(
                "inet"@,
            ) {
            assert(text_in(field(addrs[0], "family"@)) != Some("inet"@));
            assert forall|k: int| 0 <= k < rest.len() implies text_in(
                field(#[trigger] rest[k], "family"@),
            ) != Some("inet"@) by {
                assert(rest[k] == addrs[k + 1]);
            }
        }
    }
}

/// An interface works where it says that it is up, or says nothing and is enabled with a carrier;
/// one that says that it is down does not.
pub proof fn interface_works_where_it_says_so(entry: JsonModel)
    ensures
        text_in(field(entry, "operstate"@)) matches Some(s) ==> (unicode_lowercase(s) == "up"@
            ==> is_up(entry)),
        text_in(field(entry, "operstate"@)) matches Some(s) ==> (unicode_lowercase(s) != "up"@
            && unicode_lowercase(s) != "unknown"@ ==> !is_up(entry)),
        interface_of(entry) matches Some(i) ==> {
            &&& text_in(field(entry, "ifname"@)) == Some(i.name)
            &&& i.status == (if is_up(entry) {
                "up"@
            } else {
                "down"@
            })
        },
        interface_of(entry) is Some <==> text_in(field(entry, "ifname"@)) is Some,
{
}

/// The interfaces are those of the entries that have a name, in order.
pub proof fn named_entries_are_interfaces(items: Seq<JsonModel>)
    ensures
        interfaces_of_items(items) == items.filter(
            |e: JsonModel| text_in(field(e, "ifname"@)) is Some,
        ).map_values(|e: JsonModel| interface_of(e)->0),
    decreases items.len(),
{
    reveal(Seq::filter);
    let keep = |e: JsonModel| text_in(field(e, "ifname"@)) is Some;
    let made = |e: JsonModel| interface_of(e)->0;
    if items.len() > 0 {
        let before = items.drop_last();
        named_entries_are_interfaces(before);
        if keep(items.last()) {
            assert(items.filter(keep) == before.filter(keep).push(items.last()));
            assert(before.filter(keep).push(items.last()).map_values(made)
                =~= before.filter(keep).map_values(made).push(interface_of(items.last())->0));
        }
    } else {
        assert(items.filter(keep).map_values(made) =~= interfaces_of_items(items));
    }
}

/// The text of a fixed field is what stands before its first zero.
pub proof fn field_ends_at_its_first_zero(text: Seq<u8>, rest: Seq<u8>)
    requires
        forall|i: int| 0 <= i < text.len() ==> text[i] != 0,
    ensures
        until_zero(text + seq![0u8] + rest) == text,
        until_zero(text) == text,
    decreases text.len(),
{
    let all = text + seq![0u8] + rest;
    if text.len() == 0 {
        assert(all[0] == 0);
        assert(text =~= Seq::<u8>::empty());
    } else {
        let tail = text.skip(1);
        assert forall|i: int| 0 <= i < tail.len() implies tail[i] != 0 by {
            assert(tail[i] == text[i + 1]);
        }
        field_ends_at_its_first_zero(tail, rest);
        assert(all.skip(1) =~= tail + seq![0u8] + rest);
        assert(all[0] == text[0]);
        assert(seq![text[0]] + tail =~= text);
    }
}

/// A policy that has a firewall on has it on; one that has it off leaves it unknown; without a
/// policy it is as it is set. A value of zero is off, any other is on.
pub proof fn policy_decides_before_the_setting(local: Option<bool>, v: u32)
    ensures
        effective(Some(true), local) == Some(true),
        effective(Some(false), local) is None,
        effective(None, local) == local,
        is_set(Some(v)) == Some(v != 0),
        is_set(None) is None,
{
}

/// What Defender's line says: its first part whether real-time protection is on, its second
/// whether the antivirus is, its third the age of the signatures in days.
pub proof fn defender_line_is_read_by_its_parts(line: Seq<char>)
    ensures
        ({
            let parts = split_on(trim(line), |c: char| c == '|');
            let d = defender_of(line);
            &&& parts.len() > 0 ==> (d.realtime_enabled == Some(true) <==> unicode_lowercase(
                trim(parts[0]),
            ) == "true"@)
            &&& parts.len() > 1 ==> (d.antivirus_enabled == Some(true) <==> unicode_lowercase(
                trim(parts[1]),
            ) == "true"@)
            &&& parts.len() > 0 && unicode_lowercase(trim(parts[0])) == "false"@
                ==> d.realtime_enabled == Some(false)
            &&& parts.len() > 1 && unicode_lowercase(trim(parts[1])) == "false"@
                ==> d.antivirus_enabled == Some(false)
            &&& parts.len() <= 1 ==> d.antivirus_enabled is None
            &&& parts.len() <= 2 ==> d.signature_age_days is None
            &&& parts.len() > 2 ==> (d.signature_age_days matches Some(n) ==> parsed_nat(
                trim(parts[2]),
                u32::MAX as int,
            ) == Some(n as nat))
            &&& parts.len() > 2 && parsed_nat(trim(parts[2]), u32::MAX as int) is Some
                ==> d.signature_age_days is Some
        }),
{
    reveal_strlit("true");
    reveal_strlit("false");
    assert("true"@.len() == 4 && "false"@.len() == 5);
}

/// The services that do not run are named, all of them and in order.
pub proof fn stopped_services_are_named(services: Seq<(String, bool)>)
    ensures
        not_running(services) == services.filter(|s: (String, bool)| !s.1).map_values(
            |s: (String, bool)| s.0,
        ),
    decreases services.len(),
{
    reveal(Seq::filter);
    let keep = |s: (String, bool)| !s.1;
    let name = |s: (String, bool)| s.0;
    if services.len() > 0 {
        let before = services.drop_last();
        stopped_services_are_named(before);
        if keep(services.last()) {
            assert(services.filter(keep) == before.filter(keep).push(services.last()));
            assert(before.filter(keep).push(services.last()).map_values(name)
                =~= before.filter(keep).map_values(name).push(services.last().0));
        }
    } else {
        assert(services.filter(keep).map_values(name) =~= not_running(services));
    }
}

/// A snapshot holds what the probes found, each in its place, and what was known before where a
/// probe found nothing.
pub proof fn snapshot_holds_what_was_found(
    previous: SystemState,
    probes: Probes,
    at: i64,
    r: SystemState,
)
    requires
        call_ensures(snapshot_state, (previous, probes, at), r),
    ensures
        r.collected_at == at && r.uptime_secs == probes.uptime_secs,
        probes.cpu_usage_percent matches Some(v) ==> r.cpu_usage_percent == v,
        probes.cpu_usage_percent is None ==> r.cpu_usage_percent == previous.cpu_usage_percent,
        probes.memory matches Some(v) ==> r.memory_usage_percent == v.0 && r.memory_available_gb
            == v.1,
        probes.memory is None ==> r.memory_usage_percent == previous.memory_usage_percent,
        probes.disk matches Some(v) ==> r.disk_usage_percent == v.0 && r.disk_free_gb == v.1,
        probes.disk is None ==> r.disk_usage_percent == previous.disk_usage_percent,
        probes.services matches Some(v) ==> r.running_services_count == v.0 && r.failed_services
            == v.1,
        probes.services is None ==> r.failed_services == previous.failed_services,
        probes.network_interfaces matches Some(v) ==> r.network_interfaces == v,
        probes.network_errors matches Some(v) ==> r.network_errors == v,
        views(r.collector_errors@) == failed_probes(probes),
{
}

/// What was collected is handed on; before that a state says that nothing was.
pub proof fn state_says_where_nothing_was_collected(collected: Option<SystemState>, r: SystemState)
    requires
        call_ensures(current, (collected,), r),
    ensures
        collected matches Some(s) ==> r == s,
        collected is None ==> r.collected_at == 0 && r.failed_services@.len() == 0 && views(
            r.collector_errors@,
        ) == seq!["not_collected"@],
{
}

/// A fresh look at the services shows what it found; where it found nothing out, what was known
/// stays and the failure is told once.
pub proof fn fresh_services_are_shown(
    collected: &mut Option<SystemState>,
    found: Option<(usize, Vec<String>)>,
    r: Vec<String>,
)
    requires
        call_ensures(rescan_failed_services, (collected, found), r),
    ensures
        found matches Some((n, failed)) ==> r@ == failed@ && (*old(collected) is Some ==> *final(collected) is Some && (*final(collected))->0.failed_services@ == failed@ && (*final(collected))->0.running_services_count == n && (*final(collected))->0.cpu_usage_percent == (*old(collected))->0.cpu_usage_percent && (*final(collected))->0.security == (*old(collected))->0.security
            && (*final(collected))->0.collector_errors@ == (*old(collected))->0.collector_errors@.filter(|e: String| e@ != "services"@)),
        found is None && *old(collected) is Some ==> r@ == (*old(collected))->0.failed_services@
            && *final(collected) is Some,
        *old(collected) is None ==> *final(collected) is None,
        found is None && *old(collected) is None ==> r@.len() == 0,
{
    if *old(collected) is Some {
        other_errors_stay((*old(collected))->0.collector_errors@);
    }
}

/// The loop is woken where the faults are others than at the last snapshot, which is kept either
/// way.
pub proof fn other_faults_wake_the_loop(
    collected: &mut Option<SystemState>,
    last: &mut String,
    state: SystemState,
    r: bool,
)
    requires
        call_ensures(note_snapshot, (collected, last, state), r),
    ensures
        r <==> old(last)@ != key_of_faults(state),
        *final(collected) == Some(state) && final(last)@ == key_of_faults(state),
{
}

/// The load between two readings is what was added, of the idle ticks and of all; without an
/// addition there is none.
pub proof fn load_is_what_was_added(first: (u64, u64), second: (u64, u64), r: Option<(u64, u64)>)
    requires
        call_ensures(tick_deltas, (first, second), r),
    ensures
        r is Some <==> second.1 > first.1,
        r matches Some(d) ==> d.1 == second.1 - first.1 && (second.0 >= first.0 ==> d.0 == second.0
            - first.0) && (second.0 < first.0 ==> d.0 == 0),
{
}

/// The bytes of a disk are its blocks times their size: all, those in use, and those that are
/// free, which make up all.
pub proof fn disk_bytes_make_up_the_disk(
    blocks: u64,
    available: u64,
    size: u64,
    r: Option<(u64, u64, u64)>,
)
    requires
        call_ensures(disk_bytes, (blocks, available, size), r),
        0 < size,
    ensures
        r matches Some(d) ==> d.0 == blocks * size && d.2 == available * size && (d.2 <= d.0 ==> d.1
            + d.2 == d.0) && (d.2 > d.0 ==> d.1 == 0),
        0 < blocks * size <= u64::MAX && available * size <= u64::MAX ==> r is Some,
{
}

/// An adapter without an address is down, and one with an address is up under it.
pub proof fn adapter_is_up_where_it_has_an_address(name: String, ip: String, r: NetworkInterface)
    requires
        call_ensures(adapter_interface, (name, ip), r),
    ensures
        r.name == name,
        ip@.len() == 0 || ip@ == "0.0.0.0"@ ==> r.status@ == "down"@ && r.ipv4 is None,
        ip@.len() > 0 && ip@ != "0.0.0.0"@ ==> r.status@ == "up"@ && r.ipv4 == Some(ip),
{
}

/// Each profile of the firewall is read from its own values.
pub proof fn firewall_profiles_have_their_own_values(
    policy: [Option<u32>; 3],
    local: [Option<u32>; 3],
    r: FirewallStatus,
)
    requires
        call_ensures(get_firewall, (policy, local), r),
    ensures
        policy@[0] is None && local@[0] is Some ==> r.domain == Some(local@[0]->0 != 0),
        policy@[1] is None && local@[1] is Some ==> r.private == Some(local@[1]->0 != 0),
        policy@[2] is None && local@[2] is Some ==> r.public == Some(local@[2]->0 != 0),
        policy@[0] == Some(1u32) ==> r.domain == Some(true),
        policy@[1] == Some(1u32) ==> r.private == Some(true),
        policy@[2] == Some(1u32) ==> r.public == Some(true),
{
}

/// A probe that has exited is read, one that runs is waited for until its deadline and then
/// stopped, and one that was lost is given up.
pub proof fn probe_is_stopped_at_its_deadline(
    state: ProbeState,
    now: u64,
    deadline: u64,
    r: ProbeStep,
)
    requires
        call_ensures(probe_step, (state, now, deadline), r),
    ensures
        state is Exited ==> r is Read,
        state is Running && now < deadline ==> r is Wait,
        state is Running && now >= deadline ==> r is Kill,
        state is Lost ==> r is GiveUp,
{
}

/// The services are all counted, and those that do not run are named.
pub proof fn services_are_counted_and_the_stopped_named(
    services: Vec<(String, bool)>,
    r: (usize, Vec<String>),
)
    requires
        call_ensures(summarize_services, (services,), r),
    ensures
        r.0 == services@.len(),
        r.1@ == services@.filter(|s: (String, bool)| !s.1).map_values(|s: (String, bool)| s.0),
{
    stopped_services_are_named(services@);
}

/// The memory in all is what the first line about it says.
pub proof fn first_line_about_the_memory_counts(contents: Seq<char>, i: int, rest: Seq<char>)
    requires
        0 <= i < lines(contents).len(),
        lines(contents)[i] == "MemTotal:"@ + rest,
        forall|k: int|
            0 <= k < i ==> !"MemTotal:"@.is_prefix_of(#[trigger] lines(contents)[k]),
    ensures
        total_kb(contents) == first_number(rest),
{
    let line = lines(contents)[i];
    what_follows_a_prefix("MemTotal:"@, rest, line);
    first_line_is_found(lines(contents), "MemTotal:"@, i);
    assert(line.skip("MemTotal:"@.len() as int) =~= rest);
}

/// A text stands among some values where one of them is that text.
pub proof fn text_among_values_is_found(items: Seq<JsonModel>, s: Seq<char>)
    ensures
        has_text(items, s) <==> items.contains(JsonModel::Text(s)),
{
    if items.contains(JsonModel::Text(s)) {
        let i = choose|i: int| 0 <= i < items.len() && items[i] == JsonModel::Text(s);
        assert(items[i] == JsonModel::Text(s));
    }
}

/// The ticks are those of the first line about all processors, without its name.
pub proof fn ticks_are_of_the_first_line(contents: Seq<char>, i: int)
    requires
        0 <= i < lines(contents).len(),
        "cpu "@.is_prefix_of(lines(contents)[i]),
        words(lines(contents)[i]).len() > 0,
        forall|k: int| 0 <= k < i ==> !"cpu "@.is_prefix_of(#[trigger] lines(contents)[k]),
    ensures
        cpu_ticks(contents) == ticks(numbers(words(lines(contents)[i]).skip(1))),
{
    first_line_is_found(lines(contents), "cpu "@, i);
}

/// The network errors are those of all lines but the two headings, at most as many as can be
/// told; a list that is no array lists no interface.
pub proof fn headings_are_passed_over(contents: Seq<char>, items: Seq<JsonModel>, s: Seq<char>)
    ensures
        lines(contents).len() <= 2 ==> net_errors(contents) == 0,
        lines(contents).len() > 2 && all_errors(lines(contents).skip(2)) <= u32::MAX ==> net_errors(
            contents,
        ) == all_errors(lines(contents).skip(2)),
        lines(contents).len() > 2 && all_errors(lines(contents).skip(2)) > u32::MAX ==> net_errors(
            contents,
        ) == u32::MAX,
        interfaces_of(JsonModel::Array(items)) == interfaces_of_items(items),
        interfaces_of(JsonModel::Text(s)).len() == 0,
{
}

/// A fresh look at the services changes what is known of them and nothing else of the machine.
pub proof fn fresh_services_change_nothing_else(
    s: SystemState,
    running: usize,
    failed: Seq<String>,
    errors: Seq<String>,
    r: SystemState,
)
    requires
        with_services(s, running, failed, errors, r),
    ensures
        r.running_services_count == running && r.failed_services@ == failed && r.collector_errors@
            == errors,
        r == (SystemState {
            running_services_count: r.running_services_count,
            failed_services: r.failed_services,
            collector_errors: r.collector_errors,
            ..s
        }),
{
}

} // verus!
