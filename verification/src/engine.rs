use vstd::prelude::*;
use crate::models::{
    alerts_view, entries_view, rules_view, Alert, AlertType, AlertTypeV, AlertV, LogEntry,
    LogEntryV, Rule, RuleType, RuleTypeV, RuleV,
};
use crate::text::{
    dec_render, dec_render_fixed, dec_val, i64_to_dec, is_digit, lemma_dec_render_fixed_ok,
    lemma_dec_render_ok, pow10, u64_to_dec_fixed, usize_to_dec, NUM_WIDTH,
};

verus! {

// ---------------------------------------------------------------------------
// Spec model of the detection engine.
//
// Every rule keeps one sliding window per group. A window is the list of
// in-window timestamps of qualifying events, plus an "armed" flag that
// implements the re-fire discipline: a rule fires once when the count inside
// the window reaches the threshold, and cannot fire again for that group
// until the count has dropped back below the threshold.
// ---------------------------------------------------------------------------

/// The grouping key of one record under one rule: the IP address, narrowed by
/// the user id for brute-force rules.
pub struct GroupKeyV {
    pub ip: Seq<char>,
    pub user: Option<Seq<char>>,
}

pub open spec fn group_key_of(rt: RuleTypeV, e: LogEntryV) -> GroupKeyV {
    match rt {
        RuleTypeV::BruteForce => GroupKeyV { ip: e.ip_address, user: e.user_id },
        _ => GroupKeyV { ip: e.ip_address, user: Option::None },
    }
}

/// Whether a record's event counts toward a rule.
pub open spec fn event_qualifies(rt: RuleTypeV, e: LogEntryV) -> bool {
    match rt {
        RuleTypeV::BruteForce => e.event_type == "login_failed"@,
        RuleTypeV::HighFrequencyRequest => true,
        RuleTypeV::SuspiciousIp => e.event_type == "port_scan"@ || e.event_type
            == "unauthorized_access"@,
        RuleTypeV::Custom(tag) => e.event_type == tag,
    }
}

/// The per-group counter state.
pub struct WindowV {
    pub times: Seq<int>,
    pub armed: bool,
}

pub open spec fn initial_window() -> WindowV {
    WindowV { times: Seq::empty(), armed: true }
}

/// Slides the window forward to a record at time `t`: timestamps further than
/// `w` seconds behind `t` leave. A window of zero seconds never expires
/// anything: the whole batch is one window.
pub open spec fn evict(times: Seq<int>, t: int, w: int) -> Seq<int>
    decreases times.len(),
{
    if w > 0 && times.len() > 0 && t - times[0] > w {
        evict(times.drop_first(), t, w)
    } else {
        times
    }
}

/// One qualifying record at time `t` arrives: slide, count, and decide
/// whether the rule fires. Returns the new state and the fire decision.
pub open spec fn window_step(st: WindowV, t: int, w: int, threshold: int) -> (WindowV, bool) {
    let times = evict(st.times, t, w).push(t);
    if times.len() >= threshold {
        (WindowV { times, armed: false }, st.armed)
    } else {
        (WindowV { times, armed: true }, false)
    }
}

pub open spec fn alert_type_for(rt: RuleTypeV) -> AlertTypeV {
    match rt {
        RuleTypeV::BruteForce => AlertTypeV::BruteForce,
        RuleTypeV::HighFrequencyRequest => AlertTypeV::HighFrequencyRequest,
        RuleTypeV::SuspiciousIp => AlertTypeV::SuspiciousIpBehavior,
        RuleTypeV::Custom(tag) => AlertTypeV::Custom(tag),
    }
}

pub open spec fn key_render(k: GroupKeyV) -> Seq<char> {
    k.ip + match k.user {
        Option::Some(u) => seq!['/'] + u,
        Option::None => Seq::<char>::empty(),
    }
}

pub open spec fn int_render(t: int) -> Seq<char> {
    if t >= 0 {
        dec_render(t as nat)
    } else {
        seq!['-'] + dec_render((-t) as nat)
    }
}

/// Alert ids are derived from content (rule, group, firing time), so that the
/// same batch yields the same ids no matter how it was partitioned. The name,
/// IP and user are length-prefixed with fixed-width decimals, so the encoding
/// is injective: distinct (rule name, group, firing time) triples give
/// distinct ids (`lemma_alert_id_injective`), and rule names themselves are
/// unique in any loaded rule set (`rules_wf`).
pub open spec fn alert_id_of(rule: RuleV, k: GroupKeyV, t: int) -> Seq<char> {
    dec_render_fixed(rule.name.len(), NUM_WIDTH as nat) + rule.name + dec_render_fixed(
        k.ip.len(),
        NUM_WIDTH as nat,
    ) + k.ip + (match k.user {
        Option::Some(u) => seq!['u'] + dec_render_fixed(u.len(), NUM_WIDTH as nat) + u,
        Option::None => seq!['n'],
    }) + seq!['|'] + int_render(t)
}

/// The signed decimal an id's tail denotes (total on the tails ids produce).
pub open spec fn id_time_of(s: Seq<char>) -> int {
    if s.len() > 0 && s[0] == '-' {
        -dec_val(s.drop_first())
    } else {
        dec_val(s)
    }
}

/// Reads the fields back out of an alert id. This is the inverse of
/// `alert_id_of` on every id the engine can produce, which is what makes the
/// encoding injective.
pub open spec fn id_fields_of(s: Seq<char>) -> Option<(Seq<char>, GroupKeyV, int)> {
    let w = NUM_WIDTH as int;
    if s.len() < w {
        Option::None
    } else {
        let nl = dec_val(s.subrange(0, w));
        if nl < 0 || w + nl + w > s.len() {
            Option::None
        } else {
            let name = s.subrange(w, w + nl);
            let il = dec_val(s.subrange(w + nl, 2 * w + nl));
            if il < 0 || 2 * w + nl + il + 1 > s.len() {
                Option::None
            } else {
                let ip = s.subrange(2 * w + nl, 2 * w + nl + il);
                let q = 2 * w + nl + il;
                if s[q] == 'u' {
                    if q + 1 + w > s.len() {
                        Option::None
                    } else {
                        let ul = dec_val(s.subrange(q + 1, q + 1 + w));
                        if ul < 0 || q + 1 + w + ul + 1 > s.len() {
                            Option::None
                        } else {
                            let user = s.subrange(q + 1 + w, q + 1 + w + ul);
                            let b = q + 1 + w + ul;
                            if s[b] == '|' {
                                Option::Some(
                                    (
                                        name,
                                        GroupKeyV { ip, user: Option::Some(user) },
                                        id_time_of(s.subrange(b + 1, s.len() as int)),
                                    ),
                                )
                            } else {
                                Option::None
                            }
                        }
                    }
                } else if s[q] == 'n' {
                    if q + 1 + 1 > s.len() || s[q + 1] != '|' {
                        Option::None
                    } else {
                        Option::Some(
                            (
                                name,
                                GroupKeyV { ip, user: Option::None },
                                id_time_of(s.subrange(q + 2, s.len() as int)),
                            ),
                        )
                    }
                } else {
                    Option::None
                }
            }
        }
    }
}

proof fn lemma_int_render_decodes(t: int)
    ensures
        id_time_of(int_render(t)) == t,
{
    if t >= 0 {
        lemma_dec_render_ok(t as nat);
        assert(is_digit(int_render(t)[0]));
    } else {
        lemma_dec_render_ok((-t) as nat);
        let s = int_render(t);
        assert(s[0] == '-');
        assert(s.drop_first() =~= dec_render((-t) as nat));
    }
}

/// Every id the engine can build decodes back to the triple it was built
/// from. The bounds are the validity of any strings the executable types can
/// hold.
#[verifier::rlimit(100)]
pub proof fn lemma_alert_id_decodes(rule: RuleV, k: GroupKeyV, t: int)
    requires
        rule.name.len() <= usize::MAX,
        k.ip.len() <= usize::MAX,
        k.user matches Option::Some(u) ==> u.len() <= usize::MAX,
    ensures
        id_fields_of(alert_id_of(rule, k, t)) == Option::Some((rule.name, k, t)),
{
    reveal_with_fuel(pow10, 21);
    assert(pow10(20) == 100000000000000000000nat);
    let w = NUM_WIDTH as int;
    let s = alert_id_of(rule, k, t);
    let nl = rule.name.len() as int;
    let il = k.ip.len() as int;
    lemma_dec_render_fixed_ok(rule.name.len(), NUM_WIDTH as nat);
    lemma_dec_render_fixed_ok(k.ip.len(), NUM_WIDTH as nat);
    lemma_int_render_decodes(t);
    assert(s.subrange(0, w) =~= dec_render_fixed(rule.name.len(), NUM_WIDTH as nat));
    assert(s.subrange(w, w + nl) =~= rule.name);
    assert(s.subrange(w + nl, 2 * w + nl) =~= dec_render_fixed(k.ip.len(), NUM_WIDTH as nat));
    assert(s.subrange(2 * w + nl, 2 * w + nl + il) =~= k.ip);
    let q = 2 * w + nl + il;
    match k.user {
        Option::Some(u) => {
            let ul = u.len() as int;
            lemma_dec_render_fixed_ok(u.len(), NUM_WIDTH as nat);
            assert(s[q] == 'u');
            assert(s.subrange(q + 1, q + 1 + w) =~= dec_render_fixed(u.len(), NUM_WIDTH as nat));
            assert(s.subrange(q + 1 + w, q + 1 + w + ul) =~= u);
            assert(s[q + 1 + w + ul] == '|');
            assert(s.subrange(q + 1 + w + ul + 1, s.len() as int) =~= int_render(t));
        },
        Option::None => {
            assert(s[q] == 'n');
            assert(s[q + 1] == '|');
            assert(s.subrange(q + 2, s.len() as int) =~= int_render(t));
        },
    }
}

/// Distinct (rule name, group, firing time) triples give distinct alert ids.
pub proof fn lemma_alert_id_injective(
    r1: RuleV,
    k1: GroupKeyV,
    t1: int,
    r2: RuleV,
    k2: GroupKeyV,
    t2: int,
)
    requires
        r1.name.len() <= usize::MAX,
        k1.ip.len() <= usize::MAX,
        k1.user matches Option::Some(u) ==> u.len() <= usize::MAX,
        r2.name.len() <= usize::MAX,
        k2.ip.len() <= usize::MAX,
        k2.user matches Option::Some(u) ==> u.len() <= usize::MAX,
        alert_id_of(r1, k1, t1) == alert_id_of(r2, k2, t2),
    ensures
        r1.name == r2.name,
        k1 == k2,
        t1 == t2,
{
    lemma_alert_id_decodes(r1, k1, t1);
    lemma_alert_id_decodes(r2, k2, t2);
}

pub open spec fn alert_desc_of(rule: RuleV, k: GroupKeyV, count: int) -> Seq<char> {
    "rule "@ + rule.name + ": observed "@ + dec_render(count as nat) + " events, threshold "@
        + dec_render(rule.threshold as nat) + ", group "@ + key_render(k)
}

/// The alert emitted when record `e` completes the threshold for its group;
/// `count` is the observed in-window count at that moment.
pub open spec fn fired_alert(rule: RuleV, k: GroupKeyV, e: LogEntryV, count: int) -> AlertV {
    AlertV {
        id: alert_id_of(rule, k, e.timestamp),
        timestamp: e.timestamp,
        alert_type: alert_type_for(rule.rule_type),
        description: alert_desc_of(rule, k, count),
        log_entry_sample: Option::Some(e),
    }
}

/// The alerts one rule emits for one group's records, processed in order
/// starting from state `st`.
pub open spec fn group_run(rule: RuleV, recs: Seq<LogEntryV>, st: WindowV) -> Seq<AlertV>
    decreases recs.len(),
{
    if recs.len() == 0 {
        Seq::empty()
    } else {
        let e = recs[0];
        let rest = recs.drop_first();
        if event_qualifies(rule.rule_type, e) {
            let stepped = window_step(st, e.timestamp, rule.time_window_seconds, rule.threshold);
            if stepped.1 {
                seq![
                    fired_alert(
                        rule,
                        group_key_of(rule.rule_type, e),
                        e,
                        stepped.0.times.len() as int,
                    ),
                ] + group_run(rule, rest, stepped.0)
            } else {
                group_run(rule, rest, stepped.0)
            }
        } else {
            group_run(rule, rest, st)
        }
    }
}

/// The subsequence of `recs` that belongs to group `k` under rule type `rt`,
/// in batch order.
pub open spec fn group_records(rt: RuleTypeV, recs: Seq<LogEntryV>, k: GroupKeyV) -> Seq<LogEntryV>
    decreases recs.len(),
{
    if recs.len() == 0 {
        Seq::empty()
    } else {
        let rest = group_records(rt, recs.drop_last(), k);
        if group_key_of(rt, recs.last()) == k {
            rest.push(recs.last())
        } else {
            rest
        }
    }
}

/// The distinct grouping keys of `recs`, in order of first appearance.
pub open spec fn keys_of(rt: RuleTypeV, recs: Seq<LogEntryV>) -> Seq<GroupKeyV>
    decreases recs.len(),
{
    if recs.len() == 0 {
        Seq::empty()
    } else {
        let ks = keys_of(rt, recs.drop_last());
        let k = group_key_of(rt, recs.last());
        if ks.contains(k) {
            ks
        } else {
            ks.push(k)
        }
    }
}

pub open spec fn groups_alerts(rule: RuleV, recs: Seq<LogEntryV>, ks: Seq<GroupKeyV>) -> Seq<
    AlertV,
>
    decreases ks.len(),
{
    if ks.len() == 0 {
        Seq::empty()
    } else {
        groups_alerts(rule, recs, ks.drop_last()) + group_run(
            rule,
            group_records(rule.rule_type, recs, ks.last()),
            initial_window(),
        )
    }
}

/// All alerts one rule emits for a batch: its groups in order of first
/// appearance, each group scanned independently.
pub open spec fn rule_alerts(rule: RuleV, recs: Seq<LogEntryV>) -> Seq<AlertV> {
    groups_alerts(rule, recs, keys_of(rule.rule_type, recs))
}

/// All alerts a batch produces: rule after rule, in rule-set order. This is
/// the canonical meaning of `evaluate`; it is a function of the batch and the
/// rule set alone, which is what makes evaluation deterministic.
pub open spec fn batch_alerts(recs: Seq<LogEntryV>, rules: Seq<RuleV>) -> Seq<AlertV>
    decreases rules.len(),
{
    if rules.len() == 0 {
        Seq::empty()
    } else {
        batch_alerts(recs, rules.drop_last()) + rule_alerts(rules.last(), recs)
    }
}

/// How many records of `recs` qualify under rule type `rt`.
pub open spec fn qual_count(rt: RuleTypeV, recs: Seq<LogEntryV>) -> int
    decreases recs.len(),
{
    if recs.len() == 0 {
        0
    } else {
        (if event_qualifies(rt, recs[0]) {
            1int
        } else {
            0int
        }) + qual_count(rt, recs.drop_first())
    }
}

proof fn lemma_qual_count_nonneg(rt: RuleTypeV, recs: Seq<LogEntryV>)
    ensures
        qual_count(rt, recs) >= 0,
    decreases recs.len(),
{
    if recs.len() > 0 {
        lemma_qual_count_nonneg(rt, recs.drop_first());
    }
}

proof fn lemma_whole_batch_window_from(rule: RuleV, recs: Seq<LogEntryV>, st: WindowV)
    requires
        rule.time_window_seconds == 0,
        rule.threshold >= 1,
        st.armed == (st.times.len() < rule.threshold),
    ensures
        group_run(rule, recs, st).len() == (
        if st.times.len() < rule.threshold && st.times.len() + qual_count(rule.rule_type, recs)
            >= rule.threshold {
            1int
        } else {
            0int
        }),
    decreases recs.len(),
{
    if recs.len() > 0 {
        let e = recs[0];
        let rest = recs.drop_first();
        lemma_qual_count_nonneg(rule.rule_type, rest);
        assert(qual_count(rule.rule_type, recs) == (
        if event_qualifies(rule.rule_type, e) {
            1int
        } else {
            0int
        }) + qual_count(rule.rule_type, rest));
        if event_qualifies(rule.rule_type, e) {
            let stepped = window_step(st, e.timestamp, rule.time_window_seconds, rule.threshold);
            assert(evict(st.times, e.timestamp, 0) == st.times);
            assert(stepped.0.times == st.times.push(e.timestamp));
            assert(stepped.0.times.len() == st.times.len() + 1);
            assert(stepped.0.armed == (stepped.0.times.len() < rule.threshold));
            lemma_whole_batch_window_from(rule, rest, stepped.0);
            if stepped.1 {
                assert(group_run(rule, recs, st) == seq![
                    fired_alert(
                        rule,
                        group_key_of(rule.rule_type, e),
                        e,
                        stepped.0.times.len() as int,
                    ),
                ] + group_run(rule, rest, stepped.0));
                assert(group_run(rule, recs, st).len() == 1 + group_run(rule, rest, stepped.0).len());
                assert(st.armed && st.times.len() + 1 >= rule.threshold);
                assert(group_run(rule, rest, stepped.0).len() == 0);
            } else {
                assert(group_run(rule, recs, st) == group_run(rule, rest, stepped.0));
            }
        } else {
            lemma_whole_batch_window_from(rule, rest, st);
            assert(group_run(rule, recs, st) == group_run(rule, rest, st));
        }
    }
}

proof fn lemma_single_window_from(
    rule: RuleV,
    recs: Seq<LogEntryV>,
    st: WindowV,
    lo: int,
    hi: int,
)
    requires
        rule.threshold >= 1,
        hi - lo <= rule.time_window_seconds,
        st.armed == (st.times.len() < rule.threshold),
        forall|i: int| 0 <= i < st.times.len() ==> lo <= #[trigger] st.times[i] <= hi,
        forall|i: int| 0 <= i < recs.len() ==> lo <= (#[trigger] recs[i]).timestamp <= hi,
    ensures
        group_run(rule, recs, st).len() == (
        if st.times.len() < rule.threshold && st.times.len() + qual_count(rule.rule_type, recs)
            >= rule.threshold {
            1int
        } else {
            0int
        }),
    decreases recs.len(),
{
    if recs.len() > 0 {
        let e = recs[0];
        let rest = recs.drop_first();
        lemma_qual_count_nonneg(rule.rule_type, rest);
        assert(forall|i: int| 0 <= i < rest.len() ==> lo <= (#[trigger] rest[i]).timestamp <= hi);
        assert(qual_count(rule.rule_type, recs) == (
        if event_qualifies(rule.rule_type, e) {
            1int
        } else {
            0int
        }) + qual_count(rule.rule_type, rest));
        if event_qualifies(rule.rule_type, e) {
            let t = e.timestamp;
            let w = rule.time_window_seconds;
            let stepped = window_step(st, t, w, rule.threshold);
            // The record's time is at most `w` past every timestamp in the
            // window, so the slide expires nothing.
            assert(st.times.len() > 0 ==> t - st.times[0] <= hi - lo);
            assert(evict(st.times, t, w) == st.times);
            assert(stepped.0.times == st.times.push(t));
            assert(forall|i: int|
                0 <= i < stepped.0.times.len() ==> lo <= #[trigger] stepped.0.times[i] <= hi);
            assert(stepped.0.armed == (stepped.0.times.len() < rule.threshold));
            lemma_single_window_from(rule, rest, stepped.0, lo, hi);
            if stepped.1 {
                assert(group_run(rule, recs, st).len() == 1 + group_run(
                    rule,
                    rest,
                    stepped.0,
                ).len());
                assert(group_run(rule, rest, stepped.0).len() == 0);
            } else {
                assert(group_run(rule, recs, st) == group_run(rule, rest, stepped.0));
            }
        } else {
            lemma_single_window_from(rule, rest, st, lo, hi);
            assert(group_run(rule, recs, st) == group_run(rule, rest, st));
        }
    }
}

/// While one window span lasts, a rule fires exactly once per group: when a
/// group's records all fall within `time_window_seconds` of each other, the
/// window never expires anything, the in-window count never drops back below
/// the threshold, and so the rule fires on the record that completes the
/// threshold and on no later record of that span.
pub proof fn lemma_single_window_fires_once(rule: RuleV, recs: Seq<LogEntryV>, lo: int, hi: int)
    requires
        rule.threshold >= 1,
        hi - lo <= rule.time_window_seconds,
        forall|i: int| 0 <= i < recs.len() ==> lo <= (#[trigger] recs[i]).timestamp <= hi,
    ensures
        group_run(rule, recs, initial_window()).len() == (
        if qual_count(rule.rule_type, recs) >= rule.threshold {
            1int
        } else {
            0int
        }),
{
    lemma_single_window_from(rule, recs, initial_window(), lo, hi);
}

/// A window of zero seconds makes the whole batch one window: a group fires
/// exactly once as soon as its qualifying events reach the threshold, and
/// never again, no matter where in the batch those events fall.
pub proof fn lemma_whole_batch_window(rule: RuleV, recs: Seq<LogEntryV>)
    requires
        rule.time_window_seconds == 0,
        rule.threshold >= 1,
    ensures
        group_run(rule, recs, initial_window()).len() == (
        if qual_count(rule.rule_type, recs) >= rule.threshold {
            1int
        } else {
            0int
        }),
{
    lemma_whole_batch_window_from(rule, recs, initial_window());
}

// ---------------------------------------------------------------------------
// Executable engine.
// ---------------------------------------------------------------------------

/// The executable grouping key.
pub struct GroupKey {
    pub ip: String,
    pub user: Option<String>,
}

impl View for GroupKey {
    type V = GroupKeyV;

    open spec fn view(&self) -> GroupKeyV {
        GroupKeyV { ip: self.ip@, user: crate::models::opt_str_view(self.user) }
    }
}

pub open spec fn keys_view(s: Seq<GroupKey>) -> Seq<GroupKeyV> {
    s.map_values(|k: GroupKey| k@)
}

pub open spec fn times_view(s: Seq<i64>) -> Seq<int> {
    s.map_values(|t: i64| t as int)
}

fn key_eq(a: &GroupKey, b: &GroupKey) -> (r: bool)
    ensures
        r == (a@ == b@),
{
    let ips = a.ip == b.ip;
    let users = match (&a.user, &b.user) {
        (Option::Some(x), Option::Some(y)) => *x == *y,
        (Option::None, Option::None) => true,
        _ => false,
    };
    ips && users
}

/// Computes the grouping key of one record under one rule type.
pub fn group_key_for(rt: &RuleType, e: &LogEntry) -> (k: GroupKey)
    ensures
        k@ == group_key_of(rt@, e@),
{
    let user = match rt {
        RuleType::BruteForce => match &e.user_id {
            Option::Some(u) => Option::Some(u.clone()),
            Option::None => Option::None,
        },
        _ => Option::None,
    };
    GroupKey { ip: e.ip_address.clone(), user }
}

/// Decides whether a record's event counts toward a rule.
pub fn event_counts(rt: &RuleType, e: &LogEntry) -> (b: bool)
    ensures
        b == event_qualifies(rt@, e@),
{
    match rt {
        RuleType::BruteForce => e.event_type == ("login_failed").to_owned(),
        RuleType::HighFrequencyRequest => true,
        RuleType::SuspiciousIp => e.event_type == ("port_scan").to_owned() || e.event_type == (
        "unauthorized_access").to_owned(),
        RuleType::Custom(tag) => e.event_type == *tag,
    }
}

fn alert_type_for_exec(rt: &RuleType) -> (a: AlertType)
    ensures
        a@ == alert_type_for(rt@),
{
    match rt {
        RuleType::BruteForce => AlertType::BruteForce,
        RuleType::HighFrequencyRequest => AlertType::HighFrequencyRequest,
        RuleType::SuspiciousIp => AlertType::SuspiciousIpBehavior,
        RuleType::Custom(tag) => AlertType::Custom(tag.clone()),
    }
}

fn render_key(k: &GroupKey) -> (s: String)
    ensures
        s@ == key_render(k@),
{
    let mut s = k.ip.clone();
    match &k.user {
        Option::Some(u) => {
            proof {
                reveal_strlit("/");
                assert(("/")@ =~= seq!['/']);
            }
            s.append("/");
            s.append(u.as_str());
            proof {
                assert(s@ =~= key_render(k@));
            }
        },
        Option::None => {
            proof {
                assert(s@ =~= key_render(k@));
            }
        },
    }
    s
}

fn make_alert(rule: &Rule, e: &LogEntry, count: usize) -> (a: Alert)
    ensures
        a@ == fired_alert(rule@, group_key_of(rule.rule_type@, e@), e@, count as int),
{
    let key = group_key_for(&rule.rule_type, e);
    let keystr = render_key(&key);
    proof {
        reveal_strlit("|");
        reveal_strlit("u");
        reveal_strlit("n");
        assert(("|")@ =~= seq!['|']);
        assert(("u")@ =~= seq!['u']);
        assert(("n")@ =~= seq!['n']);
    }
    let nl = rule.name.as_str().unicode_len();
    let mut id = u64_to_dec_fixed(nl as u64);
    id.append(rule.name.as_str());
    let il = key.ip.as_str().unicode_len();
    let f = u64_to_dec_fixed(il as u64);
    id.append(f.as_str());
    id.append(key.ip.as_str());
    match &key.user {
        Option::Some(u) => {
            id.append("u");
            let ul = u.as_str().unicode_len();
            let f = u64_to_dec_fixed(ul as u64);
            id.append(f.as_str());
            id.append(u.as_str());
        },
        Option::None => {
            id.append("n");
        },
    }
    id.append("|");
    let ts = i64_to_dec(e.timestamp);
    id.append(ts.as_str());
    proof {
        assert(ts@ == int_render(e@.timestamp));
        assert(id@ =~= alert_id_of(rule@, key@, e@.timestamp));
    }
    let mut desc = ("rule ").to_owned();
    desc.append(rule.name.as_str());
    desc.append(": observed ");
    let c = usize_to_dec(count);
    desc.append(c.as_str());
    desc.append(" events, threshold ");
    let th = usize_to_dec(rule.threshold);
    desc.append(th.as_str());
    desc.append(", group ");
    desc.append(keystr.as_str());
    proof {
        assert(desc@ =~= alert_desc_of(rule@, key@, count as int));
    }
    let alert_type = alert_type_for_exec(&rule.rule_type);
    Alert {
        id,
        timestamp: e.timestamp,
        alert_type,
        description: desc,
        log_entry_sample: Option::Some(e.duplicate()),
    }
}

/// Runs one rule over one group's records, in order, with the sliding-window
/// and re-arm discipline of `group_run`.
pub fn scan_group(rule: &Rule, group: &Vec<LogEntry>) -> (alerts: Vec<Alert>)
    ensures
        alerts_view(alerts@) == group_run(rule@, entries_view(group@), initial_window()),
{
    let ghost groupv = entries_view(group@);
    let mut alerts: Vec<Alert> = Vec::new();
    let mut window: Vec<i64> = Vec::new();
    let mut armed: bool = true;
    let mut i: usize = 0;
    proof {
        assert(alerts_view(alerts@) =~= Seq::<AlertV>::empty());
        assert(times_view(window@) =~= Seq::<int>::empty());
        assert(groupv.skip(0) =~= groupv);
    }
    while i < group.len()
        invariant
            i <= group@.len(),
            groupv == entries_view(group@),
            groupv.len() == group@.len(),
            alerts_view(alerts@) + group_run(
                rule@,
                groupv.skip(i as int),
                WindowV { times: times_view(window@), armed },
            ) == group_run(rule@, groupv, initial_window()),
        decreases group@.len() - i,
    {
        let ghost st0 = WindowV { times: times_view(window@), armed };
        let ghost rem = groupv.skip(i as int);
        proof {
            assert(rem[0] == groupv[i as int]);
            assert(rem.drop_first() =~= groupv.skip(i as int + 1));
            assert(groupv[i as int] == group@[i as int]@);
        }
        let e = &group[i];
        if event_counts(&rule.rule_type, e) {
            let t = e.timestamp;
            let w = rule.time_window_seconds;
            while window.len() > 0 && w > 0 && (t as i128) - (window[0] as i128) > (w as i128)
                invariant
                    evict(st0.times, t as int, w as int) == evict(
                        times_view(window@),
                        t as int,
                        w as int,
                    ),
                decreases window@.len(),
            {
                let ghost before = window@;
                window.remove(0);
                proof {
                    assert(window@ =~= before.drop_first());
                    assert(times_view(before).drop_first() =~= times_view(before.drop_first()));
                }
            }
            proof {
                assert(evict(st0.times, t as int, w as int) == times_view(window@));
            }
            let ghost evicted = times_view(window@);
            window.push(t);
            proof {
                assert(times_view(window@) =~= evicted.push(t as int));
            }
            let count = window.len();
            let ghost stepped = window_step(st0, t as int, w as int, rule@.threshold);
            proof {
                assert(stepped.0.times == times_view(window@));
                assert(stepped.1 == (armed && count >= rule@.threshold));
            }
            if count >= rule.threshold {
                if armed {
                    let a = make_alert(rule, e, count);
                    let ghost before_alerts = alerts_view(alerts@);
                    alerts.push(a);
                    proof {
                        assert(alerts_view(alerts@) =~= before_alerts.push(a@));
                        assert(a@ == fired_alert(
                            rule@,
                            group_key_of(rule@.rule_type, rem[0]),
                            rem[0],
                            stepped.0.times.len() as int,
                        ));
                        assert(group_run(rule@, rem, st0) =~= seq![a@] + group_run(
                            rule@,
                            rem.drop_first(),
                            stepped.0,
                        ));
                        assert(before_alerts.push(a@) =~= before_alerts + seq![a@]);
                        assert((before_alerts + seq![a@]) + group_run(
                            rule@,
                            rem.drop_first(),
                            stepped.0,
                        ) =~= before_alerts + (seq![a@] + group_run(
                            rule@,
                            rem.drop_first(),
                            stepped.0,
                        )));
                    }
                }
                armed = false;
            } else {
                armed = true;
            }
            proof {
                assert(WindowV { times: times_view(window@), armed } == stepped.0);
            }
        } else {
            proof {
                assert(group_run(rule@, rem, st0) == group_run(rule@, rem.drop_first(), st0));
            }
        }
        i = i + 1;
    }
    proof {
        assert(groupv.skip(groupv.len() as int) =~= Seq::<LogEntryV>::empty());
        assert(alerts_view(alerts@) + Seq::<AlertV>::empty() =~= alerts_view(alerts@));
    }
    alerts
}

fn keys_contain(keys: &Vec<GroupKey>, k: &GroupKey) -> (r: bool)
    ensures
        r == keys_view(keys@).contains(k@),
{
    let mut i: usize = 0;
    while i < keys.len()
        invariant
            i <= keys@.len(),
            forall|j: int| 0 <= j < i ==> keys_view(keys@)[j] != k@,
        decreases keys@.len() - i,
    {
        if key_eq(&keys[i], k) {
            proof {
                assert(keys_view(keys@)[i as int] == k@);
            }
            return true;
        }
        i = i + 1;
    }
    proof {
        assert(forall|j: int| 0 <= j < keys_view(keys@).len() ==> keys_view(keys@)[j] != k@);
    }
    false
}

/// Collects the distinct grouping keys of a batch, in order of first
/// appearance.
pub fn collect_keys(rt: &RuleType, records: &Vec<LogEntry>) -> (keys: Vec<GroupKey>)
    ensures
        keys_view(keys@) == keys_of(rt@, entries_view(records@)),
{
    let ghost recsv = entries_view(records@);
    let mut keys: Vec<GroupKey> = Vec::new();
    let mut i: usize = 0;
    proof {
        assert(keys_view(keys@) =~= Seq::<GroupKeyV>::empty());
        assert(recsv.take(0) =~= Seq::<LogEntryV>::empty());
    }
    while i < records.len()
        invariant
            i <= records@.len(),
            recsv == entries_view(records@),
            recsv.len() == records@.len(),
            keys_view(keys@) == keys_of(rt@, recsv.take(i as int)),
        decreases records@.len() - i,
    {
        proof {
            assert(recsv.take(i as int + 1).drop_last() =~= recsv.take(i as int));
            assert(recsv.take(i as int + 1).last() == recsv[i as int]);
            assert(recsv[i as int] == records@[i as int]@);
        }
        let k = group_key_for(rt, &records[i]);
        let ghost before = keys_view(keys@);
        if !keys_contain(&keys, &k) {
            keys.push(k);
            proof {
                assert(keys_view(keys@) =~= before.push(group_key_of(rt@, recsv[i as int])));
            }
        }
        i = i + 1;
    }
    proof {
        assert(recsv.take(recsv.len() as int) =~= recsv);
    }
    keys
}

/// Collects one group's records, in batch order.
pub fn collect_group(rt: &RuleType, records: &Vec<LogEntry>, k: &GroupKey) -> (bucket: Vec<
    LogEntry,
>)
    ensures
        entries_view(bucket@) == group_records(rt@, entries_view(records@), k@),
{
    let ghost recsv = entries_view(records@);
    let mut bucket: Vec<LogEntry> = Vec::new();
    let mut i: usize = 0;
    proof {
        assert(entries_view(bucket@) =~= Seq::<LogEntryV>::empty());
        assert(recsv.take(0) =~= Seq::<LogEntryV>::empty());
    }
    while i < records.len()
        invariant
            i <= records@.len(),
            recsv == entries_view(records@),
            recsv.len() == records@.len(),
            entries_view(bucket@) == group_records(rt@, recsv.take(i as int), k@),
        decreases records@.len() - i,
    {
        proof {
            assert(recsv.take(i as int + 1).drop_last() =~= recsv.take(i as int));
            assert(recsv.take(i as int + 1).last() == recsv[i as int]);
            assert(recsv[i as int] == records@[i as int]@);
        }
        let rk = group_key_for(rt, &records[i]);
        let ghost before = entries_view(bucket@);
        if key_eq(&rk, k) {
            bucket.push(records[i].duplicate());
            proof {
                assert(entries_view(bucket@) =~= before.push(recsv[i as int]));
            }
        }
        i = i + 1;
    }
    proof {
        assert(recsv.take(recsv.len() as int) =~= recsv);
    }
    bucket
}

/// Evaluates a batch of records against a rule set: for each rule, each group
/// of the batch is scanned with the rule's sliding window. Returns the alerts
/// and the number of records processed. The result is a function of the batch
/// and the rule set alone.
pub fn evaluate(records: &Vec<LogEntry>, rules: &Vec<Rule>) -> (r: (Vec<Alert>, usize))
    ensures
        alerts_view(r.0@) == batch_alerts(entries_view(records@), rules_view(rules@)),
        r.1 == records@.len(),
{
    let ghost recsv = entries_view(records@);
    let ghost rulesv = rules_view(rules@);
    let mut alerts: Vec<Alert> = Vec::new();
    let mut ri: usize = 0;
    proof {
        assert(alerts_view(alerts@) =~= Seq::<AlertV>::empty());
        assert(rulesv.take(0) =~= Seq::<RuleV>::empty());
    }
    while ri < rules.len()
        invariant
            ri <= rules@.len(),
            recsv == entries_view(records@),
            rulesv == rules_view(rules@),
            rulesv.len() == rules@.len(),
            alerts_view(alerts@) == batch_alerts(recsv, rulesv.take(ri as int)),
        decreases rules@.len() - ri,
    {
        let rule = &rules[ri];
        proof {
            assert(rulesv[ri as int] == rules@[ri as int]@);
        }
        let keys = collect_keys(&rule.rule_type, records);
        let ghost ksv = keys_view(keys@);
        let mut ki: usize = 0;
        proof {
            assert(ksv.take(0) =~= Seq::<GroupKeyV>::empty());
            assert(batch_alerts(recsv, rulesv.take(ri as int)) + Seq::<AlertV>::empty()
                =~= batch_alerts(recsv, rulesv.take(ri as int)));
        }
        while ki < keys.len()
            invariant
                ki <= keys@.len(),
                recsv == entries_view(records@),
                rulesv == rules_view(rules@),
                rulesv.len() == rules@.len(),
                ri < rules@.len(),
                rulesv[ri as int] == rules@[ri as int]@,
                ksv == keys_view(keys@),
                ksv.len() == keys@.len(),
                ksv == keys_of(rules@[ri as int].rule_type@, recsv),
                alerts_view(alerts@) == batch_alerts(recsv, rulesv.take(ri as int)) + groups_alerts(
                    rulesv[ri as int],
                    recsv,
                    ksv.take(ki as int),
                ),
            decreases keys@.len() - ki,
        {
            let bucket = collect_group(&rules[ri].rule_type, records, &keys[ki]);
            let mut got = scan_group(&rules[ri], &bucket);
            let ghost gotv = alerts_view(got@);
            let ghost before = alerts_view(alerts@);
            alerts.append(&mut got);
            proof {
                assert(alerts_view(alerts@) =~= before + gotv);
                assert(ksv.take(ki as int + 1).drop_last() =~= ksv.take(ki as int));
                assert(ksv.take(ki as int + 1).last() == ksv[ki as int]);
                assert(ksv[ki as int] == keys@[ki as int]@);
                assert(groups_alerts(rulesv[ri as int], recsv, ksv.take(ki as int + 1))
                    == groups_alerts(rulesv[ri as int], recsv, ksv.take(ki as int)) + gotv);
                assert((batch_alerts(recsv, rulesv.take(ri as int)) + groups_alerts(
                    rulesv[ri as int],
                    recsv,
                    ksv.take(ki as int),
                )) + gotv =~= batch_alerts(recsv, rulesv.take(ri as int)) + (groups_alerts(
                    rulesv[ri as int],
                    recsv,
                    ksv.take(ki as int),
                ) + gotv));
            }
            ki = ki + 1;
        }
        proof {
            assert(ksv.take(ksv.len() as int) =~= ksv);
            assert(rulesv.take(ri as int + 1).drop_last() =~= rulesv.take(ri as int));
            assert(rulesv.take(ri as int + 1).last() == rulesv[ri as int]);
            assert(batch_alerts(recsv, rulesv.take(ri as int + 1)) == batch_alerts(
                recsv,
                rulesv.take(ri as int),
            ) + rule_alerts(rulesv[ri as int], recsv));
        }
        ri = ri + 1;
    }
    proof {
        assert(rulesv.take(rulesv.len() as int) =~= rulesv);
    }
    let n = records.len();
    (alerts, n)
}

} // verus!
