use vstd::prelude::*;
use vstd::multiset::Multiset;
use crate::engine::{
    batch_alerts, evaluate, group_key_of, group_records, group_run, groups_alerts, initial_window,
    keys_of, rule_alerts, GroupKeyV,
};
use crate::models::{
    alerts_view, entries_view, rules_view, Alert, AlertV, AnalysisError, ExecMode, LogEntry,
    LogEntryV, Metrics, Rule, RuleTypeV, RuleV,
};

verus! {

// ---------------------------------------------------------------------------
// Partitioning, strategy (a): every record goes to the partition named by a
// hash of its IP address. A grouping key always contains the IP, so all
// records of one group land in one partition and no window is ever split
// across a partition boundary. No merge-time re-evaluation or de-duplication
// is needed.
// ---------------------------------------------------------------------------

/// A deterministic 32-bit polynomial hash of the IP characters.
pub open spec fn ip_hash(ip: Seq<char>) -> int
    decreases ip.len(),
{
    if ip.len() == 0 {
        0
    } else {
        (ip_hash(ip.drop_last()) * 31 + (ip.last() as int)) % 0x1_0000_0000
    }
}

/// The partition a record belongs to, out of `p` partitions.
pub open spec fn part_index(e: LogEntryV, p: int) -> int {
    ip_hash(e.ip_address) % p
}

/// The i-th partition: the records whose IP hashes to i, in batch order.
pub open spec fn partition_of(recs: Seq<LogEntryV>, p: int, i: int) -> Seq<LogEntryV>
    decreases recs.len(),
{
    if recs.len() == 0 {
        Seq::empty()
    } else {
        let rest = partition_of(recs.drop_last(), p, i);
        if part_index(recs.last(), p) == i {
            rest.push(recs.last())
        } else {
            rest
        }
    }
}

pub fn ip_hash_exec(ip: &String) -> (h: u64)
    ensures
        h as int == ip_hash(ip@),
        h < 0x1_0000_0000,
{
    let s = ip.as_str();
    let n = s.unicode_len();
    let mut acc: u64 = 0;
    let mut i: usize = 0;
    proof {
        assert(ip@.take(0) =~= Seq::<char>::empty());
    }
    while i < n
        invariant
            i <= ip@.len(),
            n == ip@.len(),
            s@ == ip@,
            acc < 0x1_0000_0000,
            acc as int == ip_hash(ip@.take(i as int)),
        decreases ip@.len() - i,
    {
        let c = s.get_char(i);
        proof {
            assert(ip@.take(i as int + 1).drop_last() =~= ip@.take(i as int));
            assert(ip@.take(i as int + 1).last() == ip@[i as int]);
        }
        acc = (acc * 31 + ((c as u32) as u64)) % 0x1_0000_0000;
        i = i + 1;
    }
    proof {
        assert(ip@.take(ip@.len() as int) =~= ip@);
    }
    acc
}

fn collect_partition(records: &Vec<LogEntry>, p: usize, i: usize) -> (bucket: Vec<LogEntry>)
    requires
        p >= 1,
        i < p,
    ensures
        entries_view(bucket@) == partition_of(entries_view(records@), p as int, i as int),
{
    let ghost recsv = entries_view(records@);
    let mut bucket: Vec<LogEntry> = Vec::new();
    let mut j: usize = 0;
    proof {
        assert(entries_view(bucket@) =~= Seq::<LogEntryV>::empty());
        assert(recsv.take(0) =~= Seq::<LogEntryV>::empty());
    }
    while j < records.len()
        invariant
            j <= records@.len(),
            p >= 1,
            recsv == entries_view(records@),
            recsv.len() == records@.len(),
            entries_view(bucket@) == partition_of(recsv.take(j as int), p as int, i as int),
        decreases records@.len() - j,
    {
        proof {
            assert(recsv.take(j as int + 1).drop_last() =~= recsv.take(j as int));
            assert(recsv.take(j as int + 1).last() == recsv[j as int]);
            assert(recsv[j as int] == records@[j as int]@);
        }
        let h = ip_hash_exec(&records[j].ip_address);
        let ghost before = entries_view(bucket@);
        if h % (p as u64) == i as u64 {
            bucket.push(records[j].duplicate());
            proof {
                assert(entries_view(bucket@) =~= before.push(recsv[j as int]));
            }
        }
        j = j + 1;
    }
    proof {
        assert(recsv.take(recsv.len() as int) =~= recsv);
    }
    bucket
}

/// Splits a batch into `p` partitions by IP hash. Partition order and the
/// batch order inside each partition are preserved.
pub fn partition_batch(records: &Vec<LogEntry>, p: usize) -> (parts: Vec<Vec<LogEntry>>)
    requires
        p >= 1,
    ensures
        parts@.len() == p as int,
        forall|i: int|
            0 <= i < p ==> entries_view(#[trigger] parts@[i]@) == partition_of(
                entries_view(records@),
                p as int,
                i,
            ),
{
    let mut parts: Vec<Vec<LogEntry>> = Vec::new();
    let mut i: usize = 0;
    while i < p
        invariant
            i <= p,
            p >= 1,
            parts@.len() == i as int,
            forall|k: int|
                0 <= k < i ==> entries_view(#[trigger] parts@[k]@) == partition_of(
                    entries_view(records@),
                    p as int,
                    k,
                ),
        decreases p - i,
    {
        let bucket = collect_partition(records, p, i);
        parts.push(bucket);
        i = i + 1;
    }
    parts
}

// ---------------------------------------------------------------------------
// Merging partial results.
// ---------------------------------------------------------------------------

/// Sum of the per-partition processed counts, absent workers counting zero.
pub open spec fn merged_total(ps: Seq<Option<Metrics>>) -> int
    decreases ps.len(),
{
    if ps.len() == 0 {
        0
    } else {
        merged_total(ps.drop_last()) + (match ps.last() {
            Option::Some(m) => m@.total_logs_processed,
            Option::None => 0,
        })
    }
}

/// Concatenation of the per-partition alerts, first by partition index, then
/// in each partition's own emission order.
pub open spec fn merged_alerts(ps: Seq<Option<Metrics>>) -> Seq<AlertV>
    decreases ps.len(),
{
    if ps.len() == 0 {
        Seq::empty()
    } else {
        merged_alerts(ps.drop_last()) + (match ps.last() {
            Option::Some(m) => m@.alerts_generated,
            Option::None => Seq::empty(),
        })
    }
}

proof fn lemma_merged_total_prefix(ps: Seq<Option<Metrics>>, i: int)
    requires
        0 <= i <= ps.len(),
    ensures
        0 <= merged_total(ps.take(i)) <= merged_total(ps),
    decreases ps.len(),
{
    if ps.len() == 0 {
        assert(ps.take(i) =~= ps);
    } else if i == ps.len() {
        assert(ps.take(i) =~= ps);
        lemma_merged_total_prefix(ps.drop_last(), i - 1);
    } else {
        assert(ps.drop_last().take(i) =~= ps.take(i));
        lemma_merged_total_prefix(ps.drop_last(), i);
    }
}

/// Merges the partial results of every worker into one Metrics, in partition
/// order. If any worker never produced a result, the whole run fails with
/// `WorkerFailure` and no Metrics value is produced: a partial Metrics would
/// misreport the totals.
pub fn merge_results(partials: &Vec<Option<Metrics>>, mode: ExecMode) -> (r: Result<
    Metrics,
    AnalysisError,
>)
    requires
        merged_total(partials@) <= usize::MAX,
    ensures
        (r is Ok) <==> (forall|i: int| 0 <= i < partials@.len() ==> partials@[i] is Some),
        r is Ok ==> (r->Ok_0)@.mode == mode,
        r is Ok ==> (r->Ok_0)@.total_logs_processed == merged_total(partials@),
        r is Ok ==> (r->Ok_0)@.alerts_generated == merged_alerts(partials@),
        r is Err ==> (r->Err_0) matches AnalysisError::WorkerFailure(_),
{
    let mut i: usize = 0;
    while i < partials.len()
        invariant
            i <= partials@.len(),
            forall|k: int| 0 <= k < i ==> partials@[k] is Some,
        decreases partials@.len() - i,
    {
        if partials[i].is_none() {
            return Result::Err(
                AnalysisError::WorkerFailure(("a worker returned no result").to_owned()),
            );
        }
        i = i + 1;
    }
    let mut total: usize = 0;
    let mut alerts: Vec<Alert> = Vec::new();
    let mut j: usize = 0;
    proof {
        assert(partials@.take(0) =~= Seq::<Option<Metrics>>::empty());
        assert(alerts_view(alerts@) =~= Seq::<AlertV>::empty());
    }
    while j < partials.len()
        invariant
            j <= partials@.len(),
            merged_total(partials@) <= usize::MAX,
            forall|k: int| 0 <= k < partials@.len() ==> partials@[k] is Some,
            total as int == merged_total(partials@.take(j as int)),
            alerts_view(alerts@) == merged_alerts(partials@.take(j as int)),
        decreases partials@.len() - j,
    {
        proof {
            assert(partials@.take(j as int + 1).drop_last() =~= partials@.take(j as int));
            assert(partials@.take(j as int + 1).last() == partials@[j as int]);
            lemma_merged_total_prefix(partials@, j as int + 1);
        }
        match &partials[j] {
            Option::Some(m) => {
                total = total + m.total_logs_processed;
                let mut k: usize = 0;
                let ghost before = alerts_view(alerts@);
                while k < m.alerts_generated.len()
                    invariant
                        k <= m.alerts_generated@.len(),
                        alerts_view(alerts@) == before + alerts_view(
                            m.alerts_generated@.take(k as int),
                        ),
                    decreases m.alerts_generated@.len() - k,
                {
                    let ghost mid = alerts_view(alerts@);
                    alerts.push(m.alerts_generated[k].duplicate());
                    proof {
                        assert(alerts_view(alerts@) =~= mid.push(m.alerts_generated@[k as int]@));
                        assert(alerts_view(m.alerts_generated@.take(k as int + 1))
                            =~= alerts_view(m.alerts_generated@.take(k as int)).push(
                            m.alerts_generated@[k as int]@,
                        ));
                        assert(before + alerts_view(m.alerts_generated@.take(k as int)).push(
                            m.alerts_generated@[k as int]@,
                        ) =~= (before + alerts_view(m.alerts_generated@.take(k as int))).push(
                            m.alerts_generated@[k as int]@,
                        ));
                    }
                    k = k + 1;
                }
                proof {
                    assert(m.alerts_generated@.take(m.alerts_generated@.len() as int)
                        =~= m.alerts_generated@);
                }
            },
            Option::None => {
                proof {
                    assert(false);
                }
            },
        }
        j = j + 1;
    }
    proof {
        assert(partials@.take(partials@.len() as int) =~= partials@);
    }
    Result::Ok(Metrics { total_logs_processed: total, alerts_generated: alerts, mode })
}

// ---------------------------------------------------------------------------
// Execution modes.
// ---------------------------------------------------------------------------

/// Runs the whole batch as one partition in the calling thread. This is the
/// baseline correctness reference: the alerts are exactly `batch_alerts`.
pub fn run_sequential(records: &Vec<LogEntry>, rules: &Vec<Rule>) -> (m: Metrics)
    ensures
        m@.total_logs_processed == records@.len(),
        m@.alerts_generated == batch_alerts(entries_view(records@), rules_view(rules@)),
        m@.mode == ExecMode::Sequential,
{
    let (alerts, n) = evaluate(records, rules);
    Metrics { total_logs_processed: n, alerts_generated: alerts, mode: ExecMode::Sequential }
}

/// The records counted by partitions 0..i (exclusive).
pub open spec fn count_upto(recs: Seq<LogEntryV>, p: int, i: int) -> int
    decreases i,
{
    if i <= 0 {
        0
    } else {
        count_upto(recs, p, i - 1) + partition_of(recs, p, i - 1).len()
    }
}

/// The alerts of partitions 0..i (exclusive), concatenated in partition
/// order: the merge order of the partitioned modes.
pub open spec fn alerts_upto(recs: Seq<LogEntryV>, rules: Seq<RuleV>, p: int, i: int) -> Seq<
    AlertV,
>
    decreases i,
{
    if i <= 0 {
        Seq::empty()
    } else {
        alerts_upto(recs, rules, p, i - 1) + batch_alerts(partition_of(recs, p, i - 1), rules)
    }
}

proof fn lemma_count_empty(p: int, i: int)
    ensures
        count_upto(Seq::empty(), p, i) == 0,
    decreases i,
{
    if i > 0 {
        lemma_count_empty(p, i - 1);
    }
}

proof fn lemma_count_push(recs: Seq<LogEntryV>, e: LogEntryV, p: int, i: int)
    ensures
        count_upto(recs.push(e), p, i) == count_upto(recs, p, i) + (
        if 0 <= part_index(e, p) < i {
            1int
        } else {
            0int
        }),
    decreases i,
{
    if i > 0 {
        lemma_count_push(recs, e, p, i - 1);
        assert(recs.push(e).drop_last() =~= recs);
    }
}

/// Every record lands in exactly one partition, so the partition sizes sum to
/// the batch size.
pub proof fn lemma_partition_count(recs: Seq<LogEntryV>, p: int)
    requires
        p >= 1,
    ensures
        count_upto(recs, p, p) == recs.len(),
    decreases recs.len(),
{
    if recs.len() == 0 {
        lemma_count_empty(p, p);
        assert(recs =~= Seq::<LogEntryV>::empty());
    } else {
        let s = recs.drop_last();
        let e = recs.last();
        lemma_partition_count(s, p);
        vstd::arithmetic::div_mod::lemma_mod_division_less_than_divisor(ip_hash(e.ip_address), p);
        lemma_count_push(s, e, p, p);
        assert(s.push(e) =~= recs);
    }
}

/// The in-process reference implementation of the partitioned modes: every
/// partition is evaluated in the calling thread, in partition order, and the
/// partial results are merged. The Parallel and Distributed front ends run
/// the same partition / evaluate / merge pipeline, with threads or worker
/// processes computing `evaluate`; this function is its verified model.
pub fn run_partitioned_local(
    records: &Vec<LogEntry>,
    rules: &Vec<Rule>,
    mode: ExecMode,
    workers: usize,
) -> (r: Result<Metrics, AnalysisError>)
    requires
        workers >= 1,
    ensures
        r is Ok,
        (r->Ok_0)@.mode == mode,
        (r->Ok_0)@.total_logs_processed == records@.len(),
        (r->Ok_0)@.alerts_generated == alerts_upto(
            entries_view(records@),
            rules_view(rules@),
            workers as int,
            workers as int,
        ),
        (r->Ok_0)@.alerts_generated.to_multiset() == batch_alerts(
            entries_view(records@),
            rules_view(rules@),
        ).to_multiset(),
{
    let ghost recsv = entries_view(records@);
    let ghost rulesv = rules_view(rules@);
    let parts = partition_batch(records, workers);
    let mut partials: Vec<Option<Metrics>> = Vec::new();
    let mut i: usize = 0;
    proof {
        assert(merged_total(partials@) == 0);
        assert(merged_alerts(partials@) =~= Seq::<AlertV>::empty());
    }
    while i < workers
        invariant
            i <= workers,
            workers >= 1,
            recsv == entries_view(records@),
            rulesv == rules_view(rules@),
            parts@.len() == workers as int,
            forall|k: int|
                0 <= k < workers ==> entries_view(#[trigger] parts@[k]@) == partition_of(
                    recsv,
                    workers as int,
                    k,
                ),
            partials@.len() == i as int,
            forall|k: int| 0 <= k < i ==> partials@[k] is Some,
            merged_total(partials@) == count_upto(recsv, workers as int, i as int),
            merged_alerts(partials@) == alerts_upto(recsv, rulesv, workers as int, i as int),
        decreases workers - i,
    {
        let (alerts, n) = evaluate(&parts[i], rules);
        let ghost before = partials@;
        partials.push(
            Option::Some(Metrics { total_logs_processed: n, alerts_generated: alerts, mode }),
        );
        proof {
            assert(partials@.drop_last() =~= before);
        }
        i = i + 1;
    }
    let batch_len = records.len();
    proof {
        lemma_partition_count(recsv, workers as int);
        assert(recsv.len() == records@.len());
        assert(records@.len() == batch_len as int);
    }
    let r = merge_results(&partials, mode);
    proof {
        assert(forall|k: int| 0 <= k < partials@.len() ==> partials@[k] is Some);
        lemma_mode_equivalence(recsv, rulesv, workers as int);
    }
    r
}

/// Runs one whole analysis under the requested mode. Sequential evaluates
/// the batch as one partition in the calling thread; the other modes run the
/// partition / evaluate / merge pipeline (here in-process; a front end may
/// drive the same pieces with threads or worker processes). Whatever the
/// mode, the run processes every record and produces the same multiset of
/// alerts; only the merge order may differ.
pub fn run_analysis(
    records: &Vec<LogEntry>,
    rules: &Vec<Rule>,
    mode: ExecMode,
    workers: usize,
) -> (r: Result<Metrics, AnalysisError>)
    requires
        workers >= 1,
    ensures
        r is Ok,
        (r->Ok_0)@.mode == mode,
        (r->Ok_0)@.total_logs_processed == records@.len(),
        (r->Ok_0)@.alerts_generated.to_multiset() == batch_alerts(
            entries_view(records@),
            rules_view(rules@),
        ).to_multiset(),
        mode == ExecMode::Sequential ==> (r->Ok_0)@.alerts_generated == batch_alerts(
            entries_view(records@),
            rules_view(rules@),
        ),
{
    match mode {
        ExecMode::Sequential => Result::Ok(run_sequential(records, rules)),
        ExecMode::Parallel => run_partitioned_local(records, rules, mode, workers),
        ExecMode::Distributed => run_partitioned_local(records, rules, mode, workers),
    }
}

// ---------------------------------------------------------------------------
// Mode equivalence. For a fixed batch and rule set, the whole-batch alerts
// and the merged per-partition alerts are the same multiset: partitioning by
// IP hash keeps each group intact, each group is scanned identically, and
// only the merge order of whole groups differs between the modes.
// ---------------------------------------------------------------------------

/// The partition a grouping key belongs to.
pub open spec fn key_part(k: GroupKeyV, p: int) -> int {
    ip_hash(k.ip) % p
}

/// The alert multiset of one group, scanned from the initial window state.
pub open spec fn key_ms(rule: RuleV, recs: Seq<LogEntryV>, k: GroupKeyV) -> Multiset<AlertV> {
    group_run(rule, group_records(rule.rule_type, recs, k), initial_window()).to_multiset()
}

/// The alert multiset of a list of groups.
pub open spec fn keys_ms(rule: RuleV, recs: Seq<LogEntryV>, ks: Seq<GroupKeyV>) -> Multiset<
    AlertV,
>
    decreases ks.len(),
{
    if ks.len() == 0 {
        Multiset::empty()
    } else {
        keys_ms(rule, recs, ks.drop_last()).add(key_ms(rule, recs, ks.last()))
    }
}

proof fn lemma_groups_alerts_ms(rule: RuleV, recs: Seq<LogEntryV>, ks: Seq<GroupKeyV>)
    ensures
        groups_alerts(rule, recs, ks).to_multiset() == keys_ms(rule, recs, ks),
    decreases ks.len(),
{
    broadcast use vstd::multiset::group_multiset_axioms;

    if ks.len() == 0 {
        assert(groups_alerts(rule, recs, ks).to_multiset().len() == 0) by {
            groups_alerts(rule, recs, ks).to_multiset_ensures();
        }
        assert(groups_alerts(rule, recs, ks).to_multiset() =~= Multiset::<AlertV>::empty());
    } else {
        lemma_groups_alerts_ms(rule, recs, ks.drop_last());
        vstd::seq_lib::lemma_multiset_commutative(
            groups_alerts(rule, recs, ks.drop_last()),
            group_run(rule, group_records(rule.rule_type, recs, ks.last()), initial_window()),
        );
    }
}

/// A grouping key always carries the record's IP, so the record's partition
/// is its key's partition.
proof fn lemma_key_keeps_ip(rt: RuleTypeV, e: LogEntryV)
    ensures
        group_key_of(rt, e).ip == e.ip_address,
{
}

/// Inside one partition, a group either appears whole (its key hashes here)
/// or not at all.
proof fn lemma_group_records_partition(
    rt: RuleTypeV,
    recs: Seq<LogEntryV>,
    p: int,
    i: int,
    k: GroupKeyV,
)
    requires
        p >= 1,
    ensures
        group_records(rt, partition_of(recs, p, i), k) == (
        if key_part(k, p) == i {
            group_records(rt, recs, k)
        } else {
            Seq::<LogEntryV>::empty()
        }),
    decreases recs.len(),
{
    if recs.len() == 0 {
        assert(partition_of(recs, p, i) =~= Seq::<LogEntryV>::empty());
    } else {
        let s = recs.drop_last();
        let e = recs.last();
        lemma_group_records_partition(rt, s, p, i, k);
        lemma_key_keeps_ip(rt, e);
        if part_index(e, p) == i {
            assert(partition_of(recs, p, i) == partition_of(s, p, i).push(e));
            assert(partition_of(s, p, i).push(e).drop_last() =~= partition_of(s, p, i));
        }
    }
}

/// The keys of `ks` whose group hashes to partition `i`, in order.
pub open spec fn keys_with_part(ks: Seq<GroupKeyV>, p: int, i: int) -> Seq<GroupKeyV>
    decreases ks.len(),
{
    if ks.len() == 0 {
        Seq::empty()
    } else {
        let rest = keys_with_part(ks.drop_last(), p, i);
        if key_part(ks.last(), p) == i {
            rest.push(ks.last())
        } else {
            rest
        }
    }
}

proof fn lemma_contains_push<A>(s: Seq<A>, x: A, k: A)
    ensures
        s.push(x).contains(k) <==> (s.contains(k) || x == k),
{
    if s.contains(k) {
        let idx = choose|idx: int| 0 <= idx < s.len() && s[idx] == k;
        assert(s.push(x)[idx] == k);
    }
    if s.push(x).contains(k) {
        let idx = choose|idx: int| 0 <= idx < s.push(x).len() && s.push(x)[idx] == k;
        if idx < s.len() {
            assert(s[idx] == k);
        }
    }
    assert(s.push(x)[s.len() as int] == x);
}

proof fn lemma_drop_last_contains<A>(s: Seq<A>)
    requires
        s.len() > 0,
    ensures
        forall|k: A| s.contains(k) <==> (s.drop_last().contains(k) || s.last() == k),
{
    assert forall|k: A| s.contains(k) implies (s.drop_last().contains(k) || s.last() == k) by {
        let idx = choose|idx: int| 0 <= idx < s.len() && s[idx] == k;
        if idx < s.len() - 1 {
            assert(s.drop_last()[idx] == k);
        }
    }
    assert forall|k: A| (s.drop_last().contains(k) || s.last() == k) implies s.contains(k) by {
        if s.drop_last().contains(k) {
            let idx = choose|idx: int| 0 <= idx < s.drop_last().len() && s.drop_last()[idx] == k;
            assert(s[idx] == k);
        } else {
            assert(s[s.len() - 1] == k);
        }
    }
}

proof fn lemma_keys_with_part_contains(ks: Seq<GroupKeyV>, p: int, i: int, k: GroupKeyV)
    ensures
        keys_with_part(ks, p, i).contains(k) <==> (ks.contains(k) && key_part(k, p) == i),
    decreases ks.len(),
{
    if ks.len() == 0 {
        assert(!keys_with_part(ks, p, i).contains(k));
        assert(!ks.contains(k));
    } else {
        lemma_keys_with_part_contains(ks.drop_last(), p, i, k);
        lemma_drop_last_contains(ks);
        if key_part(ks.last(), p) == i {
            lemma_contains_push(keys_with_part(ks.drop_last(), p, i), ks.last(), k);
        }
    }
}

/// The keys of a partition are exactly the batch's keys that hash there, in
/// first-appearance order.
proof fn lemma_keys_of_partition(rt: RuleTypeV, recs: Seq<LogEntryV>, p: int, i: int)
    requires
        p >= 1,
    ensures
        keys_of(rt, partition_of(recs, p, i)) == keys_with_part(keys_of(rt, recs), p, i),
    decreases recs.len(),
{
    if recs.len() == 0 {
        assert(partition_of(recs, p, i) =~= Seq::<LogEntryV>::empty());
        assert(keys_of(rt, partition_of(recs, p, i)) =~= Seq::<GroupKeyV>::empty());
        assert(keys_with_part(keys_of(rt, recs), p, i) =~= Seq::<GroupKeyV>::empty());
    } else {
        let s = recs.drop_last();
        let e = recs.last();
        let ke = group_key_of(rt, e);
        lemma_keys_of_partition(rt, s, p, i);
        lemma_key_keeps_ip(rt, e);
        lemma_keys_with_part_contains(keys_of(rt, s), p, i, ke);
        if keys_of(rt, s).contains(ke) {
            assert(keys_of(rt, recs) == keys_of(rt, s));
            if part_index(e, p) == i {
                assert(partition_of(recs, p, i) == partition_of(s, p, i).push(e));
                assert(partition_of(s, p, i).push(e).drop_last() =~= partition_of(s, p, i));
                assert(keys_of(rt, partition_of(s, p, i)).contains(ke));
            }
        } else {
            assert(keys_of(rt, recs) == keys_of(rt, s).push(ke));
            assert(keys_of(rt, s).push(ke).drop_last() =~= keys_of(rt, s));
            if part_index(e, p) == i {
                assert(partition_of(recs, p, i) == partition_of(s, p, i).push(e));
                assert(partition_of(s, p, i).push(e).drop_last() =~= partition_of(s, p, i));
                assert(!keys_of(rt, partition_of(s, p, i)).contains(ke));
            }
        }
    }
}

/// The alert multiset of the groups of `ks` that land in partitions 0..i.
pub open spec fn part_ms_upto(
    rule: RuleV,
    recs: Seq<LogEntryV>,
    ks: Seq<GroupKeyV>,
    p: int,
    i: int,
) -> Multiset<AlertV>
    decreases i,
{
    if i <= 0 {
        Multiset::empty()
    } else {
        part_ms_upto(rule, recs, ks, p, i - 1).add(
            keys_ms(rule, recs, keys_with_part(ks, p, i - 1)),
        )
    }
}

proof fn lemma_sum_empty(rule: RuleV, recs: Seq<LogEntryV>, p: int, i: int)
    ensures
        part_ms_upto(rule, recs, Seq::empty(), p, i) == Multiset::<AlertV>::empty(),
    decreases i,
{
    broadcast use vstd::multiset::group_multiset_axioms;

    if i > 0 {
        lemma_sum_empty(rule, recs, p, i - 1);
        assert(keys_with_part(Seq::empty(), p, i - 1) =~= Seq::<GroupKeyV>::empty());
        assert(Multiset::<AlertV>::empty().add(Multiset::<AlertV>::empty())
            =~= Multiset::<AlertV>::empty());
    }
}

proof fn lemma_sum_push(
    rule: RuleV,
    recs: Seq<LogEntryV>,
    ks: Seq<GroupKeyV>,
    k: GroupKeyV,
    p: int,
    i: int,
)
    ensures
        part_ms_upto(rule, recs, ks.push(k), p, i) == part_ms_upto(rule, recs, ks, p, i).add(
            if 0 <= key_part(k, p) < i {
                key_ms(rule, recs, k)
            } else {
                Multiset::<AlertV>::empty()
            },
        ),
    decreases i,
{
    broadcast use vstd::multiset::group_multiset_axioms;

    if i <= 0 {
        assert(part_ms_upto(rule, recs, ks, p, i).add(Multiset::<AlertV>::empty())
            =~= part_ms_upto(rule, recs, ks, p, i));
    } else {
        lemma_sum_push(rule, recs, ks, k, p, i - 1);
        assert(ks.push(k).drop_last() =~= ks);
        let kw = keys_with_part(ks, p, i - 1);
        if key_part(k, p) == i - 1 {
            assert(keys_with_part(ks.push(k), p, i - 1) == kw.push(k));
            assert(kw.push(k).drop_last() =~= kw);
            assert(keys_ms(rule, recs, kw.push(k)) == keys_ms(rule, recs, kw).add(
                key_ms(rule, recs, k),
            ));
            assert(part_ms_upto(rule, recs, ks.push(k), p, i) =~= part_ms_upto(
                rule,
                recs,
                ks,
                p,
                i,
            ).add(key_ms(rule, recs, k)));
        } else {
            assert(keys_with_part(ks.push(k), p, i - 1) == kw);
            if 0 <= key_part(k, p) < i - 1 {
                assert(part_ms_upto(rule, recs, ks.push(k), p, i) =~= part_ms_upto(
                    rule,
                    recs,
                    ks,
                    p,
                    i,
                ).add(key_ms(rule, recs, k)));
            } else {
                assert(part_ms_upto(rule, recs, ks.push(k), p, i) =~= part_ms_upto(
                    rule,
                    recs,
                    ks,
                    p,
                    i,
                ).add(Multiset::<AlertV>::empty()));
            }
        }
    }
}

/// Every group lands in exactly one partition, so summing the group alert
/// multisets partition by partition is summing them over all groups.
proof fn lemma_sum_split(rule: RuleV, recs: Seq<LogEntryV>, ks: Seq<GroupKeyV>, p: int)
    requires
        p >= 1,
    ensures
        part_ms_upto(rule, recs, ks, p, p) == keys_ms(rule, recs, ks),
    decreases ks.len(),
{
    broadcast use vstd::multiset::group_multiset_axioms;

    if ks.len() == 0 {
        lemma_sum_empty(rule, recs, p, p);
        assert(ks =~= Seq::<GroupKeyV>::empty());
    } else {
        let s = ks.drop_last();
        let k = ks.last();
        lemma_sum_split(rule, recs, s, p);
        vstd::arithmetic::div_mod::lemma_mod_division_less_than_divisor(ip_hash(k.ip), p);
        lemma_sum_push(rule, recs, s, k, p, p);
        assert(s.push(k) =~= ks);
    }
}

/// The alert multiset of partitions 0..i under one rule.
pub open spec fn rule_parts_ms(rule: RuleV, recs: Seq<LogEntryV>, p: int, i: int) -> Multiset<
    AlertV,
>
    decreases i,
{
    if i <= 0 {
        Multiset::empty()
    } else {
        rule_parts_ms(rule, recs, p, i - 1).add(
            rule_alerts(rule, partition_of(recs, p, i - 1)).to_multiset(),
        )
    }
}

proof fn lemma_keys_ms_same_content(
    rule: RuleV,
    recs: Seq<LogEntryV>,
    p: int,
    i: int,
    ks: Seq<GroupKeyV>,
)
    requires
        p >= 1,
        forall|j: int| 0 <= j < ks.len() ==> key_part(#[trigger] ks[j], p) == i,
    ensures
        keys_ms(rule, partition_of(recs, p, i), ks) == keys_ms(rule, recs, ks),
    decreases ks.len(),
{
    if ks.len() > 0 {
        assert(forall|j: int|
            0 <= j < ks.drop_last().len() ==> ks.drop_last()[j] == #[trigger] ks[j]);
        lemma_keys_ms_same_content(rule, recs, p, i, ks.drop_last());
        assert(key_part(ks[ks.len() - 1], p) == i);
        lemma_group_records_partition(rule.rule_type, recs, p, i, ks.last());
    }
}

proof fn lemma_rule_parts_upto(rule: RuleV, recs: Seq<LogEntryV>, p: int, i: int)
    requires
        p >= 1,
        0 <= i <= p,
    ensures
        rule_parts_ms(rule, recs, p, i) == part_ms_upto(
            rule,
            recs,
            keys_of(rule.rule_type, recs),
            p,
            i,
        ),
    decreases i,
{
    if i > 0 {
        lemma_rule_parts_upto(rule, recs, p, i - 1);
        let j = i - 1;
        let rt = rule.rule_type;
        let part = partition_of(recs, p, j);
        lemma_groups_alerts_ms(rule, part, keys_of(rt, part));
        lemma_keys_of_partition(rt, recs, p, j);
        let kw = keys_with_part(keys_of(rt, recs), p, j);
        assert forall|x: int| 0 <= x < kw.len() implies key_part(#[trigger] kw[x], p) == j by {
            assert(kw.contains(kw[x]));
            lemma_keys_with_part_contains(keys_of(rt, recs), p, j, kw[x]);
        }
        lemma_keys_ms_same_content(rule, recs, p, j, kw);
    }
}

/// The alert multiset of one rule over the whole batch equals the sum of its
/// alert multisets over the partitions.
proof fn lemma_rule_parts(rule: RuleV, recs: Seq<LogEntryV>, p: int)
    requires
        p >= 1,
    ensures
        rule_parts_ms(rule, recs, p, p) == rule_alerts(rule, recs).to_multiset(),
{
    lemma_rule_parts_upto(rule, recs, p, p);
    lemma_sum_split(rule, recs, keys_of(rule.rule_type, recs), p);
    lemma_groups_alerts_ms(rule, recs, keys_of(rule.rule_type, recs));
}

/// The alert multiset of a rule set, rule by rule.
pub open spec fn batch_ms(recs: Seq<LogEntryV>, rules: Seq<RuleV>) -> Multiset<AlertV>
    decreases rules.len(),
{
    if rules.len() == 0 {
        Multiset::empty()
    } else {
        batch_ms(recs, rules.drop_last()).add(rule_alerts(rules.last(), recs).to_multiset())
    }
}

proof fn lemma_batch_ms(recs: Seq<LogEntryV>, rules: Seq<RuleV>)
    ensures
        batch_alerts(recs, rules).to_multiset() == batch_ms(recs, rules),
    decreases rules.len(),
{
    broadcast use vstd::multiset::group_multiset_axioms;

    if rules.len() == 0 {
        assert(batch_alerts(recs, rules).to_multiset().len() == 0) by {
            batch_alerts(recs, rules).to_multiset_ensures();
        }
        assert(batch_alerts(recs, rules).to_multiset() =~= Multiset::<AlertV>::empty());
    } else {
        lemma_batch_ms(recs, rules.drop_last());
        vstd::seq_lib::lemma_multiset_commutative(
            batch_alerts(recs, rules.drop_last()),
            rule_alerts(rules.last(), recs),
        );
    }
}

/// The merged alert multiset of partitions 0..i over a rule set.
pub open spec fn batch_parts_ms(recs: Seq<LogEntryV>, rules: Seq<RuleV>, p: int, i: int) -> Multiset<
    AlertV,
>
    decreases i,
{
    if i <= 0 {
        Multiset::empty()
    } else {
        batch_parts_ms(recs, rules, p, i - 1).add(
            batch_alerts(partition_of(recs, p, i - 1), rules).to_multiset(),
        )
    }
}

proof fn lemma_alerts_upto_ms(recs: Seq<LogEntryV>, rules: Seq<RuleV>, p: int, i: int)
    ensures
        alerts_upto(recs, rules, p, i).to_multiset() == batch_parts_ms(recs, rules, p, i),
    decreases i,
{
    broadcast use vstd::multiset::group_multiset_axioms;

    if i <= 0 {
        assert(alerts_upto(recs, rules, p, i).to_multiset().len() == 0) by {
            alerts_upto(recs, rules, p, i).to_multiset_ensures();
        }
        assert(alerts_upto(recs, rules, p, i).to_multiset() =~= Multiset::<AlertV>::empty());
    } else {
        lemma_alerts_upto_ms(recs, rules, p, i - 1);
        vstd::seq_lib::lemma_multiset_commutative(
            alerts_upto(recs, rules, p, i - 1),
            batch_alerts(partition_of(recs, p, i - 1), rules),
        );
    }
}

proof fn lemma_parts_ms_rules(recs: Seq<LogEntryV>, rules: Seq<RuleV>, p: int, i: int)
    requires
        rules.len() > 0,
    ensures
        batch_parts_ms(recs, rules, p, i) == batch_parts_ms(recs, rules.drop_last(), p, i).add(
            rule_parts_ms(rules.last(), recs, p, i),
        ),
    decreases i,
{
    broadcast use vstd::multiset::group_multiset_axioms;

    if i <= 0 {
        assert(batch_parts_ms(recs, rules, p, i) =~= batch_parts_ms(
            recs,
            rules.drop_last(),
            p,
            i,
        ).add(rule_parts_ms(rules.last(), recs, p, i)));
    } else {
        lemma_parts_ms_rules(recs, rules, p, i - 1);
        let part = partition_of(recs, p, i - 1);
        vstd::seq_lib::lemma_multiset_commutative(
            batch_alerts(part, rules.drop_last()),
            rule_alerts(rules.last(), part),
        );
        assert(batch_parts_ms(recs, rules, p, i) =~= batch_parts_ms(
            recs,
            rules.drop_last(),
            p,
            i,
        ).add(rule_parts_ms(rules.last(), recs, p, i)));
    }
}

proof fn lemma_batch_parts_empty(recs: Seq<LogEntryV>, p: int, i: int)
    ensures
        batch_parts_ms(recs, Seq::empty(), p, i) == Multiset::<AlertV>::empty(),
    decreases i,
{
    broadcast use vstd::multiset::group_multiset_axioms;

    if i > 0 {
        lemma_batch_parts_empty(recs, p, i - 1);
        let part = partition_of(recs, p, i - 1);
        assert(batch_alerts(part, Seq::empty()).to_multiset().len() == 0) by {
            batch_alerts(part, Seq::<RuleV>::empty()).to_multiset_ensures();
        }
        assert(batch_parts_ms(recs, Seq::empty(), p, i) =~= Multiset::<AlertV>::empty());
    }
}

proof fn lemma_batch_parts(recs: Seq<LogEntryV>, rules: Seq<RuleV>, p: int)
    requires
        p >= 1,
    ensures
        batch_parts_ms(recs, rules, p, p) == batch_ms(recs, rules),
    decreases rules.len(),
{
    if rules.len() == 0 {
        lemma_batch_parts_empty(recs, p, p);
        assert(rules =~= Seq::<RuleV>::empty());
    } else {
        lemma_parts_ms_rules(recs, rules, p, p);
        lemma_batch_parts(recs, rules.drop_last(), p);
        lemma_rule_parts(rules.last(), recs, p);
    }
}

/// Mode equivalence: for any fixed batch and rule set and any worker count
/// p >= 1, evaluating partition by partition processes the same number of
/// records, and the merged alerts are the same multiset as the whole-batch
/// alerts — the same alerts, allowing only reordering by merge order. With
/// partitioning by IP hash no grouping key ever spans a partition boundary,
/// so this holds for every batch.
pub proof fn lemma_mode_equivalence(recs: Seq<LogEntryV>, rules: Seq<RuleV>, p: int)
    requires
        p >= 1,
    ensures
        count_upto(recs, p, p) == recs.len(),
        alerts_upto(recs, rules, p, p).to_multiset() == batch_alerts(recs, rules).to_multiset(),
{
    lemma_partition_count(recs, p);
    lemma_alerts_upto_ms(recs, rules, p, p);
    lemma_batch_parts(recs, rules, p);
    lemma_batch_ms(recs, rules);
}

} // verus!
