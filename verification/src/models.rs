use vstd::prelude::*;

verus! {

// ---------------------------------------------------------------------------
// Spec-level images of the data model. Every contract in this crate speaks
// about these, never about the executable structs directly.
// ---------------------------------------------------------------------------

/// Spec-level image of one parsed log line.
pub struct LogEntryV {
    /// Seconds since the Unix epoch, UTC.
    pub timestamp: int,
    pub ip_address: Seq<char>,
    pub user_id: Option<Seq<char>>,
    pub event_type: Seq<char>,
    pub details: Seq<(Seq<char>, Seq<char>)>,
}

pub enum RuleTypeV {
    BruteForce,
    HighFrequencyRequest,
    SuspiciousIp,
    Custom(Seq<char>),
}

pub struct RuleV {
    pub name: Seq<char>,
    pub description: Seq<char>,
    pub rule_type: RuleTypeV,
    pub threshold: int,
    pub time_window_seconds: int,
}

pub enum AlertTypeV {
    BruteForce,
    HighFrequencyRequest,
    SuspiciousIpBehavior,
    Custom(Seq<char>),
}

pub struct AlertV {
    pub id: Seq<char>,
    pub timestamp: int,
    pub alert_type: AlertTypeV,
    pub description: Seq<char>,
    pub log_entry_sample: Option<LogEntryV>,
}

pub struct MetricsV {
    pub total_logs_processed: int,
    pub alerts_generated: Seq<AlertV>,
    pub mode: ExecMode,
}

// ---------------------------------------------------------------------------
// Executable data model.
// ---------------------------------------------------------------------------

/// One normalized log line: the unit the detection engine analyzes.
#[derive(Debug, PartialEq)]
pub struct LogEntry {
    /// Seconds since the Unix epoch, UTC.
    pub timestamp: i64,
    pub ip_address: String,
    pub user_id: Option<String>,
    pub event_type: String,
    /// Flat key/value annotations carried along with the line.
    pub details: Vec<(String, String)>,
}

#[derive(Debug, PartialEq, Clone)]
pub enum RuleType {
    BruteForce,
    HighFrequencyRequest,
    SuspiciousIp,
    Custom(String),
}

/// A declarative detection specification: fire when `threshold` qualifying
/// events from one group fall inside a window of `time_window_seconds`.
/// A window of zero seconds means the whole batch counts as one window.
#[derive(Debug, PartialEq, Clone)]
pub struct Rule {
    pub name: String,
    pub description: String,
    pub rule_type: RuleType,
    pub threshold: usize,
    pub time_window_seconds: u64,
}

#[derive(Debug, PartialEq)]
pub enum AlertType {
    BruteForce,
    HighFrequencyRequest,
    SuspiciousIpBehavior,
    Custom(String),
}

#[derive(Debug, PartialEq)]
pub struct Alert {
    pub id: String,
    pub timestamp: i64,
    pub alert_type: AlertType,
    pub description: String,
    pub log_entry_sample: Option<LogEntry>,
}

/// How a run executed.
#[derive(Clone, Copy, PartialEq, Eq, Structural, Debug)]
pub enum ExecMode {
    Sequential,
    Parallel,
    Distributed,
}

/// The terminal artifact of one analysis run.
#[derive(Debug, PartialEq)]
pub struct Metrics {
    pub total_logs_processed: usize,
    pub alerts_generated: Vec<Alert>,
    pub mode: ExecMode,
}

/// Messages the coordinator sends to a worker.
#[derive(Debug, PartialEq)]
pub enum WorkerMessage {
    LogChunk(Vec<LogEntry>),
    Rules(Vec<Rule>),
    StartAnalysis,
    Shutdown,
}

/// Messages a worker sends back to the coordinator.
#[derive(Debug, PartialEq)]
pub enum MasterMessage {
    AnalysisResult(Metrics),
    Error(String),
    Ack,
}

/// A request for the external rule-generation collaborator.
#[derive(Debug, PartialEq)]
pub struct GenerateRuleRequest {
    pub description: String,
}

/// Why a rule set could not be loaded. The whole load is rejected: a partial
/// rule set would change detection semantics silently.
#[derive(Debug, PartialEq)]
pub enum RuleLoadError {
    /// The source could not be read at all.
    Unreadable(String),
    /// The content did not parse as a rule set.
    Malformed(String),
    /// A rule parsed but violates the rule invariant (threshold must be >= 1).
    Invalid(String),
}

/// Why an analysis run failed as a whole.
#[derive(Debug, PartialEq)]
pub enum AnalysisError {
    /// A worker errored or never returned; the run reports no metrics at all
    /// rather than an undercounted result.
    WorkerFailure(String),
}

// ---------------------------------------------------------------------------
// Views.
// ---------------------------------------------------------------------------

pub open spec fn opt_str_view(o: Option<String>) -> Option<Seq<char>> {
    match o {
        Option::Some(s) => Option::Some(s@),
        Option::None => Option::None,
    }
}

pub open spec fn pairs_view(v: Seq<(String, String)>) -> Seq<(Seq<char>, Seq<char>)> {
    v.map_values(|p: (String, String)| (p.0@, p.1@))
}

impl View for LogEntry {
    type V = LogEntryV;

    open spec fn view(&self) -> LogEntryV {
        LogEntryV {
            timestamp: self.timestamp as int,
            ip_address: self.ip_address@,
            user_id: opt_str_view(self.user_id),
            event_type: self.event_type@,
            details: pairs_view(self.details@),
        }
    }
}

impl View for RuleType {
    type V = RuleTypeV;

    open spec fn view(&self) -> RuleTypeV {
        match self {
            RuleType::BruteForce => RuleTypeV::BruteForce,
            RuleType::HighFrequencyRequest => RuleTypeV::HighFrequencyRequest,
            RuleType::SuspiciousIp => RuleTypeV::SuspiciousIp,
            RuleType::Custom(tag) => RuleTypeV::Custom(tag@),
        }
    }
}

impl View for Rule {
    type V = RuleV;

    open spec fn view(&self) -> RuleV {
        RuleV {
            name: self.name@,
            description: self.description@,
            rule_type: self.rule_type@,
            threshold: self.threshold as int,
            time_window_seconds: self.time_window_seconds as int,
        }
    }
}

impl View for AlertType {
    type V = AlertTypeV;

    open spec fn view(&self) -> AlertTypeV {
        match self {
            AlertType::BruteForce => AlertTypeV::BruteForce,
            AlertType::HighFrequencyRequest => AlertTypeV::HighFrequencyRequest,
            AlertType::SuspiciousIpBehavior => AlertTypeV::SuspiciousIpBehavior,
            AlertType::Custom(tag) => AlertTypeV::Custom(tag@),
        }
    }
}

impl View for Alert {
    type V = AlertV;

    open spec fn view(&self) -> AlertV {
        AlertV {
            id: self.id@,
            timestamp: self.timestamp as int,
            alert_type: self.alert_type@,
            description: self.description@,
            log_entry_sample: match self.log_entry_sample {
                Option::Some(e) => Option::Some(e@),
                Option::None => Option::None,
            },
        }
    }
}

impl View for Metrics {
    type V = MetricsV;

    open spec fn view(&self) -> MetricsV {
        MetricsV {
            total_logs_processed: self.total_logs_processed as int,
            alerts_generated: alerts_view(self.alerts_generated@),
            mode: self.mode,
        }
    }
}

pub open spec fn entries_view(s: Seq<LogEntry>) -> Seq<LogEntryV> {
    s.map_values(|e: LogEntry| e@)
}

pub open spec fn rules_view(s: Seq<Rule>) -> Seq<RuleV> {
    s.map_values(|r: Rule| r@)
}

pub open spec fn alerts_view(s: Seq<Alert>) -> Seq<AlertV> {
    s.map_values(|a: Alert| a@)
}

// ---------------------------------------------------------------------------
// Invariants and helpers.
// ---------------------------------------------------------------------------

/// The rule invariant: a rule must ask for at least one event before it can
/// fire. (The window is a u64 and so is never negative.)
pub open spec fn rule_wf(r: RuleV) -> bool {
    r.threshold >= 1
}

/// Rule names are unique human labels: no two rules of one set may share a
/// name (alert ids embed the rule name, so a duplicate name would also blur
/// which rule fired).
pub open spec fn rule_names_unique(rs: Seq<RuleV>) -> bool {
    forall|i: int, j: int|
        #![trigger rs[i], rs[j]]
        0 <= i < j < rs.len() ==> rs[i].name != rs[j].name
}

/// A well-formed rule set: every rule obeys the rule invariant and names are
/// unique.
pub open spec fn rules_wf(rs: Seq<RuleV>) -> bool {
    (forall|i: int| 0 <= i < rs.len() ==> rule_wf(#[trigger] rs[i])) && rule_names_unique(rs)
}

impl Rule {
    /// Checks the rule invariant.
    pub fn is_valid(&self) -> (r: bool)
        ensures
            r == rule_wf(self@),
    {
        self.threshold >= 1
    }
}

impl LogEntry {
    /// A field-for-field copy. (Verus learns nothing from a derived `Clone`,
    /// so the copy is spelled out and carries a contract.)
    pub fn duplicate(&self) -> (r: LogEntry)
        ensures
            r@ == self@,
    {
        let mut details: Vec<(String, String)> = Vec::new();
        let mut i: usize = 0;
        while i < self.details.len()
            invariant
                i <= self.details@.len(),
                details@.len() == i as int,
                forall|j: int|
                    0 <= j < i ==> (#[trigger] details@[j].0)@ == self.details@[j].0@
                        && details@[j].1@ == self.details@[j].1@,
            decreases self.details@.len() - i,
        {
            let p = (self.details[i].0.clone(), self.details[i].1.clone());
            details.push(p);
            i = i + 1;
        }
        let user_id = match &self.user_id {
            Option::Some(u) => Option::Some(u.clone()),
            Option::None => Option::None,
        };
        let r = LogEntry {
            timestamp: self.timestamp,
            ip_address: self.ip_address.clone(),
            user_id,
            event_type: self.event_type.clone(),
            details,
        };
        proof {
            assert(pairs_view(r.details@) =~= pairs_view(self.details@));
            assert(r@ == self@);
        }
        r
    }
}

impl AlertType {
    pub fn duplicate(&self) -> (r: AlertType)
        ensures
            r@ == self@,
    {
        match self {
            AlertType::BruteForce => AlertType::BruteForce,
            AlertType::HighFrequencyRequest => AlertType::HighFrequencyRequest,
            AlertType::SuspiciousIpBehavior => AlertType::SuspiciousIpBehavior,
            AlertType::Custom(tag) => AlertType::Custom(tag.clone()),
        }
    }
}

impl Alert {
    pub fn duplicate(&self) -> (r: Alert)
        ensures
            r@ == self@,
    {
        Alert {
            id: self.id.clone(),
            timestamp: self.timestamp,
            alert_type: self.alert_type.duplicate(),
            description: self.description.clone(),
            log_entry_sample: match &self.log_entry_sample {
                Option::Some(e) => Option::Some(e.duplicate()),
                Option::None => Option::None,
            },
        }
    }
}

impl RuleType {
    pub fn duplicate(&self) -> (r: RuleType)
        ensures
            r@ == self@,
    {
        match self {
            RuleType::BruteForce => RuleType::BruteForce,
            RuleType::HighFrequencyRequest => RuleType::HighFrequencyRequest,
            RuleType::SuspiciousIp => RuleType::SuspiciousIp,
            RuleType::Custom(tag) => RuleType::Custom(tag.clone()),
        }
    }
}

impl Rule {
    pub fn duplicate(&self) -> (r: Rule)
        ensures
            r@ == self@,
    {
        Rule {
            name: self.name.clone(),
            description: self.description.clone(),
            rule_type: self.rule_type.duplicate(),
            threshold: self.threshold,
            time_window_seconds: self.time_window_seconds,
        }
    }
}

} // verus!
