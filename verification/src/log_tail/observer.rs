//! What a line of a log says about latency.
use crate::json;
use vstd::prelude::*;

verus! {

/// How bad a latency is, from the least to the worst.
#[derive(Debug, Clone, Copy, PartialEq, Eq, PartialOrd, Ord, Structural)]
pub enum Severity {
    /// Below the degraded floor.
    Normal,
    /// At the degraded floor or above, below the stall floor.
    Degraded,
    /// At the stall floor or above.
    Stall,
}

/// A latency in milliseconds. Latencies stand in the order of their ranks:
/// equal ones have one rank, and a longer one has a greater rank.
#[derive(Debug, Clone)]
pub struct Latency {
    pub rank: i64,
    /// The number as JSON.
    pub text: String,
    /// Whole milliseconds, the nearest.
    pub rounded: i64,
}

pub struct LatencyText {
    pub rank: i64,
    pub text: Seq<char>,
    pub rounded: i64,
}

impl View for Latency {
    type V = LatencyText;

    open spec fn view(&self) -> LatencyText {
        LatencyText { rank: self.rank, text: self.text@, rounded: self.rounded }
    }
}

pub(crate) fn copy_latency(l: &Latency) -> (r: Latency)
    ensures
        r@ == l@,
{
    Latency { rank: l.rank, text: l.text.as_str().to_owned(), rounded: l.rounded }
}

impl Severity {
    pub open spec fn level(self) -> int {
        match self {
            Severity::Normal => 0,
            Severity::Degraded => 1,
            Severity::Stall => 2,
        }
    }

    pub open spec fn text(self) -> Seq<char> {
        match self {
            Severity::Normal => "ok"@,
            Severity::Degraded => "degraded"@,
            Severity::Stall => "stall"@,
        }
    }

    /// The status of telemetry about it.
    pub fn status(&self) -> (r: &'static str)
        ensures
            r@ == self.text(),
    {
        match self {
            Severity::Normal => "ok",
            Severity::Degraded => "degraded",
            Severity::Stall => "stall",
        }
    }

    pub open spec fn of(value: i64, degraded: i64, stall: i64) -> Severity {
        if value >= stall {
            Severity::Stall
        } else if value >= degraded {
            Severity::Degraded
        } else {
            Severity::Normal
        }
    }

    /// How bad a latency is against two floors; all three by their ranks.
    pub fn classify(value: i64, degraded: i64, stall: i64) -> (s: Severity)
        ensures
            s == Self::of(value, degraded, stall),
    {
        if value >= stall {
            Severity::Stall
        } else if value >= degraded {
            Severity::Degraded
        } else {
            Severity::Normal
        }
    }

    pub open spec fn worst(self, other: Severity) -> Severity {
        if other.level() >= self.level() {
            other
        } else {
            self
        }
    }

    /// The worse of the two.
    pub fn worse(self, other: Severity) -> (s: Severity)
        ensures
            s == self.worst(other),
    {
        match self {
            Severity::Normal => other,
            Severity::Degraded => match other {
                Severity::Stall => Severity::Stall,
                _ => Severity::Degraded,
            },
            Severity::Stall => Severity::Stall,
        }
    }
}

/// A longer latency is never less bad, and a value at a floor counts as over it.
pub proof fn law_bands(a: i64, b: i64, degraded: i64, stall: i64)
    requires
        a <= b,
        degraded <= stall,
    ensures
        Severity::of(a, degraded, stall).level() <= Severity::of(b, degraded, stall).level(),
        Severity::of(stall, degraded, stall) == Severity::Stall,
        degraded < stall ==> Severity::of(degraded, degraded, stall) == Severity::Degraded,
{
}

/// What one line says.
#[derive(Debug, Clone)]
pub struct Observation {
    pub value: Latency,
    /// The stage that took longest, where the line tells stages apart.
    pub stage: Option<String>,
    pub severity: Severity,
}

pub struct ObservationText {
    pub value: LatencyText,
    pub stage: Option<Seq<char>>,
    pub severity: Severity,
}

impl View for Observation {
    type V = ObservationText;

    open spec fn view(&self) -> ObservationText {
        ObservationText {
            value: self.value@,
            stage: json::opt_text(self.stage),
            severity: self.severity,
        }
    }
}

pub open spec fn observation_text(o: Option<Observation>) -> Option<ObservationText> {
    match o {
        Some(x) => Some(x@),
        None => None,
    }
}

/// A stage with its latency.
pub type Stage = (String, Latency);

/// Reads the lines of one kind of log.
pub trait LineObserver {
    spec fn label(&self) -> Seq<char>;

    /// What a line says, given the latencies in its payload, where it has a
    /// payload with stages.
    spec fn observed(&self, line: Seq<char>, stages: Option<Seq<Stage>>) -> Option<ObservationText>;

    /// The name under which it is chosen.
    fn name(&self) -> (r: &'static str)
        ensures
            r@ == self.label(),
    ;

    /// What a line says; nothing where the line is of no interest.
    fn observe(&self, line: &str, stages: Option<&Vec<Stage>>) -> (r: Option<Observation>)
        ensures
            observation_text(r) == self.observed(
                line@,
                match stages {
                    Some(v) => Some(v@),
                    None => None,
                },
            ),
    ;
}

/// The severity tells which floors a value reaches, and the statuses are those words.
pub proof fn law_severity(value: i64, degraded: i64, stall: i64, a: Severity, b: Severity)
    ensures
        (Severity::of(value, degraded, stall) is Stall) == (value >= stall),
        (Severity::of(value, degraded, stall) is Degraded) == (degraded <= value < stall),
        (Severity::of(value, degraded, stall) is Normal) == (value < degraded && value < stall),
        Severity::Normal.text() == "ok"@,
        Severity::Degraded.text() == "degraded"@,
        Severity::Stall.text() == "stall"@,
        a.worst(b) == a || a.worst(b) == b,
        (a.worst(b) is Stall) == (a is Stall || b is Stall),
        (a.worst(b) is Normal) == (a is Normal && b is Normal),
        a.worst(b) == b.worst(a),
{
}

} // verus!
