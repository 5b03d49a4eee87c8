//! Benchmark vocabulary: graph topologies and scenarios, run statuses, and
//! the record of a conflict-analysis run.
use vstd::prelude::*;

verus! {

/// Shape of a synthetic benchmark project.
#[derive(Clone, Copy, Debug, PartialEq, Eq, Structural)]
pub enum Topology {
    /// Linear chain A -> B -> C -> ...
    Chain,
    /// Start -> N parallel tasks -> End
    Diamond,
    /// Densely connected random DAG
    Web,
}

impl Topology {
    /// The label of the topology in reports.
    pub open spec fn text(self) -> Seq<char> {
        match self {
            Topology::Chain => "Chain"@,
            Topology::Diamond => "Diamond"@,
            Topology::Web => "Web"@,
        }
    }

    /// The label of the topology in reports ("Chain", "Diamond", "Web").
    pub fn label(&self) -> (s: &'static str)
        ensures
            s@ == self.text(),
    {
        match self {
            Topology::Chain => "Chain",
            Topology::Diamond => "Diamond",
            Topology::Web => "Web",
        }
    }
}

/// Outcome of a benchmark run.
#[derive(Clone, Debug, PartialEq, Eq)]
pub enum BenchmarkStatus {
    Success,
    StackOverflow,
    Timeout,
    Error(String),
}

impl BenchmarkStatus {
    /// The status as shown in reports.
    pub open spec fn text(self) -> Seq<char> {
        match self {
            BenchmarkStatus::Success => "OK"@,
            BenchmarkStatus::StackOverflow => "STACK OVERFLOW"@,
            BenchmarkStatus::Timeout => "TIMEOUT"@,
            BenchmarkStatus::Error(e) => "ERROR: "@ + e@,
        }
    }

    /// The status as shown in reports, e.g. "OK" or "ERROR: ...".
    pub fn label(&self) -> (r: String)
        ensures
            r@ == self.text(),
    {
        let mut r = String::new();
        match self {
            BenchmarkStatus::Success => crate::text::push_str(&mut r, "OK"),
            BenchmarkStatus::StackOverflow => crate::text::push_str(&mut r, "STACK OVERFLOW"),
            BenchmarkStatus::Timeout => crate::text::push_str(&mut r, "TIMEOUT"),
            BenchmarkStatus::Error(e) => {
                crate::text::push_str(&mut r, "ERROR: ");
                crate::text::push_str(&mut r, e.as_str());
            },
        }
        proof {
            reveal_strlit("OK");
            reveal_strlit("STACK OVERFLOW");
            reveal_strlit("TIMEOUT");
            reveal_strlit("ERROR: ");
        }
        r
    }
}

/// Outcome of a conflict-analysis benchmark.
#[derive(Clone, Debug, PartialEq, Eq)]
pub enum BddBenchmarkStatus {
    Success,
    Error(String),
}

impl BddBenchmarkStatus {
    /// The status as shown in reports.
    pub open spec fn text(self) -> Seq<char> {
        match self {
            BddBenchmarkStatus::Success => "OK"@,
            BddBenchmarkStatus::Error(e) => "ERROR: "@ + e@,
        }
    }

    /// The status as shown in reports, "OK" or "ERROR: ...".
    pub fn label(&self) -> (r: String)
        ensures
            r@ == self.text(),
    {
        let mut r = String::new();
        match self {
            BddBenchmarkStatus::Success => crate::text::push_str(&mut r, "OK"),
            BddBenchmarkStatus::Error(e) => {
                crate::text::push_str(&mut r, "ERROR: ");
                crate::text::push_str(&mut r, e.as_str());
            },
        }
        proof {
            reveal_strlit("OK");
            reveal_strlit("ERROR: ");
        }
        r
    }
}

/// Conflict pattern of a conflict-analysis benchmark.
#[derive(Clone, Copy, Debug, PartialEq, Eq, Structural)]
pub enum BddScenario {
    /// All tasks compete for one resource
    SingleResource,
    /// Tasks spread over several resources with some conflicts
    MultiResource,
    /// A web of resource dependencies
    ResourceWeb,
}

impl BddScenario {
    /// The short label of the scenario in reports.
    pub open spec fn text(self) -> Seq<char> {
        match self {
            BddScenario::SingleResource => "SingleRes"@,
            BddScenario::MultiResource => "MultiRes"@,
            BddScenario::ResourceWeb => "ResWeb"@,
        }
    }

    /// The short label of the scenario ("SingleRes", "MultiRes", "ResWeb").
    pub fn label(&self) -> (s: &'static str)
        ensures
            s@ == self.text(),
    {
        match self {
            BddScenario::SingleResource => "SingleRes",
            BddScenario::MultiResource => "MultiRes",
            BddScenario::ResourceWeb => "ResWeb",
        }
    }
}

/// Record of one conflict-analysis benchmark run; times in nanoseconds.
#[derive(Clone, Debug)]
pub struct BddBenchmarkResult {
    pub scenario: String,
    pub task_count: usize,
    pub resource_count: usize,
    pub conflict_count: usize,
    pub schedule_time_nanos: u128,
    pub bdd_analysis_time_nanos: u128,
    pub heuristic_level_time_nanos: u128,
    pub bdd_conflicts_found: usize,
    pub bdd_resolution_found: bool,
    pub heuristic_conflicts_remaining: usize,
    pub bdd_nodes: usize,
    pub status: BddBenchmarkStatus,
}

} // verus!
