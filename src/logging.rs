use vstd::prelude::*;

verus! {

/// Logs of the timely dataflow runtime.
#[derive(Debug, Clone, Copy, PartialEq, Eq, Hash, PartialOrd, Ord, Structural)]
pub enum TimelyLog {
    Operates,
    Channels,
    Elapsed,
    Histogram,
    Addresses,
    Parks,
    MessagesSent,
    MessagesReceived,
    Reachability,
    BatchesSent,
    BatchesReceived,
}

/// Logs of the differential dataflow runtime.
#[derive(Debug, Clone, Copy, PartialEq, Eq, Hash, PartialOrd, Ord, Structural)]
pub enum DifferentialLog {
    ArrangementBatches,
    ArrangementRecords,
    Sharing,
    BatcherRecords,
    BatcherSize,
    BatcherCapacity,
    BatcherAllocations,
}

/// Logs of the compute layer.
#[derive(Debug, Clone, Copy, PartialEq, Eq, Hash, PartialOrd, Ord, Structural)]
pub enum ComputeLog {
    DataflowCurrent,
    FrontierCurrent,
    PeekCurrent,
    PeekDuration,
    FrontierDelay,
    ImportFrontierCurrent,
    ArrangementHeapSize,
    ArrangementHeapCapacity,
    ArrangementHeapAllocations,
    ShutdownDuration,
    ErrorCount,
}

/// An introspection log.
#[derive(Debug, Clone, Copy, PartialEq, Eq, Hash, PartialOrd, Ord, Structural)]
pub enum LogVariant {
    Timely(TimelyLog),
    Differential(DifferentialLog),
    Compute(ComputeLog),
}

/// The number of columns of the relation of log `v`.
pub open spec fn log_arity(v: LogVariant) -> nat {
    match v {
        LogVariant::Timely(t) => match t {
            TimelyLog::Operates => 3,
            TimelyLog::Channels => 6,
            TimelyLog::Elapsed => 2,
            TimelyLog::Histogram => 3,
            TimelyLog::Addresses => 3,
            TimelyLog::Parks => 3,
            TimelyLog::MessagesSent => 3,
            TimelyLog::MessagesReceived => 3,
            TimelyLog::Reachability => 5,
            TimelyLog::BatchesSent => 3,
            TimelyLog::BatchesReceived => 3,
        },
        LogVariant::Differential(_) => 2,
        LogVariant::Compute(c) => match c {
            ComputeLog::DataflowCurrent => 3,
            ComputeLog::FrontierCurrent => 3,
            ComputeLog::PeekCurrent => 5,
            ComputeLog::PeekDuration => 3,
            ComputeLog::FrontierDelay => 4,
            ComputeLog::ImportFrontierCurrent => 4,
            ComputeLog::ArrangementHeapSize => 2,
            ComputeLog::ArrangementHeapCapacity => 2,
            ComputeLog::ArrangementHeapAllocations => 2,
            ComputeLog::ShutdownDuration => 2,
            ComputeLog::ErrorCount => 3,
        },
    }
}

/// The first unique key of the relation of log `v`, if it has one.
pub open spec fn log_key(v: LogVariant) -> Option<Seq<usize>> {
    match v {
        LogVariant::Timely(TimelyLog::Operates) => Some(seq![0usize, 1]),
        LogVariant::Timely(TimelyLog::Channels) => Some(seq![0usize, 1]),
        LogVariant::Timely(TimelyLog::Addresses) => Some(seq![0usize, 1]),
        LogVariant::Compute(ComputeLog::DataflowCurrent) => Some(seq![0usize, 1]),
        LogVariant::Compute(ComputeLog::FrontierCurrent) => Some(seq![0usize, 1]),
        LogVariant::Compute(ComputeLog::ImportFrontierCurrent) => Some(seq![0usize, 1, 2]),
        LogVariant::Compute(ComputeLog::PeekCurrent) => Some(seq![0usize, 1]),
        LogVariant::Compute(ComputeLog::ErrorCount) => Some(seq![0usize, 1]),
        _ => None,
    }
}

/// The columns by which log `v` is indexed: its first key, or else all of
/// its columns.
pub open spec fn log_index(v: LogVariant) -> Seq<usize> {
    match log_key(v) {
        Some(k) => k,
        None => Seq::new(log_arity(v), |i: int| i as usize),
    }
}

impl LogVariant {
    /// The number of columns of this log's relation.
    pub fn arity(&self) -> (r: usize)
        ensures
            r == log_arity(*self),
    {
        match self {
            LogVariant::Timely(t) => match t {
                TimelyLog::Operates => 3,
                TimelyLog::Channels => 6,
                TimelyLog::Elapsed => 2,
                TimelyLog::Histogram => 3,
                TimelyLog::Addresses => 3,
                TimelyLog::Parks => 3,
                TimelyLog::MessagesSent => 3,
                TimelyLog::MessagesReceived => 3,
                TimelyLog::Reachability => 5,
                TimelyLog::BatchesSent => 3,
                TimelyLog::BatchesReceived => 3,
            },
            LogVariant::Differential(_) => 2,
            LogVariant::Compute(c) => match c {
                ComputeLog::DataflowCurrent => 3,
                ComputeLog::FrontierCurrent => 3,
                ComputeLog::PeekCurrent => 5,
                ComputeLog::PeekDuration => 3,
                ComputeLog::FrontierDelay => 4,
                ComputeLog::ImportFrontierCurrent => 4,
                ComputeLog::ArrangementHeapSize => 2,
                ComputeLog::ArrangementHeapCapacity => 2,
                ComputeLog::ArrangementHeapAllocations => 2,
                ComputeLog::ShutdownDuration => 2,
                ComputeLog::ErrorCount => 3,
            },
        }
    }

    /// The first unique key of this log's relation, if it has one.
    pub fn key(&self) -> (r: Option<Vec<usize>>)
        ensures
            match log_key(*self) {
                Some(k) => r is Some && r.unwrap()@ == k,
                None => r is None,
            },
    {
        let r = match self {
            LogVariant::Timely(TimelyLog::Operates) => Some(vec![0usize, 1]),
            LogVariant::Timely(TimelyLog::Channels) => Some(vec![0usize, 1]),
            LogVariant::Timely(TimelyLog::Addresses) => Some(vec![0usize, 1]),
            LogVariant::Compute(ComputeLog::DataflowCurrent) => Some(vec![0usize, 1]),
            LogVariant::Compute(ComputeLog::FrontierCurrent) => Some(vec![0usize, 1]),
            LogVariant::Compute(ComputeLog::ImportFrontierCurrent) => Some(vec![0usize, 1, 2]),
            LogVariant::Compute(ComputeLog::PeekCurrent) => Some(vec![0usize, 1]),
            LogVariant::Compute(ComputeLog::ErrorCount) => Some(vec![0usize, 1]),
            _ => None,
        };
        proof {
            if r is Some {
                assert(r.unwrap()@ =~= log_key(*self).unwrap());
            }
        }
        r
    }

    /// By which columns the log should be indexed: its first key where it
    /// has one, otherwise all of its columns.
    pub fn index_by(&self) -> (r: Vec<usize>)
        ensures
            r@ == log_index(*self),
    {
        match self.key() {
            Some(k) => k,
            None => {
                let arity = self.arity();
                let mut r: Vec<usize> = Vec::new();
                let mut i: usize = 0;
                while i < arity
                    invariant
                        i <= arity,
                        arity == log_arity(*self),
                        r@ =~= Seq::new(i as nat, |j: int| j as usize),
                    decreases arity - i,
                {
                    r.push(i);
                    i = i + 1;
                }
                r
            },
        }
    }
}

/// Logging configuration of a replica.
#[derive(Debug, Clone, Copy, PartialEq, Eq, Default, Structural)]
pub struct ComputeReplicaLogging {
    /// Whether to log the logging dataflows themselves.
    pub log_logging: bool,
    /// The logging interval in milliseconds; `None` disables logging.
    pub interval_ms: Option<u64>,
}

impl ComputeReplicaLogging {
    /// Whether logging is enabled.
    pub fn enabled(&self) -> (r: bool)
        ensures
            r == self.interval_ms is Some,
    {
        self.interval_ms.is_some()
    }
}

/// Replica configuration.
#[derive(Debug, Clone, Copy, PartialEq, Eq, Structural)]
pub struct ComputeReplicaConfig {
    pub logging: ComputeReplicaLogging,
}

/// Introspection collections.
#[derive(Debug, Clone, Copy, PartialEq, Eq, Hash, PartialOrd, Ord, Structural)]
pub enum IntrospectionType {
    SinkStatusHistory,
    SourceStatusHistory,
    ShardMapping,
    Frontiers,
    ReplicaFrontiers,
    StorageSourceStatistics,
    StorageSinkStatistics,
    StatementExecutionHistory,
    SessionHistory,
    PreparedStatementHistory,
    SqlText,
    StatementLifecycleHistory,
    ComputeDependencies,
    ComputeReplicaHeartbeats,
    ComputeHydrationStatus,
    ComputeOperatorHydrationStatus,
    PrivatelinkConnectionStatusHistory,
}

/// How a collection maintained outside the storage controller is written.
#[derive(Debug, Clone, Copy, PartialEq, Eq, Structural)]
pub enum DataSourceOther {
    /// Timestamped appends: a table.
    TableWrites,
    /// Maintained by compute: a materialized view.
    Compute,
}

} // verus!
