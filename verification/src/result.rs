//! Results of executed queries.
use vstd::prelude::*;
use crate::json::Json;
use crate::link::Link;
use crate::memory::MemoryRecord;

verus! {

/// What a query produced.
#[derive(Debug)]
pub enum ResultSet {
    Records { records: Vec<MemoryRecord> },
    /// How many records a mutation touched.
    Count { count: u64 },
    Aggregation { values: Json },
    Links { links: Vec<Link> },
    /// The record a STORE stored.
    Stored { record: MemoryRecord },
    /// One result per pipeline stage.
    Pipeline { steps: Vec<QueryResult> },
    /// One result per REFLECT source, with the links met.
    Reflect { sources: Vec<SourceResult>, links: Vec<Link> },
    Empty,
}

/// The records one source of a REFLECT produced.
#[derive(Debug)]
pub struct SourceResult {
    /// The `Debug` name of the memory kind.
    pub memory_type: String,
    pub records: Vec<MemoryRecord>,
}

/// Facts about an execution.
#[derive(Debug)]
pub struct ResultMetadata {
    pub execution_time_ms: u64,
    pub records_scanned: Option<u64>,
    pub records_returned: Option<u64>,
    /// Execution time of each pipeline stage.
    pub step_timings: Option<Vec<u64>>,
}

impl Default for ResultMetadata {
    fn default() -> (r: ResultMetadata)
        ensures
            r.execution_time_ms == 0,
            r.records_scanned is None,
            r.records_returned is None,
            r.step_timings is None,
    {
        ResultMetadata { execution_time_ms: 0, records_scanned: None, records_returned: None, step_timings: None }
    }
}

/// The outcome of a query.
#[derive(Debug)]
pub struct QueryResult {
    pub success: bool,
    pub data: ResultSet,
    pub metadata: ResultMetadata,
}

/// Metadata with only an execution time.
pub open spec fn timed(m: ResultMetadata, ms: u64) -> bool {
    &&& m.execution_time_ms == ms
    &&& m.records_scanned is None
    &&& m.records_returned is None
    &&& m.step_timings is None
}

impl QueryResult {
    /// Records found.
    pub fn records(records: Vec<MemoryRecord>, execution_time_ms: u64) -> (r: QueryResult)
        ensures
            r.success,
            r.data == (ResultSet::Records { records }),
            r.metadata == (ResultMetadata {
                execution_time_ms,
                records_scanned: None,
                records_returned: Some(records@.len() as u64),
                step_timings: None,
            }),
    {
        let count = records.len();
        QueryResult {
            success: true,
            data: ResultSet::Records { records },
            metadata: ResultMetadata {
                execution_time_ms,
                records_scanned: None,
                records_returned: Some(count as u64),
                step_timings: None,
            },
        }
    }

    /// A count of touched records.
    pub fn count(count: u64, execution_time_ms: u64) -> (r: QueryResult)
        ensures
            r.success,
            r.data == (ResultSet::Count { count }),
            timed(r.metadata, execution_time_ms),
    {
        QueryResult {
            success: true,
            data: ResultSet::Count { count },
            metadata: ResultMetadata {
                execution_time_ms,
                records_scanned: None,
                records_returned: None,
                step_timings: None,
            },
        }
    }

    /// A stored record.
    pub fn stored(record: MemoryRecord, execution_time_ms: u64) -> (r: QueryResult)
        ensures
            r.success,
            r.data == (ResultSet::Stored { record }),
            r.metadata == (ResultMetadata {
                execution_time_ms,
                records_scanned: None,
                records_returned: Some(1),
                step_timings: None,
            }),
    {
        QueryResult {
            success: true,
            data: ResultSet::Stored { record },
            metadata: ResultMetadata {
                execution_time_ms,
                records_scanned: None,
                records_returned: Some(1),
                step_timings: None,
            },
        }
    }

    /// Aggregate values.
    pub fn aggregation(values: Json, execution_time_ms: u64) -> (r: QueryResult)
        ensures
            r.success,
            r.data == (ResultSet::Aggregation { values }),
            timed(r.metadata, execution_time_ms),
    {
        QueryResult {
            success: true,
            data: ResultSet::Aggregation { values },
            metadata: ResultMetadata {
                execution_time_ms,
                records_scanned: None,
                records_returned: None,
                step_timings: None,
            },
        }
    }

    /// The results of a pipeline's stages: successful when every stage
    /// was, with each stage's execution time.
    pub fn pipeline(steps: Vec<QueryResult>, execution_time_ms: u64) -> (r: QueryResult)
        ensures
            r.success == (forall|i: int| 0 <= i < steps@.len() ==> (#[trigger] steps@[i]).success),
            r.data == (ResultSet::Pipeline { steps }),
            r.metadata.execution_time_ms == execution_time_ms,
            r.metadata.records_scanned is None,
            r.metadata.records_returned is None,
            r.metadata.step_timings matches Some(t) && t@ == steps@.map_values(
                |q: QueryResult| q.metadata.execution_time_ms,
            ),
    {
        let mut timings: Vec<u64> = Vec::new();
        let mut all_ok = true;
        let mut i: usize = 0;
        while i < steps.len()
            invariant
                i <= steps@.len(),
                timings@ == steps@.take(i as int).map_values(|q: QueryResult| q.metadata.execution_time_ms),
                all_ok == (forall|k: int| 0 <= k < i ==> (#[trigger] steps@[k]).success),
            decreases steps@.len() - i,
        {
            timings.push(steps[i].metadata.execution_time_ms);
            assert(steps@.take(i + 1).map_values(|q: QueryResult| q.metadata.execution_time_ms) =~= steps@.take(
                i as int,
            ).map_values(|q: QueryResult| q.metadata.execution_time_ms).push(steps@[i as int].metadata.execution_time_ms));
            all_ok = all_ok && steps[i].success;
            i = i + 1;
        }
        assert(steps@.take(steps@.len() as int) =~= steps@);
        QueryResult {
            success: all_ok,
            data: ResultSet::Pipeline { steps },
            metadata: ResultMetadata {
                execution_time_ms,
                records_scanned: None,
                records_returned: None,
                step_timings: Some(timings),
            },
        }
    }

    /// Nothing.
    pub fn empty(execution_time_ms: u64) -> (r: QueryResult)
        ensures
            r.success,
            r.data == ResultSet::Empty,
            timed(r.metadata, execution_time_ms),
    {
        QueryResult {
            success: true,
            data: ResultSet::Empty,
            metadata: ResultMetadata {
                execution_time_ms,
                records_scanned: None,
                records_returned: None,
                step_timings: None,
            },
        }
    }

    /// The records of a records result.
    pub fn get_records(&self) -> (r: Option<&[MemoryRecord]>)
        ensures
            match self.data {
                ResultSet::Records { records } => r matches Some(s) && s@ == records@,
                _ => r is None,
            },
    {
        match &self.data {
            ResultSet::Records { records } => Some(records.as_slice()),
            _ => None,
        }
    }

    /// The count of a count result.
    pub fn get_count(&self) -> (r: Option<u64>)
        ensures
            match self.data {
                ResultSet::Count { count } => r == Some(count),
                _ => r is None,
            },
    {
        match &self.data {
            ResultSet::Count { count } => Some(*count),
            _ => None,
        }
    }
}

} // verus!
