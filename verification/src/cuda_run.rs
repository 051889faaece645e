//! A bounded CUDA search: its limits, its launches and its progress.

use vstd::prelude::*;
use vstd::string::*;

use crate::exchange::saturated;
use crate::pattern::PatternKind;
use crate::search::{end_of, search_end};
use crate::text::{append_decimal, decimal_text};

verus! {

/// Number of launches between two progress reports.
pub const REPORT_INTERVAL: u64 = 10;

/// Why a CUDA search is not started.
#[derive(Clone, Copy, Debug, Eq, PartialEq, Structural)]
pub enum CudaPlanError {
    /// The pattern is empty, or a literal is longer than the range.
    Prefix {
        /// The end of the range.
        end: usize,
    },
    /// A launch would have no candidates.
    Batch,
}

impl CudaPlanError {
    /// The text that [`CudaPlanError::message`] gives.
    pub open spec fn message_text(self) -> Seq<char> {
        match self {
            CudaPlanError::Prefix { end } => "prefix must fit in the selected range (0.."@
                + decimal_text(end as nat) + ")"@,
            CudaPlanError::Batch => "--batch must be greater than zero"@,
        }
    }

    /// Describes the error in one line.
    pub fn message(&self) -> (text: String)
        ensures
            text@ == self.message_text(),
            match *self {
                CudaPlanError::Prefix { end } => text@ == "prefix must fit in the selected range (0.."@
                    + decimal_text(end as nat) + ")"@,
                CudaPlanError::Batch => text@ == "--batch must be greater than zero"@,
            },
    {
        let mut text = String::new();
        match self {
            CudaPlanError::Prefix { end } => {
                text.append("prefix must fit in the selected range (0..");
                append_decimal(&mut text, *end as u64);
                text.append(")");
            },
            CudaPlanError::Batch => text.append("--batch must be greater than zero"),
        }
        assert(text@ =~= self.message_text());
        text
    }
}

/// Whether a pattern can be searched for by the CUDA kernels: it is not empty,
/// and a literal fits the range.
pub open spec fn pattern_serves(kind: PatternKind, len: int, end: int) -> bool {
    len > 0 && (kind is Literal ==> len <= end)
}

/// The end of the range that a CUDA search covers, or why it is not started.
pub fn plan_cuda_search(kind: PatternKind, len: usize, range: Option<usize>, batch: u64) -> (result:
    Result<usize, CudaPlanError>)
    ensures
        match result {
            Ok(end) => {
                &&& end == end_of(kind, len as int, range)
                &&& pattern_serves(kind, len as int, end as int)
                &&& batch > 0
            },
            Err(CudaPlanError::Prefix { end }) => {
                &&& end == end_of(kind, len as int, range)
                &&& !pattern_serves(kind, len as int, end as int)
            },
            Err(CudaPlanError::Batch) => {
                &&& pattern_serves(kind, len as int, end_of(kind, len as int, range))
                &&& batch == 0
            },
        },
        result is Ok <==> len > 0 && (kind is Literal ==> len <= end_of(kind, len as int, range))
            && batch > 0,
        result matches Ok(end) ==> end <= 44,
        result matches Err(CudaPlanError::Batch) <==> batch == 0 && len > 0 && (kind is Literal
            ==> len <= end_of(kind, len as int, range)),
{
    let end: usize = search_end(kind, len, range);
    if len == 0 || (kind == PatternKind::Literal && len > end) {
        return Err(CudaPlanError::Prefix { end });
    }
    if batch == 0 {
        return Err(CudaPlanError::Batch);
    }
    Ok(end)
}

/// The candidates of one launch.
#[derive(Clone, Copy, Debug, Eq, PartialEq, Structural)]
pub struct Share {
    /// Number of candidates.
    pub count: u64,
    /// Number of candidates of the search before this launch.
    pub base_counter: u64,
}

/// The limits and the progress of a CUDA search.
#[derive(Clone, Copy, Debug)]
pub struct CudaRun {
    batch: u64,
    trials: Option<u64>,
    batches: Option<u64>,
    counter: u64,
    total: u64,
    launches: u64,
}

/// The model of a [`CudaRun`].
pub struct Progress {
    /// Number of candidates in a launch.
    pub batch: int,
    /// Number of candidates after which the search stops.
    pub trials: Option<u64>,
    /// Number of launches after which the search stops.
    pub batches: Option<u64>,
    /// Number of candidates before the next launch.
    pub counter: int,
    /// Number of candidates so far.
    pub total: int,
    /// Number of launches so far.
    pub launches: int,
}

impl View for CudaRun {
    type V = Progress;

    closed spec fn view(&self) -> Progress {
        Progress {
            batch: self.batch as int,
            trials: self.trials,
            batches: self.batches,
            counter: self.counter as int,
            total: self.total as int,
            launches: self.launches as int,
        }
    }
}

impl Progress {
    /// The number of launches that the limit still allows.
    pub open spec fn launches_left(self) -> int {
        match self.batches {
            Some(limit) => limit - self.launches,
            None => u64::MAX - self.launches,
        }
    }

    /// Whether the limits allow one more launch after `ahead` whole launches
    /// that are not recorded yet.
    pub open spec fn allows(self, ahead: int) -> bool {
        &&& ahead < self.launches_left()
        &&& self.batch > 0
        &&& match self.trials {
            Some(limit) => self.total + ahead * self.batch < limit,
            None => true,
        }
    }

    /// The candidates of a launch after `ahead` whole launches that are not
    /// recorded yet.
    pub open spec fn share(self, ahead: int) -> (int, int) {
        let done = self.total + ahead * self.batch;
        let count = match self.trials {
            Some(limit) => if limit - done < self.batch {
                limit - done
            } else {
                self.batch
            },
            None => self.batch,
        };
        (count, saturated(self.counter + ahead * self.batch))
    }

    /// Whether a launch is the one that the limits allow after `ahead` whole
    /// launches that are not recorded yet.
    pub open spec fn is_share(self, ahead: int, share: Share) -> bool {
        &&& self.allows(ahead)
        &&& (share.count as int, share.base_counter as int) == self.share(ahead)
    }

    /// The progress after a launch of `attempts` candidates.
    pub open spec fn recorded(self, attempts: u64) -> Progress {
        Progress {
            counter: saturated(self.counter + attempts),
            total: saturated(self.total + attempts),
            launches: saturated(self.launches + 1),
            ..self
        }
    }

    /// Whether a report is due after the last launch: after every tenth, where
    /// the number of launches is not limited.
    pub open spec fn reports(self) -> bool {
        self.batches is None && self.launches > 0 && self.launches % 10 == 0
    }
}

impl CudaRun {
    /// A search with the given limits.
    pub fn new(batch: u64, trials: Option<u64>, batches: Option<u64>) -> (run: Self)
        ensures
            run@ == (Progress {
                batch: batch as int,
                trials,
                batches,
                counter: 0,
                total: 0,
                launches: 0,
            }),
    {
        CudaRun { batch, trials, batches, counter: 0, total: 0, launches: 0 }
    }

    /// The number of candidates so far.
    pub fn total(&self) -> (total: u64)
        ensures
            total == self@.total,
    {
        self.total
    }

    /// The launches of one round on a number of devices, one for each at most.
    ///
    /// A round that begins after the deadline has none; else a device gets a
    /// launch as long as the limits allow one.
    pub fn plan_round(&self, devices: usize, past_deadline: bool) -> (shares: Vec<Share>)
        ensures
            shares@.len() <= devices,
            past_deadline ==> shares@.len() == 0,
            forall|k: int|
                0 <= k < shares@.len() ==> self@.is_share(k, #[trigger] shares@[k]),
            !past_deadline && shares@.len() < devices ==> !self@.allows(shares@.len() as int),
    {
        let mut shares: Vec<Share> = Vec::new();
        if past_deadline || self.batch == 0 {
            return shares;
        }
        let batches_left: u64 = match self.batches {
            Some(limit) => if limit > self.launches {
                limit - self.launches
            } else {
                0
            },
            None => u64::MAX - self.launches,
        };
        let mut done: u64 = self.total;
        let mut counter: u64 = self.counter;
        let mut k: u64 = 0;
        proof {
            assert(0 * self.batch == 0) by (nonlinear_arith);
        }
        while (shares.len() < devices) && k < batches_left
            invariant
                shares@.len() == k,
                k <= devices,
                self.batch > 0,
                !past_deadline,
                batches_left == if self@.launches_left() > 0 {
                    self@.launches_left()
                } else {
                    0
                },
                done == saturated(self@.total + k * self@.batch),
                counter == saturated(self@.counter + k * self@.batch),
                forall|j: int|
                    0 <= j < shares@.len() ==> self@.is_share(j, #[trigger] shares@[j]),
            decreases devices - k,
        {
            let count: u64 = match self.trials {
                Some(limit) => {
                    if done >= limit {
                        return shares;
                    }
                    if limit - done < self.batch {
                        limit - done
                    } else {
                        self.batch
                    }
                },
                None => self.batch,
            };
            let share = Share { count, base_counter: counter };
            assert(self@.is_share(k as int, share));
            shares.push(share);
            proof {
                let batch = self@.batch;
                assert((k + 1) * batch == k * batch + batch) by (nonlinear_arith);
            }
            done = done.saturating_add(self.batch);
            counter = counter.saturating_add(self.batch);
            k += 1;
        }
        shares
    }

    /// Records a launch.
    pub fn record(&mut self, attempts: u64)
        ensures
            final(self)@ == old(self)@.recorded(attempts),
    {
        self.counter = self.counter.saturating_add(attempts);
        self.total = self.total.saturating_add(attempts);
        self.launches = self.launches.saturating_add(1);
    }

    /// Whether a progress report is due.
    pub fn report_due(&self) -> (due: bool)
        ensures
            due == self@.reports(),
            due <==> self@.batches is None && self@.launches > 0 && self@.launches % 10 == 0,
    {
        self.batches.is_none() && self.launches > 0 && self.launches % REPORT_INTERVAL == 0
    }
}

/// A launch is within the limits: its candidates do not go beyond the number of
/// trials, and it is one of the launches that were asked for.
pub proof fn law_limits_hold(progress: Progress, ahead: int)
    requires
        0 <= ahead,
        0 <= progress.total,
        progress.allows(ahead),
    ensures
        0 < progress.share(ahead).0 <= progress.batch,
        progress.trials matches Some(limit) ==> progress.total + ahead * progress.batch
            + progress.share(ahead).0 <= limit,
        progress.batches matches Some(limit) ==> progress.launches + ahead < limit,
{
}

/// Within a round, every launch but the last is a whole batch, so that the
/// launches that are recorded later are those that were planned.
pub proof fn law_round_is_whole(progress: Progress, ahead: int)
    requires
        0 <= ahead,
        0 <= progress.total,
        progress.allows(ahead + 1),
    ensures
        progress.allows(ahead),
        progress.share(ahead).0 == progress.batch,
{
    let batch = progress.batch;
    assert((ahead + 1) * batch == ahead * batch + batch) by (nonlinear_arith);
}

/// Once a whole batch is recorded, the next launch is the one that was planned
/// after it.
pub proof fn law_recorded_share(progress: Progress)
    requires
        0 <= progress.total,
        0 <= progress.counter,
        0 < progress.batch <= u64::MAX,
        progress.total + progress.batch <= u64::MAX,
        progress.counter + progress.batch <= u64::MAX,
    ensures
        progress.recorded(progress.batch as u64).share(0) == progress.share(1),
{
    let next = progress.recorded(progress.batch as u64);
    assert(0 * next.batch == 0) by (nonlinear_arith);
    assert(1 * progress.batch == progress.batch) by (nonlinear_arith);
}

/// The end of the range that a benchmark covers.
pub fn benchmark_end(len: usize) -> (end: usize)
    ensures
        end == if len < 10 {
            10
        } else if len < 44 {
            len as int
        } else {
            44
        },
{
    if len < 10 {
        10
    } else if len < 44 {
        len
    } else {
        44
    }
}

/// The number of candidates of the next launch of a benchmark, while candidates
/// are left.
pub fn benchmark_count(done: u64, trials: u64, batch: u64) -> (count: Option<u64>)
    ensures
        count is Some <==> done < trials,
        count matches Some(count) ==> count == if batch < trials - done {
            batch as int
        } else {
            trials - done
        },
{
    if done >= trials {
        return None;
    }
    let left: u64 = trials - done;
    Some(
        if batch < left {
            batch
        } else {
            left
        },
    )
}

} // verus!
