//! WAL redo: how a request is split into batches, and when an attempt is
//! repeated.
//!
//! A request brings a list of WAL records. Some records can be applied in
//! process, the others are applied by a separate redo process. Records are
//! applied in their order, and consecutive records of one kind go together.

use vstd::prelude::*;

verus! {

/// Why a redo failed.
#[derive(Debug)]
pub enum Error {
    Cancelled,
    Other(String),
}

/// A run of consecutive records that are applied together: the records
/// from `start` up to `end`, which is not included.
#[derive(Debug, Clone, Copy, PartialEq, Eq)]
pub struct RedoBatch {
    /// Whether the records are applied in process.
    pub neon: bool,
    pub start: usize,
    pub end: usize,
}

/// What follows an attempt to apply a batch with the redo process.
#[derive(Debug, Clone, Copy, PartialEq, Eq)]
pub enum AfterAttempt {
    /// The result of the attempt is the result of the batch.
    Return,
    /// The attempt failed while shutdown was requested.
    Cancelled,
    /// The attempt failed, and is repeated with a new process.
    Retry,
}

/// How often a failed attempt is repeated.
pub const MAX_RETRY_ATTEMPTS: u32 = 1;

/// Whether `batches` splits `kinds` into its runs: the batches follow each
/// other from the first record to the last, none is empty, each holds
/// records of its kind only, and neighbours differ in kind.
pub open spec fn is_batching(kinds: Seq<bool>, batches: Seq<RedoBatch>) -> bool {
    &&& batches.len() > 0
    &&& batches[0].start == 0
    &&& batches[batches.len() - 1].end == kinds.len()
    &&& forall|b: int|
        0 <= b < batches.len() ==> (#[trigger] batches[b]).start < batches[b].end <= kinds.len()
    &&& forall|b: int, i: int|
        0 <= b < batches.len() && batches[b].start <= i < batches[b].end ==> #[trigger] kinds[i]
            == (#[trigger] batches[b]).neon
    &&& forall|b: int|
        0 <= b < batches.len() - 1 ==> (#[trigger] batches[b]).end == batches[b + 1].start
            && batches[b].neon != batches[b + 1].neon
}

impl Error {
    /// The error in words.
    pub fn message(&self) -> (message: String)
        ensures
            self matches Error::Cancelled ==> message@ == "cancelled"@,
            self matches Error::Other(text) ==> message@ == text@,
    {
        match self {
            Error::Cancelled => "cancelled".to_owned(),
            Error::Other(text) => text.clone(),
        }
    }
}

/// Splits the records of a request into batches. `can_apply_in_neon` says
/// of each record whether it can be applied in process.
///
/// # Errors
///
/// A request without records is invalid.
pub fn redo_batches(can_apply_in_neon: &Vec<bool>) -> (res: Result<Vec<RedoBatch>, Error>)
    ensures
        res is Err <==> can_apply_in_neon@.len() == 0,
        res matches Err(e) ==> e matches Error::Other(text) && text@
            == "invalid WAL redo request with no records"@,
        res matches Ok(batches) ==> is_batching(can_apply_in_neon@, batches@),
{
    let n = can_apply_in_neon.len();
    if n == 0 {
        return Err(Error::Other("invalid WAL redo request with no records".to_owned()));
    }
    let ghost kinds = can_apply_in_neon@;
    let mut batches: Vec<RedoBatch> = Vec::new();
    let mut batch_neon = can_apply_in_neon[0];
    let mut batch_start: usize = 0;
    let mut i: usize = 1;
    while i < n
        invariant
            1 <= i <= n,
            n == kinds.len(),
            kinds == can_apply_in_neon@,
            batch_start < i,
            forall|k: int| batch_start <= k < i ==> kinds[k] == batch_neon,
            batches@.len() == 0 ==> batch_start == 0,
            batches@.len() > 0 ==> batches@[0].start == 0 && batches@[batches@.len() - 1].end
                == batch_start && batches@[batches@.len() - 1].neon != batch_neon,
            forall|b: int|
                0 <= b < batches@.len() ==> (#[trigger] batches@[b]).start < batches@[b].end
                    <= batch_start,
            forall|b: int, k: int|
                0 <= b < batches@.len() && batches@[b].start <= k < batches@[b].end
                    ==> #[trigger] kinds[k] == (#[trigger] batches@[b]).neon,
            forall|b: int|
                0 <= b < batches@.len() - 1 ==> (#[trigger] batches@[b]).end == batches@[b
                    + 1].start && batches@[b].neon != batches@[b + 1].neon,
        decreases n - i,
    {
        let rec_neon = can_apply_in_neon[i];
        if rec_neon != batch_neon {
            batches.push(RedoBatch { neon: batch_neon, start: batch_start, end: i });
            batch_neon = rec_neon;
            batch_start = i;
        }
        i = i + 1;
    }
    // last batch
    batches.push(RedoBatch { neon: batch_neon, start: batch_start, end: n });
    Ok(batches)
}

/// What follows an attempt of the redo process, after `n_attempts`
/// earlier attempts. A failure during shutdown is a cancellation. A
/// success is returned, and so is the failure of the last attempt.
pub fn after_attempt(n_attempts: u32, succeeded: bool, shutdown_requested: bool) -> (after:
    AfterAttempt)
    ensures
        after == if !succeeded && shutdown_requested {
            AfterAttempt::Cancelled
        } else if succeeded || n_attempts >= MAX_RETRY_ATTEMPTS {
            AfterAttempt::Return
        } else {
            AfterAttempt::Retry
        },
{
    if !succeeded && shutdown_requested {
        AfterAttempt::Cancelled
    } else if succeeded || n_attempts >= MAX_RETRY_ATTEMPTS {
        AfterAttempt::Return
    } else {
        AfterAttempt::Retry
    }
}

/// Whether the redo process is shut down for idleness at `now`: it was
/// used, and not since `idle_timeout` ago. Instants and the timeout are
/// nanoseconds.
pub fn should_quiesce(last_redo_at: Option<u64>, now: u64, idle_timeout: u64) -> (quiesce: bool)
    ensures
        quiesce == (last_redo_at matches Some(at) && wait_since(at, now) >= idle_timeout),
{
    match last_redo_at {
        Some(at) => {
            let elapsed = if now > at {
                now - at
            } else {
                0
            };
            elapsed >= idle_timeout
        },
        None => false,
    }
}

/// The time from `at` to `now`; zero where `now` is not after `at`.
pub open spec fn wait_since(at: u64, now: u64) -> u64 {
    if now > at {
        (now - at) as u64
    } else {
        0
    }
}

} // verus!
