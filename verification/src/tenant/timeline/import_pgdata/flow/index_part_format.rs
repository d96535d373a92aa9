//! What the index of a timeline records about an import.

use vstd::prelude::*;

verus! {

/// `chrono::NaiveDateTime`: a date and time without a time zone. Its
/// value is carried, never looked at.
#[verifier::external_type_specification]
#[verifier::external_body]
pub struct ExNaiveDateTime(chrono::NaiveDateTime);

/// `Clone::clone` of `chrono::NaiveDateTime`, which is `Copy`: the clone is
/// the value itself.
pub assume_specification[ <chrono::NaiveDateTime as Clone>::clone ](
    t: &chrono::NaiveDateTime,
) -> (res: chrono::NaiveDateTime)
    ensures
        res == *t,
;

/// `PartialEq::eq` of `chrono::NaiveDateTime`. Nothing is claimed of it.
pub assume_specification[ <chrono::NaiveDateTime as PartialEq>::eq ](
    a: &chrono::NaiveDateTime,
    b: &chrono::NaiveDateTime,
) -> (res: bool)
;

#[derive(Debug, Clone, PartialEq, Eq)]
pub enum Root {
    V1(V1),
}

#[derive(Debug, Clone, PartialEq, Eq)]
pub enum V1 {
    InProgress(InProgress),
    Done(Done),
}

/// Tells one import from another one of the same timeline.
#[derive(Debug, Clone, PartialEq, Eq)]
pub struct IdempotencyKey(pub String);

#[derive(Debug, Clone, PartialEq, Eq)]
pub struct InProgress {
    pub idempotency_key: IdempotencyKey,
    pub location: Location,
    pub started_at: chrono::NaiveDateTime,
}

#[derive(Debug, Clone, PartialEq, Eq)]
pub struct Done {
    pub idempotency_key: IdempotencyKey,
    pub started_at: chrono::NaiveDateTime,
    pub finished_at: chrono::NaiveDateTime,
}

/// Where the data directory is imported from.
#[derive(Debug, Clone, PartialEq, Eq)]
pub enum Location {
    AwsS3 { bucket: String, key: String },
}

impl Root {
    /// The key of the import, whether it is in progress or done.
    pub open spec fn spec_idempotency_key(&self) -> &IdempotencyKey {
        match self {
            Root::V1(V1::InProgress(in_progress)) => &in_progress.idempotency_key,
            Root::V1(V1::Done(done)) => &done.idempotency_key,
        }
    }

    #[verifier::when_used_as_spec(spec_idempotency_key)]
    pub fn idempotency_key(&self) -> (key: &IdempotencyKey)
        ensures
            key == self.spec_idempotency_key(),
    {
        match self {
            Root::V1(v1) => match v1 {
                V1::InProgress(in_progress) => &in_progress.idempotency_key,
                V1::Done(done) => &done.idempotency_key,
            },
        }
    }
}

} // verus!
