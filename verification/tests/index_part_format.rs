use chrono::NaiveDateTime;
use pageserver_core::tenant::timeline::import_pgdata::flow::index_part_format::{
    Done, IdempotencyKey, InProgress, Location, Root, V1,
};

fn location() -> Location {
    Location::AwsS3 { bucket: "bucket".to_string(), key: "key".to_string() }
}

#[test]
fn the_key_of_an_import_in_progress() {
    let root = Root::V1(V1::InProgress(InProgress {
        idempotency_key: IdempotencyKey("first".to_string()),
        location: location(),
        started_at: NaiveDateTime::default(),
    }));
    assert_eq!(root.idempotency_key(), &IdempotencyKey("first".to_string()));
}

#[test]
fn the_key_of_an_import_that_is_done() {
    let root = Root::V1(V1::Done(Done {
        idempotency_key: IdempotencyKey("second".to_string()),
        started_at: NaiveDateTime::default(),
        finished_at: NaiveDateTime::default(),
    }));
    assert_eq!(root.idempotency_key(), &IdempotencyKey("second".to_string()));
    assert_eq!(root.clone(), root);
}
