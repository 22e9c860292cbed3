use hackstore::client::{GetDirective, GetFlow, SaveDirective, SaveFlow, split_resolved};
use hackstore::error::{HackClientError, WriteStatus};
use hackstore::field_with_time::FieldWithTime;
use hackstore::model::{MajorityToken, MajorityTokenAdminFlags};

fn token(id: &str, rev: &str, certify: &[&str], revoked: bool, set_at: u64) -> MajorityToken {
    MajorityToken {
        _id: id.to_owned(),
        _rev: rev.to_owned(),
        _deleted: None,
        certify: certify.iter().map(|s| s.to_string()).collect(),
        admin_flags: FieldWithTime {
            value: MajorityTokenAdminFlags {
                can_certify: true,
                need_certification: false,
                revoked,
            },
            timestamp_set: set_at,
        },
        latest_certification_timestamp: set_at,
        _conflicts: Vec::new(),
    }
}

#[test]
fn save_without_conflict_is_one_write_and_no_reads() {
    let mut flow: SaveFlow<MajorityToken> =
        SaveFlow::new("majority_token".to_owned(), token("tok", "", &["alice"], false, 100), 8);
    let d = flow.start();
    match d {
        SaveDirective::WriteOne { doc } => assert_eq!(doc._id, "tok"),
        _ => panic!("a fresh save must direct exactly one write"),
    }
    match flow.on_write_result(WriteStatus::Applied) {
        SaveDirective::Finish => {}
        _ => panic!("an applied write must finish the save with no further I/O"),
    }
}

#[test]
fn save_with_one_conflict_rereads_merges_and_writes_once_more() {
    let mine = token("tok", "1-a", &["alice"], false, 100);
    let mut flow: SaveFlow<MajorityToken> = SaveFlow::new("majority_token".to_owned(), mine, 8);
    match flow.start() {
        SaveDirective::WriteOne { .. } => {}
        _ => panic!("expected the direct write first"),
    }
    // The write loses the race: exactly one re-read follows.
    match flow.on_write_result(WriteStatus::VersionConflict) {
        SaveDirective::Read { id } => assert_eq!(id, "tok"),
        _ => panic!("a version conflict must be answered by a re-read"),
    }
    // The store now holds the concurrent writer's revision.
    let stored = token("tok", "2-b", &["bob"], true, 90);
    let audit = match flow.on_read(Some(stored), 12345) {
        SaveDirective::WriteResolution { audit } => audit,
        _ => panic!("the re-read must be followed by the batch write"),
    };
    assert_eq!(audit.db_name, "majority_token");
    assert_eq!(audit.timestamp, 12345);
    // No siblings: the batch holds only the merged winner.
    assert_eq!(audit.raw_docs.len(), 1);
    let winner = &audit.raw_docs[0];
    assert_eq!(winner._rev, "2-b", "the winner adopts the stored revision token");
    assert!(winner.certify.contains(&"alice".to_string()));
    assert!(winner.certify.contains(&"bob".to_string()));
    assert!(winner.admin_flags.value.revoked);
    // The pre-merge snapshot lists the caller's document and the stored one.
    assert_eq!(audit.conflicting_docs.len(), 2);
    assert_eq!(audit.conflicting_docs[0]._rev, "1-a");
    assert_eq!(audit.conflicting_docs[1]._rev, "2-b");
    // The second write is clean: the save succeeds.
    match flow.on_batch_results(&vec![WriteStatus::Applied]) {
        SaveDirective::Finish => {}
        _ => panic!("a clean second write must finish the save"),
    }
}

#[test]
fn save_racing_write_converges_with_both_contributions() {
    // Client A read revision 1-r1 and edits it; client B concurrently
    // advanced the document to 2-r2.
    let a_edit = token("tok", "1-r1", &["alice"], false, 100);
    let mut flow: SaveFlow<MajorityToken> = SaveFlow::new("majority_token".to_owned(), a_edit, 8);
    flow.start();
    // A's write is rejected as a version conflict.
    match flow.on_write_result(WriteStatus::VersionConflict) {
        SaveDirective::Read { .. } => {}
        _ => panic!("expected a re-read"),
    }
    // A re-reads B's revision, merges, and writes 3-r3 successfully.
    let b_revision = token("tok", "2-r2", &["bob"], false, 90);
    let audit = match flow.on_read(Some(b_revision), 7) {
        SaveDirective::WriteResolution { audit } => audit,
        _ => panic!("expected the merged batch write"),
    };
    let winner = audit.raw_docs.last().unwrap();
    assert!(winner.certify.contains(&"alice".to_string()), "A's contribution survives");
    assert!(winner.certify.contains(&"bob".to_string()), "B's contribution survives");
    match flow.on_batch_results(&vec![WriteStatus::Applied]) {
        SaveDirective::Finish => {}
        _ => panic!("the merged write must succeed"),
    }
}

#[test]
fn save_fatal_statuses_abort_with_the_store_detail() {
    let mut flow: SaveFlow<MajorityToken> =
        SaveFlow::new("majority_token".to_owned(), token("tok", "", &[], false, 1), 8);
    flow.start();
    match flow.on_write_result(WriteStatus::Other("boom".to_owned())) {
        SaveDirective::Abort { error: HackClientError::InternalDBError(d) } => {
            assert_eq!(d, "boom");
        }
        _ => panic!("an unexpected status must abort the save"),
    }
}

#[test]
fn save_exhausts_its_attempt_budget() {
    let mut flow: SaveFlow<MajorityToken> =
        SaveFlow::new("majority_token".to_owned(), token("tok", "1-a", &[], false, 1), 0);
    flow.start();
    match flow.on_write_result(WriteStatus::VersionConflict) {
        SaveDirective::Abort { error: HackClientError::ResolutionExhausted } => {}
        _ => panic!("with no attempts left a conflict must exhaust the save"),
    }
}

#[test]
fn get_missing_document_finishes_with_nothing() {
    let mut flow: GetFlow<MajorityToken> =
        GetFlow::new("majority_token".to_owned(), "tok".to_owned(), 8);
    match flow.start() {
        GetDirective::Read { id } => assert_eq!(id, "tok"),
        _ => panic!("a get must start with a read"),
    }
    match flow.on_read(None, 1) {
        GetDirective::Finish { result: None } => {}
        _ => panic!("a missing document finishes with nothing"),
    }
}

#[test]
fn get_without_siblings_returns_the_document_unchanged_and_writes_nothing() {
    let mut flow: GetFlow<MajorityToken> =
        GetFlow::new("majority_token".to_owned(), "tok".to_owned(), 8);
    flow.start();
    let doc = token("tok", "5-e", &["alice"], false, 10);
    match flow.on_read(Some(doc), 1) {
        GetDirective::Finish { result: Some(d) } => {
            assert_eq!(d._id, "tok");
            assert_eq!(d._rev, "5-e");
            assert_eq!(d.certify, vec!["alice".to_string()]);
            assert_eq!(d._deleted, None);
        }
        _ => panic!("a conflict-free read must finish at once, with no write"),
    }
}

#[test]
fn get_with_siblings_writes_n_tombstones_plus_one_winner_and_one_audit_record() {
    let mut flow: GetFlow<MajorityToken> =
        GetFlow::new("majority_token".to_owned(), "tok".to_owned(), 8);
    flow.start();
    let mut doc = token("tok", "3-a", &["alice"], false, 100);
    doc._conflicts.push(token("tok", "3-b", &["bob"], false, 90));
    doc._conflicts.push(token("tok", "3-c", &["carol"], true, 80));
    let audit = match flow.on_read(Some(doc), 99) {
        GetDirective::WriteResolution { audit } => audit,
        _ => panic!("siblings must force an audited batch write"),
    };
    // N tombstones plus one winner, and exactly this one audit record.
    assert_eq!(audit.raw_docs.len(), 3);
    assert_eq!(audit.raw_docs[0]._rev, "3-b");
    assert_eq!(audit.raw_docs[0]._deleted, Some(true));
    assert_eq!(audit.raw_docs[1]._rev, "3-c");
    assert_eq!(audit.raw_docs[1]._deleted, Some(true));
    let winner = &audit.raw_docs[2];
    assert_eq!(winner._rev, "3-a");
    assert_eq!(winner._deleted, None);
    assert!(winner.certify.contains(&"alice".to_string()));
    assert!(winner.certify.contains(&"bob".to_string()));
    assert!(winner.certify.contains(&"carol".to_string()));
    assert!(winner.admin_flags.value.revoked, "the sibling's revocation survives the merge");
    // The pre-merge snapshot: primary, then both siblings.
    assert_eq!(audit.conflicting_docs.len(), 3);
    assert_eq!(audit.conflicting_docs[0]._rev, "3-a");
    assert_eq!(audit.conflicting_docs[1]._rev, "3-b");
    assert_eq!(audit.conflicting_docs[2]._rev, "3-c");
    // A clean batch returns the merged winner.
    match flow.on_write_results(&vec![
        WriteStatus::Applied,
        WriteStatus::Applied,
        WriteStatus::Applied,
    ]) {
        GetDirective::Finish { result: Some(w) } => {
            assert_eq!(w._rev, "3-a");
            assert!(w.certify.contains(&"carol".to_string()));
        }
        _ => panic!("a clean batch must finish with the winner"),
    }
}

#[test]
fn get_retries_on_conflict_and_ignores_benign_not_found() {
    let mut flow: GetFlow<MajorityToken> =
        GetFlow::new("majority_token".to_owned(), "tok".to_owned(), 8);
    flow.start();
    let mut doc = token("tok", "3-a", &["alice"], false, 100);
    doc._conflicts.push(token("tok", "3-b", &["bob"], false, 90));
    match flow.on_read(Some(doc), 1) {
        GetDirective::WriteResolution { .. } => {}
        _ => panic!("expected a batch write"),
    }
    // A not-found on a tombstone write is benign; a conflict forces a
    // retry from a fresh read.
    match flow.on_write_results(&vec![
        WriteStatus::NotFound("already gone".to_owned()),
        WriteStatus::VersionConflict,
    ]) {
        GetDirective::Read { id } => assert_eq!(id, "tok"),
        _ => panic!("a conflicted batch must re-read"),
    }
    // The retried read finds the document already clean.
    let clean = token("tok", "4-d", &["alice", "bob"], false, 100);
    match flow.on_read(Some(clean), 2) {
        GetDirective::Finish { result: Some(d) } => assert_eq!(d._rev, "4-d"),
        _ => panic!("the retry must finish cleanly"),
    }
}

#[test]
fn get_batch_with_only_not_found_finishes() {
    let mut flow: GetFlow<MajorityToken> =
        GetFlow::new("majority_token".to_owned(), "tok".to_owned(), 8);
    flow.start();
    let mut doc = token("tok", "3-a", &[], false, 100);
    doc._conflicts.push(token("tok", "3-b", &[], false, 90));
    match flow.on_read(Some(doc), 1) {
        GetDirective::WriteResolution { .. } => {}
        _ => panic!("expected a batch write"),
    }
    match flow.on_write_results(&vec![
        WriteStatus::NotFound("gone".to_owned()),
        WriteStatus::Applied,
    ]) {
        GetDirective::Finish { result: Some(_) } => {}
        _ => panic!("not-found alone is benign"),
    }
}

#[test]
fn get_fatal_batch_statuses_abort() {
    let mut flow: GetFlow<MajorityToken> =
        GetFlow::new("majority_token".to_owned(), "tok".to_owned(), 8);
    flow.start();
    let mut doc = token("tok", "3-a", &[], false, 100);
    doc._conflicts.push(token("tok", "3-b", &[], false, 90));
    match flow.on_read(Some(doc), 1) {
        GetDirective::WriteResolution { .. } => {}
        _ => panic!("expected a batch write"),
    }
    match flow.on_write_results(&vec![WriteStatus::Other("io error".to_owned())]) {
        GetDirective::Abort { error } => {
            assert_eq!(error.detail(), "io error");
            assert_eq!(
                error.end_user_error_message(),
                "there has been an internal database error"
            );
        }
        _ => panic!("an unexpected status must abort the get"),
    }
}

#[test]
fn bulk_reads_split_into_resolved_and_pending() {
    let clean_a = token("a", "1-a", &[], false, 1);
    let mut conflicted = token("b", "1-b", &[], false, 1);
    conflicted._conflicts.push(token("b", "1-c", &[], false, 1));
    let clean_c = token("c", "1-d", &[], false, 1);
    let (resolved, pending) = split_resolved(vec![clean_a, conflicted, clean_c]);
    assert_eq!(resolved.len(), 2);
    assert_eq!(resolved[0]._id, "a");
    assert_eq!(resolved[1]._id, "c");
    assert_eq!(pending, vec!["b".to_string()]);
}

#[test]
fn error_messages_have_a_user_facing_and_a_detailed_side() {
    let e = HackClientError::InternalDBError("connection reset".to_owned());
    assert_eq!(e.end_user_error_message(), "there has been an internal database error");
    assert_eq!(e.detail(), "connection reset");
    let e = HackClientError::ResolutionExhausted;
    assert_eq!(e.end_user_error_message(), "the database is too contended, please retry later");
    assert_eq!(e.detail(), "resolution attempts exhausted");
}
