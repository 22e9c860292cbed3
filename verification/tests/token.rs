use hackstore::field_with_time::FieldWithTime;
use hackstore::mergeable::Mergeable;
use hackstore::model::{
    token_add_certified, token_certifies, token_validity, MajorityToken, MajorityTokenAdminFlags,
};

fn token(
    id: &str,
    rev: &str,
    certify: &[&str],
    flags: MajorityTokenAdminFlags,
    flags_set_at: u64,
    latest: u64,
) -> MajorityToken {
    MajorityToken {
        _id: id.to_owned(),
        _rev: rev.to_owned(),
        _deleted: None,
        certify: certify.iter().map(|s| s.to_string()).collect(),
        admin_flags: FieldWithTime { value: flags, timestamp_set: flags_set_at },
        latest_certification_timestamp: latest,
        _conflicts: Vec::new(),
    }
}

fn flags(can_certify: bool, need_certification: bool, revoked: bool) -> MajorityTokenAdminFlags {
    MajorityTokenAdminFlags { can_certify, need_certification, revoked }
}

#[test]
fn merge_is_idempotent() {
    let mut a = token("tok", "1-a", &["alice", "bob"], flags(true, false, false), 100, 50);
    let b = token("tok", "1-a", &["alice", "bob"], flags(true, false, false), 100, 50);
    a.merge(&b);
    assert_eq!(a.certify, vec!["alice".to_string(), "bob".to_string()]);
    assert_eq!(a.admin_flags.value, flags(true, false, false));
    assert_eq!(a.admin_flags.timestamp_set, 100);
    assert_eq!(a.latest_certification_timestamp, 50);
    assert_eq!(a._rev, "1-a");
    assert_eq!(a._deleted, None);
}

#[test]
fn merge_follows_the_domain_precedence() {
    // The primary has the newer flags (timestamp 100, not revoked) and has
    // certified alice; a concurrent sibling (timestamp 90) is revoked and
    // has certified bob.
    let mut primary = token("tok", "2-a", &["alice"], flags(true, false, false), 100, 40);
    let sibling = token("tok", "2-b", &["bob"], flags(false, true, true), 90, 60);
    primary.merge(&sibling);

    // The certified set is the union.
    assert_eq!(primary.certify, vec!["alice".to_string(), "bob".to_string()]);
    // The flags value follows last-writer-wins (timestamp 100)...
    assert!(primary.admin_flags.value.can_certify);
    assert!(!primary.admin_flags.value.need_certification);
    assert_eq!(primary.admin_flags.timestamp_set, 100);
    // ...except revoked, which is OR-merged.
    assert!(primary.admin_flags.value.revoked);
    // The latest certification time is the maximum of both sides.
    assert_eq!(primary.latest_certification_timestamp, 60);
    // Identity fields stay with the merge target.
    assert_eq!(primary._id, "tok");
    assert_eq!(primary._rev, "2-a");
}

#[test]
fn merge_is_commutative_on_commutative_fields() {
    let a = token("tok", "2-a", &["alice"], flags(true, false, false), 100, 40);
    let b = token("tok", "2-b", &["bob"], flags(false, true, true), 90, 60);

    let mut ab = token("tok", "2-a", &["alice"], flags(true, false, false), 100, 40);
    ab.merge(&b);
    let mut ba = token("tok", "2-b", &["bob"], flags(false, true, true), 90, 60);
    ba.merge(&a);

    let mut ab_certify = ab.certify.clone();
    let mut ba_certify = ba.certify.clone();
    ab_certify.sort();
    ba_certify.sort();
    assert_eq!(ab_certify, ba_certify);
    assert_eq!(ab.admin_flags.value.revoked, ba.admin_flags.value.revoked);
    assert_eq!(ab.latest_certification_timestamp, ba.latest_certification_timestamp);
    assert_eq!(ab.admin_flags.value, ba.admin_flags.value);
}

#[test]
fn tombstoning_touches_only_the_flag() {
    let mut t = token("tok", "3-x", &["alice"], flags(true, false, false), 10, 5);
    t.mark_as_deleted();
    assert_eq!(t._deleted, Some(true));
    assert_eq!(t._id, "tok");
    assert_eq!(t._rev, "3-x");
    assert_eq!(t.certify, vec!["alice".to_string()]);
}

#[test]
fn take_conflicts_drains_the_list() {
    let mut t = token("tok", "4-x", &[], flags(true, false, false), 10, 5);
    t._conflicts.push(token("tok", "4-y", &["bob"], flags(true, false, false), 9, 5));
    let conflicts = t.take_conflicts();
    assert_eq!(conflicts.len(), 1);
    assert_eq!(conflicts[0]._rev, "4-y");
    assert!(t._conflicts.is_empty());
}

#[test]
fn certification_helpers() {
    let mut t = token("tok", "1-x", &["alice"], flags(true, false, false), 10, 5);
    assert!(token_certifies(&t, "alice"));
    assert!(!token_certifies(&t, "bob"));
    token_add_certified(&mut t, "bob".to_owned());
    assert!(token_certifies(&t, "bob"));
    token_add_certified(&mut t, "bob".to_owned());
    assert_eq!(t.certify.len(), 2);
}

#[test]
fn validity_follows_revocation_and_certification_rights() {
    let ok = token("tok", "1", &[], flags(true, false, false), 10, 5);
    assert_eq!(token_validity(&ok), (true, true));
    let plain = token("tok", "1", &[], flags(false, true, false), 10, 5);
    assert_eq!(token_validity(&plain), (true, false));
    let revoked = token("tok", "1", &[], flags(true, false, true), 10, 5);
    assert_eq!(token_validity(&revoked), (false, false));
}
