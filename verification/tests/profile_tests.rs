use layer_ui::profiles::{
    check_library_profile, import_identity, import_quota, profile_identity, profile_inventory,
    removal_target, unavailable_name, valid_profile_id, ProfileError, ProfileRecord,
    PROFILE_LIBRARY_BYTES, PROFILE_READ_LIMIT,
};

fn record(id: String, bytes: u64) -> ProfileRecord {
    ProfileRecord { id, bytes, issue: None }
}

fn numbered(i: u64) -> String {
    format!("{i:064x}")
}

const QUOTA: &str = "The profile library limit is 128 profiles and 64 MiB; remove unused profiles";

#[test]
fn import_deduplicates_accounts_all_entries_and_preserves_exact_owned_bytes() {
    let bytes = b"an ICC profile body".to_vec();
    let id = import_identity(&bytes).unwrap();
    assert_eq!(id, profile_identity(&bytes));
    let own = record(id.clone(), bytes.len() as u64);
    assert_eq!(import_quota(&vec![own.clone()], &id, bytes.len()), Ok(()));
    assert_eq!(check_library_profile(&id, b"corrupt"), Err(ProfileError::Changed));
    let records: Vec<_> = (0..128).map(|i| record(numbered(i), 1)).collect();
    assert_eq!(import_quota(&records, &id, bytes.len()), Err(ProfileError::LibraryFull));
    let mut oversized = records.clone();
    oversized[0].bytes = PROFILE_LIBRARY_BYTES;
    assert_eq!(import_quota(&oversized, &id, bytes.len()), Err(ProfileError::LibraryFull));
    assert!(profile_inventory(oversized).last().unwrap().issue.is_some());
    let mut records = records;
    records.push(own.clone());
    assert_eq!(profile_inventory(records).len(), 129);
    assert_eq!(
        import_quota(&vec![ProfileRecord { bytes: PROFILE_LIBRARY_BYTES, ..own }], &id, bytes.len()),
        Ok(()),
        "repair replaces an existing corrupt entry"
    );
    assert_eq!(removal_target("../source.icc"), Err(ProfileError::NotImported));
    assert!(!valid_profile_id("original.icc"));
    assert_eq!(import_identity(&vec![0; PROFILE_READ_LIMIT + 1]).err(), Some(ProfileError::TooLarge));
}

#[test]
fn identities_are_lowercase_sha256() {
    assert_eq!(
        profile_identity(b""),
        "e3b0c44298fc1c149afbf4c8996fb92427ae41e4649b934ca495991b7852b855"
    );
    assert_eq!(
        profile_identity(b"abc"),
        "ba7816bf8f01cfea414140de5dae2223b00361a396177a9cb410ff61f20015ad"
    );
    assert!(valid_profile_id(&profile_identity(b"anything")));
}

#[test]
fn identity_validation() {
    assert!(valid_profile_id(&"0123456789abcdef".repeat(4)));
    assert!(!valid_profile_id(&"0123456789ABCDEF".repeat(4)));
    assert!(!valid_profile_id(&"a".repeat(63)));
    assert!(!valid_profile_id(&"a".repeat(65)));
    assert!(!valid_profile_id(&format!("{}g", "a".repeat(63))));
    assert!(!valid_profile_id(&format!("{}é", "a".repeat(63))));
    assert_eq!(removal_target(&numbered(3)), Ok(()));
}

#[test]
fn stored_profiles_are_checked_before_use() {
    let bytes = b"stored".to_vec();
    let id = profile_identity(&bytes);
    assert_eq!(check_library_profile(&id, &bytes), Ok(()));
    assert_eq!(check_library_profile("original.icc", &bytes), Err(ProfileError::NotImported));
    assert_eq!(check_library_profile(&id, &vec![0; PROFILE_READ_LIMIT + 1]), Err(ProfileError::TooLarge));
    assert_eq!(check_library_profile(&numbered(1), &bytes), Err(ProfileError::Changed));
    assert_eq!(ProfileError::Changed.message(), "Profile changed in storage; remove or reimport it");
    assert_eq!(ProfileError::LibraryFull.message(), "The profile library limit is 128 profiles and 64 MiB");
    assert_eq!(ProfileError::NotImported.message(), "Select an imported profile");
}

#[test]
fn inventory_sorts_deduplicates_and_drops_foreign_names() {
    let records = vec![
        record(numbered(3), 30),
        record("notes.txt".into(), 5),
        record(numbered(1), 10),
        record(numbered(3), 99),
        record(numbered(2), 20),
    ];
    let inventory = profile_inventory(records);
    let summary: Vec<(String, u64)> = inventory.iter().map(|r| (r.id.clone(), r.bytes)).collect();
    assert_eq!(
        summary,
        vec![(numbered(1), 10), (numbered(2), 20), (numbered(3), 30)],
        "the first listing of an identity is the one accounted"
    );
    assert!(inventory.iter().all(|r| r.issue.is_none()));
}

#[test]
fn inventory_issues_follow_quota_then_read_limit() {
    let big = PROFILE_READ_LIMIT as u64 + 1;
    let inventory = profile_inventory(vec![record(numbered(1), big), record(numbered(2), 1)]);
    assert_eq!(inventory[0].issue.as_deref(), Some("ICC profile exceeds 16 MiB"));
    assert_eq!(inventory[1].issue, None);
    let inventory = profile_inventory(vec![
        record(numbered(1), PROFILE_LIBRARY_BYTES),
        record(numbered(2), 1),
        record(numbered(3), u64::MAX),
    ]);
    assert_eq!(inventory[0].issue.as_deref(), Some("ICC profile exceeds 16 MiB"));
    assert_eq!(inventory[1].issue.as_deref(), Some(QUOTA));
    assert_eq!(inventory[2].issue.as_deref(), Some(QUOTA));
    let many: Vec<_> = (0..130).map(|i| record(numbered(i), 1)).collect();
    let inventory = profile_inventory(many);
    assert_eq!(inventory.len(), 130);
    assert!(inventory[127].issue.is_none());
    assert_eq!(inventory[128].issue.as_deref(), Some(QUOTA));
    assert_eq!(inventory[129].issue.as_deref(), Some(QUOTA));
}

#[test]
fn quota_counts_other_identities_once() {
    let own = numbered(500);
    let records: Vec<_> = (0..127).map(|i| record(numbered(i), 1)).collect();
    assert_eq!(import_quota(&records, &own, 10), Ok(()));
    let mut duplicated = records.clone();
    duplicated.push(record(numbered(0), 1));
    duplicated.push(record("junk".into(), 1));
    assert_eq!(import_quota(&duplicated, &own, 10), Ok(()));
    assert_eq!(import_quota(&records, &own, PROFILE_LIBRARY_BYTES as usize), Err(ProfileError::LibraryFull));
    assert_eq!(import_quota(&records, &own, PROFILE_LIBRARY_BYTES as usize - 127), Ok(()));
}

#[test]
fn unreadable_entries_are_named_by_their_identity() {
    assert_eq!(unavailable_name(&numbered(255)), "Unavailable profile 000000000000");
    assert_eq!(unavailable_name("abc"), "Unavailable profile abc");
}

#[test]
fn accounting_an_inventory_again_changes_nothing() {
    let mut records: Vec<_> = (0..130).map(|i| record(numbered(129 - i), 1 + i)).collect();
    records.push(record(numbered(5), 7));
    records.push(record("x".into(), 1));
    records[3].bytes = PROFILE_LIBRARY_BYTES;
    let once = profile_inventory(records);
    let twice = profile_inventory(once.clone());
    let view = |v: &Vec<ProfileRecord>| v.iter().map(|r| (r.id.clone(), r.bytes, r.issue.clone())).collect::<Vec<_>>();
    assert_eq!(view(&twice), view(&once));
    assert_eq!(once.len(), 130);
}
