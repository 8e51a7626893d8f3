use yubikey_nostr::catalog::{
    build_final_data, catalog_after_insert, delete_entry, display_ids, emptied_marker_bytes,
    entry_display_id, fits, get_blob_content, handle_space_management, is_blob_empty,
    list_entries, make_record, parse_blob_entries, read_blob_entry, read_blob_entry_by_index,
    sealed_of_record, select_entry, StoreError, CAPACITY,
};

fn b(s: &str) -> Vec<u8> {
    s.as_bytes().to_vec()
}

fn entries(list: &[&str]) -> Vec<Vec<u8>> {
    list.iter().map(|s| b(s)).collect()
}

#[test]
fn parse_splits_on_pipes_and_drops_empty_segments() {
    assert_eq!(parse_blob_entries(b"a:QQ==|b:Qg=="), entries(&["a:QQ==", "b:Qg=="]));
    assert_eq!(parse_blob_entries(b"||a||b|"), entries(&["a", "b"]));
    assert_eq!(parse_blob_entries(b""), Vec::<Vec<u8>>::new());
}

#[test]
fn parse_of_emptied_marker_lists_nothing() {
    assert_eq!(parse_blob_entries(b"RU1QVFk="), Vec::<Vec<u8>>::new());
}

#[test]
fn emptied_marker_is_base64_of_empty() {
    assert_eq!(emptied_marker_bytes(), b("RU1QVFk="));
}

#[test]
fn blank_blobs() {
    assert!(is_blob_empty(b""));
    assert!(is_blob_empty(b"RU1QVFk="));
    assert!(is_blob_empty(b"454d505459"));
    assert!(!is_blob_empty(b"a:QQ=="));
}

#[test]
fn blob_content_cases() {
    assert_eq!(get_blob_content(b""), Ok(None));
    assert_eq!(get_blob_content(b"RU1QVFk="), Ok(None));
    assert_eq!(get_blob_content(&[0xff, 0xfe]), Err(StoreError::NotUtf8));
    assert_eq!(get_blob_content(b"a:QQ=="), Ok(Some(b("a:QQ=="))));
}

#[test]
fn list_entries_of_never_written_and_emptied() {
    assert_eq!(list_entries(b""), Ok(Vec::new()));
    assert_eq!(list_entries(b"RU1QVFk="), Ok(Vec::new()));
    assert_eq!(list_entries(&[0xc3]), Err(StoreError::NotUtf8));
}

#[test]
fn select_entry_is_one_based() {
    let e = entries(&["x", "y"]);
    assert_eq!(select_entry(&e, 0), None);
    assert_eq!(select_entry(&e, 1), Some(&b("x")));
    assert_eq!(select_entry(&e, 2), Some(&b("y")));
    assert_eq!(select_entry(&e, 3), None);
}

#[test]
fn build_final_data_joins_with_pipes() {
    assert_eq!(build_final_data(Vec::new(), b("n:QQ==")), b("n:QQ=="));
    assert_eq!(build_final_data(entries(&["a", "b"]), b("c")), b("a|b|c"));
}

#[test]
fn display_ids_of_current_and_legacy_records() {
    assert_eq!(entry_display_id(b"alice:QUJD"), Some(b("alice")));
    assert_eq!(entry_display_id(b"QUJD"), None);
    assert_eq!(entry_display_id(b"a:b:c"), Some(b("a")));
    assert_eq!(
        display_ids(&entries(&["alice:QQ==", "legacy", "bob:Qg=="])),
        vec![Some(b("alice")), None, Some(b("bob"))]
    );
}

#[test]
fn make_record_encodes_in_base64() {
    assert_eq!(make_record(b"alice", b"ABC"), Ok(b("alice:QUJD")));
    assert_eq!(make_record(b"", b"ABC"), Err(StoreError::EmptyId));
}

#[test]
fn sealed_of_record_accepts_base64_and_legacy_hex() {
    assert_eq!(sealed_of_record(b"id:QUJD"), Ok(b("ABC")));
    assert_eq!(sealed_of_record(b"QUJD"), Ok(b("ABC")));
    assert_eq!(sealed_of_record(b"414243"), Ok(b("ABC")));
    assert_eq!(sealed_of_record(b"id:***"), Err(StoreError::BadEncoding));
    assert_eq!(sealed_of_record(b"zz"), Err(StoreError::BadEncoding));
}

#[test]
fn capacity_boundary_exactly_full_fits() {
    let existing = vec![vec![b'a'; 500]];
    // 500 + 1 + 523 == 1024 bytes once inserted.
    assert!(fits(&existing, &vec![b'b'; 523]));
    assert_eq!(build_final_data(existing.clone(), vec![b'b'; 523]).len(), CAPACITY);
    // One byte more would make 1025.
    assert!(!fits(&existing, &vec![b'b'; 524]));
}

#[test]
fn capacity_boundary_through_insert() {
    let blob = vec![b'a'; 500];
    let ok = catalog_after_insert(&blob, &vec![b'b'; 523], 0).unwrap();
    assert_eq!(ok.len(), 1024);
    assert_eq!(catalog_after_insert(&blob, &vec![b'b'; 524], 0), Err(StoreError::Cancelled));
}

#[test]
fn space_management_outcomes() {
    let big = vec![b'x'; 600];
    let existing = vec![big.clone(), vec![b'y'; 300]];
    let new_entry = vec![b'z'; 200];
    assert_eq!(
        handle_space_management(existing.clone(), &new_entry, 0),
        Err(StoreError::Cancelled)
    );
    assert_eq!(
        handle_space_management(existing.clone(), &new_entry, 3),
        Err(StoreError::InvalidChoice)
    );
    assert_eq!(
        handle_space_management(existing.clone(), &new_entry, 1),
        Ok(vec![vec![b'y'; 300]])
    );
    assert_eq!(
        handle_space_management(existing.clone(), &vec![b'z'; 800], 2),
        Err(StoreError::NoSpace)
    );
    let small = vec![b"a".to_vec()];
    assert_eq!(handle_space_management(small.clone(), b"b", 0), Ok(small));
}

#[test]
fn insert_then_list_shows_one_new_entry_at_the_end() {
    let blob = b("a:QQ==|b:Qg==");
    let out = catalog_after_insert(&blob, b"c:Qw==", 0).unwrap();
    assert_eq!(out, b("a:QQ==|b:Qg==|c:Qw=="));
    let listed = list_entries(&out).unwrap();
    assert_eq!(listed, entries(&["a:QQ==", "b:Qg==", "c:Qw=="]));
}

#[test]
fn insert_into_empty_device_then_read_back() {
    let record = make_record(b"alice", b"deadbeef").unwrap();
    let blob = catalog_after_insert(b"", &record, 0).unwrap();
    let listed = list_entries(&blob).unwrap();
    let ids = display_ids(&listed);
    assert_eq!(ids, vec![Some(b("alice"))]);
    assert_eq!(read_blob_entry_by_index(&blob, 0), Ok(b("deadbeef")));
    assert_eq!(read_blob_entry(&blob, b"alice"), Ok(b("deadbeef")));
}

#[test]
fn insert_into_emptied_catalog() {
    let blob = catalog_after_insert(b"RU1QVFk=", b"n:QQ==", 0).unwrap();
    assert_eq!(blob, b("n:QQ=="));
}

#[test]
fn eviction_removes_the_chosen_entry_and_appends() {
    let first = format!("one:{}", "A".repeat(400));
    let second = format!("two:{}", "B".repeat(400));
    let third = format!("three:{}", "C".repeat(300));
    let blob = format!("{}|{}", first, second).into_bytes();
    let listed = list_entries(&blob).unwrap();
    assert!(!fits(&listed, third.as_bytes()));
    assert_eq!(
        display_ids(&listed),
        vec![Some(b("one")), Some(b("two"))]
    );
    let out = catalog_after_insert(&blob, third.as_bytes(), 1).unwrap();
    let after = list_entries(&out).unwrap();
    assert_eq!(after.len(), 2);
    assert_eq!(after, vec![second.into_bytes(), third.into_bytes()]);
}

#[test]
fn insert_rejects_unreadable_blob() {
    assert_eq!(catalog_after_insert(&[0xff], b"a:QQ==", 0), Err(StoreError::NotUtf8));
}

#[test]
fn delete_last_entry_writes_emptied_marker() {
    let out = delete_entry(entries(&["a:QQ=="]), 1).unwrap();
    assert_eq!(out, b("RU1QVFk="));
    assert!(!out.is_empty());
    assert_eq!(list_entries(&out), Ok(Vec::new()));
    assert!(is_blob_empty(&out));
}

#[test]
fn delete_keeps_the_others_in_order() {
    let out = delete_entry(entries(&["a:QQ==", "b:Qg==", "c:Qw=="]), 2).unwrap();
    assert_eq!(out, b("a:QQ==|c:Qw=="));
    assert_eq!(delete_entry(entries(&["a:QQ=="]), 0), None);
    assert_eq!(delete_entry(entries(&["a:QQ=="]), 2), None);
}

#[test]
fn read_by_index_errors() {
    assert_eq!(read_blob_entry_by_index(b"", 0), Err(StoreError::EmptyBlob));
    assert_eq!(read_blob_entry_by_index(b"RU1QVFk=", 0), Err(StoreError::EmptyBlob));
    assert_eq!(read_blob_entry_by_index(b"a:QQ==", 1), Err(StoreError::InvalidIndex));
    assert_eq!(read_blob_entry_by_index(b"a:QQ==|b:Qg==", 1), Ok(b("B")));
    assert_eq!(read_blob_entry_by_index(&[0xff], 0), Err(StoreError::NotUtf8));
}

#[test]
fn read_by_id_cases() {
    assert_eq!(read_blob_entry(b"", b"a"), Err(StoreError::EmptyBlob));
    assert_eq!(read_blob_entry(b"|", b"a"), Err(StoreError::NoEntries));
    assert_eq!(read_blob_entry(b"a:QQ==|b:Qg==", b"c"), Err(StoreError::NotFound));
    assert_eq!(read_blob_entry(b"a:QQ==|b:Qg==", b"b"), Ok(b("B")));
    assert_eq!(read_blob_entry(b"a:QQ==|a:Qg==", b"a"), Ok(b("A")));
    assert_eq!(read_blob_entry(b"a:!!", b"a"), Err(StoreError::BadEncoding));
}
