//! End-to-end behavior of the namespace engine.

use walrusfs::WalrusFs;
use walrusfs::WalrusFsError;

fn mkfs() -> WalrusFs {
    WalrusFs::initialize_walrusfs()
}

fn tags(v: &[&str]) -> Vec<String> {
    v.iter().map(|s| s.to_string()).collect()
}

fn add_file(fs: &mut WalrusFs, path: &str, size: u64, blob: &str, overwrite: bool) -> Result<(), WalrusFsError> {
    fs.add_file(path, Vec::new(), size, blob.to_string(), 7, overwrite, 1_000)
}

fn add_dir(fs: &mut WalrusFs, path: &str) -> Result<(), WalrusFsError> {
    fs.add_dir(path, Vec::new(), 1_000)
}

#[test]
fn round_trip_create_stat_list() {
    let mut fs = mkfs();
    add_dir(&mut fs, "/a").unwrap();
    add_file(&mut fs, "/a/b.txt", 42, "blobref", false).unwrap();

    let st = fs.stat("/a/b.txt").unwrap();
    assert_eq!(st.name, "b.txt");
    assert!(!st.is_dir);
    assert_eq!(st.size, 42);
    assert_eq!(st.walrus_blob_id, "blobref");
    assert_eq!(st.walrus_epoch_till, 7);
    assert_eq!(st.create_ts, 1_000);

    let listing = fs.list_dir("/a/").unwrap();
    assert_eq!(listing.len(), 1);
    assert_eq!(listing[0].name, "b.txt");
    assert!(!listing[0].is_dir);
}

#[test]
fn overwrite_semantics() {
    let mut fs = mkfs();
    add_dir(&mut fs, "/d").unwrap();
    add_file(&mut fs, "/d/x", 1, "one", false).unwrap();
    let first = fs.get_dir_all("/d").unwrap();
    assert_eq!(first.files.len(), 1);
    let first_id = first.files[0].id;

    assert_eq!(add_file(&mut fs, "/d/x", 2, "two", false), Err(WalrusFsError::FileAlreadyExists));
    let unchanged = fs.get_dir_all("/d").unwrap();
    assert_eq!(unchanged.files.len(), 1);
    assert_eq!(unchanged.files[0].id, first_id);
    assert_eq!(unchanged.files[0].obj.size, 1);

    add_file(&mut fs, "/d/x", 2, "two", true).unwrap();
    let replaced = fs.get_dir_all("/d").unwrap();
    assert_eq!(replaced.files.len(), 1);
    assert_ne!(replaced.files[0].id, first_id);
    assert_eq!(replaced.files[0].obj.size, 2);
    assert_eq!(replaced.files[0].obj.walrus_blob_id, "two");
}

#[test]
fn cross_directory_rename_rejected() {
    let mut fs = mkfs();
    add_dir(&mut fs, "/a").unwrap();
    add_dir(&mut fs, "/b").unwrap();
    add_file(&mut fs, "/a/f", 3, "c", false).unwrap();
    assert_eq!(fs.rename_file("/a/f", "/b/f"), Err(WalrusFsError::RenamePathMismatch));
    let st = fs.stat("/a/f").unwrap();
    assert_eq!(st.name, "f");
    assert_eq!(st.size, 3);
}

#[test]
fn recursive_export() {
    let mut fs = mkfs();
    add_dir(&mut fs, "/a").unwrap();
    add_dir(&mut fs, "/a/b").unwrap();
    add_dir(&mut fs, "/a/b/c").unwrap();
    add_file(&mut fs, "/a/b/c/leaf.bin", 9, "deep", false).unwrap();

    let out = fs.get_dir_all("/a").unwrap();
    assert_eq!(out.dirs.len(), 3);
    assert_eq!(out.files.len(), 1);
    assert_eq!(out.files[0].obj.walrus_blob_id, "deep");
    assert_eq!(out.dirs[0].id, out.dirobj);
    let c_entry = out
        .dirs
        .iter()
        .find(|d| d.children_file_names.iter().any(|n| n == "leaf.bin"))
        .expect("some exported directory holds the file");
    assert_eq!(c_entry.children_file_ids, vec![out.files[0].id]);
    let b_entry = out
        .dirs
        .iter()
        .find(|d| d.children_directory_names.iter().any(|n| n == "c"))
        .expect("some exported directory holds c");
    assert_eq!(b_entry.children_directory_ids, vec![c_entry.id]);
}

#[test]
fn created_ids_are_unique_and_monotonic() {
    let mut fs = mkfs();
    add_dir(&mut fs, "/a").unwrap();
    let after_dir = fs.obj_id_counter;
    add_file(&mut fs, "/a/one", 1, "r1", false).unwrap();
    add_file(&mut fs, "/a/two", 2, "r2", false).unwrap();
    add_dir(&mut fs, "/a/sub").unwrap();
    assert!(fs.obj_id_counter > after_dir);
    assert_eq!(fs.obj_id_counter, 4);

    let out = fs.get_dir_all("/a").unwrap();
    let mut ids: Vec<u64> = out.files.iter().map(|f| f.id).collect();
    ids.extend(out.dirs.iter().map(|d| d.id));
    let n = ids.len();
    ids.sort();
    ids.dedup();
    assert_eq!(ids.len(), n);
    assert!(ids.iter().all(|&id| id >= 1 && id <= fs.obj_id_counter));
}

#[test]
fn rename_keeps_id_and_record() {
    let mut fs = mkfs();
    add_dir(&mut fs, "/a").unwrap();
    add_file(&mut fs, "/a/f", 7, "keep", false).unwrap();
    let before = fs.get_dir_all("/a").unwrap();
    let id_before = before.files[0].id;
    let counter_before = fs.obj_id_counter;

    fs.rename_file("/a/f", "/a/g").unwrap();

    assert_eq!(fs.stat("/a/f").unwrap_err(), WalrusFsError::PathNotFound);
    let st = fs.stat("/a/g").unwrap();
    assert_eq!(st.size, 7);
    assert_eq!(st.walrus_blob_id, "keep");
    assert_eq!(st.create_ts, 1_000);
    let after = fs.get_dir_all("/a").unwrap();
    assert_eq!(after.files[0].id, id_before);
    assert_eq!(fs.obj_id_counter, counter_before);
}

#[test]
fn rename_dir_keeps_children() {
    let mut fs = mkfs();
    add_dir(&mut fs, "/a").unwrap();
    add_file(&mut fs, "/a/f", 5, "x", false).unwrap();
    fs.rename_dir("/a", "/z").unwrap();
    assert_eq!(fs.stat("/a").unwrap_err(), WalrusFsError::PathNotFound);
    let st = fs.stat("/z/f").unwrap();
    assert_eq!(st.size, 5);
}

#[test]
fn delete_cascade_completeness() {
    let mut fs = mkfs();
    add_dir(&mut fs, "/a").unwrap();
    add_dir(&mut fs, "/a/b").unwrap();
    add_file(&mut fs, "/a/b/f1", 1, "r1", false).unwrap();
    add_file(&mut fs, "/a/f2", 2, "r2", false).unwrap();
    add_dir(&mut fs, "/keep").unwrap();
    add_file(&mut fs, "/keep/f3", 3, "r3", false).unwrap();

    fs.delete_dir("/a").unwrap();

    assert_eq!(fs.stat("/a").unwrap_err(), WalrusFsError::PathNotFound);
    assert_eq!(fs.stat("/a/b").unwrap_err(), WalrusFsError::PathNotFound);
    assert_eq!(fs.stat("/a/b/f1").unwrap_err(), WalrusFsError::PathNotFound);
    // Only the untouched subtree's records remain in the arenas.
    assert_eq!(fs.dir_arena.len(), 1);
    assert_eq!(fs.file_arena.len(), 1);
    let st = fs.stat("/keep/f3").unwrap();
    assert_eq!(st.size, 3);
}

#[test]
fn failed_operations_change_nothing() {
    let mut fs = mkfs();
    add_dir(&mut fs, "/a").unwrap();
    add_file(&mut fs, "/a/f", 1, "r", false).unwrap();
    let counter = fs.obj_id_counter;
    let snapshot = fs.get_dir_all("/a").unwrap();

    assert!(add_dir(&mut fs, "/a").is_err());
    assert!(add_file(&mut fs, "/a/f", 9, "other", false).is_err());
    assert!(fs.rename_file("/a/f", "/a/f").is_err());
    assert!(fs.delete_file("/a/nope").is_err());
    assert!(fs.delete_dir("/a/nope").is_err());
    assert!(fs.stat("/bad//path").is_err());

    assert_eq!(fs.obj_id_counter, counter);
    let snapshot2 = fs.get_dir_all("/a").unwrap();
    assert_eq!(snapshot2.files.len(), snapshot.files.len());
    assert_eq!(snapshot2.dirs.len(), snapshot.dirs.len());
    assert_eq!(snapshot2.files[0].id, snapshot.files[0].id);
    assert_eq!(snapshot2.files[0].obj.size, snapshot.files[0].obj.size);
}

#[test]
fn path_validation_errors() {
    let mut fs = mkfs();
    assert_eq!(fs.stat("").unwrap_err(), WalrusFsError::PathError);
    assert_eq!(fs.stat("no-slash").unwrap_err(), WalrusFsError::PathError);
    assert_eq!(fs.stat("/a//b").unwrap_err(), WalrusFsError::PathError);
    let long = format!("/{}", "x".repeat(400));
    assert_eq!(add_dir(&mut fs, &long), Err(WalrusFsError::PathError));
}

#[test]
fn tag_and_string_bounds() {
    let mut fs = mkfs();
    let too_many = tags(&["a", "b", "c", "d", "e", "f"]);
    assert_eq!(fs.add_dir("/t", too_many, 0), Err(WalrusFsError::TooManyTags));

    let long_tag = tags(&[&"y".repeat(65)]);
    assert_eq!(fs.add_dir("/t", long_tag, 0), Err(WalrusFsError::StringTooLong));

    let long_blob = "z".repeat(65);
    assert_eq!(
        fs.add_file("/f", Vec::new(), 1, long_blob, 0, false, 0),
        Err(WalrusFsError::StringTooLong)
    );

    let five = tags(&["a", "b", "c", "d", "e"]);
    fs.add_dir("/ok", five.clone(), 0).unwrap();
    let st = fs.stat("/ok").unwrap();
    assert_eq!(st.tags, five);
}

#[test]
fn root_operations() {
    let mut fs = mkfs();
    assert_eq!(fs.stat("/").unwrap_err(), WalrusFsError::InvalidPathOperationOnRoot);
    assert_eq!(fs.delete_dir("/"), Err(WalrusFsError::InvalidPathOperationOnRoot));
    assert_eq!(fs.rename_dir("/", "/x"), Err(WalrusFsError::InvalidPathOperationOnRoot));

    assert_eq!(fs.list_dir("/").unwrap().len(), 0);
    add_dir(&mut fs, "/a").unwrap();
    add_file(&mut fs, "/rootfile", 1, "r", false).unwrap();
    let listing = fs.list_dir("/").unwrap();
    assert_eq!(listing.len(), 2);
    // Directories come first.
    assert!(listing[0].is_dir);
    assert_eq!(listing[0].name, "a");
    assert_eq!(listing[1].name, "rootfile");
}

#[test]
fn resolution_errors() {
    let mut fs = mkfs();
    assert_eq!(fs.stat("/nope").unwrap_err(), WalrusFsError::PathNotFound);
    assert_eq!(add_file(&mut fs, "/no/dir/f", 1, "r", false), Err(WalrusFsError::PathNotFound));
    assert_eq!(fs.list_dir("/missing/").unwrap_err(), WalrusFsError::PathNotFound);
    assert_eq!(fs.get_dir_all("/missing").unwrap_err(), WalrusFsError::PathNotFound);
    assert_eq!(fs.delete_file("/nope"), Err(WalrusFsError::PathNotFound));
}

#[test]
fn directory_already_exists() {
    let mut fs = mkfs();
    add_dir(&mut fs, "/a").unwrap();
    assert_eq!(add_dir(&mut fs, "/a"), Err(WalrusFsError::DirectoryAlreadyExists));
    assert_eq!(add_dir(&mut fs, "/a/"), Err(WalrusFsError::DirectoryAlreadyExists));
}

#[test]
fn rename_collision_errors() {
    let mut fs = mkfs();
    add_dir(&mut fs, "/a").unwrap();
    add_dir(&mut fs, "/b").unwrap();
    add_file(&mut fs, "/a/f", 1, "r", false).unwrap();
    add_file(&mut fs, "/a/g", 2, "r", false).unwrap();
    assert_eq!(fs.rename_file("/a/f", "/a/g"), Err(WalrusFsError::FileAlreadyExists));
    assert_eq!(fs.rename_file("/a/zz", "/a/ww"), Err(WalrusFsError::PathNotFound));
    assert_eq!(fs.rename_dir("/a", "/b"), Err(WalrusFsError::DirectoryAlreadyExists));
    assert_eq!(fs.rename_dir("/c", "/d"), Err(WalrusFsError::PathNotFound));
}

#[test]
fn trailing_slash_handling() {
    let mut fs = mkfs();
    add_dir(&mut fs, "/a/").unwrap();
    let st = fs.stat("/a/").unwrap();
    assert!(st.is_dir);
    // A point operation strips one trailing separator, so this names "f".
    add_file(&mut fs, "/a/f/", 1, "r", false).unwrap();
    assert_eq!(fs.stat("/a/f").unwrap().size, 1);
}

#[test]
fn file_checked_before_directory_in_stat() {
    let mut fs = mkfs();
    add_dir(&mut fs, "/same").unwrap();
    fs.add_file("/same", Vec::new(), 11, "fileside".to_string(), 0, false, 0).unwrap();
    let st = fs.stat("/same").unwrap();
    assert!(!st.is_dir);
    assert_eq!(st.size, 11);
    let listing = fs.list_dir("/").unwrap();
    assert_eq!(listing.len(), 2);
}

#[test]
fn delete_file_then_gone() {
    let mut fs = mkfs();
    add_file(&mut fs, "/f", 1, "r", false).unwrap();
    fs.delete_file("/f").unwrap();
    assert_eq!(fs.stat("/f").unwrap_err(), WalrusFsError::PathNotFound);
    assert_eq!(fs.delete_file("/f"), Err(WalrusFsError::PathNotFound));
    assert_eq!(fs.file_arena.len(), 0);
}

#[test]
fn directory_listing_fields_zeroed() {
    let mut fs = mkfs();
    fs.add_dir("/d", tags(&["t1"]), 123).unwrap();
    let st = fs.stat("/d").unwrap();
    assert!(st.is_dir);
    assert_eq!(st.size, 0);
    assert_eq!(st.walrus_blob_id, "");
    assert_eq!(st.walrus_epoch_till, 0);
    assert_eq!(st.create_ts, 123);
    assert_eq!(st.tags, tags(&["t1"]));
}

#[test]
fn update_epoch_sets_field() {
    let mut fs = mkfs();
    assert_eq!(fs.current_epoch, 0);
    fs.update_epoch(99);
    assert_eq!(fs.current_epoch, 99);
}

#[test]
fn empty_directory_exports_itself() {
    let mut fs = mkfs();
    add_dir(&mut fs, "/solo").unwrap();
    let out = fs.get_dir_all("/solo").unwrap();
    assert_eq!(out.dirs.len(), 1);
    assert_eq!(out.files.len(), 0);
    assert_eq!(out.dirs[0].id, out.dirobj);
    assert!(out.dirs[0].children_file_names.is_empty());
    assert!(out.dirs[0].children_directory_names.is_empty());
}

#[test]
fn children_snapshot_of_target_directory() {
    let mut fs = mkfs();
    add_dir(&mut fs, "/a").unwrap();
    add_dir(&mut fs, "/a/sub").unwrap();
    add_file(&mut fs, "/a/f", 1, "r", false).unwrap();
    let (files, dirs) = fs.internal_get_dir_children_refs("/a/").unwrap();
    assert_eq!(files.len(), 1);
    assert_eq!(files[0].key, "f");
    assert_eq!(dirs.len(), 1);
    assert_eq!(dirs[0].key, "sub");
    let (rfiles, rdirs) = fs.internal_get_dir_children_refs("/").unwrap();
    assert_eq!(rfiles.len(), 0);
    assert_eq!(rdirs.len(), 1);
    assert_eq!(rdirs[0].key, "a");
}

#[test]
fn string_length_boundary() {
    let mut fs = mkfs();
    // Exactly at the byte bound is accepted; one byte over is not.
    let blob64 = "b".repeat(64);
    fs.add_file("/ok", Vec::new(), 1, blob64.clone(), 0, false, 0).unwrap();
    assert_eq!(fs.stat("/ok").unwrap().walrus_blob_id, blob64);
    let blob65 = "b".repeat(65);
    assert_eq!(
        fs.add_file("/no", Vec::new(), 1, blob65, 0, false, 0),
        Err(WalrusFsError::StringTooLong)
    );
    // A multi-byte character counts by its encoded size.
    let wide = "é".repeat(33);
    assert_eq!(wide.len(), 66);
    assert_eq!(
        fs.add_file("/no", Vec::new(), 1, wide, 0, false, 0),
        Err(WalrusFsError::StringTooLong)
    );
}
