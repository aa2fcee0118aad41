use sedx::backup_manager::{
    backup_id, gz_name, ids_older_than, is_large_backup, metadata_backup_path, path_identity, prune_count, prune_ids, BackupManager,
    BackupSummary, MAX_BACKUPS,
};

fn summary(id: &str, timestamp_ns: i128) -> BackupSummary {
    BackupSummary { id: id.to_string(), timestamp_ns }
}

#[test]
fn test_get_last_backup_id_no_backups() {
    let last_id = BackupManager::get_last_backup_id(&Vec::new());
    assert!(last_id.is_none(), "Should return None when no backups exist");
}

#[test]
fn test_get_last_backup_id_single_backup() {
    let backups = vec![summary("20240201-120000123-abc12345", 1_706_788_800_123_000_000)];
    let last_id = BackupManager::get_last_backup_id(&backups);
    assert_eq!(last_id.as_deref(), Some("20240201-120000123-abc12345"));
}

#[test]
fn last_backup_is_the_latest_in_any_listing_order() {
    let backups = vec![summary("b", 200), summary("c", 300), summary("a", 100)];
    assert_eq!(BackupManager::get_last_backup_id(&backups).as_deref(), Some("c"));
}

#[test]
fn last_backup_among_equal_times_is_the_one_listed_last() {
    let backups = vec![summary("x", 5), summary("y", 5), summary("z", 4)];
    assert_eq!(BackupManager::get_last_backup_id(&backups).as_deref(), Some("y"));
}

#[test]
fn test_backups_dir_returns_correct_path() {
    let manager = BackupManager::with_directory_path("/home/user/.sedx/backups".to_string());
    let returned_path = manager.backups_dir();
    assert!(returned_path.ends_with("backups"), "Returned path should end with 'backups'");
    assert_eq!(returned_path, "/home/user/.sedx/backups");
}

#[test]
fn test_prune_backups_keep_all() {
    assert_eq!(prune_count(0, 10), 0, "Should remove 0 backups when fewer than keep count");
    assert_eq!(prune_count(10, 10), 0);
}

#[test]
fn prune_removes_the_oldest_beyond_the_limit() {
    assert_eq!(prune_count(5, 3), 2);
    assert_eq!(prune_count(MAX_BACKUPS + 7, MAX_BACKUPS), 7);
}

#[test]
fn test_backup_id_format() {
    let id = backup_id("20240201-120000123", "abc12345-6789-4abc-9def-0123456789ab");
    assert_eq!(id, "20240201-120000123-abc12345");
    assert!(id.len() >= 20, "Backup ID should be at least 20 characters");
    let parts: Vec<&str> = id.split('-').collect();
    assert_eq!(parts[0].len(), 8, "First part should be 8 digits (date)");
    assert!(parts[1].len() >= 9, "Second part should be time with milliseconds");
    assert_eq!(parts[2].len(), 8, "Third part should be 8 UUID characters");
}

#[test]
fn path_identity_is_fnv1a_in_hex() {
    assert_eq!(path_identity("/tmp/a.txt"), "path-v1-424f3fb4184d0b01");
    assert_eq!(path_identity(""), "path-v1-cbf29ce484222325");
    assert_eq!(path_identity("/tmp/b.txt").len(), 24);
    assert_ne!(path_identity("/tmp/a.txt"), path_identity("/tmp/b.txt"));
}

#[test]
fn compressed_copy_keeps_the_extension() {
    assert_eq!(gz_name("/backups/path-v1-0000000000000000"), "/backups/path-v1-0000000000000000.gz");
    assert_eq!(gz_name("file.txt"), "file.txt.gz");
}

#[test]
fn large_backups_start_above_two_gibibytes() {
    let two_gib: u64 = 2 * 1024 * 1024 * 1024;
    assert!(!is_large_backup(two_gib));
    assert!(is_large_backup(two_gib + 1));
    assert!(!is_large_backup(0));
}

#[test]
fn backup_copy_is_named_by_identity_inside_the_directory() {
    let id = sedx::backup_manager::path_identity("notes/file.txt");
    assert_eq!(
        sedx::backup_manager::backup_path_for_original("/b/dir", "notes/file.txt"),
        format!("/b/dir/{}.gz", id)
    );
}

#[test]
fn metadata_backup_paths_stay_in_the_backup_directory() {
    assert_eq!(metadata_backup_path("/b/dir", "x.gz"), Ok("/b/dir/x.gz".to_string()));
    assert_eq!(metadata_backup_path("/b/dir", "/b/dir/x.gz"), Ok("/b/dir/x.gz".to_string()));
    assert_eq!(metadata_backup_path("b/dir", "b/dir/x.gz"), Ok("b/dir/x.gz".to_string()));
    assert_eq!(
        metadata_backup_path("/b/dir", "/etc/x.gz"),
        Err("backup metadata path validation failed for '/etc/x.gz': backup path is outside backup directory".to_string())
    );
    assert_eq!(
        metadata_backup_path("/b/dir", "/b/directory/x.gz"),
        Err("backup metadata path validation failed for '/b/directory/x.gz': backup path is outside backup directory"
            .to_string())
    );
    assert_eq!(
        metadata_backup_path("/b/dir", "../x.gz"),
        Err("backup metadata path validation failed for '../x.gz': parent traversal is not allowed".to_string())
    );
}

#[test]
fn backups_made_before_the_cutoff_are_pruned_by_age() {
    let backups = vec![summary("a", 100), summary("b", 500), summary("c", 99), summary("d", 200)];
    assert_eq!(ids_older_than(&backups, 200), vec!["a".to_string(), "c".to_string()]);
    assert!(ids_older_than(&backups, 0).is_empty());
    assert!(ids_older_than(&Vec::new(), 1000).is_empty());
}

#[test]
fn restore_entries_must_match_their_original_path() {
    let id = path_identity("/home/u/a.txt");
    let stored = sedx::backup_manager::backup_path_for_original("/b/dir", "/home/u/a.txt");
    assert_eq!(
        sedx::backup_manager::check_restore_entry("/b/dir", "/home/u/a.txt", &stored, &Some(id.clone())),
        Ok(stored.clone())
    );
    assert_eq!(
        sedx::backup_manager::check_restore_entry("/b/dir", "/home/u/a.txt", &stored, &None),
        Err("backup metadata path validation failed for '/home/u/a.txt': missing path identity".to_string())
    );
    assert_eq!(
        sedx::backup_manager::check_restore_entry("/b/dir", "/home/u/b.txt", &stored, &Some(id)),
        Err("backup metadata path validation failed for '/home/u/b.txt': backup entry does not match original path"
            .to_string())
    );
    assert!(sedx::backup_manager::check_restore_entry("/b/dir", "/home/u/a.txt", "/etc/x.gz", &None).is_err());
}

#[test]
fn history_orders_by_time_then_id_then_listing() {
    let backups = vec![
        summary("c", 30),
        summary("b", 10),
        summary("a", 10),
        summary("d", 20),
        summary("a", 10),
    ];
    assert_eq!(BackupManager::history_order(&backups), vec![2, 4, 1, 3, 0]);
    assert_eq!(BackupManager::history_order(&Vec::new()), Vec::<usize>::new());
}

#[test]
fn pruning_removes_the_oldest_beyond_keep() {
    let backups = vec![summary("new", 300), summary("old", 100), summary("mid", 200), summary("older", 50)];
    assert_eq!(prune_ids(&backups, 2), vec!["older".to_string(), "old".to_string()]);
    assert_eq!(prune_ids(&backups, 3), vec!["older".to_string()]);
    assert!(prune_ids(&backups, 4).is_empty());
    assert!(prune_ids(&backups, 10).is_empty());
    assert_eq!(prune_ids(&backups, 0).len(), 4);
}

#[test]
fn pruning_breaks_time_ties_by_id() {
    let backups = vec![summary("b-2", 7), summary("a-1", 7), summary("c-3", 9)];
    assert_eq!(prune_ids(&backups, 1), vec!["a-1".to_string(), "b-2".to_string()]);
    let prefixed = vec![summary("ab", 1), summary("a", 1)];
    assert_eq!(prune_ids(&prefixed, 1), vec!["a".to_string()]);
}
