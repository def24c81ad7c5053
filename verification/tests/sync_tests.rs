use ftp_deploy::deploy::{DeployCommand, FileMode, FileType, FileUpdate, FileUpdateType, FileWalk};
use ftp_deploy::hash::hash_bytes;
use ftp_deploy::tracking::{
    FileState, FilesTracking, TrackingFile, IGNORE_FILE_NAME, TRACKING_DIR,
};

fn command(force: bool, dry: bool, no_upload: bool) -> DeployCommand {
    DeployCommand {
        path: None,
        jobs: None,
        force,
        dry,
        no_upload,
        debug: false,
    }
}

#[test]
fn hash_of_known_bytes() {
    let h = hash_bytes(&b"hi".to_vec());
    assert_eq!(h, "8f434346648f6b96df89dda901c5176b10a6d83961dd3c1ac88b59b2dc327aa4");
    assert_eq!(h.len(), 64);
}

#[test]
fn hash_of_empty_bytes() {
    let h = hash_bytes(&Vec::new());
    assert_eq!(h, "e3b0c44298fc1c149afbf4c8996fb92427ae41e4649b934ca495991b7852b855");
}

#[test]
fn hashes_differ_for_different_content() {
    assert_ne!(hash_bytes(&b"hi".to_vec()), hash_bytes(&b"ho".to_vec()));
}

#[test]
fn state_eq_compares_hash_and_kind() {
    let a = FileState::File("aa".to_string());
    let b = FileState::File("aa".to_string());
    let c = FileState::File("bb".to_string());
    assert!(a.state_eq(&b));
    assert!(!a.state_eq(&c));
    assert!(!a.state_eq(&FileState::Directory));
    assert!(FileState::Directory.state_eq(&FileState::Directory));
}

#[test]
fn file_type_of_state() {
    assert_eq!(FileState::File("aa".to_string()).file_type(), FileType::File);
    assert_eq!(FileState::Directory.file_type(), FileType::Directory);
}

#[test]
fn get_verb_names_the_action() {
    assert_eq!(FileUpdateType::CreateOrUpdate.get_verb(), "create or update");
    assert_eq!(FileUpdateType::Delete.get_verb(), "delete");
}

#[test]
fn tracking_insert_and_get() {
    let mut t = FilesTracking::new();
    assert_eq!(t.len(), 0);
    t.insert("a.txt".to_string(), FileState::File("h1".to_string()));
    t.insert("d".to_string(), FileState::Directory);
    assert_eq!(t.len(), 2);
    assert_eq!(t.get(&"a.txt".to_string()), Some(&FileState::File("h1".to_string())));
    assert_eq!(t.get(&"d".to_string()), Some(&FileState::Directory));
    assert_eq!(t.get(&"missing".to_string()), None);
    t.insert("a.txt".to_string(), FileState::File("h2".to_string()));
    assert_eq!(t.len(), 2);
    assert_eq!(t.get(&"a.txt".to_string()), Some(&FileState::File("h2".to_string())));
}

#[test]
fn tracking_names_its_files() {
    assert_eq!(<FilesTracking as TrackingFile>::file_name(), "files.json");
    assert_eq!(IGNORE_FILE_NAME, ".ftpignore");
    assert_eq!(TRACKING_DIR, ".ftp");
}

#[test]
fn tracking_default_is_empty() {
    let t = FilesTracking::default();
    assert_eq!(t.len(), 0);
    assert!(t.pairs().is_empty());
}

#[test]
fn walk_seeds_every_entry_deleted() {
    let mut t = FilesTracking::new();
    t.insert("a.txt".to_string(), FileState::File("h1".to_string()));
    t.insert("d".to_string(), FileState::Directory);
    let w = FileWalk::from_tracking(&t);
    assert_eq!(w.count_mode(FileMode::Deleted), 2);
    assert_eq!(w.count_mode(FileMode::Created), 0);
    let pairs = w.mode_pairs();
    assert_eq!(pairs.len(), 2);
    assert!(pairs.iter().all(|(_, m)| *m == FileMode::Deleted));
}

#[test]
fn update_classifies_each_visit() {
    let mut t = FilesTracking::new();
    t.insert("same.txt".to_string(), FileState::File("h1".to_string()));
    t.insert("changed.txt".to_string(), FileState::File("h2".to_string()));
    let mut w = FileWalk::from_tracking(&t);
    w.update("same.txt".to_string(), FileState::File("h1".to_string()), false);
    w.update("changed.txt".to_string(), FileState::File("h3".to_string()), false);
    w.update("new.txt".to_string(), FileState::File("h4".to_string()), false);
    assert_eq!(w.count_mode(FileMode::Untouched), 1);
    assert_eq!(w.count_mode(FileMode::Updated), 1);
    assert_eq!(w.count_mode(FileMode::Created), 1);
    assert_eq!(w.count_mode(FileMode::Deleted), 0);
}

#[test]
fn update_with_force_marks_unchanged_as_updated() {
    let mut t = FilesTracking::new();
    t.insert("same.txt".to_string(), FileState::File("h1".to_string()));
    let mut w = FileWalk::from_tracking(&t);
    w.update("same.txt".to_string(), FileState::File("h1".to_string()), true);
    assert_eq!(w.count_mode(FileMode::Updated), 1);
    assert_eq!(w.count_mode(FileMode::Untouched), 0);
}

#[test]
fn insert_update_overwrites_in_place() {
    let mut w = FileWalk::from_tracking(&FilesTracking::new());
    w.insert_update("a".to_string(), FileState::Directory, FileMode::Created);
    w.insert_update("a".to_string(), FileState::Directory, FileMode::Untouched);
    assert_eq!(w.count_mode(FileMode::Created), 0);
    assert_eq!(w.count_mode(FileMode::Untouched), 1);
    assert_eq!(w.mode_pairs().len(), 1);
}

#[test]
fn scenario_new_file_is_planned_and_tracked() {
    let h = hash_bytes(&b"hi".to_vec());
    let t = FilesTracking::new();
    let cmd = command(false, false, false);
    let visits = vec![("a.txt".to_string(), FileState::File(h.clone()))];
    let w = cmd.collect_files(&t, &visits);
    let plan = FileUpdate::from_files(&w);
    assert_eq!(
        plan,
        vec![FileUpdate {
            file: "a.txt".to_string(),
            file_type: FileType::File,
            update_type: FileUpdateType::CreateOrUpdate,
        }]
    );
    let next = FilesTracking::from_walk(&w);
    assert_eq!(next.len(), 1);
    assert_eq!(next.get(&"a.txt".to_string()), Some(&FileState::File(h)));
}

#[test]
fn scenario_missing_file_is_planned_deleted() {
    let mut t = FilesTracking::new();
    t.insert("a.txt".to_string(), FileState::File("h1".to_string()));
    let cmd = command(false, false, false);
    let visits: Vec<(String, FileState)> = Vec::new();
    let w = cmd.collect_files(&t, &visits);
    let plan = FileUpdate::from_files(&w);
    assert_eq!(
        plan,
        vec![FileUpdate {
            file: "a.txt".to_string(),
            file_type: FileType::File,
            update_type: FileUpdateType::Delete,
        }]
    );
    let next = FilesTracking::from_walk(&w);
    assert_eq!(next.len(), 0);
}

#[test]
fn scenario_unchanged_file_is_not_planned() {
    let mut t = FilesTracking::new();
    t.insert("a.txt".to_string(), FileState::File("h1".to_string()));
    let cmd = command(false, false, false);
    let visits = vec![("a.txt".to_string(), FileState::File("h1".to_string()))];
    let w = cmd.collect_files(&t, &visits);
    let plan = FileUpdate::from_files(&w);
    assert!(plan.is_empty());
    let next = FilesTracking::from_walk(&w);
    assert_eq!(next.len(), 1);
    assert_eq!(next.get(&"a.txt".to_string()), Some(&FileState::File("h1".to_string())));
}

#[test]
fn force_plans_every_existing_path() {
    let mut t = FilesTracking::new();
    t.insert("same.txt".to_string(), FileState::File("h1".to_string()));
    let cmd = command(true, false, false);
    let visits = vec![
        ("same.txt".to_string(), FileState::File("h1".to_string())),
        ("new.txt".to_string(), FileState::File("h9".to_string())),
    ];
    let w = cmd.collect_files(&t, &visits);
    let plan = FileUpdate::from_files(&w);
    assert_eq!(plan.len(), 2);
    assert!(plan.iter().all(|u| u.update_type == FileUpdateType::CreateOrUpdate));
}

#[test]
fn second_run_over_unchanged_tree_plans_nothing() {
    let mut t = FilesTracking::new();
    t.insert("keep.txt".to_string(), FileState::File("h1".to_string()));
    t.insert("gone.txt".to_string(), FileState::File("h2".to_string()));
    let cmd = command(false, false, false);
    let visits = vec![
        ("keep.txt".to_string(), FileState::File("h1".to_string())),
        ("fresh.txt".to_string(), FileState::File("h3".to_string())),
        ("dir".to_string(), FileState::Directory),
    ];
    let w1 = cmd.collect_files(&t, &visits);
    let plan1 = FileUpdate::from_files(&w1);
    assert_eq!(plan1.len(), 3);
    let snap1 = FilesTracking::from_walk(&w1);

    let w2 = cmd.collect_files(&snap1, &visits);
    let plan2 = FileUpdate::from_files(&w2);
    assert!(plan2.is_empty());
    let snap2 = FilesTracking::from_walk(&w2);
    assert_eq!(snap2.len(), snap1.len());
    for (path, state) in snap1.pairs() {
        assert_eq!(snap2.get(&path), Some(&state));
    }
}

#[test]
fn dry_run_neither_uploads_nor_persists() {
    let dry = command(false, true, false);
    assert!(!dry.should_upload(5));
    assert!(!dry.should_persist());
    let wet = command(false, false, false);
    assert!(wet.should_upload(5));
    assert!(!wet.should_upload(0));
    assert!(wet.should_persist());
    let no_upload = command(false, false, true);
    assert!(!no_upload.should_upload(5));
    assert!(no_upload.should_persist());
}

#[test]
fn command_defaults() {
    let cmd = command(false, false, false);
    assert_eq!(cmd.base_path(), ".");
    assert_eq!(cmd.jobs_or(8), 8);
    let cmd2 = DeployCommand {
        path: Some("site".to_string()),
        jobs: Some(2),
        force: false,
        dry: false,
        no_upload: false,
        debug: false,
    };
    assert_eq!(cmd2.base_path(), "site");
    assert_eq!(cmd2.jobs_or(8), 2);
}
