use backup_agent::backup::{
    after_init, after_status_report, backup_result, StorageStep, failed_upload, get_provider, skips_upload, status_label, succeeded_upload,
    summarize, BackupMethod, ProviderKind, UploadResult,
};
use backup_agent::config::{
    find_database, resolve_database, resolve_databases, ConfigError, DatabasesConfig, DbType, InputDatabaseConfig,
    InputDatabasesConfig,
};
use backup_agent::api::upload_status_request;
use backup_agent::pipeline::{BackupService, LockTable, RunAction, RunEvent, RunPhase};

const GID: &str = "5f0c6d1e-8a3b-4c2d-9e7f-1a2b3c4d5e6f";

fn upload(id: &str, success: bool, size: Option<u64>) -> UploadResult {
    UploadResult {
        storage_id: id.to_string(),
        success,
        error: None,
        remote_file_path: size.map(|_| "backups/2024-01-01/x.tar.gz".to_string()),
        total_size: size,
    }
}

#[test]
fn second_dispatch_for_same_database_is_refused() {
    let mut svc = BackupService::new();
    let id = GID.to_string();
    let first = svc.start(&id);
    assert!(matches!(first, Some((_, RunAction::CreateTempDir))));
    assert!(svc.start(&id).is_none());
    assert!(svc.start(&"other".to_string()).is_some());
    let (run, _) = first.unwrap();
    svc.end(&run);
    assert!(svc.start(&id).is_some());
}

#[test]
fn lock_table_acquire_and_release() {
    let mut t = LockTable::new();
    let a = "a".to_string();
    assert!(t.try_acquire(&a));
    assert!(!t.try_acquire(&a));
    assert!(t.is_locked(&a));
    t.release(&a);
    assert!(!t.is_locked(&a));
    assert!(t.try_acquire(&a));
}

#[test]
fn successful_run_reports_and_cleans_up() {
    let mut svc = BackupService::new();
    let id = GID.to_string();
    let (mut run, _) = svc.start(&id).unwrap();
    assert!(matches!(run.step(RunEvent::TempDirCreated(true)), RunAction::CreateRecord));
    assert!(matches!(run.step(RunEvent::RecordCreated(Some("b1".to_string()))), RunAction::Dump));
    let res = backup_result(&id, DbType::Mysql, true, Ok("/tmp/t/x.sql".to_string()));
    match run.step(RunEvent::Dumped(res)) {
        RunAction::Compress { file } => assert_eq!(file, "/tmp/t/x.sql"),
        other => panic!("unexpected {:?}", other),
    }
    assert!(matches!(run.step(RunEvent::Compressed(Some("/tmp/t/x.tar.gz".to_string()))), RunAction::Upload { .. }));
    match run.step(RunEvent::Uploaded(vec![upload("S", true, Some(100))])) {
        RunAction::Report { backup_id, summary } => {
            assert_eq!(backup_id, "b1");
            assert!(summary.success);
            assert_eq!(summary.size, Some(100));
        },
        other => panic!("unexpected {:?}", other),
    }
    match run.step(RunEvent::Reported) {
        RunAction::Finish { remove_temp_dir, release_lock } => {
            assert!(remove_temp_dir);
            assert!(release_lock);
        },
        other => panic!("unexpected {:?}", other),
    }
    assert_eq!(run.phase(), RunPhase::Done);
}

#[test]
fn in_progress_dump_skips_upload_and_reports_failure() {
    let mut svc = BackupService::new();
    let id = GID.to_string();
    let (mut run, _) = svc.start(&id).unwrap();
    run.step(RunEvent::TempDirCreated(true));
    run.step(RunEvent::RecordCreated(Some("b2".to_string())));
    let res = backup_result(&id, DbType::Sqlite, true, Err("backup_already_in_progress".to_string()));
    assert_eq!(res.code.as_deref(), Some("backup_already_in_progress"));
    assert!(skips_upload(&res));
    match run.step(RunEvent::Dumped(res)) {
        RunAction::Report { backup_id, summary } => {
            assert_eq!(backup_id, "b2");
            assert!(!summary.success);
            assert_eq!(status_label(summary.success), "failed");
        },
        other => panic!("unexpected {:?}", other),
    }
}

#[test]
fn failed_record_creation_finishes_without_report() {
    let mut svc = BackupService::new();
    let (mut run, _) = svc.start(&GID.to_string()).unwrap();
    run.step(RunEvent::TempDirCreated(true));
    match run.step(RunEvent::RecordCreated(None)) {
        RunAction::Finish { remove_temp_dir, release_lock } => assert!(remove_temp_dir && release_lock),
        other => panic!("unexpected {:?}", other),
    }
    let (mut run2, _) = BackupService::new().start(&GID.to_string()).unwrap();
    match run2.step(RunEvent::TempDirCreated(false)) {
        RunAction::Finish { remove_temp_dir, release_lock } => assert!(!remove_temp_dir && release_lock),
        other => panic!("unexpected {:?}", other),
    }
}

#[test]
fn backup_results_from_ping_and_dump() {
    let id = GID.to_string();
    let down = backup_result(&id, DbType::Mysql, false, Ok("f".to_string()));
    assert_eq!(down.status, "failed");
    assert!(down.backup_file.is_none());
    let err = backup_result(&id, DbType::Mysql, true, Err("boom".to_string()));
    assert_eq!(err.status, "failed");
    assert!(err.code.is_none());
    assert!(!skips_upload(&err));
    let ok = backup_result(&id, DbType::Postgresql, true, Ok("/t/d.dump".to_string()));
    assert_eq!(ok.status, "success");
    assert_eq!(ok.backup_file.as_deref(), Some("/t/d.dump"));
}

#[test]
fn summary_is_success_if_any_and_mean_of_sizes() {
    let s = summarize(&vec![upload("a", false, None), upload("b", true, Some(10)), upload("c", false, Some(21))]);
    assert!(s.success);
    assert_eq!(s.size, Some(15));
    let none = summarize(&vec![upload("a", false, None)]);
    assert!(!none.success);
    assert_eq!(none.size, None);
    let empty = summarize(&vec![]);
    assert!(!empty.success);
    assert_eq!(empty.size, None);
    let big = summarize(&vec![upload("a", true, Some(u64::MAX)), upload("b", true, Some(u64::MAX))]);
    assert_eq!(big.size, Some(u64::MAX));
}

#[test]
fn providers_by_name() {
    assert_eq!(get_provider(&"local".to_string()), Some(ProviderKind::Local));
    assert_eq!(get_provider(&"s3".to_string()), Some(ProviderKind::S3));
    assert_eq!(get_provider(&"google-drive".to_string()), Some(ProviderKind::GoogleDrive));
    assert_eq!(get_provider(&"ftp".to_string()), None);
}

#[test]
fn storage_reports() {
    let id = "S".to_string();
    let f = failed_upload(&id, "Skipping storage due to missing provider");
    assert!(!f.success);
    assert_eq!(f.error.as_deref(), Some("Skipping storage due to missing provider"));
    let ok = succeeded_upload(&id, "backups/2024-01-01/x.tar.gz".to_string(), 5);
    let body = upload_status_request(&GID.to_string(), &"bs1".to_string(), &ok);
    assert_eq!(body.status, "success");
    assert_eq!(body.path, "backups/2024-01-01/x.tar.gz");
    assert_eq!(body.size, 5);
    assert_eq!(body.backup_storage_id, "bs1");
    let kept = after_status_report(&id, upload("S", true, Some(5)), None);
    assert!(kept.success);
    let lost = after_status_report(&id, upload("S", true, Some(5)), Some("patch failed".to_string()));
    assert!(!lost.success);
    assert_eq!(lost.error.as_deref(), Some("patch failed"));
}

#[test]
fn method_names() {
    assert_eq!(BackupMethod::Automatic.to_string(), "automatic");
    assert_eq!(BackupMethod::Manual.to_string(), "manual");
    assert_eq!(DbType::Mariadb.as_str(), "mysql");
    assert_eq!(DbType::MongoDB.as_str(), "mongodb");
}

fn input(db_type: DbType) -> InputDatabaseConfig {
    InputDatabaseConfig {
        name: "main".to_string(),
        database: Some("app".to_string()),
        db_type,
        username: Some("root".to_string()),
        password: Some("pw".to_string()),
        port: Some(3306),
        host: Some("localhost".to_string()),
        generated_id: GID.to_string(),
        path: None,
    }
}

#[test]
fn config_checks_required_fields() {
    let ok = resolve_database(&input(DbType::Mysql)).unwrap();
    assert_eq!(ok.port, 3306);
    assert_eq!(ok.path, "");
    let mut no_user = input(DbType::Mysql);
    no_user.username = None;
    let e = resolve_database(&no_user).unwrap_err();
    assert_eq!(e.message(), "Missing required field 'username' for database 'main'");
    let mut lite = input(DbType::Sqlite);
    lite.port = None;
    lite.host = None;
    let e2 = resolve_database(&lite).unwrap_err();
    assert_eq!(e2, ConfigError::MissingField { field: "path".to_string(), database: "main".to_string() });
    lite.path = Some("/data/app.db".to_string());
    let l = resolve_database(&lite).unwrap();
    assert_eq!(l.port, 0);
    assert_eq!(l.host, "");
    let mut bad = input(DbType::Mysql);
    bad.generated_id = "not-a-uuid".to_string();
    let e3 = resolve_database(&bad).unwrap_err();
    assert_eq!(e3.message(), "Invalid UUID for database 'main'");
}

#[test]
fn databases_are_found_by_id() {
    let all = resolve_databases(&InputDatabasesConfig { databases: vec![input(DbType::Mysql)] }).unwrap();
    assert_eq!(find_database(&all, &GID.to_string()), Some(0));
    assert_eq!(find_database(&all, &"x".to_string()), None);
    let empty = DatabasesConfig { databases: vec![] };
    assert_eq!(find_database(&empty, &GID.to_string()), None);
}

#[test]
fn manual_backup_to_two_storages_succeeds_if_one_does() {
    let mut svc = BackupService::new();
    let id = GID.to_string();
    let (mut run, _) = svc.start(&id).unwrap();
    run.step(RunEvent::TempDirCreated(true));
    run.step(RunEvent::RecordCreated(Some("b3".to_string())));
    let res = backup_result(&id, DbType::Sqlite, true, Ok("/tmp/t/g.db".to_string()));
    run.step(RunEvent::Dumped(res));
    run.step(RunEvent::Compressed(Some("/tmp/t/g.tar.gz".to_string())));
    let local = upload("L", true, Some(300));
    let s3 = failed_upload(&"S3".to_string(), "access denied");
    match run.step(RunEvent::Uploaded(vec![local, s3])) {
        RunAction::Report { summary, .. } => {
            assert!(summary.success);
            assert_eq!(summary.size, Some(300));
        },
        other => panic!("unexpected {:?}", other),
    }
}

#[test]
fn failed_uploads_are_reported_as_failed() {
    let failed = failed_upload(&"S".to_string(), "Offset mismatch");
    let body = upload_status_request(&GID.to_string(), &"bs".to_string(), &failed);
    assert_eq!(body.status, "failed");
    assert_eq!(body.backup_storage_id, "bs");
    assert_eq!(body.path, "");
    assert_eq!(body.size, 0);
}

#[test]
fn mongodb_needs_credentials() {
    let mut m = input(DbType::MongoDB);
    m.username = None;
    assert_eq!(
        resolve_database(&m).unwrap_err(),
        ConfigError::MissingField { field: "username".to_string(), database: "main".to_string() }
    );
    let mut m2 = input(DbType::MongoDB);
    m2.password = None;
    assert_eq!(resolve_database(&m2).unwrap_err().message(), "Missing required field 'password' for database 'main'");
}

#[test]
fn storage_steps_after_init() {
    let id = "S".to_string();
    match after_init(&id, &"local".to_string(), Some("bs1".to_string())) {
        StorageStep::Upload { kind, backup_storage_id } => {
            assert_eq!(kind, ProviderKind::Local);
            assert_eq!(backup_storage_id, "bs1");
        },
        other => panic!("unexpected {:?}", other),
    }
    match after_init(&id, &"local".to_string(), None) {
        StorageStep::Finished(r) => {
            assert!(!r.success);
            assert_eq!(r.error.as_deref(), Some("Unable to create the storage backup on remote server"));
        },
        other => panic!("unexpected {:?}", other),
    }
    match after_init(&id, &"ftp".to_string(), Some("bs1".to_string())) {
        StorageStep::Finished(r) => assert_eq!(r.error.as_deref(), Some("Skipping storage due to missing provider")),
        other => panic!("unexpected {:?}", other),
    }
}

#[test]
fn first_rejected_database_decides_the_error() {
    let mut bad_uuid = input(DbType::Mysql);
    bad_uuid.generated_id = "nope".to_string();
    bad_uuid.name = "second".to_string();
    let mut no_host = input(DbType::Postgresql);
    no_host.host = None;
    no_host.name = "third".to_string();
    let all = InputDatabasesConfig { databases: vec![input(DbType::Mysql), bad_uuid, no_host] };
    assert_eq!(resolve_databases(&all).unwrap_err().message(), "Invalid UUID for database 'second'");
}
