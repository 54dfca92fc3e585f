use backup_agent::api::{
    backup_create_request, backup_update_request, periodic_backup_target, requested_restore, status_request,
    RestoreInfo, TaskError,
};
use backup_agent::backup::{BackupMethod, BackupSummary};
use backup_agent::config::{DatabaseConfig, DbType};
use backup_agent::cron::{check_and_update_cron, due_backup, normalize_cron, task_key, task_name, CronAction, PeriodicTask, StoredTask};

const GID: &str = "5f0c6d1e-8a3b-4c2d-9e7f-1a2b3c4d5e6f";
const KIND: &str = "tasks.database.periodic_backup";

fn args() -> Vec<String> {
    vec![GID.to_string(), "mysql".to_string()]
}

#[test]
fn task_names_and_keys() {
    let n = task_name(GID);
    assert_eq!(n, format!("periodic.backup_{}", GID));
    assert_eq!(task_key(&n), format!("redbeat:periodic.backup_{}", GID));
}

#[test]
fn cron_normalization() {
    assert_eq!(normalize_cron("*/5 * * * *"), "0 */5 * * * *");
    assert_eq!(normalize_cron("30 */5 * * * *"), "30 */5 * * * *");
    assert_eq!(normalize_cron("  */5   *  * * *  "), "0 */5 * * * *");
    assert_eq!(normalize_cron(""), "");
}

#[test]
fn cron_created_when_absent() {
    let meta = Some("{\"encrypt\":false}".to_string());
    match check_and_update_cron(Some("*/5 * * * *".to_string()), &args(), KIND, &meta, &StoredTask::Absent) {
        CronAction::Create(t) => {
            assert_eq!(t.cron, "0 */5 * * * *");
            assert_eq!(t.task, KIND);
            assert_eq!(t.args, args());
            assert!(t.enabled);
            assert_eq!(t.metadata, meta);
        },
        other => panic!("unexpected {:?}", matches!(other, CronAction::Keep)),
    }
}

#[test]
fn cron_repeated_call_keeps_record() {
    let meta = Some("{\"encrypt\":false}".to_string());
    let first = check_and_update_cron(Some("*/5 * * * *".to_string()), &args(), KIND, &meta, &StoredTask::Absent);
    let stored = match first {
        CronAction::Create(t) => t,
        _ => panic!("expected a new record"),
    };
    let second = check_and_update_cron(Some("*/5 * * * *".to_string()), &args(), KIND, &meta, &StoredTask::Present(stored));
    assert!(matches!(second, CronAction::Keep));
}

#[test]
fn cron_updated_on_change_and_removed_without_cron() {
    let stored = PeriodicTask {
        task: KIND.to_string(),
        cron: "0 */5 * * * *".to_string(),
        args: args(),
        enabled: true,
        metadata: None,
    };
    let changed = check_and_update_cron(
        Some("*/10 * * * *".to_string()),
        &args(),
        KIND,
        &None,
        &StoredTask::Present(stored.clone()),
    );
    assert!(matches!(changed, CronAction::Update(ref t) if t.cron == "0 */10 * * * *"));
    let meta_changed = check_and_update_cron(
        Some("*/5 * * * *".to_string()),
        &args(),
        KIND,
        &Some("{}".to_string()),
        &StoredTask::Present(stored.clone()),
    );
    assert!(matches!(meta_changed, CronAction::Update(_)));
    assert!(matches!(check_and_update_cron(None, &args(), KIND, &None, &StoredTask::Present(stored)), CronAction::Remove));
    assert!(matches!(check_and_update_cron(None, &args(), KIND, &None, &StoredTask::Absent), CronAction::Keep));
    assert!(matches!(
        check_and_update_cron(Some("* * * * *".to_string()), &args(), KIND, &None, &StoredTask::Unreadable),
        CronAction::Keep
    ));
}

#[test]
fn due_task_targets() {
    assert_eq!(periodic_backup_target(KIND, &args()), Ok(GID.to_string()));
    assert_eq!(periodic_backup_target("tasks.other", &args()), Err(TaskError::UnknownTask));
    assert_eq!(periodic_backup_target(KIND, &vec![GID.to_string()]), Err(TaskError::MissingArguments));
}

#[test]
fn automatic_backup_request_bodies() {
    let c = backup_create_request(BackupMethod::Automatic, &GID.to_string());
    assert_eq!(c.method, "automatic");
    assert_eq!(c.generated_id, GID);
    let u = backup_update_request(&"b1".to_string(), BackupSummary { success: true, size: Some(7) });
    assert_eq!(u.status, "success");
    assert_eq!(u.size, Some(7));
    let f = backup_update_request(&"b1".to_string(), BackupSummary { success: false, size: None });
    assert_eq!(f.status, "failed");
}

#[test]
fn status_request_lists_databases() {
    let db = DatabaseConfig {
        name: "main".to_string(),
        database: "app".to_string(),
        db_type: DbType::Mariadb,
        username: "u".to_string(),
        password: "p".to_string(),
        port: 3306,
        host: "h".to_string(),
        generated_id: GID.to_string(),
        path: String::new(),
    };
    let r = status_request(&"1.2.3".to_string(), &vec![db]);
    assert_eq!(r.version, "1.2.3");
    assert_eq!(r.databases.len(), 1);
    assert_eq!(r.databases[0].dbms, "mysql");
    assert_eq!(r.databases[0].generated_id, GID);
}

#[test]
fn restore_requested_only_with_file() {
    let yes = RestoreInfo { action: true, file: Some("http://h/f".to_string()), meta_file: None };
    assert_eq!(requested_restore(&yes), Some("http://h/f".to_string()));
    let no_file = RestoreInfo { action: true, file: None, meta_file: None };
    assert_eq!(requested_restore(&no_file), None);
    let off = RestoreInfo { action: false, file: Some("http://h/f".to_string()), meta_file: None };
    assert_eq!(requested_restore(&off), None);
}

#[test]
fn due_tasks_run_only_when_enabled() {
    let mut t = PeriodicTask { task: KIND.to_string(), cron: "0 * * * * *".to_string(), args: args(), enabled: true, metadata: None };
    assert_eq!(due_backup(&t), Ok(Some(GID.to_string())));
    t.enabled = false;
    assert_eq!(due_backup(&t), Ok(None));
    t.enabled = true;
    t.task = "tasks.other".to_string();
    assert_eq!(due_backup(&t), Err(TaskError::UnknownTask));
}
