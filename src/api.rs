//! Bodies of the control-plane requests and responses, and the decisions
//! taken on the desired state the control plane returns.

use vstd::prelude::*;
use vstd::string::*;
use crate::config::{DatabaseConfig, db_type_name};
use crate::backup::{BackupMethod, BackupSummary, UploadResult, method_name, status_label, status_text};

verus! {

/// Body of the backup-create request.
#[derive(Clone, Debug)]
pub struct BackupCreateRequest {
    pub method: String,
    pub generated_id: String,
}

/// Body of the backup-update request.
#[derive(Clone, Debug)]
pub struct BackupUpdateRequest {
    pub backup_id: String,
    pub status: String,
    pub size: Option<u64>,
}

/// Body of the upload-init request.
#[derive(Clone, Debug)]
pub struct InitUploadRequest {
    pub generated_id: String,
    pub path: String,
    pub storage_channel_id: String,
}

/// Body of the upload-status request.
#[derive(Clone, Debug)]
pub struct StatusUploadRequest {
    pub generated_id: String,
    pub backup_storage_id: String,
    pub status: String,
    pub path: String,
    pub size: u64,
}

/// One database in the status request.
#[derive(Clone, Debug)]
pub struct DatabasePayload {
    pub name: String,
    pub dbms: String,
    pub generated_id: String,
}

/// Body of the status request: the agent's version and its databases.
#[derive(Clone, Debug)]
pub struct StatusRequest {
    pub version: String,
    pub databases: Vec<DatabasePayload>,
}

/// A backup's storage record, as the control plane returns it.
#[derive(Clone, Debug)]
pub struct BackupStorage {
    pub id: String,
}

/// Response to upload-init and upload-status.
#[derive(Clone, Debug)]
pub struct BackupUploadResponse {
    pub message: String,
    pub backup_storage: BackupStorage,
}

/// A backup record, as the control plane returns it.
#[derive(Clone, Debug)]
pub struct Backup {
    pub id: String,
}

/// Response to backup-create and backup-update.
#[derive(Clone, Debug)]
pub struct BackupResponse {
    pub message: String,
    pub backup: Backup,
}

/// The agent as the control plane knows it.
#[derive(Clone, Debug)]
pub struct AgentInfo {
    pub id: String,
    pub last_contact: String,
}

/// Desired backup state of a database.
#[derive(Clone, Debug)]
pub struct BackupInfo {
    pub action: bool,
    pub cron: Option<String>,
}

/// Desired restore state of a database.
#[derive(Clone, Debug)]
pub struct RestoreInfo {
    pub action: bool,
    pub file: Option<String>,
    pub meta_file: Option<String>,
}

/// Desired state of a database.
#[derive(Clone, Debug)]
pub struct DatabaseData {
    pub backup: BackupInfo,
    pub restore: RestoreInfo,
}

/// The backup-create body for a run started by `method`.
pub fn backup_create_request(method: BackupMethod, generated_id: &String) -> (r: BackupCreateRequest)
    ensures
        r.method@ == method_name(method),
        r.generated_id@ == generated_id@,
{
    BackupCreateRequest { method: method.to_string(), generated_id: generated_id.clone() }
}

/// The backup-update body from a run's summary.
pub fn backup_update_request(backup_id: &String, summary: BackupSummary) -> (r: BackupUpdateRequest)
    ensures
        r.backup_id@ == backup_id@,
        r.status@ == status_text(summary.success),
        r.size == summary.size,
{
    BackupUpdateRequest { backup_id: backup_id.clone(), status: status_label(summary.success), size: summary.size }
}

/// The upload-status body for a storage's outcome, sent whether or not the
/// upload succeeded: the status follows `success`; a missing path is sent
/// empty and a missing size as zero.
pub fn upload_status_request(generated_id: &String, backup_storage_id: &String, upload: &UploadResult)
    -> (r: StatusUploadRequest)
    ensures
        r.generated_id@ == generated_id@,
        r.backup_storage_id@ == backup_storage_id@,
        r.status@ == status_text(upload.success),
        r.path@ == match upload.remote_file_path {
            Some(p) => p@,
            None => Seq::<char>::empty(),
        },
        r.size == match upload.total_size {
            Some(n) => n,
            None => 0u64,
        },
{
    let path = match &upload.remote_file_path {
        Some(p) => p.clone(),
        None => String::new(),
    };
    let size: u64 = match upload.total_size {
        Some(n) => n,
        None => 0,
    };
    StatusUploadRequest {
        generated_id: generated_id.clone(),
        backup_storage_id: backup_storage_id.clone(),
        status: status_label(upload.success),
        path,
        size,
    }
}

/// The status request listing every configured database.
pub fn status_request(version: &String, databases: &Vec<DatabaseConfig>) -> (r: StatusRequest)
    ensures
        r.version@ == version@,
        r.databases@.len() == databases@.len(),
        forall|i: int| 0 <= i < databases@.len() ==> {
            &&& (#[trigger] r.databases@[i]).name@ == databases@[i].name@
            &&& r.databases@[i].dbms@ == db_type_name(databases@[i].db_type)
            &&& r.databases@[i].generated_id@ == databases@[i].generated_id@
        },
{
    let mut out: Vec<DatabasePayload> = Vec::new();
    let mut i: usize = 0;
    while i < databases.len()
        invariant
            i <= databases@.len(),
            out@.len() == i,
            forall|k: int| 0 <= k < i ==> {
                &&& (#[trigger] out@[k]).name@ == databases@[k].name@
                &&& out@[k].dbms@ == db_type_name(databases@[k].db_type)
                &&& out@[k].generated_id@ == databases@[k].generated_id@
            },
        decreases databases@.len() - i,
    {
        let db = &databases[i];
        out.push(DatabasePayload {
            name: db.name.clone(),
            dbms: String::from_str(db.db_type.as_str()),
            generated_id: db.generated_id.clone(),
        });
        i = i + 1;
    }
    StatusRequest { version: version.clone(), databases: out }
}

/// The file to restore, when the control plane asks for a restore and
/// names one.
pub fn requested_restore(info: &RestoreInfo) -> (r: Option<String>)
    ensures
        info.action && info.file.is_some() ==> r == info.file,
        !(info.action && info.file.is_some()) ==> r.is_none(),
{
    if info.action {
        match &info.file {
            Some(f) => Some(f.clone()),
            None => None,
        }
    } else {
        None
    }
}

/// Why a due task was not run.
#[derive(Clone, Debug, PartialEq, Eq)]
pub enum TaskError {
    /// Nothing runs tasks of this name.
    UnknownTask,
    /// The arguments lack the database identifier or engine.
    MissingArguments,
}

/// The database a due periodic-backup task is for: its first argument; the
/// second names the engine.
pub fn periodic_backup_target(task: &str, args: &Vec<String>) -> (r: Result<String, TaskError>)
    ensures
        task@ != "tasks.database.periodic_backup"@ ==> r == Err::<String, TaskError>(TaskError::UnknownTask),
        task@ == "tasks.database.periodic_backup"@ && args@.len() < 2
            ==> r == Err::<String, TaskError>(TaskError::MissingArguments),
        task@ == "tasks.database.periodic_backup"@ && args@.len() >= 2
            ==> r == Ok::<String, TaskError>(args@[0]),
{
    let kind = String::from_str("tasks.database.periodic_backup");
    let t = String::from_str(task);
    if t != kind {
        return Err(TaskError::UnknownTask);
    }
    if args.len() < 2 {
        return Err(TaskError::MissingArguments);
    }
    Ok(args[0].clone())
}

} // verus!
