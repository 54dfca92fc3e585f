//! The backup pipeline's decisions: what one run produced, how each storage
//! upload is reported, the aggregate sent back to the control plane, the
//! per-database lock, and the run's state machine.

use vstd::prelude::*;
use vstd::string::*;
use crate::config::DbType;

verus! {

/// How a backup was started.
#[derive(Clone, Copy, Debug, PartialEq, Eq, Structural)]
pub enum BackupMethod {
    Automatic,
    Manual,
}

pub open spec fn method_name(m: BackupMethod) -> Seq<char> {
    match m {
        BackupMethod::Automatic => "automatic"@,
        BackupMethod::Manual => "manual"@,
    }
}

impl BackupMethod {
    /// `"automatic"` or `"manual"`.
    pub fn to_string(&self) -> (r: String)
        ensures
            r@ == method_name(*self),
    {
        match self {
            BackupMethod::Automatic => String::from_str("automatic"),
            BackupMethod::Manual => String::from_str("manual"),
        }
    }
}

/// The code a driver reports when the engine is already dumping.
pub open spec fn in_progress_code() -> Seq<char> {
    "backup_already_in_progress"@
}

/// What one run of the database driver produced.
#[derive(Clone, Debug)]
pub struct BackupResult {
    pub generated_id: String,
    pub db_type: DbType,
    pub status: String,
    pub backup_file: Option<String>,
    pub code: Option<String>,
}

/// The outcome of uploading one backup to one storage.
#[derive(Debug)]
pub struct UploadResult {
    pub storage_id: String,
    pub success: bool,
    pub error: Option<String>,
    pub remote_file_path: Option<String>,
    pub total_size: Option<u64>,
}

/// `"success"` or `"failed"`.
pub open spec fn status_text(success: bool) -> Seq<char> {
    if success { "success"@ } else { "failed"@ }
}

/// The status word reported for an outcome.
pub fn status_label(success: bool) -> (r: String)
    ensures
        r@ == status_text(success),
{
    if success { String::from_str("success") } else { String::from_str("failed") }
}

/// The result of a run from the ping and the dump: unreachable or a failed
/// dump give `failed` (with the in-progress code when the driver reported
/// it); a dump file gives `success` with that file.
pub fn backup_result(generated_id: &String, db_type: DbType, reachable: bool, dump: Result<String, String>)
    -> (r: BackupResult)
    ensures
        r.generated_id@ == generated_id@,
        r.db_type == db_type,
        !reachable ==> r.status@ == status_text(false) && r.backup_file.is_none() && r.code.is_none(),
        reachable ==> match dump {
            Ok(f) => r.status@ == status_text(true) && r.backup_file == Some(f) && r.code.is_none(),
            Err(e) => r.status@ == status_text(false) && r.backup_file.is_none()
                && (e@ == in_progress_code() ==> r.code.is_some() && r.code.unwrap()@ == in_progress_code())
                && (e@ != in_progress_code() ==> r.code.is_none()),
        },
{
    let id = generated_id.clone();
    if !reachable {
        return BackupResult { generated_id: id, db_type, status: status_label(false), backup_file: None, code: None };
    }
    match dump {
        Ok(f) => BackupResult { generated_id: id, db_type, status: status_label(true), backup_file: Some(f), code: None },
        Err(e) => {
            let marker = String::from_str("backup_already_in_progress");
            if e == marker {
                BackupResult { generated_id: id, db_type, status: status_label(false), backup_file: None, code: Some(e) }
            } else {
                BackupResult { generated_id: id, db_type, status: status_label(false), backup_file: None, code: None }
            }
        },
    }
}

/// The upload fan-out is skipped when the driver reported a dump already in
/// progress.
pub fn skips_upload(result: &BackupResult) -> (r: bool)
    ensures
        r == (result.code.is_some() && result.code.unwrap()@ == in_progress_code()),
{
    match &result.code {
        Some(c) => {
            let marker = String::from_str("backup_already_in_progress");
            *c == marker
        },
        None => false,
    }
}

/// Storage back ends.
#[derive(Clone, Copy, Debug, PartialEq, Eq, Structural)]
pub enum ProviderKind {
    Local,
    S3,
    GoogleDrive,
}

/// The back end a storage's `provider` names, if it is known.
pub open spec fn provider_named(name: Seq<char>) -> Option<ProviderKind> {
    if name == "local"@ {
        Some(ProviderKind::Local)
    } else if name == "s3"@ {
        Some(ProviderKind::S3)
    } else if name == "google-drive"@ {
        Some(ProviderKind::GoogleDrive)
    } else {
        None
    }
}

/// Selects the back end for a storage's `provider` field: `local`, `s3` or
/// `google-drive`; anything else has none.
pub fn get_provider(provider: &String) -> (r: Option<ProviderKind>)
    ensures
        r == provider_named(provider@),
{
    if *provider == String::from_str("local") {
        Some(ProviderKind::Local)
    } else if *provider == String::from_str("s3") {
        Some(ProviderKind::S3)
    } else if *provider == String::from_str("google-drive") {
        Some(ProviderKind::GoogleDrive)
    } else {
        None
    }
}

/// A successful upload to `storage_id`, stored at `remote_path`, of `size` bytes.
pub fn succeeded_upload(storage_id: &String, remote_path: String, size: u64) -> (r: UploadResult)
    ensures
        r.storage_id@ == storage_id@,
        r.success,
        r.error.is_none(),
        r.remote_file_path == Some(remote_path),
        r.total_size == Some(size),
{
    UploadResult {
        storage_id: storage_id.clone(),
        success: true,
        error: None,
        remote_file_path: Some(remote_path),
        total_size: Some(size),
    }
}

/// A failed upload to `storage_id`, for the reason `error`.
pub fn failed_upload(storage_id: &String, error: &str) -> (r: UploadResult)
    ensures
        r.storage_id@ == storage_id@,
        !r.success,
        r.error.is_some() && r.error.unwrap()@ == error@,
        r.remote_file_path.is_none(),
        r.total_size.is_none(),
{
    UploadResult {
        storage_id: storage_id.clone(),
        success: false,
        error: Some(String::from_str(error)),
        remote_file_path: None,
        total_size: None,
    }
}

/// The outcome recorded for a storage once its status PATCH was answered:
/// the upload's own result, or a failure carrying the PATCH's error.
pub fn after_status_report(storage_id: &String, upload: UploadResult, report_error: Option<String>) -> (r: UploadResult)
    ensures
        report_error.is_none() ==> r == upload,
        report_error.is_some() ==> !r.success && r.storage_id@ == storage_id@ && r.error == report_error
            && r.remote_file_path.is_none() && r.total_size.is_none(),
{
    match report_error {
        None => upload,
        Some(e) => UploadResult {
            storage_id: storage_id.clone(),
            success: false,
            error: Some(e),
            remote_file_path: None,
            total_size: None,
        },
    }
}

/// Whether any upload succeeded.
pub open spec fn any_success(rs: Seq<UploadResult>) -> bool {
    exists|i: int| 0 <= i < rs.len() && (#[trigger] rs[i]).success
}

/// Sum of the sizes that uploads reported.
pub open spec fn size_sum(rs: Seq<UploadResult>) -> int
    decreases rs.len(),
{
    if rs.len() == 0 {
        0
    } else {
        size_sum(rs.drop_last()) + match rs.last().total_size {
            Some(n) => n as int,
            None => 0,
        }
    }
}

/// Number of uploads that reported a size.
pub open spec fn size_count(rs: Seq<UploadResult>) -> int
    decreases rs.len(),
{
    if rs.len() == 0 {
        0
    } else {
        size_count(rs.drop_last()) + if rs.last().total_size.is_some() { 1int } else { 0int }
    }
}

/// The backup's size: the mean (rounded down) of the reported sizes, or
/// nothing when no upload reported one.
pub open spec fn mean_size(rs: Seq<UploadResult>) -> Option<int> {
    if size_count(rs) == 0 {
        None
    } else {
        Some(size_sum(rs) / size_count(rs))
    }
}

/// What the final backup update reports.
#[derive(Clone, Copy, Debug, PartialEq, Eq, Structural)]
pub struct BackupSummary {
    pub success: bool,
    pub size: Option<u64>,
}

proof fn lemma_size_bounds(rs: Seq<UploadResult>)
    ensures
        0 <= size_count(rs) <= rs.len(),
        0 <= size_sum(rs) <= size_count(rs) * 18446744073709551615,
    decreases rs.len(),
{
    if rs.len() > 0 {
        lemma_size_bounds(rs.drop_last());
    }
}

/// The aggregate of one backup's uploads: `success` when any upload
/// succeeded, and the mean of the reported sizes.
pub fn summarize(results: &Vec<UploadResult>) -> (r: BackupSummary)
    ensures
        r.success == any_success(results@),
        r.size.is_some() == mean_size(results@).is_some(),
        r.size.is_some() ==> r.size.unwrap() == mean_size(results@).unwrap(),
{
    let mut success = false;
    let mut sum: u128 = 0;
    let mut count: u64 = 0;
    let mut i: usize = 0;
    while i < results.len()
        invariant
            i <= results@.len(),
            success == any_success(results@.subrange(0, i as int)),
            sum == size_sum(results@.subrange(0, i as int)),
            count == size_count(results@.subrange(0, i as int)),
            count <= i,
        decreases results@.len() - i,
    {
        let ghost pre = results@.subrange(0, i as int);
        let ghost nxt = results@.subrange(0, i + 1);
        assert(nxt.drop_last() =~= pre);
        proof {
            lemma_size_bounds(pre);
            assert(sum <= count * 18446744073709551615) by (nonlinear_arith)
                requires
                    sum == size_sum(pre),
                    size_sum(pre) <= size_count(pre) * 18446744073709551615,
                    count == size_count(pre),
            ;
            assert(count * 18446744073709551615 <= 18446744073709551615u128 * 18446744073709551615u128)
                by (nonlinear_arith)
                requires
                    count <= 18446744073709551615u64,
            ;
        }
        let r = &results[i];
        if r.success {
            success = true;
            assert(nxt[i as int].success);
        } else {
            assert(any_success(nxt) ==> any_success(pre)) by {
                if any_success(nxt) {
                    let k = choose|k: int| 0 <= k < nxt.len() && (#[trigger] nxt[k]).success;
                    assert(pre[k] == nxt[k]);
                }
            }
        }
        assert(any_success(pre) ==> any_success(nxt)) by {
            if any_success(pre) {
                let k = choose|k: int| 0 <= k < pre.len() && (#[trigger] pre[k]).success;
                assert(nxt[k] == pre[k]);
            }
        }
        match r.total_size {
            Some(n) => {
                sum = sum + n as u128;
                count = count + 1;
            },
            None => {},
        }
        i = i + 1;
    }
    assert(results@.subrange(0, results@.len() as int) =~= results@);
    if count == 0 {
        BackupSummary { success, size: None }
    } else {
        proof {
            lemma_size_bounds(results@);
            assert(sum / (count as u128) <= 18446744073709551615) by (nonlinear_arith)
                requires
                    sum <= count * 18446744073709551615,
                    count > 0,
            ;
        }
        let mean = (sum / (count as u128)) as u64;
        BackupSummary { success, size: Some(mean) }
    }
}

/// What a storage's upload does once upload-init was answered.
#[derive(Debug)]
pub enum StorageStep {
    /// Upload with this back end, then report to this storage record.
    Upload { kind: ProviderKind, backup_storage_id: String },
    /// Stop with this outcome; no upload and no status report follow.
    Finished(UploadResult),
}

/// The step after upload-init: without a storage record the upload stops
/// as failed; with an unknown provider it stops as failed too; otherwise
/// the provider uploads and the outcome is reported to the record.
pub fn after_init(storage_id: &String, provider: &String, backup_storage_id: Option<String>) -> (r: StorageStep)
    ensures
        backup_storage_id.is_none() ==> (r matches StorageStep::Finished(f) && !f.success && f.storage_id@ == storage_id@
            && f.error.is_some() && f.error.unwrap()@ == "Unable to create the storage backup on remote server"@),
        backup_storage_id.is_some() && provider_named(provider@).is_none() ==> (r matches StorageStep::Finished(f)
            && !f.success && f.storage_id@ == storage_id@
            && f.error.is_some() && f.error.unwrap()@ == "Skipping storage due to missing provider"@),
        backup_storage_id.is_some() && provider_named(provider@).is_some() ==> r == (StorageStep::Upload {
            kind: provider_named(provider@).unwrap(),
            backup_storage_id: backup_storage_id.unwrap(),
        }),
{
    let bs = match backup_storage_id {
        Some(b) => b,
        None => return StorageStep::Finished(failed_upload(storage_id, "Unable to create the storage backup on remote server")),
    };
    match get_provider(provider) {
        Some(kind) => StorageStep::Upload { kind, backup_storage_id: bs },
        None => StorageStep::Finished(failed_upload(storage_id, "Skipping storage due to missing provider")),
    }
}

} // verus!
