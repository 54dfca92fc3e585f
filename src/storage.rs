//! Storage back ends: their settings, and the decisions of the S3 and
//! Google Drive uploads that do not touch the network.

use vstd::prelude::*;
use vstd::string::*;
use crate::text::{push_decimal, decimal, push_char};
use crate::cipher::CHUNK_SIZE;
use crate::cron::{segments, split_runs_exec};
use crate::text::{chars_of, string_of, decimal_string};
use crate::backup::{BackupMethod, method_name};

verus! {

/// Uploads to the control plane's own tus endpoint.
pub struct LocalProvider;

/// Uploads to an S3-compatible object store.
pub struct S3Provider;

/// Uploads to a Google Drive folder.
pub struct GoogleDriveProvider;

/// Settings of an S3 storage.
#[derive(Clone, Debug)]
pub struct S3ProviderConfig {
    pub access_key: String,
    pub secret_key: String,
    pub bucket_name: String,
    pub end_point_url: String,
    pub ssl: bool,
    pub region: Option<String>,
}

/// Settings of a Google Drive storage.
#[derive(Clone, Debug)]
pub struct GoogleDriveProviderConfig {
    pub client_id: String,
    pub client_secret: String,
    pub refresh_token: String,
    pub folder_id: String,
}

/// What the sidecar of an encrypted artifact says of its cipher.
#[derive(Clone, Debug)]
pub struct EncryptionMetadataFile {
    pub version: u8,
    pub cipher: String,
    pub chunk_size: u64,
    pub base_nonce: Vec<u8>,
}

/// The cipher parameters of an encrypted upload stream.
#[derive(Clone, Debug)]
pub struct EncryptionMetadata {
    pub base_nonce: Vec<u8>,
}

/// The sidecar describing an artifact sealed with `base_nonce`.
pub fn encryption_metadata_file(meta: &EncryptionMetadata) -> (r: EncryptionMetadataFile)
    ensures
        r.version == 1,
        r.cipher@ == "AES-256-GCM"@,
        r.chunk_size == CHUNK_SIZE,
        r.base_nonce@ == meta.base_nonce@,
{
    EncryptionMetadataFile {
        version: 1,
        cipher: String::from_str("AES-256-GCM"),
        chunk_size: CHUNK_SIZE as u64,
        base_nonce: meta.base_nonce.clone(),
    }
}

/// The endpoint URL: `https://` or `http://` by the `ssl` flag, then the host.
pub fn s3_endpoint(config: &S3ProviderConfig) -> (r: String)
    ensures
        r@ == (if config.ssl { "https://"@ } else { "http://"@ }) + config.end_point_url@,
{
    let mut s = if config.ssl { String::from_str("https://") } else { String::from_str("http://") };
    s.append(config.end_point_url.as_str());
    s
}

/// The region, `eu-central-3` when none is configured.
pub fn s3_region(config: &S3ProviderConfig) -> (r: String)
    ensures
        r@ == match config.region {
            Some(x) => x@,
            None => "eu-central-3"@,
        },
{
    match &config.region {
        Some(x) => x.clone(),
        None => String::from_str("eu-central-3"),
    }
}

/// Key of the sidecar stored next to an encrypted artifact.
pub fn sidecar_key(remote_path: &str) -> (r: String)
    ensures
        r@ == remote_path@ + ".meta"@,
{
    let mut s = String::from_str(remote_path);
    s.append(".meta");
    s
}

/// Bytes per resumable-upload request to Google Drive.
pub const DRIVE_CHUNK_SIZE: u64 = 8388608;

/// Size of the next Drive chunk: 8 MiB, or what remains.
pub fn drive_chunk_len(uploaded: u64, total: u64) -> (r: u64)
    requires
        uploaded <= total,
    ensures
        r == if total - uploaded <= DRIVE_CHUNK_SIZE { total - uploaded } else { DRIVE_CHUNK_SIZE as int },
{
    if total - uploaded <= DRIVE_CHUNK_SIZE { total - uploaded } else { DRIVE_CHUNK_SIZE }
}

/// The `Content-Range` of a chunk of `len` bytes at `start`: the total size
/// after the slash on the last chunk, `*` before it.
pub open spec fn content_range_text(start: nat, len: nat, total: nat) -> Seq<char> {
    "bytes "@ + decimal(start) + seq!['-'] + decimal((start + len - 1) as nat) + seq!['/']
        + if start + len == total { decimal(total) } else { seq!['*'] }
}

/// Writes the `Content-Range` header of a chunk.
pub fn content_range(start: u64, len: u64, total: u64) -> (r: String)
    requires
        len > 0,
        start + len <= total,
    ensures
        r@ == content_range_text(start as nat, len as nat, total as nat),
{
    let mut s = String::from_str("bytes ");
    push_decimal(&mut s, start);
    push_char(&mut s, '-');
    push_decimal(&mut s, start + len - 1);
    push_char(&mut s, '/');
    if start + len == total {
        push_decimal(&mut s, total);
    } else {
        push_char(&mut s, '*');
    }
    s
}

/// What went wrong with one chunk request.
#[derive(Clone, Copy, Debug, PartialEq, Eq, Structural)]
pub enum DriveFailure {
    /// The server answered 429.
    TooManyRequests,
    /// The request timed out or could not connect.
    Transient,
    /// Any other failure.
    Fatal,
}

/// How a chunk request went: `status` is the response's status, or `None`
/// when no response came; `transient` when that was a timeout or a failed
/// connection.
pub open spec fn drive_answer(status: Option<u16>, transient: bool) -> Option<DriveFailure> {
    match status {
        Some(st) => if (200 <= st && st < 300) || st == 308 {
            None
        } else if st == 429 {
            Some(DriveFailure::TooManyRequests)
        } else {
            Some(DriveFailure::Fatal)
        },
        None => if transient { Some(DriveFailure::Transient) } else { Some(DriveFailure::Fatal) },
    }
}

/// Classifies the answer to a chunk request: success and 308 are progress
/// (`None`); 429 asks for a back-off; a timeout or failed connection is
/// transient; anything else is fatal.
pub fn classify_drive_answer(status: Option<u16>, transient: bool) -> (r: Option<DriveFailure>)
    ensures
        r == drive_answer(status, transient),
{
    match status {
        Some(st) => {
            if (200 <= st && st < 300) || st == 308 {
                None
            } else if st == 429 {
                Some(DriveFailure::TooManyRequests)
            } else {
                Some(DriveFailure::Fatal)
            }
        },
        None => if transient { Some(DriveFailure::Transient) } else { Some(DriveFailure::Fatal) },
    }
}

/// What to do after a failed chunk request.
#[derive(Clone, Copy, Debug, PartialEq, Eq, Structural)]
pub enum DriveRetry {
    /// Wait this many seconds and send the chunk again, with this retry count.
    After { seconds: u64, retries: u32 },
    /// Give up on the upload.
    GiveUp,
}

/// Largest exponent of the 429 back-off.
pub const BACKOFF_CAP: u32 = 6;

/// Largest number of retries after transient errors.
pub const MAX_RETRIES: u32 = 6;

/// The retry policy: on 429, wait 5 s doubled per earlier retry (the
/// doubling capped at 2^6); on a transient error, retry at most six times,
/// waiting 2^n seconds before the n-th; give up on anything else.
pub fn drive_retry(failure: DriveFailure, retries: u32) -> (r: DriveRetry)
    ensures
        failure == DriveFailure::Fatal ==> r == DriveRetry::GiveUp,
        failure == DriveFailure::TooManyRequests ==> r == (DriveRetry::After {
            seconds: (5 * pow2(if retries < BACKOFF_CAP { retries as nat } else { BACKOFF_CAP as nat })) as u64,
            retries: if retries < u32::MAX { (retries + 1) as u32 } else { retries },
        }),
        failure == DriveFailure::Transient && retries >= MAX_RETRIES ==> r == DriveRetry::GiveUp,
        failure == DriveFailure::Transient && retries < MAX_RETRIES ==> r == (DriveRetry::After {
            seconds: pow2((retries + 1) as nat) as u64,
            retries: (retries + 1) as u32,
        }),
{
    match failure {
        DriveFailure::Fatal => DriveRetry::GiveUp,
        DriveFailure::TooManyRequests => {
            let e: u32 = if retries < BACKOFF_CAP { retries } else { BACKOFF_CAP };
            let p = pow2_exec(e);
            let next: u32 = if retries < u32::MAX { retries + 1 } else { retries };
            DriveRetry::After { seconds: 5 * p, retries: next }
        },
        DriveFailure::Transient => {
            if retries >= MAX_RETRIES {
                DriveRetry::GiveUp
            } else {
                DriveRetry::After { seconds: pow2_exec(retries + 1), retries: retries + 1 }
            }
        },
    }
}

/// 2 to the power `n`.
pub open spec fn pow2(n: nat) -> nat
    decreases n,
{
    if n == 0 { 1 } else { 2 * pow2((n - 1) as nat) }
}

fn pow2_exec(n: u32) -> (r: u64)
    requires
        n <= 7,
    ensures
        r == pow2(n as nat),
        r <= 128,
{
    proof {
        reveal_with_fuel(pow2, 8);
    }
    if n == 0 { 1 }
    else if n == 1 { 2 }
    else if n == 2 { 4 }
    else if n == 3 { 8 }
    else if n == 4 { 16 }
    else if n == 5 { 32 }
    else if n == 6 { 64 }
    else { 128 }
}

/// Where a Drive upload goes: the folders to walk or create, in order, and
/// the file's name, from the non-empty `/`-separated segments of the remote
/// path; `None` when there is none.
pub fn drive_target(full_path: &str) -> (r: Option<(Vec<String>, String)>)
    ensures
        segments(full_path@).len() == 0 ==> r.is_none(),
        segments(full_path@).len() > 0 ==> (r matches Some((folders, name)) && {
            let g = segments(full_path@);
            &&& name@ == g.last()
            &&& folders@.len() == g.len() - 1
            &&& forall|i: int| 0 <= i < folders@.len() ==> (#[trigger] folders@[i])@ == g[i]
        }),
{
    let cs = chars_of(full_path);
    let parts = split_runs_exec(&cs, true);
    if parts.len() == 0 {
        return None;
    }
    let mut folders: Vec<String> = Vec::new();
    let mut i: usize = 0;
    let last = parts.len() - 1;
    while i < last
        invariant
            last == parts@.len() - 1,
            i <= last,
            folders@.len() == i,
            forall|k: int| 0 <= k < i ==> (#[trigger] folders@[k])@ == parts@[k]@,
        decreases parts@.len() - i,
    {
        folders.push(string_of(parts[i].as_slice()));
        i = i + 1;
    }
    let name = string_of(parts[last].as_slice());
    Some((folders, name))
}

/// The Drive search for a live folder called `name` inside `parent`.
pub fn drive_folder_query(parent: &str, name: &str) -> (r: String)
    ensures
        r@ == "'"@ + parent@ + "' in parents and name='"@ + name@
            + "' and mimeType='application/vnd.google-apps.folder' and trashed=false"@,
{
    let mut s = String::from_str("'");
    s.append(parent);
    s.append("' in parents and name='");
    s.append(name);
    s.append("' and mimeType='application/vnd.google-apps.folder' and trashed=false");
    s
}

/// The Drive search for a live file called `name` inside `folder`.
pub fn drive_file_query(folder: &str, name: &str) -> (r: String)
    ensures
        r@ == "'"@ + folder@ + "' in parents and name='"@ + name@ + "' and trashed=false"@,
{
    let mut s = String::from_str("'");
    s.append(folder);
    s.append("' in parents and name='");
    s.append(name);
    s.append("' and trashed=false");
    s
}

fn header(name: &str, value: String) -> (r: (String, String))
    ensures
        r.0@ == name@,
        r.1 == value,
{
    (String::from_str(name), value)
}

/// The headers every tus PATCH of a local upload carries, in order:
/// `X-File-Name`, `X-File-Size`, `X-File-Path`, `X-Generated-Id`, `X-Status`
/// and `X-Method`.
pub fn tus_upload_headers(
    file_name: &String,
    total_size: u64,
    remote_path: &String,
    generated_id: &String,
    status: &String,
    method: BackupMethod,
) -> (r: Vec<(String, String)>)
    ensures
        r@.len() == 6,
        r@[0].0@ == "X-File-Name"@ && r@[0].1@ == file_name@,
        r@[1].0@ == "X-File-Size"@ && r@[1].1@ == decimal(total_size as nat),
        r@[2].0@ == "X-File-Path"@ && r@[2].1@ == remote_path@,
        r@[3].0@ == "X-Generated-Id"@ && r@[3].1@ == generated_id@,
        r@[4].0@ == "X-Status"@ && r@[4].1@ == status@,
        r@[5].0@ == "X-Method"@ && r@[5].1@ == method_name(method),
{
    let mut v: Vec<(String, String)> = Vec::new();
    v.push(header("X-File-Name", file_name.clone()));
    v.push(header("X-File-Size", decimal_string(total_size)));
    v.push(header("X-File-Path", remote_path.clone()));
    v.push(header("X-Generated-Id", generated_id.clone()));
    v.push(header("X-Status", status.clone()));
    v.push(header("X-Method", method.to_string()));
    v
}

} // verus!
