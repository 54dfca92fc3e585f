use backup_agent::multipart::{MultipartAction, MultipartEvent, MultipartPhase, MultipartUpload, PART_SIZE};
use backup_agent::storage::{
    classify_drive_answer, content_range, drive_chunk_len, drive_retry, drive_target, s3_endpoint, s3_region, sidecar_key,
    DriveFailure, DriveRetry, S3ProviderConfig,
};
use backup_agent::tus::{creation_location, PatchBuffer, TusError, TusSession, PATCH_CHUNK_SIZE};

const MIB: usize = 1048576;

#[test]
fn patch_bodies_are_one_mebibyte() {
    let mut buf = PatchBuffer::new();
    let mut bodies = Vec::new();
    // stream items smaller and larger than a body
    for item in [vec![1u8; 8192], vec![2u8; MIB], vec![3u8; 2 * MIB + 5]] {
        bodies.extend(buf.push(&item));
    }
    bodies.extend(buf.take_rest());
    let lens: Vec<usize> = bodies.iter().map(|b| b.len()).collect();
    assert_eq!(lens, vec![PATCH_CHUNK_SIZE, PATCH_CHUNK_SIZE, PATCH_CHUNK_SIZE, 8192 + 5]);
    assert_eq!(bodies[0][8191], 1);
    assert_eq!(bodies[0][8192], 2);
    assert!(PatchBuffer::new().take_rest().is_none());
}

#[test]
fn offsets_advance_by_body_length() {
    let mut s = TusSession::new();
    let mut sent = Vec::new();
    for len in [MIB as u64, MIB as u64, 17] {
        sent.push(s.offset_header());
        let next = (s.offset() + len).to_string();
        s.record_patch(len, true, 204, Some(&next)).unwrap();
    }
    assert_eq!(sent, vec!["0", "1048576", "2097152"]);
    assert_eq!(s.offset(), 2 * MIB as u64 + 17);
    assert_eq!(s.finish(true, 204, String::new()), Ok(2 * MIB as u64 + 17));
}

#[test]
fn missing_server_offset_is_accepted() {
    let mut s = TusSession::new();
    s.record_patch(10, true, 204, None).unwrap();
    assert_eq!(s.offset(), 10);
}

#[test]
fn server_offset_behind_is_a_mismatch() {
    let mut s = TusSession::new();
    s.record_patch(MIB as u64, true, 204, Some("1048576")).unwrap();
    let r = s.record_patch(MIB as u64, true, 204, Some("1048000"));
    assert_eq!(r, Err(TusError::OffsetMismatch { expected: 2 * MIB as u64, got: 1048000 }));
    assert_eq!(s.offset(), MIB as u64);
}

#[test]
fn bad_patch_answers_end_the_upload() {
    let mut s = TusSession::new();
    assert_eq!(s.record_patch(5, false, 500, None), Err(TusError::PatchFailed { offset: 0, status: 500 }));
    assert_eq!(s.record_patch(5, true, 204, Some("five")), Err(TusError::InvalidOffsetHeader));
    assert_eq!(
        s.finish(false, 409, "conflict".to_string()),
        Err(TusError::FinalizeFailed { offset: 0, status: 409, body: "conflict".to_string() })
    );
}

#[test]
fn creation_needs_success_and_location() {
    assert_eq!(
        creation_location(true, 201, String::new(), Some("http://h/tus/files/1".to_string())),
        Ok("http://h/tus/files/1".to_string())
    );
    assert_eq!(creation_location(true, 201, String::new(), None), Err(TusError::MissingLocation));
    assert_eq!(
        creation_location(false, 500, "boom".to_string(), None),
        Err(TusError::CreationFailed { status: 500, body: "boom".to_string() })
    );
}

#[test]
fn multipart_sends_full_and_last_parts() {
    let mut m = MultipartUpload::new();
    assert!(matches!(m.step(MultipartEvent::Bytes { len: PART_SIZE - 1, is_last: false }), MultipartAction::Read));
    assert!(matches!(
        m.step(MultipartEvent::Bytes { len: 2, is_last: false }),
        MultipartAction::SendPart { part_number: 1, len: PART_SIZE }
    ));
    assert!(matches!(m.step(MultipartEvent::PartStored { e_tag: Some("e1".to_string()) }), MultipartAction::Read));
    assert!(matches!(
        m.step(MultipartEvent::Bytes { len: 10, is_last: true }),
        MultipartAction::SendPart { part_number: 2, len: 11 }
    ));
    match m.step(MultipartEvent::PartStored { e_tag: Some("e2".to_string()) }) {
        MultipartAction::Complete { parts } => {
            assert_eq!(parts.len(), 2);
            assert_eq!(parts[0].part_number, 1);
            assert_eq!(parts[1].e_tag, "e2");
        },
        other => panic!("unexpected {:?}", other),
    }
    assert!(matches!(m.step(MultipartEvent::CompleteSucceeded), MultipartAction::Done));
    assert_eq!(m.phase(), MultipartPhase::Completed);
}

#[test]
fn multipart_parts_never_exceed_part_size() {
    // seven encrypted frames of 16 MiB + 20 bytes
    let frame = 16 * MIB + 20;
    let mut m = MultipartUpload::new();
    let mut sent = Vec::new();
    for k in 0..7 {
        let mut a = m.step(MultipartEvent::Bytes { len: frame, is_last: k == 6 });
        loop {
            match a {
                MultipartAction::SendPart { part_number, len } => {
                    sent.push((part_number, len));
                    a = m.step(MultipartEvent::PartStored { e_tag: Some(format!("e{}", part_number)) });
                },
                MultipartAction::Read => break,
                MultipartAction::Complete { parts } => {
                    assert_eq!(parts.len(), 2);
                    break;
                },
                other => panic!("unexpected {:?}", other),
            }
        }
    }
    assert_eq!(sent, vec![(1, PART_SIZE), (2, 7 * frame - PART_SIZE)]);
}

#[test]
fn multipart_stream_end_flushes_several_parts() {
    let mut m = MultipartUpload::new();
    assert!(matches!(m.step(MultipartEvent::Bytes { len: 5, is_last: false }), MultipartAction::Read));
    assert!(matches!(m.step(MultipartEvent::StreamEnded), MultipartAction::SendPart { part_number: 1, len: 5 }));
    assert!(matches!(m.step(MultipartEvent::PartStored { e_tag: Some("e".to_string()) }), MultipartAction::Complete { .. }));
}

#[test]
fn multipart_failures_abort() {
    let mut a = MultipartUpload::new();
    assert!(matches!(a.step(MultipartEvent::StreamFailed), MultipartAction::Abort));
    assert_eq!(a.phase(), MultipartPhase::Aborted);

    let mut b = MultipartUpload::new();
    b.step(MultipartEvent::Bytes { len: 5, is_last: true });
    assert!(matches!(b.step(MultipartEvent::PartFailed), MultipartAction::Abort));

    let mut c = MultipartUpload::new();
    c.step(MultipartEvent::Bytes { len: 5, is_last: true });
    assert!(matches!(c.step(MultipartEvent::PartStored { e_tag: None }), MultipartAction::Abort));

    let mut d = MultipartUpload::new();
    assert!(matches!(d.step(MultipartEvent::StreamEnded), MultipartAction::Complete { .. }));
    assert!(matches!(d.step(MultipartEvent::CompleteFailed), MultipartAction::Abort));
}

#[test]
fn drive_ranges_and_chunks() {
    let total = 20 * MIB as u64;
    assert_eq!(drive_chunk_len(0, total), 8 * MIB as u64);
    assert_eq!(drive_chunk_len(16 * MIB as u64, total), 4 * MIB as u64);
    assert_eq!(content_range(0, 8 * MIB as u64, total), "bytes 0-8388607/*");
    assert_eq!(content_range(16 * MIB as u64, 4 * MIB as u64, total), "bytes 16777216-20971519/20971520");
}

#[test]
fn drive_retry_policy() {
    assert_eq!(drive_retry(DriveFailure::Fatal, 0), DriveRetry::GiveUp);
    assert_eq!(drive_retry(DriveFailure::TooManyRequests, 0), DriveRetry::After { seconds: 5, retries: 1 });
    assert_eq!(drive_retry(DriveFailure::TooManyRequests, 9), DriveRetry::After { seconds: 320, retries: 10 });
    assert_eq!(drive_retry(DriveFailure::Transient, 0), DriveRetry::After { seconds: 2, retries: 1 });
    assert_eq!(drive_retry(DriveFailure::Transient, 5), DriveRetry::After { seconds: 64, retries: 6 });
    assert_eq!(drive_retry(DriveFailure::Transient, 6), DriveRetry::GiveUp);
}

#[test]
fn drive_target_splits_the_path() {
    let (folders, name) = drive_target("backups/2024-03-07/x.tar.gz").unwrap();
    assert_eq!(folders, vec!["backups".to_string(), "2024-03-07".to_string()]);
    assert_eq!(name, "x.tar.gz");
    let (f2, n2) = drive_target("//a//b/").unwrap();
    assert_eq!(f2, vec!["a".to_string()]);
    assert_eq!(n2, "b");
    assert!(drive_target("///").is_none());
}

#[test]
fn s3_settings() {
    let cfg = S3ProviderConfig {
        access_key: "ak".to_string(),
        secret_key: "sk".to_string(),
        bucket_name: "b".to_string(),
        end_point_url: "minio:9000".to_string(),
        ssl: false,
        region: None,
    };
    assert_eq!(s3_endpoint(&cfg), "http://minio:9000");
    assert_eq!(s3_region(&cfg), "eu-central-3");
    assert_eq!(sidecar_key("backups/2024-03-07/x.tar.gz.enc"), "backups/2024-03-07/x.tar.gz.enc.meta");
}

#[test]
fn drive_queries_and_tus_headers() {
    assert_eq!(
        backup_agent::storage::drive_folder_query("p1", "backups"),
        "'p1' in parents and name='backups' and mimeType='application/vnd.google-apps.folder' and trashed=false"
    );
    assert_eq!(backup_agent::storage::drive_file_query("f", "x.tar.gz"), "'f' in parents and name='x.tar.gz' and trashed=false");
    let h = backup_agent::storage::tus_upload_headers(
        &"x.tar.gz".to_string(),
        42,
        &"backups/2024-01-01/x.tar.gz".to_string(),
        &"g".to_string(),
        &"success".to_string(),
        backup_agent::backup::BackupMethod::Manual,
    );
    assert_eq!(h[1], ("X-File-Size".to_string(), "42".to_string()));
    assert_eq!(h[5], ("X-Method".to_string(), "manual".to_string()));
}

#[test]
fn drive_answers_are_classified() {
    assert_eq!(classify_drive_answer(Some(200), false), None);
    assert_eq!(classify_drive_answer(Some(308), false), None);
    assert_eq!(classify_drive_answer(Some(429), false), Some(DriveFailure::TooManyRequests));
    assert_eq!(classify_drive_answer(Some(500), false), Some(DriveFailure::Fatal));
    assert_eq!(classify_drive_answer(None, true), Some(DriveFailure::Transient));
    assert_eq!(classify_drive_answer(None, false), Some(DriveFailure::Fatal));
}
