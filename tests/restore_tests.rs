use backup_agent::cipher::{open_body, seal_body};
use backup_agent::edge_key::{edge_key_bytes, edge_key_from_fields, pad_base64, EdgeKeyError};
use backup_agent::naming::{classify_download, decrypted_name, DownloadKind};
use backup_agent::restore::{restore_plan, RestorePlan, download_file_name, file_name_from_disposition, restore_payload, restore_result};
use base64::Engine;

#[test]
fn disposition_names_the_file() {
    assert_eq!(
        file_name_from_disposition("attachment; filename=\"x.tar.gz.enc\""),
        Some("x.tar.gz.enc".to_string())
    );
    assert_eq!(file_name_from_disposition("attachment; filename=plain.sql"), Some("plain.sql".to_string()));
    assert_eq!(file_name_from_disposition("inline"), None);
}

#[test]
fn download_name_falls_back_to_url_then_default() {
    assert_eq!(download_file_name(Some("attachment; filename=\"a.sql\""), "http://h/x/y.dump"), "a.sql");
    assert_eq!(download_file_name(None, "https://host/files/abc.tar.gz"), "abc.tar.gz");
    assert_eq!(download_file_name(Some("inline"), "https://host/files/abc.tar.gz"), "abc.tar.gz");
    assert_eq!(download_file_name(None, "https://host/files/"), "downloaded_file");
    assert_eq!(download_file_name(None, "not a url"), "downloaded_file");
}

#[test]
fn encrypted_download_is_decrypted_then_restored() {
    let name = download_file_name(Some("attachment; filename=\"x.tar.gz.enc\""), "http://h/d");
    assert_eq!(classify_download(&name), DownloadKind::Encrypted);
    assert_eq!(decrypted_name(&name), Some("x.tar.gz".to_string()));
    let key = vec![4u8; 32];
    let base = vec![2u8; 8];
    let archive = b"pretend tar.gz bytes".to_vec();
    let body = seal_body(&key, &base, &archive).unwrap();
    assert_eq!(open_body(&key, &base, &body).unwrap(), archive);
    let payload = restore_payload(&vec!["/tmp/r/x.sql".to_string()], &"/tmp/r/x.tar.gz".to_string());
    assert_eq!(payload, Some("/tmp/r/x.sql".to_string()));
    let r = restore_result(&"g".to_string(), true, true);
    assert_eq!(r.status, "success");
}

#[test]
fn restore_payload_choices() {
    let archive = "/tmp/r/a.tar.gz".to_string();
    assert_eq!(restore_payload(&vec![], &archive), None);
    assert_eq!(restore_payload(&vec!["a".to_string(), "b".to_string()], &archive), Some(archive.clone()));
    assert_eq!(restore_result(&"g".to_string(), false, true).status, "failed");
    assert_eq!(restore_result(&"g".to_string(), true, false).status, "failed");
}

#[test]
fn edge_key_padding_and_decoding() {
    assert_eq!(pad_base64("abc"), "abc=");
    assert_eq!(pad_base64("abcd"), "abcd");
    assert_eq!(pad_base64("ab"), "ab==");
    let json = b"{\"serverUrl\":\"https://s\",\"agentId\":\"a1\",\"masterKeyB64\":\"k\"}";
    let enc = base64::engine::general_purpose::URL_SAFE_NO_PAD.encode(json);
    assert_eq!(edge_key_bytes(&enc).unwrap(), json.to_vec());
    assert_eq!(edge_key_bytes("***"), Err(EdgeKeyError::Base64Error));
}

#[test]
fn edge_key_needs_every_field() {
    let k = edge_key_from_fields(Some("https://s".to_string()), Some("a1".to_string()), Some("k".to_string())).unwrap();
    assert_eq!(k.server_url, "https://s");
    assert_eq!(k.agent_id, "a1");
    let missing = edge_key_from_fields(Some("https://s".to_string()), None, Some("k".to_string()));
    assert_eq!(missing.unwrap_err(), EdgeKeyError::InvalidKey);
}

#[test]
fn restore_plans_by_suffix() {
    assert!(matches!(restore_plan("a.sql"), RestorePlan::UseAsIs));
    assert!(matches!(restore_plan("a.tar.gz"), RestorePlan::Decompress));
    assert!(matches!(restore_plan("a.zip"), RestorePlan::Reject));
    match restore_plan("x.tar.gz.enc") {
        RestorePlan::DecryptThenDecompress { archive_name } => assert_eq!(archive_name, "x.tar.gz"),
        other => panic!("unexpected {:?}", other),
    }
}
