use backup_agent::naming::{
    archive_path, artifact_file_name, classify_download, date_stamp, decrypted_name, full_extension,
    full_file_name, full_file_path, remote_path, CalendarDate, DownloadKind,
};
use backup_agent::text::{camel_to_snake, decimal_string, parse_u64};

#[test]
fn decimal_rendering() {
    assert_eq!(decimal_string(0), "0");
    assert_eq!(decimal_string(1048576), "1048576");
    assert_eq!(decimal_string(u64::MAX), "18446744073709551615");
}

#[test]
fn unsigned_parsing() {
    assert_eq!(parse_u64("1048576"), Some(1048576));
    assert_eq!(parse_u64("+42"), Some(42));
    assert_eq!(parse_u64("18446744073709551615"), Some(u64::MAX));
    assert_eq!(parse_u64("18446744073709551616"), None);
    assert_eq!(parse_u64(""), None);
    assert_eq!(parse_u64("+"), None);
    assert_eq!(parse_u64("12a"), None);
    assert_eq!(parse_u64("-1"), None);
}

#[test]
fn camel_case_keys_become_snake_case() {
    assert_eq!(camel_to_snake("backupStorageId"), "backup_storage_id");
    assert_eq!(camel_to_snake("Id"), "id");
    assert_eq!(camel_to_snake("already_snake"), "already_snake");
}

#[test]
fn full_extension_takes_all_suffixes() {
    assert_eq!(full_extension("/tmp/run/x.tar.gz"), ".tar.gz");
    assert_eq!(full_extension("dump.sql"), ".sql");
    assert_eq!(full_extension("dir.d/noext"), "");
    assert_eq!(full_extension(""), "");
    assert_eq!(full_extension("a.b/"), ".b");
    assert_eq!(full_extension("dir/x.tar.gz//"), ".tar.gz");
    assert_eq!(full_extension("foo.txt/."), ".txt");
    assert_eq!(full_extension("a.b/.."), "");
    assert_eq!(full_extension("."), "");
}

#[test]
fn artifact_names() {
    assert_eq!(artifact_file_name("abc", false), "abc.tar.gz");
    assert_eq!(artifact_file_name("abc", true), "abc.tar.gz.enc");
    let plain = full_file_name(false).unwrap();
    assert!(plain.ends_with(".tar.gz"));
    assert_eq!(plain.len(), 36 + 7);
    assert_eq!(&plain[14..15], "4");
    assert!(matches!(&plain[19..20], "8" | "9" | "a" | "b"));
    assert_eq!(&plain[8..9], "-");
    let enc = full_file_name(true).unwrap();
    assert!(enc.ends_with(".tar.gz.enc"));
    assert_ne!(full_file_name(false), full_file_name(false));
}

#[test]
fn remote_paths_are_dated() {
    let d = CalendarDate { year: 2024, month: 3, day: 7 };
    assert_eq!(date_stamp(d), "2024-03-07");
    assert_eq!(remote_path(d, "a.tar.gz"), "backups/2024-03-07/a.tar.gz");
    let far = CalendarDate { year: 12345, month: 12, day: 31 };
    assert_eq!(date_stamp(far), "+12345-12-31");
    let p = full_file_path(&"f.tar.gz".to_string()).unwrap();
    assert!(p.starts_with("backups/"));
    assert!(p.ends_with("/f.tar.gz"));
    assert_eq!(p.len(), "backups/".len() + 10 + 1 + "f.tar.gz".len());
}

#[test]
fn archive_path_keeps_tar_gz() {
    assert_eq!(archive_path("/tmp/x/y.tar.gz"), Some("/tmp/x/y.tar.gz".to_string()));
}

#[test]
fn archive_path_replaces_extensions() {
    assert_eq!(archive_path("/tmp/run/db.sql"), Some("/tmp/run/db.tar.gz".to_string()));
    assert_eq!(archive_path("/tmp/run/a.b.sql"), Some("/tmp/run/a.b.tar.gz".to_string()));
    assert_eq!(archive_path("/tmp/run/.hidden"), Some("/tmp/run/.hidden.tar.gz".to_string()));
    assert_eq!(archive_path("/tmp/run/dump"), Some("/tmp/run/dump.tar.gz".to_string()));
    assert_eq!(archive_path("/tmp/run/"), None);
}

#[test]
fn downloads_are_classified_by_suffix() {
    assert_eq!(classify_download("old.sql"), DownloadKind::Legacy);
    assert_eq!(classify_download("old.dump"), DownloadKind::Legacy);
    assert_eq!(classify_download("x.tar.gz"), DownloadKind::Compressed);
    assert_eq!(classify_download("x.tar.gz.enc"), DownloadKind::Encrypted);
    assert_eq!(classify_download("x.zip"), DownloadKind::Unknown);
    assert_eq!(decrypted_name("x.tar.gz.enc"), Some("x.tar.gz".to_string()));
    assert_eq!(decrypted_name("x.tar.gz"), None);
}
