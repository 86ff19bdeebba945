use salvage::configuration::{
    get_permission, validate_config, ArchiveCompression, ArchivePermission, ArchiveStrategy,
    Configuration, RawSettings,
};
use salvage::error::Error;

fn raw_none() -> RawSettings {
    RawSettings {
        data_dir: None,
        backup_dir: None,
        strategy: None,
        compression: None,
        compression_level: None,
        prefix: None,
        group_permission: None,
        other_permission: None,
        container_management: None,
        is_docker: None,
        run_once: None,
    }
}

#[test]
fn permission_table_is_total() {
    let cases = [
        (ArchivePermission::NoAccess, ArchivePermission::NoAccess, 0o600),
        (ArchivePermission::NoAccess, ArchivePermission::Read, 0o604),
        (ArchivePermission::NoAccess, ArchivePermission::Write, 0o606),
        (ArchivePermission::Read, ArchivePermission::NoAccess, 0o640),
        (ArchivePermission::Read, ArchivePermission::Read, 0o644),
        (ArchivePermission::Read, ArchivePermission::Write, 0o646),
        (ArchivePermission::Write, ArchivePermission::NoAccess, 0o660),
        (ArchivePermission::Write, ArchivePermission::Read, 0o664),
        (ArchivePermission::Write, ArchivePermission::Write, 0o666),
    ];
    for (group, other, mode) in cases {
        assert_eq!(get_permission(&group, &other), mode);
    }
}

#[test]
fn archive_permission_uses_configured_classes() {
    let mut raw = raw_none();
    raw.group_permission = Some("write".to_string());
    raw.other_permission = Some("none".to_string());
    let config = validate_config(raw, true, true).unwrap();
    assert_eq!(config.archive_permission(), 0o660);
}

#[test]
fn parse_level_clamps_to_codec_maximum() {
    assert_eq!(ArchiveCompression::Gzip.parse_level("10"), 9);
    assert_eq!(ArchiveCompression::Bzip2.parse_level("100"), 9);
    assert_eq!(ArchiveCompression::Xz.parse_level("12"), 9);
    assert_eq!(ArchiveCompression::Zstd.parse_level("23"), 22);
    assert_eq!(ArchiveCompression::Zstd.parse_level("10"), 10);
}

#[test]
fn parse_level_falls_back_to_default_on_bad_input() {
    assert_eq!(ArchiveCompression::Gzip.parse_level("fast"), 6);
    assert_eq!(ArchiveCompression::Zstd.parse_level(""), 6);
    assert_eq!(ArchiveCompression::Xz.parse_level("-3"), 6);
    assert_eq!(ArchiveCompression::Bzip2.parse_level("99999999999999999999"), 6);
    assert_eq!(ArchiveCompression::Gzip.parse_level("3.5"), 6);
}

#[test]
fn parse_level_keeps_valid_values() {
    assert_eq!(ArchiveCompression::Gzip.parse_level("0"), 0);
    assert_eq!(ArchiveCompression::Gzip.parse_level("9"), 9);
    assert_eq!(ArchiveCompression::Zstd.parse_level("22"), 22);
    assert_eq!(ArchiveCompression::Xz.parse_level(" 7 "), 7);
    assert_eq!(ArchiveCompression::Gzip.parse_level("+4"), 4);
}

#[test]
fn strategy_parses_case_insensitively() {
    assert_eq!(ArchiveStrategy::from_str("single").unwrap(), ArchiveStrategy::Single);
    assert_eq!(ArchiveStrategy::from_str("S").unwrap(), ArchiveStrategy::Single);
    assert_eq!(ArchiveStrategy::from_str("SINGLE").unwrap(), ArchiveStrategy::Single);
    assert_eq!(ArchiveStrategy::from_str("m").unwrap(), ArchiveStrategy::Multiple);
    assert_eq!(ArchiveStrategy::from_str("Multiple").unwrap(), ArchiveStrategy::Multiple);
    assert_eq!(ArchiveStrategy::from_str("both"), Err(Error::InvalidBackupType));
}

#[test]
fn compression_parses_case_insensitively() {
    assert_eq!(ArchiveCompression::from_str("bzip2").unwrap(), ArchiveCompression::Bzip2);
    assert_eq!(ArchiveCompression::from_str("BZip").unwrap(), ArchiveCompression::Bzip2);
    assert_eq!(ArchiveCompression::from_str("bz2").unwrap(), ArchiveCompression::Bzip2);
    assert_eq!(ArchiveCompression::from_str("gz").unwrap(), ArchiveCompression::Gzip);
    assert_eq!(ArchiveCompression::from_str("GZIP").unwrap(), ArchiveCompression::Gzip);
    assert_eq!(ArchiveCompression::from_str("xz").unwrap(), ArchiveCompression::Xz);
    assert_eq!(ArchiveCompression::from_str("ZSTD").unwrap(), ArchiveCompression::Zstd);
    assert_eq!(ArchiveCompression::from_str("zst").unwrap(), ArchiveCompression::Zstd);
    assert_eq!(ArchiveCompression::from_str("lz4"), Err(Error::InvalidCompressionType));
}

#[test]
fn permission_parses_case_insensitively() {
    assert_eq!(ArchivePermission::from_str("read").unwrap(), ArchivePermission::Read);
    assert_eq!(ArchivePermission::from_str("R").unwrap(), ArchivePermission::Read);
    assert_eq!(ArchivePermission::from_str("write").unwrap(), ArchivePermission::Write);
    assert_eq!(ArchivePermission::from_str("W").unwrap(), ArchivePermission::Write);
    assert_eq!(ArchivePermission::from_str("Read-Write").unwrap(), ArchivePermission::Write);
    assert_eq!(ArchivePermission::from_str("rw").unwrap(), ArchivePermission::Write);
    assert_eq!(ArchivePermission::from_str("none").unwrap(), ArchivePermission::NoAccess);
    assert_eq!(ArchivePermission::from_str("n").unwrap(), ArchivePermission::NoAccess);
    assert_eq!(ArchivePermission::from_str("").unwrap(), ArchivePermission::NoAccess);
    assert_eq!(ArchivePermission::from_str("full"), Err(Error::InvalidPermission));
}

#[test]
fn display_names_and_extensions() {
    assert_eq!(ArchiveStrategy::Single.name(), "Single");
    assert_eq!(ArchiveStrategy::Multiple.name(), "Multiple");
    assert_eq!(ArchiveCompression::Bzip2.name(), "BZip2");
    assert_eq!(ArchiveCompression::Gzip.name(), "GZip");
    assert_eq!(ArchiveCompression::Xz.name(), "XZ");
    assert_eq!(ArchiveCompression::Zstd.name(), "ZStd");
    assert_eq!(ArchivePermission::Read.name(), "Read");
    assert_eq!(ArchivePermission::Write.name(), "Read-Write");
    assert_eq!(ArchivePermission::NoAccess.name(), "None");
    assert_eq!(ArchiveCompression::Bzip2.extension(), "bz2");
    assert_eq!(ArchiveCompression::Gzip.extension(), "gz");
    assert_eq!(ArchiveCompression::Xz.extension(), "xz");
    assert_eq!(ArchiveCompression::Zstd.extension(), "zst");
}

#[test]
fn validate_config_defaults() {
    let config: Configuration = validate_config(raw_none(), true, true).unwrap();
    assert_eq!(config.data_dir, "/data");
    assert_eq!(config.backup_dir, "/backup");
    assert_eq!(config.archive_strategy, ArchiveStrategy::Multiple);
    assert_eq!(config.archive_compression, ArchiveCompression::Gzip);
    assert_eq!(config.archive_compression_level, 6);
    assert_eq!(config.archive_prefix, "salvage");
    assert_eq!(config.group_permission, ArchivePermission::Read);
    assert_eq!(config.other_permission, ArchivePermission::Read);
    assert!(config.stop_containers);
    assert!(!config.is_docker);
    assert!(!config.run_once);
    assert!(!config.container_management_enabled());
}

#[test]
fn validate_config_reads_every_setting() {
    let raw = RawSettings {
        data_dir: Some("/srv/data".to_string()),
        backup_dir: Some("/srv/backup".to_string()),
        strategy: Some("single".to_string()),
        compression: Some("xz".to_string()),
        compression_level: Some("8".to_string()),
        prefix: Some("nightly".to_string()),
        group_permission: Some("write".to_string()),
        other_permission: Some("none".to_string()),
        container_management: Some("TRUE".to_string()),
        is_docker: Some("true".to_string()),
        run_once: Some("yes".to_string()),
    };
    let config = validate_config(raw, true, true).unwrap();
    assert_eq!(config.data_dir, "/srv/data");
    assert_eq!(config.backup_dir, "/srv/backup");
    assert_eq!(config.archive_strategy, ArchiveStrategy::Single);
    assert_eq!(config.archive_compression, ArchiveCompression::Xz);
    assert_eq!(config.archive_compression_level, 8);
    assert_eq!(config.archive_prefix, "nightly");
    assert_eq!(config.group_permission, ArchivePermission::Write);
    assert_eq!(config.other_permission, ArchivePermission::NoAccess);
    assert!(config.stop_containers);
    assert!(config.is_docker);
    assert!(!config.run_once, "a flag is true only for the word true");
    assert!(config.container_management_enabled());
}

#[test]
fn validate_config_rejects_bad_values_in_order() {
    let mut raw = raw_none();
    raw.strategy = Some("both".to_string());
    raw.compression = Some("lz4".to_string());
    assert_eq!(validate_config(raw, true, true), Err(Error::InvalidBackupType));

    let mut raw = raw_none();
    raw.compression = Some("lz4".to_string());
    assert_eq!(validate_config(raw, true, true), Err(Error::InvalidCompressionType));

    let mut raw = raw_none();
    raw.group_permission = Some("full".to_string());
    assert_eq!(validate_config(raw, true, true), Err(Error::InvalidPermission));

    let mut raw = raw_none();
    raw.other_permission = Some("full".to_string());
    assert_eq!(validate_config(raw, true, true), Err(Error::InvalidPermission));
}

#[test]
fn validate_config_requires_both_directories() {
    assert_eq!(
        validate_config(raw_none(), false, true),
        Err(Error::NoVolumeMounted("/data".to_string()))
    );
    assert_eq!(
        validate_config(raw_none(), true, false),
        Err(Error::NoVolumeMounted("/backup".to_string()))
    );
    let mut raw = raw_none();
    raw.data_dir = Some("/elsewhere".to_string());
    assert_eq!(
        validate_config(raw, false, true),
        Err(Error::NoVolumeMounted("/elsewhere".to_string()))
    );
}

#[test]
fn error_messages_name_the_failure() {
    assert_eq!(
        Error::InvalidBackupType.message(),
        "Provided value cannot be converted to ArchiveStrategy enum"
    );
    assert_eq!(
        Error::InvalidCompressionType.message(),
        "Provided value cannot be converted to ArchiveCompression enum"
    );
    assert_eq!(
        Error::InvalidPermission.message(),
        "Provided value cannot be converted to ArchivePermission enum"
    );
    assert_eq!(
        Error::NoVolumeMounted("/data".to_string()).message(),
        "No volume mounted at: /data"
    );
    assert_eq!(Error::NoSalvageContainer.message(), "No running salvage container was found");
    assert_eq!(Error::DockerApi("down".to_string()).message(), "container runtime error: down");
    assert_eq!(Error::Io("broken".to_string()).message(), "io error: broken");
    assert_eq!(
        Error::TimeOffset.message(),
        "The local UTC offset could not be determined"
    );
}
