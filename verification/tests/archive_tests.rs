use std::io::Read;

use salvage::archive::{
    archive_units, check_unit, extract_archive, format_timestamp, multiple_archive, single_archive,
    timestamp, ArchiveOutput, BackupUnit, LocalTime,
};
use salvage::compress::{compress, decompress};
use salvage::configuration::{
    ArchiveCompression, ArchivePermission, ArchiveStrategy, Configuration,
};
use salvage::error::Error;
use salvage::tar::{build_archive, parse_archive, TarEntry};

fn entry(name: &str, data: &[u8]) -> TarEntry {
    TarEntry { name: name.as_bytes().to_vec(), data: data.to_vec() }
}

fn config(strategy: ArchiveStrategy, codec: ArchiveCompression, prefix: &str) -> Configuration {
    Configuration {
        data_dir: "/data".to_string(),
        backup_dir: "/backup".to_string(),
        archive_strategy: strategy,
        archive_compression: codec,
        archive_compression_level: 6,
        archive_prefix: prefix.to_string(),
        group_permission: ArchivePermission::Read,
        other_permission: ArchivePermission::Read,
        stop_containers: false,
        is_docker: false,
        run_once: true,
    }
}

fn units_app_db() -> Vec<BackupUnit> {
    vec![
        BackupUnit {
            name: "app".to_string(),
            entries: vec![
                entry("config.yml", b"listen: 8080\n"),
                entry("static/index.html", b"<html></html>"),
            ],
        },
        BackupUnit {
            name: "db".to_string(),
            entries: vec![entry("dump.sql", b"CREATE TABLE t (id INT);\n")],
        },
    ]
}

fn read_tar_entries(bytes: &[u8]) -> Vec<(String, Vec<u8>)> {
    let mut archive = tar::Archive::new(bytes);
    let mut out = Vec::new();
    for e in archive.entries().unwrap() {
        let mut e = e.unwrap();
        let path = e.path().unwrap().to_string_lossy().into_owned();
        let mut data = Vec::new();
        e.read_to_end(&mut data).unwrap();
        out.push((path, data));
    }
    out
}

#[test]
fn tar_builder_output_is_read_back_by_the_tar_crate() {
    let entries = vec![
        entry("app/config.yml", b"listen: 8080\n"),
        entry("app/static/index.html", b"<html></html>"),
        entry("db/dump.sql", b"CREATE TABLE t (id INT);\n"),
    ];
    let bytes = build_archive(&entries);
    assert_eq!(bytes.len() % 512, 0);
    let listed = read_tar_entries(&bytes);
    assert_eq!(listed.len(), 3);
    assert_eq!(listed[0].0, "app/config.yml");
    assert_eq!(listed[0].1, b"listen: 8080\n");
    assert_eq!(listed[1].0, "app/static/index.html");
    assert_eq!(listed[1].1, b"<html></html>");
    assert_eq!(listed[2].0, "db/dump.sql");
    assert_eq!(listed[2].1, b"CREATE TABLE t (id INT);\n");
}

#[test]
fn tar_header_checksum_is_correct() {
    let entries = vec![entry("file.txt", b"payload")];
    let bytes = build_archive(&entries);
    // the checksum field holds the octal sum of the header bytes with
    // the field itself read as eight spaces
    let mut sum: u64 = 0;
    for (i, b) in bytes[..512].iter().enumerate() {
        if (148..156).contains(&i) {
            sum += 32;
        } else {
            sum += *b as u64;
        }
    }
    let field = &bytes[148..154];
    let parsed = u64::from_str_radix(std::str::from_utf8(field).unwrap(), 8).unwrap();
    assert_eq!(parsed, sum);
    assert_eq!(bytes[154], 0);
    assert_eq!(bytes[155], b' ');
}

#[test]
fn tar_parse_inverts_build() {
    let entries = vec![
        entry("a", b""),
        entry("b/c", &[0u8; 512]),
        entry("d", &vec![7u8; 513]),
    ];
    let bytes = build_archive(&entries);
    let parsed = parse_archive(&bytes).unwrap();
    assert_eq!(parsed.len(), 3);
    for (p, e) in parsed.iter().zip(entries.iter()) {
        assert_eq!(p.name, e.name);
        assert_eq!(p.data, e.data);
    }
}

#[test]
fn tar_parse_rejects_garbage() {
    assert!(parse_archive(&vec![1u8; 100]).is_none());
    assert!(parse_archive(&vec![1u8; 2048]).is_none());
    let empty = build_archive(&Vec::new());
    assert_eq!(parse_archive(&empty).unwrap().len(), 0);
}

#[test]
fn every_codec_round_trips_and_actually_compresses() {
    let data: Vec<u8> = b"0123456789".repeat(500);
    for codec in [
        ArchiveCompression::Gzip,
        ArchiveCompression::Xz,
        ArchiveCompression::Bzip2,
        ArchiveCompression::Zstd,
    ] {
        let packed = compress(&codec, 6, &data).unwrap();
        assert_ne!(packed, data, "{:?} must transform its input", codec);
        assert!(packed.len() < data.len(), "{:?} must shrink repetitive input", codec);
        let unpacked = decompress(&codec, &packed).unwrap();
        assert_eq!(unpacked, data);
    }
}

#[test]
fn bzip2_accepts_level_zero_by_raising_it() {
    let data: Vec<u8> = b"xy".repeat(100);
    let packed = compress(&ArchiveCompression::Bzip2, 0, &data).unwrap();
    assert_eq!(decompress(&ArchiveCompression::Bzip2, &packed).unwrap(), data);
}

#[test]
fn decompress_rejects_the_wrong_codec() {
    let data: Vec<u8> = b"payload".repeat(64);
    let packed = compress(&ArchiveCompression::Gzip, 6, &data).unwrap();
    assert!(decompress(&ArchiveCompression::Xz, &packed).is_err());
    assert!(extract_archive(&ArchiveCompression::Xz, &packed).is_none());
}

#[test]
fn single_archive_round_trip_reproduces_every_file() {
    let units = units_app_db();
    let config = config(ArchiveStrategy::Single, ArchiveCompression::Xz, "backup");
    let out = single_archive(&units, &config, "2024-07-09_23-59-01").unwrap();
    assert_eq!(out.file_name, "backup_2024-07-09_23-59-01.tar.xz");
    assert_eq!(out.mode, 0o644);

    // through the library's own extractor
    let extracted = extract_archive(&config.archive_compression, &out.bytes).unwrap();
    let expected = [
        ("app/config.yml", b"listen: 8080\n".to_vec()),
        ("app/static/index.html", b"<html></html>".to_vec()),
        ("db/dump.sql", b"CREATE TABLE t (id INT);\n".to_vec()),
    ];
    assert_eq!(extracted.len(), expected.len());
    for (e, (name, data)) in extracted.iter().zip(expected.iter()) {
        assert_eq!(e.name, name.as_bytes());
        assert_eq!(&e.data, data);
    }

    // and independently through the xz and tar crates
    let mut dec = xz2::read::XzDecoder::new(&out.bytes[..]);
    let mut tar_bytes = Vec::new();
    dec.read_to_end(&mut tar_bytes).unwrap();
    let listed = read_tar_entries(&tar_bytes);
    assert_eq!(listed.len(), expected.len());
    for (l, (name, data)) in listed.iter().zip(expected.iter()) {
        assert_eq!(&l.0, name);
        assert_eq!(&l.1, data);
    }
}

#[test]
fn multiple_archives_hold_one_unit_each() {
    let units = units_app_db();
    let config = config(ArchiveStrategy::Multiple, ArchiveCompression::Gzip, "backup");
    let outs = multiple_archive(&units, &config, "2024-07-09_23-59-01").unwrap();
    assert_eq!(outs.len(), 2);
    assert_eq!(outs[0].file_name, "backup_app_2024-07-09_23-59-01.tar.gz");
    assert_eq!(outs[1].file_name, "backup_db_2024-07-09_23-59-01.tar.gz");
    let first = extract_archive(&config.archive_compression, &outs[0].bytes).unwrap();
    assert_eq!(first.len(), 2);
    assert!(first.iter().all(|e| e.name.starts_with(b"app/")));
    let second = extract_archive(&config.archive_compression, &outs[1].bytes).unwrap();
    assert_eq!(second.len(), 1);
    assert_eq!(second[0].name, b"db/dump.sql");
    assert_eq!(second[0].data, b"CREATE TABLE t (id INT);\n");
}

#[test]
fn nightly_cycle_produces_two_extractable_gzip_archives() {
    // data directory holds `app` and `db`; strategy Multiple, codec
    // Gzip, prefix `nightly`; one timestamp for the whole cycle
    let units = units_app_db();
    let config = config(ArchiveStrategy::Multiple, ArchiveCompression::Gzip, "nightly");
    let ts = format_timestamp(&LocalTime {
        year: 2024,
        month: 7,
        day: 9,
        hour: 23,
        minute: 59,
        second: 1,
    });
    let outs: Vec<ArchiveOutput> = archive_units(&units, &config, &ts).unwrap();
    assert_eq!(outs.len(), 2);
    assert_eq!(outs[0].file_name, "nightly_app_2024-07-09_23-59-01.tar.gz");
    assert_eq!(outs[1].file_name, "nightly_db_2024-07-09_23-59-01.tar.gz");
    for (out, dir) in outs.iter().zip(["app", "db"]) {
        assert_eq!(out.mode, 0o644, "the configured mode applies to each file");
        let mut dec = flate2::read::GzDecoder::new(&out.bytes[..]);
        let mut tar_bytes = Vec::new();
        dec.read_to_end(&mut tar_bytes).unwrap();
        let listed = read_tar_entries(&tar_bytes);
        assert!(!listed.is_empty());
        for (path, _) in &listed {
            assert!(
                path.starts_with(&format!("{}/", dir)),
                "{} holds only the {} subtree",
                out.file_name,
                dir
            );
        }
    }
}

#[test]
fn single_strategy_through_the_dispatcher() {
    let units = units_app_db();
    let config = config(ArchiveStrategy::Single, ArchiveCompression::Zstd, "all");
    let outs = archive_units(&units, &config, "t").unwrap();
    assert_eq!(outs.len(), 1);
    assert_eq!(outs[0].file_name, "all_t.tar.zst");
    let extracted = extract_archive(&config.archive_compression, &outs[0].bytes).unwrap();
    assert_eq!(extracted.len(), 3);
}

#[test]
fn check_unit_accepts_long_names_and_rejects_nul_bytes() {
    for unit in units_app_db() {
        assert!(check_unit(&unit));
    }
    let long = BackupUnit {
        name: "unit".to_string(),
        entries: vec![entry(&"x".repeat(300), b"data")],
    };
    assert!(check_unit(&long), "long names travel in long-name entries");
    let nul = BackupUnit {
        name: "unit".to_string(),
        entries: vec![TarEntry { name: vec![b'a', 0, b'b'], data: Vec::new() }],
    };
    assert!(!check_unit(&nul));
}

#[test]
fn long_names_round_trip_through_the_library() {
    let long_name = format!("deep/{}/file.txt", "d".repeat(150));
    let entries = vec![
        entry(&long_name, b"long payload"),
        entry("short", b"short payload"),
    ];
    let bytes = build_archive(&entries);
    let parsed = parse_archive(&bytes).unwrap();
    assert_eq!(parsed.len(), 2);
    assert_eq!(parsed[0].name, long_name.as_bytes());
    assert_eq!(parsed[0].data, b"long payload");
    assert_eq!(parsed[1].name, b"short");
    assert_eq!(parsed[1].data, b"short payload");
}

#[test]
fn long_names_are_read_back_by_the_tar_crate() {
    let long_name = format!("unit/{}/leaf", "y".repeat(180));
    let entries = vec![entry(&long_name, b"contents")];
    let bytes = build_archive(&entries);
    let listed = read_tar_entries(&bytes);
    assert_eq!(listed.len(), 1);
    assert_eq!(listed[0].0, long_name);
    assert_eq!(listed[0].1, b"contents");
}

#[test]
fn archiving_a_long_path_unit_succeeds_end_to_end() {
    let rel = format!("{}cfg", "sub/".repeat(40));
    let unit = BackupUnit {
        name: "app".to_string(),
        entries: vec![entry(&rel, b"v = 1")],
    };
    let units = vec![unit];
    let config = config(ArchiveStrategy::Multiple, ArchiveCompression::Gzip, "backup");
    let outs = multiple_archive(&units, &config, "t").unwrap();
    assert_eq!(outs.len(), 1);
    let extracted = extract_archive(&config.archive_compression, &outs[0].bytes).unwrap();
    assert_eq!(extracted.len(), 1);
    assert_eq!(extracted[0].name, format!("app/{}", rel).as_bytes());
    assert_eq!(extracted[0].data, b"v = 1");
}

#[test]
fn timestamp_format_pads_every_component() {
    let t = LocalTime { year: 987, month: 1, day: 2, hour: 3, minute: 4, second: 5 };
    assert_eq!(format_timestamp(&t), "0987-01-02_03-04-05");
    let t = LocalTime { year: 2024, month: 12, day: 31, hour: 23, minute: 59, second: 59 };
    assert_eq!(format_timestamp(&t), "2024-12-31_23-59-59");
    let t = LocalTime { year: -44, month: 3, day: 15, hour: 12, minute: 0, second: 0 };
    assert_eq!(format_timestamp(&t), "-0044-03-15_12-00-00");
}

#[test]
fn timestamp_now_is_formatted_or_reports_the_offset() {
    match timestamp() {
        Ok(s) => {
            assert_eq!(s.len(), 19);
            let bytes = s.as_bytes();
            for i in [4, 7, 13, 16] {
                assert_eq!(bytes[i], b'-');
            }
            assert_eq!(bytes[10], b'_');
        },
        Err(e) => assert_eq!(e, Error::TimeOffset),
    }
}
