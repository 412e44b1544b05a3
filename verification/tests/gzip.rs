use win_terminal_commands::gzip::{
    compress_bytes, compressed_name, decompress_bytes, decompress_mode, decompressed_name,
    decompression_output, effective_level, forced_name, has_gz_suffix, header_name, parse_args,
    plan_compress, plan_decompress, read_gzip_mtime, restore_archive, exit_status, CompressPlan,
    DecompressPlan, Options,
};

fn args(list: &[&str]) -> Vec<String> {
    list.iter().map(|s| s.to_string()).collect()
}

fn opts(level: Option<u32>) -> Options {
    let mut o = parse_args(&Vec::new()).unwrap();
    o.level = level;
    o
}

#[test]
fn parses_short_level_flags() {
    let o = parse_args(&args(&["-9"])).unwrap();
    assert_eq!(o.level, Some(9));
    assert!(o.files.is_empty());
}

#[test]
fn parses_combined_short_flags() {
    let o = parse_args(&args(&["-cfk", "a.txt"])).unwrap();
    assert!(o.stdout && o.force && o.keep);
    assert_eq!(o.files, args(&["a.txt"]));
}

#[test]
fn parses_long_flags_and_level_in_cluster() {
    let o = parse_args(&args(&["--decompress", "-c6"])).unwrap();
    assert!(o.decompress && o.stdout);
    assert_eq!(o.level, Some(6));
}

#[test]
fn double_dash_treats_rest_as_files() {
    let o = parse_args(&args(&["--", "-weird"])).unwrap();
    assert_eq!(o.files, args(&["-weird"]));
}

#[test]
fn unknown_option_is_rejected() {
    assert!(parse_args(&args(&["--nope"])).is_err());
    assert!(parse_args(&args(&["-Z"])).is_err());
}

#[test]
fn compressed_name_appends_gz() {
    assert_eq!(compressed_name("dir/a.txt"), "dir/a.txt.gz");
}

#[test]
fn detects_gz_suffix_case_insensitively() {
    assert!(has_gz_suffix("a.GZ"));
    assert!(has_gz_suffix("a.gz"));
    assert!(!has_gz_suffix("a.tar"));
}

#[test]
fn decompressed_name_strips_suffixes() {
    assert_eq!(decompressed_name("dir/a.txt.gz"), Some("dir/a.txt".to_string()));
    assert_eq!(decompressed_name("a.Z"), Some("a".to_string()));
    assert_eq!(decompressed_name("archive.tgz"), Some("archive.tar".to_string()));
    assert_eq!(decompressed_name("plain.txt"), None);
}

#[test]
fn round_trip_compress_then_decompress() {
    let payload = b"the quick brown fox\n".repeat(500);

    // Compressing `data.txt` writes the archive `data.txt.gz` and, by
    // default, removes the source.
    match plan_compress("data.txt", false, true, false, &opts(Some(6))) {
        CompressPlan::Write { output, remove_source } => {
            assert_eq!(output, "data.txt.gz", "archive should be data.txt.gz");
            assert_eq!(output, compressed_name("data.txt"));
            assert!(remove_source, "source should be removed by default");
        }
        _ => panic!("expected an archive to be written"),
    }

    // Gzip magic header.
    let archive = compress_bytes(&payload, 6, 0, Some("data.txt")).expect("compress");
    assert_eq!(&archive[..2], &[0x1f, 0x8b]);
    assert!(archive.len() < payload.len());

    // Decompressing `data.txt.gz` writes `data.txt` back with the same bytes
    // and removes the archive.
    match plan_decompress("data.txt.gz", false, true, false, &opts(None)) {
        DecompressPlan::Write { output, remove_source } => {
            assert_eq!(output, "data.txt");
            assert!(remove_source, "archive should be removed after decompress");
        }
        _ => panic!("expected the archive to be decompressed"),
    }
    let restored = decompress_bytes(&archive).expect("decompress");
    assert_eq!(restored, payload);
    let restored = restore_archive(&archive).expect("restore");
    assert_eq!(restored.data, payload);
    assert_eq!(restored.mtime, None);
}

#[test]
fn keep_flag_preserves_source() {
    let mut keep_opts = opts(Some(1));
    keep_opts.keep = true;
    match plan_compress("keep.txt", false, true, false, &keep_opts) {
        CompressPlan::Write { output, remove_source } => {
            assert_eq!(output, "keep.txt.gz");
            assert!(!remove_source, "source kept with -k");
        }
        _ => panic!("expected an archive to be written"),
    }
}

#[test]
fn test_flag_validates_archive() {
    let archive = compress_bytes(b"validate me", 9, 0, Some("t.txt")).expect("compress");
    assert!(decompress_bytes(&archive).is_ok(), "test should pass on a valid archive");
    assert!(decompress_bytes(b"not gzip").is_err());
    let mut test_opts = opts(None);
    test_opts.test = true;
    assert!(matches!(plan_decompress("t.txt.gz", false, true, false, &test_opts), DecompressPlan::Test));
}

#[test]
fn refuses_to_overwrite_without_force() {
    match plan_compress("o.txt", false, true, true, &opts(Some(6))) {
        CompressPlan::Fail(err) => assert!(err.contains("already exists")),
        _ => panic!("expected refusal"),
    }
    let mut force_opts = opts(Some(6));
    force_opts.force = true;
    assert!(matches!(
        plan_compress("o.txt", false, true, true, &force_opts),
        CompressPlan::Write { .. }
    ));
}

#[test]
fn decompresses_concatenated_members() {
    let a = compress_bytes(b"AAA\n", 6, 0, Some("a.txt")).unwrap();
    let b = compress_bytes(b"BBB\n", 6, 0, Some("b.txt")).unwrap();
    let mut combined = a.clone();
    combined.extend(b);
    assert_eq!(decompress_bytes(&combined).unwrap(), b"AAA\nBBB\n");
}

#[test]
fn force_overrides_gz_suffix_guard() {
    assert!(matches!(
        plan_compress("data.gz", false, true, false, &opts(Some(6))),
        CompressPlan::Unchanged(_)
    ));
    let mut force_opts = opts(Some(6));
    force_opts.force = true;
    match plan_compress("data.gz", false, true, false, &force_opts) {
        CompressPlan::Write { output, .. } => assert_eq!(output, "data.gz.gz"),
        _ => panic!("force should recompress"),
    }
}

#[test]
fn decompression_restores_header_mtime() {
    let pinned_secs: u32 = 1_000_000_000;
    let archive = compress_bytes(b"timestamped", 6, pinned_secs, Some("m.txt")).unwrap();
    assert_eq!(read_gzip_mtime(&archive), Some(pinned_secs));
}

// ---- additional cases -------------------------------------------------

#[test]
fn header_carries_name_and_level_flags() {
    let archive = compress_bytes(b"x", 9, 0x01020304, Some("m.txt")).unwrap();
    assert_eq!(&archive[..10], &[0x1f, 0x8b, 8, 0x08, 4, 3, 2, 1, 2, 255]);
    assert_eq!(&archive[10..16], b"m.txt\0");
    let archive = compress_bytes(b"x", 1, 0, None).unwrap();
    assert_eq!(&archive[..10], &[0x1f, 0x8b, 8, 0, 0, 0, 0, 0, 4, 255]);
    assert_eq!(read_gzip_mtime(&archive), None);
    assert_eq!(read_gzip_mtime(b"\x1f\x8b\x08\x00\x01"), None);
    assert_eq!(read_gzip_mtime(b"PK\x03\x04\x01\x00\x00\x00"), None);
}

#[test]
fn more_decompressed_names() {
    assert_eq!(decompressed_name("x.taz"), Some("x.tar".to_string()));
    assert_eq!(decompressed_name("DIR\\Mixed.Txt.GZ"), Some("DIR\\Mixed.Txt".to_string()));
    assert_eq!(decompressed_name(".gz"), None);
    assert_eq!(decompressed_name("dir/"), None);
    assert_eq!(forced_name("a.bin"), "a.bin.out");
    assert_eq!(decompression_output("a.bin", true), Some("a.bin.out".to_string()));
    assert_eq!(decompression_output("a.bin", false), None);
    assert_eq!(header_name("dir/a.txt"), Some("a.txt".to_string()));
    assert_eq!(header_name("dir/.."), None);
}

#[test]
fn plans_for_missing_and_directories() {
    match plan_compress("d", true, false, false, &opts(None)) {
        CompressPlan::Fail(m) => assert_eq!(m, "d: Is a directory"),
        _ => panic!(),
    }
    match plan_decompress("f.gz", false, false, false, &opts(None)) {
        DecompressPlan::Fail(m) => assert_eq!(m, "f.gz: No such file or directory"),
        _ => panic!(),
    }
    match plan_decompress("f.bin", false, true, false, &opts(None)) {
        DecompressPlan::Unknown(m) => assert_eq!(m, "gzip: f.bin: unknown suffix -- ignored"),
        _ => panic!(),
    }
    match plan_decompress("f.gz", false, true, true, &opts(None)) {
        DecompressPlan::Fail(m) => assert_eq!(m, "f already exists -- not overwritten"),
        _ => panic!(),
    }
    match plan_decompress("f.gz", false, true, false, &opts(None)) {
        DecompressPlan::Write { output, remove_source } => {
            assert_eq!(output, "f");
            assert!(remove_source);
        }
        _ => panic!(),
    }
}

#[test]
fn level_and_mode_defaults() {
    assert_eq!(effective_level(&opts(None)), 6);
    assert_eq!(effective_level(&parse_args(&args(&["--best"])).unwrap()), 9);
    assert_eq!(effective_level(&parse_args(&args(&["--fast"])).unwrap()), 1);
    assert!(decompress_mode(&opts(None), true));
    assert!(!decompress_mode(&opts(None), false));
    assert!(decompress_mode(&parse_args(&args(&["-t"])).unwrap(), false));
    assert_eq!(parse_args(&args(&["-Z"])).err().unwrap(), "unknown option: -Z");
}

#[test]
fn archive_names_round_trip() {
    for path in ["a.txt", "dir/a.txt", "C:\\dir\\x", "archive.tgz", "noext"] {
        let archive = compressed_name(path);
        assert!(has_gz_suffix(&archive));
        assert_eq!(decompressed_name(&archive), Some(path.to_string()));
    }
    // A path ending in a separator has no file name of its own.
    assert_eq!(decompressed_name(&compressed_name("dir/")), None);
}

#[test]
fn trailing_dot_components_do_not_hide_the_file_name() {
    assert!(has_gz_suffix("a.gz/."));
    assert!(has_gz_suffix("dir\\a.GZ\\.\\"));
    assert_eq!(decompressed_name("a.gz/."), Some("a".to_string()));
    assert_eq!(decompressed_name("dir/a.txt.gz/./"), Some("dir/a.txt".to_string()));
    assert!(!has_gz_suffix("./."));
    assert_eq!(decompressed_name("x/.."), None);
}

#[test]
fn options_before_double_dash_are_kept() {
    let o = parse_args(&args(&["-c", "-5", "--", "-d", "f"])).unwrap();
    assert!(o.stdout);
    assert!(!o.decompress);
    assert_eq!(o.level, Some(5));
    assert_eq!(o.files, args(&["-d", "f"]));
}

#[test]
fn parsed_levels_stay_in_range() {
    for flag in ["-0", "-1", "-9", "--fast", "--best", "-c9"] {
        let o = parse_args(&args(&[flag])).unwrap();
        assert!(effective_level(&o) <= 9);
    }
    assert_eq!(effective_level(&parse_args(&args(&["f"])).unwrap()), 6);
}

#[test]
fn restored_archive_carries_its_time_stamp() {
    let archive = compress_bytes(b"stamped", 6, 1_700_000_000, Some("s.txt")).unwrap();
    let restored = restore_archive(&archive).unwrap();
    assert_eq!(restored.data, b"stamped");
    assert_eq!(restored.mtime, Some(1_700_000_000));
    assert!(restore_archive(b"not gzip at all").is_err());
}

#[test]
fn exit_status_follows_the_outcomes() {
    assert_eq!(exit_status(false, &vec![]), 2);
    assert_eq!(exit_status(true, &vec![]), 0);
    assert_eq!(exit_status(true, &vec![true, true]), 0);
    assert_eq!(exit_status(true, &vec![true, false, true]), 1);
}
