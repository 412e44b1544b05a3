use win_terminal_commands::checksum::{
    format_output, has_md5_prefix, hash_reader, hex, is_hex32, parse_args, parse_checksum_line,
    select_mode, string_label, CheckTally, FileDigest, LineAction, Mode,
};
use win_terminal_commands::md5::Md5;
use win_terminal_commands::text::split_lines;

fn args(list: &[&str]) -> Vec<String> {
    list.iter().map(|s| s.to_string()).collect()
}

// RFC 1321 / MD5 reference test vectors.
#[test]
fn rfc1321_empty_string() {
    assert_eq!(hex(&Md5::digest(b"")), "d41d8cd98f00b204e9800998ecf8427e");
}

#[test]
fn rfc1321_single_a() {
    assert_eq!(hex(&Md5::digest(b"a")), "0cc175b9c0f1b6a831c399e269772661");
}

#[test]
fn rfc1321_abc() {
    assert_eq!(hex(&Md5::digest(b"abc")), "900150983cd24fb0d6963f7d28e17f72");
}

#[test]
fn rfc1321_message_digest() {
    assert_eq!(
        hex(&Md5::digest(b"message digest")),
        "f96b697d7cb7938d525a2f31aaf161d0"
    );
}

#[test]
fn rfc1321_alphabet() {
    assert_eq!(
        hex(&Md5::digest(b"abcdefghijklmnopqrstuvwxyz")),
        "c3fcd3d76192e4007dfb496cca67e13b"
    );
}

#[test]
fn rfc1321_mixed_alnum() {
    assert_eq!(
        hex(&Md5::digest(
            b"ABCDEFGHIJKLMNOPQRSTUVWXYZabcdefghijklmnopqrstuvwxyz0123456789"
        )),
        "d174ab98d277d9f5a5611c2c9f419d9f"
    );
}

#[test]
fn rfc1321_long_digits() {
    let input = "1234567890".repeat(8);
    assert_eq!(
        hex(&Md5::digest(input.as_bytes())),
        "57edf4a22be3c955ac49da2e2107b67a"
    );
}

/// A block boundary at exactly 56 bytes forces a second padding block.
#[test]
fn input_spanning_block_boundary() {
    let input = vec![b'a'; 56];
    assert_eq!(hex(&Md5::digest(&input)), "3b0c8ac703f828b04c6c197006d17218");

    let input = vec![b'a'; 64];
    assert_eq!(hex(&Md5::digest(&input)), "014842d480b571495a4a0363793f7367");
}

/// Stream the same data in many small chunks; the result must match.
#[test]
fn streaming_matches_one_shot() {
    let data = b"The quick brown fox jumps over the lazy dog";
    let one_shot = hex(&Md5::digest(data));

    let mut hasher = Md5::new();
    for byte in data {
        hasher.update(std::slice::from_ref(byte));
    }
    assert_eq!(hex(&hasher.finalize()), one_shot);
}

#[test]
fn hex_is_lowercase() {
    let digest = Md5::digest(b"abc");
    assert_eq!(hex(&digest), "900150983cd24fb0d6963f7d28e17f72");
}

#[test]
fn format_default_bsd_style() {
    assert_eq!(
        format_output("file.txt", "abc123", false, false),
        "MD5 (file.txt) = abc123"
    );
}

#[test]
fn format_quiet_is_hash_only() {
    assert_eq!(format_output("file.txt", "abc123", true, false), "abc123");
}

#[test]
fn format_reverse_is_hash_first() {
    assert_eq!(
        format_output("file.txt", "abc123", false, true),
        "abc123  file.txt"
    );
}

#[test]
fn parse_gnu_text_format() {
    let (name, hash) = parse_checksum_line("900150983cd24fb0d6963f7d28e17f72  hello.txt")
        .expect("GNU text line");
    assert_eq!(name, "hello.txt");
    assert_eq!(hash, "900150983cd24fb0d6963f7d28e17f72");
}

#[test]
fn parse_gnu_binary_format() {
    let (name, hash) =
        parse_checksum_line("900150983cd24fb0d6963f7d28e17f72 *hello.txt").unwrap();
    assert_eq!(name, "hello.txt");
    assert_eq!(hash, "900150983cd24fb0d6963f7d28e17f72");
}

#[test]
fn parse_bsd_format() {
    let (name, hash) =
        parse_checksum_line("MD5 (hello.txt) = 900150983cd24fb0d6963f7d28e17f72").unwrap();
    assert_eq!(name, "hello.txt");
    assert_eq!(hash, "900150983cd24fb0d6963f7d28e17f72");
}

#[test]
fn parse_bsd_format_case_insensitive_prefix() {
    let (name, _) =
        parse_checksum_line("md5 (hello.txt) = 900150983cd24fb0d6963f7d28e17f72").unwrap();
    assert_eq!(name, "hello.txt");
}

#[test]
fn parse_uppercase_hex_is_lowercased() {
    let (_, hash) = parse_checksum_line("MD5 (x) = 900150983CD24FB0D6963F7D28E17F72").unwrap();
    assert_eq!(hash, "900150983cd24fb0d6963f7d28e17f72");
}

#[test]
fn parse_name_with_spaces_is_preserved() {
    let (name, _) =
        parse_checksum_line("MD5 (my file.txt) = 900150983cd24fb0d6963f7d28e17f72").unwrap();
    assert_eq!(name, "my file.txt");
}

#[test]
fn parse_rejects_malformed_lines() {
    assert!(parse_checksum_line("").is_none());
    assert!(parse_checksum_line("not a checksum").is_none());
    assert!(parse_checksum_line("ZZ0150983cd24fb0d6963f7d28e17f72  x").is_none());
    assert!(parse_checksum_line("MD5 (x) = tooShort").is_none());
}

#[test]
fn parse_keeps_internal_spaces_verbatim() {
    let (name, _) =
        parse_checksum_line("900150983cd24fb0d6963f7d28e17f72  my  file .txt").unwrap();
    assert_eq!(name, "my  file .txt");
}

#[test]
fn parse_rejects_leading_whitespace() {
    assert!(parse_checksum_line(" 900150983cd24fb0d6963f7d28e17f72  hello.txt").is_none());
}

#[test]
fn parse_rejects_trailing_whitespace_after_hash() {
    assert!(parse_checksum_line("MD5 (x) = 900150983cd24fb0d6963f7d28e17f72 ").is_none());
}

#[test]
fn parse_string_takes_next_argument() {
    let opts = parse_args(&args(&["-s", "hello"])).unwrap();
    assert_eq!(opts.string.as_deref(), Some("hello"));
}

#[test]
fn string_mode_has_precedence_over_files() {
    let opts = parse_args(&args(&["-s", "hello", "ignored.txt"])).unwrap();
    assert_eq!(opts.string.as_deref(), Some("hello"));
    assert_eq!(opts.files, vec!["ignored.txt".to_string()]);
    assert!(matches!(select_mode(&opts), Mode::HashString));
}

#[test]
fn parse_string_equals_form() {
    let opts = parse_args(&args(&["--string=hi"])).unwrap();
    assert_eq!(opts.string.as_deref(), Some("hi"));
}

#[test]
fn parse_check_takes_next_argument() {
    let opts = parse_args(&args(&["-c", "sums.md5"])).unwrap();
    assert_eq!(opts.check.as_deref(), Some("sums.md5"));
}

#[test]
fn parse_missing_string_value_errors() {
    assert!(parse_args(&args(&["-s"])).is_err());
}

#[test]
fn parse_unknown_option_errors() {
    assert!(parse_args(&args(&["-z"])).is_err());
}

#[test]
fn parse_double_dash_treats_rest_as_files() {
    let opts = parse_args(&args(&["--", "-q"])).unwrap();
    assert!(!opts.quiet);
    assert_eq!(opts.files, vec!["-q".to_string()]);
}

#[test]
fn parse_flag_then_files() {
    let opts = parse_args(&args(&["-q", "a.txt", "b.txt"])).unwrap();
    assert!(opts.quiet);
    assert_eq!(opts.files, vec!["a.txt".to_string(), "b.txt".to_string()]);
}

#[test]
fn parse_clusters_short_flags() {
    let opts = parse_args(&args(&["-qr", "a.txt"])).unwrap();
    assert!(opts.quiet);
    assert!(opts.reverse);
    assert_eq!(opts.files, vec!["a.txt".to_string()]);
}

#[test]
fn parse_short_flag_with_attached_argument() {
    let opts = parse_args(&args(&["-shello"])).unwrap();
    assert_eq!(opts.string.as_deref(), Some("hello"));
}

#[test]
fn parse_short_flag_consuming_next_argument() {
    let opts = parse_args(&args(&["-qs", "hello"])).unwrap();
    assert!(opts.quiet);
    assert_eq!(opts.string.as_deref(), Some("hello"));
}

#[test]
fn parse_unknown_char_in_cluster_errors() {
    assert!(parse_args(&args(&["-qz"])).is_err());
}

// ---- additional cases -------------------------------------------------

#[test]
fn parse_errors_carry_messages() {
    assert_eq!(parse_args(&args(&["-s"])).err().unwrap(), "option -s requires an argument");
    assert_eq!(parse_args(&args(&["--check"])).err().unwrap(), "option -c requires an argument");
    assert_eq!(parse_args(&args(&["-qz"])).err().unwrap(), "unknown option: -z");
    assert_eq!(parse_args(&args(&["--bogus"])).err().unwrap(), "unknown option: --bogus");
    assert_eq!(parse_args(&args(&["-h"])).err().unwrap(), "help requested");
    assert_eq!(parse_args(&args(&["--help"])).err().unwrap(), "help requested");
}

#[test]
fn single_dash_is_an_unknown_option() {
    assert_eq!(parse_args(&args(&["-"])).err().unwrap(), "unknown option: -");
    let opts = parse_args(&args(&["--", "-"])).unwrap();
    assert_eq!(opts.files, vec!["-".to_string()]);
    assert!(matches!(select_mode(&opts), Mode::Files));
}

#[test]
fn mode_precedence_order() {
    let opts = parse_args(&args(&["-c", "sums", "-p", "f"])).unwrap();
    assert!(matches!(select_mode(&opts), Mode::Check));
    let opts = parse_args(&args(&["-p", "f"])).unwrap();
    assert!(matches!(select_mode(&opts), Mode::Print));
    let opts = parse_args(&args(&[])).unwrap();
    assert!(matches!(select_mode(&opts), Mode::Stdin));
}

#[test]
fn string_label_is_quoted() {
    assert_eq!(string_label("abc"), "\"abc\"");
}

#[test]
fn md5_prefix_and_hex32_predicates() {
    assert!(has_md5_prefix("Md5 (x"));
    assert!(!has_md5_prefix("MD6 (x"));
    assert!(is_hex32("900150983cd24fb0d6963f7d28e17f72"));
    assert!(is_hex32("900150983CD24FB0D6963F7D28E17F72"));
    assert!(!is_hex32("900150983cd24fb0d6963f7d28e17f7"));
    assert!(!is_hex32("900150983cd24fb0d6963f7d28e17f7g"));
}

#[test]
fn hash_reader_matches_one_shot_over_chunks() {
    let chunks = vec![b"The quick ".to_vec(), Vec::new(), b"brown fox".to_vec()];
    assert_eq!(
        hex(&hash_reader(&chunks)),
        hex(&Md5::digest(b"The quick brown fox"))
    );
    assert_eq!(hex(&hash_reader(&Vec::new())), "d41d8cd98f00b204e9800998ecf8427e");
}

#[test]
fn check_tally_counts_and_reports() {
    let mut t = CheckTally::new();
    assert!(matches!(t.read_line("   "), LineAction::Skip));
    match t.read_line("this is not a checksum line") {
        LineAction::Malformed(w) => {
            assert_eq!(w, "WARNING: this is not a checksum line is improperly formatted")
        }
        _ => panic!("expected malformed"),
    }
    let (name, hash) = match t.read_line("MD5 (a.txt) = 900150983cd24fb0d6963f7d28e17f72") {
        LineAction::Verify(n, h) => (n, h),
        _ => panic!("expected entry"),
    };
    assert_eq!(
        t.record(&name, &hash, FileDigest::Computed("900150983CD24FB0D6963F7D28E17F72".into()), false),
        Some("a.txt: OK".to_string())
    );
    assert_eq!(
        t.record("b.txt", &hash, FileDigest::Computed("00000000000000000000000000000000".into()), false),
        Some("b.txt: FAILED".to_string())
    );
    assert_eq!(
        t.record("c.txt", &hash, FileDigest::Unreadable, true),
        Some("c.txt: FAILED open or read".to_string())
    );
    assert_eq!(t.record("a.txt", &hash, FileDigest::Computed(hash.clone()), true), None);
    assert_eq!((t.total, t.failed, t.malformed), (1, 2, 1));
    let (warnings, code) = t.finish("sums.md5");
    assert_eq!(
        warnings,
        vec![
            "WARNING: 2 of 1 computed checksums did NOT match".to_string(),
            "WARNING: 1 line is improperly formatted".to_string()
        ]
    );
    assert_eq!(code, 1);
}

#[test]
fn check_tally_empty_file_fails() {
    let t = CheckTally::new();
    let (warnings, code) = t.finish("sums.md5");
    assert_eq!(
        warnings,
        vec!["sums.md5: no properly formatted checksum lines found".to_string()]
    );
    assert_eq!(code, 1);
}

#[test]
fn check_tally_all_match_passes() {
    let mut t = CheckTally::new();
    let (name, hash) = match t.read_line("900150983cd24fb0d6963f7d28e17f72  ok.txt") {
        LineAction::Verify(n, h) => (n, h),
        _ => panic!("expected entry"),
    };
    assert_eq!(name, "ok.txt");
    let d = hex(&Md5::digest(b"abc"));
    assert_eq!(t.record(&name, &hash, FileDigest::Computed(d), false), Some("ok.txt: OK".into()));
    let (warnings, code) = t.finish("sums.md5");
    assert!(warnings.is_empty());
    assert_eq!(code, 0);
}

/// Runs a check pass over `content`, where every named file holds `abc`
/// and `missing.txt` cannot be read; returns the exit status.
fn check_pass(content: &str, quiet: bool) -> (Vec<String>, Vec<String>, i32) {
    let mut tally = CheckTally::new();
    let mut out = Vec::new();
    let mut err = Vec::new();
    for line in split_lines(content) {
        match tally.read_line(&line) {
            LineAction::Skip => {}
            LineAction::Malformed(w) => err.push(w),
            LineAction::Verify(name, expected) => {
                let digest = if name == "missing.txt" {
                    FileDigest::Unreadable
                } else {
                    FileDigest::Computed(hex(&Md5::digest(b"abc")))
                };
                if let Some(m) = tally.record(&name, &expected, digest, quiet) {
                    out.push(m);
                }
            }
        }
    }
    let (warnings, code) = tally.finish("sums.md5");
    err.extend(warnings);
    (out, err, code)
}

#[test]
fn check_mode_reports_matches_and_mismatches() {
    let good_hash = hex(&Md5::digest(b"abc"));
    let wrong_hash = "00000000000000000000000000000000";
    let content = format!("MD5 (good.txt) = {good_hash}\nMD5 (bad.txt) = {wrong_hash}\n");
    let (out, err, code) = check_pass(&content, false);
    assert_eq!(code, 1, "one mismatch should yield exit code 1");
    assert_eq!(out, vec!["good.txt: OK".to_string(), "bad.txt: FAILED".to_string()]);
    assert_eq!(err, vec!["WARNING: 1 of 2 computed checksums did NOT match".to_string()]);
}

#[test]
fn check_mode_fails_on_malformed_lines() {
    let good_hash = hex(&Md5::digest(b"abc"));
    let content = format!("MD5 (good.txt) = {good_hash}\nthis is not a checksum line\n");
    let (_, err, code) = check_pass(&content, false);
    assert_eq!(code, 1, "a malformed line must fail verification");
    assert_eq!(err.len(), 2);
    assert_eq!(err[1], "WARNING: 1 line is improperly formatted");
}

#[test]
fn check_mode_passes_when_all_match() {
    let hash = hex(&Md5::digest(b"abc"));
    let content = format!("MD5 (ok.txt) = {hash}\r\n\n{hash} *ok2.txt");
    let (out, err, code) = check_pass(&content, true);
    assert_eq!(code, 0);
    assert!(out.is_empty());
    assert!(err.is_empty());
    let (_, _, code) = check_pass("MD5 (missing.txt) = 900150983cd24fb0d6963f7d28e17f72\n", false);
    assert_eq!(code, 1);
}

#[test]
fn lines_split_like_str_lines() {
    assert_eq!(split_lines("a\r\nb\n\nc"), vec!["a", "b", "", "c"]);
    assert_eq!(split_lines("a\n"), vec!["a"]);
    assert_eq!(split_lines("\n"), vec![""]);
    assert_eq!(split_lines(""), Vec::<String>::new());
    assert_eq!(split_lines("x\r"), vec!["x\r"]);
}

#[test]
fn printed_lines_are_checkable() {
    let hash = hex(&Md5::digest(b"abc"));
    let bsd = format_output("my file.txt", &hash, false, false);
    assert_eq!(parse_checksum_line(&bsd), Some(("my file.txt".to_string(), hash.clone())));
    let gnu = format_output("my file.txt", &hash, false, true);
    assert_eq!(parse_checksum_line(&gnu), Some(("my file.txt".to_string(), hash.clone())));
    // A name holding ") = " is cut at its first occurrence.
    let odd = format_output("a) = b", &hash, false, false);
    assert_eq!(parse_checksum_line(&odd), None);
}
