use win_terminal_commands::say::{
    clamp_rate, clamp_volume, decode_bytes, effective_rate, effective_volume, gender_label,
    join_text, parse_args, parse_i32, parse_u32, resolve_voice, select_index, utf16_from, VoiceFields,
    VoiceGender,
};

fn args(list: &[&str]) -> Vec<String> {
    list.iter().map(|s| s.to_string()).collect()
}

#[test]
fn parses_list_flag() {
    let opts = parse_args(&args(&["--list-voices"])).unwrap();
    assert!(opts.list_voices);
    assert!(opts.text.is_empty());
}

#[test]
fn parses_voice_and_text() {
    let opts = parse_args(&args(&["-v", "Haruka", "hello", "world"])).unwrap();
    assert_eq!(opts.voice.as_deref(), Some("Haruka"));
    assert_eq!(opts.text, vec!["hello".to_string(), "world".to_string()]);
}

#[test]
fn parses_voice_equals_form() {
    let opts = parse_args(&args(&["--voice=ja-JP", "hi"])).unwrap();
    assert_eq!(opts.voice.as_deref(), Some("ja-JP"));
}

#[test]
fn parses_rate_and_volume() {
    let opts = parse_args(&args(&["--rate=5", "--volume", "80", "hi"])).unwrap();
    assert_eq!(opts.rate, Some(5));
    assert_eq!(opts.volume, Some(80));
}

#[test]
fn rejects_bad_rate() {
    assert!(parse_args(&args(&["--rate=fast"])).is_err());
    assert!(parse_args(&args(&["-r"])).is_err());
}

#[test]
fn parses_file_and_output() {
    let opts = parse_args(&args(&["-f", "in.txt", "-o", "out.wav"])).unwrap();
    assert_eq!(opts.file.as_deref(), Some("in.txt"));
    assert_eq!(opts.output.as_deref(), Some("out.wav"));
}

#[test]
fn double_dash_treats_rest_as_text() {
    let opts = parse_args(&args(&["--", "-v"])).unwrap();
    assert!(opts.voice.is_none());
    assert_eq!(opts.text, vec!["-v".to_string()]);
}

#[test]
fn rejects_unknown_option() {
    assert!(parse_args(&args(&["--bogus"])).is_err());
}

#[test]
fn join_text_uses_spaces() {
    let opts = parse_args(&args(&["hello", "world"])).unwrap();
    assert_eq!(join_text(&opts.text), "hello world");
}

#[test]
fn decode_utf8_with_bom() {
    let bytes = [0xEF, 0xBB, 0xBF, b'h', b'i'];
    assert_eq!(decode_bytes(&bytes), "hi");
}

#[test]
fn decode_utf16le_with_bom() {
    let bytes = [0xFF, 0xFE, b'h', 0x00, b'i', 0x00];
    assert_eq!(decode_bytes(&bytes), "hi");
}

#[test]
fn decode_utf16be_with_bom() {
    let bytes = [0xFE, 0xFF, 0x00, b'h', 0x00, b'i'];
    assert_eq!(decode_bytes(&bytes), "hi");
}

#[test]
fn decode_plain_ascii() {
    assert_eq!(decode_bytes(b"plain text"), "plain text");
}

#[test]
fn decode_invalid_utf8_is_lossy() {
    assert_eq!(decode_bytes(&[0x80]), "\u{fffd}");
}

#[test]
fn rate_is_clamped() {
    assert_eq!(clamp_rate(100), 10);
    assert_eq!(clamp_rate(-100), -10);
    assert_eq!(clamp_rate(3), 3);
}

#[test]
fn volume_is_clamped() {
    assert_eq!(clamp_volume(999), 100);
    assert_eq!(clamp_volume(42), 42);
}

fn sample_voices() -> Vec<VoiceFields> {
    vec![
        VoiceFields {
            display: "Microsoft Ayumi".into(),
            id: "MSTTS_V110_jaJP_AyumiM".into(),
            language: "ja-JP".into(),
            description: "Microsoft Ayumi - Japanese (Japan)".into(),
        },
        VoiceFields {
            display: "Microsoft Haruka".into(),
            id: "MSTTS_V110_jaJP_HarukaM".into(),
            language: "ja-JP".into(),
            description: "Microsoft Haruka - Japanese (Japan)".into(),
        },
        VoiceFields {
            display: "Microsoft Zira".into(),
            id: "MSTTS_V110_enUS_ZiraM".into(),
            language: "en-US".into(),
            description: "Microsoft Zira - English (United States)".into(),
        },
    ]
}

#[test]
fn selects_by_exact_voice_id() {
    let voices = sample_voices();
    let idx = select_index(&voices, Some("MSTTS_V110_jaJP_HarukaM"), None);
    assert_eq!(idx, Some(1));
}

#[test]
fn selects_by_display_substring() {
    let voices = sample_voices();
    let idx = select_index(&voices, None, Some("haruka"));
    assert_eq!(idx, Some(1));
}

#[test]
fn selects_by_language() {
    let voices = sample_voices();
    let idx = select_index(&voices, None, Some("en-US"));
    assert_eq!(idx, Some(2));
}

#[test]
fn returns_none_for_default_voice() {
    let voices = sample_voices();
    assert_eq!(select_index(&voices, None, None), None);
}

#[test]
fn missing_voice_is_none() {
    let voices = sample_voices();
    assert_eq!(select_index(&voices, None, Some("nobody")), None);
}

// ---- additional cases -------------------------------------------------

#[test]
fn voice_id_match_is_exact_and_wins_over_voice() {
    let voices = sample_voices();
    assert_eq!(select_index(&voices, Some("MSTTS_V110_enUS_ZiraM"), Some("haruka")), Some(2));
    assert_eq!(select_index(&voices, Some("mstts_v110_enus_ziram"), Some("haruka")), None);
    assert_eq!(select_index(&voices, Some("Haruka"), None), None);
    assert_eq!(select_index(&voices, None, Some("")), None);
    // The first voice whose fields contain the text is chosen.
    assert_eq!(select_index(&voices, None, Some("JAPANESE")), Some(0));
}

#[test]
fn integer_option_values() {
    assert_eq!(parse_i32("-7", "rate"), Ok(-7));
    assert_eq!(parse_i32("+3", "rate"), Ok(3));
    assert_eq!(
        parse_i32("fast", "rate"),
        Err("option rate expects an integer, got \"fast\"".to_string())
    );
    assert!(parse_i32("2147483648", "rate").is_err());
    assert!(parse_i32(" 1", "rate").is_err());
    assert_eq!(parse_u32("80", "volume"), Ok(80));
    assert_eq!(
        parse_u32("-1", "volume"),
        Err("option volume expects a non-negative integer, got \"-1\"".to_string())
    );
}

#[test]
fn option_messages() {
    assert_eq!(parse_args(&args(&["-r"])).err().unwrap(), "option --rate requires an argument");
    assert_eq!(parse_args(&args(&["--bogus"])).err().unwrap(), "unknown option: --bogus");
    assert_eq!(parse_args(&args(&["-h"])).err().unwrap(), "help requested");
    let opts = parse_args(&args(&["--voice-id=X", "--file=a", "--output=b.wav", "-l"])).unwrap();
    assert_eq!(opts.voice_id.as_deref(), Some("X"));
    assert_eq!(opts.file.as_deref(), Some("a"));
    assert_eq!(opts.output.as_deref(), Some("b.wav"));
    assert!(opts.list_voices);
}

#[test]
fn effective_rate_and_volume_defaults() {
    let opts = parse_args(&args(&["hi"])).unwrap();
    assert_eq!(effective_rate(&opts), 0);
    assert_eq!(effective_volume(&opts), 100);
    let opts = parse_args(&args(&["--rate=-50", "--volume=500"])).unwrap();
    assert_eq!(effective_rate(&opts), -10);
    assert_eq!(effective_volume(&opts), 100);
}

#[test]
fn utf16_odd_byte_is_dropped() {
    assert_eq!(utf16_from(&[b'h', 0, b'i', 0, b'x'], true), "hi");
    assert_eq!(utf16_from(&[0xD8, 0x3D, 0xDE, 0x00], false), "\u{1F600}");
}

#[test]
fn gender_labels() {
    assert_eq!(gender_label(VoiceGender::Male), "male");
    assert_eq!(gender_label(VoiceGender::Female), "female");
    assert_eq!(gender_label(VoiceGender::Unknown), "unknown");
}

#[test]
fn requested_voice_must_exist() {
    let voices = sample_voices();
    assert_eq!(resolve_voice(&voices, None, None), Ok(None));
    assert_eq!(resolve_voice(&voices, None, Some("zira")), Ok(Some(2)));
    assert_eq!(
        resolve_voice(&voices, None, Some("nobody")),
        Err("the requested voice was not found; run `say --list-voices` to list voices".to_string())
    );
    assert!(resolve_voice(&voices, Some("nobody"), None).is_err());
}
