use win_terminal_commands::sw_vers::{
    decode_registry_string, gather_version_info, parse_args, render, usage, wide, Field,
    Options, VersionInfo,
};

fn sample() -> VersionInfo {
    VersionInfo {
        product_name: "Windows".to_string(),
        product_version: "10.0.22631".to_string(),
        build_version: "22631.4890".to_string(),
        product_version_extra: "23H2".to_string(),
    }
}

fn parse(args: &[&str]) -> Result<Options, String> {
    parse_args(&args.iter().map(|s| Some(s.to_string())).collect())
}

fn field_is(o: &Options, f: Field) -> bool {
    matches!(
        (&o.field, f),
        (Some(Field::ProductName), Field::ProductName)
            | (Some(Field::ProductVersion), Field::ProductVersion)
            | (Some(Field::ProductVersionExtra), Field::ProductVersionExtra)
            | (Some(Field::BuildVersion), Field::BuildVersion)
    )
}

#[test]
fn render_summary_uses_tabs_like_macos() {
    let out = render(None, &sample());
    assert_eq!(
        out,
        "ProductName:\tWindows\nProductVersion:\t10.0.22631\nBuildVersion:\t22631.4890\n"
    );
}

#[test]
fn render_single_field_appends_newline() {
    let info = sample();
    assert_eq!(render(Some(Field::ProductName), &info), "Windows\n");
    assert_eq!(render(Some(Field::ProductVersion), &info), "10.0.22631\n");
    assert_eq!(render(Some(Field::ProductVersionExtra), &info), "23H2\n");
    assert_eq!(render(Some(Field::BuildVersion), &info), "22631.4890\n");
}

#[test]
fn parse_each_option_sets_its_field() {
    assert!(field_is(&parse(&["-productName"]).unwrap(), Field::ProductName));
    assert!(field_is(&parse(&["-productVersion"]).unwrap(), Field::ProductVersion));
    assert!(field_is(&parse(&["-productVersionExtra"]).unwrap(), Field::ProductVersionExtra));
    assert!(field_is(&parse(&["-buildVersion"]).unwrap(), Field::BuildVersion));
}

#[test]
fn parse_no_arguments_prints_summary() {
    assert!(parse(&[]).unwrap().field.is_none());
}

#[test]
fn parse_multiple_options_are_rejected() {
    assert!(parse(&["-productName", "-buildVersion"]).is_err());
    assert!(parse(&["-productVersion", "-productVersionExtra"]).is_err());
}

#[test]
fn parse_unknown_option_is_rejected() {
    assert!(parse(&["-version"]).is_err());
    assert!(parse(&["--bad"]).is_err());
}

#[test]
fn parse_unexpected_positional_is_rejected() {
    assert!(parse(&["foo"]).is_err());
}

#[test]
fn parse_help_flags() {
    assert!(parse(&["-h"]).unwrap().help);
    assert!(parse(&["-help"]).unwrap().help);
    assert!(parse(&["--help"]).unwrap().help);
}

#[test]
fn windows_version_info_is_populated() {
    let info = gather_version_info(Some((10, 0, 22631)), Some("22631".into()), Some(4890), Some("23H2".into()), None)
        .expect("version info should resolve on Windows");
    assert_eq!(info.product_name, "Windows");
    assert!(
        info.product_version.split('.').count() >= 3,
        "product version should look like Major.Minor.Build, got {}",
        info.product_version
    );
    assert!(info.build_version.chars().next().unwrap().is_ascii_digit());
}

// ---- additional cases -------------------------------------------------

#[test]
fn version_fields_are_assembled() {
    let info = gather_version_info(Some((10, 0, 22631)), Some("22631".into()), Some(4890), None, Some("21H2".into()))
        .unwrap();
    assert_eq!(info.product_version, "10.0.22631");
    assert_eq!(info.build_version, "22631.4890");
    assert_eq!(info.product_version_extra, "21H2");
    // The build version comes from the registry's CurrentBuild, not the version call.
    let info = gather_version_info(Some((10, 0, 26100)), Some("26200".into()), Some(8655), None, None).unwrap();
    assert_eq!(info.product_version, "10.0.26100");
    assert_eq!(info.build_version, "26200.8655");
    let info = gather_version_info(Some((10, 0, 26200)), Some("26200".into()), None, None, None).unwrap();
    assert_eq!(info.build_version, "26200");
    let info = gather_version_info(Some((6, 3, 9600)), None, None, None, None).unwrap();
    assert_eq!(info.build_version, "9600");
    assert_eq!(info.product_version_extra, "");
    assert_eq!(
        gather_version_info(None, None, None, None, None).err().unwrap(),
        "could not determine the Windows version via RtlGetVersion"
    );
}

#[test]
fn parse_messages() {
    assert_eq!(parse(&["-x"]).err().unwrap(), "unknown option: -x");
    assert_eq!(parse(&["foo"]).err().unwrap(), "unexpected argument: foo");
    assert_eq!(parse(&["-"]).err().unwrap(), "unexpected argument: -");
    assert_eq!(
        parse_args(&vec![None]).err().unwrap(),
        "argument is not valid Unicode"
    );
    assert!(parse(&["-productName", "-productName"]).is_err());
}

#[test]
fn usage_line() {
    assert_eq!(
        usage(),
        "usage: sw_vers [-productName | -productVersion | -productVersionExtra | -buildVersion]\n"
    );
}

#[test]
fn wide_strings_are_nul_terminated_utf16() {
    assert_eq!(wide("UBR"), vec![0x55, 0x42, 0x52, 0]);
    assert_eq!(wide("\u{1F600}"), vec![0xD83D, 0xDE00, 0]);
    assert_eq!(wide(""), vec![0]);
}

#[test]
fn registry_strings_stop_at_nul() {
    assert_eq!(decode_registry_string(&[b'2', 0, b'3', 0, b'H', 0, b'2', 0, 0, 0, b'x', 0]), Some("23H2".to_string()));
    assert_eq!(decode_registry_string(&[0, 0]), None);
    assert_eq!(decode_registry_string(&[]), None);
    assert_eq!(decode_registry_string(&[0x00, 0xD8, b'a', 0]), None);
}
