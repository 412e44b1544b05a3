//! The `sw_vers` command's logic: the command line, the macOS-style report,
//! and turning the raw Windows version numbers and registry values into
//! the four reported fields.
use vstd::prelude::*;
use crate::say::{utf16_units, no_surrogates};
use crate::text::{
    chars_of, decimal, equals, has_prefix, opt_view, owned, push_char, push_decimal, push_str,
    starts_with,
};

verus! {

/// Which single line of version information to print.
pub enum Field {
    ProductName,
    ProductVersion,
    ProductVersionExtra,
    BuildVersion,
}

/// The parsed command line.
pub struct Options {
    pub field: Option<Field>,
    pub help: bool,
}

/// Resolved version information, formatted the way the macOS-style fields expect.
pub struct VersionInfo {
    pub product_name: String,
    pub product_version: String,
    pub build_version: String,
    pub product_version_extra: String,
}

/// The field an option selects.
pub open spec fn field_option(a: Seq<char>) -> Option<Field> {
    if a == "-productName"@ {
        Some(Field::ProductName)
    } else if a == "-productVersion"@ {
        Some(Field::ProductVersion)
    } else if a == "-productVersionExtra"@ {
        Some(Field::ProductVersionExtra)
    } else if a == "-buildVersion"@ {
        Some(Field::BuildVersion)
    } else {
        None
    }
}

/// The message when more than one field is asked for.
pub open spec fn exclusive_message() -> Seq<char> {
    "only one of -productName, -productVersion, -productVersionExtra or -buildVersion may be specified"@
}

/// Parsing `args[i..]` into `(field, help)`; `None` stands for an argument
/// that is not valid Unicode.
pub open spec fn parse_spec(
    args: Seq<Option<Seq<char>>>,
    i: int,
    field: Option<Field>,
    help: bool,
) -> Result<(Option<Field>, bool), Seq<char>>
    decreases args.len() - i,
{
    if i < 0 || i >= args.len() {
        Ok((field, help))
    } else {
        match args[i] {
            None => Err("argument is not valid Unicode"@),
            Some(a) => if field_option(a) is Some {
                if field is Some {
                    Err(exclusive_message())
                } else {
                    parse_spec(args, i + 1, field_option(a), help)
                }
            } else if a == "-h"@ || a == "-help"@ || a == "--help"@ {
                parse_spec(args, i + 1, field, true)
            } else if has_prefix(a, "-"@) && a != "-"@ {
                Err("unknown option: "@ + a)
            } else {
                Err("unexpected argument: "@ + a)
            },
        }
    }
}

/// The character views of the arguments.
pub open spec fn args_view(args: Seq<Option<String>>) -> Seq<Option<Seq<char>>> {
    args.map_values(
        |a: Option<String>|
            match a {
                Some(s) => Some(s@),
                None => None,
            },
    )
}

fn field_of(v: &Vec<char>) -> (r: Option<Field>)
    ensures
        r == field_option(v@),
{
    if equals(v, "-productName") {
        Some(Field::ProductName)
    } else if equals(v, "-productVersion") {
        Some(Field::ProductVersion)
    } else if equals(v, "-productVersionExtra") {
        Some(Field::ProductVersionExtra)
    } else if equals(v, "-buildVersion") {
        Some(Field::BuildVersion)
    } else {
        None
    }
}

/// Records the chosen field; the four field options are mutually exclusive.
pub fn set_field(options: &mut Options, field: Field) -> (r: Result<(), String>)
    ensures
        old(options).field is Some ==> (r matches Err(m) && m@ == exclusive_message()),
        old(options).field is None ==> r is Ok && final(options).field == Some(field)
            && final(options).help == old(options).help,
{
    if options.field.is_some() {
        return Err(
            owned(
                "only one of -productName, -productVersion, -productVersionExtra or -buildVersion may be specified",
            ),
        );
    }
    options.field = Some(field);
    Ok(())
}

/// Parses the command-line arguments (without the program name); `None`
/// stands for an argument that is not valid Unicode.
pub fn parse_args(args: &Vec<Option<String>>) -> (r: Result<Options, String>)
    ensures
        match r {
            Ok(o) => parse_spec(args_view(args@), 0, None, false) == Ok::<
                (Option<Field>, bool),
                Seq<char>,
            >((o.field, o.help)),
            Err(m) => parse_spec(args_view(args@), 0, None, false) == Err::<
                (Option<Field>, bool),
                Seq<char>,
            >(m@),
        },
{
    let ghost av = args_view(args@);
    let mut options = Options { field: None, help: false };
    let mut i: usize = 0;
    while i < args.len()
        invariant
            i <= args@.len(),
            av == args_view(args@),
            av.len() == args@.len(),
            parse_spec(av, 0, None, false) == parse_spec(av, i as int, options.field, options.help),
        decreases args.len() - i,
    {
        match &args[i] {
            None => {
                return Err(owned("argument is not valid Unicode"));
            },
            Some(arg) => {
                let v = chars_of(arg.as_str());
                assert(av[i as int] == Some(v@));
                match field_of(&v) {
                    Some(f) => {
                        set_field(&mut options, f)?;
                    },
                    None => {
                        if equals(&v, "-h") || equals(&v, "-help") || equals(&v, "--help") {
                            options.help = true;
                        } else if starts_with(&v, "-") && !equals(&v, "-") {
                            let mut m = owned("unknown option: ");
                            push_str(&mut m, arg.as_str());
                            return Err(m);
                        } else {
                            let mut m = owned("unexpected argument: ");
                            push_str(&mut m, arg.as_str());
                            return Err(m);
                        }
                    },
                }
            },
        }
        i = i + 1;
    }
    Ok(options)
}

/// The text written for the chosen field, or the three-line summary with a
/// tab between each label and its value.
pub open spec fn render_spec(
    field: Option<Field>,
    name: Seq<char>,
    version: Seq<char>,
    build: Seq<char>,
    extra: Seq<char>,
) -> Seq<char> {
    match field {
        Some(Field::ProductName) => name.push('\n'),
        Some(Field::ProductVersion) => version.push('\n'),
        Some(Field::ProductVersionExtra) => extra.push('\n'),
        Some(Field::BuildVersion) => build.push('\n'),
        None => "ProductName:\t"@ + name + seq!['\n'] + "ProductVersion:\t"@ + version + seq!['\n']
            + "BuildVersion:\t"@ + build + seq!['\n'],
    }
}

/// Build the text to write to stdout for the chosen field (or the full summary).
pub fn render(field: Option<Field>, info: &VersionInfo) -> (out: String)
    ensures
        out@ == render_spec(
            field,
            info.product_name@,
            info.product_version@,
            info.build_version@,
            info.product_version_extra@,
        ),
{
    let mut out = String::new();
    match field {
        Some(Field::ProductName) => {
            push_str(&mut out, info.product_name.as_str());
            push_char(&mut out, '\n');
        },
        Some(Field::ProductVersion) => {
            push_str(&mut out, info.product_version.as_str());
            push_char(&mut out, '\n');
        },
        Some(Field::ProductVersionExtra) => {
            push_str(&mut out, info.product_version_extra.as_str());
            push_char(&mut out, '\n');
        },
        Some(Field::BuildVersion) => {
            push_str(&mut out, info.build_version.as_str());
            push_char(&mut out, '\n');
        },
        None => {
            push_str(&mut out, "ProductName:\t");
            push_str(&mut out, info.product_name.as_str());
            push_char(&mut out, '\n');
            push_str(&mut out, "ProductVersion:\t");
            push_str(&mut out, info.product_version.as_str());
            push_char(&mut out, '\n');
            push_str(&mut out, "BuildVersion:\t");
            push_str(&mut out, info.build_version.as_str());
            push_char(&mut out, '\n');
        },
    }
    assert(out@ =~= render_spec(
        field,
        info.product_name@,
        info.product_version@,
        info.build_version@,
        info.product_version_extra@,
    ));
    out
}

/// The usage line.
pub fn usage() -> (s: String)
    ensures
        s@ == "usage: sw_vers [-productName | -productVersion | -productVersionExtra | -buildVersion]\n"@,
{
    owned("usage: sw_vers [-productName | -productVersion | -productVersionExtra | -buildVersion]\n")
}

/// `major.minor.build`, e.g. `10.0.22631`.
pub open spec fn product_version_spec(major: u32, minor: u32, build: u32) -> Seq<char> {
    decimal(major as nat) + seq!['.'] + decimal(minor as nat) + seq!['.'] + decimal(build as nat)
}

/// `build.ubr` as `winver` shows the OS build, or just `build` without an
/// update revision. `build` is the registry's `CurrentBuild` string.
pub open spec fn build_version_spec(build: Seq<char>, ubr: Option<u32>) -> Seq<char> {
    match ubr {
        Some(u) => build + seq!['.'] + decimal(u as nat),
        None => build,
    }
}

/// The build the report names: the registry's `CurrentBuild` string, or,
/// where the registry has none, the build number the version call gave.
pub open spec fn current_build_spec(current_build: Option<Seq<char>>, build: u32) -> Seq<char> {
    match current_build {
        Some(cb) => cb,
        None => decimal(build as nat),
    }
}

/// Assemble the report from what the system gave: the version numbers
/// (`None` when they could not be read), the registry's `CurrentBuild`
/// string and update build revision (`UBR`), and the `DisplayVersion` and
/// `ReleaseId` registry strings, of which the first present one is the
/// extra version (empty when neither is).
pub fn gather_version_info(
    numbers: Option<(u32, u32, u32)>,
    current_build: Option<String>,
    ubr: Option<u32>,
    display_version: Option<String>,
    release_id: Option<String>,
) -> (r: Result<VersionInfo, String>)
    ensures
        match numbers {
            None => r matches Err(m) && m@
                == "could not determine the Windows version via RtlGetVersion"@,
            Some((major, minor, build)) => r matches Ok(info) && info.product_name@ == "Windows"@
                && info.product_version@ == product_version_spec(major, minor, build)
                && info.build_version@ == build_version_spec(
                current_build_spec(opt_view(current_build), build),
                ubr,
            ) && info.product_version_extra@ == match display_version {
                Some(d) => d@,
                None => match release_id {
                    Some(rid) => rid@,
                    None => Seq::<char>::empty(),
                },
            },
        },
{
    let (major, minor, build) = match numbers {
        Some(n) => n,
        None => {
            return Err(owned("could not determine the Windows version via RtlGetVersion"));
        },
    };
    let mut product_version = String::new();
    push_decimal(&mut product_version, major as u64);
    push_char(&mut product_version, '.');
    push_decimal(&mut product_version, minor as u64);
    push_char(&mut product_version, '.');
    push_decimal(&mut product_version, build as u64);
    assert(product_version@ =~= product_version_spec(major, minor, build));
    let mut build_version = match current_build {
        Some(cb) => cb,
        None => {
            let mut b = String::new();
            push_decimal(&mut b, build as u64);
            b
        },
    };
    let ghost base = build_version@;
    assert(base == current_build_spec(opt_view(current_build), build));
    match ubr {
        Some(u) => {
            push_char(&mut build_version, '.');
            push_decimal(&mut build_version, u as u64);
        },
        None => {},
    }
    assert(build_version@ =~= build_version_spec(base, ubr));
    let product_version_extra = match display_version {
        Some(d) => d,
        None => match release_id {
            Some(rid) => rid,
            None => String::new(),
        },
    };
    Ok(
        VersionInfo {
            product_name: owned("Windows"),
            product_version,
            build_version,
            product_version_extra,
        },
    )
}

/// UTF-16 code units of a character.
pub open spec fn utf16_of_char(c: char) -> Seq<u16> {
    let u = c as u32;
    if u < 0x10000 {
        seq![u as u16]
    } else {
        let v = (u - 0x10000) as u32;
        seq![(0xd800 + (v >> 10u32)) as u16, (0xdc00 + (v & 0x3ffu32)) as u16]
    }
}

/// UTF-16 encoding of a string.
pub open spec fn utf16_encode(s: Seq<char>) -> Seq<u16>
    decreases s.len(),
{
    if s.len() == 0 {
        Seq::empty()
    } else {
        utf16_encode(s.drop_last()) + utf16_of_char(s.last())
    }
}

/// The string as a NUL-terminated UTF-16 buffer, as Win32 calls expect.
pub fn wide(input: &str) -> (out: Vec<u16>)
    ensures
        out@ == utf16_encode(input@).push(0u16),
{
    let v = chars_of(input);
    let mut out: Vec<u16> = Vec::new();
    let mut i: usize = 0;
    while i < v.len()
        invariant
            i <= v@.len(),
            v@ == input@,
            out@ == utf16_encode(v@.take(i as int)),
        decreases v.len() - i,
    {
        let c = v[i];
        let u = c as u32;
        proof {
            vstd::utf8::char_is_scalar(c);
        }
        if u < 0x10000 {
            out.push(u as u16);
        } else {
            let w = u - 0x10000;
            assert(w >> 10u32 <= 0x3ff && w & 0x3ffu32 <= 0x3ff) by (bit_vector)
                requires
                    w <= 0x10ffff - 0x10000,
            ;
            out.push((0xd800 + (w >> 10u32)) as u16);
            out.push((0xdc00 + (w & 0x3ff)) as u16);
        }
        i = i + 1;
        assert(v@.take(i as int).drop_last() =~= v@.take(i - 1));
        assert(out@ =~= utf16_encode(v@.take(i as int)));
    }
    assert(v@.take(v@.len() as int) =~= v@);
    out.push(0);
    out
}

/// `String::from_utf16`: the text of UTF-16 code units, or `None` when
/// they hold an unpaired surrogate.
pub uninterp spec fn utf16_strict(units: Seq<u16>) -> Option<Seq<char>>;

/// `o` is a string with the characters `text`.
pub open spec fn holds_text(o: Option<String>, text: Seq<char>) -> bool {
    match o {
        Some(s) => s@ == text,
        None => false,
    }
}

/// `String::from_utf16(units).ok()`. Units outside the surrogate range each
/// stand for the character with that code.
#[verifier::external_body]
fn utf16_to_string(units: &[u16]) -> (decoded: Option<String>)
    ensures
        decoded is Some <==> utf16_strict(units@) is Some,
        decoded matches Some(s) ==> utf16_strict(units@) == Some(s@),
        no_surrogates(units@) ==> holds_text(decoded, units@.map_values(|u: u16| u as char)),
{
    String::from_utf16(units).ok()
}

/// The index of the first NUL at or after `from`, or the length when
/// there is none.
pub open spec fn nul_index(units: Seq<u16>, from: int) -> int
    decreases units.len() - from,
{
    if from < 0 || from >= units.len() {
        units.len() as int
    } else if units[from] == 0 {
        from
    } else {
        nul_index(units, from + 1)
    }
}

/// The units up to (not including) the first NUL.
pub open spec fn until_nul(units: Seq<u16>) -> Seq<u16> {
    units.take(nul_index(units, 0))
}

/// A registry string value from the bytes the registry returned: UTF-16LE
/// units up to the first NUL; nothing when they are not valid UTF-16 or
/// the string is empty.
pub open spec fn registry_string_spec(data: Seq<u8>) -> Option<Seq<char>> {
    match utf16_strict(until_nul(utf16_units(data, true))) {
        Some(s) => if s.len() > 0 {
            Some(s)
        } else {
            None
        },
        None => None,
    }
}

fn le_unit(data: &[u8], k: usize) -> (u: u16)
    requires
        k < data.len() / 2,
    ensures
        u == utf16_units(data@, true)[k as int],
{
    (data[2 * k] as u16) | ((data[2 * k + 1] as u16) << 8u16)
}

/// Decodes a `REG_SZ` value read into `data`.
pub fn decode_registry_string(data: &[u8]) -> (r: Option<String>)
    ensures
        match r {
            Some(s) => registry_string_spec(data@) == Some(s@),
            None => registry_string_spec(data@) is None,
        },
{
    let ghost all = utf16_units(data@, true);
    let mut units: Vec<u16> = Vec::new();
    let mut k: usize = 0;
    let n = data.len() / 2;
    while k < n && le_unit(data, k) != 0
        invariant
            k <= n,
            n == data.len() / 2,
            all == utf16_units(data@, true),
            all.len() == n,
            units@ == all.take(k as int),
            nul_index(all, 0) == nul_index(all, k as int),
        decreases n - k,
    {
        units.push(le_unit(data, k));
        k = k + 1;
        assert(units@ =~= all.take(k as int));
    }
    assert(nul_index(all, k as int) == k);
    assert(until_nul(all) == units@);
    match utf16_to_string(units.as_slice()) {
        Some(s) => {
            if s.as_str().is_empty() {
                None
            } else {
                Some(s)
            }
        },
        None => None,
    }
}

/// The argument at `k` is one of the four field options.
pub open spec fn is_field_arg(args: Seq<Option<Seq<char>>>, k: int) -> bool {
    args[k] matches Some(a) && field_option(a) is Some
}

proof fn lemma_fields_exclusive(args: Seq<Option<Seq<char>>>, i: int, field: Option<Field>, help: bool)
    requires
        0 <= i <= args.len(),
        parse_spec(args, i, field, help) is Ok,
    ensures
        forall|k: int| i <= k < args.len() && #[trigger] is_field_arg(args, k) ==> field is None,
        forall|k1: int, k2: int|
            i <= k1 < k2 < args.len() ==> !(#[trigger] is_field_arg(args, k1) && #[trigger] is_field_arg(
                args,
                k2,
            )),
    decreases args.len() - i,
{
    if i < args.len() {
        let a = args[i]->0;
        if is_field_arg(args, i) {
            lemma_fields_exclusive(args, i + 1, field_option(a), help);
        } else {
            lemma_fields_exclusive(args, i + 1, field, true);
        }
    }
}

/// The field options are mutually exclusive: a command line that is
/// accepted names at most one of them.
pub proof fn law_field_options_are_exclusive(args: Seq<Option<Seq<char>>>)
    requires
        parse_spec(args, 0, None, false) is Ok,
    ensures
        forall|k1: int, k2: int|
            0 <= k1 < k2 < args.len() ==> !(#[trigger] is_field_arg(args, k1) && #[trigger] is_field_arg(
                args,
                k2,
            )),
{
    lemma_fields_exclusive(args, 0, None, false);
}

} // verus!
