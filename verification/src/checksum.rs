//! The `md5` command's logic: rendering digests, parsing checksum lines in
//! the GNU and BSD formats, parsing the command line, and tallying a
//! `--check` run.
use vstd::prelude::*;
use crate::md5::{md5, Md5};
use crate::text::{
    ascii_lower, ascii_lower_seq, blank, chars_of, chars_range, contains_seq, decimal, eq_ignore_ascii_case, eq_ignore_case, is_blank,
    push_decimal, copy_string, equals, find, find_from, has_prefix, lemma_find_from, is_hex_digit,
    lower_char, occurs_at, opt_view, owned, push_char, push_str, push_string, starts_with,
    string_from_range, strings_view,
};

verus! {

// ---------------------------------------------------------------------------
// Digest rendering
// ---------------------------------------------------------------------------

/// The lowercase hexadecimal digit for a value below 16.
pub open spec fn hex_digit(n: u8) -> char {
    if n < 10 {
        (('0' as u8) + n) as char
    } else {
        (('a' as u8) + n - 10) as char
    }
}

/// Lowercase hexadecimal rendering of bytes, high nibble first.
pub open spec fn hex_lower(bytes: Seq<u8>) -> Seq<char> {
    Seq::new(
        2 * bytes.len(),
        |i: int|
            hex_digit(
                if i % 2 == 0 {
                    bytes[i / 2] >> 4u8
                } else {
                    bytes[i / 2] & 0x0fu8
                },
            ),
    )
}

fn hex_digit_char(n: u8) -> (c: char)
    requires
        n < 16,
    ensures
        c == hex_digit(n),
{
    if n < 10 {
        (48u8 + n) as char
    } else {
        (97u8 + n - 10) as char
    }
}

/// Renders a digest as 32 lowercase hexadecimal digits.
pub fn hex(digest: &[u8; 16]) -> (out: String)
    ensures
        out@ == hex_lower(digest@),
{
    let mut out = String::new();
    let mut i: usize = 0;
    while i < 16
        invariant
            i <= 16,
            out@ == hex_lower(digest@).take(2 * i as int),
        decreases 16 - i,
    {
        let byte = digest[i];
        let hi = byte >> 4;
        let lo = byte & 0x0f;
        assert(hi < 16 && lo < 16) by (bit_vector)
            requires
                hi == byte >> 4u8,
                lo == byte & 0x0fu8,
        ;
        push_char(&mut out, hex_digit_char(hi));
        push_char(&mut out, hex_digit_char(lo));
        i = i + 1;
        assert(out@ =~= hex_lower(digest@).take(2 * i as int));
    }
    out
}

/// The digest of everything a reader produced, given as the chunks it
/// returned in order.
pub open spec fn concat_chunks(chunks: Seq<Vec<u8>>) -> Seq<u8>
    decreases chunks.len(),
{
    if chunks.len() == 0 {
        Seq::empty()
    } else {
        concat_chunks(chunks.drop_last()) + chunks.last()@
    }
}

/// MD5 of a stream delivered in chunks: the chunks are fed to the hasher in
/// order, so the result is the digest of their concatenation.
pub fn hash_reader(chunks: &Vec<Vec<u8>>) -> (out: [u8; 16])
    ensures
        out@ == md5(concat_chunks(chunks@)),
{
    let mut hasher = Md5::new();
    let mut i: usize = 0;
    while i < chunks.len()
        invariant
            i <= chunks@.len(),
            hasher.wf(),
            hasher@ == concat_chunks(chunks@.take(i as int)),
        decreases chunks.len() - i,
    {
        hasher.update(chunks[i].as_slice());
        i = i + 1;
        assert(chunks@.take(i as int).drop_last() =~= chunks@.take(i - 1));
    }
    assert(chunks@.take(chunks@.len() as int) =~= chunks@);
    hasher.finalize()
}

/// How a digest is displayed: the hash alone (`quiet`), hash then label
/// (`reverse`), or the BSD form `MD5 (label) = hash`.
pub open spec fn format_output_spec(
    label: Seq<char>,
    hash: Seq<char>,
    quiet: bool,
    reverse: bool,
) -> Seq<char> {
    if quiet {
        hash
    } else if reverse {
        hash + "  "@ + label
    } else {
        "MD5 ("@ + label + ") = "@ + hash
    }
}

/// Render a digest in the style selected by the options.
pub fn format_output(label: &str, hash: &str, quiet: bool, reverse: bool) -> (out: String)
    ensures
        out@ == format_output_spec(label@, hash@, quiet, reverse),
{
    if quiet {
        owned(hash)
    } else if reverse {
        let mut out = owned(hash);
        push_str(&mut out, "  ");
        push_str(&mut out, label);
        out
    } else {
        let mut out = owned("MD5 (");
        push_str(&mut out, label);
        push_str(&mut out, ") = ");
        push_str(&mut out, hash);
        out
    }
}

// ---------------------------------------------------------------------------
// Checksum lines
// ---------------------------------------------------------------------------

/// `s` starts with `MD5 (`, the letters `M` and `D` in either case.
pub open spec fn md5_prefix(s: Seq<char>) -> bool {
    &&& s.len() >= 5
    &&& (s[0] == 'M' || s[0] == 'm')
    &&& (s[1] == 'D' || s[1] == 'd')
    &&& s[2] == '5'
    &&& s[3] == ' '
    &&& s[4] == '('
}

/// `s` is exactly 32 hexadecimal digits.
pub open spec fn hex32(s: Seq<char>) -> bool {
    s.len() == 32 && forall|i: int| 0 <= i < 32 ==> #[trigger] is_hex_digit(s[i])
}

/// The meaning of one checksum line: `(name, lowercase hash)`, or `None`
/// when the line is in neither format. Nothing is trimmed.
///
/// BSD: `MD5 (name) = hash`, where the name ends at the first `) = `.
/// GNU: 32 hex digits, a space, a mode character (space or `*`), the name.
pub open spec fn parse_line_spec(line: Seq<char>) -> Option<(Seq<char>, Seq<char>)> {
    if line.len() == 0 {
        None
    } else if md5_prefix(line) {
        let rest = line.subrange(5, line.len() as int);
        match find_from(rest, ") = "@, 0) {
            Some(close) => {
                let hash = rest.subrange(close + 4, rest.len() as int);
                if hex32(hash) {
                    Some((rest.subrange(0, close), ascii_lower_seq(hash)))
                } else {
                    None
                }
            },
            None => None,
        }
    } else if line.len() >= 34 && line[32] == ' ' && hex32(line.subrange(0, 32)) && (line[33]
        == ' ' || line[33] == '*') {
        Some((line.subrange(34, line.len() as int), ascii_lower_seq(line.subrange(0, 32))))
    } else {
        None
    }
}

fn md5_prefix_chars(v: &Vec<char>) -> (b: bool)
    ensures
        b == md5_prefix(v@),
{
    v.len() >= 5 && (v[0] == 'M' || v[0] == 'm') && (v[1] == 'D' || v[1] == 'd') && v[2] == '5'
        && v[3] == ' ' && v[4] == '('
}

fn is_hex_char(c: char) -> (b: bool)
    ensures
        b == is_hex_digit(c),
{
    ('0' <= c && c <= '9') || ('a' <= c && c <= 'f') || ('A' <= c && c <= 'F')
}

/// `v[from..to]` is exactly 32 hexadecimal digits.
fn hex32_range(v: &Vec<char>, from: usize, to: usize) -> (b: bool)
    requires
        from <= to <= v@.len(),
    ensures
        b == hex32(v@.subrange(from as int, to as int)),
{
    if to - from != 32 {
        return false;
    }
    let mut i: usize = 0;
    while i < 32
        invariant
            i <= 32,
            to - from == 32,
            to <= v@.len(),
            forall|k: int| 0 <= k < i ==> #[trigger] is_hex_digit(v@[from + k]),
        decreases 32 - i,
    {
        if !is_hex_char(v[from + i]) {
            assert(!is_hex_digit(v@.subrange(from as int, to as int)[i as int]));
            return false;
        }
        i = i + 1;
    }
    assert forall|k: int| 0 <= k < 32 implies #[trigger] is_hex_digit(
        v@.subrange(from as int, to as int)[k],
    ) by {
        assert(v@.subrange(from as int, to as int)[k] == v@[from + k]);
    }
    true
}

/// Lowercased copy of `v[from..to]`.
fn lower_range(v: &Vec<char>, from: usize, to: usize) -> (out: String)
    requires
        from <= to <= v@.len(),
    ensures
        out@ == ascii_lower_seq(v@.subrange(from as int, to as int)),
{
    let mut out = String::new();
    let mut i: usize = from;
    while i < to
        invariant
            from <= i <= to <= v@.len(),
            out@ == ascii_lower_seq(v@.subrange(from as int, i as int)),
        decreases to - i,
    {
        push_char(&mut out, lower_char(v[i]));
        i = i + 1;
        assert(out@ =~= ascii_lower_seq(v@.subrange(from as int, i as int)));
    }
    out
}

/// True when `s` starts with `MD5 (` ignoring the case of `MD`.
pub fn has_md5_prefix(s: &str) -> (b: bool)
    ensures
        b == md5_prefix(s@),
{
    let v = chars_of(s);
    md5_prefix_chars(&v)
}

/// True when `s` is exactly 32 hexadecimal digits.
pub fn is_hex32(s: &str) -> (b: bool)
    ensures
        b == hex32(s@),
{
    let v = chars_of(s);
    let r = hex32_range(&v, 0, v.len());
    assert(v@.subrange(0, v@.len() as int) =~= v@);
    r
}

/// Parse one checksum line in either GNU or BSD format.
/// Returns `(name, lowercase_hex_hash)` when the line is recognized.
pub fn parse_checksum_line(line: &str) -> (r: Option<(String, String)>)
    ensures
        match r {
            Some((name, hash)) => parse_line_spec(line@) == Some((name@, hash@)),
            None => parse_line_spec(line@) is None,
        },
{
    let v = chars_of(line);
    if v.len() == 0 {
        return None;
    }
    if md5_prefix_chars(&v) {
        let rest_v = chars_range(&v, 5, v.len());
        let pat = chars_of(") = ");
        proof {
            reveal_strlit(") = ");
        }
        match find(&rest_v, &pat, 0) {
            Some(close) => {
                proof {
                    lemma_find_from(rest_v@, pat@, 0);
                }
                let start = close + 4;
                if hex32_range(&rest_v, start, rest_v.len()) {
                    let name = string_from_range(&rest_v, 0, close);
                    let hash = lower_range(&rest_v, start, rest_v.len());
                    return Some((name, hash));
                }
                return None;
            },
            None => {
                return None;
            },
        }
    }
    if v.len() >= 34 && v[32] == ' ' && hex32_range(&v, 0, 32) && (v[33] == ' ' || v[33] == '*') {
        let name = string_from_range(&v, 34, v.len());
        let hash = lower_range(&v, 0, 32);
        return Some((name, hash));
    }
    None
}

// ---------------------------------------------------------------------------
// Command line
// ---------------------------------------------------------------------------

/// The parsed command line.
pub struct Options {
    pub string: Option<String>,
    pub check: Option<String>,
    pub quiet: bool,
    pub reverse: bool,
    pub print: bool,
    pub files: Vec<String>,
}

/// The options as character sequences.
pub struct OptionsView {
    pub string: Option<Seq<char>>,
    pub check: Option<Seq<char>>,
    pub quiet: bool,
    pub reverse: bool,
    pub print: bool,
    pub files: Seq<Seq<char>>,
}

impl View for Options {
    type V = OptionsView;

    open spec fn view(&self) -> OptionsView {
        OptionsView {
            string: opt_view(self.string),
            check: opt_view(self.check),
            quiet: self.quiet,
            reverse: self.reverse,
            print: self.print,
            files: strings_view(self.files@),
        }
    }
}

/// No option given and no file named.
pub open spec fn default_options() -> OptionsView {
    OptionsView {
        string: None,
        check: None,
        quiet: false,
        reverse: false,
        print: false,
        files: Seq::empty(),
    }
}

/// Stores the value of `-s` (`ch == 's'`) or `-c` (otherwise).
pub open spec fn set_value(o: OptionsView, ch: char, value: Seq<char>) -> OptionsView {
    if ch == 's' {
        OptionsView { string: Some(value), ..o }
    } else {
        OptionsView { check: Some(value), ..o }
    }
}

/// Where a cluster of short flags leaves the parse.
pub enum ClusterOutcome {
    /// The cluster was fully consumed.
    Done(OptionsView),
    /// `-s` or `-c` ended the cluster and takes the next argument as value.
    NeedsValue(OptionsView, char),
    /// The cluster is invalid (or asks for help) with this message.
    Failed(Seq<char>),
}

/// The effect of the flags `text[j..]` of a short-flag cluster such as `-qr`
/// or `-shello`: `q`, `r`, `p` set their flag, `h` asks for help, and `s` or
/// `c` take the rest of the cluster (or else the next argument) as value.
pub open spec fn cluster_spec(text: Seq<char>, j: int, o: OptionsView) -> ClusterOutcome
    decreases text.len() - j,
{
    if j < 0 || j >= text.len() {
        ClusterOutcome::Done(o)
    } else {
        let ch = text[j];
        if ch == 'q' {
            cluster_spec(text, j + 1, OptionsView { quiet: true, ..o })
        } else if ch == 'r' {
            cluster_spec(text, j + 1, OptionsView { reverse: true, ..o })
        } else if ch == 'p' {
            cluster_spec(text, j + 1, OptionsView { print: true, ..o })
        } else if ch == 'h' {
            ClusterOutcome::Failed("help requested"@)
        } else if ch == 's' || ch == 'c' {
            let rest = text.subrange(j + 1, text.len() as int);
            if rest.len() > 0 {
                ClusterOutcome::Done(set_value(o, ch, rest))
            } else {
                ClusterOutcome::NeedsValue(o, ch)
            }
        } else {
            ClusterOutcome::Failed("unknown option: -"@.push(ch))
        }
    }
}

/// The message for a flag that lacks its value.
pub open spec fn missing_value_message(ch: char) -> Seq<char> {
    "option -"@.push(ch) + " requires an argument"@
}

/// Parsing `args[i..]` with `flags` telling whether options are still
/// recognised (they stop after `--`), starting from the options `o`.
pub open spec fn parse_spec(args: Seq<Seq<char>>, i: int, flags: bool, o: OptionsView) -> Result<
    OptionsView,
    Seq<char>,
>
    decreases args.len() - i,
{
    if i < 0 || i >= args.len() {
        Ok(o)
    } else {
        let a = args[i];
        if flags && a == "--"@ {
            parse_spec(args, i + 1, false, o)
        } else if flags && a == "--help"@ {
            Err("help requested"@)
        } else if flags && a == "--quiet"@ {
            parse_spec(args, i + 1, flags, OptionsView { quiet: true, ..o })
        } else if flags && a == "--reverse"@ {
            parse_spec(args, i + 1, flags, OptionsView { reverse: true, ..o })
        } else if flags && a == "--print"@ {
            parse_spec(args, i + 1, flags, OptionsView { print: true, ..o })
        } else if flags && (a == "--string"@ || a == "--check"@) {
            let ch = if a == "--string"@ { 's' } else { 'c' };
            if i + 1 < args.len() {
                parse_spec(args, i + 2, flags, set_value(o, ch, args[i + 1]))
            } else if ch == 's' {
                Err("option -s requires an argument"@)
            } else {
                Err("option -c requires an argument"@)
            }
        } else if flags && has_prefix(a, "--string="@) {
            parse_spec(args, i + 1, flags, set_value(o, 's', a.subrange(9, a.len() as int)))
        } else if flags && has_prefix(a, "--check="@) {
            parse_spec(args, i + 1, flags, set_value(o, 'c', a.subrange(8, a.len() as int)))
        } else if flags && has_prefix(a, "-"@) && !has_prefix(a, "--"@) && a != "-"@ {
            match cluster_spec(a, 1, o) {
                ClusterOutcome::Done(o2) => parse_spec(args, i + 1, flags, o2),
                ClusterOutcome::NeedsValue(o2, ch) => if i + 1 < args.len() {
                    parse_spec(args, i + 2, flags, set_value(o2, ch, args[i + 1]))
                } else {
                    Err(missing_value_message(ch))
                },
                ClusterOutcome::Failed(m) => Err(m),
            }
        } else if flags && has_prefix(a, "-"@) {
            Err("unknown option: "@ + a)
        } else {
            parse_spec(args, i + 1, flags, OptionsView { files: o.files.push(a), ..o })
        }
    }
}

fn set_option_value(options: &mut Options, ch: char, value: String)
    ensures
        final(options)@ == set_value(old(options)@, ch, value@),
{
    if ch == 's' {
        options.string = Some(value);
    } else {
        options.check = Some(value);
    }
}

/// Expand a clustered short-flag token such as `-qr` or `-s hello`.
/// A flag that takes an argument (`-s` / `-c`) consumes the remainder of the
/// cluster as its value, or `next` when it is the last flag; the result says
/// whether `next` was consumed.
pub fn handle_short_cluster(text: &str, next: Option<&String>, options: &mut Options) -> (r:
    Result<bool, String>)
    ensures
        match cluster_spec(text@, 1, old(options)@) {
            ClusterOutcome::Done(o2) => r == Ok::<bool, String>(false) && final(options)@ == o2,
            ClusterOutcome::NeedsValue(o2, ch) => match next {
                Some(n) => r == Ok::<bool, String>(true) && final(options)@ == set_value(o2, ch, n@),
                None => r matches Err(m) && m@ == missing_value_message(ch),
            },
            ClusterOutcome::Failed(m) => r matches Err(e) && e@ == m,
        },
{
    let v = chars_of(text);
    let mut j: usize = 1;
    while j < v.len()
        invariant
            1 <= j,
            v@ == text@,
            cluster_spec(text@, 1, old(options)@) == cluster_spec(text@, j as int, options@),
        decreases v.len() - j,
    {
        let ch = v[j];
        if ch == 'q' {
            options.quiet = true;
        } else if ch == 'r' {
            options.reverse = true;
        } else if ch == 'p' {
            options.print = true;
        } else if ch == 'h' {
            return Err(owned("help requested"));
        } else if ch == 's' || ch == 'c' {
            let ghost o = options@;
            if j + 1 < v.len() {
                let rest = string_from_range(&v, j + 1, v.len());
                set_option_value(options, ch, rest);
                return Ok(false);
            }
            assert(text@.subrange(j + 1, text@.len() as int).len() == 0);
            match next {
                Some(n) => {
                    set_option_value(options, ch, copy_string(n));
                    return Ok(true);
                },
                None => {
                    let mut m = owned("option -");
                    push_char(&mut m, ch);
                    push_str(&mut m, " requires an argument");
                    return Err(m);
                },
            }
        } else {
            let mut m = owned("unknown option: -");
            push_char(&mut m, ch);
            return Err(m);
        }
        j = j + 1;
    }
    Ok(false)
}

/// Parses the command-line arguments (without the program name).
pub fn parse_args(args: &Vec<String>) -> (r: Result<Options, String>)
    ensures
        match r {
            Ok(o) => parse_spec(strings_view(args@), 0, true, default_options()) == Ok::<
                OptionsView,
                Seq<char>,
            >(o@),
            Err(m) => parse_spec(strings_view(args@), 0, true, default_options()) == Err::<
                OptionsView,
                Seq<char>,
            >(m@),
        },
{
    let ghost av = strings_view(args@);
    let mut options = Options {
        string: None,
        check: None,
        quiet: false,
        reverse: false,
        print: false,
        files: Vec::new(),
    };
    assert(options@ == default_options()) by {
        assert(strings_view(options.files@) =~= Seq::<Seq<char>>::empty());
    }
    let mut parse_flags = true;
    let mut i: usize = 0;
    while i < args.len()
        invariant
            i <= args@.len(),
            av == strings_view(args@),
            av.len() == args@.len(),
            parse_spec(av, 0, true, default_options()) == parse_spec(
                av,
                i as int,
                parse_flags,
                options@,
            ),
        decreases args.len() - i,
    {
        let arg = &args[i];
        let v = chars_of(arg.as_str());
        assert(av[i as int] == v@);
        if parse_flags && equals(&v, "--") {
            parse_flags = false;
            i = i + 1;
            continue;
        }
        if parse_flags {
            if equals(&v, "--help") {
                return Err(owned("help requested"));
            }
            if equals(&v, "--quiet") {
                options.quiet = true;
                i = i + 1;
                continue;
            }
            if equals(&v, "--reverse") {
                options.reverse = true;
                i = i + 1;
                continue;
            }
            if equals(&v, "--print") {
                options.print = true;
                i = i + 1;
                continue;
            }
            let is_string = equals(&v, "--string");
            if is_string || equals(&v, "--check") {
                let ch = if is_string { 's' } else { 'c' };
                if i + 1 < args.len() {
                    assert(av[i + 1] == args@[i + 1]@);
                    set_option_value(&mut options, ch, copy_string(&args[i + 1]));
                    i = i + 2;
                    continue;
                }
                if is_string {
                    return Err(owned("option -s requires an argument"));
                } else {
                    return Err(owned("option -c requires an argument"));
                }
            }
            if starts_with(&v, "--string=") {
                proof {
                    reveal_strlit("--string=");
                }
                let rest = string_from_range(&v, 9, v.len());
                set_option_value(&mut options, 's', rest);
                i = i + 1;
                continue;
            }
            if starts_with(&v, "--check=") {
                proof {
                    reveal_strlit("--check=");
                }
                let rest = string_from_range(&v, 8, v.len());
                set_option_value(&mut options, 'c', rest);
                i = i + 1;
                continue;
            }
            let dash = starts_with(&v, "-");
            if dash && !starts_with(&v, "--") && !equals(&v, "-") {
                let next = if i + 1 < args.len() {
                    Some(&args[i + 1])
                } else {
                    None
                };
                match handle_short_cluster(arg.as_str(), next, &mut options) {
                    Ok(consumed) => {
                        if consumed {
                            assert(av[i + 1] == args@[i + 1]@);
                            i = i + 2;
                        } else {
                            i = i + 1;
                        }
                        continue;
                    },
                    Err(m) => {
                        return Err(m);
                    },
                }
            }
            if dash {
                let mut m = owned("unknown option: ");
                push_str(&mut m, arg.as_str());
                return Err(m);
            }
        }
        push_string(&mut options.files, copy_string(arg));
        i = i + 1;
    }
    Ok(options)
}

/// What the command does, in order of precedence: hash the `-s` string,
/// verify a `-c` file, echo and hash standard input (`-p`), hash the named
/// files, or hash standard input.
pub enum Mode {
    HashString,
    Check,
    Print,
    Files,
    Stdin,
}

/// The mode chosen by a set of options.
pub open spec fn mode_spec(o: OptionsView) -> Mode {
    if o.string is Some {
        Mode::HashString
    } else if o.check is Some {
        Mode::Check
    } else if o.print {
        Mode::Print
    } else if o.files.len() > 0 {
        Mode::Files
    } else {
        Mode::Stdin
    }
}

/// Mode precedence, matching macOS `md5`:
///   -s string  >  -c check  >  -p print  >  files  >  stdin
pub fn select_mode(options: &Options) -> (m: Mode)
    ensures
        m == mode_spec(options@),
{
    if options.string.is_some() {
        Mode::HashString
    } else if options.check.is_some() {
        Mode::Check
    } else if options.print {
        Mode::Print
    } else if options.files.len() > 0 {
        Mode::Files
    } else {
        Mode::Stdin
    }
}

/// The label shown for a hashed `-s` string: the string in double quotes.
pub fn string_label(text: &str) -> (out: String)
    ensures
        out@ == seq!['"'] + text@ + seq!['"'],
{
    let mut out = String::new();
    push_char(&mut out, '"');
    push_str(&mut out, text);
    push_char(&mut out, '"');
    assert(out@ =~= seq!['"'] + text@ + seq!['"']);
    out
}

// ---------------------------------------------------------------------------
// Verifying a checksum file
// ---------------------------------------------------------------------------

/// Running counts of a `--check` pass: entries verified, entries that did
/// not match (or could not be read), and lines in neither format.
pub struct CheckTally {
    pub total: usize,
    pub failed: usize,
    pub malformed: usize,
}

/// What to do with one line of a checksum file.
pub enum LineAction {
    /// A blank line: ignored.
    Skip,
    /// A line in neither format; the warning to print.
    Malformed(String),
    /// An entry: verify the file `name` against the lowercase `hash`.
    Verify(String, String),
}

/// How reading one file for verification went.
pub enum FileDigest {
    /// The file was read; this is its digest in lowercase hex.
    Computed(String),
    /// The file could not be opened or read.
    Unreadable,
}

/// The warning for a malformed line.
pub open spec fn malformed_warning(line: Seq<char>) -> Seq<char> {
    "WARNING: "@ + line + " is improperly formatted"@
}

/// What a finished pass reports on standard error, in order.
pub open spec fn summary_warnings(total: nat, failed: nat, malformed: nat, file: Seq<char>) -> Seq<
    Seq<char>,
> {
    let w1: Seq<Seq<char>> = if failed > 0 {
        seq![
            "WARNING: "@ + decimal(failed) + " of "@ + decimal(total)
                + " computed checksums did NOT match"@,
        ]
    } else {
        Seq::empty()
    };
    let w2: Seq<Seq<char>> = if malformed > 0 {
        seq![
            "WARNING: "@ + decimal(malformed) + " "@ + (if malformed == 1 {
                "line is"@
            } else {
                "lines are"@
            }) + " improperly formatted"@,
        ]
    } else {
        Seq::empty()
    };
    let w3: Seq<Seq<char>> = if total == 0 && malformed == 0 {
        seq![file + ": no properly formatted checksum lines found"@]
    } else {
        Seq::empty()
    };
    w1 + w2 + w3
}

/// The exit status of a pass: failure when nothing was verified, when any
/// entry failed, or when any line was malformed.
pub open spec fn check_status(total: nat, failed: nat, malformed: nat) -> i32 {
    if total == 0 || failed > 0 || malformed > 0 {
        1
    } else {
        0
    }
}

impl CheckTally {
    /// A pass that has seen no line yet.
    pub fn new() -> (t: Self)
        ensures
            t.total == 0 && t.failed == 0 && t.malformed == 0,
    {
        CheckTally { total: 0, failed: 0, malformed: 0 }
    }

    /// Classifies one line (line terminator already removed) and counts it.
    pub fn read_line(&mut self, line: &str) -> (a: LineAction)
        requires
            old(self).total < usize::MAX,
            old(self).malformed < usize::MAX,
        ensures
            final(self).failed == old(self).failed,
            blank(line@) ==> a is Skip && final(self).total == old(self).total
                && final(self).malformed == old(self).malformed,
            !blank(line@) && parse_line_spec(line@) is None ==> final(self).total == old(self).total
                && final(self).malformed == old(self).malformed + 1 && (a matches LineAction::Malformed(
                w,
            ) && w@ == malformed_warning(line@)),
            !blank(line@) && parse_line_spec(line@) is Some ==> final(self).total == old(self).total
                + 1 && final(self).malformed == old(self).malformed && (a matches LineAction::Verify(
                name,
                hash,
            ) && parse_line_spec(line@) == Some((name@, hash@))),
    {
        if is_blank(line) {
            return LineAction::Skip;
        }
        match parse_checksum_line(line) {
            Some((name, hash)) => {
                self.total = self.total + 1;
                LineAction::Verify(name, hash)
            },
            None => {
                self.malformed = self.malformed + 1;
                let mut w = owned("WARNING: ");
                push_str(&mut w, line);
                push_str(&mut w, " is improperly formatted");
                LineAction::Malformed(w)
            },
        }
    }

    /// Compares a file's digest with the expected one (ignoring case) and
    /// returns the line to print on standard output, if any.
    pub fn record(&mut self, name: &str, expected: &str, actual: FileDigest, quiet: bool) -> (out:
        Option<String>)
        requires
            old(self).failed < usize::MAX,
        ensures
            final(self).total == old(self).total,
            final(self).malformed == old(self).malformed,
            match actual {
                FileDigest::Computed(d) => if eq_ignore_case(d@, expected@) {
                    final(self).failed == old(self).failed && if quiet {
                        out is None
                    } else {
                        (out matches Some(m) && m@ == name@ + ": OK"@)
                    }
                } else {
                    final(self).failed == old(self).failed + 1 && (out matches Some(m) && m@
                        == name@ + ": FAILED"@)
                },
                FileDigest::Unreadable => final(self).failed == old(self).failed + 1 && (out matches Some(
                    m,
                ) && m@ == name@ + ": FAILED open or read"@),
            },
    {
        match actual {
            FileDigest::Computed(d) => {
                if eq_ignore_ascii_case(d.as_str(), expected) {
                    if quiet {
                        None
                    } else {
                        let mut m = owned(name);
                        push_str(&mut m, ": OK");
                        Some(m)
                    }
                } else {
                    self.failed = self.failed + 1;
                    let mut m = owned(name);
                    push_str(&mut m, ": FAILED");
                    Some(m)
                }
            },
            FileDigest::Unreadable => {
                self.failed = self.failed + 1;
                let mut m = owned(name);
                push_str(&mut m, ": FAILED open or read");
                Some(m)
            },
        }
    }

    /// The warnings to print once every line is processed, and the exit
    /// status of the pass.
    pub fn finish(&self, check_file: &str) -> (r: (Vec<String>, i32))
        ensures
            strings_view(r.0@) == summary_warnings(
                self.total as nat,
                self.failed as nat,
                self.malformed as nat,
                check_file@,
            ),
            r.1 == check_status(self.total as nat, self.failed as nat, self.malformed as nat),
    {
        let mut warnings: Vec<String> = Vec::new();
        let ghost w: Seq<Seq<char>> = Seq::empty();
        if self.failed > 0 {
            let mut m = owned("WARNING: ");
            push_decimal(&mut m, self.failed as u64);
            push_str(&mut m, " of ");
            push_decimal(&mut m, self.total as u64);
            push_str(&mut m, " computed checksums did NOT match");
            push_string(&mut warnings, m);
        }
        if self.malformed > 0 {
            let mut m = owned("WARNING: ");
            push_decimal(&mut m, self.malformed as u64);
            push_str(&mut m, " ");
            if self.malformed == 1 {
                push_str(&mut m, "line is");
            } else {
                push_str(&mut m, "lines are");
            }
            push_str(&mut m, " improperly formatted");
            push_string(&mut warnings, m);
        }
        if self.total == 0 && self.malformed == 0 {
            let mut m = owned(check_file);
            push_str(&mut m, ": no properly formatted checksum lines found");
            push_string(&mut warnings, m);
        }
        assert(strings_view(warnings@) =~= summary_warnings(
            self.total as nat,
            self.failed as nat,
            self.malformed as nat,
            check_file@,
        ));
        let code = if self.total == 0 {
            1
        } else if self.failed > 0 || self.malformed > 0 {
            1
        } else {
            0
        };
        (warnings, code)
    }
}

// ---------------------------------------------------------------------------
// Laws
// ---------------------------------------------------------------------------

/// `hash` is 32 lowercase hexadecimal digits, as `hex` renders a digest.
pub open spec fn lowercase_hex32(hash: Seq<char>) -> bool {
    hex32(hash) && ascii_lower_seq(hash) == hash
}

/// What the default (BSD-style) output prints for a file is a line that
/// `--check` reads back as the same name and hash, provided the name does
/// not itself contain `) = `.
pub proof fn law_bsd_output_is_checkable(label: Seq<char>, hash: Seq<char>)
    requires
        lowercase_hex32(hash),
        !contains_seq(label, ") = "@),
    ensures
        parse_line_spec(format_output_spec(label, hash, false, false)) == Some((label, hash)),
{
    reveal_strlit("MD5 (");
    reveal_strlit(") = ");
    let pat = ") = "@;
    let line = format_output_spec(label, hash, false, false);
    assert(line =~= "MD5 ("@ + label + pat + hash);
    assert(md5_prefix(line));
    let rest = line.subrange(5, line.len() as int);
    assert(rest =~= label + pat + hash);
    let n = label.len() as int;
    assert(occurs_at(rest, pat, n)) by {
        assert(rest.subrange(n, n + 4) =~= pat);
    }
    assert forall|j: int| 0 <= j < n implies !occurs_at(rest, pat, j) by {
        if j + 4 <= n {
            if occurs_at(rest, pat, j) {
                assert(label.subrange(j, j + 4) =~= rest.subrange(j, j + 4));
                assert(occurs_at(label, pat, j));
            }
        } else {
            let k = n - j;
            if occurs_at(rest, pat, j) {
                assert(rest.subrange(j, j + 4)[k] == pat[k]);
                assert(rest[n] == ')');
            }
        }
    }
    lemma_find_from(rest, pat, 0);
    assert(find_from(rest, pat, 0) == Some(n)) by {
        if find_from(rest, pat, 0) is None {
            assert(!occurs_at(rest, pat, n));
        } else {
            let i = find_from(rest, pat, 0)->0;
            assert(!(i < n));
            assert(!(i > n));
        }
    }
    assert(rest.subrange(n + 4, rest.len() as int) =~= hash);
    assert(rest.subrange(0, n) =~= label);
}

/// What `-r` prints for a file, `hash  name`, is a GNU-format line that
/// `--check` reads back as the same name and hash.
pub proof fn law_reverse_output_is_checkable(label: Seq<char>, hash: Seq<char>)
    requires
        lowercase_hex32(hash),
    ensures
        parse_line_spec(format_output_spec(label, hash, false, true)) == Some((label, hash)),
{
    reveal_strlit("  ");
    let line = format_output_spec(label, hash, false, true);
    assert(line =~= hash + seq![' ', ' '] + label);
    assert(is_hex_digit(line[0]));
    assert(!md5_prefix(line));
    assert(line.subrange(0, 32) =~= hash);
    assert(line.subrange(34, line.len() as int) =~= label);
}

/// A checksum file with a malformed line, or with an entry that did not
/// match, never verifies successfully; nor does one without entries.
pub proof fn law_check_fails_unless_all_entries_match(total: nat, failed: nat, malformed: nat)
    ensures
        check_status(total, failed, malformed) == 0 <==> (total > 0 && failed == 0 && malformed
            == 0),
{
}

/// A digest rendered by `hex` is always 32 lowercase hexadecimal digits,
/// the form both checksum-line formats require.
pub proof fn law_hex_of_digest_is_checkable(digest: Seq<u8>)
    requires
        digest.len() == 16,
    ensures
        lowercase_hex32(hex_lower(digest)),
{
    let h = hex_lower(digest);
    assert forall|i: int| 0 <= i < 32 implies is_hex_digit(#[trigger] h[i]) && ascii_lower(h[i])
        == h[i] by {
        let b = digest[i / 2];
        let n = if i % 2 == 0 {
            b >> 4u8
        } else {
            b & 0x0fu8
        };
        assert(b >> 4u8 < 16 && b & 0x0fu8 < 16) by (bit_vector);
        assert(h[i] == hex_digit(n));
    }
    assert(ascii_lower_seq(h) =~= h);
}

/// After `--`, every remaining argument is a file, whatever it looks like.
pub proof fn law_double_dash_makes_files(args: Seq<Seq<char>>, i: int, o: OptionsView)
    requires
        0 <= i <= args.len(),
    ensures
        parse_spec(args, i, false, o) == Ok::<OptionsView, Seq<char>>(
            OptionsView { files: o.files + args.subrange(i, args.len() as int), ..o },
        ),
    decreases args.len() - i,
{
    if i < args.len() {
        let o2 = OptionsView { files: o.files.push(args[i]), ..o };
        law_double_dash_makes_files(args, i + 1, o2);
        assert(o2.files + args.subrange(i + 1, args.len() as int) =~= o.files + args.subrange(
            i,
            args.len() as int,
        ));
    } else {
        assert(o.files + args.subrange(i, args.len() as int) =~= o.files);
    }
}

/// Parsing depends only on the arguments still to come: after a prefix
/// `p`, the parse of `p + rest` goes on as the parse of `rest` would.
proof fn lemma_parse_suffix(p: Seq<Seq<char>>, rest: Seq<Seq<char>>, k: int, f: bool, o: OptionsView)
    requires
        0 <= k <= rest.len(),
    ensures
        parse_spec(p + rest, p.len() + k, f, o) == parse_spec(rest, k, f, o),
    decreases rest.len() - k,
{
    let args = p + rest;
    let i = p.len() + k;
    if k < rest.len() {
        let a = rest[k];
        assert(args[i] == a);
        assert(p.len() + (k + 1) == i + 1);
        assert(p.len() + (k + 2) == i + 2);
        if k + 1 < rest.len() {
            assert(args[i + 1] == rest[k + 1]);
        }
        if f && a == "--"@ {
            lemma_parse_suffix(p, rest, k + 1, false, o);
        } else if f && a == "--help"@ {
        } else if f && a == "--quiet"@ {
            lemma_parse_suffix(p, rest, k + 1, f, OptionsView { quiet: true, ..o });
        } else if f && a == "--reverse"@ {
            lemma_parse_suffix(p, rest, k + 1, f, OptionsView { reverse: true, ..o });
        } else if f && a == "--print"@ {
            lemma_parse_suffix(p, rest, k + 1, f, OptionsView { print: true, ..o });
        } else if f && (a == "--string"@ || a == "--check"@) {
            let ch = if a == "--string"@ {
                's'
            } else {
                'c'
            };
            if k + 1 < rest.len() {
                lemma_parse_suffix(p, rest, k + 2, f, set_value(o, ch, rest[k + 1]));
            }
        } else if f && has_prefix(a, "--string="@) {
            lemma_parse_suffix(p, rest, k + 1, f, set_value(o, 's', a.subrange(9, a.len() as int)));
        } else if f && has_prefix(a, "--check="@) {
            lemma_parse_suffix(p, rest, k + 1, f, set_value(o, 'c', a.subrange(8, a.len() as int)));
        } else if f && has_prefix(a, "-"@) && !has_prefix(a, "--"@) && a != "-"@ {
            match cluster_spec(a, 1, o) {
                ClusterOutcome::Done(o2) => {
                    lemma_parse_suffix(p, rest, k + 1, f, o2);
                },
                ClusterOutcome::NeedsValue(o2, ch) => {
                    if k + 1 < rest.len() {
                        lemma_parse_suffix(p, rest, k + 2, f, set_value(o2, ch, rest[k + 1]));
                    }
                },
                ClusterOutcome::Failed(_) => {},
            }
        } else if f && has_prefix(a, "-"@) {
        } else {
            lemma_parse_suffix(p, rest, k + 1, f, OptionsView { files: o.files.push(a), ..o });
        }
    }
}

/// The display flags only ever get set: a cluster never clears them.
proof fn lemma_cluster_keeps_flags(text: Seq<char>, j: int, o: OptionsView)
    ensures
        match cluster_spec(text, j, o) {
            ClusterOutcome::Done(o2) => (o.reverse ==> o2.reverse) && (o.quiet ==> o2.quiet) && (
            o.print ==> o2.print),
            ClusterOutcome::NeedsValue(o2, _) => (o.reverse ==> o2.reverse) && (o.quiet
                ==> o2.quiet) && (o.print ==> o2.print),
            ClusterOutcome::Failed(_) => true,
        },
    decreases text.len() - j,
{
    if 0 <= j < text.len() {
        let ch = text[j];
        if ch == 'q' {
            lemma_cluster_keeps_flags(text, j + 1, OptionsView { quiet: true, ..o });
        } else if ch == 'r' {
            lemma_cluster_keeps_flags(text, j + 1, OptionsView { reverse: true, ..o });
        } else if ch == 'p' {
            lemma_cluster_keeps_flags(text, j + 1, OptionsView { print: true, ..o });
        }
    }
}

/// A successful parse result keeps every display flag that `o` had on.
pub open spec fn keeps_flags(o: OptionsView, r: Result<OptionsView, Seq<char>>) -> bool {
    match r {
        Ok(o2) => (o.reverse ==> o2.reverse) && (o.quiet ==> o2.quiet) && (o.print ==> o2.print),
        Err(_) => true,
    }
}

/// The display flags only ever get set: a successful parse keeps every
/// flag that was already on.
proof fn lemma_parse_keeps_flags(args: Seq<Seq<char>>, i: int, f: bool, o: OptionsView)
    requires
        0 <= i <= args.len(),
    ensures
        keeps_flags(o, parse_spec(args, i, f, o)),
    decreases args.len() - i,
{
    if i < args.len() {
        let a = args[i];
        if f && a == "--"@ {
            lemma_parse_keeps_flags(args, i + 1, false, o);
        } else if f && a == "--help"@ {
        } else if f && a == "--quiet"@ {
            lemma_parse_keeps_flags(args, i + 1, f, OptionsView { quiet: true, ..o });
        } else if f && a == "--reverse"@ {
            lemma_parse_keeps_flags(args, i + 1, f, OptionsView { reverse: true, ..o });
        } else if f && a == "--print"@ {
            lemma_parse_keeps_flags(args, i + 1, f, OptionsView { print: true, ..o });
        } else if f && (a == "--string"@ || a == "--check"@) {
            let ch = if a == "--string"@ {
                's'
            } else {
                'c'
            };
            if i + 1 < args.len() {
                lemma_parse_keeps_flags(args, i + 2, f, set_value(o, ch, args[i + 1]));
            }
        } else if f && has_prefix(a, "--string="@) {
            lemma_parse_keeps_flags(args, i + 1, f, set_value(o, 's', a.subrange(9, a.len() as int)));
        } else if f && has_prefix(a, "--check="@) {
            lemma_parse_keeps_flags(args, i + 1, f, set_value(o, 'c', a.subrange(8, a.len() as int)));
        } else if f && has_prefix(a, "-"@) && !has_prefix(a, "--"@) && a != "-"@ {
            lemma_cluster_keeps_flags(a, 1, o);
            match cluster_spec(a, 1, o) {
                ClusterOutcome::Done(o2) => {
                    lemma_parse_keeps_flags(args, i + 1, f, o2);
                },
                ClusterOutcome::NeedsValue(o2, ch) => {
                    if i + 1 < args.len() {
                        lemma_parse_keeps_flags(args, i + 2, f, set_value(o2, ch, args[i + 1]));
                    }
                },
                ClusterOutcome::Failed(_) => {},
            }
        } else if f && has_prefix(a, "-"@) {
        } else {
            lemma_parse_keeps_flags(args, i + 1, f, OptionsView { files: o.files.push(a), ..o });
        }
    }
}

/// Before `--`, each long display flag has the effect of its short form:
/// `--reverse`, `--quiet` and `--print` parse as `-r`, `-q` and `-p`, set
/// their flag, touch nothing else, and leave the rest of the line to parse
/// as it would; a successful parse then has the flag on.
pub proof fn law_long_flags_match_short_flags(rest: Seq<Seq<char>>, o: OptionsView)
    ensures
        parse_spec(seq!["--reverse"@] + rest, 0, true, o) == parse_spec(seq!["-r"@] + rest, 0, true, o),
        parse_spec(seq!["--reverse"@] + rest, 0, true, o) == parse_spec(
            rest,
            0,
            true,
            OptionsView { reverse: true, ..o },
        ),
        parse_spec(seq!["--reverse"@] + rest, 0, true, o) matches Ok(o2) ==> o2.reverse,
        parse_spec(seq!["--quiet"@] + rest, 0, true, o) == parse_spec(seq!["-q"@] + rest, 0, true, o),
        parse_spec(seq!["--quiet"@] + rest, 0, true, o) == parse_spec(
            rest,
            0,
            true,
            OptionsView { quiet: true, ..o },
        ),
        parse_spec(seq!["--quiet"@] + rest, 0, true, o) matches Ok(o2) ==> o2.quiet,
        parse_spec(seq!["--print"@] + rest, 0, true, o) == parse_spec(seq!["-p"@] + rest, 0, true, o),
        parse_spec(seq!["--print"@] + rest, 0, true, o) == parse_spec(
            rest,
            0,
            true,
            OptionsView { print: true, ..o },
        ),
        parse_spec(seq!["--print"@] + rest, 0, true, o) matches Ok(o2) ==> o2.print,
{
    reveal_strlit("--");
    reveal_strlit("--help");
    reveal_strlit("--quiet");
    reveal_strlit("--reverse");
    reveal_strlit("--print");
    reveal_strlit("--string");
    reveal_strlit("--check");
    reveal_strlit("--string=");
    reveal_strlit("--check=");
    reveal_strlit("-");
    reveal_strlit("-r");
    reveal_strlit("-q");
    reveal_strlit("-p");
    lemma_parse_keeps_flags(rest, 0, true, OptionsView { reverse: true, ..o });
    lemma_parse_keeps_flags(rest, 0, true, OptionsView { quiet: true, ..o });
    lemma_parse_keeps_flags(rest, 0, true, OptionsView { print: true, ..o });
    lemma_parse_suffix(seq!["--reverse"@], rest, 0, true, OptionsView { reverse: true, ..o });
    lemma_parse_suffix(seq!["--quiet"@], rest, 0, true, OptionsView { quiet: true, ..o });
    lemma_parse_suffix(seq!["--print"@], rest, 0, true, OptionsView { print: true, ..o });
    lemma_parse_suffix(seq!["-r"@], rest, 0, true, OptionsView { reverse: true, ..o });
    lemma_parse_suffix(seq!["-q"@], rest, 0, true, OptionsView { quiet: true, ..o });
    lemma_parse_suffix(seq!["-p"@], rest, 0, true, OptionsView { print: true, ..o });
    // The long forms, each told apart from the options tried before it.
    assert("--quiet"@.len() == 7 && "--reverse"@.len() == 9 && "--print"@.len() == 7);
    assert("--"@.len() == 2 && "--help"@.len() == 6);
    assert("--print"@ != "--quiet"@) by {
        assert("--print"@[2] != "--quiet"@[2]);
    }
    // The short forms: a single flag cluster.
    assert("-r"@ != "--"@) by {
        assert("-r"@[1] != "--"@[1]);
    }
    assert("-q"@ != "--"@) by {
        assert("-q"@[1] != "--"@[1]);
    }
    assert("-p"@ != "--"@) by {
        assert("-p"@[1] != "--"@[1]);
    }
    assert(!has_prefix("-r"@, "--"@)) by {
        assert("-r"@.subrange(0, 2)[1] != "--"@[1]);
    }
    assert(!has_prefix("-q"@, "--"@)) by {
        assert("-q"@.subrange(0, 2)[1] != "--"@[1]);
    }
    assert(!has_prefix("-p"@, "--"@)) by {
        assert("-p"@.subrange(0, 2)[1] != "--"@[1]);
    }
    assert(has_prefix("-r"@, "-"@)) by {
        assert("-r"@.subrange(0, 1) =~= "-"@);
    }
    assert(has_prefix("-q"@, "-"@)) by {
        assert("-q"@.subrange(0, 1) =~= "-"@);
    }
    assert(has_prefix("-p"@, "-"@)) by {
        assert("-p"@.subrange(0, 1) =~= "-"@);
    }
    assert(cluster_spec("-r"@, 1, o) == ClusterOutcome::Done(OptionsView { reverse: true, ..o })) by {
        assert("-r"@.len() == 2 && "-r"@[1] == 'r');
        assert(cluster_spec("-r"@, 2, OptionsView { reverse: true, ..o }) == ClusterOutcome::Done(
            OptionsView { reverse: true, ..o },
        ));
    }
    assert(cluster_spec("-q"@, 1, o) == ClusterOutcome::Done(OptionsView { quiet: true, ..o })) by {
        assert("-q"@.len() == 2 && "-q"@[1] == 'q');
        assert(cluster_spec("-q"@, 2, OptionsView { quiet: true, ..o }) == ClusterOutcome::Done(
            OptionsView { quiet: true, ..o },
        ));
    }
    assert(cluster_spec("-p"@, 1, o) == ClusterOutcome::Done(OptionsView { print: true, ..o })) by {
        assert("-p"@.len() == 2 && "-p"@[1] == 'p');
        assert(cluster_spec("-p"@, 2, OptionsView { print: true, ..o }) == ClusterOutcome::Done(
            OptionsView { print: true, ..o },
        ));
    }
    assert((seq!["--reverse"@] + rest)[0] == "--reverse"@);
    assert((seq!["--quiet"@] + rest)[0] == "--quiet"@);
    assert((seq!["--print"@] + rest)[0] == "--print"@);
    assert((seq!["-r"@] + rest)[0] == "-r"@);
    assert((seq!["-q"@] + rest)[0] == "-q"@);
    assert((seq!["-p"@] + rest)[0] == "-p"@);
}

} // verus!
