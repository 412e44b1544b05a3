//! The `say` command's logic: the command line, numeric option values,
//! decoding text files by their byte-order mark, and choosing a voice.
//!
//! Speech synthesis and playback stay outside this library; what a voice
//! is called is handed in as plain strings.
use vstd::prelude::*;
use vstd::utf8::{decode_utf8, valid_utf8};
use crate::open::join_spaces;
use crate::text::{
    ascii_lower_seq, chars_of, contains_chars, contains_seq, copy_string,
    equals, has_prefix, lower_chars, opt_view, owned, push_char, push_str,
    push_string, starts_with, string_from_range, strings_view,
};

verus! {

// ---------------------------------------------------------------------------
// Numbers
// ---------------------------------------------------------------------------

/// Clamp the user-supplied rate into the documented -10..10 range.
pub fn clamp_rate(rate: i32) -> (r: i32)
    ensures
        r == if rate < -10 {
            -10i32
        } else if rate > 10 {
            10i32
        } else {
            rate
        },
{
    if rate < -10 {
        -10
    } else if rate > 10 {
        10
    } else {
        rate
    }
}

/// Clamp the user-supplied volume into the documented 0..100 range.
pub fn clamp_volume(volume: u32) -> (r: u32)
    ensures
        r == if volume > 100 {
            100u32
        } else {
            volume
        },
{
    if volume > 100 {
        100
    } else {
        volume
    }
}

/// `s` is non-empty and made of ASCII decimal digits.
pub open spec fn all_digits(s: Seq<char>) -> bool {
    s.len() > 0 && forall|i: int| 0 <= i < s.len() ==> '0' <= #[trigger] s[i] && s[i] <= '9'
}

/// The value of a string of decimal digits.
pub open spec fn digits_value(s: Seq<char>) -> int
    decreases s.len(),
{
    if s.len() == 0 {
        0
    } else {
        digits_value(s.drop_last()) * 10 + ((s.last() as int) - ('0' as int))
    }
}

/// The integer written by `s`: an optional `+` (or, when `signed`, `-`)
/// followed by at least one decimal digit, with nothing else around it.
pub open spec fn integer_literal(s: Seq<char>, signed: bool) -> Option<int> {
    let neg = signed && s.len() > 0 && s[0] == '-';
    let body = if s.len() > 0 && (s[0] == '+' || neg) {
        s.drop_first()
    } else {
        s
    };
    if all_digits(body) {
        Some(
            if neg {
                -digits_value(body)
            } else {
                digits_value(body)
            },
        )
    } else {
        None
    }
}

/// What `str::parse::<i32>` yields: the literal's value when it fits.
pub open spec fn i32_literal(s: Seq<char>) -> Option<i32> {
    match integer_literal(s, true) {
        Some(v) => if i32::MIN <= v <= i32::MAX {
            Some(v as i32)
        } else {
            None
        },
        None => None,
    }
}

/// What `str::parse::<u32>` yields: the literal's value when it fits.
pub open spec fn u32_literal(s: Seq<char>) -> Option<u32> {
    match integer_literal(s, false) {
        Some(v) => if 0 <= v <= u32::MAX {
            Some(v as u32)
        } else {
            None
        },
        None => None,
    }
}

/// std's `Debug` rendering of a string: in double quotes, with quotes,
/// backslashes and non-printable characters escaped.
pub uninterp spec fn debug_quoted(s: Seq<char>) -> Seq<char>;

/// `str::parse::<i32>`: std documents the accepted form as an optional
/// sign followed by decimal digits, rejecting values out of range.
#[verifier::external_body]
fn std_parse_i32(text: &str) -> (r: Option<i32>)
    ensures
        r == i32_literal(text@),
{
    text.parse::<i32>().ok()
}

/// `str::parse::<u32>`: an optional `+` followed by decimal digits,
/// rejecting values out of range.
#[verifier::external_body]
fn std_parse_u32(text: &str) -> (r: Option<u32>)
    ensures
        r == u32_literal(text@),
{
    text.parse::<u32>().ok()
}

/// `format!("{:?}", text)`: the string's `Debug` rendering.
#[verifier::external_body]
fn debug_string(text: &str) -> (out: String)
    ensures
        out@ == debug_quoted(text@),
{
    format!("{:?}", text)
}

/// The result of parsing a signed option value.
pub open spec fn parse_i32_spec(text: Seq<char>, name: Seq<char>) -> Result<i32, Seq<char>> {
    match i32_literal(text) {
        Some(v) => Ok(v),
        None => Err("option "@ + name + " expects an integer, got "@ + debug_quoted(text)),
    }
}

/// The result of parsing an unsigned option value.
pub open spec fn parse_u32_spec(text: Seq<char>, name: Seq<char>) -> Result<u32, Seq<char>> {
    match u32_literal(text) {
        Some(v) => Ok(v),
        None => Err("option "@ + name + " expects a non-negative integer, got "@ + debug_quoted(text)),
    }
}

/// Parses the integer value of option `name`.
pub fn parse_i32(text: &str, name: &str) -> (r: Result<i32, String>)
    ensures
        match parse_i32_spec(text@, name@) {
            Ok(v) => r == Ok::<i32, String>(v),
            Err(m) => r matches Err(e) && e@ == m,
        },
{
    match std_parse_i32(text) {
        Some(v) => Ok(v),
        None => {
            let mut m = owned("option ");
            push_str(&mut m, name);
            push_str(&mut m, " expects an integer, got ");
            let d = debug_string(text);
            push_str(&mut m, d.as_str());
            Err(m)
        },
    }
}

/// Parses the non-negative integer value of option `name`.
pub fn parse_u32(text: &str, name: &str) -> (r: Result<u32, String>)
    ensures
        match parse_u32_spec(text@, name@) {
            Ok(v) => r == Ok::<u32, String>(v),
            Err(m) => r matches Err(e) && e@ == m,
        },
{
    match std_parse_u32(text) {
        Some(v) => Ok(v),
        None => {
            let mut m = owned("option ");
            push_str(&mut m, name);
            push_str(&mut m, " expects a non-negative integer, got ");
            let d = debug_string(text);
            push_str(&mut m, d.as_str());
            Err(m)
        },
    }
}

// ---------------------------------------------------------------------------
// Decoding text
// ---------------------------------------------------------------------------

/// `String::from_utf8_lossy`: the text of a byte string, with each invalid
/// sequence replaced by U+FFFD.
pub uninterp spec fn utf8_lossy(bytes: Seq<u8>) -> Seq<char>;

/// `String::from_utf16_lossy`: the text of UTF-16 code units, with each
/// unpaired surrogate replaced by U+FFFD.
pub uninterp spec fn utf16_lossy(units: Seq<u16>) -> Seq<char>;

/// No unit is a surrogate, so each unit is one character.
pub open spec fn no_surrogates(units: Seq<u16>) -> bool {
    forall|i: int| 0 <= i < units.len() ==> !(0xd800 <= #[trigger] units[i] <= 0xdfff)
}

/// `String::from_utf8_lossy(bytes).into_owned()`. Valid UTF-8 decodes as
/// itself.
#[verifier::external_body]
fn utf8_to_string_lossy(bytes: &[u8]) -> (out: String)
    ensures
        out@ == utf8_lossy(bytes@),
        valid_utf8(bytes@) ==> out@ == decode_utf8(bytes@),
{
    String::from_utf8_lossy(bytes).into_owned()
}

/// `String::from_utf16_lossy(units)`. Units outside the surrogate range
/// each stand for the character with that code.
#[verifier::external_body]
fn utf16_to_string_lossy(units: &[u16]) -> (out: String)
    ensures
        out@ == utf16_lossy(units@),
        no_surrogates(units@) ==> out@ == units@.map_values(|u: u16| u as char),
{
    String::from_utf16_lossy(units)
}

/// The 16-bit units of `bytes` taken in pairs (a trailing odd byte is
/// dropped), little-endian or big-endian.
pub open spec fn utf16_units(bytes: Seq<u8>, little_endian: bool) -> Seq<u16> {
    Seq::new(
        bytes.len() / 2,
        |k: int|
            if little_endian {
                (bytes[2 * k] as u16 | ((bytes[2 * k + 1] as u16) << 8u16)) as u16
            } else {
                (bytes[2 * k + 1] as u16 | ((bytes[2 * k] as u16) << 8u16)) as u16
            },
    )
}

/// Decode UTF-16 text held in byte pairs of the given endianness.
pub fn utf16_from(bytes: &[u8], little_endian: bool) -> (out: String)
    ensures
        out@ == utf16_lossy(utf16_units(bytes@, little_endian)),
        no_surrogates(utf16_units(bytes@, little_endian)) ==> out@ == utf16_units(
            bytes@,
            little_endian,
        ).map_values(|u: u16| u as char),
{
    let mut units: Vec<u16> = Vec::new();
    let mut k: usize = 0;
    let n = bytes.len() / 2;
    while k < n
        invariant
            k <= n,
            n == bytes.len() / 2,
            units@ == utf16_units(bytes@, little_endian).take(k as int),
        decreases n - k,
    {
        let first = bytes[2 * k] as u16;
        let second = bytes[2 * k + 1] as u16;
        let unit = if little_endian {
            first | (second << 8u16)
        } else {
            second | (first << 8u16)
        };
        units.push(unit);
        k = k + 1;
        assert(units@ =~= utf16_units(bytes@, little_endian).take(k as int));
    }
    assert(units@ =~= utf16_units(bytes@, little_endian));
    utf16_to_string_lossy(units.as_slice())
}

/// `b` starts with the UTF-8 byte-order mark EF BB BF.
pub open spec fn has_utf8_mark(b: Seq<u8>) -> bool {
    b.len() >= 3 && b[0] == 0xef && b[1] == 0xbb && b[2] == 0xbf
}

/// `b` starts with the UTF-16LE byte-order mark FF FE.
pub open spec fn has_utf16le_mark(b: Seq<u8>) -> bool {
    b.len() >= 2 && b[0] == 0xff && b[1] == 0xfe
}

/// `b` starts with the UTF-16BE byte-order mark FE FF.
pub open spec fn has_utf16be_mark(b: Seq<u8>) -> bool {
    b.len() >= 2 && b[0] == 0xfe && b[1] == 0xff
}

/// The text of a file's bytes, by its byte-order mark: UTF-8 (EF BB BF),
/// UTF-16LE (FF FE), UTF-16BE (FE FF); without a mark, lossy UTF-8.
pub open spec fn decode_bytes_spec(b: Seq<u8>) -> Seq<char> {
    if has_utf8_mark(b) {
        utf8_lossy(b.subrange(3, b.len() as int))
    } else if has_utf16le_mark(b) {
        utf16_lossy(utf16_units(b.subrange(2, b.len() as int), true))
    } else if has_utf16be_mark(b) {
        utf16_lossy(utf16_units(b.subrange(2, b.len() as int), false))
    } else {
        utf8_lossy(b)
    }
}

/// Decode raw bytes to text, honouring a UTF-8 / UTF-16LE / UTF-16BE BOM and
/// falling back to lossy UTF-8 otherwise.
pub fn decode_bytes(bytes: &[u8]) -> (out: String)
    ensures
        out@ == decode_bytes_spec(bytes@),
        has_utf8_mark(bytes@) && valid_utf8(bytes@.subrange(3, bytes@.len() as int)) ==> out@
            == decode_utf8(bytes@.subrange(3, bytes@.len() as int)),
        !has_utf8_mark(bytes@) && has_utf16le_mark(bytes@) && no_surrogates(
            utf16_units(bytes@.subrange(2, bytes@.len() as int), true),
        ) ==> out@ == utf16_units(bytes@.subrange(2, bytes@.len() as int), true).map_values(
            |u: u16| u as char,
        ),
        !has_utf8_mark(bytes@) && !has_utf16le_mark(bytes@) && has_utf16be_mark(bytes@)
            && no_surrogates(utf16_units(bytes@.subrange(2, bytes@.len() as int), false)) ==> out@
            == utf16_units(bytes@.subrange(2, bytes@.len() as int), false).map_values(
            |u: u16| u as char,
        ),
        !has_utf8_mark(bytes@) && !has_utf16le_mark(bytes@) && !has_utf16be_mark(bytes@)
            && valid_utf8(bytes@) ==> out@ == decode_utf8(bytes@),
{
    let n = bytes.len();
    if n >= 3 && bytes[0] == 0xef && bytes[1] == 0xbb && bytes[2] == 0xbf {
        utf8_to_string_lossy(&bytes[3..n])
    } else if n >= 2 && bytes[0] == 0xff && bytes[1] == 0xfe {
        utf16_from(&bytes[2..n], true)
    } else if n >= 2 && bytes[0] == 0xfe && bytes[1] == 0xff {
        utf16_from(&bytes[2..n], false)
    } else {
        utf8_to_string_lossy(bytes)
    }
}

/// Command-line words joined with single spaces, as they are spoken.
pub fn join_text(parts: &Vec<String>) -> (out: String)
    ensures
        out@ == join_spaces(strings_view(parts@)),
{
    let ghost pv = strings_view(parts@);
    let mut out = String::new();
    let mut i: usize = 0;
    while i < parts.len()
        invariant
            i <= parts@.len(),
            pv == strings_view(parts@),
            pv.len() == parts@.len(),
            out@ == join_spaces(pv.take(i as int)),
        decreases parts.len() - i,
    {
        if i > 0 {
            push_char(&mut out, ' ');
        }
        push_str(&mut out, parts[i].as_str());
        i = i + 1;
        assert(pv.take(i as int).drop_last() =~= pv.take(i - 1));
        assert(out@ =~= join_spaces(pv.take(i as int)));
    }
    assert(pv.take(parts@.len() as int) =~= pv);
    out
}

// ---------------------------------------------------------------------------
// Voices
// ---------------------------------------------------------------------------

/// What is known of an installed voice.
pub struct VoiceFields {
    pub display: String,
    pub id: String,
    pub language: String,
    pub description: String,
}

/// A voice's gender as the speech engine reports it.
pub enum VoiceGender {
    Male,
    Female,
    Unknown,
}

/// The label printed for a gender in the voice list.
pub fn gender_label(gender: VoiceGender) -> (s: &'static str)
    ensures
        s@ == match gender {
            VoiceGender::Male => "male"@,
            VoiceGender::Female => "female"@,
            VoiceGender::Unknown => "unknown"@,
        },
{
    match gender {
        VoiceGender::Male => "male",
        VoiceGender::Female => "female",
        VoiceGender::Unknown => "unknown",
    }
}

/// Voice `v` matches the lowercase `needle` in any of its fields.
pub open spec fn voice_matches(v: VoiceFields, needle: Seq<char>) -> bool {
    contains_seq(ascii_lower_seq(v.display@), needle) || contains_seq(ascii_lower_seq(v.id@), needle)
        || contains_seq(ascii_lower_seq(v.language@), needle) || contains_seq(
        ascii_lower_seq(v.description@),
        needle,
    )
}

fn field_contains(field: &String, needle: &Vec<char>) -> (b: bool)
    ensures
        b == contains_seq(ascii_lower_seq(field@), needle@),
{
    let f = lower_chars(&chars_of(field.as_str()));
    contains_chars(&f, needle)
}

/// The view of an optional string slice.
pub open spec fn str_opt_view(o: Option<&str>) -> Option<Seq<char>> {
    match o {
        Some(s) => Some(s@),
        None => None,
    }
}

/// `r` is the voice chosen by the selectors: with a voice id, the first
/// voice whose id equals it exactly; otherwise, with a
/// non-empty voice text, the first voice with a field containing it
/// ignoring ASCII case; otherwise none (the default voice).
pub open spec fn is_selection(
    voices: Seq<VoiceFields>,
    voice_id: Option<Seq<char>>,
    voice: Option<Seq<char>>,
    r: Option<usize>,
) -> bool {
    match voice_id {
        Some(q) => match r {
            Some(k) => k < voices.len() && voices[k as int].id@ == q && forall|j: int|
                0 <= j < k ==> #[trigger] voices[j].id@ != q,
            None => forall|j: int| 0 <= j < voices.len() ==> #[trigger] voices[j].id@ != q,
        },
        None => match voice {
            Some(q) => if q.len() == 0 {
                r is None
            } else {
                match r {
                    Some(k) => k < voices.len() && voice_matches(voices[k as int], ascii_lower_seq(q))
                        && forall|j: int|
                        0 <= j < k ==> !voice_matches(#[trigger] voices[j], ascii_lower_seq(q)),
                    None => forall|j: int|
                        0 <= j < voices.len() ==> !voice_matches(#[trigger] voices[j], ascii_lower_seq(q)),
                }
            },
            None => r is None,
        },
    }
}

/// Pick a voice index. `--voice-id` matches the Id exactly; `-v` matches
/// any field by case-insensitive substring; `None`
/// means "use the default voice".
pub fn select_index(voices: &Vec<VoiceFields>, voice_id: Option<&str>, voice: Option<&str>) -> (r:
    Option<usize>)
    ensures
        is_selection(voices@, str_opt_view(voice_id), str_opt_view(voice), r),
{
    match voice_id {
        Some(query) => {
            let mut i: usize = 0;
            while i < voices.len()
                invariant
                    i <= voices@.len(),
                    voice_id == Some(query),
                    forall|j: int|
                        0 <= j < i ==> #[trigger] voices@[j].id@ != query@,
                decreases voices.len() - i,
            {
                if equals(&chars_of(voices[i].id.as_str()), query) {
                    return Some(i);
                }
                i = i + 1;
            }
            None
        },
        None => match voice {
            Some(query) => {
                let needle = lower_chars(&chars_of(query));
                if needle.len() == 0 {
                    return None;
                }
                let mut i: usize = 0;
                while i < voices.len()
                    invariant
                        i <= voices@.len(),
                        voice_id is None,
                        voice == Some(query),
                        needle@.len() > 0,
                        needle@ == ascii_lower_seq(query@),
                        forall|j: int|
                            0 <= j < i ==> !voice_matches(#[trigger] voices@[j], needle@),
                    decreases voices.len() - i,
                {
                    let v = &voices[i];
                    if field_contains(&v.display, &needle) || field_contains(&v.id, &needle)
                        || field_contains(&v.language, &needle) || field_contains(
                        &v.description,
                        &needle,
                    ) {
                        return Some(i);
                    }
                    i = i + 1;
                }
                None
            },
            None => None,
        },
    }
}

/// The message when a requested voice is not installed.
pub open spec fn voice_not_found() -> Seq<char> {
    "the requested voice was not found; run `say --list-voices` to list voices"@
}

/// The voice to speak with: the index `select_index` picks, `None` for the
/// default voice when no voice was asked for, and an error when one was
/// asked for but none matches.
pub fn resolve_voice(voices: &Vec<VoiceFields>, voice_id: Option<&str>, voice: Option<&str>) -> (r:
    Result<Option<usize>, String>)
    ensures
        match r {
            Ok(choice) => is_selection(voices@, str_opt_view(voice_id), str_opt_view(voice), choice)
                && (choice is None ==> voice_id is None && voice is None),
            Err(m) => (voice_id is Some || voice is Some) && is_selection(
                voices@,
                str_opt_view(voice_id),
                str_opt_view(voice),
                None,
            ) && m@ == voice_not_found(),
        },
{
    let given = voice_id.is_some() || voice.is_some();
    match select_index(voices, voice_id, voice) {
        Some(k) => Ok(Some(k)),
        None => if given {
            Err(owned("the requested voice was not found; run `say --list-voices` to list voices"))
        } else {
            Ok(None)
        },
    }
}

// ---------------------------------------------------------------------------
// Command line
// ---------------------------------------------------------------------------

/// The parsed command line.
pub struct Options {
    pub list_voices: bool,
    pub voice: Option<String>,
    pub voice_id: Option<String>,
    pub rate: Option<i32>,
    pub volume: Option<u32>,
    pub file: Option<String>,
    pub output: Option<String>,
    pub text: Vec<String>,
}

/// The options as character sequences.
pub struct OptionsView {
    pub list_voices: bool,
    pub voice: Option<Seq<char>>,
    pub voice_id: Option<Seq<char>>,
    pub rate: Option<i32>,
    pub volume: Option<u32>,
    pub file: Option<Seq<char>>,
    pub output: Option<Seq<char>>,
    pub text: Seq<Seq<char>>,
}

impl View for Options {
    type V = OptionsView;

    open spec fn view(&self) -> OptionsView {
        OptionsView {
            list_voices: self.list_voices,
            voice: opt_view(self.voice),
            voice_id: opt_view(self.voice_id),
            rate: self.rate,
            volume: self.volume,
            file: opt_view(self.file),
            output: opt_view(self.output),
            text: strings_view(self.text@),
        }
    }
}

/// No option given and no text.
pub open spec fn default_options() -> OptionsView {
    OptionsView {
        list_voices: false,
        voice: None,
        voice_id: None,
        rate: None,
        volume: None,
        file: None,
        output: None,
        text: Seq::empty(),
    }
}

/// The options that take a value.
pub enum Key {
    Voice,
    VoiceId,
    Rate,
    Volume,
    File,
    Output,
}

/// The `--name=` prefix of each value option.
pub open spec fn key_prefix(k: Key) -> Seq<char> {
    match k {
        Key::Voice => "--voice="@,
        Key::VoiceId => "--voice-id="@,
        Key::Rate => "--rate="@,
        Key::Volume => "--volume="@,
        Key::File => "--file="@,
        Key::Output => "--output="@,
    }
}

/// The name of each value option in messages.
pub open spec fn key_name(k: Key) -> Seq<char> {
    match k {
        Key::Voice => "--voice"@,
        Key::VoiceId => "--voice-id"@,
        Key::Rate => "--rate"@,
        Key::Volume => "--volume"@,
        Key::File => "--file"@,
        Key::Output => "--output"@,
    }
}

/// The value option an `--name=value` argument sets, tried in this order.
pub open spec fn prefixed_key(a: Seq<char>) -> Option<Key> {
    if has_prefix(a, "--voice="@) {
        Some(Key::Voice)
    } else if has_prefix(a, "--voice-id="@) {
        Some(Key::VoiceId)
    } else if has_prefix(a, "--rate="@) {
        Some(Key::Rate)
    } else if has_prefix(a, "--volume="@) {
        Some(Key::Volume)
    } else if has_prefix(a, "--file="@) {
        Some(Key::File)
    } else if has_prefix(a, "--output="@) {
        Some(Key::Output)
    } else {
        None
    }
}

/// The value option an argument names when its value is the next argument.
pub open spec fn separate_key(a: Seq<char>) -> Option<Key> {
    if a == "-v"@ || a == "--voice"@ {
        Some(Key::Voice)
    } else if a == "--voice-id"@ {
        Some(Key::VoiceId)
    } else if a == "-r"@ || a == "--rate"@ {
        Some(Key::Rate)
    } else if a == "--volume"@ {
        Some(Key::Volume)
    } else if a == "-f"@ || a == "--file"@ {
        Some(Key::File)
    } else if a == "-o"@ || a == "--output"@ {
        Some(Key::Output)
    } else {
        None
    }
}

/// Setting value option `k` to `v`; the rate and volume must be numbers.
pub open spec fn apply_value_spec(o: OptionsView, k: Key, v: Seq<char>) -> Result<
    OptionsView,
    Seq<char>,
> {
    match k {
        Key::Voice => Ok(OptionsView { voice: Some(v), ..o }),
        Key::VoiceId => Ok(OptionsView { voice_id: Some(v), ..o }),
        Key::Rate => match parse_i32_spec(v, "rate"@) {
            Ok(x) => Ok(OptionsView { rate: Some(x), ..o }),
            Err(m) => Err(m),
        },
        Key::Volume => match parse_u32_spec(v, "volume"@) {
            Ok(x) => Ok(OptionsView { volume: Some(x), ..o }),
            Err(m) => Err(m),
        },
        Key::File => Ok(OptionsView { file: Some(v), ..o }),
        Key::Output => Ok(OptionsView { output: Some(v), ..o }),
    }
}

/// Parsing `args[i..]`; `flags` is false once `--` has been seen.
pub open spec fn parse_spec(args: Seq<Seq<char>>, i: int, flags: bool, o: OptionsView) -> Result<
    OptionsView,
    Seq<char>,
>
    decreases args.len() - i,
{
    if i < 0 || i >= args.len() {
        Ok(o)
    } else {
        let a = args[i];
        if flags && a == "--"@ {
            parse_spec(args, i + 1, false, o)
        } else if flags && prefixed_key(a) is Some {
            let k = prefixed_key(a)->0;
            match apply_value_spec(o, k, a.subrange(key_prefix(k).len() as int, a.len() as int)) {
                Ok(o2) => parse_spec(args, i + 1, flags, o2),
                Err(m) => Err(m),
            }
        } else if flags && (a == "-l"@ || a == "--list-voices"@) {
            parse_spec(args, i + 1, flags, OptionsView { list_voices: true, ..o })
        } else if flags && separate_key(a) is Some {
            let k = separate_key(a)->0;
            if i + 1 < args.len() {
                match apply_value_spec(o, k, args[i + 1]) {
                    Ok(o2) => parse_spec(args, i + 2, flags, o2),
                    Err(m) => Err(m),
                }
            } else {
                Err("option "@ + key_name(k) + " requires an argument"@)
            }
        } else if flags && (a == "-h"@ || a == "--help"@) {
            Err("help requested"@)
        } else if flags && has_prefix(a, "-"@) && a != "-"@ {
            Err("unknown option: "@ + a)
        } else {
            parse_spec(args, i + 1, flags, OptionsView { text: o.text.push(a), ..o })
        }
    }
}

fn prefix_text(k: &Key) -> (s: &'static str)
    ensures
        s@ == key_prefix(*k),
{
    match k {
        Key::Voice => "--voice=",
        Key::VoiceId => "--voice-id=",
        Key::Rate => "--rate=",
        Key::Volume => "--volume=",
        Key::File => "--file=",
        Key::Output => "--output=",
    }
}

fn name_text(k: &Key) -> (s: &'static str)
    ensures
        s@ == key_name(*k),
{
    match k {
        Key::Voice => "--voice",
        Key::VoiceId => "--voice-id",
        Key::Rate => "--rate",
        Key::Volume => "--volume",
        Key::File => "--file",
        Key::Output => "--output",
    }
}

fn find_prefixed_key(v: &Vec<char>) -> (r: Option<Key>)
    ensures
        r == prefixed_key(v@),
{
    if starts_with(v, "--voice=") {
        Some(Key::Voice)
    } else if starts_with(v, "--voice-id=") {
        Some(Key::VoiceId)
    } else if starts_with(v, "--rate=") {
        Some(Key::Rate)
    } else if starts_with(v, "--volume=") {
        Some(Key::Volume)
    } else if starts_with(v, "--file=") {
        Some(Key::File)
    } else if starts_with(v, "--output=") {
        Some(Key::Output)
    } else {
        None
    }
}

fn find_separate_key(v: &Vec<char>) -> (r: Option<Key>)
    ensures
        r == separate_key(v@),
{
    if equals(v, "-v") || equals(v, "--voice") {
        Some(Key::Voice)
    } else if equals(v, "--voice-id") {
        Some(Key::VoiceId)
    } else if equals(v, "-r") || equals(v, "--rate") {
        Some(Key::Rate)
    } else if equals(v, "--volume") {
        Some(Key::Volume)
    } else if equals(v, "-f") || equals(v, "--file") {
        Some(Key::File)
    } else if equals(v, "-o") || equals(v, "--output") {
        Some(Key::Output)
    } else {
        None
    }
}

fn apply_value(options: &mut Options, k: Key, value: String) -> (r: Result<(), String>)
    ensures
        match apply_value_spec(old(options)@, k, value@) {
            Ok(o2) => r is Ok && final(options)@ == o2,
            Err(m) => r matches Err(e) && e@ == m,
        },
{
    match k {
        Key::Voice => {
            options.voice = Some(value);
        },
        Key::VoiceId => {
            options.voice_id = Some(value);
        },
        Key::Rate => {
            let x = parse_i32(value.as_str(), "rate")?;
            options.rate = Some(x);
        },
        Key::Volume => {
            let x = parse_u32(value.as_str(), "volume")?;
            options.volume = Some(x);
        },
        Key::File => {
            options.file = Some(value);
        },
        Key::Output => {
            options.output = Some(value);
        },
    }
    Ok(())
}

/// Parses the command-line arguments (without the program name).
pub fn parse_args(args: &Vec<String>) -> (r: Result<Options, String>)
    ensures
        match r {
            Ok(o) => parse_spec(strings_view(args@), 0, true, default_options()) == Ok::<
                OptionsView,
                Seq<char>,
            >(o@),
            Err(m) => parse_spec(strings_view(args@), 0, true, default_options()) == Err::<
                OptionsView,
                Seq<char>,
            >(m@),
        },
{
    let ghost av = strings_view(args@);
    let mut options = Options {
        list_voices: false,
        voice: None,
        voice_id: None,
        rate: None,
        volume: None,
        file: None,
        output: None,
        text: Vec::new(),
    };
    assert(options@ == default_options()) by {
        assert(strings_view(options.text@) =~= Seq::<Seq<char>>::empty());
    }
    let mut parse_flags = true;
    let mut i: usize = 0;
    while i < args.len()
        invariant
            i <= args@.len(),
            av == strings_view(args@),
            av.len() == args@.len(),
            parse_spec(av, 0, true, default_options()) == parse_spec(
                av,
                i as int,
                parse_flags,
                options@,
            ),
        decreases args.len() - i,
    {
        let arg = &args[i];
        let v = chars_of(arg.as_str());
        assert(av[i as int] == v@);
        if parse_flags && equals(&v, "--") {
            parse_flags = false;
            i = i + 1;
            continue;
        }
        if parse_flags {
            match find_prefixed_key(&v) {
                Some(k) => {
                    let p = chars_of(prefix_text(&k));
                    let rest = string_from_range(&v, p.len(), v.len());
                    match apply_value(&mut options, k, rest) {
                        Ok(()) => {
                            i = i + 1;
                            continue;
                        },
                        Err(m) => {
                            return Err(m);
                        },
                    }
                },
                None => {},
            }
            if equals(&v, "-l") || equals(&v, "--list-voices") {
                options.list_voices = true;
                i = i + 1;
                continue;
            }
            match find_separate_key(&v) {
                Some(k) => {
                    if i + 1 < args.len() {
                        assert(av[i + 1] == args@[i + 1]@);
                        match apply_value(&mut options, k, copy_string(&args[i + 1])) {
                            Ok(()) => {
                                i = i + 2;
                                continue;
                            },
                            Err(m) => {
                                return Err(m);
                            },
                        }
                    }
                    let mut m = owned("option ");
                    push_str(&mut m, name_text(&k));
                    push_str(&mut m, " requires an argument");
                    return Err(m);
                },
                None => {},
            }
            if equals(&v, "-h") || equals(&v, "--help") {
                return Err(owned("help requested"));
            }
            if starts_with(&v, "-") && !equals(&v, "-") {
                let mut m = owned("unknown option: ");
                push_str(&mut m, arg.as_str());
                return Err(m);
            }
        }
        push_string(&mut options.text, copy_string(arg));
        i = i + 1;
    }
    Ok(options)
}

/// The speaking rate to use: the clamped `--rate`, or 0 (normal).
pub fn effective_rate(options: &Options) -> (r: i32)
    ensures
        r == match options.rate {
            Some(x) => if x < -10 {
                -10i32
            } else if x > 10 {
                10i32
            } else {
                x
            },
            None => 0i32,
        },
{
    match options.rate {
        Some(x) => clamp_rate(x),
        None => 0,
    }
}

/// The volume to use: the clamped `--volume`, or 100.
pub fn effective_volume(options: &Options) -> (r: u32)
    ensures
        r == match options.volume {
            Some(x) => if x > 100 {
                100u32
            } else {
                x
            },
            None => 100u32,
        },
{
    match options.volume {
        Some(x) => clamp_volume(x),
        None => 100,
    }
}

/// After `--`, every remaining argument is text to speak, whatever it
/// looks like.
pub proof fn law_double_dash_makes_text(args: Seq<Seq<char>>, i: int, o: OptionsView)
    requires
        0 <= i <= args.len(),
    ensures
        parse_spec(args, i, false, o) == Ok::<OptionsView, Seq<char>>(
            OptionsView { text: o.text + args.subrange(i, args.len() as int), ..o },
        ),
    decreases args.len() - i,
{
    if i < args.len() {
        let o2 = OptionsView { text: o.text.push(args[i]), ..o };
        law_double_dash_makes_text(args, i + 1, o2);
        assert(o2.text + args.subrange(i + 1, args.len() as int) =~= o.text + args.subrange(
            i,
            args.len() as int,
        ));
    } else {
        assert(o.text + args.subrange(i, args.len() as int) =~= o.text);
    }
}

/// Parsing depends only on the arguments still to come: after a prefix
/// `p`, the parse of `p + rest` goes on as the parse of `rest` would.
proof fn lemma_parse_suffix(p: Seq<Seq<char>>, rest: Seq<Seq<char>>, k: int, f: bool, o: OptionsView)
    requires
        0 <= k <= rest.len(),
    ensures
        parse_spec(p + rest, p.len() + k, f, o) == parse_spec(rest, k, f, o),
    decreases rest.len() - k,
{
    let args = p + rest;
    let i = p.len() + k;
    if k < rest.len() {
        let a = rest[k];
        assert(args[i] == a);
        assert(p.len() + (k + 1) == i + 1);
        assert(p.len() + (k + 2) == i + 2);
        if k + 1 < rest.len() {
            assert(args[i + 1] == rest[k + 1]);
        }
        if f && a == "--"@ {
            lemma_parse_suffix(p, rest, k + 1, false, o);
        } else if f && prefixed_key(a) is Some {
            let key = prefixed_key(a)->0;
            if let Ok(o2) = apply_value_spec(o, key, a.subrange(key_prefix(key).len() as int, a.len() as int)) {
                lemma_parse_suffix(p, rest, k + 1, f, o2);
            }
        } else if f && (a == "-l"@ || a == "--list-voices"@) {
            lemma_parse_suffix(p, rest, k + 1, f, OptionsView { list_voices: true, ..o });
        } else if f && separate_key(a) is Some {
            let key = separate_key(a)->0;
            if k + 1 < rest.len() {
                if let Ok(o2) = apply_value_spec(o, key, rest[k + 1]) {
                    lemma_parse_suffix(p, rest, k + 2, f, o2);
                }
            }
        } else if f && (a == "-h"@ || a == "--help"@) {
        } else if f && has_prefix(a, "-"@) && a != "-"@ {
        } else {
            lemma_parse_suffix(p, rest, k + 1, f, OptionsView { text: o.text.push(a), ..o });
        }
    }
}

/// What a rate option with the value `n` leads to, before the rest of the
/// line: the rate set to the integer `n` spells, and nothing else changed,
/// or an error when `n` is not an `i32`.
pub open spec fn after_rate(n: Seq<char>, rest: Seq<Seq<char>>, o: OptionsView) -> Result<
    OptionsView,
    Seq<char>,
> {
    match i32_literal(n) {
        Some(x) => parse_spec(rest, 0, true, OptionsView { rate: Some(x), ..o }),
        None => Err("option rate expects an integer, got "@ + debug_quoted(n)),
    }
}

/// Before `--`, the three spellings of the rate option agree and touch only
/// the rate: `--rate n`, `-r n` and `--rate=n` set the rate to the integer
/// `n` spells (the volume and everything else unchanged) and leave the rest
/// of the line to parse as it would; a value that is not an `i32` is an
/// error.
pub proof fn law_rate_spellings_agree(n: Seq<char>, rest: Seq<Seq<char>>, o: OptionsView)
    ensures
        parse_spec(seq!["--rate"@, n] + rest, 0, true, o) == after_rate(n, rest, o),
        parse_spec(seq!["-r"@, n] + rest, 0, true, o) == after_rate(n, rest, o),
        parse_spec(seq!["--rate="@ + n] + rest, 0, true, o) == after_rate(n, rest, o),
        rest.len() == 0 ==> (parse_spec(seq!["--rate"@, n], 0, true, o) matches Ok(o2) ==> o2.rate
            == i32_literal(n) && o2.volume == o.volume),
{
    reveal_strlit("--");
    reveal_strlit("--rate");
    reveal_strlit("-r");
    reveal_strlit("--rate=");
    reveal_strlit("--voice=");
    reveal_strlit("--voice-id=");
    reveal_strlit("--volume=");
    reveal_strlit("--file=");
    reveal_strlit("--output=");
    reveal_strlit("-l");
    reveal_strlit("--list-voices");
    reveal_strlit("-v");
    reveal_strlit("--voice");
    reveal_strlit("--voice-id");
    reveal_strlit("option ");
    reveal_strlit(" expects an integer, got ");
    reveal_strlit("option rate expects an integer, got ");
    reveal_strlit("rate");
    assert("option "@ + "rate"@ + " expects an integer, got "@ =~= "option rate expects an integer, got "@);
    let eq = "--rate="@ + n;
    match i32_literal(n) {
        Some(x) => {
            let s = OptionsView { rate: Some(x), ..o };
            lemma_parse_suffix(seq!["--rate"@, n], rest, 0, true, s);
            lemma_parse_suffix(seq!["-r"@, n], rest, 0, true, s);
            lemma_parse_suffix(seq![eq], rest, 0, true, s);
        },
        None => {},
    }
    // `--rate` and `-r` name the rate option and no other.
    assert(separate_key("--rate"@) == Some(Key::Rate)) by {
        assert("--rate"@ != "-v"@ && "--rate"@ != "--voice"@ && "--rate"@ != "--voice-id"@);
        assert("--rate"@.len() == 6 && "-v"@.len() == 2 && "--voice"@.len() == 7);
    }
    assert(separate_key("-r"@) == Some(Key::Rate)) by {
        assert("-r"@[1] != "-v"@[1]);
        assert("-r"@.len() == 2 && "--voice"@.len() == 7 && "--voice-id"@.len() == 10);
    }
    assert(prefixed_key("--rate"@) is None) by {
        assert("--rate"@.len() == 6);
    }
    assert(prefixed_key("-r"@) is None) by {
        assert("-r"@.len() == 2);
    }
    assert("--rate"@ != "--"@ && "--rate"@ != "-l"@ && "--rate"@ != "--list-voices"@) by {
        assert("--rate"@.len() == 6 && "--"@.len() == 2 && "-l"@.len() == 2);
    }
    assert("-r"@ != "--"@ && "-r"@ != "-l"@ && "-r"@ != "--list-voices"@) by {
        assert("-r"@[1] != "--"@[1] && "-r"@[1] != "-l"@[1]);
    }
    // `--rate=n` is the prefixed form of the rate option, with value `n`.
    assert(eq.len() >= 7 && eq[2] == 'r');
    assert(!has_prefix(eq, "--voice="@)) by {
        if has_prefix(eq, "--voice="@) {
            assert(eq.subrange(0, 8)[2] == eq[2]);
        }
    }
    assert(!has_prefix(eq, "--voice-id="@)) by {
        if has_prefix(eq, "--voice-id="@) {
            assert(eq.subrange(0, 11)[2] == eq[2]);
        }
    }
    assert(has_prefix(eq, "--rate="@)) by {
        assert(eq.subrange(0, 7) =~= "--rate="@);
    }
    assert(prefixed_key(eq) == Some(Key::Rate));
    assert(eq.subrange(7, eq.len() as int) =~= n);
    assert(eq != "--"@) by {
        assert(eq.len() >= 7);
    }
    assert((seq!["--rate"@, n] + rest)[0] == "--rate"@);
    assert((seq!["--rate"@, n] + rest)[1] == n);
    assert((seq!["-r"@, n] + rest)[0] == "-r"@);
    assert((seq!["-r"@, n] + rest)[1] == n);
    assert((seq![eq] + rest)[0] == eq);
    if rest.len() == 0 {
        assert(seq!["--rate"@, n] + rest =~= seq!["--rate"@, n]);
    }
}

} // verus!
