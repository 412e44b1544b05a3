//! The `gzip` / `gunzip` engine's logic: the command line, output file
//! names, what to do with each file, the gzip header's time stamp, and the
//! calls into `flate2` that compress and decompress.
//!
//! Reading and writing files stays outside this library: it hands in the
//! bytes read and the facts asked of the file system, and hands back the
//! bytes to write and the decisions.
use std::io::Read;
use vstd::prelude::*;
use vstd::utf8::encode_utf8;
use crate::paths::{
    file_name, file_name_bounds, file_name_range, is_sep, lemma_name_start, lemma_name_start_prefix,
    lemma_name_start_skip, name_end, name_start,
};
use crate::text::{
    ascii_lower_seq, chars_of, chars_range, copy_string, equals, has_char, has_prefix, has_suffix, lower_chars,
    matches_at, owned, push_char, push_str, push_string, starts_with, string_from_range, strings_view,
};

verus! {

/// Default compression level when none is requested (matches GNU gzip).
pub const DEFAULT_LEVEL: u32 = 6;

// ---------------------------------------------------------------------------
// Compression through flate2
// ---------------------------------------------------------------------------

/// `std::io::Error`, the error `flate2`'s readers return; it is carried
/// opaque and only its message is read.
#[verifier::external_type_specification]
#[verifier::external_body]
pub struct ExIoError(std::io::Error);

/// An error from compressing or decompressing, with its message.
#[derive(Debug)]
pub struct GzipError {
    pub message: String,
}

/// The gzip stream `flate2` produces for `data` at `level`, with the given
/// header time stamp and stored file name, or `None` where the encoder
/// reports an error instead.
pub uninterp spec fn gzip_encoding(
    data: Seq<u8>,
    level: u32,
    mtime: u32,
    name: Option<Seq<char>>,
) -> Option<Seq<u8>>;

/// What `flate2`'s multi-member decoder yields for `data`: every member
/// decoded and concatenated, or `None` when the data is not a valid gzip
/// stream.
pub uninterp spec fn gzip_decoding(data: Seq<u8>) -> Option<Seq<u8>>;

/// The four little-endian bytes of a 32-bit value.
pub open spec fn le_bytes_u32(v: u32) -> Seq<u8> {
    seq![
        (v & 0xff) as u8,
        ((v >> 8u32) & 0xff) as u8,
        ((v >> 16u32) & 0xff) as u8,
        ((v >> 24u32) & 0xff) as u8,
    ]
}

/// The header `flate2` writes (RFC 1952): magic, method 8 (deflate), the
/// FNAME flag when a name is stored, the time stamp, the extra flags for
/// the level, OS 255, then the NUL-terminated name.
pub open spec fn gzip_header(level: u32, mtime: u32, name: Option<Seq<char>>) -> Seq<u8> {
    let flg: u8 = if name is Some {
        0x08
    } else {
        0
    };
    let xfl: u8 = if level >= 9 {
        2
    } else if level <= 1 {
        4
    } else {
        0
    };
    seq![0x1fu8, 0x8bu8, 8u8, flg] + le_bytes_u32(mtime) + seq![xfl, 255u8] + match name {
        Some(n) => encode_utf8(n).push(0u8),
        None => Seq::empty(),
    }
}

/// A file name that can be stored in a gzip header (it holds no NUL).
pub open spec fn storable_name(name: Option<Seq<char>>) -> bool {
    match name {
        Some(n) => !has_char(n, '\0'),
        None => true,
    }
}

/// `GzBuilder::new().mtime(mtime).filename(name).read(data, Compression::new(level))`
/// read to the end, for a level of at most 9 (the backend asserts that the
/// level is at most 10). Encoding is a function of the arguments: success and
/// the bytes produced are those named by `gzip_encoding`. The output starts
/// with the header that `GzBuilder` builds; the deflate data and trailer
/// that follow are not stated, nor on which inputs the encoder reports an
/// error.
#[verifier::external_body]
fn gzip_encode(data: &[u8], level: u32, mtime: u32, name: Option<&str>) -> (r: Result<
    Vec<u8>,
    std::io::Error,
>)
    requires
        level <= 9,
        storable_name(match name {
            Some(n) => Some(n@),
            None => None,
        }),
    ensures
        r matches Ok(out) ==> gzip_encoding(
            data@,
            level,
            mtime,
            match name {
                Some(n) => Some(n@),
                None => None,
            },
        ) == Some(out@),
        r is Err ==> gzip_encoding(
            data@,
            level,
            mtime,
            match name {
                Some(n) => Some(n@),
                None => None,
            },
        ) is None,
        r matches Ok(out) ==> has_prefix_bytes(
            out@,
            gzip_header(
                level,
                mtime,
                match name {
                    Some(n) => Some(n@),
                    None => None,
                },
            ),
        ),
{
    let builder = flate2::GzBuilder::new().mtime(mtime);
    let builder = match name {
        Some(n) => builder.filename(n),
        None => builder,
    };
    let mut out = Vec::new();
    builder.read(data, flate2::Compression::new(level)).read_to_end(&mut out).map(|_| out)
}

/// `bytes` begins with `prefix`.
pub open spec fn has_prefix_bytes(bytes: Seq<u8>, prefix: Seq<u8>) -> bool {
    prefix.len() <= bytes.len() && bytes.subrange(0, prefix.len() as int) == prefix
}

/// The outcome is success with exactly the bytes `d`.
pub open spec fn yields<E>(r: Result<Vec<u8>, E>, d: Seq<u8>) -> bool {
    match r {
        Ok(out) => out@ == d,
        Err(_) => false,
    }
}

/// `MultiGzDecoder::new(data)` read to the end. A stream that `flate2`
/// itself encoded decodes to the original data, and so does one made of
/// two such streams one after the other (every member is decoded).
#[verifier::external_body]
fn gzip_decode(data: &[u8]) -> (r: Result<Vec<u8>, std::io::Error>)
    ensures
        r matches Ok(out) ==> gzip_decoding(data@) == Some(out@),
        r is Err ==> gzip_decoding(data@) is None,
        forall|d: Seq<u8>, l: u32, m: u32, n: Option<Seq<char>>|
            #![trigger gzip_encoding(d, l, m, n)]
            l <= 9 && storable_name(n) && gzip_encoding(d, l, m, n) == Some(data@) ==> yields(r, d),
        forall|
            d1: Seq<u8>,
            l1: u32,
            m1: u32,
            n1: Option<Seq<char>>,
            d2: Seq<u8>,
            l2: u32,
            m2: u32,
            n2: Option<Seq<char>>,
        |
            #![trigger gzip_encoding(d1, l1, m1, n1), gzip_encoding(d2, l2, m2, n2)]
            l1 <= 9 && l2 <= 9 && storable_name(n1) && storable_name(n2) && gzip_encoding(
                d1,
                l1,
                m1,
                n1,
            ) is Some && gzip_encoding(d2, l2, m2, n2) is Some && data@ == gzip_encoding(
                d1,
                l1,
                m1,
                n1,
            )->0 + gzip_encoding(d2, l2, m2, n2)->0 ==> yields(r, d1 + d2),
{
    let mut out = Vec::new();
    flate2::read::MultiGzDecoder::new(data).read_to_end(&mut out).map(|_| out)
}

/// The text of an I/O error (its `Display` form).
#[verifier::external_body]
fn io_error_text(e: &std::io::Error) -> String {
    e.to_string()
}

/// Compresses `data` into a gzip stream whose header carries `mtime` and,
/// when given, the original file name. It succeeds exactly where the
/// encoder produces a stream, and returns that stream; otherwise the
/// encoder's error message.
pub fn compress_bytes(data: &[u8], level: u32, mtime: u32, name: Option<&str>) -> (r: Result<
    Vec<u8>,
    GzipError,
>)
    requires
        level <= 9,
        storable_name(
            match name {
                Some(n) => Some(n@),
                None => None,
            },
        ),
    ensures
        r is Ok <==> gzip_encoding(
            data@,
            level,
            mtime,
            match name {
                Some(n) => Some(n@),
                None => None,
            },
        ) is Some,
        r matches Ok(out) ==> gzip_encoding(
            data@,
            level,
            mtime,
            match name {
                Some(n) => Some(n@),
                None => None,
            },
        ) == Some(out@) && has_prefix_bytes(
            out@,
            gzip_header(
                level,
                mtime,
                match name {
                    Some(n) => Some(n@),
                    None => None,
                },
            ),
        ),
{
    match gzip_encode(data, level, mtime, name) {
        Ok(out) => Ok(out),
        Err(e) => Err(GzipError { message: io_error_text(&e) }),
    }
}

/// Decompresses a gzip stream of one or more members. Whatever this
/// library compressed comes back unchanged, and two compressed streams
/// written one after the other decompress to the two inputs in order.
pub fn decompress_bytes(data: &[u8]) -> (r: Result<Vec<u8>, GzipError>)
    ensures
        r matches Ok(out) ==> gzip_decoding(data@) == Some(out@),
        r is Err ==> gzip_decoding(data@) is None,
        forall|d: Seq<u8>, l: u32, m: u32, n: Option<Seq<char>>|
            #![trigger gzip_encoding(d, l, m, n)]
            l <= 9 && storable_name(n) && gzip_encoding(d, l, m, n) == Some(data@) ==> yields(r, d),
        forall|
            d1: Seq<u8>,
            l1: u32,
            m1: u32,
            n1: Option<Seq<char>>,
            d2: Seq<u8>,
            l2: u32,
            m2: u32,
            n2: Option<Seq<char>>,
        |
            #![trigger gzip_encoding(d1, l1, m1, n1), gzip_encoding(d2, l2, m2, n2)]
            l1 <= 9 && l2 <= 9 && storable_name(n1) && storable_name(n2) && gzip_encoding(
                d1,
                l1,
                m1,
                n1,
            ) is Some && gzip_encoding(d2, l2, m2, n2) is Some && data@ == gzip_encoding(
                d1,
                l1,
                m1,
                n1,
            )->0 + gzip_encoding(d2, l2, m2, n2)->0 ==> yields(r, d1 + d2),
{
    match gzip_decode(data) {
        Ok(out) => Ok(out),
        Err(e) => Err(GzipError { message: io_error_text(&e) }),
    }
}

/// The time stamp a header written for `mtime` gives back: none for 0.
pub open spec fn stored_mtime(mtime: u32) -> Option<u32> {
    if mtime != 0 {
        Some(mtime)
    } else {
        None
    }
}

/// An archive decompressed: the data, and the time stamp its header holds
/// for the output file.
pub struct Restored {
    pub data: Vec<u8>,
    pub mtime: Option<u32>,
}

/// What `restore_archive` gives for `archive`: the decoded data and the
/// header's time stamp when it decodes, an error when it does not; and for
/// an archive that `compress_bytes` wrote, the data and time stamp it was
/// written from.
pub open spec fn restore_contract(archive: Seq<u8>, r: Result<Restored, GzipError>) -> bool {
    &&& r matches Ok(x) ==> gzip_decoding(archive) == Some(x.data@) && x.mtime == header_mtime(
        archive,
    )
    &&& r is Err ==> gzip_decoding(archive) is None
    &&& forall|d: Seq<u8>, l: u32, m: u32, n: Option<Seq<char>>|
        #![trigger gzip_encoding(d, l, m, n)]
        l <= 9 && storable_name(n) && gzip_encoding(d, l, m, n) == Some(archive)
            && has_prefix_bytes(archive, gzip_header(l, m, n)) ==> (r matches Ok(x) && x.data@ == d
            && x.mtime == stored_mtime(m))
}

/// Decompresses an archive read whole and reads the time stamp to give the
/// output file.
pub fn restore_archive(archive: &[u8]) -> (r: Result<Restored, GzipError>)
    ensures
        restore_contract(archive@, r),
{
    let data = decompress_bytes(archive)?;
    let mtime = read_gzip_mtime(archive);
    proof {
        assert forall|d: Seq<u8>, l: u32, m: u32, n: Option<Seq<char>>|
            #![trigger gzip_encoding(d, l, m, n)]
            l <= 9 && storable_name(n) && gzip_encoding(d, l, m, n) == Some(archive@)
                && has_prefix_bytes(archive@, gzip_header(l, m, n)) implies data@ == d && mtime
            == stored_mtime(m) by {
            law_header_mtime_round_trip(archive@, l, m, n);
        }
    }
    Ok(Restored { data, mtime })
}

// ---------------------------------------------------------------------------
// The header's time stamp
// ---------------------------------------------------------------------------

/// The time stamp in a gzip header: `MTIME` sits at bytes 4..8
/// (little-endian) whatever the optional fields. `None` for data that is
/// not gzip (or shorter than that) and for `MTIME == 0`, "no time stamp".
pub open spec fn header_mtime(bytes: Seq<u8>) -> Option<u32> {
    if bytes.len() < 8 || bytes[0] != 0x1f || bytes[1] != 0x8b {
        None
    } else {
        let m = (bytes[4] as u32) | ((bytes[5] as u32) << 8u32) | ((bytes[6] as u32) << 16u32) | ((
        bytes[7] as u32) << 24u32);
        if m != 0 {
            Some(m)
        } else {
            None
        }
    }
}

/// Read the modification time stored at the start of a gzip stream.
pub fn read_gzip_mtime(header: &[u8]) -> (r: Option<u32>)
    ensures
        r == header_mtime(header@),
{
    if header.len() < 8 || header[0] != 0x1f || header[1] != 0x8b {
        return None;
    }
    let m = (header[4] as u32) | ((header[5] as u32) << 8u32) | ((header[6] as u32) << 16u32) | ((
    header[7] as u32) << 24u32);
    if m != 0 {
        Some(m)
    } else {
        None
    }
}

/// Decompression restores the time stamp that compression stored: a
/// stream that starts with the header written for `mtime` reads back
/// `mtime`, or nothing when `mtime` is 0.
pub proof fn law_header_mtime_round_trip(
    stream: Seq<u8>,
    level: u32,
    mtime: u32,
    name: Option<Seq<char>>,
)
    requires
        has_prefix_bytes(stream, gzip_header(level, mtime, name)),
    ensures
        header_mtime(stream) == if mtime != 0 {
            Some(mtime)
        } else {
            None::<u32>
        },
{
    let h = gzip_header(level, mtime, name);
    assert(stream.subrange(0, h.len() as int) == h);
    assert forall|i: int| 0 <= i < 10 implies stream[i] == h[i] by {
        assert(stream.subrange(0, h.len() as int)[i] == stream[i]);
    }
    let b4 = stream[4];
    let b5 = stream[5];
    let b6 = stream[6];
    let b7 = stream[7];
    assert(b4 == (mtime & 0xff) as u8);
    assert(b5 == ((mtime >> 8u32) & 0xff) as u8);
    assert(b6 == ((mtime >> 16u32) & 0xff) as u8);
    assert(b7 == ((mtime >> 24u32) & 0xff) as u8);
    assert((b4 as u32) | ((b5 as u32) << 8u32) | ((b6 as u32) << 16u32) | ((b7 as u32) << 24u32)
        == mtime) by (bit_vector)
        requires
            b4 == (mtime & 0xff) as u8,
            b5 == ((mtime >> 8u32) & 0xff) as u8,
            b6 == ((mtime >> 16u32) & 0xff) as u8,
            b7 == ((mtime >> 24u32) & 0xff) as u8,
    ;
}

// ---------------------------------------------------------------------------
// File names
// ---------------------------------------------------------------------------

/// The file name of `path` ends in `.gz`, ignoring ASCII case.
pub open spec fn has_gz_suffix_spec(path: Seq<char>) -> bool {
    match file_name(path) {
        Some(name) => has_suffix(ascii_lower_seq(name), seq!['.', 'g', 'z']),
        None => false,
    }
}

/// `v[start..end]`, ASCII-lowercased, ends with `suffix`.
fn lower_ends_with(v: &Vec<char>, start: usize, end: usize, suffix: &str) -> (b: bool)
    requires
        start <= end <= v@.len(),
    ensures
        b == has_suffix(ascii_lower_seq(v@.subrange(start as int, end as int)), suffix@),
{
    let name = lower_chars(&chars_range(v, start, end));
    let p = chars_of(suffix);
    if p.len() > name.len() {
        return false;
    }
    let at = name.len() - p.len();
    let r = matches_at(&name, at, &p);
    assert(name@.subrange(at as int, name@.len() as int) =~= name@.subrange(at as int, at + p@.len()));
    r
}

/// True when the file name already ends in `.gz` (in any case).
pub fn has_gz_suffix(path: &str) -> (b: bool)
    ensures
        b == has_gz_suffix_spec(path@),
{
    let v = chars_of(path);
    match file_name_range(&v) {
        None => false,
        Some((start, end)) => {
            proof {
                reveal_strlit(".gz");
                assert(".gz"@ =~= seq!['.', 'g', 'z']);
            }
            lower_ends_with(&v, start, end, ".gz")
        },
    }
}

/// The archive written for `path`: the path with `.gz` appended.
pub fn compressed_name(path: &str) -> (out: String)
    ensures
        out@ == path@ + seq!['.', 'g', 'z'],
{
    let mut out = owned(path);
    push_str(&mut out, ".gz");
    proof {
        reveal_strlit(".gz");
    }
    assert(out@ =~= path@ + seq!['.', 'g', 'z']);
    out
}

/// Fallback output name used when decompressing a file with an unknown
/// suffix under `--force`: the path with `.out` appended.
pub fn forced_name(path: &str) -> (out: String)
    ensures
        out@ == path@ + seq!['.', 'o', 'u', 't'],
{
    let mut out = owned(path);
    push_str(&mut out, ".out");
    proof {
        reveal_strlit(".out");
    }
    assert(out@ =~= path@ + seq!['.', 'o', 'u', 't']);
    out
}

/// The output name for decompressing `path`: `.tgz` and `.taz` become
/// `.tar`; `.gz` and `.z` are dropped (suffixes matched ignoring case, the
/// stem keeping its case). `None` when no suffix matches or nothing would
/// be left of the name.
pub open spec fn decompressed_name_spec(path: Seq<char>) -> Option<Seq<char>> {
    match file_name_bounds(path) {
        None => None,
        Some((start, end)) => {
            let name = path.subrange(start, end);
            let lower = ascii_lower_seq(name);
            let (drop, tar) = if has_suffix(lower, seq!['.', 't', 'g', 'z']) || has_suffix(
                lower,
                seq!['.', 't', 'a', 'z'],
            ) {
                (4int, true)
            } else if has_suffix(lower, seq!['.', 'g', 'z']) {
                (3int, false)
            } else if has_suffix(lower, seq!['.', 'z']) {
                (2int, false)
            } else {
                (0int, false)
            };
            if drop == 0 || name.len() == drop {
                None
            } else {
                let stem = name.subrange(0, name.len() - drop);
                Some(
                    path.subrange(0, start) + stem + if tar {
                        seq!['.', 't', 'a', 'r']
                    } else {
                        Seq::empty()
                    },
                )
            }
        },
    }
}

/// Strips a recognized gzip suffix. Returns `None` when no suffix matches,
/// leaving the caller to decide what to do (skip, or fall back to `-f`).
pub fn decompressed_name(path: &str) -> (r: Option<String>)
    ensures
        match r {
            Some(s) => decompressed_name_spec(path@) == Some(s@),
            None => decompressed_name_spec(path@) is None,
        },
{
    let v = chars_of(path);
    let (start, end) = match file_name_range(&v) {
        None => {
            return None;
        },
        Some(b) => b,
    };
    proof {
        reveal_strlit(".tgz");
        reveal_strlit(".taz");
        reveal_strlit(".gz");
        reveal_strlit(".z");
        assert(".tgz"@ =~= seq!['.', 't', 'g', 'z']);
        assert(".taz"@ =~= seq!['.', 't', 'a', 'z']);
        assert(".gz"@ =~= seq!['.', 'g', 'z']);
        assert(".z"@ =~= seq!['.', 'z']);
    }
    let (drop, tar): (usize, bool) = if lower_ends_with(&v, start, end, ".tgz") || lower_ends_with(
        &v,
        start,
        end,
        ".taz",
    ) {
        (4, true)
    } else if lower_ends_with(&v, start, end, ".gz") {
        (3, false)
    } else if lower_ends_with(&v, start, end, ".z") {
        (2, false)
    } else {
        return None;
    };
    if end - start == drop {
        return None;
    }
    let mut out = string_from_range(&v, 0, end - drop);
    if tar {
        push_str(&mut out, ".tar");
        proof {
            reveal_strlit(".tar");
        }
    }
    let ghost name = v@.subrange(start as int, end as int);
    assert(v@.subrange(0, end - drop) =~= v@.subrange(0, start as int) + name.subrange(
        0,
        name.len() - drop,
    ));
    assert(out@ =~= decompressed_name_spec(path@)->0);
    Some(out)
}

// ---------------------------------------------------------------------------
// Command line
// ---------------------------------------------------------------------------

/// The parsed command line.
pub struct Options {
    pub stdout: bool,
    pub decompress: bool,
    pub force: bool,
    pub keep: bool,
    pub test: bool,
    pub level: Option<u32>,
    pub help: bool,
    pub version: bool,
    pub files: Vec<String>,
}

/// The options as character sequences.
pub struct OptionsView {
    pub stdout: bool,
    pub decompress: bool,
    pub force: bool,
    pub keep: bool,
    pub test: bool,
    pub level: Option<u32>,
    pub help: bool,
    pub version: bool,
    pub files: Seq<Seq<char>>,
}

impl View for Options {
    type V = OptionsView;

    open spec fn view(&self) -> OptionsView {
        OptionsView {
            stdout: self.stdout,
            decompress: self.decompress,
            force: self.force,
            keep: self.keep,
            test: self.test,
            level: self.level,
            help: self.help,
            version: self.version,
            files: strings_view(self.files@),
        }
    }
}

/// No option given and no file named.
pub open spec fn default_options() -> OptionsView {
    OptionsView {
        stdout: false,
        decompress: false,
        force: false,
        keep: false,
        test: false,
        level: None,
        help: false,
        version: false,
        files: Seq::empty(),
    }
}

/// The effect of the short flags `text[j..]` of a cluster such as `-cf9`:
/// each letter sets its flag, a digit sets the level, anything else is an
/// error.
pub open spec fn cluster_spec(text: Seq<char>, j: int, o: OptionsView) -> Result<
    OptionsView,
    Seq<char>,
>
    decreases text.len() - j,
{
    if j < 0 || j >= text.len() {
        Ok(o)
    } else {
        let c = text[j];
        if c == 'c' {
            cluster_spec(text, j + 1, OptionsView { stdout: true, ..o })
        } else if c == 'd' {
            cluster_spec(text, j + 1, OptionsView { decompress: true, ..o })
        } else if c == 'f' {
            cluster_spec(text, j + 1, OptionsView { force: true, ..o })
        } else if c == 'k' {
            cluster_spec(text, j + 1, OptionsView { keep: true, ..o })
        } else if c == 't' {
            cluster_spec(text, j + 1, OptionsView { test: true, ..o })
        } else if c == 'h' {
            cluster_spec(text, j + 1, OptionsView { help: true, ..o })
        } else if c == 'V' {
            cluster_spec(text, j + 1, OptionsView { version: true, ..o })
        } else if '0' <= c && c <= '9' {
            cluster_spec(text, j + 1, OptionsView { level: Some(((c as u32) - 48) as u32), ..o })
        } else {
            Err("unknown option: -"@.push(c))
        }
    }
}

/// The effect of a long option.
pub open spec fn long_spec(a: Seq<char>, o: OptionsView) -> Result<OptionsView, Seq<char>> {
    if a == "--stdout"@ || a == "--to-stdout"@ {
        Ok(OptionsView { stdout: true, ..o })
    } else if a == "--decompress"@ || a == "--uncompress"@ {
        Ok(OptionsView { decompress: true, ..o })
    } else if a == "--force"@ {
        Ok(OptionsView { force: true, ..o })
    } else if a == "--keep"@ {
        Ok(OptionsView { keep: true, ..o })
    } else if a == "--test"@ {
        Ok(OptionsView { test: true, ..o })
    } else if a == "--fast"@ {
        Ok(OptionsView { level: Some(1), ..o })
    } else if a == "--best"@ {
        Ok(OptionsView { level: Some(9), ..o })
    } else if a == "--help"@ {
        Ok(OptionsView { help: true, ..o })
    } else if a == "--version"@ {
        Ok(OptionsView { version: true, ..o })
    } else {
        Err("unknown option: "@ + a)
    }
}

/// Parsing `args[i..]`; after `--` every argument is a file.
pub open spec fn parse_spec(args: Seq<Seq<char>>, i: int, only_files: bool, o: OptionsView) -> Result<
    OptionsView,
    Seq<char>,
>
    decreases args.len() - i,
{
    if i < 0 || i >= args.len() {
        Ok(o)
    } else {
        let a = args[i];
        let push = OptionsView { files: o.files.push(a), ..o };
        if only_files {
            parse_spec(args, i + 1, only_files, push)
        } else if a == "--"@ {
            parse_spec(args, i + 1, true, o)
        } else if a == "-"@ {
            parse_spec(args, i + 1, only_files, push)
        } else if has_prefix(a, "--"@) {
            match long_spec(a, o) {
                Ok(o2) => parse_spec(args, i + 1, only_files, o2),
                Err(m) => Err(m),
            }
        } else if has_prefix(a, "-"@) {
            match cluster_spec(a, 1, o) {
                Ok(o2) => parse_spec(args, i + 1, only_files, o2),
                Err(m) => Err(m),
            }
        } else {
            parse_spec(args, i + 1, only_files, push)
        }
    }
}

fn apply_long(v: &Vec<char>, text: &str, options: &mut Options) -> (r: Result<(), String>)
    requires
        v@ == text@,
    ensures
        match long_spec(v@, old(options)@) {
            Ok(o2) => r is Ok && final(options)@ == o2,
            Err(m) => r matches Err(e) && e@ == m,
        },
{
    if equals(v, "--stdout") || equals(v, "--to-stdout") {
        options.stdout = true;
    } else if equals(v, "--decompress") || equals(v, "--uncompress") {
        options.decompress = true;
    } else if equals(v, "--force") {
        options.force = true;
    } else if equals(v, "--keep") {
        options.keep = true;
    } else if equals(v, "--test") {
        options.test = true;
    } else if equals(v, "--fast") {
        options.level = Some(1);
    } else if equals(v, "--best") {
        options.level = Some(9);
    } else if equals(v, "--help") {
        options.help = true;
    } else if equals(v, "--version") {
        options.version = true;
    } else {
        let mut m = owned("unknown option: ");
        push_str(&mut m, text);
        return Err(m);
    }
    Ok(())
}

fn apply_cluster(v: &Vec<char>, options: &mut Options) -> (r: Result<(), String>)
    ensures
        match cluster_spec(v@, 1, old(options)@) {
            Ok(o2) => r is Ok && final(options)@ == o2,
            Err(m) => r matches Err(e) && e@ == m,
        },
{
    let mut j: usize = 1;
    while j < v.len()
        invariant
            1 <= j,
            cluster_spec(v@, 1, old(options)@) == cluster_spec(v@, j as int, options@),
        decreases v.len() - j,
    {
        let c = v[j];
        if c == 'c' {
            options.stdout = true;
        } else if c == 'd' {
            options.decompress = true;
        } else if c == 'f' {
            options.force = true;
        } else if c == 'k' {
            options.keep = true;
        } else if c == 't' {
            options.test = true;
        } else if c == 'h' {
            options.help = true;
        } else if c == 'V' {
            options.version = true;
        } else if '0' <= c && c <= '9' {
            options.level = Some((c as u32) - 48);
        } else {
            let mut m = owned("unknown option: -");
            push_char(&mut m, c);
            return Err(m);
        }
        j = j + 1;
    }
    Ok(())
}

/// Parses the command-line arguments (without the program name).
pub fn parse_args(args: &Vec<String>) -> (r: Result<Options, String>)
    ensures
        match r {
            Ok(o) => parse_spec(strings_view(args@), 0, false, default_options()) == Ok::<
                OptionsView,
                Seq<char>,
            >(o@),
            Err(m) => parse_spec(strings_view(args@), 0, false, default_options()) == Err::<
                OptionsView,
                Seq<char>,
            >(m@),
        },
        r matches Ok(o) ==> valid_level(o.level),
{
    let ghost av = strings_view(args@);
    proof {
        law_parsed_level_is_valid(av);
    }
    let mut options = Options {
        stdout: false,
        decompress: false,
        force: false,
        keep: false,
        test: false,
        level: None,
        help: false,
        version: false,
        files: Vec::new(),
    };
    assert(options@ == default_options()) by {
        assert(strings_view(options.files@) =~= Seq::<Seq<char>>::empty());
    }
    let mut only_files = false;
    let mut i: usize = 0;
    while i < args.len()
        invariant
            i <= args@.len(),
            av == strings_view(args@),
            av.len() == args@.len(),
            parse_spec(av, 0, false, default_options()) == parse_spec(
                av,
                i as int,
                only_files,
                options@,
            ),
        decreases args.len() - i,
    {
        let arg = &args[i];
        let v = chars_of(arg.as_str());
        assert(av[i as int] == v@);
        if only_files {
            push_string(&mut options.files, copy_string(arg));
        } else if equals(&v, "--") {
            only_files = true;
        } else if equals(&v, "-") {
            push_string(&mut options.files, copy_string(arg));
        } else if starts_with(&v, "--") {
            apply_long(&v, arg.as_str(), &mut options)?;
        } else if starts_with(&v, "-") {
            apply_cluster(&v, &mut options)?;
        } else {
            push_string(&mut options.files, copy_string(arg));
        }
        i = i + 1;
    }
    Ok(options)
}

/// The exit status of a run: 2 when the command line did not parse, 1 when
/// any input (a file, or the standard input) failed, 0 otherwise.
/// `succeeded` holds each input's outcome in turn.
pub fn exit_status(parsed: bool, succeeded: &Vec<bool>) -> (status: i32)
    ensures
        status == if !parsed {
            2i32
        } else if exists|i: int| 0 <= i < succeeded@.len() && !#[trigger] succeeded@[i] {
            1i32
        } else {
            0i32
        },
{
    if !parsed {
        return 2;
    }
    let mut i: usize = 0;
    while i < succeeded.len()
        invariant
            parsed,
            i <= succeeded@.len(),
            forall|j: int| 0 <= j < i ==> #[trigger] succeeded@[j],
        decreases succeeded.len() - i,
    {
        if !succeeded[i] {
            return 1;
        }
        i = i + 1;
    }
    0
}

/// The compression level to use: the one asked for, or the default 6. For
/// options that `parse_args` returned it is at most 9.
pub fn effective_level(options: &Options) -> (level: u32)
    ensures
        valid_level(options.level) ==> level <= 9,
        level == match options.level {
            Some(l) => l,
            None => DEFAULT_LEVEL,
        },
{
    match options.level {
        Some(l) => l,
        None => DEFAULT_LEVEL,
    }
}

/// Whether to decompress: asked for with `-d`, the default for `gunzip`,
/// or implied by `-t` (which decompresses to nowhere).
pub fn decompress_mode(options: &Options, default_decompress: bool) -> (b: bool)
    ensures
        b == (options.decompress || default_decompress || options.test),
{
    options.decompress || default_decompress || options.test
}

// ---------------------------------------------------------------------------
// What to do with each file
// ---------------------------------------------------------------------------

/// The file name stored in the header of an archive made from `path`.
pub fn header_name(path: &str) -> (r: Option<String>)
    ensures
        match r {
            Some(n) => file_name(path@) == Some(n@),
            None => file_name(path@) is None,
        },
{
    let v = chars_of(path);
    match file_name_range(&v) {
        Some((start, end)) => Some(string_from_range(&v, start, end)),
        None => None,
    }
}

/// What compressing one named file comes to.
pub enum CompressPlan {
    /// Report this error for the file.
    Fail(String),
    /// Compress to standard output; the file stays.
    ToStdout,
    /// Leave the file alone, printing this warning.
    Unchanged(String),
    /// Write the archive `output`, then remove the source if asked.
    Write { output: String, remove_source: bool },
}

/// The view of a compression plan.
pub enum CompressPlanView {
    Fail(Seq<char>),
    ToStdout,
    Unchanged(Seq<char>),
    Write(Seq<char>, bool),
}

impl View for CompressPlan {
    type V = CompressPlanView;

    open spec fn view(&self) -> CompressPlanView {
        match self {
            CompressPlan::Fail(m) => CompressPlanView::Fail(m@),
            CompressPlan::ToStdout => CompressPlanView::ToStdout,
            CompressPlan::Unchanged(m) => CompressPlanView::Unchanged(m@),
            CompressPlan::Write { output, remove_source } => CompressPlanView::Write(
                output@,
                *remove_source,
            ),
        }
    }
}

/// The decision for compressing `path`: directories and missing files are
/// errors; `-c` writes to standard output; a `.gz` file is left alone
/// unless forced; an existing archive is not overwritten unless forced;
/// the source goes away unless `-k`.
pub open spec fn compress_plan_spec(
    path: Seq<char>,
    is_dir: bool,
    is_file: bool,
    output_exists: bool,
    o: OptionsView,
) -> CompressPlanView {
    let output = path + seq!['.', 'g', 'z'];
    if is_dir {
        CompressPlanView::Fail(path + ": Is a directory"@)
    } else if !is_file {
        CompressPlanView::Fail(path + ": No such file or directory"@)
    } else if o.stdout {
        CompressPlanView::ToStdout
    } else if !o.force && has_gz_suffix_spec(path) {
        CompressPlanView::Unchanged("gzip: "@ + path + " already has .gz suffix -- unchanged"@)
    } else if output_exists && !o.force {
        CompressPlanView::Fail(output + " already exists -- not overwritten"@)
    } else {
        CompressPlanView::Write(output, !o.keep)
    }
}

/// Decides what compressing `path` does, given whether it is a directory,
/// whether it is a file, and whether its archive name already exists.
pub fn plan_compress(
    path: &str,
    is_dir: bool,
    is_file: bool,
    output_exists: bool,
    options: &Options,
) -> (plan: CompressPlan)
    ensures
        plan@ == compress_plan_spec(path@, is_dir, is_file, output_exists, options@),
        plan@ matches CompressPlanView::Write(_, remove) ==> remove == !options.keep,
        !is_dir && is_file && options.stdout ==> plan@ == CompressPlanView::ToStdout,
{
    if is_dir {
        let mut m = owned(path);
        push_str(&mut m, ": Is a directory");
        return CompressPlan::Fail(m);
    }
    if !is_file {
        let mut m = owned(path);
        push_str(&mut m, ": No such file or directory");
        return CompressPlan::Fail(m);
    }
    if options.stdout {
        return CompressPlan::ToStdout;
    }
    if !options.force && has_gz_suffix(path) {
        let mut m = owned("gzip: ");
        push_str(&mut m, path);
        push_str(&mut m, " already has .gz suffix -- unchanged");
        return CompressPlan::Unchanged(m);
    }
    let output = compressed_name(path);
    if output_exists && !options.force {
        let mut m = copy_string(&output);
        push_str(&mut m, " already exists -- not overwritten");
        return CompressPlan::Fail(m);
    }
    CompressPlan::Write { output, remove_source: !options.keep }
}

/// Where decompressing `path` writes: the name without its gzip suffix, or
/// under `--force` the path with `.out` appended.
pub open spec fn decompression_output_spec(path: Seq<char>, force: bool) -> Option<Seq<char>> {
    match decompressed_name_spec(path) {
        Some(n) => Some(n),
        None => if force {
            Some(path + seq!['.', 'o', 'u', 't'])
        } else {
            None
        },
    }
}

/// The output file for decompressing `path`, if there is one.
pub fn decompression_output(path: &str, force: bool) -> (r: Option<String>)
    ensures
        match r {
            Some(n) => decompression_output_spec(path@, force) == Some(n@),
            None => decompression_output_spec(path@, force) is None,
        },
{
    match decompressed_name(path) {
        Some(n) => Some(n),
        None => if force {
            Some(forced_name(path))
        } else {
            None
        },
    }
}

/// What decompressing one named file comes to.
pub enum DecompressPlan {
    /// Report this error for the file.
    Fail(String),
    /// Check the archive's integrity only.
    Test,
    /// Decompress to standard output; the archive stays.
    ToStdout,
    /// Skip the file, printing this warning.
    Unknown(String),
    /// Write the data to `output`, then remove the archive if asked.
    Write { output: String, remove_source: bool },
}

/// The view of a decompression plan.
pub enum DecompressPlanView {
    Fail(Seq<char>),
    Test,
    ToStdout,
    Unknown(Seq<char>),
    Write(Seq<char>, bool),
}

impl View for DecompressPlan {
    type V = DecompressPlanView;

    open spec fn view(&self) -> DecompressPlanView {
        match self {
            DecompressPlan::Fail(m) => DecompressPlanView::Fail(m@),
            DecompressPlan::Test => DecompressPlanView::Test,
            DecompressPlan::ToStdout => DecompressPlanView::ToStdout,
            DecompressPlan::Unknown(m) => DecompressPlanView::Unknown(m@),
            DecompressPlan::Write { output, remove_source } => DecompressPlanView::Write(
                output@,
                *remove_source,
            ),
        }
    }
}

/// The decision for decompressing `path`: directories and missing files
/// are errors; `-t` only tests; `-c` writes to standard output; an unknown
/// suffix is skipped unless forced; an existing output is not overwritten
/// unless forced; the archive goes away unless `-k`.
pub open spec fn decompress_plan_spec(
    path: Seq<char>,
    is_dir: bool,
    is_file: bool,
    output_exists: bool,
    o: OptionsView,
) -> DecompressPlanView {
    if is_dir {
        DecompressPlanView::Fail(path + ": Is a directory"@)
    } else if !is_file {
        DecompressPlanView::Fail(path + ": No such file or directory"@)
    } else if o.test {
        DecompressPlanView::Test
    } else if o.stdout {
        DecompressPlanView::ToStdout
    } else {
        match decompression_output_spec(path, o.force) {
            None => DecompressPlanView::Unknown("gzip: "@ + path + ": unknown suffix -- ignored"@),
            Some(output) => if output_exists && !o.force {
                DecompressPlanView::Fail(output + " already exists -- not overwritten"@)
            } else {
                DecompressPlanView::Write(output, !o.keep)
            },
        }
    }
}

/// Decides what decompressing `path` does, given whether it is a
/// directory, whether it is a file, and whether its output name (see
/// `decompression_output`) already exists.
pub fn plan_decompress(
    path: &str,
    is_dir: bool,
    is_file: bool,
    output_exists: bool,
    options: &Options,
) -> (plan: DecompressPlan)
    ensures
        plan@ == decompress_plan_spec(path@, is_dir, is_file, output_exists, options@),
        plan@ matches DecompressPlanView::Write(_, remove) ==> remove == !options.keep,
        !is_dir && is_file && options.stdout && !options.test ==> plan@ == DecompressPlanView::ToStdout,
{
    if is_dir {
        let mut m = owned(path);
        push_str(&mut m, ": Is a directory");
        return DecompressPlan::Fail(m);
    }
    if !is_file {
        let mut m = owned(path);
        push_str(&mut m, ": No such file or directory");
        return DecompressPlan::Fail(m);
    }
    if options.test {
        return DecompressPlan::Test;
    }
    if options.stdout {
        return DecompressPlan::ToStdout;
    }
    match decompression_output(path, options.force) {
        None => {
            let mut m = owned("gzip: ");
            push_str(&mut m, path);
            push_str(&mut m, ": unknown suffix -- ignored");
            DecompressPlan::Unknown(m)
        },
        Some(output) => {
            if output_exists && !options.force {
                let mut m = copy_string(&output);
                push_str(&mut m, " already exists -- not overwritten");
                DecompressPlan::Fail(m)
            } else {
                DecompressPlan::Write { output, remove_source: !options.keep }
            }
        },
    }
}

// ---------------------------------------------------------------------------
// Laws
// ---------------------------------------------------------------------------

/// Appending text without separators, and not ending in `.`, to `path`
/// extends its last component: the file name of the result runs from where
/// the last component of `path` starts to the end.
proof fn lemma_append_to_last_component(path: Seq<char>, suffix: Seq<char>)
    requires
        suffix.len() > 0,
        suffix[suffix.len() - 1] != '.',
        forall|i: int| 0 <= i < suffix.len() ==> !is_sep(#[trigger] suffix[i]),
    ensures
        ({
            let t = path + suffix;
            &&& name_end(t, t.len() as int) == t.len()
            &&& name_start(t, t.len() as int) == name_start(path, path.len() as int)
            &&& 0 <= name_start(path, path.len() as int) <= path.len()
        }),
{
    let t = path + suffix;
    let n = path.len() as int;
    assert(t[t.len() - 1] == suffix[suffix.len() - 1]);
    assert forall|i: int| n <= i < t.len() implies !is_sep(#[trigger] t[i]) by {
        assert(t[i] == suffix[i - n]);
    }
    lemma_name_start_skip(t, n, t.len() as int);
    assert(t.subrange(0, n) =~= path);
    lemma_name_start_prefix(t, t.subrange(0, n), n);
    lemma_name_start(path, n);
}

proof fn lemma_gz_has_no_separator(gz: Seq<char>)
    requires
        gz == seq!['.', 'g', 'z'],
    ensures
        forall|i: int| 0 <= i < gz.len() ==> !is_sep(#[trigger] gz[i]),
{
    assert forall|i: int| 0 <= i < gz.len() implies !is_sep(#[trigger] gz[i]) by {
        if i == 0 {
        } else if i == 1 {
        } else {
        }
    }
}

/// The last three characters of `name + gz`, lowercased, are `.gz`.
proof fn lemma_lower_ends_gz(stem: Seq<char>)
    ensures
        has_suffix(ascii_lower_seq(stem + seq!['.', 'g', 'z']), seq!['.', 'g', 'z']),
{
    let name = stem + seq!['.', 'g', 'z'];
    let lower = ascii_lower_seq(name);
    let n = name.len() as int;
    assert(lower[n - 3] == '.');
    assert(lower[n - 2] == 'g');
    assert(lower[n - 1] == 'z');
    assert(lower.subrange(n - 3, n) =~= seq!['.', 'g', 'z']);
}

/// Compressing never produces a name that would be compressed again: the
/// archive name always ends in `.gz`, so without `-f` it is left alone.
pub proof fn law_archive_name_has_gz_suffix(path: Seq<char>)
    ensures
        has_gz_suffix_spec(path + seq!['.', 'g', 'z']),
{
    let gz = seq!['.', 'g', 'z'];
    let t = path + gz;
    lemma_gz_has_no_separator(gz);
    lemma_append_to_last_component(path, gz);
    let end = t.len() as int;
    let start = name_start(t, end);
    let name = t.subrange(start, end);
    let stem = path.subrange(start, path.len() as int);
    assert(name =~= stem + gz);
    assert(name.len() >= 3);
    assert(name != seq!['.']);
    if name == seq!['.', '.'] {
        assert(name.len() == 2);
    }
    assert(file_name(t) == Some(name));
    lemma_lower_ends_gz(stem);
}

/// Decompressing an archive gives back the name it was made from, for any
/// path that ends in a file name (not in a separator, `.` or `..`).
pub proof fn law_decompressed_name_inverts_compressed_name(path: Seq<char>)
    requires
        file_name_bounds(path) matches Some((_, end)) && end == path.len(),
    ensures
        decompressed_name_spec(path + seq!['.', 'g', 'z']) == Some(path),
{
    let gz = seq!['.', 'g', 'z'];
    let t = path + gz;
    let (s0, e0) = file_name_bounds(path)->0;
    assert(e0 == name_end(path, path.len() as int) && s0 == name_start(path, e0) && s0 < e0);
    lemma_gz_has_no_separator(gz);
    lemma_append_to_last_component(path, gz);
    let end = t.len() as int;
    let start = name_start(t, end);
    assert(start == s0);
    let name = t.subrange(start, end);
    let stem = path.subrange(s0, e0);
    assert(name =~= stem + gz);
    assert(name != seq!['.']);
    if name == seq!['.', '.'] {
        assert(name.len() == 2);
    }
    assert(file_name_bounds(t) == Some((start, end)));
    let lower = ascii_lower_seq(name);
    lemma_lower_ends_gz(stem);
    assert(lower[lower.len() - 3] == '.');
    assert(!has_suffix(lower, seq!['.', 't', 'g', 'z'])) by {
        if has_suffix(lower, seq!['.', 't', 'g', 'z']) {
            assert(lower.subrange(lower.len() - 4, lower.len() as int)[1] == 't');
        }
    }
    assert(!has_suffix(lower, seq!['.', 't', 'a', 'z'])) by {
        if has_suffix(lower, seq!['.', 't', 'a', 'z']) {
            assert(lower.subrange(lower.len() - 4, lower.len() as int)[1] == 't');
        }
    }
    assert(stem.len() > 0);
    assert(name.subrange(0, name.len() - 3) =~= stem);
    assert(t.subrange(0, start) + stem =~= path);
}

/// After `--`, every remaining argument is a file, whatever it looks like.
pub proof fn law_double_dash_makes_files(args: Seq<Seq<char>>, i: int, o: OptionsView)
    requires
        0 <= i <= args.len(),
    ensures
        parse_spec(args, i, true, o) == Ok::<OptionsView, Seq<char>>(
            OptionsView { files: o.files + args.subrange(i, args.len() as int), ..o },
        ),
    decreases args.len() - i,
{
    if i < args.len() {
        let o2 = OptionsView { files: o.files.push(args[i]), ..o };
        law_double_dash_makes_files(args, i + 1, o2);
        assert(o2.files + args.subrange(i + 1, args.len() as int) =~= o.files + args.subrange(
            i,
            args.len() as int,
        ));
    } else {
        assert(o.files + args.subrange(i, args.len() as int) =~= o.files);
    }
}

/// A level that `gzip` accepts: none, or 0 to 9.
pub open spec fn valid_level(level: Option<u32>) -> bool {
    match level {
        Some(l) => l <= 9,
        None => true,
    }
}

proof fn lemma_cluster_keeps_level(text: Seq<char>, j: int, o: OptionsView)
    requires
        valid_level(o.level),
    ensures
        cluster_spec(text, j, o) matches Ok(o2) ==> valid_level(o2.level),
    decreases text.len() - j,
{
    if 0 <= j < text.len() {
        let c = text[j];
        if c == 'c' {
            lemma_cluster_keeps_level(text, j + 1, OptionsView { stdout: true, ..o });
        } else if c == 'd' {
            lemma_cluster_keeps_level(text, j + 1, OptionsView { decompress: true, ..o });
        } else if c == 'f' {
            lemma_cluster_keeps_level(text, j + 1, OptionsView { force: true, ..o });
        } else if c == 'k' {
            lemma_cluster_keeps_level(text, j + 1, OptionsView { keep: true, ..o });
        } else if c == 't' {
            lemma_cluster_keeps_level(text, j + 1, OptionsView { test: true, ..o });
        } else if c == 'h' {
            lemma_cluster_keeps_level(text, j + 1, OptionsView { help: true, ..o });
        } else if c == 'V' {
            lemma_cluster_keeps_level(text, j + 1, OptionsView { version: true, ..o });
        } else if '0' <= c && c <= '9' {
            let l = ((c as u32) - 48) as u32;
            assert(l <= 9);
            lemma_cluster_keeps_level(text, j + 1, OptionsView { level: Some(l), ..o });
        }
    }
}

proof fn lemma_parse_keeps_level(args: Seq<Seq<char>>, i: int, only_files: bool, o: OptionsView)
    requires
        valid_level(o.level),
    ensures
        parse_spec(args, i, only_files, o) matches Ok(o2) ==> valid_level(o2.level),
    decreases args.len() - i,
{
    if 0 <= i < args.len() {
        let a = args[i];
        let push = OptionsView { files: o.files.push(a), ..o };
        if only_files {
            lemma_parse_keeps_level(args, i + 1, only_files, push);
        } else if a == "--"@ {
            lemma_parse_keeps_level(args, i + 1, true, o);
        } else if a == "-"@ {
            lemma_parse_keeps_level(args, i + 1, only_files, push);
        } else if has_prefix(a, "--"@) {
            if let Ok(o2) = long_spec(a, o) {
                lemma_parse_keeps_level(args, i + 1, only_files, o2);
            }
        } else if has_prefix(a, "-"@) {
            lemma_cluster_keeps_level(a, 1, o);
            if let Ok(o2) = cluster_spec(a, 1, o) {
                lemma_parse_keeps_level(args, i + 1, only_files, o2);
            }
        } else {
            lemma_parse_keeps_level(args, i + 1, only_files, push);
        }
    }
}

/// Every level the command line can ask for is one `flate2` accepts: a
/// successful parse leaves no level, or one from 0 to 9.
pub proof fn law_parsed_level_is_valid(args: Seq<Seq<char>>)
    ensures
        parse_spec(args, 0, false, default_options()) matches Ok(o) ==> valid_level(o.level),
{
    lemma_parse_keeps_level(args, 0, false, default_options());
}

proof fn lemma_prefix_parse_carries_over(
    a: Seq<Seq<char>>,
    r: Seq<Seq<char>>,
    i: int,
    o: OptionsView,
)
    requires
        0 <= i <= a.len(),
        forall|k: int| 0 <= k < a.len() ==> #[trigger] a[k] != "--"@,
        parse_spec(a, i, false, o) is Ok,
    ensures
        parse_spec(a + seq!["--"@] + r, i, false, o) == parse_spec(
            a + seq!["--"@] + r,
            a.len() as int,
            false,
            parse_spec(a, i, false, o)->Ok_0,
        ),
    decreases a.len() - i,
{
    let full = a + seq!["--"@] + r;
    if i < a.len() {
        let x = a[i];
        assert(full[i] == x);
        assert(x != "--"@);
        let push = OptionsView { files: o.files.push(x), ..o };
        if x == "-"@ {
            lemma_prefix_parse_carries_over(a, r, i + 1, push);
        } else if has_prefix(x, "--"@) {
            lemma_prefix_parse_carries_over(a, r, i + 1, long_spec(x, o)->Ok_0);
        } else if has_prefix(x, "-"@) {
            lemma_prefix_parse_carries_over(a, r, i + 1, cluster_spec(x, 1, o)->Ok_0);
        } else {
            lemma_prefix_parse_carries_over(a, r, i + 1, push);
        }
    }
}

/// A command line that parses, followed by `--` and more arguments, keeps
/// every option it set and takes the arguments after `--` as files, in
/// order.
pub proof fn law_double_dash_after_options(a: Seq<Seq<char>>, r: Seq<Seq<char>>)
    requires
        forall|k: int| 0 <= k < a.len() ==> #[trigger] a[k] != "--"@,
        parse_spec(a, 0, false, default_options()) is Ok,
    ensures
        ({
            let o = parse_spec(a, 0, false, default_options())->Ok_0;
            parse_spec(a + seq!["--"@] + r, 0, false, default_options()) == Ok::<
                OptionsView,
                Seq<char>,
            >(OptionsView { files: o.files + r, ..o })
        }),
{
    let full = a + seq!["--"@] + r;
    let o = parse_spec(a, 0, false, default_options())->Ok_0;
    lemma_prefix_parse_carries_over(a, r, 0, default_options());
    let n = a.len() as int;
    assert(full[n] == "--"@);
    law_double_dash_makes_files(full, n + 1, o);
    assert(full.subrange(n + 1, full.len() as int) =~= r);
}

/// Decompressing undoes compressing, name and time stamp included: the
/// archive written for a file is planned, with default options, to be
/// decompressed back to that file's name and then removed, and its header
/// gives back the time stamp stored (none for 0). The bytes themselves come
/// back by `decompress_bytes`, whose contract states that an encoded stream
/// decodes to the data it was made from.
pub proof fn law_decompression_undoes_compression(
    path: Seq<char>,
    stream: Seq<u8>,
    level: u32,
    mtime: u32,
    name: Option<Seq<char>>,
)
    requires
        file_name_bounds(path) matches Some((_, end)) && end == path.len(),
        has_prefix_bytes(stream, gzip_header(level, mtime, name)),
    ensures
        decompress_plan_spec(path + seq!['.', 'g', 'z'], false, true, false, default_options())
            == DecompressPlanView::Write(path, true),
        header_mtime(stream) == if mtime != 0 {
            Some(mtime)
        } else {
            None::<u32>
        },
{
    law_decompressed_name_inverts_compressed_name(path);
    law_header_mtime_round_trip(stream, level, mtime, name);
}

/// Compressing a file and then decompressing its archive, both with the
/// default options, restores the file: compression is planned to write
/// `source.gz` and remove the source; the archive `compress_bytes` wrote
/// from the data, with the file's time stamp, is restored by
/// `restore_archive` to that data and time stamp (none for 0); and
/// decompression is planned to write `source` back and remove the archive.
pub proof fn law_file_round_trip(
    source: Seq<char>,
    data: Seq<u8>,
    level: u32,
    mtime: u32,
    name: Option<Seq<char>>,
    archive: Seq<u8>,
    restored: Result<Restored, GzipError>,
)
    requires
        file_name_bounds(source) matches Some((_, end)) && end == source.len(),
        !has_gz_suffix_spec(source),
        level <= 9,
        storable_name(name),
        gzip_encoding(data, level, mtime, name) == Some(archive),
        has_prefix_bytes(archive, gzip_header(level, mtime, name)),
        restore_contract(archive, restored),
    ensures
        compress_plan_spec(source, false, true, false, default_options())
            == CompressPlanView::Write(source + seq!['.', 'g', 'z'], true),
        restored matches Ok(x) && x.data@ == data && x.mtime == stored_mtime(mtime),
        decompress_plan_spec(source + seq!['.', 'g', 'z'], false, true, false, default_options())
            == DecompressPlanView::Write(source, true),
{
    law_decompressed_name_inverts_compressed_name(source);
    assert(gzip_encoding(data, level, mtime, name) == Some(archive));
}

/// `-k` decides whether decompressing removes the archive: whenever
/// decompression writes an output, the archive is removed exactly when
/// `-k` was not given, so with `-k` it is never removed.
pub proof fn law_decompress_keeps_archive_with_keep(
    path: Seq<char>,
    is_dir: bool,
    is_file: bool,
    output_exists: bool,
    o: OptionsView,
)
    ensures
        decompress_plan_spec(path, is_dir, is_file, output_exists, o) matches DecompressPlanView::Write(
            _,
            remove,
        ) ==> remove == !o.keep,
        o.keep ==> !(decompress_plan_spec(path, is_dir, is_file, output_exists, o) matches DecompressPlanView::Write(
            _,
            true,
        )),
{
}

/// `-k` decides whether compressing removes the source: whenever
/// compression writes an archive, the source is removed exactly when `-k`
/// was not given.
pub proof fn law_compress_keeps_source_with_keep(
    path: Seq<char>,
    is_dir: bool,
    is_file: bool,
    output_exists: bool,
    o: OptionsView,
)
    ensures
        compress_plan_spec(path, is_dir, is_file, output_exists, o) matches CompressPlanView::Write(
            _,
            remove,
        ) ==> remove == !o.keep,
{
}

/// With `-c`, an existing regular file is compressed to standard output:
/// no archive file is written and the source stays, whatever its name and
/// the other options.
pub proof fn law_stdout_compresses_to_stdout(
    path: Seq<char>,
    output_exists: bool,
    o: OptionsView,
)
    requires
        o.stdout,
    ensures
        compress_plan_spec(path, false, true, output_exists, o) == CompressPlanView::ToStdout,
{
}

/// With `-c` and without `-t`, an existing regular archive is decompressed
/// to standard output: no file is written and the archive stays.
pub proof fn law_stdout_decompresses_to_stdout(
    path: Seq<char>,
    output_exists: bool,
    o: OptionsView,
)
    requires
        o.stdout,
        !o.test,
    ensures
        decompress_plan_spec(path, false, true, output_exists, o) == DecompressPlanView::ToStdout,
{
}

} // verus!
