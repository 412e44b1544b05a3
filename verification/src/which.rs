//! The `which` command's logic: the command line, the candidate paths for
//! a command (with each `PATHEXT` extension), and choosing the matches.
//!
//! Whether a candidate exists and is runnable is asked of the file system
//! outside this library and handed in.
use vstd::prelude::*;
pub use crate::paths::has_path_separator;
use crate::paths::{file_name, file_name_range, join_path, join_spec};
use crate::text::{
    chars_of, copy_string, equals, has_char, has_prefix, owned, push_str, push_string, starts_with,
    strings_view,
};

verus! {

/// The parsed command line.
pub struct Options {
    pub all: bool,
    pub silent: bool,
    pub commands: Vec<String>,
}

/// The options as character sequences.
pub struct OptionsView {
    pub all: bool,
    pub silent: bool,
    pub commands: Seq<Seq<char>>,
}

impl View for Options {
    type V = OptionsView;

    open spec fn view(&self) -> OptionsView {
        OptionsView { all: self.all, silent: self.silent, commands: strings_view(self.commands@) }
    }
}

/// Parsing `args[i..]`; `flags` is false once `--` has been seen.
pub open spec fn parse_spec(args: Seq<Seq<char>>, i: int, flags: bool, o: OptionsView) -> Result<
    OptionsView,
    Seq<char>,
>
    decreases args.len() - i,
{
    if i < 0 || i >= args.len() {
        Ok(o)
    } else {
        let a = args[i];
        if flags && a == "--"@ {
            parse_spec(args, i + 1, false, o)
        } else if flags && (a == "-a"@ || a == "--all"@) {
            parse_spec(args, i + 1, flags, OptionsView { all: true, ..o })
        } else if flags && (a == "-s"@ || a == "--silent"@) {
            parse_spec(args, i + 1, flags, OptionsView { silent: true, ..o })
        } else if flags && (a == "-h"@ || a == "--help"@) {
            Err("help requested"@)
        } else if flags && has_prefix(a, "-"@) && a != "-"@ {
            Err("unknown option: "@ + a)
        } else {
            parse_spec(args, i + 1, flags, OptionsView { commands: o.commands.push(a), ..o })
        }
    }
}

/// Parses the command-line arguments (without the program name).
pub fn parse_args(args: &Vec<String>) -> (r: Result<Options, String>)
    ensures
        match r {
            Ok(o) => parse_spec(
                strings_view(args@),
                0,
                true,
                OptionsView { all: false, silent: false, commands: Seq::empty() },
            ) == Ok::<OptionsView, Seq<char>>(o@),
            Err(m) => parse_spec(
                strings_view(args@),
                0,
                true,
                OptionsView { all: false, silent: false, commands: Seq::empty() },
            ) == Err::<OptionsView, Seq<char>>(m@),
        },
{
    let ghost av = strings_view(args@);
    let mut options = Options { all: false, silent: false, commands: Vec::new() };
    assert(options@ == (OptionsView { all: false, silent: false, commands: Seq::empty() })) by {
        assert(strings_view(options.commands@) =~= Seq::<Seq<char>>::empty());
    }
    let mut parse_flags = true;
    let mut i: usize = 0;
    while i < args.len()
        invariant
            i <= args@.len(),
            av == strings_view(args@),
            av.len() == args@.len(),
            parse_spec(av, 0, true, OptionsView { all: false, silent: false, commands: Seq::empty() })
                == parse_spec(av, i as int, parse_flags, options@),
        decreases args.len() - i,
    {
        let arg = &args[i];
        let v = chars_of(arg.as_str());
        assert(av[i as int] == v@);
        if parse_flags && equals(&v, "--") {
            parse_flags = false;
            i = i + 1;
            continue;
        }
        if parse_flags {
            if equals(&v, "-a") || equals(&v, "--all") {
                options.all = true;
                i = i + 1;
                continue;
            }
            if equals(&v, "-s") || equals(&v, "--silent") {
                options.silent = true;
                i = i + 1;
                continue;
            }
            if equals(&v, "-h") || equals(&v, "--help") {
                return Err(owned("help requested"));
            }
            if starts_with(&v, "-") && !equals(&v, "-") {
                let mut m = owned("unknown option: ");
                push_str(&mut m, arg.as_str());
                return Err(m);
            }
        }
        push_string(&mut options.commands, copy_string(arg));
        i = i + 1;
    }
    Ok(options)
}

/// A file name has an extension when it holds a dot after its first
/// character.
pub open spec fn has_extension(path: Seq<char>) -> bool {
    match file_name(path) {
        Some(name) => dot_after_start(name),
        None => false,
    }
}

/// `name` holds a dot somewhere after its first character.
pub open spec fn dot_after_start(name: Seq<char>) -> bool {
    exists|i: int| 1 <= i < name.len() && name[i] == '.'
}

/// The paths tried for `base`: itself, then, when it has no extension,
/// itself with each extension appended.
pub open spec fn candidate_paths_spec(base: Seq<char>, exts: Seq<Seq<char>>) -> Seq<Seq<char>> {
    if has_extension(base) {
        seq![base]
    } else {
        seq![base] + exts.map_values(|e: Seq<char>| base + e)
    }
}

fn extension_present(v: &Vec<char>) -> (b: bool)
    ensures
        b == has_extension(v@),
{
    match file_name_range(v) {
        None => false,
        Some((start, end)) => {
            let ghost name = v@.subrange(start as int, end as int);
            assert(file_name(v@) == Some(name));
            let mut k: usize = start + 1;
            while k < end
                invariant
                    start + 1 <= k,
                    start < end <= v@.len(),
                    name == v@.subrange(start as int, end as int),
                    file_name(v@) == Some(name),
                    forall|i: int| 1 <= i < k - start ==> name[i] != '.',
                decreases end - k,
            {
                if v[k] == '.' {
                    assert(name[k - start] == '.');
                    assert(1 <= k - start < name.len());
                    let ghost w = (k - start) as int;
                    assert(1 <= w < name.len() && name[w] == '.');
                    assert(dot_after_start(name));
                    return true;
                }
                k = k + 1;
            }
            false
        },
    }
}

/// The candidate paths for `base`.
pub fn candidate_paths(base: &str, path_exts: &Vec<String>) -> (out: Vec<String>)
    ensures
        strings_view(out@) == candidate_paths_spec(base@, strings_view(path_exts@)),
{
    let v = chars_of(base);
    let mut out: Vec<String> = Vec::new();
    push_string(&mut out, owned(base));
    if extension_present(&v) {
        assert(strings_view(out@) =~= seq![base@]);
        return out;
    }
    let ghost ev = strings_view(path_exts@);
    let mut i: usize = 0;
    while i < path_exts.len()
        invariant
            i <= path_exts@.len(),
            ev == strings_view(path_exts@),
            ev.len() == path_exts@.len(),
            strings_view(out@) == seq![base@] + ev.take(i as int).map_values(
                |e: Seq<char>| base@ + e,
            ),
        decreases path_exts.len() - i,
    {
        let mut name = owned(base);
        push_str(&mut name, path_exts[i].as_str());
        push_string(&mut out, name);
        i = i + 1;
        assert(strings_view(out@) =~= seq![base@] + ev.take(i as int).map_values(
            |e: Seq<char>| base@ + e,
        ));
    }
    assert(ev.take(path_exts@.len() as int) =~= ev);
    out
}

/// Every candidate for a command: the command itself when it names a path,
/// otherwise the command joined to each `PATH` entry in turn.
pub open spec fn command_candidates_spec(
    command: Seq<char>,
    entries: Seq<Seq<char>>,
    exts: Seq<Seq<char>>,
    sep: char,
) -> Seq<Seq<char>>
    decreases entries.len(),
{
    if has_char(command, '/') || has_char(command, '\\') {
        candidate_paths_spec(command, exts)
    } else if entries.len() == 0 {
        Seq::empty()
    } else {
        command_candidates_spec(command, entries.drop_last(), exts, sep) + candidate_paths_spec(
            join_spec(entries.last(), command, sep),
            exts,
        )
    }
}

/// The candidate paths for `command`, searching the `PATH` entries with the
/// platform separator `sep`.
pub fn command_candidates(
    command: &str,
    path_entries: &Vec<String>,
    path_exts: &Vec<String>,
    sep: char,
) -> (out: Vec<String>)
    ensures
        strings_view(out@) == command_candidates_spec(
            command@,
            strings_view(path_entries@),
            strings_view(path_exts@),
            sep,
        ),
{
    if has_path_separator(command) {
        return candidate_paths(command, path_exts);
    }
    let ghost pv = strings_view(path_entries@);
    let mut out: Vec<String> = Vec::new();
    let mut i: usize = 0;
    assert(strings_view(out@) =~= Seq::<Seq<char>>::empty());
    while i < path_entries.len()
        invariant
            i <= path_entries@.len(),
            pv == strings_view(path_entries@),
            pv.len() == path_entries@.len(),
            !(has_char(command@, '/') || has_char(command@, '\\')),
            strings_view(out@) == command_candidates_spec(
                command@,
                pv.take(i as int),
                strings_view(path_exts@),
                sep,
            ),
        decreases path_entries.len() - i,
    {
        let joined = join_path(path_entries[i].as_str(), command, sep);
        let more = candidate_paths(joined.as_str(), path_exts);
        let mut k: usize = 0;
        let ghost before = strings_view(out@);
        while k < more.len()
            invariant
                k <= more@.len(),
                strings_view(out@) == before + strings_view(more@).take(k as int),
            decreases more.len() - k,
        {
            push_string(&mut out, copy_string(&more[k]));
            k = k + 1;
            assert(strings_view(more@).take(k as int) =~= strings_view(more@).take(k - 1).push(
                more@[k - 1]@,
            ));
            assert(strings_view(out@) =~= before + strings_view(more@).take(k as int));
        }
        assert(strings_view(more@).take(more@.len() as int) =~= strings_view(more@));
        i = i + 1;
        assert(pv.take(i as int).drop_last() =~= pv.take(i - 1));
    }
    assert(pv.take(path_entries@.len() as int) =~= pv);
    out
}

/// `str::to_lowercase`: full Unicode lowercasing.
pub uninterp spec fn unicode_lower(s: Seq<char>) -> Seq<char>;

/// `str::to_lowercase`.
#[verifier::external_body]
fn to_lowercase(s: &str) -> (out: String)
    ensures
        out@ == unicode_lower(s@),
{
    s.to_lowercase()
}

/// The key under which two candidates count as the same file: the path
/// lowercased where file names ignore case (Windows), the path itself
/// elsewhere.
pub fn normalize_for_dedupe(path: &str, ignore_case: bool) -> (key: String)
    ensures
        key@ == if ignore_case {
            unicode_lower(path@)
        } else {
            path@
        },
{
    if ignore_case {
        to_lowercase(path)
    } else {
        owned(path)
    }
}

/// A file can be run: on Windows (no permission bits) any regular file,
/// elsewhere a regular file with an execute bit set.
pub fn is_runnable_file(is_file: bool, mode: Option<u32>) -> (b: bool)
    ensures
        b == match mode {
            None => is_file,
            Some(m) => is_file && m & 0o111 != 0,
        },
{
    match mode {
        None => is_file,
        Some(m) => is_file && m & 0o111 != 0,
    }
}

/// Candidate `i` is runnable and no earlier runnable candidate has the
/// same key.
pub open spec fn first_of_its_key(keys: Seq<Seq<char>>, runnable: Seq<bool>, i: int) -> bool {
    &&& 0 <= i < keys.len()
    &&& runnable[i]
    &&& forall|j: int| 0 <= j < i && runnable[j] ==> keys[j] != #[trigger] keys[i]
}

fn seen_contains(seen: &Vec<String>, key: &String) -> (b: bool)
    ensures
        b == exists|k: int| 0 <= k < seen@.len() && #[trigger] seen@[k]@ == key@,
{
    let mut k: usize = 0;
    while k < seen.len()
        invariant
            k <= seen@.len(),
            forall|j: int| 0 <= j < k ==> #[trigger] seen@[j]@ != key@,
        decreases seen.len() - k,
    {
        if seen[k] == *key {
            return true;
        }
        k = k + 1;
    }
    false
}

/// The candidates to report, by index: those runnable and not duplicates
/// (by key) of an earlier runnable one, in order; only the first of them
/// unless `all`.
pub fn select_matches(keys: &Vec<String>, runnable: &Vec<bool>, all: bool) -> (out: Vec<usize>)
    requires
        keys@.len() == runnable@.len(),
    ensures
        forall|k: int|
            0 <= k < out@.len() ==> first_of_its_key(
                strings_view(keys@),
                runnable@,
                #[trigger] out@[k] as int,
            ),
        forall|k1: int, k2: int| 0 <= k1 < k2 < out@.len() ==> out@[k1] < out@[k2],
        all ==> forall|i: int|
            first_of_its_key(strings_view(keys@), runnable@, i) ==> exists|k: int|
                0 <= k < out@.len() && #[trigger] out@[k] == i,
        !all ==> out@.len() <= 1,
        !all ==> forall|i: int|
            first_of_its_key(strings_view(keys@), runnable@, i) ==> out@.len() == 1 && out@[0]
                <= i,
{
    let ghost kv = strings_view(keys@);
    let mut out: Vec<usize> = Vec::new();
    let mut seen: Vec<String> = Vec::new();
    let mut i: usize = 0;
    while i < keys.len()
        invariant
            i <= keys@.len(),
            keys@.len() == runnable@.len(),
            kv == strings_view(keys@),
            kv.len() == keys@.len(),
            seen@.len() == out@.len(),
            !all ==> out@.len() == 0,
            forall|k: int|
                0 <= k < out@.len() ==> #[trigger] out@[k] < i && first_of_its_key(
                    kv,
                    runnable@,
                    out@[k] as int,
                ) && seen@[k]@ == kv[out@[k] as int],
            forall|k1: int, k2: int| 0 <= k1 < k2 < out@.len() ==> out@[k1] < out@[k2],
            forall|j: int|
                0 <= j < i && #[trigger] runnable@[j] ==> exists|k: int|
                    0 <= k < out@.len() && #[trigger] seen@[k]@ == kv[j],
            forall|j: int|
                0 <= j < i && first_of_its_key(kv, runnable@, j) ==> exists|k: int|
                    0 <= k < out@.len() && #[trigger] out@[k] == j,
        decreases keys.len() - i,
    {
        let ghost old_out = out@;
        let ghost old_seen = seen@;
        if runnable[i] {
            let key = &keys[i];
            assert(kv[i as int] == key@);
            if seen_contains(&seen, key) {
                proof {
                    let k = choose|k: int| 0 <= k < seen@.len() && #[trigger] seen@[k]@ == key@;
                    assert(kv[out@[k] as int] == kv[i as int]);
                    assert(!first_of_its_key(kv, runnable@, i as int));
                }
            } else {
                let ghost ii = i as int;
                proof {
                    assert forall|j: int| 0 <= j < ii && runnable@[j] implies kv[j] != #[trigger] kv[ii] by {
                        let k = choose|k: int| 0 <= k < out@.len() && #[trigger] seen@[k]@ == kv[j];
                        assert(seen@[k]@ == kv[j]);
                    }
                    assert(first_of_its_key(kv, runnable@, ii));
                }
                out.push(i);
                seen.push(copy_string(key));
                if !all {
                    proof {
                        assert forall|j: int| first_of_its_key(kv, runnable@, j) implies out@.len()
                            == 1 && out@[0] <= j by {
                            if j < ii {
                                let k = choose|k: int| 0 <= k < old_out.len() && #[trigger] old_out[k] == j;
                            }
                        }
                    }
                    return out;
                }
                proof {
                    let n = old_out.len() as int;
                    assert(out@[n] == i);
                    assert(seen@[n]@ == kv[ii]);
                    assert forall|j: int| 0 <= j < ii + 1 && #[trigger] runnable@[j] implies exists|k: int|
                        0 <= k < out@.len() && #[trigger] seen@[k]@ == kv[j] by {
                        if j < ii {
                            let k = choose|k: int| 0 <= k < old_out.len() && #[trigger] old_seen[k]@ == kv[j];
                            assert(seen@[k] == old_seen[k]);
                        } else {
                            assert(seen@[n]@ == kv[j]);
                        }
                    }
                    assert forall|j: int| 0 <= j < ii + 1 && first_of_its_key(kv, runnable@, j) implies exists|k: int|
                        0 <= k < out@.len() && #[trigger] out@[k] == j by {
                        if j < ii {
                            let k = choose|k: int| 0 <= k < old_out.len() && #[trigger] old_out[k] == j;
                            assert(out@[k] == old_out[k]);
                        } else {
                            assert(out@[n] == j);
                        }
                    }
                }
            }
        }
        i = i + 1;
    }
    out
}

/// After `--`, every remaining argument is a command to look up, whatever
/// it looks like.
pub proof fn law_double_dash_makes_commands(args: Seq<Seq<char>>, i: int, o: OptionsView)
    requires
        0 <= i <= args.len(),
    ensures
        parse_spec(args, i, false, o) == Ok::<OptionsView, Seq<char>>(
            OptionsView { commands: o.commands + args.subrange(i, args.len() as int), ..o },
        ),
    decreases args.len() - i,
{
    if i < args.len() {
        let o2 = OptionsView { commands: o.commands.push(args[i]), ..o };
        law_double_dash_makes_commands(args, i + 1, o2);
        assert(o2.commands + args.subrange(i + 1, args.len() as int) =~= o.commands
            + args.subrange(i, args.len() as int));
    } else {
        assert(o.commands + args.subrange(i, args.len() as int) =~= o.commands);
    }
}

/// Parsing depends only on the arguments still to come: after a prefix
/// `p`, the parse of `p + rest` goes on as the parse of `rest` would.
proof fn lemma_parse_suffix(p: Seq<Seq<char>>, rest: Seq<Seq<char>>, k: int, f: bool, o: OptionsView)
    requires
        0 <= k <= rest.len(),
    ensures
        parse_spec(p + rest, p.len() + k, f, o) == parse_spec(rest, k, f, o),
    decreases rest.len() - k,
{
    let args = p + rest;
    let i = p.len() + k;
    if k < rest.len() {
        let a = rest[k];
        assert(args[i] == a);
        assert(p.len() + (k + 1) == i + 1);
        if f && a == "--"@ {
            lemma_parse_suffix(p, rest, k + 1, false, o);
        } else if f && (a == "-a"@ || a == "--all"@) {
            lemma_parse_suffix(p, rest, k + 1, f, OptionsView { all: true, ..o });
        } else if f && (a == "-s"@ || a == "--silent"@) {
            lemma_parse_suffix(p, rest, k + 1, f, OptionsView { silent: true, ..o });
        } else if f && (a == "-h"@ || a == "--help"@) {
        } else if f && has_prefix(a, "-"@) && a != "-"@ {
        } else {
            lemma_parse_suffix(p, rest, k + 1, f, OptionsView { commands: o.commands.push(a), ..o });
        }
    }
}

/// The parse with `silent` set from the start: the same outcome, with
/// `silent` set.
pub open spec fn with_silent(r: Result<OptionsView, Seq<char>>) -> Result<OptionsView, Seq<char>> {
    match r {
        Ok(o2) => Ok(OptionsView { silent: true, ..o2 }),
        Err(m) => Err(m),
    }
}

/// Being silent changes nothing else of a parse: parsing from options with
/// `silent` set succeeds exactly when parsing from them without it does,
/// with the same commands and `-a`, and the result is silent.
proof fn lemma_silent_changes_nothing_else(args: Seq<Seq<char>>, i: int, f: bool, o: OptionsView)
    requires
        0 <= i <= args.len(),
    ensures
        parse_spec(args, i, f, OptionsView { silent: true, ..o }) == with_silent(
            parse_spec(args, i, f, o),
        ),
    decreases args.len() - i,
{
    let s = OptionsView { silent: true, ..o };
    if i < args.len() {
        let a = args[i];
        if f && a == "--"@ {
            lemma_silent_changes_nothing_else(args, i + 1, false, o);
        } else if f && (a == "-a"@ || a == "--all"@) {
            lemma_silent_changes_nothing_else(args, i + 1, f, OptionsView { all: true, ..o });
            assert(OptionsView { all: true, ..s } == OptionsView { silent: true, ..OptionsView { all: true, ..o } });
        } else if f && (a == "-s"@ || a == "--silent"@) {
            lemma_silent_changes_nothing_else(args, i + 1, f, o);
            assert(OptionsView { silent: true, ..s } == s);
            lemma_silent_changes_nothing_else(args, i + 1, f, s);
            assert(OptionsView { silent: true, ..s } == s);
        } else if f && (a == "-h"@ || a == "--help"@) {
        } else if f && has_prefix(a, "-"@) && a != "-"@ {
        } else {
            let o1 = OptionsView { commands: o.commands.push(a), ..o };
            lemma_silent_changes_nothing_else(args, i + 1, f, o1);
            assert(OptionsView { commands: s.commands.push(a), ..s } == OptionsView {
                silent: true,
                ..o1
            });
        }
    } else {
        assert(OptionsView { silent: true, ..o } == s);
    }
}

/// Before `--`, `-s` and `--silent` are interchangeable: either one sets
/// `silent` and leaves the rest of the line to parse as it would, so it
/// succeeds exactly when the rest does, with the same commands, and the
/// result is silent.
pub proof fn law_silent_short_and_long_forms_agree(rest: Seq<Seq<char>>, o: OptionsView)
    ensures
        parse_spec(seq!["-s"@] + rest, 0, true, o) == parse_spec(seq!["--silent"@] + rest, 0, true, o),
        parse_spec(seq!["-s"@] + rest, 0, true, o) == with_silent(parse_spec(rest, 0, true, o)),
        parse_spec(seq!["-s"@] + rest, 0, true, o) matches Ok(o2) ==> o2.silent,
{
    reveal_strlit("--");
    reveal_strlit("-a");
    reveal_strlit("--all");
    reveal_strlit("-s");
    reveal_strlit("--silent");
    let s = OptionsView { silent: true, ..o };
    lemma_parse_suffix(seq!["-s"@], rest, 0, true, s);
    lemma_parse_suffix(seq!["--silent"@], rest, 0, true, s);
    lemma_silent_changes_nothing_else(rest, 0, true, o);
    assert((seq!["-s"@] + rest)[0] == "-s"@);
    assert((seq!["--silent"@] + rest)[0] == "--silent"@);
    assert("-s"@ != "--"@) by {
        assert("-s"@[1] != "--"@[1]);
    }
    assert("-s"@ != "-a"@) by {
        assert("-s"@[1] != "-a"@[1]);
    }
    assert("--silent"@.len() == 8 && "--all"@.len() == 5 && "--"@.len() == 2 && "-a"@.len() == 2);
}

} // verus!
