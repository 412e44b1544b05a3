//! The `open` command's logic: the command line, and quoting the targets
//! handed to an application so that it re-parses them verbatim.
use vstd::prelude::*;
pub use crate::paths::has_path_separator;
use crate::paths::{join_path, join_spec};
use crate::text::{
    chars_of, contains_char, copy_string, equals, has_char, has_prefix, opt_view, owned, push_char,
    push_repeat, push_str, push_string, repeat, starts_with, string_from_range, strings_view,
};

verus! {

/// An argument needs quotes when it is empty or holds a space, tab,
/// newline, carriage return or double quote.
pub open spec fn needs_quotes(s: Seq<char>) -> bool {
    s.len() == 0 || has_char(s, ' ') || has_char(s, '\t') || has_char(s, '\n') || has_char(s, '\r')
        || has_char(s, '"')
}

/// The inside of a quoted argument, per the MSDN rules for parsing C
/// command-line arguments: backslashes are literal unless they precede a
/// double quote (then they are doubled and the quote escaped) or the
/// closing quote (then they are doubled). `pending` counts backslashes
/// seen but not yet written.
pub open spec fn quote_body(s: Seq<char>, pending: nat) -> Seq<char>
    decreases s.len(),
{
    if s.len() == 0 {
        repeat('\\', 2 * pending)
    } else {
        let c = s[0];
        let rest = s.drop_first();
        if c == '\\' {
            quote_body(rest, pending + 1)
        } else if c == '"' {
            repeat('\\', 2 * pending + 1) + seq!['"'] + quote_body(rest, 0)
        } else {
            repeat('\\', pending) + seq![c] + quote_body(rest, 0)
        }
    }
}

/// The argument as the application must receive it on its command line.
pub open spec fn quote_arg_spec(s: Seq<char>) -> Seq<char> {
    if needs_quotes(s) {
        seq!['"'] + quote_body(s, 0) + seq!['"']
    } else {
        s
    }
}

/// Quote an argument following the MSDN "Parsing C Command-Line Arguments"
/// rules so that the target application receives it verbatim.
pub fn quote_arg(input: &str) -> (out: String)
    ensures
        out@ == quote_arg_spec(input@),
{
    let v = chars_of(input);
    let needs = v.len() == 0 || contains_char(&v, ' ') || contains_char(&v, '\t') || contains_char(
        &v,
        '\n',
    ) || contains_char(&v, '\r') || contains_char(&v, '"');
    if !needs {
        return owned(input);
    }
    let mut out = String::new();
    push_char(&mut out, '"');
    let mut backslashes: usize = 0;
    let mut i: usize = 0;
    assert(v@.subrange(0, v@.len() as int) =~= v@);
    while i < v.len()
        invariant
            i <= v@.len(),
            backslashes <= i,
            v@ == input@,
            seq!['"'] + quote_body(input@, 0) == out@ + quote_body(
                v@.subrange(i as int, v@.len() as int),
                backslashes as nat,
            ),
        decreases v.len() - i,
    {
        let ghost rest = v@.subrange(i as int, v@.len() as int);
        assert(rest.drop_first() =~= v@.subrange(i + 1, v@.len() as int));
        let ch = v[i];
        if ch == '\\' {
            backslashes = backslashes + 1;
        } else if ch == '"' {
            let ghost before = out@;
            push_repeat(&mut out, '\\', backslashes);
            push_repeat(&mut out, '\\', backslashes);
            push_char(&mut out, '\\');
            push_char(&mut out, '"');
            assert(out@ =~= before + repeat('\\', 2 * backslashes as nat + 1) + seq!['"']);
            backslashes = 0;
        } else {
            let ghost before = out@;
            push_repeat(&mut out, '\\', backslashes);
            push_char(&mut out, ch);
            assert(out@ =~= before + repeat('\\', backslashes as nat) + seq![ch]);
            backslashes = 0;
        }
        i = i + 1;
    }
    let ghost before = out@;
    push_repeat(&mut out, '\\', backslashes);
    push_repeat(&mut out, '\\', backslashes);
    push_char(&mut out, '"');
    assert(out@ =~= before + repeat('\\', 2 * backslashes as nat) + seq!['"']);
    assert(v@.subrange(v@.len() as int, v@.len() as int) =~= Seq::<char>::empty());
    out
}

/// `parts` joined with single spaces.
pub open spec fn join_spaces(parts: Seq<Seq<char>>) -> Seq<char>
    decreases parts.len(),
{
    if parts.len() == 0 {
        Seq::empty()
    } else if parts.len() == 1 {
        parts[0]
    } else {
        join_spaces(parts.drop_last()) + seq![' '] + parts.last()
    }
}

/// Join multiple targets into a single command-line parameter string,
/// quoting each one the way the launched application will re-parse it.
pub fn build_parameters(targets: &Vec<String>) -> (out: String)
    ensures
        out@ == join_spaces(strings_view(targets@).map_values(|t: Seq<char>| quote_arg_spec(t))),
{
    let ghost quoted = strings_view(targets@).map_values(|t: Seq<char>| quote_arg_spec(t));
    let mut out = String::new();
    let mut i: usize = 0;
    while i < targets.len()
        invariant
            i <= targets@.len(),
            quoted == strings_view(targets@).map_values(|t: Seq<char>| quote_arg_spec(t)),
            quoted.len() == targets@.len(),
            out@ == join_spaces(quoted.take(i as int)),
        decreases targets.len() - i,
    {
        let q = quote_arg(targets[i].as_str());
        assert(quoted[i as int] == q@);
        if i > 0 {
            push_char(&mut out, ' ');
        }
        push_str(&mut out, q.as_str());
        i = i + 1;
        assert(quoted.take(i as int).drop_last() =~= quoted.take(i - 1));
        assert(out@ =~= join_spaces(quoted.take(i as int)));
    }
    assert(quoted.take(targets@.len() as int) =~= quoted);
    out
}

/// The parsed command line: an optional application and the targets.
pub struct Options {
    pub app: Option<String>,
    pub targets: Vec<String>,
}

/// The options as character sequences.
pub struct OptionsView {
    pub app: Option<Seq<char>>,
    pub targets: Seq<Seq<char>>,
}

impl View for Options {
    type V = OptionsView;

    open spec fn view(&self) -> OptionsView {
        OptionsView { app: opt_view(self.app), targets: strings_view(self.targets@) }
    }
}

/// Parsing `args[i..]`; `flags` is false once `--` has been seen.
pub open spec fn parse_spec(args: Seq<Seq<char>>, i: int, flags: bool, o: OptionsView) -> Result<
    OptionsView,
    Seq<char>,
>
    decreases args.len() - i,
{
    if i < 0 || i >= args.len() {
        Ok(o)
    } else {
        let a = args[i];
        if flags && a == "--"@ {
            parse_spec(args, i + 1, false, o)
        } else if flags && (a == "-a"@ || a == "--app"@) {
            if i + 1 < args.len() {
                parse_spec(args, i + 2, flags, OptionsView { app: Some(args[i + 1]), ..o })
            } else {
                Err("option -a requires an argument"@)
            }
        } else if flags && has_prefix(a, "--app="@) {
            parse_spec(args, i + 1, flags, OptionsView { app: Some(a.subrange(6, a.len() as int)), ..o })
        } else if flags && (a == "-h"@ || a == "--help"@) {
            Err("help requested"@)
        } else if flags && has_prefix(a, "-"@) && a != "-"@ {
            Err("unknown option: "@ + a)
        } else {
            parse_spec(args, i + 1, flags, OptionsView { targets: o.targets.push(a), ..o })
        }
    }
}

/// Parses the command-line arguments (without the program name).
pub fn parse_args(args: &Vec<String>) -> (r: Result<Options, String>)
    ensures
        match r {
            Ok(o) => parse_spec(
                strings_view(args@),
                0,
                true,
                OptionsView { app: None, targets: Seq::empty() },
            ) == Ok::<OptionsView, Seq<char>>(o@),
            Err(m) => parse_spec(
                strings_view(args@),
                0,
                true,
                OptionsView { app: None, targets: Seq::empty() },
            ) == Err::<OptionsView, Seq<char>>(m@),
        },
{
    let ghost av = strings_view(args@);
    let mut options = Options { app: None, targets: Vec::new() };
    assert(options@ == (OptionsView { app: None, targets: Seq::empty() })) by {
        assert(strings_view(options.targets@) =~= Seq::<Seq<char>>::empty());
    }
    let mut parse_flags = true;
    let mut i: usize = 0;
    while i < args.len()
        invariant
            i <= args@.len(),
            av == strings_view(args@),
            av.len() == args@.len(),
            parse_spec(av, 0, true, OptionsView { app: None, targets: Seq::empty() }) == parse_spec(
                av,
                i as int,
                parse_flags,
                options@,
            ),
        decreases args.len() - i,
    {
        let arg = &args[i];
        let v = chars_of(arg.as_str());
        assert(av[i as int] == v@);
        if parse_flags && equals(&v, "--") {
            parse_flags = false;
            i = i + 1;
            continue;
        }
        if parse_flags {
            if equals(&v, "-a") || equals(&v, "--app") {
                if i + 1 < args.len() {
                    assert(av[i + 1] == args@[i + 1]@);
                    options.app = Some(copy_string(&args[i + 1]));
                    i = i + 2;
                    continue;
                }
                return Err(owned("option -a requires an argument"));
            }
            if starts_with(&v, "--app=") {
                proof {
                    reveal_strlit("--app=");
                }
                options.app = Some(string_from_range(&v, 6, v.len()));
                i = i + 1;
                continue;
            }
            if equals(&v, "-h") || equals(&v, "--help") {
                return Err(owned("help requested"));
            }
            if starts_with(&v, "-") && !equals(&v, "-") {
                let mut m = owned("unknown option: ");
                push_str(&mut m, arg.as_str());
                return Err(m);
            }
        }
        push_string(&mut options.targets, copy_string(arg));
        i = i + 1;
    }
    Ok(options)
}

/// The files tried, in order, when resolving a bare application name:
/// for each `PATH` entry, the name itself and then the name with each
/// `PATHEXT` extension. A name that holds a separator is not searched.
pub open spec fn resolve_candidates_spec(
    app: Seq<char>,
    entries: Seq<Seq<char>>,
    exts: Seq<Seq<char>>,
    sep: char,
) -> Seq<Seq<char>>
    decreases entries.len(),
{
    if has_char(app, '/') || has_char(app, '\\') || entries.len() == 0 {
        Seq::empty()
    } else {
        let dir = entries.last();
        resolve_candidates_spec(app, entries.drop_last(), exts, sep) + seq![join_spec(dir, app, sep)]
            + exts.map_values(|e: Seq<char>| join_spec(dir, app + e, sep))
    }
}

/// The candidate files for application `app`, searching the `PATH`
/// entries with the platform separator `sep`; the first that is a file is
/// the one to launch.
pub fn resolve_candidates(app: &str, entries: &Vec<String>, exts: &Vec<String>, sep: char) -> (out:
    Vec<String>)
    ensures
        strings_view(out@) == resolve_candidates_spec(
            app@,
            strings_view(entries@),
            strings_view(exts@),
            sep,
        ),
{
    let mut out: Vec<String> = Vec::new();
    if has_path_separator(app) {
        assert(strings_view(out@) =~= Seq::<Seq<char>>::empty());
        return out;
    }
    let ghost ev = strings_view(entries@);
    let ghost xv = strings_view(exts@);
    let mut i: usize = 0;
    assert(strings_view(out@) =~= Seq::<Seq<char>>::empty());
    while i < entries.len()
        invariant
            i <= entries@.len(),
            ev == strings_view(entries@),
            ev.len() == entries@.len(),
            xv == strings_view(exts@),
            xv.len() == exts@.len(),
            !(has_char(app@, '/') || has_char(app@, '\\')),
            strings_view(out@) == resolve_candidates_spec(app@, ev.take(i as int), xv, sep),
        decreases entries.len() - i,
    {
        let dir = entries[i].as_str();
        let ghost before = strings_view(out@);
        push_string(&mut out, join_path(dir, app, sep));
        let mut k: usize = 0;
        while k < exts.len()
            invariant
                k <= exts@.len(),
                xv == strings_view(exts@),
                xv.len() == exts@.len(),
                strings_view(out@) == before + seq![join_spec(dir@, app@, sep)] + xv.take(
                    k as int,
                ).map_values(|e: Seq<char>| join_spec(dir@, app@ + e, sep)),
            decreases exts.len() - k,
        {
            let mut name = owned(app);
            push_str(&mut name, exts[k].as_str());
            push_string(&mut out, join_path(dir, name.as_str(), sep));
            k = k + 1;
            assert(strings_view(out@) =~= before + seq![join_spec(dir@, app@, sep)] + xv.take(
                k as int,
            ).map_values(|e: Seq<char>| join_spec(dir@, app@ + e, sep)));
        }
        assert(xv.take(exts@.len() as int) =~= xv);
        i = i + 1;
        assert(ev.take(i as int).drop_last() =~= ev.take(i - 1));
        assert(ev.take(i as int).last() == dir@);
    }
    assert(ev.take(entries@.len() as int) =~= ev);
    out
}

// ---------------------------------------------------------------------------
// Laws
// ---------------------------------------------------------------------------

/// How the Microsoft C runtime splits a command line into arguments
/// ("Parsing C Command-Line Arguments"): a space or tab outside double
/// quotes ends the current argument; backslashes are literal unless
/// followed by a double quote, where 2n backslashes give n and the quote
/// opens or closes quoting, while 2n + 1 give n and a literal quote.
/// `quoted` tells whether a double quote is open, `pending` counts
/// backslashes read but not yet resolved, `cur` is the argument being read
/// and `started` whether one is under way, and `done` holds the arguments
/// already complete.
pub open spec fn c_runtime_split(
    s: Seq<char>,
    quoted: bool,
    pending: nat,
    cur: Seq<char>,
    started: bool,
    done: Seq<Seq<char>>,
) -> Seq<Seq<char>>
    decreases s.len(),
{
    if s.len() == 0 {
        if started {
            done.push(cur + repeat('\\', pending))
        } else {
            done
        }
    } else {
        let c = s[0];
        let rest = s.drop_first();
        if c == '\\' {
            c_runtime_split(rest, quoted, pending + 1, cur, true, done)
        } else if c == '"' {
            if pending % 2 == 1 {
                c_runtime_split(
                    rest,
                    quoted,
                    0,
                    cur + repeat('\\', pending / 2) + seq!['"'],
                    true,
                    done,
                )
            } else {
                c_runtime_split(rest, !quoted, 0, cur + repeat('\\', pending / 2), true, done)
            }
        } else if (c == ' ' || c == '\t') && !quoted {
            if started {
                c_runtime_split(
                    rest,
                    false,
                    0,
                    Seq::empty(),
                    false,
                    done.push(cur + repeat('\\', pending)),
                )
            } else {
                c_runtime_split(rest, false, 0, Seq::empty(), false, done)
            }
        } else {
            c_runtime_split(rest, quoted, 0, cur + repeat('\\', pending) + seq![c], true, done)
        }
    }
}

/// The arguments the C runtime reads from the command line `line`.
pub open spec fn c_runtime_args(line: Seq<char>) -> Seq<Seq<char>> {
    c_runtime_split(line, false, 0, Seq::empty(), false, Seq::empty())
}

/// The arguments read once an argument `arg` is complete and `t` follows:
/// the end of the line, or a blank and the rest of the line.
pub open spec fn split_after(t: Seq<char>, arg: Seq<char>, done: Seq<Seq<char>>) -> Seq<Seq<char>> {
    if t.len() == 0 {
        done.push(arg)
    } else {
        c_runtime_split(t.drop_first(), false, 0, Seq::empty(), false, done.push(arg))
    }
}

proof fn lemma_backslashes_accumulate(
    n: nat,
    t: Seq<char>,
    quoted: bool,
    pending: nat,
    cur: Seq<char>,
    done: Seq<Seq<char>>,
)
    ensures
        c_runtime_split(repeat('\\', n) + t, quoted, pending, cur, true, done) == c_runtime_split(
            t,
            quoted,
            pending + n,
            cur,
            true,
            done,
        ),
    decreases n,
{
    if n > 0 {
        let s = repeat('\\', n) + t;
        assert(s[0] == '\\');
        assert(s.drop_first() =~= repeat('\\', (n - 1) as nat) + t);
        lemma_backslashes_accumulate((n - 1) as nat, t, quoted, pending + 1, cur, done);
    } else {
        assert(repeat('\\', 0) + t =~= t);
    }
}

/// Outside quotes, the end of the line or a blank completes the argument.
proof fn lemma_end_of_argument(t: Seq<char>, pending: nat, cur: Seq<char>, done: Seq<Seq<char>>)
    requires
        t.len() == 0 || t[0] == ' ',
    ensures
        c_runtime_split(t, false, pending, cur, true, done) == split_after(
            t,
            cur + repeat('\\', pending),
            done,
        ),
{
}

proof fn lemma_quoted_body(
    s: Seq<char>,
    pending: nat,
    cur: Seq<char>,
    t: Seq<char>,
    done: Seq<Seq<char>>,
)
    requires
        t.len() == 0 || t[0] == ' ',
    ensures
        c_runtime_split(quote_body(s, pending) + seq!['"'] + t, true, 0, cur, true, done)
            == split_after(t, cur + repeat('\\', pending) + s, done),
    decreases s.len(),
{
    if s.len() == 0 {
        let body = quote_body(s, pending);
        assert(body == repeat('\\', 2 * pending));
        let q = seq!['"'] + t;
        assert(body + seq!['"'] + t =~= repeat('\\', 2 * pending) + q);
        lemma_backslashes_accumulate(2 * pending, q, true, 0, cur, done);
        assert(q.drop_first() =~= t);
        assert((2 * pending) / 2 == pending);
        assert((2 * pending) % 2 == 0);
        let cur2 = cur + repeat('\\', pending);
        assert(c_runtime_split(q, true, 2 * pending, cur, true, done) == c_runtime_split(
            t,
            false,
            0,
            cur2,
            true,
            done,
        ));
        lemma_end_of_argument(t, 0, cur2, done);
        assert(cur2 + repeat('\\', 0) =~= cur + repeat('\\', pending) + s);
    } else {
        let c = s[0];
        let rest = s.drop_first();
        if c == '\\' {
            assert(quote_body(s, pending) + seq!['"'] + t =~= quote_body(rest, pending + 1)
                + seq!['"'] + t);
            lemma_quoted_body(rest, pending + 1, cur, t, done);
            assert(cur + repeat('\\', pending + 1) + rest =~= cur + repeat('\\', pending) + s);
        } else if c == '"' {
            let tail = seq!['"'] + quote_body(rest, 0) + seq!['"'] + t;
            assert(quote_body(s, pending) + seq!['"'] + t =~= repeat('\\', 2 * pending + 1) + tail);
            lemma_backslashes_accumulate(2 * pending + 1, tail, true, 0, cur, done);
            assert(tail.drop_first() =~= quote_body(rest, 0) + seq!['"'] + t);
            assert((2 * pending + 1) / 2 == pending);
            let cur2 = cur + repeat('\\', pending) + seq!['"'];
            lemma_quoted_body(rest, 0, cur2, t, done);
            assert(cur2 + repeat('\\', 0) + rest =~= cur + repeat('\\', pending) + s);
        } else {
            let tail = seq![c] + quote_body(rest, 0) + seq!['"'] + t;
            assert(quote_body(s, pending) + seq!['"'] + t =~= repeat('\\', pending) + tail);
            lemma_backslashes_accumulate(pending, tail, true, 0, cur, done);
            assert(tail.drop_first() =~= quote_body(rest, 0) + seq!['"'] + t);
            let cur2 = cur + repeat('\\', pending) + seq![c];
            lemma_quoted_body(rest, 0, cur2, t, done);
            assert(cur2 + repeat('\\', 0) + rest =~= cur + repeat('\\', pending) + s);
        }
    }
}

proof fn lemma_unquoted(
    s: Seq<char>,
    pending: nat,
    cur: Seq<char>,
    started: bool,
    t: Seq<char>,
    done: Seq<Seq<char>>,
)
    requires
        started || s.len() > 0,
        forall|i: int| 0 <= i < s.len() ==> #[trigger] s[i] != '"' && s[i] != ' ' && s[i] != '\t',
        t.len() == 0 || t[0] == ' ',
    ensures
        c_runtime_split(s + t, false, pending, cur, started, done) == split_after(
            t,
            cur + repeat('\\', pending) + s,
            done,
        ),
    decreases s.len(),
{
    if s.len() == 0 {
        assert(s + t =~= t);
        lemma_end_of_argument(t, pending, cur, done);
        assert(cur + repeat('\\', pending) + s =~= cur + repeat('\\', pending));
    } else {
        let c = s[0];
        let rest = s.drop_first();
        assert((s + t)[0] == c);
        assert((s + t).drop_first() =~= rest + t);
        assert forall|i: int| 0 <= i < rest.len() implies #[trigger] rest[i] != '"' && rest[i] != ' '
            && rest[i] != '\t' by {
            assert(rest[i] == s[i + 1]);
        }
        if c == '\\' {
            lemma_unquoted(rest, pending + 1, cur, true, t, done);
            assert(cur + repeat('\\', pending + 1) + rest =~= cur + repeat('\\', pending) + s);
        } else {
            let cur2 = cur + repeat('\\', pending) + seq![c];
            lemma_unquoted(rest, 0, cur2, true, t, done);
            assert(cur2 + repeat('\\', 0) + rest =~= cur + repeat('\\', pending) + s);
        }
    }
}

/// A quoted argument followed by the end of the line or a blank is read
/// back as exactly the argument.
proof fn lemma_quoted_argument(s: Seq<char>, t: Seq<char>, done: Seq<Seq<char>>)
    requires
        t.len() == 0 || t[0] == ' ',
    ensures
        c_runtime_split(quote_arg_spec(s) + t, false, 0, Seq::empty(), false, done) == split_after(
            t,
            s,
            done,
        ),
{
    if needs_quotes(s) {
        let q = seq!['"'] + quote_body(s, 0) + seq!['"'] + t;
        assert(quote_arg_spec(s) + t =~= q);
        assert(q[0] == '"');
        assert(q.drop_first() =~= quote_body(s, 0) + seq!['"'] + t);
        let cur: Seq<char> = Seq::empty() + repeat('\\', 0);
        lemma_quoted_body(s, 0, cur, t, done);
        assert(cur + repeat('\\', 0) + s =~= s);
    } else {
        assert forall|i: int| 0 <= i < s.len() implies #[trigger] s[i] != '"' && s[i] != ' ' && s[i]
            != '\t' by {
            if s[i] == '"' {
                assert(has_char(s, '"'));
            }
            if s[i] == ' ' {
                assert(has_char(s, ' '));
            }
            if s[i] == '\t' {
                assert(has_char(s, '\t'));
            }
        }
        lemma_unquoted(s, 0, Seq::empty(), false, t, done);
        assert(Seq::<char>::empty() + repeat('\\', 0) + s =~= s);
    }
}

/// The launched application receives each target verbatim and as one
/// argument: splitting the quoted form by the C runtime's rules gives
/// exactly the target. A target that is not empty and holds no blank, line
/// break or double quote is passed unchanged.
pub proof fn law_quote_arg_round_trip(s: Seq<char>)
    ensures
        c_runtime_args(quote_arg_spec(s)) == seq![s],
        !needs_quotes(s) ==> quote_arg_spec(s) == s,
{
    lemma_quoted_argument(s, Seq::empty(), Seq::empty());
    assert(quote_arg_spec(s) + Seq::<char>::empty() =~= quote_arg_spec(s));
    assert(Seq::<Seq<char>>::empty().push(s) =~= seq![s]);
}

/// `join_spaces` seen from the front: the first part, a space, the rest.
proof fn lemma_join_spaces_front(parts: Seq<Seq<char>>)
    requires
        parts.len() >= 2,
    ensures
        join_spaces(parts) == parts[0] + seq![' '] + join_spaces(parts.drop_first()),
    decreases parts.len(),
{
    if parts.len() == 2 {
        assert(parts.drop_last().len() == 1);
        assert(join_spaces(parts.drop_last()) == parts[0]);
        assert(parts.drop_first().len() == 1);
        assert(join_spaces(parts.drop_first()) == parts[1]);
        assert(join_spaces(parts) == join_spaces(parts.drop_last()) + seq![' '] + parts.last());
    } else {
        let init = parts.drop_last();
        let tail = parts.drop_first();
        lemma_join_spaces_front(init);
        assert(init.drop_first() =~= tail.drop_last());
        assert(tail.last() == parts.last());
        assert(init[0] == parts[0]);
        assert(join_spaces(parts) == join_spaces(init) + seq![' '] + parts.last());
        assert(join_spaces(tail) == join_spaces(tail.drop_last()) + seq![' '] + tail.last());
        assert(join_spaces(parts) =~= parts[0] + seq![' '] + join_spaces(tail));
    }
}

proof fn lemma_split_joined(targets: Seq<Seq<char>>, done: Seq<Seq<char>>)
    ensures
        c_runtime_split(
            join_spaces(targets.map_values(|t: Seq<char>| quote_arg_spec(t))),
            false,
            0,
            Seq::empty(),
            false,
            done,
        ) == done + targets,
    decreases targets.len(),
{
    let quoted = targets.map_values(|t: Seq<char>| quote_arg_spec(t));
    if targets.len() == 0 {
        assert(join_spaces(quoted) == Seq::<char>::empty());
        assert(done + targets =~= done);
    } else if targets.len() == 1 {
        assert(join_spaces(quoted) == quote_arg_spec(targets[0]));
        lemma_quoted_argument(targets[0], Seq::empty(), done);
        assert(quote_arg_spec(targets[0]) + Seq::<char>::empty() =~= quote_arg_spec(targets[0]));
        assert(done.push(targets[0]) =~= done + targets);
    } else {
        let rest = targets.drop_first();
        let qrest = rest.map_values(|t: Seq<char>| quote_arg_spec(t));
        assert(quoted.drop_first() =~= qrest);
        lemma_join_spaces_front(quoted);
        let t = seq![' '] + join_spaces(qrest);
        assert(join_spaces(quoted) =~= quote_arg_spec(targets[0]) + t);
        lemma_quoted_argument(targets[0], t, done);
        assert(t.drop_first() =~= join_spaces(qrest));
        lemma_split_joined(rest, done.push(targets[0]));
        assert(done.push(targets[0]) + rest =~= done + targets);
    }
}

/// The parameter string hands the application exactly the targets: the C
/// runtime splits it back into the targets, in order, each verbatim.
pub proof fn law_parameters_round_trip(targets: Seq<Seq<char>>)
    ensures
        c_runtime_args(join_spaces(targets.map_values(|t: Seq<char>| quote_arg_spec(t))))
            == targets,
{
    lemma_split_joined(targets, Seq::empty());
    assert(Seq::<Seq<char>>::empty() + targets =~= targets);
}

/// After `--`, every remaining argument is a target, whatever it looks like.
pub proof fn law_double_dash_makes_targets(args: Seq<Seq<char>>, i: int, o: OptionsView)
    requires
        0 <= i <= args.len(),
    ensures
        parse_spec(args, i, false, o) == Ok::<OptionsView, Seq<char>>(
            OptionsView { targets: o.targets + args.subrange(i, args.len() as int), ..o },
        ),
    decreases args.len() - i,
{
    if i < args.len() {
        let o2 = OptionsView { targets: o.targets.push(args[i]), ..o };
        law_double_dash_makes_targets(args, i + 1, o2);
        assert(o2.targets + args.subrange(i + 1, args.len() as int) =~= o.targets + args.subrange(
            i,
            args.len() as int,
        ));
    } else {
        assert(o.targets + args.subrange(i, args.len() as int) =~= o.targets);
    }
}

} // verus!
