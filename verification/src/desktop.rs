//! Desktop entries: what the launcher lists and how an entry's command
//! line becomes the arguments of a process.
use vstd::prelude::*;
use freedesktop_desktop_entry::DesktopEntry;
use crate::storage::{components, file_name, path_components};
use crate::text::{chars_of, string_of, is_ascii_whitespace, is_ascii_whitespace_char, split_chars, split_spec, chars_equal, owned, concat2};

verus! {

/// A parsed desktop entry of the `freedesktop-desktop-entry` crate.
#[verifier::external_type_specification]
#[verifier::external_body]
pub struct ExDesktopEntry(DesktopEntry);

/// What the `[Desktop Entry]` group of an entry holds: each key with its
/// unlocalized value.
pub uninterp spec fn desktop_fields(entry: DesktopEntry) -> Map<Seq<char>, Seq<char>>;

/// The translations the `[Desktop Entry]` group of an entry holds: for
/// each key, its values by locale (from lines such as `Name[de]=...`).
pub uninterp spec fn desktop_translations(entry: DesktopEntry) -> Map<Seq<char>, Map<Seq<char>, Seq<char>>>;

/// The path of the file an entry was read from, as lossy text.
pub uninterp spec fn desktop_entry_path(entry: DesktopEntry) -> Seq<char>;

/// `DesktopEntry::desktop_entry(key)`: the unlocalized value of `key` in
/// the `[Desktop Entry]` group.
#[verifier::external_body]
pub(crate) fn entry_field(entry: &DesktopEntry, key: &str) -> (r: Option<String>)
    ensures
        match r {
            Some(v) => desktop_fields(*entry).contains_key(key@) && desktop_fields(*entry)[key@] == v@,
            None => !desktop_fields(*entry).contains_key(key@),
        },
{
    entry.desktop_entry(key).map(|value| value.to_owned())
}

/// `entry.path.to_string_lossy()`.
#[verifier::external_body]
pub(crate) fn entry_path(entry: &DesktopEntry) -> (r: String)
    ensures
        r@ == desktop_entry_path(*entry),
{
    entry.path.to_string_lossy().into_owned()
}

/// What `DesktopEntry::from_str(path, text, Some(locales))` decodes from
/// the text of a desktop file: the unlocalized values and the translations
/// of its `[Desktop Entry]` group, or `None` when it reports an error.
pub uninterp spec fn decoded_entry(path: Seq<char>, text: Seq<char>, locales: Seq<Seq<char>>) -> Option<
    (Map<Seq<char>, Seq<char>>, Map<Seq<char>, Map<Seq<char>, Seq<char>>>),
>;

/// `DesktopEntry::from_str(path, text, Some(locales))`, its error dropped.
/// The entry keeps `path` as the path it was read from.
#[verifier::external_body]
fn decode_entry(path: &str, text: &str, locales: &Vec<String>) -> (r: Option<DesktopEntry>)
    ensures
        match r {
            Some(e) => decoded_entry(path@, text@, string_views(locales@)) == Some(
                (desktop_fields(e), desktop_translations(e)),
            ) && desktop_entry_path(e) == path@,
            None => decoded_entry(path@, text@, string_views(locales@)) is None,
        },
{
    DesktopEntry::from_str(path, text, Some(locales.as_slice())).ok()
}

/// Decodes the text of the desktop file at `path`, keeping its
/// translations for `locales`: the entry with the program its `TryExec`
/// names, if any; `None` when the text is not a valid entry.
pub fn parse_entry(path: &str, text: &str, locales: &Vec<String>) -> (r: Option<(DesktopEntry, Option<String>)>)
    ensures
        match r {
            Some((e, program)) => {
                &&& decoded_entry(path@, text@, string_views(locales@)) == Some(
                    (desktop_fields(e), desktop_translations(e)),
                )
                &&& desktop_entry_path(e) == path@
                &&& opt_text(program) == field(desktop_fields(e), "TryExec"@)
            },
            None => decoded_entry(path@, text@, string_views(locales@)) is None,
        },
{
    match decode_entry(path, text, locales) {
        Some(e) => {
            let program = entry_field(&e, "TryExec");
            Some((e, program))
        },
        None => None,
    }
}

/// One item of the catalog: an application entry, or a file or folder of
/// the desktop directory (`file` holds its path then).
pub struct Application {
    pub id: String,
    pub name: String,
    pub search_text: String,
    pub entry: DesktopEntry,
    pub on_desktop: bool,
    pub file: Option<Vec<u8>>,
}

/// The discovered items and the number of entries that could not be read.
pub struct Catalog {
    pub apps: Vec<Application>,
    pub skipped: usize,
}


/// The message for a backslash that ends the command line.
pub open spec fn incomplete_escape() -> Seq<char> {
    "Escape incompleto en Exec"@
}

/// What a backslash escape of a desktop-entry value stands for.
pub open spec fn escaped(e: char) -> Seq<char> {
    if e == 's' {
        seq![' ']
    } else if e == 'n' {
        seq!['\n']
    } else if e == 't' {
        seq!['\t']
    } else if e == 'r' {
        seq!['\r']
    } else if e == '\\' {
        seq!['\\']
    } else {
        seq!['\\', e]
    }
}

/// A desktop-entry value with its escapes decoded; `None` when it ends in
/// a lone backslash.
pub open spec fn unescape(s: Seq<char>) -> Option<Seq<char>>
    decreases s.len(),
{
    if s.len() == 0 {
        Some(Seq::empty())
    } else if s[0] != '\\' {
        match unescape(s.drop_first()) {
            Some(r) => Some(seq![s[0]] + r),
            None => None,
        }
    } else if s.len() == 1 {
        None
    } else {
        match unescape(s.skip(2)) {
            Some(r) => Some(escaped(s[1]) + r),
            None => None,
        }
    }
}

fn push_escaped(out: &mut Vec<char>, e: char)
    ensures
        final(out)@ == old(out)@ + escaped(e),
{
    if e == 's' {
        out.push(' ');
    } else if e == 'n' {
        out.push('\n');
    } else if e == 't' {
        out.push('\t');
    } else if e == 'r' {
        out.push('\r');
    } else if e == '\\' {
        out.push('\\');
    } else {
        out.push('\\');
        out.push(e);
    }
}

/// Decodes the escapes of a desktop-entry value.
pub fn unescape_value(value: &str) -> (r: Result<String, String>)
    ensures
        match (r, unescape(value@)) {
            (Ok(v), Some(t)) => v@ == t,
            (Err(m), None) => m@ == incomplete_escape(),
            _ => false,
        },
{
    let s = chars_of(value);
    let mut out: Vec<char> = Vec::new();
    let mut i: usize = 0;
    assert(s@.skip(0) =~= s@);
    while i < s.len()
        invariant
            s@ == value@,
            0 <= i <= s@.len(),
            match unescape(s@.skip(i as int)) {
                Some(rest) => unescape(s@) == Some(out@ + rest),
                None => unescape(s@) is None,
            },
        decreases s@.len() - i,
    {
        let ghost t = s@.skip(i as int);
        if s[i] != '\\' {
            assert(t.drop_first() =~= s@.skip(i + 1));
            out.push(s[i]);
            proof {
                match unescape(s@.skip(i + 1)) {
                    Some(rest) => {
                        assert(out@ + rest =~= old_out_plus(out@, rest));
                    },
                    None => {},
                }
            }
            i += 1;
        } else if i + 1 == s.len() {
            return Err(owned("Escape incompleto en Exec"));
        } else {
            assert(t.skip(2) =~= s@.skip(i + 2));
            let ghost before = out@;
            push_escaped(&mut out, s[i + 1]);
            proof {
                match unescape(s@.skip(i + 2)) {
                    Some(rest) => {
                        assert(before + (escaped(s@[i + 1]) + rest) =~= out@ + rest);
                    },
                    None => {},
                }
            }
            i += 2;
        }
    }
    assert(s@.skip(i as int) =~= Seq::<char>::empty());
    assert(out@ + Seq::<char>::empty() =~= out@);
    Ok(string_of(out.as_slice()))
}

spec fn old_out_plus(a: Seq<char>, b: Seq<char>) -> Seq<char> {
    a + b
}

/// The message for an unclosed quote.
pub open spec fn unclosed_quote() -> Seq<char> {
    "Comillas sin cerrar en Exec"@
}

/// Splits a decoded command line into arguments, continuing from the
/// arguments found so far, the argument being read, whether a quote is
/// open and whether an argument has started.
pub open spec fn tokenize_from(
    s: Seq<char>,
    args: Seq<Seq<char>>,
    arg: Seq<char>,
    quoted: bool,
    started: bool,
) -> Result<Seq<Seq<char>>, Seq<char>>
    decreases s.len(),
{
    if s.len() == 0 {
        if quoted {
            Err(unclosed_quote())
        } else if started {
            Ok(args.push(arg))
        } else {
            Ok(args)
        }
    } else {
        let c = s[0];
        if c == '"' {
            tokenize_from(s.drop_first(), args, arg, !quoted, true)
        } else if c == '\\' {
            if s.len() < 2 {
                Err(incomplete_escape())
            } else {
                let e = s[1];
                let kept = if quoted && !(e == '"' || e == '`' || e == '$' || e == '\\') {
                    arg.push('\\').push(e)
                } else {
                    arg.push(e)
                };
                tokenize_from(s.skip(2), args, kept, quoted, true)
            }
        } else if is_ascii_whitespace_char(c) && !quoted {
            if started {
                tokenize_from(s.drop_first(), args.push(arg), Seq::empty(), quoted, false)
            } else {
                tokenize_from(s.drop_first(), args, arg, quoted, false)
            }
        } else {
            tokenize_from(s.drop_first(), args, arg.push(c), quoted, true)
        }
    }
}

/// The arguments of a decoded command line: whitespace separates them
/// outside double quotes, quotes group, and a backslash keeps the next
/// character (and itself too inside quotes, before anything but
/// `"`, `` ` ``, `$` and `\`).
pub open spec fn tokens(s: Seq<char>) -> Result<Seq<Seq<char>>, Seq<char>> {
    tokenize_from(s, Seq::empty(), Seq::empty(), false, false)
}

fn to_strings(v: &Vec<Vec<char>>) -> (r: Vec<String>)
    ensures
        r@.map_values(|x: String| x@) == v@.map_values(|x: Vec<char>| x@),
{
    let mut out: Vec<String> = Vec::new();
    let mut i: usize = 0;
    while i < v.len()
        invariant
            0 <= i <= v@.len(),
            out@.map_values(|x: String| x@) == v@.take(i as int).map_values(|x: Vec<char>| x@),
        decreases v@.len() - i,
    {
        out.push(string_of(v[i].as_slice()));
        assert(v@.take(i + 1).map_values(|x: Vec<char>| x@) =~= v@.take(i as int).map_values(|x: Vec<char>| x@).push(v@[i as int]@));
        assert(out@.map_values(|x: String| x@) =~= v@.take(i + 1).map_values(|x: Vec<char>| x@));
        i += 1;
    }
    assert(v@.take(i as int) =~= v@);
    out
}

/// Splits a decoded command line into its arguments (see `tokens`).
pub fn tokenize(exec: &str) -> (r: Result<Vec<String>, String>)
    ensures
        match (r, tokens(exec@)) {
            (Ok(v), Ok(t)) => v@.map_values(|x: String| x@) == t,
            (Err(m), Err(e)) => m@ == e,
            _ => false,
        },
{
    let s = chars_of(exec);
    let mut arguments: Vec<Vec<char>> = Vec::new();
    let mut argument: Vec<char> = Vec::new();
    let mut quoted = false;
    let mut started = false;
    let mut i: usize = 0;
    assert(s@.skip(0) =~= s@);
    assert(arguments@.map_values(|x: Vec<char>| x@) =~= Seq::<Seq<char>>::empty());
    assert(argument@ =~= Seq::<char>::empty());
    while i < s.len()
        invariant
            s@ == exec@,
            0 <= i <= s@.len(),
            tokens(s@) == tokenize_from(s@.skip(i as int), arguments@.map_values(|x: Vec<char>| x@), argument@, quoted, started),
        decreases s@.len() - i,
    {
        let c = s[i];
        let ghost t = s@.skip(i as int);
        if c == '"' {
            assert(t.drop_first() =~= s@.skip(i + 1));
            quoted = !quoted;
            started = true;
            i += 1;
        } else if c == '\\' {
            if i + 1 == s.len() {
                return Err(owned("Escape incompleto en Exec"));
            }
            assert(t.skip(2) =~= s@.skip(i + 2));
            let e = s[i + 1];
            if quoted && !(e == '"' || e == '`' || e == '$' || e == '\\') {
                argument.push('\\');
            }
            argument.push(e);
            started = true;
            i += 2;
        } else if is_ascii_whitespace(c) && !quoted {
            assert(t.drop_first() =~= s@.skip(i + 1));
            if started {
                let piece = argument;
                let ghost before = arguments@.map_values(|x: Vec<char>| x@);
                arguments.push(piece);
                assert(arguments@.map_values(|x: Vec<char>| x@) =~= before.push(piece@));
                argument = Vec::new();
                started = false;
            }
            i += 1;
        } else {
            assert(t.drop_first() =~= s@.skip(i + 1));
            argument.push(c);
            started = true;
            i += 1;
        }
    }
    assert(s@.skip(i as int) =~= Seq::<char>::empty());
    if quoted {
        return Err(owned("Comillas sin cerrar en Exec"));
    }
    if started {
        let piece = argument;
        let ghost before = arguments@.map_values(|x: Vec<char>| x@);
        arguments.push(piece);
        assert(arguments@.map_values(|x: Vec<char>| x@) =~= before.push(piece@));
    }
    Ok(to_strings(&arguments))
}


/// The value of `key` in the `[Desktop Entry]` group.
pub open spec fn field(f: Map<Seq<char>, Seq<char>>, key: Seq<char>) -> Option<Seq<char>> {
    if f.contains_key(key) { Some(f[key]) } else { None }
}

/// A boolean key, true only when its value is `true`.
pub open spec fn flag(f: Map<Seq<char>, Seq<char>>, key: Seq<char>) -> bool {
    field(f, key) == Some("true"@)
}

/// Field codes that stand for files or URLs, which the launcher never passes.
pub open spec fn dropped_code(t: Seq<char>) -> bool {
    t == "%f"@ || t == "%F"@ || t == "%u"@ || t == "%U"@ || t == "%d"@ || t == "%D"@ || t == "%n"@
        || t == "%N"@ || t == "%v"@ || t == "%m"@
}

/// An argument with its `%%`, `%c` (the name) and `%k` (the entry's path)
/// codes expanded; any other code is an error.
pub open spec fn expand(t: Seq<char>, name: Seq<char>, path: Seq<char>) -> Result<Seq<char>, Seq<char>>
    decreases t.len(),
{
    if t.len() == 0 {
        Ok(Seq::empty())
    } else if t[0] != '%' {
        match expand(t.drop_first(), name, path) {
            Ok(r) => Ok(seq![t[0]] + r),
            Err(e) => Err(e),
        }
    } else if t.len() == 1 {
        Err("Código Exec incompleto"@)
    } else {
        let code = t[1];
        let piece: Result<Seq<char>, Seq<char>> = if code == '%' {
            Ok(seq!['%'])
        } else if code == 'c' {
            Ok(name)
        } else if code == 'k' {
            Ok(path)
        } else {
            Err("Código Exec no válido en un argumento: %"@.push(code))
        };
        match piece {
            Err(e) => Err(e),
            Ok(p) => match expand(t.skip(2), name, path) {
                Ok(r) => Ok(p + r),
                Err(e) => Err(e),
            },
        }
    }
}

/// The arguments one token of the command line becomes.
pub open spec fn token_args(t: Seq<char>, name: Seq<char>, path: Seq<char>, icon: Option<Seq<char>>) -> Result<Seq<Seq<char>>, Seq<char>> {
    if dropped_code(t) {
        Ok(Seq::empty())
    } else if t == "%i"@ {
        match icon {
            Some(i) => Ok(seq!["--icon"@, i]),
            None => Ok(Seq::empty()),
        }
    } else if t == "%c"@ {
        Ok(seq![name])
    } else if t == "%k"@ {
        Ok(seq![path])
    } else {
        match expand(t, name, path) {
            Ok(e) => Ok(seq![e]),
            Err(e) => Err(e),
        }
    }
}

/// The arguments of all tokens, or the first error among them.
pub open spec fn all_args(ts: Seq<Seq<char>>, name: Seq<char>, path: Seq<char>, icon: Option<Seq<char>>) -> Result<Seq<Seq<char>>, Seq<char>>
    decreases ts.len(),
{
    if ts.len() == 0 {
        Ok(Seq::empty())
    } else {
        match all_args(ts.drop_last(), name, path, icon) {
            Err(e) => Err(e),
            Ok(a) => match token_args(ts.last(), name, path, icon) {
                Err(e) => Err(e),
                Ok(b) => Ok(a + b),
            },
        }
    }
}

/// Whether a program name is acceptable: not empty and without `=`.
pub open spec fn valid_program(p: Seq<char>) -> bool {
    p.len() > 0 && !p.contains('=')
}

/// The arguments to run an entry with: its `Exec` value decoded, split
/// and expanded, with a valid program first.
pub open spec fn exec_plan(f: Map<Seq<char>, Seq<char>>, path: Seq<char>, name: Seq<char>) -> Result<Seq<Seq<char>>, Seq<char>> {
    match field(f, "Exec"@) {
        None => Err("La aplicación requiere activación D-Bus; instala gio"@),
        Some(exec) => match unescape(exec) {
            None => Err(incomplete_escape()),
            Some(u) => match tokens(u) {
                Err(e) => Err(e),
                Ok(ts) => match all_args(ts, name, path, field(f, "Icon"@)) {
                    Err(e) => Err(e),
                    Ok(a) => if a.len() > 0 && valid_program(a[0]) { Ok(a) } else {
                        Err("Ejecutable .desktop inválido"@)
                    },
                },
            },
        },
    }
}

proof fn lemma_all_args_error_prefix(ts: Seq<Seq<char>>, name: Seq<char>, path: Seq<char>, icon: Option<Seq<char>>, k: int)
    requires
        0 <= k <= ts.len(),
        all_args(ts.take(k), name, path, icon) is Err,
    ensures
        all_args(ts, name, path, icon) == all_args(ts.take(k), name, path, icon),
    decreases ts.len() - k,
{
    if k < ts.len() {
        assert(ts.take(k + 1).drop_last() =~= ts.take(k));
        lemma_all_args_error_prefix(ts, name, path, icon, k + 1);
    } else {
        assert(ts.take(k) =~= ts);
    }
}

fn expand_token(token: &str, name: &str, path: &str) -> (r: Result<String, String>)
    ensures
        match (r, expand(token@, name@, path@)) {
            (Ok(v), Ok(t)) => v@ == t,
            (Err(m), Err(e)) => m@ == e,
            _ => false,
        },
{
    let t = chars_of(token);
    let name_chars = chars_of(name);
    let path_chars = chars_of(path);
    let mut out: Vec<char> = Vec::new();
    let mut i: usize = 0;
    assert(t@.skip(0) =~= t@);
    while i < t.len()
        invariant
            t@ == token@,
            name_chars@ == name@,
            path_chars@ == path@,
            0 <= i <= t@.len(),
            match expand(t@.skip(i as int), name@, path@) {
                Ok(rest) => expand(t@, name@, path@) == Ok::<Seq<char>, Seq<char>>(out@ + rest),
                Err(e) => expand(t@, name@, path@) == Err::<Seq<char>, Seq<char>>(e),
            },
        decreases t@.len() - i,
    {
        let ghost u = t@.skip(i as int);
        let ghost before = out@;
        if t[i] != '%' {
            assert(u.drop_first() =~= t@.skip(i + 1));
            out.push(t[i]);
            proof {
                if let Ok(rest) = expand(t@.skip(i + 1), name@, path@) {
                    assert(before + (seq![u[0]] + rest) =~= out@ + rest);
                }
            }
            i += 1;
        } else if i + 1 == t.len() {
            return Err(owned("Código Exec incompleto"));
        } else {
            assert(u.skip(2) =~= t@.skip(i + 2));
            let code = t[i + 1];
            if code == '%' {
                out.push('%');
                proof {
                    if let Ok(rest) = expand(t@.skip(i + 2), name@, path@) {
                        assert(before + (seq!['%'] + rest) =~= out@ + rest);
                    }
                }
            } else if code == 'c' {
                let mut k: usize = 0;
                while k < name_chars.len()
                    invariant
                        name_chars@ == name@,
                        0 <= k <= name_chars@.len(),
                        out@ == before + name@.take(k as int),
                    decreases name_chars@.len() - k,
                {
                    out.push(name_chars[k]);
                    assert(name@.take(k + 1) =~= name@.take(k as int).push(name@[k as int]));
                    k += 1;
                }
                assert(name@.take(k as int) =~= name@);
                proof {
                    if let Ok(rest) = expand(t@.skip(i + 2), name@, path@) {
                        assert(before + (name@ + rest) =~= out@ + rest);
                    }
                }
            } else if code == 'k' {
                let mut k: usize = 0;
                while k < path_chars.len()
                    invariant
                        path_chars@ == path@,
                        0 <= k <= path_chars@.len(),
                        out@ == before + path@.take(k as int),
                    decreases path_chars@.len() - k,
                {
                    out.push(path_chars[k]);
                    assert(path@.take(k + 1) =~= path@.take(k as int).push(path@[k as int]));
                    k += 1;
                }
                assert(path@.take(k as int) =~= path@);
                proof {
                    if let Ok(rest) = expand(t@.skip(i + 2), name@, path@) {
                        assert(before + (path@ + rest) =~= out@ + rest);
                    }
                }
            } else {
                let mut message = owned("Código Exec no válido en un argumento: %");
                crate::text::push_char(&mut message, code);
                return Err(message);
            }
            i += 2;
        }
    }
    assert(t@.skip(i as int) =~= Seq::<char>::empty());
    assert(out@ + Seq::<char>::empty() =~= out@);
    Ok(string_of(out.as_slice()))
}

fn is_dropped_code(t: &str) -> (r: bool)
    ensures
        r == dropped_code(t@),
{
    crate::text::str_equal(t, "%f") || crate::text::str_equal(t, "%F") || crate::text::str_equal(t, "%u")
        || crate::text::str_equal(t, "%U") || crate::text::str_equal(t, "%d") || crate::text::str_equal(t, "%D")
        || crate::text::str_equal(t, "%n") || crate::text::str_equal(t, "%N") || crate::text::str_equal(t, "%v")
        || crate::text::str_equal(t, "%m")
}

/// The arguments that run an entry (see `exec_plan`); `name` is the name
/// shown for it.
pub fn exec_arguments(entry: &DesktopEntry, name: &str) -> (r: Result<Vec<String>, String>)
    ensures
        match (r, exec_plan(desktop_fields(*entry), desktop_entry_path(*entry), name@)) {
            (Ok(v), Ok(t)) => v@.map_values(|x: String| x@) == t,
            (Err(m), Err(e)) => m@ == e,
            _ => false,
        },
{
    let exec = match entry_field(entry, "Exec") {
        Some(e) => e,
        None => {
            return Err(owned("La aplicación requiere activación D-Bus; instala gio"));
        },
    };
    let decoded = match unescape_value(exec.as_str()) {
        Ok(d) => d,
        Err(e) => {
            return Err(e);
        },
    };
    let toks = match tokenize(decoded.as_str()) {
        Ok(t) => t,
        Err(e) => {
            return Err(e);
        },
    };
    let icon = entry_field(entry, "Icon");
    let path = entry_path(entry);
    let ghost f = desktop_fields(*entry);
    let ghost ts = toks@.map_values(|x: String| x@);
    let ghost icon_v = field(f, "Icon"@);
    let mut arguments: Vec<String> = Vec::new();
    let mut k: usize = 0;
    assert(ts.take(0) =~= Seq::<Seq<char>>::empty());
    assert(arguments@.map_values(|x: String| x@) =~= Seq::<Seq<char>>::empty());
    while k < toks.len()
        invariant
            ts == toks@.map_values(|x: String| x@),
            f == desktop_fields(*entry),
            field(f, "Exec"@) == Some(exec@),
            unescape(exec@) == Some(decoded@),
            tokens(decoded@) == Ok::<Seq<Seq<char>>, Seq<char>>(ts),
            0 <= k <= toks@.len(),
            path@ == desktop_entry_path(*entry),
            icon_v == field(f, "Icon"@),
            match icon { Some(v) => icon_v == Some(v@), None => icon_v is None },
            all_args(ts.take(k as int), name@, path@, icon_v) == Ok::<Seq<Seq<char>>, Seq<char>>(arguments@.map_values(|x: String| x@)),
        decreases toks@.len() - k,
    {
        assert(ts.take(k + 1).drop_last() =~= ts.take(k as int));
        assert(ts.take(k + 1).last() == toks@[k as int]@);
        let ghost before = arguments@.map_values(|x: String| x@);
        let token = toks[k].as_str();
        if is_dropped_code(token) {
            assert(before + Seq::<Seq<char>>::empty() =~= before);
        } else if crate::text::str_equal(token, "%i") {
            match &icon {
                Some(value) => {
                    arguments.push(owned("--icon"));
                    arguments.push(value.clone());
                    assert(arguments@.map_values(|x: String| x@) =~= before + seq!["--icon"@, value@]);
                },
                None => {
                    assert(before + Seq::<Seq<char>>::empty() =~= before);
                },
            }
        } else if crate::text::str_equal(token, "%c") {
            arguments.push(owned(name));
            assert(arguments@.map_values(|x: String| x@) =~= before + seq![name@]);
        } else if crate::text::str_equal(token, "%k") {
            arguments.push(path.clone());
            assert(arguments@.map_values(|x: String| x@) =~= before + seq![path@]);
        } else {
            match expand_token(token, name, path.as_str()) {
                Ok(e) => {
                    arguments.push(e);
                    assert(arguments@.map_values(|x: String| x@) =~= before + seq![e@]);
                },
                Err(e) => {
                    proof {
                        assert(token_args(ts[k as int], name@, path@, icon_v) == Err::<Seq<Seq<char>>, Seq<char>>(e@));
                        assert(all_args(ts.take(k + 1), name@, path@, icon_v) == Err::<Seq<Seq<char>>, Seq<char>>(e@));
                        lemma_all_args_error_prefix(ts, name@, path@, icon_v, k + 1);
                    }
                    return Err(e);
                },
            }
        }
        k += 1;
    }
    assert(ts.take(k as int) =~= ts);
    if arguments.len() > 0 {
        let first = chars_of(arguments[0].as_str());
        if first.len() > 0 && crate::text::position_of(&first, '=').is_none() {
            proof {
                crate::text::lemma_find_char_none(first@, '=');
            }
            return Ok(arguments);
        }
        proof {
            if first@.len() > 0 {
                crate::text::lemma_find_char_some(first@, '=');
            }
        }
    }
    Err(owned("Ejecutable .desktop inválido"))
}

/// Whether some piece of `value` split at `;` is one of `desktops`.
pub open spec fn listed(value: Seq<char>, desktops: Seq<Seq<char>>) -> bool {
    exists|i: int, j: int| 0 <= i < split_spec(value, ';').len() && 0 <= j < desktops.len()
        && split_spec(value, ';')[i] == desktops[j]
}

/// Whether an entry is listed in the current desktops: an application
/// that is not hidden, can be started, and is allowed by `OnlyShowIn` and
/// `NotShowIn`.
pub open spec fn visible_spec(f: Map<Seq<char>, Seq<char>>, desktops: Seq<Seq<char>>) -> bool {
    &&& field(f, "Type"@) == Some("Application"@)
    &&& !flag(f, "Hidden"@)
    &&& !flag(f, "NoDisplay"@)
    &&& (f.contains_key("Exec"@) || flag(f, "DBusActivatable"@))
    &&& (f.contains_key("OnlyShowIn"@) ==> listed(f["OnlyShowIn"@], desktops))
    &&& (f.contains_key("NotShowIn"@) ==> !listed(f["NotShowIn"@], desktops))
}

fn entry_flag(entry: &DesktopEntry, key: &str) -> (r: bool)
    ensures
        r == flag(desktop_fields(*entry), key@),
{
    match entry_field(entry, key) {
        Some(v) => crate::text::str_equal(v.as_str(), "true"),
        None => false,
    }
}

fn is_listed(value: &str, desktops: &Vec<String>) -> (r: bool)
    ensures
        r == listed(value@, desktops@.map_values(|d: String| d@)),
{
    let pieces = split_chars(&chars_of(value), ';');
    let ghost p = pieces@.map_values(|x: Vec<char>| x@);
    let ghost d = desktops@.map_values(|x: String| x@);
    let mut i: usize = 0;
    while i < pieces.len()
        invariant
            p == pieces@.map_values(|x: Vec<char>| x@),
            p == split_spec(value@, ';'),
            d == desktops@.map_values(|x: String| x@),
            0 <= i <= pieces@.len(),
            forall|a: int, b: int| 0 <= a < i && 0 <= b < d.len() ==> p[a] != d[b],
        decreases pieces@.len() - i,
    {
        let mut j: usize = 0;
        while j < desktops.len()
            invariant
                p == pieces@.map_values(|x: Vec<char>| x@),
                p == split_spec(value@, ';'),
                d == desktops@.map_values(|x: String| x@),
                0 <= i < pieces@.len(),
                0 <= j <= desktops@.len(),
                forall|a: int, b: int| 0 <= a < i && 0 <= b < d.len() ==> p[a] != d[b],
                forall|b: int| 0 <= b < j ==> p[i as int] != d[b],
            decreases desktops@.len() - j,
        {
            if chars_equal(&pieces[i], &chars_of(desktops[j].as_str())) {
                assert(p[i as int] == d[j as int]);
                assert(split_spec(value@, ';')[i as int] == desktops@.map_values(|x: String| x@)[j as int]);
                return true;
            }
            j += 1;
        }
        i += 1;
    }
    false
}

/// Whether an entry is listed (see `visible_spec`); `desktops` are the
/// names of the current desktop environment.
pub fn visible(entry: &DesktopEntry, desktops: &Vec<String>) -> (r: bool)
    ensures
        r == visible_spec(desktop_fields(*entry), desktops@.map_values(|d: String| d@)),
{
    let is_application = match entry_field(entry, "Type") {
        Some(t) => crate::text::str_equal(t.as_str(), "Application"),
        None => false,
    };
    if !is_application || entry_flag(entry, "Hidden") || entry_flag(entry, "NoDisplay") {
        return false;
    }
    if entry_field(entry, "Exec").is_none() && !entry_flag(entry, "DBusActivatable") {
        return false;
    }
    if let Some(only) = entry_field(entry, "OnlyShowIn") {
        if !is_listed(only.as_str(), desktops) {
            return false;
        }
    }
    if let Some(excluded) = entry_field(entry, "NotShowIn") {
        if is_listed(excluded.as_str(), desktops) {
            return false;
        }
    }
    true
}

/// The value `translations` gives for the first of `locales` it holds,
/// trying each locale as written and then its language, the part before
/// its first `_`.
pub open spec fn translated(translations: Map<Seq<char>, Seq<char>>, locales: Seq<Seq<char>>) -> Option<Seq<char>>
    decreases locales.len(),
{
    if locales.len() == 0 {
        None
    } else {
        let locale = locales[0];
        let pieces = split_spec(locale, '_');
        if translations.contains_key(locale) {
            Some(translations[locale])
        } else if pieces.len() > 1 && translations.contains_key(pieces[0]) {
            Some(translations[pieces[0]])
        } else {
            translated(translations, locales.drop_first())
        }
    }
}

/// The localized value of `key`: its translation for the first of
/// `locales` the entry has one for, else its unlocalized value; `None`
/// when the entry has no such key.
pub open spec fn localized_value(entry: DesktopEntry, key: Seq<char>, locales: Seq<Seq<char>>) -> Option<Seq<char>> {
    if desktop_fields(entry).contains_key(key) {
        match translated(desktop_translations(entry)[key], locales) {
            Some(v) => Some(v),
            None => Some(desktop_fields(entry)[key]),
        }
    } else {
        None
    }
}

/// The localized `Keywords` value split at `;`.
pub open spec fn localized_keywords(entry: DesktopEntry, locales: Seq<Seq<char>>) -> Option<Seq<Seq<char>>> {
    match localized_value(entry, "Keywords"@, locales) {
        Some(v) => Some(split_spec(v, ';')),
        None => None,
    }
}

/// The views of a list of strings.
pub open spec fn string_views(v: Seq<String>) -> Seq<Seq<char>> {
    v.map_values(|s: String| s@)
}

/// `DesktopEntry::desktop_entry_localized(key, locales)`, built without
/// the crate's `gettext` feature: the value of `key` in the `[Desktop
/// Entry]` group for the first locale the entry translates it for (each
/// locale as written, then its part before `_`), else its unlocalized
/// value; `None` when the group has no such key.
#[verifier::external_body]
pub(crate) fn entry_localized(entry: &DesktopEntry, key: &str, locales: &Vec<String>) -> (r: Option<String>)
    ensures
        match r {
            Some(v) => desktop_fields(*entry).contains_key(key@) && v@ == match translated(
                desktop_translations(*entry)[key@],
                string_views(locales@),
            ) {
                Some(t) => t,
                None => desktop_fields(*entry)[key@],
            },
            None => !desktop_fields(*entry).contains_key(key@),
        },
{
    entry.desktop_entry_localized(key, locales).map(|value| value.into_owned())
}

/// `DesktopEntry::keywords(locales)`, built without the crate's `gettext`
/// feature: the `Keywords` value chosen as by `entry_localized`, split at
/// every `;`; `None` when the entry has no keywords.
#[verifier::external_body]
pub(crate) fn entry_keywords(entry: &DesktopEntry, locales: &Vec<String>) -> (r: Option<Vec<String>>)
    ensures
        match r {
            Some(v) => desktop_fields(*entry).contains_key("Keywords"@) && string_views(v@) == split_spec(
                match translated(desktop_translations(*entry)["Keywords"@], string_views(locales@)) {
                    Some(t) => t,
                    None => desktop_fields(*entry)["Keywords"@],
                },
                ';',
            ),
            None => !desktop_fields(*entry).contains_key("Keywords"@),
        },
{
    entry.keywords(locales).map(|words| words.into_iter().map(|word| word.into_owned()).collect())
}

/// `words` joined by `sep`.
pub open spec fn join(words: Seq<Seq<char>>, sep: Seq<char>) -> Seq<char>
    decreases words.len(),
{
    if words.len() == 0 {
        Seq::empty()
    } else if words.len() == 1 {
        words[0]
    } else {
        join(words.drop_last(), sep) + sep + words.last()
    }
}

/// Joins strings with a separator.
pub fn join_strings(words: &Vec<String>, sep: &str) -> (r: String)
    ensures
        r@ == join(words@.map_values(|w: String| w@), sep@),
{
    let ghost wv = words@.map_values(|w: String| w@);
    let mut out = String::new();
    let mut i: usize = 0;
    assert(wv.take(0) =~= Seq::<Seq<char>>::empty());
    while i < words.len()
        invariant
            0 <= i <= words@.len(),
            wv == words@.map_values(|w: String| w@),
            out@ == join(wv.take(i as int), sep@),
        decreases words@.len() - i,
    {
        assert(wv.take(i + 1).drop_last() =~= wv.take(i as int));
        if i > 0 {
            crate::text::push_str(&mut out, sep);
        }
        crate::text::push_str(&mut out, words[i].as_str());
        proof {
            if i == 0 {
                assert(out@ =~= wv.take(1)[0]);
            }
        }
        i += 1;
    }
    assert(wv.take(i as int) =~= wv);
    out
}

/// The text searched for an application: its name, its identifier, its
/// generic name, its keywords and its command line, separated by spaces.
pub open spec fn search_text_spec(
    name: Seq<char>,
    id: Seq<char>,
    generic: Option<Seq<char>>,
    keywords: Option<Seq<Seq<char>>>,
    exec: Option<Seq<char>>,
) -> Seq<char> {
    name + " "@ + id + " "@ + (match generic {
        Some(g) => g,
        None => Seq::empty(),
    }) + " "@ + (match keywords {
        Some(k) => join(k, " "@),
        None => Seq::empty(),
    }) + " "@ + (match exec {
        Some(e) => e,
        None => Seq::empty(),
    })
}

/// The plain view of an optional string.
pub open spec fn opt_text(o: Option<String>) -> Option<Seq<char>> {
    match o {
        Some(s) => Some(s@),
        None => None,
    }
}

/// The plain view of optional strings.
pub open spec fn opt_texts(o: Option<Vec<String>>) -> Option<Seq<Seq<char>>> {
    match o {
        Some(v) => Some(v@.map_values(|w: String| w@)),
        None => None,
    }
}

/// Builds the search text of an application.
pub fn search_text(
    name: &str,
    id: &str,
    generic: &Option<String>,
    keywords: &Option<Vec<String>>,
    exec: &Option<String>,
) -> (r: String)
    ensures
        r@ == search_text_spec(name@, id@, opt_text(*generic), opt_texts(*keywords), opt_text(*exec)),
{
    let mut s = owned(name);
    crate::text::push_str(&mut s, " ");
    crate::text::push_str(&mut s, id);
    crate::text::push_str(&mut s, " ");
    match generic {
        Some(g) => crate::text::push_str(&mut s, g.as_str()),
        None => {},
    }
    crate::text::push_str(&mut s, " ");
    match keywords {
        Some(k) => {
            let joined = join_strings(k, " ");
            crate::text::push_str(&mut s, joined.as_str());
        },
        None => {},
    }
    crate::text::push_str(&mut s, " ");
    match exec {
        Some(e) => crate::text::push_str(&mut s, e.as_str()),
        None => {},
    }
    assert(s@ =~= search_text_spec(name@, id@, opt_text(*generic), opt_texts(*keywords), opt_text(*exec)));
    s
}

/// The item an installed entry becomes under `id` with the name `name`:
/// its search text is made of the name, the identifier, the generic name,
/// the keywords and the command line.
pub open spec fn scanned_item(
    a: Application,
    id: Seq<char>,
    entry: DesktopEntry,
    name: Seq<char>,
    generic: Option<Seq<char>>,
    keywords: Option<Seq<Seq<char>>>,
) -> bool {
    &&& a.id@ == id
    &&& a.name@ == name
    &&& a.search_text@ == search_text_spec(name, id, generic, keywords, field(desktop_fields(entry), "Exec"@))
    &&& a.entry == entry
    &&& !a.on_desktop
    &&& a.file is None
}

/// The application an installed entry becomes, from the localized values
/// read from it: none when it has no name or only whitespace; else listed
/// under `id` with that name and its search text.
pub fn scanned_application(
    id: String,
    entry: DesktopEntry,
    name: Option<String>,
    generic: Option<String>,
    keywords: Option<Vec<String>>,
) -> (r: Option<Application>)
    ensures
        match name {
            Some(n) => if crate::text::trim(n@).len() > 0 {
                r matches Some(a) && scanned_item(a, id@, entry, n@, opt_text(generic), opt_texts(keywords))
            } else {
                r is None
            },
            None => r is None,
        },
{
    let name = match name {
        Some(n) => n,
        None => return None,
    };
    let trimmed = crate::text::trim_string(name.as_str());
    if trimmed.as_str().is_empty() {
        return None;
    }
    let exec = entry_field(&entry, "Exec");
    let text = search_text(name.as_str(), id.as_str(), &generic, &keywords, &exec);
    Some(Application { id, name, search_text: text, entry, on_desktop: false, file: None })
}

fn contains_string(items: &Vec<String>, item: &str) -> (r: bool)
    ensures
        r == items@.map_values(|s: String| s@).contains(item@),
{
    let ghost v = items@.map_values(|s: String| s@);
    let mut i: usize = 0;
    while i < items.len()
        invariant
            0 <= i <= items@.len(),
            v == items@.map_values(|s: String| s@),
            forall|k: int| 0 <= k < i ==> v[k] != item@,
        decreases items@.len() - i,
    {
        if crate::text::str_equal(items[i].as_str(), item) {
            assert(v[i as int] == item@);
            return true;
        }
        i += 1;
    }
    false
}

impl Catalog {
    /// Takes in an entry found under `id` while scanning the application
    /// folders: an identifier already seen is ignored (the first folder
    /// wins); an entry that could not be read counts as skipped; one that
    /// is not listed here, or whose `TryExec` program is missing
    /// (`try_exec_found` false), is left out; one without a name counts as
    /// skipped; any other joins the catalog.
    pub fn accept_scanned(
        &mut self,
        seen: &mut Vec<String>,
        id: String,
        parsed: Option<DesktopEntry>,
        try_exec_found: bool,
        locales: &Vec<String>,
        desktops: &Vec<String>,
    )
        requires
            old(self).skipped < usize::MAX,
        ensures
            old(seen)@.map_values(|s: String| s@).contains(id@) ==> final(seen)@ == old(seen)@
                && final(self).apps@ == old(self).apps@ && final(self).skipped == old(self).skipped,
            !old(seen)@.map_values(|s: String| s@).contains(id@) ==> {
                &&& final(seen)@.map_values(|s: String| s@) == old(seen)@.map_values(|s: String| s@).push(id@)
                &&& match parsed {
                    None => final(self).apps@ == old(self).apps@ && final(self).skipped
                        == old(self).skipped + 1,
                    Some(e) => if !visible_spec(desktop_fields(e), desktops@.map_values(|d: String| d@))
                        || !try_exec_found {
                        final(self).apps@ == old(self).apps@ && final(self).skipped == old(self).skipped
                    } else {
                        let lv = string_views(locales@);
                        match localized_value(e, "Name"@, lv) {
                            Some(n) => if crate::text::trim(n).len() > 0 {
                                &&& final(self).skipped == old(self).skipped
                                &&& final(self).apps@.len() == old(self).apps@.len() + 1
                                &&& final(self).apps@.take(old(self).apps@.len() as int) == old(self).apps@
                                &&& scanned_item(
                                    final(self).apps@.last(),
                                    id@,
                                    e,
                                    n,
                                    localized_value(e, "GenericName"@, lv),
                                    localized_keywords(e, lv),
                                )
                            } else {
                                final(self).apps@ == old(self).apps@ && final(self).skipped == old(self).skipped + 1
                            },
                            None => final(self).apps@ == old(self).apps@ && final(self).skipped == old(self).skipped
                                + 1,
                        }
                    },
                }
            },
    {
        if contains_string(seen, id.as_str()) {
            return;
        }
        let ghost before = seen@.map_values(|s: String| s@);
        seen.push(id.clone());
        assert(seen@.map_values(|s: String| s@) =~= before.push(id@));
        let entry = match parsed {
            Some(e) => e,
            None => {
                self.skipped = self.skipped + 1;
                return;
            },
        };
        if !visible(&entry, desktops) || !try_exec_found {
            return;
        }
        let name = entry_localized(&entry, "Name", locales);
        let generic = entry_localized(&entry, "GenericName", locales);
        let keywords = entry_keywords(&entry, locales);
        match scanned_application(id, entry, name, generic, keywords) {
            Some(app) => {
                let ghost old_apps = self.apps@;
                self.apps.push(app);
                assert(self.apps@.take(old_apps.len() as int) =~= old_apps);
            },
            None => {
                self.skipped = self.skipped + 1;
            },
        }
    }
}

/// The position of the last `.` in a file name.
pub open spec fn last_dot(name: Seq<u8>) -> Option<int>
    decreases name.len(),
{
    if name.len() == 0 {
        None
    } else if name.last() == 0x2e {
        Some(name.len() - 1)
    } else {
        last_dot(name.drop_last())
    }
}

/// `Path::extension`: what follows the last `.` of the file name, unless
/// the name has no `.` or starts with its only one.
pub open spec fn extension(path: Seq<u8>) -> Option<Seq<u8>> {
    match file_name(path) {
        None => None,
        Some(n) => match last_dot(n) {
            Some(i) => if i > 0 {
                Some(n.skip(i + 1))
            } else {
                None
            },
            None => None,
        },
    }
}

/// `Path::file_stem` of a file name: what precedes its last `.`, or the
/// whole name when it has no `.` or starts with its only one.
pub open spec fn stem(name: Seq<u8>) -> Seq<u8> {
    match last_dot(name) {
        Some(i) => if i > 0 {
            name.take(i)
        } else {
            name
        },
        None => name,
    }
}

fn find_last_dot(name: &[u8]) -> (r: Option<usize>)
    ensures
        match r {
            Some(i) => last_dot(name@) == Some(i as int) && i < name@.len(),
            None => last_dot(name@) is None,
        },
{
    let mut i: usize = name.len();
    assert(name@.take(i as int) =~= name@);
    while i > 0
        invariant
            0 <= i <= name@.len(),
            last_dot(name@) == last_dot(name@.take(i as int)),
        decreases i,
    {
        assert(name@.take(i as int).drop_last() =~= name@.take(i - 1));
        if name[i - 1] == 0x2e {
            return Some(i - 1);
        }
        i -= 1;
    }
    None
}

/// ASCII letters in lowercase, other bytes as they are.
pub open spec fn ascii_lower(b: Seq<u8>) -> Seq<u8> {
    b.map_values(|c: u8| if 0x41 <= c && c <= 0x5a { (c + 32) as u8 } else { c })
}

/// The kind of icon shown for a file of the desktop folder, by its
/// extension in any case: folders, images, PDF, archives, audio, video,
/// and text for the rest.
pub open spec fn file_icon_spec(path: Seq<u8>, is_dir: bool) -> Seq<char> {
    let e = match extension(path) {
        Some(e) => ascii_lower(e),
        None => Seq::empty(),
    };
    if is_dir {
        "folder"@
    } else if e == seq![0x70u8, 0x6eu8, 0x67u8] || e == seq![0x6au8, 0x70u8, 0x67u8] || e == seq![
        0x6au8,
        0x70u8,
        0x65u8,
        0x67u8,
    ] || e == seq![0x77u8, 0x65u8, 0x62u8, 0x70u8] || e == seq![0x67u8, 0x69u8, 0x66u8] || e
        == seq![0x73u8, 0x76u8, 0x67u8] {
        "image-x-generic"@
    } else if e == seq![0x70u8, 0x64u8, 0x66u8] {
        "application-pdf"@
    } else if e == seq![0x7au8, 0x69u8, 0x70u8] || e == seq![0x67u8, 0x7au8] || e == seq![
        0x78u8,
        0x7au8,
    ] || e == seq![0x37u8, 0x7au8] || e == seq![0x74u8, 0x61u8, 0x72u8] {
        "package-x-generic"@
    } else if e == seq![0x6du8, 0x70u8, 0x33u8] || e == seq![0x6fu8, 0x67u8, 0x67u8] || e == seq![
        0x66u8,
        0x6cu8,
        0x61u8,
        0x63u8,
    ] || e == seq![0x77u8, 0x61u8, 0x76u8] {
        "audio-x-generic"@
    } else if e == seq![0x6du8, 0x70u8, 0x34u8] || e == seq![0x77u8, 0x65u8, 0x62u8, 0x6du8] || e
        == seq![0x6du8, 0x6bu8, 0x76u8] {
        "video-x-generic"@
    } else {
        "text-x-generic"@
    }
}

fn lower_bytes(b: &[u8]) -> (r: Vec<u8>)
    ensures
        r@ == ascii_lower(b@),
{
    let mut out: Vec<u8> = Vec::new();
    let mut i: usize = 0;
    while i < b.len()
        invariant
            0 <= i <= b@.len(),
            out@ == ascii_lower(b@.take(i as int)),
        decreases b@.len() - i,
    {
        let c = b[i];
        out.push(if 0x41 <= c && c <= 0x5a { c + 32 } else { c });
        assert(ascii_lower(b@.take(i + 1)) =~= ascii_lower(b@.take(i as int)).push(
            if 0x41 <= c && c <= 0x5a { (c + 32) as u8 } else { c },
        ));
        i += 1;
    }
    assert(b@.take(i as int) =~= b@);
    out
}

fn is_word(e: &Vec<u8>, word: &[u8]) -> (r: bool)
    ensures
        r == (e@ == word@),
{
    if e.len() != word.len() {
        return false;
    }
    let mut i: usize = 0;
    while i < e.len()
        invariant
            e@.len() == word@.len(),
            0 <= i <= e@.len(),
            forall|k: int| 0 <= k < i ==> e@[k] == word@[k],
        decreases e@.len() - i,
    {
        if e[i] != word[i] {
            return false;
        }
        i += 1;
    }
    assert(e@ =~= word@);
    true
}

/// Whether the file at `path` is a launcher: its extension is `desktop`.
pub fn is_launcher_path(path: &[u8]) -> (r: bool)
    ensures
        r == (extension(path@) == Some(seq![0x64u8, 0x65, 0x73, 0x6b, 0x74, 0x6f, 0x70])),
{
    let word: [u8; 7] = [0x64, 0x65, 0x73, 0x6b, 0x74, 0x6f, 0x70];
    match crate::storage::path_file_name(path) {
        Some(n) => match find_last_dot(n.as_slice()) {
            Some(i) => if i > 0 {
                assert(i < n.len());
                let rest = vstd::slice::slice_subrange(n.as_slice(), i + 1, n.len());
                assert(rest@ =~= n@.skip(i + 1));
                let same = is_word(&vstd::slice::slice_to_vec(rest), &word);
                assert(word@ =~= seq![0x64u8, 0x65, 0x73, 0x6b, 0x74, 0x6f, 0x70]);
                same
            } else {
                false
            },
            None => false,
        },
        None => false,
    }
}

/// The icon for a file of the desktop folder at `path`; `is_dir` tells a
/// folder.
pub fn file_icon(path: &[u8], is_dir: bool) -> (r: &'static str)
    ensures
        r@ == file_icon_spec(path@, is_dir),
{
    if is_dir {
        return "folder";
    }
    let e = match crate::storage::path_file_name(path) {
        Some(n) => match find_last_dot(n.as_slice()) {
            Some(i) => if i > 0 {
                assert(i < n.len());
                let rest = vstd::slice::slice_subrange(n.as_slice(), i + 1, n.len());
                assert(rest@ =~= n@.skip(i + 1));
                lower_bytes(rest)
            } else {
                Vec::new()
            },
            None => Vec::new(),
        },
        None => Vec::new(),
    };
    assert(e@ == match extension(path@) {
        Some(x) => ascii_lower(x),
        None => Seq::empty(),
    }) by {
        if extension(path@) is None {
            assert(e@ =~= Seq::<u8>::empty());
        }
    }
    let png: [u8; 3] = [0x70, 0x6e, 0x67];
    let jpg: [u8; 3] = [0x6a, 0x70, 0x67];
    let jpeg: [u8; 4] = [0x6a, 0x70, 0x65, 0x67];
    let webp: [u8; 4] = [0x77, 0x65, 0x62, 0x70];
    let gif: [u8; 3] = [0x67, 0x69, 0x66];
    let svg: [u8; 3] = [0x73, 0x76, 0x67];
    let pdf: [u8; 3] = [0x70, 0x64, 0x66];
    let zip: [u8; 3] = [0x7a, 0x69, 0x70];
    let gz: [u8; 2] = [0x67, 0x7a];
    let xz: [u8; 2] = [0x78, 0x7a];
    let sz: [u8; 2] = [0x37, 0x7a];
    let tar: [u8; 3] = [0x74, 0x61, 0x72];
    let mp3: [u8; 3] = [0x6d, 0x70, 0x33];
    let ogg: [u8; 3] = [0x6f, 0x67, 0x67];
    let flac: [u8; 4] = [0x66, 0x6c, 0x61, 0x63];
    let wav: [u8; 3] = [0x77, 0x61, 0x76];
    let mp4: [u8; 3] = [0x6d, 0x70, 0x34];
    let webm: [u8; 4] = [0x77, 0x65, 0x62, 0x6d];
    let mkv: [u8; 3] = [0x6d, 0x6b, 0x76];
    assert(png@ =~= seq![0x70u8, 0x6eu8, 0x67u8]);
    assert(jpg@ =~= seq![0x6au8, 0x70u8, 0x67u8]);
    assert(jpeg@ =~= seq![0x6au8, 0x70u8, 0x65u8, 0x67u8]);
    assert(webp@ =~= seq![0x77u8, 0x65u8, 0x62u8, 0x70u8]);
    assert(gif@ =~= seq![0x67u8, 0x69u8, 0x66u8]);
    assert(svg@ =~= seq![0x73u8, 0x76u8, 0x67u8]);
    assert(pdf@ =~= seq![0x70u8, 0x64u8, 0x66u8]);
    assert(zip@ =~= seq![0x7au8, 0x69u8, 0x70u8]);
    assert(gz@ =~= seq![0x67u8, 0x7au8]);
    assert(xz@ =~= seq![0x78u8, 0x7au8]);
    assert(sz@ =~= seq![0x37u8, 0x7au8]);
    assert(tar@ =~= seq![0x74u8, 0x61u8, 0x72u8]);
    assert(mp3@ =~= seq![0x6du8, 0x70u8, 0x33u8]);
    assert(ogg@ =~= seq![0x6fu8, 0x67u8, 0x67u8]);
    assert(flac@ =~= seq![0x66u8, 0x6cu8, 0x61u8, 0x63u8]);
    assert(wav@ =~= seq![0x77u8, 0x61u8, 0x76u8]);
    assert(mp4@ =~= seq![0x6du8, 0x70u8, 0x34u8]);
    assert(webm@ =~= seq![0x77u8, 0x65u8, 0x62u8, 0x6du8]);
    assert(mkv@ =~= seq![0x6du8, 0x6bu8, 0x76u8]);
    if is_word(&e, &png) || is_word(&e, &jpg) || is_word(&e, &jpeg) || is_word(&e, &webp)
        || is_word(&e, &gif) || is_word(&e, &svg) {
        "image-x-generic"
    } else if is_word(&e, &pdf) {
        "application-pdf"
    } else if is_word(&e, &zip) || is_word(&e, &gz) || is_word(&e, &xz) || is_word(&e, &sz)
        || is_word(&e, &tar) {
        "package-x-generic"
    } else if is_word(&e, &mp3) || is_word(&e, &ogg) || is_word(&e, &flac) || is_word(&e, &wav) {
        "audio-x-generic"
    } else if is_word(&e, &mp4) || is_word(&e, &webm) || is_word(&e, &mkv) {
        "video-x-generic"
    } else {
        "text-x-generic"
    }
}

/// The name shown for a file of the desktop folder: a folder's whole name,
/// a file's name without its extension.
pub fn file_item_name(file_name: &[u8], is_dir: bool) -> (r: String)
    ensures
        r@ == crate::text::utf8_lossy(if is_dir { file_name@ } else { stem(file_name@) }),
{
    if is_dir {
        return crate::text::lossy(file_name);
    }
    match find_last_dot(file_name) {
        Some(i) => if i > 0 {
            let s = vstd::slice::slice_subrange(file_name, 0, i);
            assert(s@ =~= file_name@.take(i as int));
            crate::text::lossy(s)
        } else {
            crate::text::lossy(file_name)
        },
        None => crate::text::lossy(file_name),
    }
}

/// The identifier of a file of the desktop folder: `file:` and its path.
pub fn file_item_id(path: &[u8]) -> (r: String)
    ensures
        r@ == "file:"@ + crate::text::utf8_lossy(path@),
{
    let shown = crate::text::lossy(path);
    concat2("file:", shown.as_str())
}

/// The identifier of an entry found at `path` under the folder `root`: the
/// components of its path below the folder (its whole path when it is not
/// below it), joined by `-`.
pub open spec fn desktop_id_spec(root: Seq<u8>, path: Seq<u8>) -> Seq<char> {
    let p = path_components(path);
    let b = path_components(root);
    let rest = if b.len() <= p.len() && p.take(b.len() as int) == b {
        p.skip(b.len() as int)
    } else {
        p
    };
    join(rest.map_values(|c: Seq<u8>| crate::text::utf8_lossy(c)), "-"@)
}

/// The identifier of the entry at `path` found under `root`.
pub fn desktop_id(root: &[u8], path: &[u8]) -> (r: String)
    ensures
        r@ == desktop_id_spec(root@, path@),
{
    let p = components(path);
    let b = components(root);
    let ghost pv = p@.map_values(|c: Vec<u8>| c@);
    let ghost bv = b@.map_values(|c: Vec<u8>| c@);
    let below = crate::storage::starts_with_path(path, root);
    let start: usize = if below { b.len() } else { 0 };
    let ghost rest = if below { pv.skip(bv.len() as int) } else { pv };
    assert(rest =~= pv.skip(start as int));
    let mut names: Vec<String> = Vec::new();
    let mut i: usize = start;
    while i < p.len()
        invariant
            start <= i <= p@.len(),
            pv == p@.map_values(|c: Vec<u8>| c@),
            rest == pv.skip(start as int),
            names@.map_values(|w: String| w@) == rest.take(i - start).map_values(
                |c: Seq<u8>| crate::text::utf8_lossy(c),
            ),
        decreases p@.len() - i,
    {
        let ghost before = names@.map_values(|w: String| w@);
        let name = crate::text::lossy(p[i].as_slice());
        assert(name@ == crate::text::utf8_lossy(pv[i as int]));
        names.push(name);
        assert(names@.map_values(|w: String| w@) =~= before.push(crate::text::utf8_lossy(pv[i as int])));
        assert(rest.take(i + 1 - start) =~= rest.take(i - start).push(pv[i as int]));
        assert(names@.map_values(|w: String| w@) =~= rest.take(i + 1 - start).map_values(
            |c: Seq<u8>| crate::text::utf8_lossy(c),
        ));
        i += 1;
    }
    assert(rest.take(i - start) =~= rest);
    join_strings(&names, "-")
}

/// Whether `a` comes before `b` in the order of strings: character by
/// character by code point, a prefix first.
pub open spec fn text_less(a: Seq<char>, b: Seq<char>) -> bool
    decreases a.len(),
{
    if a.len() == 0 {
        b.len() > 0
    } else if b.len() == 0 {
        false
    } else if a[0] != b[0] {
        a[0] < b[0]
    } else {
        text_less(a.drop_first(), b.drop_first())
    }
}

pub proof fn lemma_text_less_irreflexive(a: Seq<char>)
    ensures
        !text_less(a, a),
    decreases a.len(),
{
    if a.len() > 0 {
        lemma_text_less_irreflexive(a.drop_first());
    }
}

pub proof fn lemma_text_less_transitive(a: Seq<char>, b: Seq<char>, c: Seq<char>)
    requires
        text_less(a, b),
        text_less(b, c),
    ensures
        text_less(a, c),
    decreases a.len(),
{
    if a.len() > 0 && b.len() > 0 && c.len() > 0 {
        if a[0] == b[0] && b[0] == c[0] {
            lemma_text_less_transitive(a.drop_first(), b.drop_first(), c.drop_first());
        }
    }
}

/// The order of the catalog: by lowercase name, then by identifier.
pub open spec fn key_less(a: (Seq<char>, Seq<char>), b: (Seq<char>, Seq<char>)) -> bool {
    text_less(a.0, b.0) || (a.0 == b.0 && text_less(a.1, b.1))
}

/// The key that orders an application in the catalog.
pub open spec fn sort_key(a: Application) -> (Seq<char>, Seq<char>) {
    (crate::text::lowercase(a.name@), a.id@)
}

proof fn lemma_key_less_transitive(a: (Seq<char>, Seq<char>), b: (Seq<char>, Seq<char>), c: (Seq<char>, Seq<char>))
    requires
        key_less(a, b),
        key_less(b, c),
    ensures
        key_less(a, c),
{
    if text_less(a.0, b.0) && text_less(b.0, c.0) {
        lemma_text_less_transitive(a.0, b.0, c.0);
    } else if a.0 == b.0 && b.0 == c.0 {
        lemma_text_less_transitive(a.1, b.1, c.1);
    }
}

proof fn lemma_key_less_irreflexive(a: (Seq<char>, Seq<char>))
    ensures
        !key_less(a, a),
{
    lemma_text_less_irreflexive(a.0);
    lemma_text_less_irreflexive(a.1);
}

fn chars_less(a: &Vec<char>, b: &Vec<char>) -> (r: bool)
    ensures
        r == text_less(a@, b@),
{
    let mut i: usize = 0;
    assert(a@.skip(0) =~= a@);
    assert(b@.skip(0) =~= b@);
    while i < a.len() && i < b.len() && a[i] == b[i]
        invariant
            0 <= i <= a@.len(),
            i <= b@.len(),
            text_less(a@, b@) == text_less(a@.skip(i as int), b@.skip(i as int)),
        decreases a@.len() - i,
    {
        assert(a@.skip(i as int).drop_first() =~= a@.skip(i + 1));
        assert(b@.skip(i as int).drop_first() =~= b@.skip(i + 1));
        i += 1;
    }
    if i == a.len() {
        i < b.len()
    } else if i == b.len() {
        false
    } else {
        a[i] < b[i]
    }
}

fn key_is_less(a: &(Vec<char>, Vec<char>), b: &(Vec<char>, Vec<char>)) -> (r: bool)
    ensures
        r == key_less((a.0@, a.1@), (b.0@, b.1@)),
{
    chars_less(&a.0, &b.0) || (chars_equal(&a.0, &b.0) && chars_less(&a.1, &b.1))
}

/// The order of applications in the catalog, non-decreasing.
pub open spec fn catalog_sorted(apps: Seq<Application>) -> bool {
    forall|i: int, j: int| 0 <= i < j < apps.len() ==> !key_less(sort_key(apps[j]), sort_key(apps[i]))
}

/// Sorts the catalog by lowercase name, then identifier.
pub fn sort_catalog(apps: &mut Vec<Application>)
    ensures
        final(apps)@.to_multiset() == old(apps)@.to_multiset(),
        catalog_sorted(final(apps)@),
{
    let n = apps.len();
    let mut keys: Vec<(Vec<char>, Vec<char>)> = Vec::new();
    let mut k: usize = 0;
    while k < n
        invariant
            n == apps@.len(),
            0 <= k <= n,
            keys@.len() == k,
            forall|q: int| 0 <= q < k ==> (#[trigger] keys@[q].0@, keys@[q].1@) == sort_key(apps@[q]),
        decreases n - k,
    {
        let lower = crate::text::to_lowercase(apps[k].name.as_str());
        keys.push((chars_of(lower.as_str()), chars_of(apps[k].id.as_str())));
        k += 1;
    }
    let ghost original = apps@;
    let mut i: usize = 1;
    if n == 0 {
        return;
    }
    while i < n
        invariant
            n == apps@.len(),
            keys@.len() == n,
            1 <= i <= n,
            forall|q: int| 0 <= q < n ==> (#[trigger] keys@[q].0@, keys@[q].1@) == sort_key(apps@[q]),
            apps@.to_multiset() == original.to_multiset(),
            forall|a: int, b: int| 0 <= a < b < i ==> !key_less(sort_key(apps@[b]), sort_key(apps@[a])),
        decreases n - i,
    {
        let mut j: usize = 0;
        while j < i && !key_is_less(&keys[i], &keys[j])
            invariant
                n == apps@.len(),
                keys@.len() == n,
                0 <= j <= i < n,
                forall|q: int| 0 <= q < n ==> (#[trigger] keys@[q].0@, keys@[q].1@) == sort_key(apps@[q]),
                forall|q: int| 0 <= q < j ==> !key_less(sort_key(apps@[i as int]), #[trigger] sort_key(apps@[q])),
            decreases i - j,
        {
            j += 1;
        }
        let ghost before = apps@;
        let ghost x = apps@[i as int];
        let app = apps.remove(i);
        apps.insert(j, app);
        let key = keys.remove(i);
        keys.insert(j, key);
        proof {
            assert(apps@ =~= before.remove(i as int).insert(j as int, x));
            vstd::seq_lib::to_multiset_remove(before, i as int);
            vstd::seq_lib::to_multiset_insert(before.remove(i as int), j as int, x);
            assert(before.to_multiset().remove(x).insert(x) =~= before.to_multiset()) by {
                before.to_multiset_ensures();
                assert(before.contains(x));
            }
            assert forall|a: int, b: int| 0 <= a < b < i + 1 implies !key_less(sort_key(apps@[b]), sort_key(apps@[a])) by {
                if a < j && b < j {
                    assert(apps@[a] == before[a] && apps@[b] == before[b]);
                } else if a < j && b == j {
                    assert(apps@[a] == before[a]);
                    assert(apps@[b] == x);
                } else if a < j && b > j {
                    assert(apps@[a] == before[a] && apps@[b] == before[b - 1]);
                } else if a == j {
                    assert(apps@[a] == x && apps@[b] == before[b - 1]);
                    let kb = sort_key(before[b - 1]);
                    let kx = sort_key(x);
                    if key_less(kb, kx) {
                        assert(j < i);
                        let kj = sort_key(before[j as int]);
                        assert(key_less(kx, kj));
                        lemma_key_less_transitive(kb, kx, kj);
                        if b - 1 == j {
                            lemma_key_less_irreflexive(kj);
                        } else {
                            assert(!key_less(kb, kj));
                        }
                    }
                } else {
                    assert(apps@[a] == before[a - 1] && apps@[b] == before[b - 1]);
                }
            }
        }
        i += 1;
    }
}

/// The non-empty pieces of `s` between colons.
pub open spec fn colon_list(s: Seq<char>) -> Seq<Seq<char>> {
    split_spec(s, ':').filter(|p: Seq<char>| p.len() > 0)
}

fn colon_pieces(value: &Option<String>) -> (r: Vec<String>)
    ensures
        r@.map_values(|w: String| w@) == colon_list(match value {
            Some(v) => v@,
            None => Seq::empty(),
        }),
{
    let text = match value {
        Some(v) => chars_of(v.as_str()),
        None => Vec::new(),
    };
    let pieces = split_chars(&text, ':');
    let ghost pv = pieces@.map_values(|x: Vec<char>| x@);
    let mut out: Vec<String> = Vec::new();
    let mut i: usize = 0;
    while i < pieces.len()
        invariant
            0 <= i <= pieces@.len(),
            pv == pieces@.map_values(|x: Vec<char>| x@),
            pv == split_spec(text@, ':'),
            out@.map_values(|w: String| w@) == pv.take(i as int).filter(|p: Seq<char>| p.len() > 0),
        decreases pieces@.len() - i,
    {
        assert(pv.take(i + 1) =~= pv.take(i as int).push(pv[i as int]));
        proof {
            pv.take(i as int).lemma_filter_push(pv[i as int], |p: Seq<char>| p.len() > 0);
        }
        if pieces[i].len() > 0 {
            let ghost before = out@.map_values(|w: String| w@);
            out.push(string_of(pieces[i].as_slice()));
            assert(out@.map_values(|w: String| w@) =~= before.push(pv[i as int]));
        }
        i += 1;
    }
    assert(pv.take(i as int) =~= pv);
    proof {
        if value is None {
            assert(text@ =~= Seq::<char>::empty());
        }
    }
    out
}

/// The desktop environments named by `XDG_CURRENT_DESKTOP`.
pub fn current_desktops(value: &Option<String>) -> (r: Vec<String>)
    ensures
        r@.map_values(|w: String| w@) == colon_list(match value {
            Some(v) => v@,
            None => Seq::empty(),
        }),
{
    colon_pieces(value)
}

/// A locale without its encoding: what precedes its first `.`.
pub open spec fn before_dot(s: Seq<char>) -> Seq<char> {
    match crate::text::find_char(s, '.') {
        Some(i) => s.take(i),
        None => s,
    }
}

/// The language of a locale: what precedes its first `_`, if it has one.
pub open spec fn language_of(s: Seq<char>) -> Option<Seq<char>> {
    match crate::text::find_char(s, '_') {
        Some(i) => Some(s.take(i)),
        None => None,
    }
}

/// The languages of the locales that have one, in order.
pub open spec fn fallbacks(locales: Seq<Seq<char>>) -> Seq<Seq<char>>
    decreases locales.len(),
{
    if locales.len() == 0 {
        Seq::empty()
    } else {
        let r = fallbacks(locales.drop_last());
        match language_of(locales.last()) {
            Some(l) => r.push(l),
            None => r,
        }
    }
}

/// The value of the first of the variables that is set and not empty.
pub open spec fn first_set(values: Seq<Option<Seq<char>>>) -> Option<Seq<char>>
    decreases values.len(),
{
    if values.len() == 0 {
        None
    } else {
        match values[0] {
            Some(v) => if v.len() > 0 {
                Some(v)
            } else {
                first_set(values.drop_first())
            },
            None => first_set(values.drop_first()),
        }
    }
}

/// The locales that entries are translated for: those of `LANGUAGE`, then
/// that of the first of `LC_ALL`, `LC_MESSAGES` and `LANG` that is set
/// (without its encoding), then the language of each that names one.
pub open spec fn locales_spec(
    language: Option<Seq<char>>,
    lc_all: Option<Seq<char>>,
    lc_messages: Option<Seq<char>>,
    lang: Option<Seq<char>>,
) -> Seq<Seq<char>> {
    let listed = colon_list(match language {
        Some(v) => v,
        None => Seq::empty(),
    });
    let base = match first_set(seq![lc_all, lc_messages, lang]) {
        Some(v) => listed.push(before_dot(v)),
        None => listed,
    };
    base + fallbacks(base)
}

fn prefix_until(v: &Vec<char>, c: char) -> (r: Option<Vec<char>>)
    ensures
        match r {
            Some(p) => crate::text::find_char(v@, c) matches Some(i) && p@ == v@.take(i),
            None => crate::text::find_char(v@, c) is None,
        },
{
    match crate::text::position_of(v, c) {
        Some(i) => {
            let p = crate::text::slice_chars(v, 0, i);
            assert(p@ =~= v@.take(i as int));
            Some(p)
        },
        None => None,
    }
}

/// The locales for the values of `LANGUAGE`, `LC_ALL`, `LC_MESSAGES` and
/// `LANG`.
pub fn locales(
    language: &Option<String>,
    lc_all: &Option<String>,
    lc_messages: &Option<String>,
    lang: &Option<String>,
) -> (r: Vec<String>)
    ensures
        r@.map_values(|w: String| w@) == locales_spec(
            opt_text(*language),
            opt_text(*lc_all),
            opt_text(*lc_messages),
            opt_text(*lang),
        ),
{
    let mut out = colon_pieces(language);
    let ghost listed = out@.map_values(|w: String| w@);
    let ghost vals = seq![opt_text(*lc_all), opt_text(*lc_messages), opt_text(*lang)];
    let chosen: Option<&String> = if lc_all.is_some() && !lc_all.as_ref().unwrap().as_str().is_empty() {
        lc_all.as_ref()
    } else if lc_messages.is_some() && !lc_messages.as_ref().unwrap().as_str().is_empty() {
        lc_messages.as_ref()
    } else if lang.is_some() && !lang.as_ref().unwrap().as_str().is_empty() {
        lang.as_ref()
    } else {
        None
    };
    proof {
        assert(vals.drop_first() =~= seq![opt_text(*lc_messages), opt_text(*lang)]);
        assert(vals.drop_first().drop_first() =~= seq![opt_text(*lang)]);
        assert(vals.drop_first().drop_first().drop_first() =~= Seq::<Option<Seq<char>>>::empty());
        reveal_with_fuel(first_set, 4);
        assert(first_set(vals) == match chosen {
            Some(v) => Some(v@),
            None => None::<Seq<char>>,
        });
    }
    match chosen {
        Some(v) => {
            let chars = chars_of(v.as_str());
            let trimmed = match prefix_until(&chars, '.') {
                Some(p) => p,
                None => chars,
            };
            out.push(string_of(trimmed.as_slice()));
        },
        None => {},
    }
    let ghost base = out@.map_values(|w: String| w@);
    assert(base == match first_set(vals) {
        Some(v) => listed.push(before_dot(v)),
        None => listed,
    });
    let n = out.len();
    let mut i: usize = 0;
    assert(base.take(0) =~= Seq::<Seq<char>>::empty());
    while i < n
        invariant
            n == base.len(),
            0 <= i <= n,
            out@.len() >= n,
            out@.map_values(|w: String| w@) == base + fallbacks(base.take(i as int)),
        decreases n - i,
    {
        assert(base.take(i + 1).drop_last() =~= base.take(i as int));
        assert(out@[i as int]@ == base[i as int]) by {
            assert((base + fallbacks(base.take(i as int)))[i as int] == base[i as int]);
        }
        let current = chars_of(out[i].as_str());
        match prefix_until(&current, '_') {
            Some(l) => {
                let ghost before = out@.map_values(|w: String| w@);
                out.push(string_of(l.as_slice()));
                assert(out@.map_values(|w: String| w@) =~= before.push(l@));
            },
            None => {},
        }
        i += 1;
    }
    assert(base.take(i as int) =~= base);
    out
}

/// The terminals tried, in order, when none is configured, each with the
/// arguments that run a command in it.
pub open spec fn terminal_candidate(k: int) -> Seq<Seq<char>> {
    if k == 0 {
        seq!["xdg-terminal-exec"@]
    } else if k == 1 {
        seq!["konsole"@, "-e"@]
    } else if k == 2 {
        seq!["kitty"@, "--"@]
    } else if k == 3 {
        seq!["wezterm"@, "start"@, "--"@]
    } else if k == 4 {
        seq!["alacritty"@, "-e"@]
    } else if k == 5 {
        seq!["foot"@, "--"@]
    } else if k == 6 {
        seq!["gnome-terminal"@, "--"@]
    } else if k == 7 {
        seq!["xfce4-terminal"@, "-x"@]
    } else if k == 8 {
        seq!["x-terminal-emulator"@, "-e"@]
    } else {
        seq!["xterm"@, "-e"@]
    }
}

/// How many terminals are tried.
pub const TERMINAL_CANDIDATES: usize = 10;

/// The first candidate terminal from `k` on that is installed.
pub open spec fn first_installed(installed: Seq<bool>, k: int) -> Option<int>
    decreases 10 - k,
{
    if k >= 10 {
        None
    } else if installed[k] {
        Some(k)
    } else {
        first_installed(installed, k + 1)
    }
}

/// The message when no terminal is configured or found.
pub open spec fn no_terminal() -> Seq<char> {
    "Configura launcher.terminal para abrir aplicaciones de terminal"@
}

/// The command that runs a program in a terminal: the configured one, or
/// the first candidate that is installed.
pub open spec fn terminal_spec(configured: Seq<Seq<char>>, installed: Seq<bool>) -> Result<Seq<Seq<char>>, Seq<char>> {
    if configured.len() > 0 {
        Ok(configured)
    } else {
        match first_installed(installed, 0) {
            Some(k) => Ok(terminal_candidate(k)),
            None => Err(no_terminal()),
        }
    }
}

fn words(list: &[&str]) -> (r: Vec<String>)
    ensures
        r@.map_values(|w: String| w@) == list@.map_values(|w: &str| w@),
{
    let mut out: Vec<String> = Vec::new();
    let mut i: usize = 0;
    while i < list.len()
        invariant
            0 <= i <= list@.len(),
            out@.map_values(|w: String| w@) == list@.take(i as int).map_values(|w: &str| w@),
        decreases list@.len() - i,
    {
        let ghost before = out@.map_values(|w: String| w@);
        let w = owned(list[i]);
        assert(w@ == list@[i as int]@);
        out.push(w);
        assert(out@.map_values(|w: String| w@) =~= before.push(list@[i as int]@));
        assert(list@.take(i + 1).map_values(|w: &str| w@) =~= list@.take(i as int).map_values(|w: &str| w@).push(list@[i as int]@));
        i += 1;
    }
    assert(list@.take(i as int) =~= list@);
    out
}

fn candidate(k: usize) -> (r: Vec<String>)
    requires
        k < 10,
    ensures
        r@.map_values(|w: String| w@) == terminal_candidate(k as int),
{
    let list: Vec<&str> = if k == 0 {
        vec!["xdg-terminal-exec"]
    } else if k == 1 {
        vec!["konsole", "-e"]
    } else if k == 2 {
        vec!["kitty", "--"]
    } else if k == 3 {
        vec!["wezterm", "start", "--"]
    } else if k == 4 {
        vec!["alacritty", "-e"]
    } else if k == 5 {
        vec!["foot", "--"]
    } else if k == 6 {
        vec!["gnome-terminal", "--"]
    } else if k == 7 {
        vec!["xfce4-terminal", "-x"]
    } else if k == 8 {
        vec!["x-terminal-emulator", "-e"]
    } else {
        vec!["xterm", "-e"]
    };
    let r = words(list.as_slice());
    assert(r@.map_values(|w: String| w@) =~= terminal_candidate(k as int));
    r
}

/// The program of candidate terminal `k`, whose presence decides whether
/// it is used.
pub fn terminal_program(k: usize) -> (r: String)
    requires
        k < 10,
    ensures
        r@ == terminal_candidate(k as int)[0],
{
    let words = candidate(k);
    assert(words@.map_values(|w: String| w@).len() == words@.len());
    words[0].clone()
}

/// The command that runs a program in a terminal; `installed` tells, for
/// each candidate terminal in order, whether its program is installed.
pub fn terminal_arguments(configured: &Vec<String>, installed: &Vec<bool>) -> (r: Result<Vec<String>, String>)
    requires
        installed@.len() == 10,
    ensures
        match (r, terminal_spec(configured@.map_values(|w: String| w@), installed@)) {
            (Ok(v), Ok(t)) => v@.map_values(|w: String| w@) == t,
            (Err(m), Err(e)) => m@ == e,
            _ => false,
        },
{
    if configured.len() > 0 {
        let mut out: Vec<String> = Vec::new();
        let mut i: usize = 0;
        while i < configured.len()
            invariant
                0 <= i <= configured@.len(),
                out@.map_values(|w: String| w@) == configured@.take(i as int).map_values(|w: String| w@),
            decreases configured@.len() - i,
        {
            let ghost before = out@.map_values(|w: String| w@);
            let w = configured[i].clone();
            out.push(w);
            assert(out@.map_values(|w: String| w@) =~= before.push(configured@[i as int]@));
            assert(configured@.take(i + 1).map_values(|w: String| w@) =~= configured@.take(i as int).map_values(|w: String| w@).push(configured@[i as int]@));
            i += 1;
        }
        assert(configured@.take(i as int) =~= configured@);
        return Ok(out);
    }
    let mut k: usize = 0;
    while k < 10
        invariant
            0 <= k <= 10,
            installed@.len() == 10,
            configured@.len() == 0,
            first_installed(installed@, 0) == first_installed(installed@, k as int),
        decreases 10 - k,
    {
        if installed[k] {
            return Ok(candidate(k));
        }
        k += 1;
    }
    Err(owned("Configura launcher.terminal para abrir aplicaciones de terminal"))
}

/// How to start a catalog item: the program, its text arguments, the path
/// of a file to open (passed after them), and the working folder.
pub struct LaunchPlan {
    pub program: String,
    pub arguments: Vec<String>,
    pub file: Option<Vec<u8>>,
    pub directory: Option<String>,
}

/// The plan as plain values.
pub open spec fn plan_view(p: LaunchPlan) -> (Seq<char>, Seq<Seq<char>>, Option<Seq<u8>>, Option<Seq<char>>) {
    (
        p.program@,
        p.arguments@.map_values(|w: String| w@),
        match p.file {
            Some(f) => Some(f@),
            None => None,
        },
        opt_text(p.directory),
    )
}

/// The full command line of an entry before it is split into program and
/// arguments: D-Bus activation through `gio` where the entry asks for it,
/// is not for a terminal and `gio` is there, else its `Exec` arguments;
/// preceded by the terminal's command when it runs in a terminal.
pub open spec fn entry_command(
    f: Map<Seq<char>, Seq<char>>,
    path: Seq<char>,
    name: Seq<char>,
    configured: Seq<Seq<char>>,
    has_gio: bool,
    installed: Seq<bool>,
) -> Result<Seq<Seq<char>>, Seq<char>> {
    let base = if flag(f, "DBusActivatable"@) && !flag(f, "Terminal"@) && has_gio {
        Ok(seq!["gio"@, "launch"@, path])
    } else {
        exec_plan(f, path, name)
    };
    match base {
        Err(e) => Err(e),
        Ok(args) => if flag(f, "Terminal"@) {
            match terminal_spec(configured, installed) {
                Ok(t) => Ok(t + args),
                Err(e) => Err(e),
            }
        } else {
            Ok(args)
        },
    }
}

/// How an item starts: a file opens with `xdg-open` when it is there, else
/// with `gio open`; an entry runs its command line in its `Path` folder
/// when it names one.
pub open spec fn launch_spec(
    a: Application,
    configured: Seq<Seq<char>>,
    has_xdg_open: bool,
    has_gio: bool,
    installed: Seq<bool>,
) -> Result<(Seq<char>, Seq<Seq<char>>, Option<Seq<u8>>, Option<Seq<char>>), Seq<char>> {
    match a.file {
        Some(f) => if has_xdg_open {
            Ok(("xdg-open"@, Seq::empty(), Some(f@), None))
        } else {
            Ok(("gio"@, seq!["open"@], Some(f@), None))
        },
        None => {
            let fields = desktop_fields(a.entry);
            match entry_command(fields, desktop_entry_path(a.entry), a.name@, configured, has_gio, installed) {
                Err(e) => Err(e),
                Ok(args) => if args.len() == 0 {
                    Err("Exec está vacío"@)
                } else {
                    Ok(
                        (
                            args[0],
                            args.drop_first(),
                            None,
                            match field(fields, "Path"@) {
                                Some(d) => if d.len() > 0 {
                                    Some(d)
                                } else {
                                    None
                                },
                                None => None,
                            },
                        ),
                    )
                },
            }
        },
    }
}

fn append_strings(a: &mut Vec<String>, b: Vec<String>)
    ensures
        final(a)@.map_values(|w: String| w@) == old(a)@.map_values(|w: String| w@) + b@.map_values(
            |w: String| w@,
        ),
{
    let mut b = b;
    let ghost bv = b@;
    a.append(&mut b);
    assert(final(a)@.map_values(|w: String| w@) =~= old(a)@.map_values(|w: String| w@) + bv.map_values(
        |w: String| w@,
    ));
}

/// Plans how to start `app`. `configured` is the configured terminal
/// command; `has_xdg_open` and `has_gio` tell whether those programs are
/// installed; `installed` tells it of each candidate terminal in order.
pub fn launch_plan(
    app: &Application,
    configured: &Vec<String>,
    has_xdg_open: bool,
    has_gio: bool,
    installed: &Vec<bool>,
) -> (r: Result<LaunchPlan, String>)
    requires
        installed@.len() == 10,
    ensures
        match (r, launch_spec(*app, configured@.map_values(|w: String| w@), has_xdg_open, has_gio, installed@)) {
            (Ok(p), Ok(t)) => plan_view(p) == t,
            (Err(m), Err(e)) => m@ == e,
            _ => false,
        },
{
    match &app.file {
        Some(f) => {
            let path = vstd::slice::slice_to_vec(f.as_slice());
            if has_xdg_open {
                let plan = LaunchPlan { program: owned("xdg-open"), arguments: Vec::new(), file: Some(path), directory: None };
                assert(plan_view(plan).1 =~= Seq::<Seq<char>>::empty());
                return Ok(plan);
            } else {
                let mut arguments: Vec<String> = Vec::new();
                arguments.push(owned("open"));
                let plan = LaunchPlan { program: owned("gio"), arguments, file: Some(path), directory: None };
                assert(plan_view(plan).1 =~= seq!["open"@]);
                return Ok(plan);
            }
        },
        None => {},
    }
    let entry = &app.entry;
    let dbus = entry_flag(entry, "DBusActivatable");
    let terminal = entry_flag(entry, "Terminal");
    let mut arguments: Vec<String> = if dbus && !terminal && has_gio {
        let mut v: Vec<String> = Vec::new();
        v.push(owned("gio"));
        v.push(owned("launch"));
        v.push(entry_path(entry));
        assert(v@.map_values(|w: String| w@) =~= seq!["gio"@, "launch"@, desktop_entry_path(*entry)]);
        v
    } else {
        match exec_arguments(entry, app.name.as_str()) {
            Ok(v) => v,
            Err(e) => return Err(e),
        }
    };
    if terminal {
        let mut command = match terminal_arguments(configured, installed) {
            Ok(t) => t,
            Err(e) => return Err(e),
        };
        append_strings(&mut command, arguments);
        arguments = command;
    }
    if arguments.len() == 0 {
        return Err(owned("Exec está vacío"));
    }
    let ghost all = arguments@.map_values(|w: String| w@);
    let program = arguments.remove(0);
    assert(arguments@.map_values(|w: String| w@) =~= all.drop_first());
    let directory = match entry_field(entry, "Path") {
        Some(d) => if !d.as_str().is_empty() {
            Some(d)
        } else {
            None
        },
        None => None,
    };
    Ok(LaunchPlan { program, arguments, file: None, directory })
}

/// The first item that a desktop launcher named `file_name` replaces: one
/// with the same identifier, or one read from the same file.
pub open spec fn replaced_item(apps: Seq<Application>, file_name: Seq<char>, same_file: Seq<bool>) -> Option<int>
    decreases apps.len(),
{
    if apps.len() == 0 {
        None
    } else {
        match replaced_item(apps.drop_last(), file_name, same_file) {
            Some(k) => Some(k),
            None => if apps.last().id@ == file_name || same_file[apps.len() - 1] {
                Some(apps.len() - 1)
            } else {
                None
            },
        }
    }
}

/// An item made from a launcher of the desktop folder.
pub open spec fn desktop_launcher(a: Application, file_name: Seq<char>, entry: DesktopEntry) -> bool {
    &&& a.id@ == file_name
    &&& a.search_text@ == a.name@
    &&& a.entry == entry
    &&& a.on_desktop
    &&& a.file is None
}

/// The item a launcher of the desktop folder named `file_name` becomes,
/// with its localized name `name`: shown as on the desktop, searched by
/// its name.
pub fn launcher_item(file_name: String, entry: DesktopEntry, name: String) -> (a: Application)
    ensures
        desktop_launcher(a, file_name@, entry),
        a.name@ == name@,
{
    let text = name.clone();
    Application { id: file_name, search_text: text, name, entry, on_desktop: true, file: None }
}

/// The item a file or folder of the desktop folder becomes: named by
/// `name`, found under `id`, opened through its `path`, with `entry`
/// holding its icon.
pub fn file_item(name: String, id: String, entry: DesktopEntry, path: Vec<u8>) -> (a: Application)
    ensures
        a.id@ == id@,
        a.name@ == name@,
        a.search_text@ == name@,
        a.entry == entry,
        !a.on_desktop,
        a.file matches Some(f) && f@ == path@,
{
    let text = name.clone();
    Application { id, name, search_text: text, entry, on_desktop: false, file: Some(path) }
}

impl Catalog {
    /// Takes in a launcher of the desktop folder named `file_name`: one
    /// that could not be read counts as skipped; one not listed here or
    /// without a name is left out; any other, shown as on the desktop,
    /// replaces the first item with its identifier or read from the same
    /// file (`same_file`, index for index), or else joins the catalog.
    pub fn accept_launcher(
        &mut self,
        file_name: String,
        parsed: Option<DesktopEntry>,
        same_file: &Vec<bool>,
        locales: &Vec<String>,
        desktops: &Vec<String>,
    )
        requires
            same_file@.len() == old(self).apps@.len(),
            old(self).skipped < usize::MAX,
        ensures
            match parsed {
                None => final(self).apps@ == old(self).apps@ && final(self).skipped == old(self).skipped + 1,
                Some(e) => if !visible_spec(desktop_fields(e), desktops@.map_values(|d: String| d@))
                    || !desktop_fields(e).contains_key("Name"@) {
                    final(self).apps@ == old(self).apps@ && final(self).skipped == old(self).skipped
                } else {
                    &&& final(self).skipped == old(self).skipped
                    &&& match replaced_item(old(self).apps@, file_name@, same_file@) {
                        Some(k) => final(self).apps@.len() == old(self).apps@.len() && (forall|j: int|
                            0 <= j < old(self).apps@.len() && j != k ==> final(self).apps@[j] == old(
                                self,
                            ).apps@[j]) && desktop_launcher(final(self).apps@[k], file_name@, e)
                            && Some(final(self).apps@[k].name@) == localized_value(e, "Name"@, string_views(locales@)),
                        None => final(self).apps@.len() == old(self).apps@.len() + 1
                            && final(self).apps@.take(old(self).apps@.len() as int) == old(self).apps@
                            && desktop_launcher(final(self).apps@.last(), file_name@, e)
                            && Some(final(self).apps@.last().name@) == localized_value(e, "Name"@, string_views(locales@)),
                    }
                },
            },
    {
        let entry = match parsed {
            Some(e) => e,
            None => {
                self.skipped = self.skipped + 1;
                return;
            },
        };
        if !visible(&entry, desktops) {
            return;
        }
        let name = match entry_localized(&entry, "Name", locales) {
            Some(n) => n,
            None => return,
        };
        let ghost old_apps = self.apps@;
        let mut k: usize = 0;
        let mut found: Option<usize> = None;
        assert(old_apps.take(0) =~= Seq::<Application>::empty());
        while k < self.apps.len() && found.is_none()
            invariant
                0 <= k <= self.apps@.len(),
                self.apps@ == old_apps,
                same_file@.len() == old_apps.len(),
                found is None ==> replaced_item(old_apps.take(k as int), file_name@, same_file@) is None,
                found matches Some(j) ==> replaced_item(old_apps, file_name@, same_file@) == Some(j as int)
                    && j < old_apps.len(),
            decreases self.apps@.len() - k + (if found is None { 1int } else { 0int }),
        {
            assert(old_apps.take(k + 1).drop_last() =~= old_apps.take(k as int));
            if crate::text::str_equal(self.apps[k].id.as_str(), file_name.as_str()) || same_file[k] {
                proof {
                    lemma_replaced_prefix(old_apps, file_name@, same_file@, k + 1);
                }
                found = Some(k);
            } else {
                k += 1;
            }
        }
        let app = launcher_item(file_name, entry, name);
        match found {
            Some(j) => {
                self.apps.set(j, app);
            },
            None => {
                assert(old_apps.take(k as int) =~= old_apps);
                self.apps.push(app);
                assert(self.apps@.take(old_apps.len() as int) =~= old_apps);
            },
        }
    }
}

proof fn lemma_replaced_prefix(apps: Seq<Application>, file_name: Seq<char>, same_file: Seq<bool>, n: int)
    requires
        0 < n <= apps.len(),
        replaced_item(apps.take(n), file_name, same_file) is Some,
    ensures
        replaced_item(apps, file_name, same_file) == replaced_item(apps.take(n), file_name, same_file),
    decreases apps.len() - n,
{
    if n < apps.len() {
        assert(apps.take(n + 1).drop_last() =~= apps.take(n));
        lemma_replaced_prefix(apps, file_name, same_file, n + 1);
    } else {
        assert(apps.take(n) =~= apps);
    }
}

} // verus!
