//! Paths of the configuration: the folders of the XDG base directories,
//! where the configuration files live, how paths written in them are
//! resolved, and where the desktop folder is.
use vstd::prelude::*;
use vstd::string::StringSliceAdditionalSpecFns;
use vstd::utf8::encode_utf8;
use crate::storage::{components, path_components};
use crate::text::{
    chars_of, string_of, owned, push_str, trim, trim_chars, lines_of, lines_spec, split_once_char,
    split_once_spec, split_chars, split_spec, chars_equal,
};

verus! {

/// Whether a path starts at the root.
pub open spec fn is_absolute(p: Seq<char>) -> bool {
    p.len() > 0 && p[0] == '/'
}

/// `Path::join`: an absolute `rel` replaces `base`; otherwise `rel` follows
/// `base`, with a `/` between them unless `base` is empty or ends in one.
pub open spec fn join_path(base: Seq<char>, rel: Seq<char>) -> Seq<char> {
    if is_absolute(rel) {
        rel
    } else if base.len() == 0 || base.last() == '/' {
        base + rel
    } else {
        base + "/"@ + rel
    }
}

/// Joins two paths.
pub fn join(base: &str, rel: &str) -> (r: String)
    ensures
        r@ == join_path(base@, rel@),
{
    let b = chars_of(base);
    let r = chars_of(rel);
    if r.len() > 0 && r[0] == '/' {
        return owned(rel);
    }
    let mut out = owned(base);
    if !(b.len() == 0 || b[b.len() - 1] == '/') {
        push_str(&mut out, "/");
    }
    push_str(&mut out, rel);
    out
}

/// Whether two paths have the same components (`Path`'s equality).
pub open spec fn same_path(a: Seq<char>, b: Seq<char>) -> bool {
    path_components(encode_utf8(a)) == path_components(encode_utf8(b))
}

/// Whether two paths are equal as paths.
pub fn paths_equal(a: &str, b: &str) -> (r: bool)
    ensures
        r == same_path(a@, b@),
{
    let ca = components(a.as_bytes());
    let cb = components(b.as_bytes());
    let ghost va = ca@.map_values(|c: Vec<u8>| c@);
    let ghost vb = cb@.map_values(|c: Vec<u8>| c@);
    if ca.len() != cb.len() {
        assert(va.len() != vb.len());
        return false;
    }
    let mut i: usize = 0;
    while i < ca.len()
        invariant
            ca@.len() == cb@.len(),
            0 <= i <= ca@.len(),
            va == ca@.map_values(|c: Vec<u8>| c@),
            vb == cb@.map_values(|c: Vec<u8>| c@),
            va == path_components(encode_utf8(a@)),
            vb == path_components(encode_utf8(b@)),
            forall|k: int| 0 <= k < i ==> va[k] == vb[k],
        decreases ca@.len() - i,
    {
        if ca[i].len() != cb[i].len() {
            assert(va[i as int] != vb[i as int]);
            return false;
        }
        let mut j: usize = 0;
        while j < ca[i].len()
            invariant
                ca@.len() == cb@.len(),
                0 <= i < ca@.len(),
                ca@[i as int]@.len() == cb@[i as int]@.len(),
                va == ca@.map_values(|c: Vec<u8>| c@),
                vb == cb@.map_values(|c: Vec<u8>| c@),
                va == path_components(encode_utf8(a@)),
                vb == path_components(encode_utf8(b@)),
                0 <= j <= ca@[i as int]@.len(),
                forall|q: int| 0 <= q < j ==> ca@[i as int]@[q] == cb@[i as int]@[q],
            decreases ca@[i as int]@.len() - j,
        {
            if ca[i][j] != cb[i][j] {
                assert(va[i as int][j as int] != vb[i as int][j as int]);
                assert(va[i as int] != vb[i as int]);
                return false;
            }
            j += 1;
        }
        assert(va[i as int] =~= vb[i as int]);
        i += 1;
    }
    assert(va =~= vb);
    true
}

/// What remains of a path below `~`: its components after the first when
/// that is `~`, with the separators and `.` that lead them dropped.
pub open spec fn below_tilde(p: Seq<char>) -> Option<Seq<char>> {
    if p == "~"@ {
        Some(Seq::empty())
    } else if p.len() >= 2 && p[0] == '~' && p[1] == '/' {
        Some(strip_leading(p.skip(2)))
    } else {
        None
    }
}

/// `p` without leading separators and `.` components.
pub open spec fn strip_leading(p: Seq<char>) -> Seq<char>
    decreases p.len(),
{
    if p.len() > 0 && p[0] == '/' {
        strip_leading(p.drop_first())
    } else if p == "."@ {
        Seq::empty()
    } else if p.len() >= 2 && p[0] == '.' && p[1] == '/' {
        strip_leading(p.skip(2))
    } else {
        p
    }
}

fn strip_leading_chars(v: &Vec<char>) -> (r: Vec<char>)
    ensures
        r@ == strip_leading(v@),
{
    let n = v.len();
    let mut i: usize = 0;
    assert(v@.skip(0) =~= v@);
    proof {
        reveal_strlit(".");
        assert("."@ =~= seq!['.']);
    }
    loop
        invariant
            n == v@.len(),
            0 <= i <= n,
            "."@ == seq!['.'],
            strip_leading(v@) == strip_leading(v@.skip(i as int)),
        decreases n - i,
    {
        assert(i < n ==> v@.skip(i as int)[0] == v@[i as int]);
        assert(i + 1 < n ==> v@.skip(i as int)[1] == v@[i + 1]);
        if i < n && v[i] == '/' {
            assert(v@.skip(i as int).drop_first() =~= v@.skip(i + 1));
            i += 1;
        } else if n - i >= 2 && v[i] == '.' && v[i + 1] == '/' {
            assert(v@.skip(i as int).skip(2) =~= v@.skip(i + 2));
            assert(v@.skip(i as int) != "."@);
            i += 2;
        } else if n - i == 1 && v[i] == '.' {
            assert(v@.skip(i as int) =~= "."@);
            return Vec::new();
        } else {
            proof {
                if v@.skip(i as int) == "."@ {
                    assert(v@.skip(i as int)[0] == '.');
                }
            }
            assert(v@.skip(i as int) =~= v@.subrange(i as int, n as int));
            return crate::text::slice_chars(v, i, n);
        }
    }
}

/// The message for a `~` path when `HOME` is not an absolute path.
pub open spec fn no_home() -> Seq<char> {
    "HOME debe contener una ruta absoluta"@
}

/// The message for an empty path in the configuration.
pub open spec fn empty_path() -> Seq<char> {
    "Las rutas de configuración no pueden estar vacías"@
}

/// A path of the configuration resolved: `~` stands for the personal
/// folder `home` (`None` when `HOME` is not an absolute path), a relative
/// path is taken from `base`, the folder of the configuration file.
pub open spec fn resolve_spec(path: Seq<char>, base: Seq<char>, home: Option<Seq<char>>) -> Result<Seq<char>, Seq<char>> {
    if path.len() == 0 {
        Err(empty_path())
    } else {
        match below_tilde(path) {
            Some(rest) => match home {
                Some(h) => Ok(join_path(h, rest)),
                None => Err(no_home()),
            },
            None => if is_absolute(path) {
                Ok(path)
            } else {
                Ok(join_path(base, path))
            },
        }
    }
}

/// Resolves a path written in the configuration file kept in `base`.
pub fn resolve_path(path: &str, base: &str, home: &Option<String>) -> (r: Result<String, String>)
    ensures
        match (r, resolve_spec(path@, base@, match home {
            Some(h) => Some(h@),
            None => None,
        })) {
            (Ok(p), Ok(q)) => p@ == q,
            (Err(m), Err(e)) => m@ == e,
            _ => false,
        },
{
    proof {
        reveal_strlit("~");
    }
    let p = chars_of(path);
    if p.len() == 0 {
        return Err(owned("Las rutas de configuración no pueden estar vacías"));
    }
    let tilde: Option<Vec<char>> = if p.len() == 1 && p[0] == '~' {
        assert(p@ =~= "~"@);
        Some(Vec::new())
    } else if p.len() >= 2 && p[0] == '~' && p[1] == '/' {
        let rest = crate::text::slice_chars(&p, 2, p.len());
        assert(rest@ =~= p@.skip(2));
        Some(strip_leading_chars(&rest))
    } else {
        proof {
            if p@ == "~"@ {
                assert(p@.len() == 1);
            }
        }
        None
    };
    match tilde {
        Some(rest) => match home {
            Some(h) => {
                let r = string_of(rest.as_slice());
                Ok(join(h.as_str(), r.as_str()))
            },
            None => Err(owned("HOME debe contener una ruta absoluta")),
        },
        None => if p[0] == '/' {
            Ok(owned(path))
        } else {
            Ok(join(base, path))
        },
    }
}

/// The personal folder from the value of `HOME`: only an absolute path.
pub open spec fn home_spec(value: Option<Seq<char>>) -> Option<Seq<char>> {
    match value {
        Some(v) => if is_absolute(v) {
            Some(v)
        } else {
            None
        },
        None => None,
    }
}

/// The personal folder from the value of `HOME`.
pub fn home_from(value: &Option<String>) -> (r: Option<String>)
    ensures
        match r {
            Some(h) => home_spec(match value {
                Some(v) => Some(v@),
                None => None,
            }) == Some(h@),
            None => home_spec(match value {
                Some(v) => Some(v@),
                None => None,
            }) is None,
        },
{
    match value {
        Some(v) => {
            let c = chars_of(v.as_str());
            if c.len() > 0 && c[0] == '/' {
                Some(v.clone())
            } else {
                None
            }
        },
        None => None,
    }
}

/// An XDG base folder: the variable's value when it is an absolute path,
/// else `fallback` in the personal folder.
pub open spec fn xdg_spec(value: Option<Seq<char>>, fallback: Seq<char>, home: Option<Seq<char>>) -> Result<Seq<char>, Seq<char>> {
    match home_spec(value) {
        Some(v) => Ok(v),
        None => match home {
            Some(h) => Ok(join_path(h, fallback)),
            None => Err(no_home()),
        },
    }
}

/// An XDG base folder from its variable's value, `fallback` below the
/// personal folder `home` otherwise.
pub fn xdg_path(value: &Option<String>, fallback: &str, home: &Option<String>) -> (r: Result<String, String>)
    ensures
        match (r, xdg_spec(match value {
            Some(v) => Some(v@),
            None => None,
        }, fallback@, match home {
            Some(h) => Some(h@),
            None => None,
        })) {
            (Ok(p), Ok(q)) => p@ == q,
            (Err(m), Err(e)) => m@ == e,
            _ => false,
        },
{
    match home_from(value) {
        Some(v) => Ok(v),
        None => match home {
            Some(h) => Ok(join(h.as_str(), fallback)),
            None => Err(owned("HOME debe contener una ruta absoluta")),
        },
    }
}

/// The user's configuration file in the configuration folder `config_home`.
pub open spec fn user_config_spec(config_home: Seq<char>) -> Seq<char> {
    join_path(join_path(config_home, "lapi-launcher"@), "config.toml"@)
}

/// The user's configuration file in the configuration folder `config_home`.
pub fn user_config_path_for(config_home: &str) -> (r: String)
    ensures
        r@ == user_config_spec(config_home@),
{
    let directory = join(config_home, "lapi-launcher");
    join(directory.as_str(), "config.toml")
}

/// The user's configuration file, from the values of `XDG_CONFIG_HOME`
/// and `HOME`.
pub fn user_config_path(config_home: &Option<String>, home: &Option<String>) -> (r: Result<String, String>)
    ensures
        match (r, xdg_spec(match config_home {
            Some(v) => Some(v@),
            None => None,
        }, ".config"@, match home_spec(match home {
            Some(h) => Some(h@),
            None => None,
        }) {
            Some(h) => Some(h),
            None => None,
        })) {
            (Ok(p), Ok(q)) => p@ == user_config_spec(q),
            (Err(m), Err(e)) => m@ == e,
            _ => false,
        },
{
    let h = home_from(home);
    match xdg_path(config_home, ".config", &h) {
        Ok(directory) => Ok(user_config_path_for(directory.as_str())),
        Err(e) => Err(e),
    }
}

/// The configuration file shared by all users.
pub fn global_config_path() -> (r: String)
    ensures
        r@ == "/etc/lapi-launcher/config.toml"@,
{
    owned("/etc/lapi-launcher/config.toml")
}

/// The value of the `XDG_DESKTOP_DIR` line, if `line` is one.
pub open spec fn desktop_line(line: Seq<char>) -> Option<Seq<char>> {
    match split_once_spec(trim(line), '=') {
        Some((key, value)) => if trim(key) == "XDG_DESKTOP_DIR"@ {
            Some(value)
        } else {
            None
        },
        None => None,
    }
}

/// The value of the first `XDG_DESKTOP_DIR` line.
pub open spec fn desktop_value(lines: Seq<Seq<char>>) -> Option<Seq<char>>
    decreases lines.len(),
{
    if lines.len() == 0 {
        None
    } else {
        match desktop_line(lines[0]) {
            Some(v) => Some(v),
            None => desktop_value(lines.drop_first()),
        }
    }
}

/// A quoted value of `user-dirs.dirs` with its backslash escapes decoded:
/// a backslash stands for the character after it; `None` when one ends
/// the value.
pub open spec fn decode_escapes(s: Seq<char>) -> Option<Seq<char>>
    decreases s.len(),
{
    if s.len() == 0 {
        Some(Seq::empty())
    } else if s[0] == '\\' {
        if s.len() == 1 {
            None
        } else {
            match decode_escapes(s.skip(2)) {
                Some(r) => Some(seq![s[1]] + r),
                None => None,
            }
        }
    } else {
        match decode_escapes(s.drop_first()) {
            Some(r) => Some(seq![s[0]] + r),
            None => None,
        }
    }
}

/// The desktop folder that `user-dirs.dirs` names: the quoted value of its
/// first `XDG_DESKTOP_DIR` line, where `$HOME` stands for the personal
/// folder; only an absolute path or one below `$HOME` counts.
pub open spec fn parse_desktop_dir_spec(contents: Seq<char>, home: Seq<char>) -> Option<Seq<char>> {
    match desktop_value(lines_spec(contents)) {
        None => None,
        Some(v0) => {
            let v = trim(v0);
            if v.len() >= 2 && v[0] == '"' && v.last() == '"' {
                match decode_escapes(v.subrange(1, v.len() - 1)) {
                    None => None,
                    Some(d) => if d == "$HOME"@ {
                        Some(home)
                    } else if d.len() >= 6 && d.take(6) == "$HOME/"@ {
                        Some(join_path(home, d.skip(6)))
                    } else if is_absolute(d) {
                        Some(d)
                    } else {
                        None
                    },
                }
            } else {
                None
            }
        },
    }
}

fn decode_escapes_chars(v: &Vec<char>) -> (r: Option<Vec<char>>)
    ensures
        match r {
            Some(d) => decode_escapes(v@) == Some(d@),
            None => decode_escapes(v@) is None,
        },
{
    let n = v.len();
    let mut out: Vec<char> = Vec::new();
    let mut i: usize = 0;
    assert(v@.skip(0) =~= v@);
    while i < n
        invariant
            n == v@.len(),
            0 <= i <= n,
            decode_escapes(v@) == match decode_escapes(v@.skip(i as int)) {
                Some(r) => Some(out@ + r),
                None => None,
            },
        decreases n - i,
    {
        let ghost rest = v@.skip(i as int);
        assert(rest[0] == v@[i as int]);
        if v[i] == '\\' {
            if i + 1 == n {
                assert(rest.len() == 1);
                return None;
            }
            assert(rest.skip(2) =~= v@.skip(i + 2));
            assert(rest[1] == v@[i + 1]);
            let ghost before = out@;
            out.push(v[i + 1]);
            proof {
                if let Some(r) = decode_escapes(v@.skip(i + 2)) {
                    assert(before + (seq![v@[i + 1]] + r) =~= out@ + r);
                }
            }
            i += 2;
        } else {
            assert(rest.drop_first() =~= v@.skip(i + 1));
            let ghost before = out@;
            out.push(v[i]);
            proof {
                if let Some(r) = decode_escapes(v@.skip(i + 1)) {
                    assert(before + (seq![v@[i as int]] + r) =~= out@ + r);
                }
            }
            i += 1;
        }
    }
    assert(v@.skip(i as int) =~= Seq::<char>::empty());
    assert(out@ + Seq::<char>::empty() =~= out@);
    Some(out)
}

/// Reads the desktop folder from the contents of `user-dirs.dirs`; `home`
/// is the personal folder.
pub fn parse_desktop_dir(contents: &str, home: &str) -> (r: Option<String>)
    ensures
        match r {
            Some(p) => parse_desktop_dir_spec(contents@, home@) == Some(p@),
            None => parse_desktop_dir_spec(contents@, home@) is None,
        },
{
    proof {
        reveal_strlit("$HOME");
        reveal_strlit("$HOME/");
    }
    let lines = lines_of(&chars_of(contents));
    let ghost lv = lines@.map_values(|p: Vec<char>| p@);
    let key = chars_of("XDG_DESKTOP_DIR");
    let mut i: usize = 0;
    let mut found: Option<Vec<char>> = None;
    assert(lv.skip(0) =~= lv);
    while i < lines.len() && found.is_none()
        invariant
            0 <= i <= lines@.len(),
            lv == lines@.map_values(|p: Vec<char>| p@),
            lv == lines_spec(contents@),
            key@ == "XDG_DESKTOP_DIR"@,
            found is None ==> desktop_value(lv) == desktop_value(lv.skip(i as int)),
            found matches Some(f) ==> desktop_value(lv) == Some(f@),
        decreases lines@.len() - i + (if found is None { 1int } else { 0int }),
    {
        assert(lv.skip(i as int).drop_first() =~= lv.skip(i + 1));
        assert(lv.skip(i as int)[0] == lines@[i as int]@);
        let t = trim_chars(&lines[i]);
        match split_once_char(&t, '=') {
            Some((k, value)) => {
                let kt = trim_chars(&k);
                if chars_equal(&kt, &key) {
                    found = Some(value);
                } else {
                    i += 1;
                }
            },
            None => {
                i += 1;
            },
        }
    }
    let value = match found {
        Some(v) => v,
        None => {
            assert(lv.skip(i as int) =~= Seq::<Seq<char>>::empty());
            return None;
        },
    };
    let v = trim_chars(&value);
    let n = v.len();
    if !(n >= 2 && v[0] == '"' && v[n - 1] == '"') {
        return None;
    }
    let inner = crate::text::slice_chars(&v, 1, n - 1);
    let d = match decode_escapes_chars(&inner) {
        Some(d) => d,
        None => return None,
    };
    let home_word = chars_of("$HOME");
    if chars_equal(&d, &home_word) {
        return Some(owned(home));
    }
    if d.len() >= 6 && d[0] == '$' && d[1] == 'H' && d[2] == 'O' && d[3] == 'M' && d[4] == 'E' && d[5] == '/' {
        assert(d@.take(6) =~= "$HOME/"@);
        let rest = string_of(crate::text::slice_chars(&d, 6, d.len()).as_slice());
        assert(rest@ =~= d@.skip(6));
        return Some(join(home, rest.as_str()));
    }
    proof {
        if d@.len() >= 6 && d@.take(6) == "$HOME/"@ {
            assert(d@.take(6)[0] == '$' && d@.take(6)[1] == 'H' && d@.take(6)[2] == 'O');
            assert(d@.take(6)[3] == 'M' && d@.take(6)[4] == 'E' && d@.take(6)[5] == '/');
        }
    }
    if d.len() > 0 && d[0] == '/' {
        Some(string_of(d.as_slice()))
    } else {
        None
    }
}

/// The desktop folder: the configured one; else the one `user-dirs.dirs`
/// names, none when that is the personal folder itself; else `Escritorio`
/// in the personal folder when it exists, `Desktop` otherwise.
pub open spec fn desktop_dir_spec(
    configured: Option<Seq<char>>,
    contents: Seq<char>,
    home: Option<Seq<char>>,
    escritorio: bool,
) -> Result<Option<Seq<char>>, Seq<char>> {
    match configured {
        Some(c) => Ok(Some(c)),
        None => match home {
            None => Err(no_home()),
            Some(h) => match parse_desktop_dir_spec(contents, h) {
                Some(p) => if same_path(p, h) {
                    Ok(None)
                } else {
                    Ok(Some(p))
                },
                None => Ok(Some(join_path(h, if escritorio { "Escritorio"@ } else { "Desktop"@ }))),
            },
        },
    }
}

/// The desktop folder, from the configured one, the contents of
/// `user-dirs.dirs`, the personal folder, and whether `Escritorio` exists
/// in it.
pub fn desktop_dir(
    configured: &Option<String>,
    contents: &str,
    home: &Option<String>,
    escritorio: bool,
) -> (r: Result<Option<String>, String>)
    ensures
        match (r, desktop_dir_spec(
            match configured {
                Some(c) => Some(c@),
                None => None,
            },
            contents@,
            match home {
                Some(h) => Some(h@),
                None => None,
            },
            escritorio,
        )) {
            (Ok(Some(p)), Ok(Some(q))) => p@ == q,
            (Ok(None), Ok(None)) => true,
            (Err(m), Err(e)) => m@ == e,
            _ => false,
        },
{
    match configured {
        Some(c) => return Ok(Some(c.clone())),
        None => {},
    }
    let h = match home {
        Some(h) => h,
        None => return Err(owned("HOME debe contener una ruta absoluta")),
    };
    match parse_desktop_dir(contents, h.as_str()) {
        Some(p) => if paths_equal(p.as_str(), h.as_str()) {
            Ok(None)
        } else {
            Ok(Some(p))
        },
        None => Ok(Some(join(h.as_str(), if escritorio { "Escritorio" } else { "Desktop" }))),
    }
}

/// `paths` without any path equal to an earlier one.
pub open spec fn dedup_paths(paths: Seq<Seq<char>>) -> Seq<Seq<char>>
    decreases paths.len(),
{
    if paths.len() == 0 {
        Seq::empty()
    } else {
        let r = dedup_paths(paths.drop_last());
        if exists|k: int| 0 <= k < r.len() && same_path(r[k], paths.last()) {
            r
        } else {
            r.push(paths.last())
        }
    }
}

/// The folders that hold shared data, in order of preference: the user's
/// (`XDG_DATA_HOME`), those of `XDG_DATA_DIRS` that are absolute (the
/// usual two when it is unset or empty), then the Flatpak and Snap export
/// folders; each only once.
pub open spec fn data_dirs_spec(
    data_home: Option<Seq<char>>,
    data_dirs: Option<Seq<char>>,
    home: Option<Seq<char>>,
) -> Result<Seq<Seq<char>>, Seq<char>> {
    match xdg_spec(data_home, ".local/share"@, home) {
        Err(e) => Err(e),
        Ok(first) => match home {
            None => Err(no_home()),
            Some(h) => {
                let listed = match data_dirs {
                    Some(v) => if v.len() > 0 {
                        v
                    } else {
                        "/usr/local/share:/usr/share"@
                    },
                    None => "/usr/local/share:/usr/share"@,
                };
                let system = split_spec(listed, ':').filter(|p: Seq<char>| is_absolute(p));
                Ok(
                    dedup_paths(
                        seq![first] + system + seq![
                            join_path(h, ".local/share/flatpak/exports/share"@),
                            "/var/lib/flatpak/exports/share"@,
                            "/var/lib/snapd/desktop"@,
                        ],
                    ),
                )
            },
        },
    }
}

fn push_new_path(out: &mut Vec<String>, path: String)
    ensures
        final(out)@.map_values(|s: String| s@) == dedup_step(old(out)@.map_values(|s: String| s@), path@),
{
    let ghost before = out@.map_values(|s: String| s@);
    let mut k: usize = 0;
    while k < out.len()
        invariant
            0 <= k <= out@.len(),
            out@.map_values(|s: String| s@) == before,
            forall|q: int| 0 <= q < k ==> !same_path(before[q], path@),
        decreases out@.len() - k,
    {
        if paths_equal(out[k].as_str(), path.as_str()) {
            assert(same_path(before[k as int], path@));
            return;
        }
        k += 1;
    }
    out.push(path);
    assert(out@.map_values(|s: String| s@) =~= before.push(path@));
}

/// One step of `dedup_paths`.
pub open spec fn dedup_step(r: Seq<Seq<char>>, p: Seq<char>) -> Seq<Seq<char>> {
    if exists|k: int| 0 <= k < r.len() && same_path(r[k], p) {
        r
    } else {
        r.push(p)
    }
}

proof fn lemma_dedup_push(paths: Seq<Seq<char>>, p: Seq<char>)
    ensures
        dedup_paths(paths.push(p)) == dedup_step(dedup_paths(paths), p),
{
    assert(paths.push(p).drop_last() =~= paths);
}

/// The folders that hold shared data, from the values of `XDG_DATA_HOME`,
/// `XDG_DATA_DIRS` and the personal folder.
pub fn data_dirs(data_home: &Option<String>, system_dirs: &Option<String>, home: &Option<String>) -> (r: Result<
    Vec<String>,
    String,
>)
    ensures
        match (r, data_dirs_spec(
            match data_home {
                Some(v) => Some(v@),
                None => None,
            },
            match system_dirs {
                Some(v) => Some(v@),
                None => None,
            },
            match home {
                Some(h) => Some(h@),
                None => None,
            },
        )) {
            (Ok(v), Ok(t)) => v@.map_values(|s: String| s@) == t,
            (Err(m), Err(e)) => m@ == e,
            _ => false,
        },
{
    let first = match xdg_path(data_home, ".local/share", home) {
        Ok(p) => p,
        Err(e) => return Err(e),
    };
    let h = match home {
        Some(h) => h,
        None => return Err(owned("HOME debe contener una ruta absoluta")),
    };
    let listed = match system_dirs {
        Some(v) => if !v.as_str().is_empty() {
            chars_of(v.as_str())
        } else {
            chars_of("/usr/local/share:/usr/share")
        },
        None => chars_of("/usr/local/share:/usr/share"),
    };
    assert(listed@ == match system_dirs {
        Some(v) => if v@.len() > 0 {
            v@
        } else {
            "/usr/local/share:/usr/share"@
        },
        None => "/usr/local/share:/usr/share"@,
    });
    let ghost first_view = first@;
    let pieces = split_chars(&listed, ':');
    let mut all: Vec<String> = Vec::new();
    all.push(first);
    let ghost pv = pieces@.map_values(|x: Vec<char>| x@);
    let mut i: usize = 0;
    while i < pieces.len()
        invariant
            0 <= i <= pieces@.len(),
            pv == pieces@.map_values(|x: Vec<char>| x@),
            all@.map_values(|s: String| s@) == seq![all@[0]@] + pv.take(i as int).filter(|p: Seq<char>| is_absolute(p)),
            all@.len() >= 1,
            all@[0]@ == first_view,
        decreases pieces@.len() - i,
    {
        assert(pv.take(i + 1) =~= pv.take(i as int).push(pv[i as int]));
        proof {
            pv.take(i as int).lemma_filter_push(pv[i as int], |p: Seq<char>| is_absolute(p));
        }
        if pieces[i].len() > 0 && pieces[i][0] == '/' {
            let ghost before = all@.map_values(|s: String| s@);
            all.push(string_of(pieces[i].as_slice()));
            assert(all@.map_values(|s: String| s@) =~= before.push(pv[i as int]));
        }
        i += 1;
    }
    assert(pv.take(i as int) =~= pv);
    all.push(join(h.as_str(), ".local/share/flatpak/exports/share"));
    all.push(owned("/var/lib/flatpak/exports/share"));
    all.push(owned("/var/lib/snapd/desktop"));
    let ghost av = all@.map_values(|s: String| s@);
    let mut out: Vec<String> = Vec::new();
    let mut k: usize = 0;
    assert(av.take(0) =~= Seq::<Seq<char>>::empty());
    while k < all.len()
        invariant
            0 <= k <= all@.len(),
            av == all@.map_values(|s: String| s@),
            out@.map_values(|s: String| s@) == dedup_paths(av.take(k as int)),
        decreases all@.len() - k,
    {
        proof {
            lemma_dedup_push(av.take(k as int), av[k as int]);
            assert(av.take(k as int).push(av[k as int]) =~= av.take(k + 1));
        }
        push_new_path(&mut out, all[k].clone());
        k += 1;
    }
    assert(av.take(k as int) =~= av);
    proof {
        let t = data_dirs_spec(
            match data_home {
                Some(v) => Some(v@),
                None => None,
            },
            match system_dirs {
                Some(v) => Some(v@),
                None => None,
            },
            Some(h@),
        );
        assert(av =~= seq![av[0]] + split_spec(listed@, ':').filter(|p: Seq<char>| is_absolute(p)) + seq![
            join_path(h@, ".local/share/flatpak/exports/share"@),
            "/var/lib/flatpak/exports/share"@,
            "/var/lib/snapd/desktop"@,
        ]);
    }
    Ok(out)
}

} // verus!
