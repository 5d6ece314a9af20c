//! Where icons are looked for: the folders of icon themes, read from
//! their `index.theme` files and followed through the themes they inherit
//! from, and the files that an icon name can stand for.
use vstd::prelude::*;
use crate::paths::{join, join_path};
use crate::storage::path_components;
use vstd::string::StringSliceAdditionalSpecFns;
use vstd::utf8::encode_utf8;
use crate::text::{
    chars_of, string_of, owned, trim, trim_chars, lines_of, lines_spec, split_chars, split_spec,
    has_prefix, starts_with, parse_u32, parse_u32_spec, str_equal, slice_chars,
};

verus! {

/// What an image shows: a file, or a named icon of the icon themes.
#[derive(Debug, Clone, PartialEq, Eq, Hash)]
pub enum Source {
    File(String),
    Icon(String),
}

/// The non-empty trimmed items of a comma-separated list.
pub open spec fn comma_list(value: Seq<char>) -> Seq<Seq<char>> {
    split_spec(value, ',').map_values(|p: Seq<char>| trim(p)).filter(|p: Seq<char>| p.len() > 0)
}

/// What the lines of an `index.theme` give, from the `[Icon Theme]`
/// section only: the folders it lists (`Directories`, else
/// `ScaledDirectories`) and the themes it inherits from.
pub open spec fn index_scan(lines: Seq<Seq<char>>, header: bool) -> (Seq<Seq<char>>, Seq<Seq<char>>)
    decreases lines.len(),
{
    if lines.len() == 0 {
        (Seq::empty(), Seq::empty())
    } else {
        let line = trim(lines[0]);
        let h = if line.len() > 0 && line[0] == '[' {
            line == "[Icon Theme]"@
        } else {
            header
        };
        let (paths, inherits) = index_scan(lines.drop_first(), h);
        if !h {
            (paths, inherits)
        } else {
            let p = if has_prefix(line, "Directories="@) {
                comma_list(line.skip(12))
            } else if has_prefix(line, "ScaledDirectories="@) {
                comma_list(line.skip(18))
            } else {
                Seq::empty()
            };
            let i = if has_prefix(line, "Inherits="@) {
                comma_list(line.skip(9))
            } else {
                Seq::empty()
            };
            (p + paths, i + inherits)
        }
    }
}

fn comma_items(value: &Vec<char>) -> (r: Vec<String>)
    ensures
        r@.map_values(|s: String| s@) == comma_list(value@),
{
    let pieces = split_chars(value, ',');
    let ghost pv = pieces@.map_values(|x: Vec<char>| x@);
    let ghost tv = pv.map_values(|p: Seq<char>| trim(p));
    let mut out: Vec<String> = Vec::new();
    let mut i: usize = 0;
    while i < pieces.len()
        invariant
            0 <= i <= pieces@.len(),
            pv == pieces@.map_values(|x: Vec<char>| x@),
            pv == split_spec(value@, ','),
            tv == pv.map_values(|p: Seq<char>| trim(p)),
            out@.map_values(|s: String| s@) == tv.take(i as int).filter(|p: Seq<char>| p.len() > 0),
        decreases pieces@.len() - i,
    {
        assert(tv.take(i + 1) =~= tv.take(i as int).push(tv[i as int]));
        proof {
            tv.take(i as int).lemma_filter_push(tv[i as int], |p: Seq<char>| p.len() > 0);
        }
        let t = trim_chars(&pieces[i]);
        if t.len() > 0 {
            let ghost before = out@.map_values(|s: String| s@);
            out.push(string_of(t.as_slice()));
            assert(out@.map_values(|s: String| s@) =~= before.push(tv[i as int]));
        }
        i += 1;
    }
    assert(tv.take(i as int) =~= tv);
    out
}

fn after(v: &Vec<char>, n: usize) -> (r: Vec<char>)
    requires
        n <= v@.len(),
    ensures
        r@ == v@.skip(n as int),
{
    let r = slice_chars(v, n, v.len());
    assert(r@ =~= v@.skip(n as int));
    r
}

/// Reads an `index.theme`: the folders of the theme and the themes it
/// inherits from, in the order written.
pub fn parse_index_theme(contents: &str) -> (r: (Vec<String>, Vec<String>))
    ensures
        (r.0@.map_values(|s: String| s@), r.1@.map_values(|s: String| s@)) == index_scan(
            lines_spec(contents@),
            false,
        ),
{
    proof {
        reveal_strlit("[Icon Theme]");
        reveal_strlit("Directories=");
        reveal_strlit("ScaledDirectories=");
        reveal_strlit("Inherits=");
        assert("Directories="@.len() == 12);
        assert("ScaledDirectories="@.len() == 18);
        assert("Inherits="@.len() == 9);
    }
    let lines = lines_of(&chars_of(contents));
    let ghost lv = lines@.map_values(|p: Vec<char>| p@);
    let title = chars_of("[Icon Theme]");
    let mut paths: Vec<String> = Vec::new();
    let mut inherits: Vec<String> = Vec::new();
    let mut header = false;
    let mut i: usize = 0;
    assert(lv.skip(0) =~= lv);
    assert(paths@.map_values(|s: String| s@) =~= Seq::<Seq<char>>::empty());
    assert(inherits@.map_values(|s: String| s@) =~= Seq::<Seq<char>>::empty());
    while i < lines.len()
        invariant
            0 <= i <= lines@.len(),
            lv == lines@.map_values(|p: Vec<char>| p@),
            lv == lines_spec(contents@),
            title@ == "[Icon Theme]"@,
            "Directories="@.len() == 12,
            "ScaledDirectories="@.len() == 18,
            "Inherits="@.len() == 9,
            index_scan(lv, false) == ({
                let (p, q) = index_scan(lv.skip(i as int), header);
                (paths@.map_values(|s: String| s@) + p, inherits@.map_values(|s: String| s@) + q)
            }),
        decreases lines@.len() - i,
    {
        assert(lv.skip(i as int).drop_first() =~= lv.skip(i + 1));
        assert(lv.skip(i as int)[0] == lines@[i as int]@);
        let line = trim_chars(&lines[i]);
        if line.len() > 0 && line[0] == '[' {
            header = crate::text::chars_equal(&line, &title);
        }
        if header {
            let ghost p0 = paths@.map_values(|s: String| s@);
            let ghost q0 = inherits@.map_values(|s: String| s@);
            let found: Vec<String> = if starts_with(&line, "Directories=") {
                comma_items(&after(&line, 12))
            } else if starts_with(&line, "ScaledDirectories=") {
                comma_items(&after(&line, 18))
            } else {
                Vec::new()
            };
            let parents: Vec<String> = if starts_with(&line, "Inherits=") {
                comma_items(&after(&line, 9))
            } else {
                Vec::new()
            };
            let ghost fv = found@.map_values(|s: String| s@);
            let ghost pv = parents@.map_values(|s: String| s@);
            let mut k: usize = 0;
            while k < found.len()
                invariant
                    0 <= k <= found@.len(),
                    fv == found@.map_values(|s: String| s@),
                    paths@.map_values(|s: String| s@) == p0 + fv.take(k as int),
                decreases found@.len() - k,
            {
                let ghost before = paths@.map_values(|s: String| s@);
                let item = found[k].clone();
                assert(item@ == fv[k as int]);
                paths.push(item);
                assert(paths@.map_values(|s: String| s@) =~= before.push(fv[k as int]));
                assert(fv.take(k + 1) =~= fv.take(k as int).push(fv[k as int]));
                assert(paths@.map_values(|s: String| s@) =~= p0 + fv.take(k + 1));
                k += 1;
            }
            let mut k: usize = 0;
            while k < parents.len()
                invariant
                    0 <= k <= parents@.len(),
                    pv == parents@.map_values(|s: String| s@),
                    inherits@.map_values(|s: String| s@) == q0 + pv.take(k as int),
                decreases parents@.len() - k,
            {
                let ghost before = inherits@.map_values(|s: String| s@);
                let item = parents[k].clone();
                assert(item@ == pv[k as int]);
                inherits.push(item);
                assert(inherits@.map_values(|s: String| s@) =~= before.push(pv[k as int]));
                assert(pv.take(k + 1) =~= pv.take(k as int).push(pv[k as int]));
                assert(inherits@.map_values(|s: String| s@) =~= q0 + pv.take(k + 1));
                k += 1;
            }
            assert(fv.take(found@.len() as int) =~= fv);
            assert(pv.take(parents@.len() as int) =~= pv);
            proof {
                let (a, b) = index_scan(lv.skip(i + 1), header);
                assert(p0 + (fv + a) =~= (p0 + fv) + a);
                assert(q0 + (pv + b) =~= (q0 + pv) + b);
            }
        }
        i += 1;
    }
    assert(lv.skip(i as int) =~= Seq::<Seq<char>>::empty());
    assert(paths@.map_values(|s: String| s@) + Seq::<Seq<char>>::empty() =~= paths@.map_values(|s: String| s@));
    assert(inherits@.map_values(|s: String| s@) + Seq::<Seq<char>>::empty() =~= inherits@.map_values(|s: String| s@));
    (paths, inherits)
}

/// How far the icons of a theme folder are from 256 pixels: the number
/// before its first `/` and `x` (such as `48x48/apps`), zero when there is
/// none.
pub open spec fn size_distance(path: Seq<char>) -> int {
    let first = split_spec(split_spec(path, '/')[0], 'x')[0];
    let size = match parse_u32_spec(first) {
        Some(n) => n as int,
        None => 0,
    };
    if size > 256 {
        size - 256
    } else {
        256 - size
    }
}

/// How far the icons of a theme folder are from 256 pixels.
pub fn folder_distance(path: &str) -> (r: u32)
    ensures
        r == size_distance(path@),
{
    let c = chars_of(path);
    let pieces = split_chars(&c, '/');
    proof {
        crate::text::lemma_split_nonempty(c@, '/');
    }
    assert(pieces@.map_values(|x: Vec<char>| x@).len() == pieces@.len());
    let first = &pieces[0];
    assert(first@ == split_spec(c@, '/')[0]);
    let parts = split_chars(first, 'x');
    proof {
        crate::text::lemma_split_nonempty(first@, 'x');
    }
    assert(parts@.map_values(|x: Vec<char>| x@).len() == parts@.len());
    assert(parts@[0]@ == split_spec(first@, 'x')[0]);
    let size = match parse_u32(&parts[0]) {
        Some(n) => n,
        None => 0,
    };
    if size > 256 {
        size - 256
    } else {
        256 - size
    }
}

/// Where a folder at distance `d` goes among folders in order: after all
/// those at the same distance or nearer.
pub open spec fn insert_position(s: Seq<Seq<char>>, d: int) -> int
    decreases s.len(),
{
    if s.len() == 0 {
        0
    } else if size_distance(s[0]) > d {
        0
    } else {
        1 + insert_position(s.drop_first(), d)
    }
}

/// Theme folders ordered by how far their icons are from 256 pixels,
/// nearest first, those at the same distance in their first order.
pub open spec fn by_distance(paths: Seq<Seq<char>>) -> Seq<Seq<char>>
    decreases paths.len(),
{
    if paths.len() == 0 {
        Seq::empty()
    } else {
        let r = by_distance(paths.drop_last());
        r.insert(insert_position(r, size_distance(paths.last())), paths.last())
    }
}

proof fn lemma_insert_position(s: Seq<Seq<char>>, d: int, j: int)
    requires
        0 <= j <= s.len(),
        forall|q: int| 0 <= q < j ==> size_distance(#[trigger] s[q]) <= d,
    ensures
        insert_position(s, d) == j + insert_position(s.skip(j), d),
    decreases j,
{
    if j > 0 {
        assert(s.skip(1).skip(j - 1) =~= s.skip(j));
        lemma_insert_position(s.drop_first(), d, j - 1);
    } else {
        assert(s.skip(0) =~= s);
    }
}

/// Orders theme folders by how far their icons are from 256 pixels,
/// nearest first; folders at the same distance keep their order.
pub fn sort_folders(paths: &mut Vec<String>)
    ensures
        final(paths)@.map_values(|s: String| s@) == by_distance(old(paths)@.map_values(|s: String| s@)),
{
    let n = paths.len();
    let mut keys: Vec<u32> = Vec::new();
    let mut k: usize = 0;
    while k < n
        invariant
            n == paths@.len(),
            0 <= k <= n,
            keys@.len() == k,
            forall|q: int| 0 <= q < k ==> #[trigger] keys@[q] == size_distance(paths@[q]@),
        decreases n - k,
    {
        keys.push(folder_distance(paths[k].as_str()));
        k += 1;
    }
    let ghost original = paths@.map_values(|s: String| s@);
    let mut i: usize = 0;
    assert(paths@.map_values(|s: String| s@) =~= by_distance(original.take(0)) + original.skip(0));
    while i < n
        invariant
            n == paths@.len(),
            n == original.len(),
            keys@.len() == n,
            0 <= i <= n,
            forall|q: int| 0 <= q < n ==> #[trigger] keys@[q] == size_distance(paths@[q]@),
            paths@.map_values(|s: String| s@) == by_distance(original.take(i as int)) + original.skip(i as int),
            by_distance(original.take(i as int)).len() == i,
        decreases n - i,
    {
        let ghost pv = paths@.map_values(|s: String| s@);
        let ghost sorted = by_distance(original.take(i as int));
        let ghost x = original[i as int];
        assert(pv[i as int] == x);
        assert(forall|q: int| 0 <= q < i ==> sorted[q] == pv[q]);
        let mut j: usize = 0;
        while j < i && keys[j] <= keys[i]
            invariant
                n == paths@.len(),
                keys@.len() == n,
                0 <= j <= i < n,
                pv == paths@.map_values(|s: String| s@),
                forall|q: int| 0 <= q < n ==> #[trigger] keys@[q] == size_distance(paths@[q]@),
                forall|q: int| 0 <= q < j ==> #[trigger] keys@[q] <= keys@[i as int],
            decreases i - j,
        {
            j += 1;
        }
        proof {
            assert forall|q: int| 0 <= q < j implies size_distance(#[trigger] sorted[q]) <= size_distance(x) by {
                assert(keys@[q] == size_distance(paths@[q]@));
                assert(paths@[q]@ == pv[q]);
            }
            lemma_insert_position(sorted, size_distance(x), j as int);
            if j < i {
                assert(keys@[j as int] == size_distance(paths@[j as int]@));
                assert(size_distance(sorted.skip(j as int)[0]) > size_distance(x));
            }
            assert(insert_position(sorted, size_distance(x)) == j);
            assert(original.take(i + 1).drop_last() =~= original.take(i as int));
            assert(original.take(i + 1).last() == x);
        }
        let item = paths.remove(i);
        paths.insert(j, item);
        let key = keys.remove(i);
        keys.insert(j, key);
        proof {
            let after_sorted = by_distance(original.take(i + 1));
            assert(after_sorted == sorted.insert(j as int, x));
            assert(paths@.map_values(|s: String| s@) =~= pv.remove(i as int).insert(j as int, x));
            assert(pv.remove(i as int) =~= sorted + original.skip(i + 1));
            assert((sorted + original.skip(i + 1)).insert(j as int, x) =~= sorted.insert(j as int, x) + original.skip(i + 1));
            assert(paths@.map_values(|s: String| s@) =~= after_sorted + original.skip(i + 1));
        }
        i += 1;
    }
    assert(original.take(n as int) =~= original);
    assert(original.skip(n as int) =~= Seq::<Seq<char>>::empty());
    assert(paths@.map_values(|s: String| s@) =~= by_distance(original));
}

/// Whether a theme name is a single path component.
pub open spec fn single_component(name: Seq<char>) -> bool {
    path_components(encode_utf8(name)).len() == 1
}

/// The views of a vector of strings.
pub open spec fn texts(v: Seq<String>) -> Seq<Seq<char>> {
    v.map_values(|s: String| s@)
}

/// The folders a theme adds under each root whose `index.theme` was read:
/// the theme's folder, then its listed folders nearest to 256 pixels first.
pub open spec fn theme_folders(roots: Seq<Seq<char>>, theme: Seq<char>, indexes: Seq<Option<Seq<char>>>) -> Seq<Seq<char>>
    decreases roots.len(),
{
    if roots.len() == 0 {
        Seq::empty()
    } else {
        let n = roots.len() - 1;
        let earlier = theme_folders(roots.drop_last(), theme, indexes);
        match indexes[n] {
            Some(c) => {
                let base = join_path(roots[n], theme);
                earlier + seq![base] + by_distance(index_scan(lines_spec(c), false).0).map_values(
                    |p: Seq<char>| join_path(base, p),
                )
            },
            None => earlier,
        }
    }
}

/// The themes inherited, as the `index.theme` of each root lists them.
pub open spec fn theme_parents(roots_len: int, indexes: Seq<Option<Seq<char>>>) -> Seq<Seq<char>>
    decreases roots_len,
{
    if roots_len <= 0 {
        Seq::empty()
    } else {
        let earlier = theme_parents(roots_len - 1, indexes);
        match indexes[roots_len - 1] {
            Some(c) => earlier + index_scan(lines_spec(c), false).1,
            None => earlier,
        }
    }
}

/// The walk through icon themes: the themes still to visit (the next one
/// last), those visited, and the folders found so far.
pub struct ThemeWalk {
    pub roots: Vec<String>,
    pub pending: Vec<String>,
    pub visited: Vec<String>,
    pub directories: Vec<String>,
}

/// The themes that come first, the configured one before the usual ones,
/// in the order they are visited.
pub open spec fn first_themes(theme: Option<Seq<char>>) -> Seq<Seq<char>> {
    let usual = seq!["hicolor"@, "breeze"@, "Adwaita"@, "oxygen"@];
    match theme {
        Some(t) => seq![t] + usual,
        None => usual,
    }
}

/// The next theme to visit: from the top of `pending`, the first that is
/// a single name not visited yet.
pub open spec fn next_pending(pending: Seq<Seq<char>>, visited: Seq<Seq<char>>) -> (Option<Seq<char>>, Seq<Seq<char>>)
    decreases pending.len(),
{
    if pending.len() == 0 {
        (None, pending)
    } else {
        let t = pending.last();
        if single_component(t) && !visited.contains(t) {
            (Some(t), pending.drop_last())
        } else {
            next_pending(pending.drop_last(), visited)
        }
    }
}

fn push_all(out: &mut Vec<String>, items: &Vec<String>)
    ensures
        texts(final(out)@) == texts(old(out)@) + texts(items@),
{
    let ghost start = texts(out@);
    let mut i: usize = 0;
    while i < items.len()
        invariant
            0 <= i <= items@.len(),
            texts(out@) == start + texts(items@).take(i as int),
        decreases items@.len() - i,
    {
        let ghost before = texts(out@);
        let item = items[i].clone();
        out.push(item);
        assert(texts(out@) =~= before.push(texts(items@)[i as int]));
        assert(texts(items@).take(i + 1) =~= texts(items@).take(i as int).push(texts(items@)[i as int]));
        i += 1;
    }
    assert(texts(items@).take(i as int) =~= texts(items@));
}

fn contains_text(items: &Vec<String>, t: &str) -> (r: bool)
    ensures
        r == texts(items@).contains(t@),
{
    let mut i: usize = 0;
    while i < items.len()
        invariant
            0 <= i <= items@.len(),
            forall|q: int| 0 <= q < i ==> texts(items@)[q] != t@,
        decreases items@.len() - i,
    {
        if str_equal(items[i].as_str(), t) {
            assert(texts(items@)[i as int] == t@);
            return true;
        }
        i += 1;
    }
    false
}

impl ThemeWalk {
    /// Starts the walk over the icon folders `roots`, with the configured
    /// theme, if any, before `hicolor`, `breeze`, `Adwaita` and `oxygen`;
    /// the roots themselves are the first folders.
    pub fn new(roots: Vec<String>, theme: Option<String>) -> (r: ThemeWalk)
        ensures
            texts(r.roots@) == texts(roots@),
            texts(r.directories@) == texts(roots@),
            r.visited@.len() == 0,
            texts(r.pending@) == first_themes(crate::storage::opt_view(theme)).reverse(),
    {
        let mut directories: Vec<String> = Vec::new();
        push_all(&mut directories, &roots);
        assert(texts(directories@) =~= texts(roots@));
        let mut pending: Vec<String> = Vec::new();
        pending.push(owned("oxygen"));
        pending.push(owned("Adwaita"));
        pending.push(owned("breeze"));
        pending.push(owned("hicolor"));
        let ghost tv = crate::storage::opt_view(theme);
        match theme {
            Some(t) => pending.push(t),
            None => {},
        }
        assert(texts(pending@) =~= first_themes(tv).reverse());
        ThemeWalk { roots, pending, visited: Vec::new(), directories }
    }

    /// The next theme to visit, marked visited; none when the walk is over.
    pub fn next_theme(&mut self) -> (r: Option<String>)
        ensures
            ({
                let (n, rest) = next_pending(texts(old(self).pending@), texts(old(self).visited@));
                &&& match r {
                    Some(t) => n == Some(t@) && texts(final(self).visited@) == texts(old(self).visited@).push(t@),
                    None => n is None && texts(final(self).visited@) == texts(old(self).visited@),
                }
                &&& texts(final(self).pending@) == rest
            }),
            texts(final(self).roots@) == texts(old(self).roots@),
            texts(final(self).directories@) == texts(old(self).directories@),
    {
        let ghost target = next_pending(texts(self.pending@), texts(self.visited@));
        while self.pending.len() > 0
            invariant
                next_pending(texts(self.pending@), texts(self.visited@)) == target,
                target == next_pending(texts(old(self).pending@), texts(old(self).visited@)),
                texts(self.visited@) == texts(old(self).visited@),
                texts(self.roots@) == texts(old(self).roots@),
                texts(self.directories@) == texts(old(self).directories@),
            decreases self.pending@.len(),
        {
            let ghost before = texts(self.pending@);
            let t = self.pending.pop().unwrap();
            assert(texts(self.pending@) =~= before.drop_last());
            assert(before.last() == t@);
            let comps = crate::storage::components(t.as_str().as_bytes());
            assert(comps@.map_values(|c: Vec<u8>| c@).len() == comps@.len());
            let single = comps.len() == 1;
            assert(single == single_component(t@));
            if single && !contains_text(&self.visited, t.as_str()) {
                let ghost tv = t@;
                assert(next_pending(before, texts(self.visited@)) == (Some(tv), before.drop_last()));
                assert(target == (Some(tv), before.drop_last()));
                self.visited.push(t.clone());
                assert(texts(self.visited@) =~= texts(old(self).visited@).push(tv));
                return Some(t);
            }
        }
        None
    }

    /// Visits `theme`, given the contents of its `index.theme` under each
    /// root where one could be read: adds its folders, and the themes it
    /// inherits from to visit next, in their order.
    pub fn visit(&mut self, theme: &str, indexes: &Vec<Option<String>>)
        requires
            indexes@.len() == old(self).roots@.len(),
        ensures
            texts(final(self).directories@) == texts(old(self).directories@) + theme_folders(
                texts(old(self).roots@),
                theme@,
                indexes@.map_values(|c: Option<String>| crate::storage::opt_view(c)),
            ),
            texts(final(self).pending@) == texts(old(self).pending@) + theme_parents(
                old(self).roots@.len() as int,
                indexes@.map_values(|c: Option<String>| crate::storage::opt_view(c)),
            ).reverse(),
            texts(final(self).roots@) == texts(old(self).roots@),
            texts(final(self).visited@) == texts(old(self).visited@),
    {
        let ghost iv = indexes@.map_values(|c: Option<String>| crate::storage::opt_view(c));
        let ghost rv = texts(self.roots@);
        let ghost d0 = texts(self.directories@);
        let mut parents: Vec<String> = Vec::new();
        let mut i: usize = 0;
        assert(rv.take(0) =~= Seq::<Seq<char>>::empty());
        while i < self.roots.len()
            invariant
                0 <= i <= self.roots@.len(),
                indexes@.len() == self.roots@.len(),
                rv == texts(self.roots@),
                iv == indexes@.map_values(|c: Option<String>| crate::storage::opt_view(c)),
                texts(self.directories@) == d0 + theme_folders(rv.take(i as int), theme@, iv),
                texts(parents@) == theme_parents(i as int, iv),
                texts(self.pending@) == texts(old(self).pending@),
                texts(self.visited@) == texts(old(self).visited@),
            decreases self.roots@.len() - i,
        {
            assert(rv.take(i + 1).drop_last() =~= rv.take(i as int));
            assert(rv.take(i + 1).last() == rv[i as int]);
            match &indexes[i] {
                Some(contents) => {
                    let (mut folders, inherited) = parse_index_theme(contents.as_str());
                    sort_folders(&mut folders);
                    let base = join(self.roots[i].as_str(), theme);
                    let ghost before = texts(self.directories@);
                    self.directories.push(base.clone());
                    let mut k: usize = 0;
                    let ghost fv = texts(folders@);
                    while k < folders.len()
                        invariant
                            0 <= k <= folders@.len(),
                            fv == texts(folders@),
                            texts(self.directories@) == before + seq![base@] + fv.take(k as int).map_values(
                                |p: Seq<char>| join_path(base@, p),
                            ),
                            texts(self.pending@) == texts(old(self).pending@),
                            texts(self.visited@) == texts(old(self).visited@),
                            texts(self.roots@) == rv,
                        decreases folders@.len() - k,
                    {
                        let ghost b2 = texts(self.directories@);
                        let folder = join(base.as_str(), folders[k].as_str());
                        self.directories.push(folder);
                        assert(texts(self.directories@) =~= b2.push(join_path(base@, fv[k as int])));
                        assert(fv.take(k + 1) =~= fv.take(k as int).push(fv[k as int]));
                        k += 1;
                    }
                    assert(fv.take(k as int) =~= fv);
                    push_all(&mut parents, &inherited);
                },
                None => {},
            }
            i += 1;
        }
        assert(rv.take(i as int) =~= rv);
        let mut k: usize = parents.len();
        let ghost pv = texts(parents@);
        let ghost p0 = texts(self.pending@);
        assert(pv.skip(k as int).reverse() =~= Seq::<Seq<char>>::empty());
        while k > 0
            invariant
                0 <= k <= parents@.len(),
                pv == texts(parents@),
                texts(self.pending@) == p0 + pv.skip(k as int).reverse(),
                texts(self.roots@) == rv,
                texts(self.directories@) == d0 + theme_folders(rv, theme@, iv),
                texts(self.visited@) == texts(old(self).visited@),
            decreases k,
        {
            let ghost b2 = texts(self.pending@);
            self.pending.push(parents[k - 1].clone());
            assert(texts(self.pending@) =~= b2.push(pv[k - 1]));
            assert(pv.skip(k - 1).reverse() =~= pv.skip(k as int).reverse().push(pv[k - 1]));
            k -= 1;
        }
        assert(pv.skip(0) =~= pv);
    }
}

/// The folders searched for icon themes: `.icons` in the personal folder
/// (the current folder's when there is none), then `icons` in each data
/// folder.
pub open spec fn icon_roots_spec(home: Option<Seq<char>>, data_dirs: Seq<Seq<char>>) -> Seq<Seq<char>> {
    seq![join_path(match home { Some(h) => h, None => Seq::empty() }, ".icons"@)] + data_dirs.map_values(
        |d: Seq<char>| join_path(d, "icons"@),
    )
}

fn join_each(dirs: &Vec<String>, name: &str) -> (r: Vec<String>)
    ensures
        texts(r@) == texts(dirs@).map_values(|d: Seq<char>| join_path(d, name@)),
{
    let mut out: Vec<String> = Vec::new();
    let mut i: usize = 0;
    while i < dirs.len()
        invariant
            0 <= i <= dirs@.len(),
            texts(out@) == texts(dirs@).take(i as int).map_values(|d: Seq<char>| join_path(d, name@)),
        decreases dirs@.len() - i,
    {
        let ghost before = texts(out@);
        out.push(join(dirs[i].as_str(), name));
        assert(texts(out@) =~= before.push(join_path(texts(dirs@)[i as int], name@)));
        assert(texts(dirs@).take(i + 1) =~= texts(dirs@).take(i as int).push(texts(dirs@)[i as int]));
        i += 1;
    }
    assert(texts(dirs@).take(i as int) =~= texts(dirs@));
    out
}

/// The folders searched for icon themes.
pub fn icon_roots(home: &Option<String>, data_dirs: &Vec<String>) -> (r: Vec<String>)
    ensures
        texts(r@) == icon_roots_spec(crate::storage::opt_view(*home), texts(data_dirs@)),
{
    proof {
        reveal_strlit("");
        assert(""@ =~= Seq::<char>::empty());
    }
    let first = match home {
        Some(h) => join(h.as_str(), ".icons"),
        None => join("", ".icons"),
    };
    let mut out: Vec<String> = Vec::new();
    out.push(first);
    let rest = join_each(data_dirs, "icons");
    let ghost first_view = texts(out@);
    push_all(&mut out, &rest);
    assert(texts(out@) =~= icon_roots_spec(crate::storage::opt_view(*home), texts(data_dirs@)));
    out
}

/// The `pixmaps` folders of the data folders, searched last.
pub fn pixmap_folders(data_dirs: &Vec<String>) -> (r: Vec<String>)
    ensures
        texts(r@) == texts(data_dirs@).map_values(|d: Seq<char>| join_path(d, "pixmaps"@)),
{
    join_each(data_dirs, "pixmaps")
}

/// The raster image formats an icon file may have, in the order tried.
pub open spec fn raster(k: int) -> Seq<char> {
    if k == 0 { "png"@ } else if k == 1 { "webp"@ } else if k == 2 { "ico"@ } else if k == 3 { "jpg"@ }
    else if k == 4 { "jpeg"@ } else { "gif"@ }
}

fn raster_name(k: usize) -> (r: &'static str)
    requires
        k < 6,
    ensures
        r@ == raster(k as int),
{
    if k == 0 { "png" } else if k == 1 { "webp" } else if k == 2 { "ico" } else if k == 3 { "jpg" }
    else if k == 4 { "jpeg" } else { "gif" }
}

/// Whether an extension is a raster format.
pub open spec fn is_raster(e: Seq<char>) -> bool {
    exists|k: int| 0 <= k < 6 && raster(k) == e
}

/// The position of the last `c` in `s`.
pub open spec fn last_index(s: Seq<char>, c: char) -> Option<int>
    decreases s.len(),
{
    if s.len() == 0 {
        None
    } else if s.last() == c {
        Some(s.len() - 1)
    } else {
        last_index(s.drop_last(), c)
    }
}

/// `s` without trailing separators and trailing `.` components.
pub open spec fn strip_trailing(s: Seq<char>) -> Seq<char>
    decreases s.len(),
{
    if s.len() > 1 && s.last() == '/' {
        strip_trailing(s.drop_last())
    } else if s.len() > 1 && s.last() == '.' && s[s.len() - 2] == '/' {
        strip_trailing(s.drop_last())
    } else {
        s
    }
}

/// The name after the last separator of a path.
pub open spec fn last_name(s: Seq<char>) -> Seq<char> {
    match last_index(s, '/') {
        Some(i) => s.skip(i + 1),
        None => s,
    }
}

/// The extension of an icon name: after the last `.` of its last name,
/// unless that name starts with its only `.`.
pub open spec fn name_extension(s: Seq<char>) -> Seq<char> {
    let n = last_name(strip_trailing(s));
    match last_index(n, '.') {
        Some(i) => if i > 0 && n != ".."@ { n.skip(i + 1) } else { Seq::empty() },
        None => Seq::empty(),
    }
}

/// An absolute icon path with its extension replaced by `ext`
/// (`Path::with_extension`).
pub open spec fn with_extension(s: Seq<char>, ext: Seq<char>) -> Seq<char> {
    let t = strip_trailing(s);
    let n = last_name(t);
    if n.len() == 0 || n == ".."@ || n == "."@ {
        s
    } else {
        let start = t.len() - n.len();
        let stem_end = match last_index(n, '.') {
            Some(i) => if i > 0 { start + i } else { t.len() as int },
            None => t.len() as int,
        };
        s.take(stem_end) + "."@ + ext
    }
}

/// The stem of an icon name: without its extension when that is an image
/// format, the whole name otherwise.
pub open spec fn icon_stem(name: Seq<char>) -> Option<Seq<char>> {
    let e = name_extension(name);
    if is_raster(e) || e == "svg"@ || e == "svgz"@ || e == "xpm"@ {
        if name == "."@ || name == ".."@ {
            None
        } else {
            match last_index(name, '.') {
                Some(i) => if i > 0 { Some(name.take(i)) } else { Some(name) },
                None => Some(name),
            }
        }
    } else {
        Some(name)
    }
}

/// The files in `dir` that an icon name stands for, in the order tried.
pub open spec fn folder_candidates(dir: Seq<char>, name: Seq<char>, stem: Seq<char>) -> Seq<Seq<char>> {
    (if is_raster(name_extension(name)) { seq![join_path(dir, name)] } else { Seq::empty() }) + Seq::new(
        6,
        |k: int| join_path(dir, stem + "."@ + raster(k)),
    )
}

/// The files in the folders, folder by folder.
pub open spec fn all_candidates(dirs: Seq<Seq<char>>, name: Seq<char>, stem: Seq<char>) -> Seq<Seq<char>>
    decreases dirs.len(),
{
    if dirs.len() == 0 {
        Seq::empty()
    } else {
        all_candidates(dirs.drop_last(), name, stem) + folder_candidates(dirs.last(), name, stem)
    }
}

/// The files that an icon name can stand for, in the order tried: an
/// absolute path itself when it names an image, then with each image
/// extension; a plain name in each icon folder, with its own image
/// extension or with each; nothing for a relative path of several parts.
pub open spec fn icon_candidates_spec(name: Seq<char>, dirs: Seq<Seq<char>>) -> Seq<Seq<char>> {
    if name.len() > 0 && name[0] == '/' {
        (if is_raster(name_extension(name)) { seq![name] } else { Seq::empty() }) + Seq::new(
            6,
            |k: int| with_extension(name, raster(k)),
        )
    } else if path_components(encode_utf8(name)).len() != 1 {
        Seq::empty()
    } else {
        match icon_stem(name) {
            Some(stem) => all_candidates(dirs, name, stem),
            None => Seq::empty(),
        }
    }
}

proof fn lemma_last_index(s: Seq<char>, c: char)
    ensures
        last_index(s, c) matches Some(i) ==> 0 <= i < s.len() && s[i] == c,
    decreases s.len(),
{
    if s.len() > 0 && s.last() != c {
        lemma_last_index(s.drop_last(), c);
    }
}

proof fn lemma_strip_trailing(s: Seq<char>)
    ensures
        strip_trailing(s).len() <= s.len(),
        strip_trailing(s) == s.take(strip_trailing(s).len() as int),
    decreases s.len(),
{
    if s.len() > 1 && (s.last() == '/' || (s.last() == '.' && s[s.len() - 2] == '/')) {
        lemma_strip_trailing(s.drop_last());
        assert(s.drop_last().take(strip_trailing(s).len() as int) =~= s.take(strip_trailing(s).len() as int));
    } else {
        assert(s.take(s.len() as int) =~= s);
    }
}

fn last_index_of(s: &Vec<char>, c: char) -> (r: Option<usize>)
    ensures
        match r {
            Some(i) => last_index(s@, c) == Some(i as int) && i < s@.len(),
            None => last_index(s@, c) is None,
        },
{
    let mut i: usize = s.len();
    assert(s@.take(i as int) =~= s@);
    while i > 0
        invariant
            0 <= i <= s@.len(),
            last_index(s@, c) == last_index(s@.take(i as int), c),
        decreases i,
    {
        assert(s@.take(i as int).drop_last() =~= s@.take(i - 1));
        if s[i - 1] == c {
            return Some(i - 1);
        }
        i -= 1;
    }
    None
}

fn strip_trailing_chars(s: &Vec<char>) -> (r: Vec<char>)
    ensures
        r@ == strip_trailing(s@),
{
    let mut n: usize = s.len();
    assert(s@.take(n as int) =~= s@);
    while n > 1 && (s[n - 1] == '/' || (s[n - 1] == '.' && s[n - 2] == '/'))
        invariant
            0 <= n <= s@.len(),
            strip_trailing(s@) == strip_trailing(s@.take(n as int)),
        decreases n,
    {
        assert(s@.take(n as int).drop_last() =~= s@.take(n - 1));
        n -= 1;
    }
    let r = slice_chars(s, 0, n);
    assert(r@ =~= s@.take(n as int));
    r
}

fn last_name_chars(s: &Vec<char>) -> (r: Vec<char>)
    ensures
        r@ == last_name(s@),
{
    let len = s.len();
    match last_index_of(s, '/') {
        Some(i) => {
            let r = slice_chars(s, i + 1, len);
            assert(r@ =~= s@.skip(i + 1));
            r
        },
        None => slice_chars(s, 0, s.len()),
    }
}

fn is_dots(n: &Vec<char>, count: usize) -> (r: bool)
    requires
        count == 1 || count == 2,
    ensures
        count == 1 ==> r == (n@ == "."@),
        count == 2 ==> r == (n@ == ".."@),
{
    proof {
        reveal_strlit(".");
        reveal_strlit("..");
    }
    if count == 1 {
        let r = n.len() == 1 && n[0] == '.';
        proof {
            if r { assert(n@ =~= "."@); }
            if n@ == "."@ { assert(n@[0] == '.'); }
        }
        r
    } else {
        let r = n.len() == 2 && n[0] == '.' && n[1] == '.';
        proof {
            if r { assert(n@ =~= ".."@); }
            if n@ == ".."@ { assert(n@[0] == '.' && n@[1] == '.'); }
        }
        r
    }
}

fn extension_of(name: &Vec<char>) -> (r: Vec<char>)
    ensures
        r@ == name_extension(name@),
{
    let t = strip_trailing_chars(name);
    let n = last_name_chars(&t);
    let len = n.len();
    match last_index_of(&n, '.') {
        Some(i) => if i > 0 && !is_dots(&n, 2) {
            let r = slice_chars(&n, i + 1, len);
            assert(r@ =~= n@.skip(i + 1));
            r
        } else {
            Vec::new()
        },
        None => Vec::new(),
    }
}

fn raster_index(e: &Vec<char>) -> (r: bool)
    ensures
        r == is_raster(e@),
{
    let mut k: usize = 0;
    while k < 6
        invariant
            0 <= k <= 6,
            forall|q: int| 0 <= q < k ==> raster(q) != e@,
        decreases 6 - k,
    {
        if crate::text::chars_equal(e, &chars_of(raster_name(k))) {
            return true;
        }
        k += 1;
    }
    false
}

fn replaced_extension(s: &Vec<char>, ext: &str) -> (r: String)
    ensures
        r@ == with_extension(s@, ext@),
{
    let t = strip_trailing_chars(s);
    let n = last_name_chars(&t);
    if n.len() == 0 || is_dots(&n, 2) || is_dots(&n, 1) {
        return string_of(s.as_slice());
    }
    proof {
        lemma_last_index(t@, '/');
        lemma_strip_trailing(s@);
        lemma_last_index(n@, '.');
    }
    let start = t.len() - n.len();
    let stem_end = match last_index_of(&n, '.') {
        Some(i) => if i > 0 { start + i } else { t.len() },
        None => t.len(),
    };
    proof {
        reveal_strlit(".");
    }
    let mut out = string_of(slice_chars(s, 0, stem_end).as_slice());
    crate::text::push_str(&mut out, ".");
    crate::text::push_str(&mut out, ext);
    assert(out@ =~= s@.take(stem_end as int) + "."@ + ext@);
    out
}

fn stem_of(name: &Vec<char>) -> (r: Option<Vec<char>>)
    ensures
        match r {
            Some(st) => icon_stem(name@) == Some(st@),
            None => icon_stem(name@) is None,
        },
{
    proof {
        reveal_strlit("svg");
        reveal_strlit("svgz");
        reveal_strlit("xpm");
    }
    let e = extension_of(name);
    let image_like = raster_index(&e) || crate::text::chars_equal(&e, &chars_of("svg"))
        || crate::text::chars_equal(&e, &chars_of("svgz")) || crate::text::chars_equal(&e, &chars_of("xpm"));
    if !image_like {
        return Some(slice_chars(name, 0, name.len()));
    }
    if is_dots(name, 1) || is_dots(name, 2) {
        return None;
    }
    match last_index_of(name, '.') {
        Some(i) => if i > 0 {
            let r = slice_chars(name, 0, i);
            assert(r@ =~= name@.take(i as int));
            Some(r)
        } else {
            Some(slice_chars(name, 0, name.len()))
        },
        None => Some(slice_chars(name, 0, name.len())),
    }
}

fn push_text(out: &mut Vec<String>, item: String)
    ensures
        texts(final(out)@) == texts(old(out)@).push(item@),
{
    out.push(item);
    assert(texts(final(out)@) =~= texts(old(out)@).push(item@));
}

fn push_folder_candidates(out: &mut Vec<String>, dir: &str, name: &str, stem: &str, raster_name_ext: bool)
    requires
        raster_name_ext == is_raster(name_extension(name@)),
    ensures
        texts(final(out)@) == texts(old(out)@) + folder_candidates(dir@, name@, stem@),
{
    let ghost start = texts(out@);
    if raster_name_ext {
        push_text(out, join(dir, name));
    }
    let ghost head = texts(out@);
    let mut k: usize = 0;
    while k < 6
        invariant
            0 <= k <= 6,
            texts(out@) == head + Seq::new(6, |q: int| join_path(dir@, stem@ + "."@ + raster(q))).take(k as int),
        decreases 6 - k,
    {
        let mut file = owned(stem);
        crate::text::push_str(&mut file, ".");
        crate::text::push_str(&mut file, raster_name(k));
        proof {
            reveal_strlit(".");
        }
        let ghost before = texts(out@);
        push_text(out, join(dir, file.as_str()));
        assert(Seq::new(6, |q: int| join_path(dir@, stem@ + "."@ + raster(q))).take(k + 1) =~= Seq::new(
            6,
            |q: int| join_path(dir@, stem@ + "."@ + raster(q)),
        ).take(k as int).push(join_path(dir@, stem@ + "."@ + raster(k as int))));
        k += 1;
    }
    assert(Seq::new(6, |q: int| join_path(dir@, stem@ + "."@ + raster(q))).take(6) =~= Seq::new(
        6,
        |q: int| join_path(dir@, stem@ + "."@ + raster(q)),
    ));
    proof {
        if raster_name_ext {
            assert(head == start.push(join_path(dir@, name@)));
        } else {
            assert(head == start);
        }
    }
    assert(texts(out@) =~= start + folder_candidates(dir@, name@, stem@));
}

/// The files that the icon `name` can stand for, in the order they are
/// tried, the icon folders being `dirs`.
pub fn icon_candidates(name: &str, dirs: &Vec<String>) -> (r: Vec<String>)
    ensures
        texts(r@) == icon_candidates_spec(name@, texts(dirs@)),
{
    let c = chars_of(name);
    let e = extension_of(&c);
    let is_image = raster_index(&e);
    let mut out: Vec<String> = Vec::new();
    if c.len() > 0 && c[0] == '/' {
        if is_image {
            push_text(&mut out, owned(name));
        }
        let ghost head = texts(out@);
        let mut k: usize = 0;
        while k < 6
            invariant
                0 <= k <= 6,
                c@ == name@,
                texts(out@) == head + Seq::new(6, |q: int| with_extension(name@, raster(q))).take(k as int),
            decreases 6 - k,
        {
            push_text(&mut out, replaced_extension(&c, raster_name(k)));
            assert(Seq::new(6, |q: int| with_extension(name@, raster(q))).take(k + 1) =~= Seq::new(
                6,
                |q: int| with_extension(name@, raster(q)),
            ).take(k as int).push(with_extension(name@, raster(k as int))));
            k += 1;
        }
        assert(Seq::new(6, |q: int| with_extension(name@, raster(q))).take(6) =~= Seq::new(
            6,
            |q: int| with_extension(name@, raster(q)),
        ));
        assert(texts(out@) =~= icon_candidates_spec(name@, texts(dirs@)));
        return out;
    }
    let comps = crate::storage::components(name.as_bytes());
    assert(comps@.map_values(|x: Vec<u8>| x@).len() == comps@.len());
    if comps.len() != 1 {
        assert(texts(out@) =~= Seq::<Seq<char>>::empty());
        return out;
    }
    let stem = match stem_of(&c) {
        Some(st) => string_of(st.as_slice()),
        None => {
            assert(texts(out@) =~= Seq::<Seq<char>>::empty());
            return out;
        },
    };
    let ghost dv = texts(dirs@);
    let mut i: usize = 0;
    assert(dv.take(0) =~= Seq::<Seq<char>>::empty());
    assert(texts(out@) =~= all_candidates(dv.take(0), name@, stem@));
    while i < dirs.len()
        invariant
            0 <= i <= dirs@.len(),
            dv == texts(dirs@),
            is_image == is_raster(name_extension(name@)),
            texts(out@) == all_candidates(dv.take(i as int), name@, stem@),
        decreases dirs@.len() - i,
    {
        assert(dv.take(i + 1).drop_last() =~= dv.take(i as int));
        assert(dv.take(i + 1).last() == dirs@[i as int]@);
        push_folder_candidates(&mut out, dirs[i].as_str(), name, stem.as_str(), is_image);
        i += 1;
    }
    assert(dv.take(i as int) =~= dv);
    out
}

/// The warning when an image could not be shown: only a configured
/// logo file that could not be read or prepared is reported.
pub fn image_warning(source: &Source, prepared: bool) -> (r: Option<&'static str>)
    ensures
        match r {
            Some(m) => !prepared && source is File && m@ == "No se pudo cargar el logo configurado"@,
            None => prepared || source is Icon,
        },
{
    match source {
        Source::File(_) => if prepared {
            None
        } else {
            Some("No se pudo cargar el logo configurado")
        },
        Source::Icon(_) => None,
    }
}

} // verus!
