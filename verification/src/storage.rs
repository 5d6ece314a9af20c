//! Disks behind the personal folder and the system root: reading the
//! kernel's mount table, choosing the mount that holds a path, and reading
//! the usage that `df` reports.
use vstd::prelude::*;
use vstd::string::StringSliceAdditionalSpecFns;
use vstd::utf8::{encode_utf8, valid_utf8};
use crate::text::{
    chars_of, string_of, lines_of, lines_spec, words_of, words_spec, split_once_str, split_once_sub,
    split_once_char, split_once_spec, parse_u32, parse_u32_spec, parse_u64, parse_u64_spec, trim,
    trim_chars, trim_string, str_equal,
};
use crate::i18n::Translator;

verus! {

/// Whether `b` is an octal digit.
pub open spec fn is_octal(b: u8) -> bool {
    0x30 <= b && b <= 0x37
}

/// A path from the mount table with its `\NNN` octal escapes decoded; an
/// escape whose value would not fit in a byte stays as it is.
pub open spec fn unescape_bytes(s: Seq<u8>) -> Seq<u8>
    decreases s.len(),
{
    if s.len() == 0 {
        Seq::empty()
    } else if s.len() >= 4 && s[0] == 0x5c && is_octal(s[1]) && is_octal(s[2]) && is_octal(s[3])
        && s[1] <= 0x33 {
        seq![((s[1] - 0x30) * 64 + (s[2] - 0x30) * 8 + (s[3] - 0x30)) as u8] + unescape_bytes(
            s.skip(4),
        )
    } else {
        seq![s[0]] + unescape_bytes(s.skip(1))
    }
}

/// Decodes the octal escapes of a path in the mount table.
pub fn unescape_path(value: &str) -> (r: Vec<u8>)
    ensures
        r@ == unescape_bytes(value.spec_bytes()),
{
    let input = value.as_bytes();
    let mut decoded: Vec<u8> = Vec::new();
    let mut index: usize = 0;
    assert(input@.skip(0) =~= input@);
    assert(decoded@ + unescape_bytes(input@) =~= unescape_bytes(input@));
    while index < input.len()
        invariant
            0 <= index <= input@.len(),
            input@ == value.spec_bytes(),
            decoded@ + unescape_bytes(input@.skip(index as int)) == unescape_bytes(input@),
        decreases input@.len() - index,
    {
        let ghost rest = input@.skip(index as int);
        if input.len() - index >= 4 && input[index] == 0x5c && 0x30 <= input[index + 1]
            && input[index + 1] <= 0x33 && 0x30 <= input[index + 2] && input[index + 2] <= 0x37
            && 0x30 <= input[index + 3] && input[index + 3] <= 0x37 {
            let value: u8 = (input[index + 1] - 0x30) * 64 + (input[index + 2] - 0x30) * 8 + (input[
                index + 3] - 0x30);
            assert(rest.skip(4) =~= input@.skip(index + 4));
            assert(decoded@.push(value) + unescape_bytes(input@.skip(index + 4)) =~= decoded@
                + unescape_bytes(rest));
            decoded.push(value);
            index += 4;
        } else {
            assert(rest.skip(1) =~= input@.skip(index + 1));
            assert(decoded@.push(input@[index as int]) + unescape_bytes(input@.skip(index + 1))
                =~= decoded@ + unescape_bytes(rest));
            decoded.push(input[index]);
            index += 1;
        }
    }
    assert(input@.skip(index as int) =~= Seq::<u8>::empty());
    assert(decoded@ + Seq::<u8>::empty() =~= decoded@);
    decoded
}

/// The pieces of a byte string between occurrences of `/`, empty ones
/// included.
pub open spec fn path_pieces(s: Seq<u8>) -> Seq<Seq<u8>>
    decreases s.len(),
{
    if s.len() == 0 {
        seq![Seq::empty()]
    } else {
        let r = path_pieces(s.drop_last());
        if s.last() == 0x2f {
            r.push(Seq::empty())
        } else {
            r.update(r.len() - 1, r.last().push(s.last()))
        }
    }
}

proof fn lemma_path_pieces_nonempty(s: Seq<u8>)
    ensures
        path_pieces(s).len() >= 1,
    decreases s.len(),
{
    if s.len() > 0 {
        lemma_path_pieces_nonempty(s.drop_last());
    }
}

/// A piece that names a directory or file: neither empty nor `.`.
pub open spec fn is_named_piece(p: Seq<u8>) -> bool {
    p.len() > 0 && p != seq![0x2eu8]
}

/// `Path::components` of a Unix path: the root as `/` when the path is
/// absolute, a leading `.` when a relative path starts with it, then the
/// named pieces between slashes.
pub open spec fn path_components(p: Seq<u8>) -> Seq<Seq<u8>> {
    let pieces = path_pieces(p);
    let named = pieces.filter(|q: Seq<u8>| is_named_piece(q));
    if p.len() > 0 && p[0] == 0x2f {
        seq![seq![0x2fu8]] + named
    } else if pieces[0] == seq![0x2eu8] {
        seq![seq![0x2eu8]] + named
    } else {
        named
    }
}

/// `Path::starts_with`: the components of `base` begin those of `path`.
pub open spec fn path_starts_with(path: Seq<u8>, base: Seq<u8>) -> bool {
    let p = path_components(path);
    let b = path_components(base);
    b.len() <= p.len() && p.take(b.len() as int) == b
}

fn bytes_equal(a: &Vec<u8>, b: &Vec<u8>) -> (r: bool)
    ensures
        r == (a@ == b@),
{
    if a.len() != b.len() {
        return false;
    }
    let mut i: usize = 0;
    while i < a.len()
        invariant
            a@.len() == b@.len(),
            0 <= i <= a@.len(),
            forall|k: int| 0 <= k < i ==> a@[k] == b@[k],
        decreases a@.len() - i,
    {
        if a[i] != b[i] {
            return false;
        }
        i += 1;
    }
    assert(a@ =~= b@);
    true
}

/// Splits a path at its slashes.
fn split_path(s: &[u8]) -> (r: Vec<Vec<u8>>)
    ensures
        r@.map_values(|p: Vec<u8>| p@) == path_pieces(s@),
{
    let mut done: Vec<Vec<u8>> = Vec::new();
    let mut current: Vec<u8> = Vec::new();
    let mut i: usize = 0;
    while i < s.len()
        invariant
            0 <= i <= s@.len(),
            done@.map_values(|p: Vec<u8>| p@).push(current@) == path_pieces(s@.take(i as int)),
        decreases s@.len() - i,
    {
        let ghost before = path_pieces(s@.take(i as int));
        assert(s@.take(i + 1).drop_last() =~= s@.take(i as int));
        assert(s@.take(i + 1).last() == s@[i as int]);
        if s[i] == 0x2f {
            let piece = current;
            done.push(piece);
            current = Vec::new();
            assert(done@.map_values(|p: Vec<u8>| p@).push(current@) =~= before.push(Seq::empty()));
        } else {
            current.push(s[i]);
            assert(done@.map_values(|p: Vec<u8>| p@).push(current@) =~= before.update(
                before.len() - 1,
                before.last().push(s@[i as int]),
            ));
        }
        i += 1;
    }
    assert(s@.take(i as int) =~= s@);
    done.push(current);
    done
}

fn is_dot(p: &Vec<u8>) -> (r: bool)
    ensures
        r == (p@ == seq![0x2eu8]),
{
    if p.len() == 1 && p[0] == 0x2e {
        assert(p@ =~= seq![0x2eu8]);
        true
    } else {
        false
    }
}

/// The components of a Unix path.
pub fn components(path: &[u8]) -> (r: Vec<Vec<u8>>)
    ensures
        r@.map_values(|p: Vec<u8>| p@) == path_components(path@),
{
    let pieces = split_path(path);
    let ghost pv = pieces@.map_values(|p: Vec<u8>| p@);
    proof {
        lemma_path_pieces_nonempty(path@);
    }
    let mut r: Vec<Vec<u8>> = Vec::new();
    let ghost head: Seq<Seq<u8>> = Seq::empty();
    if path.len() > 0 && path[0] == 0x2f {
        let mut root: Vec<u8> = Vec::new();
        root.push(0x2f);
        r.push(root);
        proof {
            head = seq![seq![0x2fu8]];
        }
    } else if is_dot(&pieces[0]) {
        let mut dot: Vec<u8> = Vec::new();
        dot.push(0x2e);
        r.push(dot);
        proof {
            head = seq![seq![0x2eu8]];
        }
    }
    proof {
        if r@.len() > 0 {
            assert(r@[0]@ =~= head[0]);
        }
    }
    assert(r@.map_values(|p: Vec<u8>| p@) =~= head);
    let mut i: usize = 0;
    while i < pieces.len()
        invariant
            0 <= i <= pieces@.len(),
            pv == pieces@.map_values(|p: Vec<u8>| p@),
            r@.map_values(|p: Vec<u8>| p@) == head + pv.take(i as int).filter(
                |q: Seq<u8>| is_named_piece(q),
            ),
        decreases pieces@.len() - i,
    {
        let ghost f = pv.take(i as int).filter(|q: Seq<u8>| is_named_piece(q));
        assert(pv.take(i + 1) =~= pv.take(i as int).push(pv[i as int]));
        proof {
            pv.take(i as int).lemma_filter_push(pv[i as int], |q: Seq<u8>| is_named_piece(q));
        }
        if pieces[i].len() > 0 && !is_dot(&pieces[i]) {
            let piece = vstd::slice::slice_to_vec(pieces[i].as_slice());
            let ghost before = r@.map_values(|p: Vec<u8>| p@);
            assert(piece@ == pv[i as int]);
            r.push(piece);
            assert(r@.map_values(|p: Vec<u8>| p@) =~= before.push(pv[i as int]));
            assert(r@.map_values(|p: Vec<u8>| p@) =~= head + f.push(pv[i as int]));
        }
        i += 1;
    }
    assert(pv.take(i as int) =~= pv);
    r
}

/// One line of the kernel's mount table: the device numbers, where it is
/// mounted, the filesystem type and the mounted source.
#[derive(Debug)]
pub struct Mount {
    pub device: String,
    pub mount_point: Vec<u8>,
    pub fs_type: String,
    pub source: Vec<u8>,
}

/// The fields of a mount, as plain values.
pub open spec fn mount_fields(m: Mount) -> (Seq<char>, Seq<u8>, Seq<char>, Seq<u8>) {
    (m.device@, m.mount_point@, m.fs_type@, m.source@)
}

/// What a line of `/proc/self/mountinfo` describes: before ` - ` at least
/// six fields, the third `major:minor` in decimal; after it at least three,
/// the filesystem type and the source. Other lines describe nothing.
#[verifier::opaque]
pub open spec fn mount_line(line: Seq<char>) -> Option<(Seq<char>, Seq<u8>, Seq<char>, Seq<u8>)> {
    match split_once_sub(line, " - "@) {
        None => None,
        Some((before, after)) => {
            let b = words_spec(before);
            let a = words_spec(after);
            if b.len() < 6 || a.len() < 3 {
                None
            } else {
                match split_once_spec(b[2], ':') {
                    None => None,
                    Some((major, minor)) => if parse_u32_spec(major) is None || parse_u32_spec(
                        minor,
                    ) is None {
                        None
                    } else {
                        Some(
                            (
                                b[2],
                                unescape_bytes(encode_utf8(b[4])),
                                a[0],
                                unescape_bytes(encode_utf8(a[1])),
                            ),
                        )
                    },
                }
            }
        },
    }
}

/// The mounts that the lines describe, in order.
pub open spec fn mount_table(lines: Seq<Seq<char>>) -> Seq<(Seq<char>, Seq<u8>, Seq<char>, Seq<u8>)>
    decreases lines.len(),
{
    if lines.len() == 0 {
        Seq::empty()
    } else {
        let r = mount_table(lines.drop_last());
        match mount_line(lines.last()) {
            Some(m) => r.push(m),
            None => r,
        }
    }
}

/// The table of the first `i + 1` lines is that of the first `i`, with the
/// mount of line `i` added when it describes one.
proof fn lemma_mount_table_step(ls: Seq<Seq<char>>, i: int)
    requires
        0 <= i < ls.len(),
    ensures
        mount_table(ls.take(i + 1)) == match mount_line(ls[i]) {
            Some(m) => mount_table(ls.take(i)).push(m),
            None => mount_table(ls.take(i)),
        },
{
    assert(ls.take(i + 1).drop_last() =~= ls.take(i));
    assert(ls.take(i + 1).last() == ls[i]);
}

fn parse_mount_line(line: &Vec<char>) -> (r: Option<Mount>)
    ensures
        match r {
            Some(m) => mount_line(line@) == Some(mount_fields(m)),
            None => mount_line(line@) is None,
        },
{
    proof {
        reveal_strlit(" - ");
        reveal(mount_line);
    }
    let (before, after) = match split_once_str(line, " - ") {
        Some(parts) => parts,
        None => return None,
    };
    let b = words_of(&before);
    let a = words_of(&after);
    proof {
        assert(b@.map_values(|p: Vec<char>| p@).len() == b@.len());
        assert(a@.map_values(|p: Vec<char>| p@).len() == a@.len());
    }
    if b.len() < 6 || a.len() < 3 {
        return None;
    }
    assert(b@[2]@ == words_spec(before@)[2]);
    assert(b@[4]@ == words_spec(before@)[4]);
    assert(a@[0]@ == words_spec(after@)[0]);
    assert(a@[1]@ == words_spec(after@)[1]);
    let (major, minor) = match split_once_char(&b[2], ':') {
        Some(parts) => parts,
        None => return None,
    };
    if parse_u32(&major).is_none() || parse_u32(&minor).is_none() {
        return None;
    }
    let mount_point = string_of(b[4].as_slice());
    let source = string_of(a[1].as_slice());
    Some(
        Mount {
            device: string_of(b[2].as_slice()),
            mount_point: unescape_path(mount_point.as_str()),
            fs_type: string_of(a[0].as_slice()),
            source: unescape_path(source.as_str()),
        },
    )
}

/// Reads the kernel's mount table (`/proc/self/mountinfo`): one mount for
/// each line that describes one, in order.
pub fn parse_mounts(contents: &str) -> (r: Vec<Mount>)
    ensures
        r@.map_values(|m: Mount| mount_fields(m)) == mount_table(lines_spec(contents@)),
{
    let chars = chars_of(contents);
    let lines = lines_of(&chars);
    let ghost ls = lines@.map_values(|p: Vec<char>| p@);
    let mut mounts: Vec<Mount> = Vec::new();
    let mut i: usize = 0;
    while i < lines.len()
        invariant
            0 <= i <= lines@.len(),
            ls == lines@.map_values(|p: Vec<char>| p@),
            ls == lines_spec(contents@),
            mounts@.map_values(|m: Mount| mount_fields(m)) == mount_table(ls.take(i as int)),
        decreases lines@.len() - i,
    {
        proof {
            lemma_mount_table_step(ls, i as int);
        }
        let ghost before = mounts@.map_values(|m: Mount| mount_fields(m));
        match parse_mount_line(&lines[i]) {
            Some(m) => {
                mounts.push(m);
                assert(mounts@.map_values(|m: Mount| mount_fields(m)) =~= before.push(
                    mount_fields(m),
                ));
            },
            None => {},
        }
        i += 1;
    }
    assert(ls.take(i as int) =~= ls);
    mounts
}

/// Whether the mount at `m` holds `path`.
pub open spec fn holds_path(m: Mount, path: Seq<u8>) -> bool {
    path_starts_with(path, m.mount_point@)
}

/// How many components the mount point of `m` has.
pub open spec fn mount_depth(m: Mount) -> nat {
    path_components(m.mount_point@).len()
}

/// `i` is the mount that holds `path`: of those that hold it, one with the
/// most components in its mount point, and the last of several such.
pub open spec fn is_mount_for(mounts: Seq<Mount>, path: Seq<u8>, i: int) -> bool {
    &&& 0 <= i < mounts.len()
    &&& holds_path(mounts[i], path)
    &&& forall|j: int|
        0 <= j < i && holds_path(mounts[j], path) ==> mount_depth(mounts[j]) <= mount_depth(
            mounts[i],
        )
    &&& forall|j: int|
        i < j < mounts.len() && holds_path(mounts[j], path) ==> mount_depth(mounts[j])
            < mount_depth(mounts[i])
}

/// The mount that holds `path`, if any does.
pub open spec fn mount_index(mounts: Seq<Mount>, path: Seq<u8>) -> Option<int> {
    if exists|i: int| is_mount_for(mounts, path, i) {
        Some(choose|i: int| is_mount_for(mounts, path, i))
    } else {
        None
    }
}

/// At most one mount holds a path in the sense of `is_mount_for`.
pub proof fn lemma_mount_for_unique(mounts: Seq<Mount>, path: Seq<u8>, i: int, j: int)
    requires
        is_mount_for(mounts, path, i),
        is_mount_for(mounts, path, j),
    ensures
        i == j,
{
}

fn components_prefix(base: &Vec<Vec<u8>>, path: &Vec<Vec<u8>>) -> (r: bool)
    ensures
        r == ({
            let b = base@.map_values(|p: Vec<u8>| p@);
            let p = path@.map_values(|p: Vec<u8>| p@);
            b.len() <= p.len() && p.take(b.len() as int) == b
        }),
{
    let ghost b = base@.map_values(|p: Vec<u8>| p@);
    let ghost p = path@.map_values(|p: Vec<u8>| p@);
    if base.len() > path.len() {
        return false;
    }
    let mut i: usize = 0;
    while i < base.len()
        invariant
            b == base@.map_values(|p: Vec<u8>| p@),
            p == path@.map_values(|p: Vec<u8>| p@),
            base@.len() <= path@.len(),
            0 <= i <= base@.len(),
            forall|k: int| 0 <= k < i ==> b[k] == p[k],
        decreases base@.len() - i,
    {
        if !bytes_equal(&base[i], &path[i]) {
            assert(p.take(b.len() as int)[i as int] != b[i as int]);
            return false;
        }
        i += 1;
    }
    assert(p.take(b.len() as int) =~= b);
    true
}

/// `Path::starts_with`.
pub fn starts_with_path(path: &[u8], base: &[u8]) -> (r: bool)
    ensures
        r == path_starts_with(path@, base@),
{
    let p = components(path);
    let b = components(base);
    components_prefix(&b, &p)
}

/// The mount that holds `path`: of the mounts whose mount point begins
/// `path` component by component, the one with the most components (the
/// last of several such).
pub fn mount_for_path(mounts: &Vec<Mount>, path: &[u8]) -> (r: Option<usize>)
    ensures
        r matches Some(i) ==> is_mount_for(mounts@, path@, i as int),
        r is None ==> forall|i: int| 0 <= i < mounts@.len() ==> !holds_path(mounts@[i], path@),
        r matches Some(i) ==> mount_index(mounts@, path@) == Some(i as int),
        r is None ==> mount_index(mounts@, path@) is None,
{
    let p = components(path);
    let mut best: Option<usize> = None;
    let mut best_depth: usize = 0;
    let mut i: usize = 0;
    while i < mounts.len()
        invariant
            0 <= i <= mounts@.len(),
            p@.map_values(|q: Vec<u8>| q@) == path_components(path@),
            best is None ==> forall|j: int| 0 <= j < i ==> !holds_path(mounts@[j], path@),
            best matches Some(k) ==> {
                &&& k < i
                &&& holds_path(mounts@[k as int], path@)
                &&& best_depth == mount_depth(mounts@[k as int])
                &&& forall|j: int|
                    0 <= j < k && holds_path(mounts@[j], path@) ==> mount_depth(mounts@[j])
                        <= best_depth
                &&& forall|j: int|
                    k < j < i && holds_path(mounts@[j], path@) ==> mount_depth(mounts@[j])
                        < best_depth
            },
        decreases mounts@.len() - i,
    {
        let m = components(mounts[i].mount_point.as_slice());
        if components_prefix(&m, &p) {
            let depth = m.len();
            assert(depth == mount_depth(mounts@[i as int]));
            if best.is_none() || depth >= best_depth {
                best = Some(i);
                best_depth = depth;
            }
        }
        i += 1;
    }
    proof {
        if let Some(k) = best {
            assert(is_mount_for(mounts@, path@, k as int));
            let c = choose|c: int| is_mount_for(mounts@, path@, c);
            lemma_mount_for_unique(mounts@, path@, k as int, c);
        } else {
            assert(!exists|c: int| is_mount_for(mounts@, path@, c));
        }
    }
    best
}

/// The filesystems that live on a disk.
pub open spec fn disk_filesystem(t: Seq<char>) -> bool {
    ||| t == "ext2"@
    ||| t == "ext3"@
    ||| t == "ext4"@
    ||| t == "btrfs"@
    ||| t == "xfs"@
    ||| t == "f2fs"@
    ||| t == "vfat"@
    ||| t == "exfat"@
    ||| t == "ntfs"@
    ||| t == "ntfs3"@
    ||| t == "fuseblk"@
    ||| t == "bcachefs"@
    ||| t == "reiserfs"@
    ||| t == "jfs"@
    ||| t == "zfs"@
}

/// `Path::file_name`: the last component when it names something.
pub open spec fn file_name(p: Seq<u8>) -> Option<Seq<u8>> {
    let c = path_components(p);
    if c.len() > 0 && c.last() != seq![0x2fu8] && c.last() != seq![0x2eu8] && c.last() != seq![
        0x2eu8,
        0x2eu8,
    ] {
        Some(c.last())
    } else {
        None
    }
}

/// Whether `p` begins `s`.
pub open spec fn bytes_prefix(s: Seq<u8>, p: Seq<u8>) -> bool {
    p.len() <= s.len() && s.take(p.len() as int) == p
}

/// A source whose file name is text that starts with `zram` or `ram`: a
/// disk held in memory.
pub open spec fn memory_source(source: Seq<u8>) -> bool {
    match file_name(source) {
        Some(name) => valid_utf8(name) && (bytes_prefix(name, seq![0x7au8, 0x72u8, 0x61u8, 0x6du8])
            || bytes_prefix(name, seq![0x72u8, 0x61u8, 0x6du8])),
        None => false,
    }
}

/// A mount of a disk filesystem whose source is not held in memory.
pub open spec fn is_persistent(m: Mount) -> bool {
    disk_filesystem(m.fs_type@) && !memory_source(m.source@)
}

/// `std::str::from_utf8` succeeds on exactly the byte strings that are
/// valid UTF-8.
#[verifier::external_body]
fn is_utf8(bytes: &[u8]) -> (r: bool)
    ensures
        r == valid_utf8(bytes@),
{
    std::str::from_utf8(bytes).is_ok()
}

fn bytes_starts_with(s: &[u8], p: &[u8]) -> (r: bool)
    ensures
        r == bytes_prefix(s@, p@),
{
    if p.len() > s.len() {
        return false;
    }
    let mut i: usize = 0;
    while i < p.len()
        invariant
            p@.len() <= s@.len(),
            0 <= i <= p@.len(),
            forall|k: int| 0 <= k < i ==> s@[k] == p@[k],
        decreases p@.len() - i,
    {
        if s[i] != p[i] {
            assert(s@.take(p@.len() as int)[i as int] != p@[i as int]);
            return false;
        }
        i += 1;
    }
    assert(s@.take(p@.len() as int) =~= p@);
    true
}

/// `Path::file_name`.
pub fn path_file_name(path: &[u8]) -> (r: Option<Vec<u8>>)
    ensures
        match r {
            Some(n) => file_name(path@) == Some(n@),
            None => file_name(path@) is None,
        },
{
    let c = components(path);
    let ghost cv = c@.map_values(|q: Vec<u8>| q@);
    if c.len() == 0 {
        return None;
    }
    let last = &c[c.len() - 1];
    assert(last@ == cv.last());
    let root: [u8; 1] = [0x2f];
    let dot: [u8; 1] = [0x2e];
    let dots: [u8; 2] = [0x2e, 0x2e];
    let v = last.as_slice();
    if (v.len() == 1 && v[0] == root[0]) || (v.len() == 1 && v[0] == dot[0]) || (v.len() == 2
        && v[0] == dots[0] && v[1] == dots[1]) {
        proof {
            if v@.len() == 1 {
                assert(v@ =~= seq![v@[0]]);
            } else {
                assert(v@ =~= seq![v@[0], v@[1]]);
            }
        }
        return None;
    }
    proof {
        if v@ == seq![0x2fu8] || v@ == seq![0x2eu8] {
            assert(v@.len() == 1 && v@[0] == v@[0]);
        }
        if v@ == seq![0x2eu8, 0x2eu8] {
            assert(v@.len() == 2);
        }
    }
    Some(vstd::slice::slice_to_vec(v))
}

/// Whether `m` is a mount of a disk that keeps its contents: a disk
/// filesystem whose source is not a memory disk (`zram*`, `ram*`).
pub fn persistent(m: &Mount) -> (r: bool)
    ensures
        r == is_persistent(*m),
{
    let t = m.fs_type.as_str();
    let disk = crate::text::str_equal(t, "ext2") || crate::text::str_equal(t, "ext3")
        || crate::text::str_equal(t, "ext4") || crate::text::str_equal(t, "btrfs")
        || crate::text::str_equal(t, "xfs") || crate::text::str_equal(t, "f2fs")
        || crate::text::str_equal(t, "vfat") || crate::text::str_equal(t, "exfat")
        || crate::text::str_equal(t, "ntfs") || crate::text::str_equal(t, "ntfs3")
        || crate::text::str_equal(t, "fuseblk") || crate::text::str_equal(t, "bcachefs")
        || crate::text::str_equal(t, "reiserfs") || crate::text::str_equal(t, "jfs")
        || crate::text::str_equal(t, "zfs");
    if !disk {
        return false;
    }
    let memory = match path_file_name(m.source.as_slice()) {
        Some(name) => {
            let zram: [u8; 4] = [0x7a, 0x72, 0x61, 0x6d];
            let ram: [u8; 3] = [0x72, 0x61, 0x6d];
            assert(zram@ =~= seq![0x7au8, 0x72u8, 0x61u8, 0x6du8]);
            assert(ram@ =~= seq![0x72u8, 0x61u8, 0x6du8]);
            is_utf8(name.as_slice()) && (bytes_starts_with(name.as_slice(), zram.as_slice())
                || bytes_starts_with(name.as_slice(), ram.as_slice()))
        },
        None => false,
    };
    !memory
}

/// Two mounts of one filesystem: the same type, and the same device
/// numbers or the same source, each source taken as resolved on disk.
pub open spec fn same_filesystem_spec(
    first: Mount,
    second: Mount,
    first_source: Seq<u8>,
    second_source: Seq<u8>,
) -> bool {
    first.fs_type@ == second.fs_type@ && (first.device@ == second.device@ || first_source
        == second_source)
}

/// Whether two mounts show one filesystem; `first_source` and
/// `second_source` are their sources as resolved on disk (the source
/// itself where it cannot be resolved).
pub fn same_filesystem(first: &Mount, second: &Mount, first_source: &Vec<u8>, second_source: &Vec<u8>) -> (r: bool)
    ensures
        r == same_filesystem_spec(*first, *second, first_source@, second_source@),
{
    crate::text::str_equal(first.fs_type.as_str(), second.fs_type.as_str()) && (
    crate::text::str_equal(first.device.as_str(), second.device.as_str()) || bytes_equal(
        first_source,
        second_source,
    ))
}

/// A chosen mount as plain values: its context, its index and the path
/// it was chosen for.
pub open spec fn choice_view(c: (&'static str, usize, Vec<u8>)) -> (Seq<char>, int, Seq<u8>) {
    (c.0@, c.1 as int, c.2@)
}

/// One step of the choice: the mount that holds `path` joins `selected`
/// under `context` when it is persistent and no mount already chosen
/// shows the same filesystem.
pub open spec fn selection_step(
    mounts: Seq<Mount>,
    sources: Seq<Seq<u8>>,
    selected: Seq<(Seq<char>, int, Seq<u8>)>,
    context: Seq<char>,
    path: Option<Seq<u8>>,
) -> Seq<(Seq<char>, int, Seq<u8>)> {
    match path {
        None => selected,
        Some(p) => match mount_index(mounts, p) {
            None => selected,
            Some(i) => if !is_persistent(mounts[i]) || exists|k: int|
                0 <= k < selected.len() && same_filesystem_spec(
                    mounts[selected[k].1],
                    mounts[i],
                    sources[selected[k].1],
                    sources[i],
                ) {
                selected
            } else {
                selected.push((context, i, p))
            },
        },
    }
}

/// The disks to describe: first the one that holds the personal folder,
/// then the one that holds `/`, each once.
pub open spec fn selected_mounts(
    mounts: Seq<Mount>,
    home: Option<Seq<u8>>,
    sources: Seq<Seq<u8>>,
) -> Seq<(Seq<char>, int, Seq<u8>)> {
    selection_step(
        mounts,
        sources,
        selection_step(mounts, sources, Seq::empty(), "personal"@, home),
        "sistema"@,
        Some(seq![0x2fu8]),
    )
}

fn consider(
    mounts: &Vec<Mount>,
    sources: &Vec<Vec<u8>>,
    selected: &mut Vec<(&'static str, usize, Vec<u8>)>,
    context: &'static str,
    path: &[u8],
)
    requires
        sources@.len() == mounts@.len(),
        forall|k: int| 0 <= k < old(selected)@.len() ==> old(selected)@[k].1 < mounts@.len(),
    ensures
        final(selected)@.map_values(|c: (&'static str, usize, Vec<u8>)| choice_view(c))
            == selection_step(
            mounts@,
            sources@.map_values(|v: Vec<u8>| v@),
            old(selected)@.map_values(|c: (&'static str, usize, Vec<u8>)| choice_view(c)),
            context@,
            Some(path@),
        ),
        forall|k: int| 0 <= k < final(selected)@.len() ==> final(selected)@[k].1 < mounts@.len(),
{
    let ghost sv = sources@.map_values(|v: Vec<u8>| v@);
    let ghost before = selected@.map_values(|c: (&'static str, usize, Vec<u8>)| choice_view(c));
    let i = match mount_for_path(mounts, path) {
        Some(i) => i,
        None => return,
    };
    if !persistent(&mounts[i]) {
        return;
    }
    let mut k: usize = 0;
    while k < selected.len()
        invariant
            sources@.len() == mounts@.len(),
            i < mounts@.len(),
            mount_index(mounts@, path@) == Some(i as int),
            is_persistent(mounts@[i as int]),
            sv == sources@.map_values(|v: Vec<u8>| v@),
            before == selected@.map_values(|c: (&'static str, usize, Vec<u8>)| choice_view(c)),
            forall|k: int| 0 <= k < selected@.len() ==> selected@[k].1 < mounts@.len(),
            0 <= k <= selected@.len(),
            forall|q: int|
                0 <= q < k ==> !same_filesystem_spec(
                    mounts@[before[q].1],
                    mounts@[i as int],
                    sv[before[q].1],
                    sv[i as int],
                ),
        decreases selected@.len() - k,
    {
        let previous = selected[k].1;
        if same_filesystem(&mounts[previous], &mounts[i], &sources[previous], &sources[i]) {
            assert(before[k as int].1 == previous);
            assert(sv[previous as int] == sources@[previous as int]@);
            assert(same_filesystem_spec(
                mounts@[before[k as int].1],
                mounts@[i as int],
                sv[before[k as int].1],
                sv[i as int],
            ));
            assert(exists|q: int|
                0 <= q < before.len() && same_filesystem_spec(
                    mounts@[before[q].1],
                    mounts@[i as int],
                    sv[before[q].1],
                    sv[i as int],
                ));
            return;
        }
        k += 1;
    }
    let owned: Vec<u8> = vstd::slice::slice_to_vec(path);
    selected.push((context, i, owned));
    assert(selected@.map_values(|c: (&'static str, usize, Vec<u8>)| choice_view(c)) =~= before.push(
        (context@, i as int, path@),
    ));
}

/// Chooses the disks to describe: the mount that holds the personal folder
/// `home` (context `personal`), then the one that holds `/` (context
/// `sistema`), each only when it is persistent and shows a filesystem not
/// chosen already. `sources` holds each mount's source as resolved on
/// disk, index for index. Each choice gives its context, the index of the
/// mount and the path it was chosen for.
pub fn select_mounts(mounts: &Vec<Mount>, home: Option<&[u8]>, sources: &Vec<Vec<u8>>) -> (r: Vec<
    (&'static str, usize, Vec<u8>),
>)
    requires
        sources@.len() == mounts@.len(),
    ensures
        r@.map_values(|c: (&'static str, usize, Vec<u8>)| choice_view(c)) == selected_mounts(
            mounts@,
            match home {
                Some(h) => Some(h@),
                None => None,
            },
            sources@.map_values(|v: Vec<u8>| v@),
        ),
        forall|k: int| 0 <= k < r@.len() ==> r@[k].1 < mounts@.len(),
{
    let mut selected: Vec<(&'static str, usize, Vec<u8>)> = Vec::new();
    assert(selected@.map_values(|c: (&'static str, usize, Vec<u8>)| choice_view(c)) =~= Seq::empty());
    match home {
        Some(h) => consider(mounts, sources, &mut selected, "personal", h),
        None => {},
    }
    let root: [u8; 1] = [0x2f];
    assert(root@ =~= seq![0x2fu8]);
    consider(mounts, sources, &mut selected, "sistema", root.as_slice());
    selected
}

/// Space on a filesystem in bytes, as `df` reports it.
#[derive(Clone, Copy, Debug, PartialEq, Eq, Structural)]
pub struct Usage {
    pub total: u64,
    pub used: u64,
    pub available: u64,
}

/// The lines of `s` that hold more than whitespace.
pub open spec fn nonblank_lines(s: Seq<char>) -> Seq<Seq<char>> {
    lines_spec(s).filter(|l: Seq<char>| trim(l).len() > 0)
}

/// What `df -B1 --output=size,used,avail` printed: a header, then one line
/// of three numbers, total first, which must not be zero; nothing else but
/// blank lines.
pub open spec fn usage_of(contents: Seq<char>) -> Option<(u64, u64, u64)> {
    let ls = nonblank_lines(contents);
    if ls.len() < 2 {
        None
    } else {
        let f = words_spec(ls[1]);
        if f.len() != 3 || ls.len() > 2 {
            None
        } else {
            match (parse_u64_spec(f[0]), parse_u64_spec(f[1]), parse_u64_spec(f[2])) {
                (Some(t), Some(u), Some(a)) => if t == 0 {
                    None
                } else {
                    Some((t, u, a))
                },
                _ => None,
            }
        }
    }
}

/// Reads what `df` printed for one filesystem. Used and available space
/// are kept as reported: space reserved for the system counts as neither.
pub fn parse_usage(contents: &str) -> (r: Option<Usage>)
    ensures
        match r {
            Some(u) => usage_of(contents@) == Some((u.total, u.used, u.available)),
            None => usage_of(contents@) is None,
        },
{
    let chars = chars_of(contents);
    let lines = lines_of(&chars);
    let ghost lv = lines@.map_values(|p: Vec<char>| p@);
    let mut kept: Vec<Vec<char>> = Vec::new();
    let mut i: usize = 0;
    while i < lines.len()
        invariant
            0 <= i <= lines@.len(),
            lv == lines@.map_values(|p: Vec<char>| p@),
            lv == lines_spec(contents@),
            kept@.map_values(|p: Vec<char>| p@) == lv.take(i as int).filter(
                |l: Seq<char>| trim(l).len() > 0,
            ),
        decreases lines@.len() - i,
    {
        let ghost f = lv.take(i as int).filter(|l: Seq<char>| trim(l).len() > 0);
        assert(lv.take(i + 1) =~= lv.take(i as int).push(lv[i as int]));
        proof {
            lv.take(i as int).lemma_filter_push(lv[i as int], |l: Seq<char>| trim(l).len() > 0);
        }
        let t = trim_chars(&lines[i]);
        if t.len() > 0 {
            let line = vstd::slice::slice_to_vec(lines[i].as_slice());
            let ghost before = kept@.map_values(|p: Vec<char>| p@);
            kept.push(line);
            assert(kept@.map_values(|p: Vec<char>| p@) =~= f.push(lv[i as int]));
        }
        i += 1;
    }
    assert(lv.take(i as int) =~= lv);
    let ghost ls = kept@.map_values(|p: Vec<char>| p@);
    assert(ls == nonblank_lines(contents@));
    if kept.len() < 2 {
        return None;
    }
    let fields = words_of(&kept[1]);
    assert(fields@.map_values(|p: Vec<char>| p@).len() == fields@.len());
    if fields.len() != 3 || kept.len() > 2 {
        return None;
    }
    assert(fields@[0]@ == words_spec(ls[1])[0]);
    assert(fields@[1]@ == words_spec(ls[1])[1]);
    assert(fields@[2]@ == words_spec(ls[1])[2]);
    let total = match parse_u64(&fields[0]) {
        Some(v) => v,
        None => return None,
    };
    if total == 0 {
        return None;
    }
    let used = match parse_u64(&fields[1]) {
        Some(v) => v,
        None => return None,
    };
    let available = match parse_u64(&fields[2]) {
        Some(v) => v,
        None => return None,
    };
    Some(Usage { total, used, available })
}

/// What a device attribute file holds, trimmed; nothing when it could not
/// be read or holds only whitespace.
pub open spec fn attribute_spec(contents: Option<Seq<char>>) -> Option<Seq<char>> {
    match contents {
        Some(c) => if trim(c).len() > 0 {
            Some(trim(c))
        } else {
            None
        },
        None => None,
    }
}

/// The value of a device attribute from the contents of its file.
pub fn attribute_value(contents: Option<String>) -> (r: Option<String>)
    ensures
        match r {
            Some(v) => attribute_spec(
                match contents {
                    Some(c) => Some(c@),
                    None => None,
                },
            ) == Some(v@),
            None => attribute_spec(
                match contents {
                    Some(c) => Some(c@),
                    None => None,
                },
            ) is None,
        },
{
    match contents {
        Some(c) => {
            let t = trim_string(c.as_str());
            if !t.as_str().is_empty() {
                Some(t)
            } else {
                None
            }
        },
        None => None,
    }
}

/// The plain view of an optional string.
pub open spec fn opt_view(o: Option<String>) -> Option<Seq<char>> {
    match o {
        Some(s) => Some(s@),
        None => None,
    }
}

/// Whether a component of `p` begins with `prefix`.
pub open spec fn component_with_prefix(p: Seq<u8>, prefix: Seq<u8>) -> bool {
    exists|k: int| 0 <= k < path_components(p).len() && bytes_prefix(path_components(p)[k], prefix)
}

/// The kind of a drive: USB when it hangs below a USB component, NVMe and
/// MMC by its name (eMMC when its `device/type` says `MMC`), virtual below
/// a virtio component, else solid-state or spinning by its
/// `queue/rotational` flag.
pub open spec fn device_kind(
    device: Seq<u8>,
    mmc_type: Option<Seq<char>>,
    rotational: Option<Seq<char>>,
    spanish: bool,
) -> Seq<char> {
    let name = match file_name(device) {
        Some(n) => n,
        None => Seq::empty(),
    };
    if component_with_prefix(device, seq![0x75u8, 0x73u8, 0x62u8]) {
        "USB"@
    } else if bytes_prefix(name, seq![0x6eu8, 0x76u8, 0x6du8, 0x65u8]) {
        "SSD NVMe"@
    } else if bytes_prefix(name, seq![0x6du8, 0x6du8, 0x63u8, 0x62u8, 0x6cu8, 0x6bu8]) {
        if attribute_spec(mmc_type) == Some("MMC"@) {
            "eMMC"@
        } else {
            "SD/MMC"@
        }
    } else if component_with_prefix(device, seq![0x76u8, 0x69u8, 0x72u8, 0x74u8, 0x69u8, 0x6fu8]) {
        "Virtual"@
    } else if attribute_spec(rotational) == Some("0"@) {
        "SSD"@
    } else if attribute_spec(rotational) == Some("1"@) {
        "HDD"@
    } else if spanish {
        "tipo no disponible"@
    } else {
        "type unavailable"@
    }
}

fn any_component_with_prefix(comps: &Vec<Vec<u8>>, prefix: &[u8]) -> (r: bool)
    ensures
        r == exists|k: int| 0 <= k < comps@.len() && bytes_prefix(#[trigger] comps@[k]@, prefix@),
{
    let mut i: usize = 0;
    while i < comps.len()
        invariant
            0 <= i <= comps@.len(),
            forall|k: int| 0 <= k < i ==> !bytes_prefix(#[trigger] comps@[k]@, prefix@),
        decreases comps@.len() - i,
    {
        if bytes_starts_with(comps[i].as_slice(), prefix) {
            return true;
        }
        i += 1;
    }
    false
}

/// Names the kind of the drive at path `device`, given the contents of its
/// `device/type` and `queue/rotational` files where they could be read.
pub fn device_type(
    device: &[u8],
    mmc_type: Option<String>,
    rotational: Option<String>,
    text: Translator,
) -> (r: String)
    ensures
        r@ == device_kind(device@, opt_view(mmc_type), opt_view(rotational), text.spanish()),
{
    let comps = components(device);
    let name = match path_file_name(device) {
        Some(n) => n,
        None => Vec::new(),
    };
    let usb: [u8; 3] = [0x75, 0x73, 0x62];
    let nvme: [u8; 4] = [0x6e, 0x76, 0x6d, 0x65];
    let mmcblk: [u8; 6] = [0x6d, 0x6d, 0x63, 0x62, 0x6c, 0x6b];
    let virtio: [u8; 6] = [0x76, 0x69, 0x72, 0x74, 0x69, 0x6f];
    assert(usb@ =~= seq![0x75u8, 0x73u8, 0x62u8]);
    assert(nvme@ =~= seq![0x6eu8, 0x76u8, 0x6du8, 0x65u8]);
    assert(mmcblk@ =~= seq![0x6du8, 0x6du8, 0x63u8, 0x62u8, 0x6cu8, 0x6bu8]);
    assert(virtio@ =~= seq![0x76u8, 0x69u8, 0x72u8, 0x74u8, 0x69u8, 0x6fu8]);
    assert(forall|k: int|
        0 <= k < comps@.len() ==> #[trigger] comps@[k]@ == path_components(device@)[k]);
    if any_component_with_prefix(&comps, usb.as_slice()) {
        return crate::text::owned("USB");
    }
    if bytes_starts_with(name.as_slice(), nvme.as_slice()) {
        return crate::text::owned("SSD NVMe");
    }
    if bytes_starts_with(name.as_slice(), mmcblk.as_slice()) {
        let is_mmc = match attribute_value(mmc_type) {
            Some(v) => str_equal(v.as_str(), "MMC"),
            None => false,
        };
        return if is_mmc {
            crate::text::owned("eMMC")
        } else {
            crate::text::owned("SD/MMC")
        };
    }
    if any_component_with_prefix(&comps, virtio.as_slice()) {
        return crate::text::owned("Virtual");
    }
    match attribute_value(rotational) {
        Some(v) => {
            if str_equal(v.as_str(), "0") {
                return crate::text::owned("SSD");
            }
            if str_equal(v.as_str(), "1") {
                return crate::text::owned("HDD");
            }
        },
        None => {},
    }
    crate::text::owned(text.type_unavailable())
}

/// The first attribute, of several files tried in turn, that holds a
/// value.
pub open spec fn first_attribute(candidates: Seq<Option<Seq<char>>>) -> Option<Seq<char>>
    decreases candidates.len(),
{
    if candidates.len() == 0 {
        None
    } else {
        match attribute_spec(candidates[0]) {
            Some(v) => Some(v),
            None => first_attribute(candidates.drop_first()),
        }
    }
}

/// The model of a drive: the first of its model files (`device/model`,
/// `device/name`, `model`, as read) that holds a value.
pub fn device_model(candidates: Vec<Option<String>>, text: Translator) -> (r: String)
    ensures
        r@ == match first_attribute(candidates@.map_values(|c: Option<String>| opt_view(c))) {
            Some(v) => v,
            None => if text.spanish() {
                "Modelo no disponible"@
            } else {
                "Model unavailable"@
            },
        },
{
    let ghost cv = candidates@.map_values(|c: Option<String>| opt_view(c));
    let mut i: usize = 0;
    assert(cv.skip(0) =~= cv);
    while i < candidates.len()
        invariant
            0 <= i <= candidates@.len(),
            cv == candidates@.map_values(|c: Option<String>| opt_view(c)),
            first_attribute(cv) == first_attribute(cv.skip(i as int)),
        decreases candidates@.len() - i,
    {
        assert(cv.skip(i as int).drop_first() =~= cv.skip(i + 1));
        assert(cv.skip(i as int)[0] == cv[i as int]);
        let c = match &candidates[i] {
            Some(s) => Some(s.clone()),
            None => None,
        };
        assert(opt_view(c) == cv[i as int]);
        match attribute_value(c) {
            Some(v) => return v,
            None => {},
        }
        i += 1;
    }
    assert(cv.skip(i as int).len() == 0);
    crate::text::owned(text.model_unavailable())
}

/// The size of a drive in bytes, from the contents of its `size` file, a
/// count of 512-byte sectors; nothing when that is not a number or the
/// product overflows.
pub fn capacity_bytes(size: Option<String>) -> (r: Option<u64>)
    ensures
        r == match attribute_spec(opt_view(size)) {
            Some(v) => match parse_u64_spec(v) {
                Some(n) => if n * 512 <= u64::MAX {
                    Some((n * 512) as u64)
                } else {
                    None
                },
                None => None,
            },
            None => None,
        },
{
    let v = match attribute_value(size) {
        Some(v) => v,
        None => return None,
    };
    let chars = chars_of(v.as_str());
    let n = match parse_u64(&chars) {
        Some(n) => n,
        None => return None,
    };
    n.checked_mul(512)
}

/// One line describing a drive: its model, its kind and its capacity.
pub fn describe_device(model: &str, kind: &str, capacity: &str) -> (r: String)
    ensures
        r@ == model@ + " · "@ + kind@ + " · "@ + capacity@,
{
    let mut s = crate::text::owned(model);
    crate::text::push_str(&mut s, " · ");
    crate::text::push_str(&mut s, kind);
    crate::text::push_str(&mut s, " · ");
    crate::text::push_str(&mut s, capacity);
    s
}

/// Text of the rows for the usage of a filesystem, as the caller formats
/// sizes.
pub struct UsageText {
    pub used: String,
    pub total: String,
    pub available: String,
}

/// What is known of one chosen disk: its context (`personal` or
/// `sistema`), its filesystem type, one description for each physical
/// drive under it, and its usage.
pub struct DiskReport {
    pub context: &'static str,
    pub fs_type: String,
    pub drives: Vec<String>,
    pub usage: Option<UsageText>,
}

/// A row's pair of texts, as plain values.
pub open spec fn row_view(r: (String, String)) -> (Seq<char>, Seq<char>) {
    (r.0@, r.1@)
}

/// "Unavailable" in the chosen language.
pub open spec fn unavailable_text(spanish: bool) -> Seq<char> {
    if spanish {
        "No disponible"@
    } else {
        "Unavailable"@
    }
}

/// The label of the drive at `index` of `count`: plain when there is one,
/// numbered from one when there are several.
pub open spec fn drive_label(count: nat, index: nat, spanish: bool) -> Seq<char> {
    let drive = if spanish {
        "Unidad"@
    } else {
        "Drive"@
    };
    if count == 1 {
        drive
    } else {
        drive + " "@ + crate::text::decimal(index + 1)
    }
}

/// The rows for one disk: its context with its filesystem type, its drives
/// (or one row saying none is known), then used / total and available
/// space (or that they are unknown).
pub open spec fn disk_rows(d: DiskReport, spanish: bool) -> Seq<(Seq<char>, Seq<char>)> {
    let label = if d.context@ == "personal"@ {
        if spanish {
            "Disco personal"@
        } else {
            "Personal disk"@
        }
    } else if spanish {
        "Disco del sistema"@
    } else {
        "System disk"@
    };
    let used_total = if spanish {
        "Usado / total"@
    } else {
        "Used / total"@
    };
    let available = if spanish {
        "Disponible"@
    } else {
        "Available"@
    };
    let n = d.drives@.len();
    let drives = if n == 0 {
        seq![(drive_label(1, 0, spanish), unavailable_text(spanish))]
    } else {
        Seq::new(n, |i: int| (drive_label(n, i as nat, spanish), d.drives@[i]@))
    };
    let usage = match d.usage {
        Some(u) => seq![(used_total, u.used@ + " / "@ + u.total@), (available, u.available@)],
        None => seq![(used_total, unavailable_text(spanish)), (available, unavailable_text(spanish))],
    };
    seq![(label, d.fs_type@)] + drives + usage
}

/// The rows for several disks, one after another.
pub open spec fn reports_rows(ds: Seq<DiskReport>, spanish: bool) -> Seq<(Seq<char>, Seq<char>)>
    decreases ds.len(),
{
    if ds.len() == 0 {
        Seq::empty()
    } else {
        reports_rows(ds.drop_last(), spanish) + disk_rows(ds.last(), spanish)
    }
}

/// The storage rows of the system panel: those of each disk, or one row
/// saying that no disk is known.
pub open spec fn storage_rows(ds: Seq<DiskReport>, spanish: bool) -> Seq<(Seq<char>, Seq<char>)> {
    if ds.len() == 0 {
        seq![(if spanish { "Disco"@ } else { "Disk"@ }, unavailable_text(spanish))]
    } else {
        reports_rows(ds, spanish)
    }
}

fn push_row(rows: &mut Vec<(String, String)>, label: String, value: String)
    ensures
        final(rows)@.map_values(|r: (String, String)| row_view(r)) == old(rows)@.map_values(
            |r: (String, String)| row_view(r),
        ).push((label@, value@)),
{
    rows.push((label, value));
    assert(final(rows)@.map_values(|r: (String, String)| row_view(r)) =~= old(rows)@.map_values(
        |r: (String, String)| row_view(r),
    ).push((label@, value@)));
}

fn push_disk_rows(rows: &mut Vec<(String, String)>, d: &DiskReport, text: Translator)
    ensures
        final(rows)@.map_values(|r: (String, String)| row_view(r)) == old(rows)@.map_values(
            |r: (String, String)| row_view(r),
        ) + disk_rows(*d, text.spanish()),
{
    let ghost start = rows@.map_values(|r: (String, String)| row_view(r));
    let ghost sp = text.spanish();
    let label = if str_equal(d.context, "personal") {
        crate::text::owned(text.disk_personal())
    } else {
        crate::text::owned(text.disk_system())
    };
    push_row(rows, label, d.fs_type.clone());
    let ghost n = d.drives@.len();
    let ghost drives = if n == 0 {
        seq![(drive_label(1, 0, sp), unavailable_text(sp))]
    } else {
        Seq::new(n, |i: int| (drive_label(n, i as nat, sp), d.drives@[i]@))
    };
    let ghost head = start.push(disk_rows(*d, sp)[0]);
    if d.drives.len() == 0 {
        push_row(rows, crate::text::owned(text.drive()), crate::text::owned(text.unavailable()));
    } else {
        let mut i: usize = 0;
        while i < d.drives.len()
            invariant
                0 <= i <= d.drives@.len(),
                n == d.drives@.len(),
                n > 0,
                sp == text.spanish(),
                drives == Seq::new(n, |i: int| (drive_label(n, i as nat, sp), d.drives@[i]@)),
                rows@.map_values(|r: (String, String)| row_view(r)) == head + drives.take(
                    i as int,
                ),
            decreases d.drives@.len() - i,
        {
            let label = if d.drives.len() == 1 {
                crate::text::owned(text.drive())
            } else {
                text.drive_number(i)
            };
            push_row(rows, label, d.drives[i].clone());
            assert(head + drives.take(i + 1) =~= (head + drives.take(i as int)).push(drives[i as int]));
            i += 1;
        }
        assert(drives.take(i as int) =~= drives);
    }
    assert(rows@.map_values(|r: (String, String)| row_view(r)) =~= head + drives);
    match &d.usage {
        Some(u) => {
            let mut both = u.used.clone();
            crate::text::push_str(&mut both, " / ");
            crate::text::push_str(&mut both, u.total.as_str());
            push_row(rows, crate::text::owned(text.used_total()), both);
            push_row(rows, crate::text::owned(text.available()), u.available.clone());
        },
        None => {
            push_row(rows, crate::text::owned(text.used_total()), crate::text::owned(text.unavailable()));
            push_row(rows, crate::text::owned(text.available()), crate::text::owned(text.unavailable()));
        },
    }
    assert(rows@.map_values(|r: (String, String)| row_view(r)) =~= start + disk_rows(*d, sp));
}

/// The storage rows of the system panel, from what is known of each chosen
/// disk.
pub fn details(disks: &Vec<DiskReport>, text: Translator) -> (r: Vec<(String, String)>)
    ensures
        r@.map_values(|r: (String, String)| row_view(r)) == storage_rows(disks@, text.spanish()),
{
    let mut rows: Vec<(String, String)> = Vec::new();
    let mut i: usize = 0;
    assert(rows@.map_values(|r: (String, String)| row_view(r)) =~= reports_rows(disks@.take(0), text.spanish()));
    while i < disks.len()
        invariant
            0 <= i <= disks@.len(),
            rows@.map_values(|r: (String, String)| row_view(r)) == reports_rows(disks@.take(i as int), text.spanish()),
        decreases disks@.len() - i,
    {
        assert(disks@.take(i + 1).drop_last() =~= disks@.take(i as int));
        push_disk_rows(&mut rows, &disks[i], text);
        i += 1;
    }
    assert(disks@.take(i as int) =~= disks@);
    if disks.len() == 0 {
        push_row(&mut rows, crate::text::owned(text.disk()), crate::text::owned(text.unavailable()));
        assert(rows@.map_values(|r: (String, String)| row_view(r)) =~= storage_rows(disks@, text.spanish()));
    }
    rows
}

/// What is known of a device on the way to the physical drives: its
/// resolved path, whether it is a partition and then its parent (the whole
/// drive), and the devices it is built on (`slaves`).
pub struct DeviceFacts {
    pub device: Vec<u8>,
    pub partition: bool,
    pub parent: Option<Vec<u8>>,
    pub slaves: Vec<Vec<u8>>,
}

/// The views of a list of byte strings.
pub open spec fn byte_texts(v: Seq<Vec<u8>>) -> Seq<Seq<u8>> {
    v.map_values(|b: Vec<u8>| b@)
}

/// Where the walk to the physical drives starts: the mount's block device;
/// for btrfs, all devices of the first volume that holds it.
pub open spec fn start_devices_spec(block: Seq<u8>, btrfs: bool, volumes: Seq<Seq<Seq<u8>>>) -> Seq<Seq<u8>>
    decreases volumes.len(),
{
    if !btrfs || volumes.len() == 0 {
        seq![block]
    } else if volumes[0].contains(block) {
        volumes[0]
    } else {
        start_devices_spec(block, btrfs, volumes.drop_first())
    }
}

fn contains_bytes(items: &Vec<Vec<u8>>, item: &Vec<u8>) -> (r: bool)
    ensures
        r == byte_texts(items@).contains(item@),
{
    let mut i: usize = 0;
    while i < items.len()
        invariant
            0 <= i <= items@.len(),
            forall|q: int| 0 <= q < i ==> byte_texts(items@)[q] != item@,
        decreases items@.len() - i,
    {
        if bytes_equal(&items[i], item) {
            assert(byte_texts(items@)[i as int] == item@);
            return true;
        }
        i += 1;
    }
    false
}

fn copy_bytes(items: &Vec<Vec<u8>>) -> (r: Vec<Vec<u8>>)
    ensures
        byte_texts(r@) == byte_texts(items@),
{
    let mut out: Vec<Vec<u8>> = Vec::new();
    let mut i: usize = 0;
    while i < items.len()
        invariant
            0 <= i <= items@.len(),
            byte_texts(out@) == byte_texts(items@).take(i as int),
        decreases items@.len() - i,
    {
        let ghost before = byte_texts(out@);
        let v = vstd::slice::slice_to_vec(items[i].as_slice());
        assert(v@ == byte_texts(items@)[i as int]);
        out.push(v);
        assert(byte_texts(out@) =~= before.push(byte_texts(items@)[i as int]));
        assert(byte_texts(items@).take(i + 1) =~= byte_texts(items@).take(i as int).push(byte_texts(items@)[i as int]));
        i += 1;
    }
    assert(byte_texts(items@).take(i as int) =~= byte_texts(items@));
    out
}

/// The devices the walk starts from; `volumes` holds, for each btrfs
/// volume, its devices as resolved.
pub fn start_devices(block: Vec<u8>, fs_type: &str, volumes: &Vec<Vec<Vec<u8>>>) -> (r: Vec<Vec<u8>>)
    ensures
        byte_texts(r@) == start_devices_spec(
            block@,
            fs_type@ == "btrfs"@,
            volumes@.map_values(|v: Vec<Vec<u8>>| byte_texts(v@)),
        ),
{
    let ghost vv = volumes@.map_values(|v: Vec<Vec<u8>>| byte_texts(v@));
    let btrfs = str_equal(fs_type, "btrfs");
    if btrfs {
        let mut i: usize = 0;
        assert(vv.skip(0) =~= vv);
        while i < volumes.len()
            invariant
                0 <= i <= volumes@.len(),
                vv == volumes@.map_values(|v: Vec<Vec<u8>>| byte_texts(v@)),
                btrfs,
                fs_type@ == "btrfs"@,
                start_devices_spec(block@, true, vv) == start_devices_spec(block@, true, vv.skip(i as int)),
            decreases volumes@.len() - i,
        {
            assert(vv.skip(i as int).drop_first() =~= vv.skip(i + 1));
            assert(vv.skip(i as int)[0] == byte_texts(volumes@[i as int]@));
            if contains_bytes(&volumes[i], &block) {
                return copy_bytes(&volumes[i]);
            }
            i += 1;
        }
    }
    let mut out: Vec<Vec<u8>> = Vec::new();
    let ghost bv = block@;
    out.push(block);
    assert(byte_texts(out@) =~= seq![bv]);
    out
}

/// The walk from a mount's block device to the physical drives under it:
/// the devices still to look at (the next one last), those already seen,
/// the physical drives found, and the folder of virtual devices.
pub struct DeviceWalk {
    pub pending: Vec<Vec<u8>>,
    pub seen: Vec<Vec<u8>>,
    pub physical: Vec<Vec<u8>>,
    pub virtual_root: Vec<u8>,
}

impl DeviceWalk {
    /// Starts the walk at `pending`; devices below `virtual_root` are
    /// never physical.
    pub fn new(pending: Vec<Vec<u8>>, virtual_root: Vec<u8>) -> (r: DeviceWalk)
        ensures
            r.pending@ == pending@,
            r.seen@.len() == 0,
            r.physical@.len() == 0,
            r.virtual_root@ == virtual_root@,
    {
        DeviceWalk { pending, seen: Vec::new(), physical: Vec::new(), virtual_root }
    }

    /// The next device to look at, taken from the walk.
    pub fn next(&mut self) -> (r: Option<Vec<u8>>)
        ensures
            old(self).pending@.len() == 0 ==> r is None && final(self).pending@ == old(self).pending@,
            old(self).pending@.len() > 0 ==> r == Some(old(self).pending@.last()) && final(self).pending@
                == old(self).pending@.drop_last(),
            final(self).seen@ == old(self).seen@,
            final(self).physical@ == old(self).physical@,
            final(self).virtual_root@ == old(self).virtual_root@,
    {
        self.pending.pop()
    }

    /// Takes in what is known of the device taken last (`None` when it
    /// could not be resolved): a device seen before is skipped; a
    /// partition leads to its drive; a device built on others leads to
    /// them; any other is a physical drive unless it is virtual.
    pub fn visit(&mut self, facts: Option<DeviceFacts>)
        ensures
            final(self).virtual_root@ == old(self).virtual_root@,
            match facts {
                None => byte_texts(final(self).pending@) == byte_texts(old(self).pending@) && byte_texts(
                    final(self).seen@,
                ) == byte_texts(old(self).seen@) && byte_texts(final(self).physical@) == byte_texts(
                    old(self).physical@,
                ),
                Some(f) => if byte_texts(old(self).seen@).contains(f.device@) {
                    byte_texts(final(self).pending@) == byte_texts(old(self).pending@) && byte_texts(
                        final(self).seen@,
                    ) == byte_texts(old(self).seen@) && byte_texts(final(self).physical@) == byte_texts(
                        old(self).physical@,
                    )
                } else {
                    &&& byte_texts(final(self).seen@) == byte_texts(old(self).seen@).push(f.device@)
                    &&& if f.partition {
                        byte_texts(final(self).physical@) == byte_texts(old(self).physical@)
                            && byte_texts(final(self).pending@) == match f.parent {
                            Some(p) => byte_texts(old(self).pending@).push(p@),
                            None => byte_texts(old(self).pending@),
                        }
                    } else if f.slaves@.len() > 0 {
                        byte_texts(final(self).physical@) == byte_texts(old(self).physical@)
                            && byte_texts(final(self).pending@) == byte_texts(old(self).pending@)
                            + byte_texts(f.slaves@)
                    } else {
                        byte_texts(final(self).pending@) == byte_texts(old(self).pending@)
                            && byte_texts(final(self).physical@) == if path_starts_with(
                            f.device@,
                            old(self).virtual_root@,
                        ) {
                            byte_texts(old(self).physical@)
                        } else {
                            byte_texts(old(self).physical@).push(f.device@)
                        }
                    }
                },
            },
    {
        let f = match facts {
            Some(f) => f,
            None => return,
        };
        if contains_bytes(&self.seen, &f.device) {
            return;
        }
        let ghost s0 = byte_texts(self.seen@);
        self.seen.push(vstd::slice::slice_to_vec(f.device.as_slice()));
        assert(byte_texts(self.seen@) =~= s0.push(f.device@));
        if f.partition {
            match f.parent {
                Some(p) => {
                    let ghost p0 = byte_texts(self.pending@);
                    let ghost pv = p@;
                    self.pending.push(p);
                    assert(byte_texts(self.pending@) =~= p0.push(pv));
                },
                None => {},
            }
            return;
        }
        if f.slaves.len() > 0 {
            let ghost p0 = byte_texts(self.pending@);
            let mut i: usize = 0;
            while i < f.slaves.len()
                invariant
                    0 <= i <= f.slaves@.len(),
                    byte_texts(self.pending@) == p0 + byte_texts(f.slaves@).take(i as int),
                    byte_texts(self.seen@) == s0.push(f.device@),
                    byte_texts(self.physical@) == byte_texts(old(self).physical@),
                    self.virtual_root@ == old(self).virtual_root@,
                decreases f.slaves@.len() - i,
            {
                let ghost before = byte_texts(self.pending@);
                let v = vstd::slice::slice_to_vec(f.slaves[i].as_slice());
                assert(v@ == byte_texts(f.slaves@)[i as int]);
                self.pending.push(v);
                assert(byte_texts(self.pending@) =~= before.push(byte_texts(f.slaves@)[i as int]));
                assert(byte_texts(f.slaves@).take(i + 1) =~= byte_texts(f.slaves@).take(i as int).push(byte_texts(f.slaves@)[i as int]));
                i += 1;
            }
            assert(byte_texts(f.slaves@).take(i as int) =~= byte_texts(f.slaves@));
            return;
        }
        if !starts_with_path(f.device.as_slice(), self.virtual_root.as_slice()) {
            let ghost q0 = byte_texts(self.physical@);
            let ghost dv = f.device@;
            self.physical.push(f.device);
            assert(byte_texts(self.physical@) =~= q0.push(dv));
        }
    }
}

/// Whether `a` comes before `b` byte by byte, a prefix first.
pub open spec fn bytes_less(a: Seq<u8>, b: Seq<u8>) -> bool
    decreases a.len(),
{
    if a.len() == 0 {
        b.len() > 0
    } else if b.len() == 0 {
        false
    } else if a[0] != b[0] {
        a[0] < b[0]
    } else {
        bytes_less(a.drop_first(), b.drop_first())
    }
}

proof fn lemma_bytes_less_irreflexive(a: Seq<u8>)
    ensures
        !bytes_less(a, a),
    decreases a.len(),
{
    if a.len() > 0 {
        lemma_bytes_less_irreflexive(a.drop_first());
    }
}

proof fn lemma_bytes_less_transitive(a: Seq<u8>, b: Seq<u8>, c: Seq<u8>)
    requires
        bytes_less(a, b),
        bytes_less(b, c),
    ensures
        bytes_less(a, c),
    decreases a.len(),
{
    if a.len() > 0 && b.len() > 0 && c.len() > 0 && a[0] == b[0] && b[0] == c[0] {
        lemma_bytes_less_transitive(a.drop_first(), b.drop_first(), c.drop_first());
    }
}

/// The code of one component in the order of paths: the root, `.` and
/// `..` before any name, names byte by byte.
pub open spec fn component_code(c: Seq<u8>) -> Seq<u8> {
    if c == seq![0x2fu8] {
        seq![1u8]
    } else if c == seq![0x2eu8] {
        seq![2u8]
    } else if c == seq![0x2eu8, 0x2eu8] {
        seq![3u8]
    } else {
        seq![4u8] + c
    }
}

/// The codes of components, each followed by a zero byte.
pub open spec fn components_code(c: Seq<Seq<u8>>) -> Seq<u8>
    decreases c.len(),
{
    if c.len() == 0 {
        Seq::empty()
    } else {
        components_code(c.drop_last()) + component_code(c.last()) + seq![0u8]
    }
}

/// The order of paths (`Path`'s): component by component, fewer
/// components first when one path begins the other. The paths compared
/// hold no zero byte, as no path on a Unix system does.
pub open spec fn path_code(p: Seq<u8>) -> Seq<u8> {
    components_code(path_components(p))
}

fn component_code_exec(c: &Vec<u8>) -> (r: Vec<u8>)
    ensures
        r@ == component_code(c@),
{
    let mut out: Vec<u8> = Vec::new();
    if c.len() == 1 && c[0] == 0x2f {
        assert(c@ =~= seq![0x2fu8]);
        out.push(1);
    } else if c.len() == 1 && c[0] == 0x2e {
        assert(c@ =~= seq![0x2eu8]);
        out.push(2);
    } else if c.len() == 2 && c[0] == 0x2e && c[1] == 0x2e {
        assert(c@ =~= seq![0x2eu8, 0x2eu8]);
        out.push(3);
    } else {
        proof {
            if c@ == seq![0x2fu8] || c@ == seq![0x2eu8] { assert(c@[0] == c@[0]); }
            if c@ == seq![0x2eu8, 0x2eu8] { assert(c@.len() == 2); }
        }
        out.push(4);
        let mut i: usize = 0;
        while i < c.len()
            invariant
                0 <= i <= c@.len(),
                out@ == seq![4u8] + c@.take(i as int),
            decreases c@.len() - i,
        {
            out.push(c[i]);
            assert(out@ =~= seq![4u8] + c@.take(i + 1));
            i += 1;
        }
        assert(c@.take(i as int) =~= c@);
    }
    assert(out@ =~= component_code(c@));
    out
}

fn path_code_exec(p: &Vec<u8>) -> (r: Vec<u8>)
    ensures
        r@ == path_code(p@),
{
    let comps = components(p.as_slice());
    let ghost cv = comps@.map_values(|c: Vec<u8>| c@);
    let mut out: Vec<u8> = Vec::new();
    let mut i: usize = 0;
    assert(cv.take(0) =~= Seq::<Seq<u8>>::empty());
    while i < comps.len()
        invariant
            0 <= i <= comps@.len(),
            cv == comps@.map_values(|c: Vec<u8>| c@),
            out@ == components_code(cv.take(i as int)),
        decreases comps@.len() - i,
    {
        assert(cv.take(i + 1).drop_last() =~= cv.take(i as int));
        let code = component_code_exec(&comps[i]);
        let mut k: usize = 0;
        let ghost start = out@;
        while k < code.len()
            invariant
                0 <= k <= code@.len(),
                out@ == start + code@.take(k as int),
            decreases code@.len() - k,
        {
            out.push(code[k]);
            assert(out@ =~= start + code@.take(k + 1));
            k += 1;
        }
        assert(code@.take(k as int) =~= code@);
        out.push(0);
        assert(out@ =~= components_code(cv.take(i + 1)));
        i += 1;
    }
    assert(cv.take(i as int) =~= cv);
    out
}

fn codes_less(a: &Vec<u8>, b: &Vec<u8>) -> (r: bool)
    ensures
        r == bytes_less(a@, b@),
{
    let mut i: usize = 0;
    assert(a@.skip(0) =~= a@);
    assert(b@.skip(0) =~= b@);
    while i < a.len() && i < b.len() && a[i] == b[i]
        invariant
            0 <= i <= a@.len(),
            i <= b@.len(),
            bytes_less(a@, b@) == bytes_less(a@.skip(i as int), b@.skip(i as int)),
        decreases a@.len() - i,
    {
        assert(a@.skip(i as int).drop_first() =~= a@.skip(i + 1));
        assert(b@.skip(i as int).drop_first() =~= b@.skip(i + 1));
        i += 1;
    }
    if i == a.len() {
        i < b.len()
    } else if i == b.len() {
        false
    } else {
        a[i] < b[i]
    }
}

/// Whether paths are in the order of paths.
pub open spec fn paths_sorted(paths: Seq<Seq<u8>>) -> bool {
    forall|i: int, j: int| 0 <= i < j < paths.len() ==> !bytes_less(path_code(paths[j]), path_code(paths[i]))
}

impl DeviceWalk {
    /// The physical drives found, in the order of paths.
    pub fn finish(self) -> (r: Vec<Vec<u8>>)
        ensures
            byte_texts(r@).to_multiset() == byte_texts(self.physical@).to_multiset(),
            paths_sorted(byte_texts(r@)),
    {
        let mut paths = self.physical;
        let ghost original = byte_texts(paths@);
        let n = paths.len();
        let mut keys: Vec<Vec<u8>> = Vec::new();
        let mut k: usize = 0;
        while k < n
            invariant
                n == paths@.len(),
                0 <= k <= n,
                keys@.len() == k,
                byte_texts(paths@) == original,
                forall|q: int| 0 <= q < k ==> #[trigger] keys@[q]@ == path_code(paths@[q]@),
            decreases n - k,
        {
            keys.push(path_code_exec(&paths[k]));
            k += 1;
        }
        if n == 0 {
            return paths;
        }
        let mut i: usize = 1;
        while i < n
            invariant
                n == paths@.len(),
                keys@.len() == n,
                1 <= i <= n,
                forall|q: int| 0 <= q < n ==> #[trigger] keys@[q]@ == path_code(paths@[q]@),
                byte_texts(paths@).to_multiset() == original.to_multiset(),
                forall|a: int, b: int| 0 <= a < b < i ==> !bytes_less(keys@[b]@, keys@[a]@),
            decreases n - i,
        {
            let mut j: usize = 0;
            while j < i && !codes_less(&keys[i], &keys[j])
                invariant
                    n == paths@.len(),
                    keys@.len() == n,
                    0 <= j <= i < n,
                    forall|q: int| 0 <= q < j ==> !bytes_less(keys@[i as int]@, #[trigger] keys@[q]@),
                decreases i - j,
            {
                j += 1;
            }
            let ghost before = byte_texts(paths@);
            let ghost kb = keys@;
            let ghost x = before[i as int];
            let item = paths.remove(i);
            paths.insert(j, item);
            let key = keys.remove(i);
            keys.insert(j, key);
            proof {
                assert(byte_texts(paths@) =~= before.remove(i as int).insert(j as int, x));
                vstd::seq_lib::to_multiset_remove(before, i as int);
                vstd::seq_lib::to_multiset_insert(before.remove(i as int), j as int, x);
                assert(before.to_multiset().remove(x).insert(x) =~= before.to_multiset()) by {
                    before.to_multiset_ensures();
                    assert(before.contains(x));
                }
                assert forall|a: int, b: int| 0 <= a < b < i + 1 implies !bytes_less(keys@[b]@, keys@[a]@) by {
                    if a < j && b < j {
                    } else if a < j && b == j {
                    } else if a < j && b > j {
                        assert(keys@[b] == kb[b - 1]);
                    } else if a == j {
                        assert(keys@[a] == kb[i as int]);
                        assert(keys@[b] == kb[b - 1]);
                        let xb = kb[b - 1]@;
                        let xx = kb[i as int]@;
                        if bytes_less(xb, xx) {
                            assert(j < i);
                            let xj = kb[j as int]@;
                            assert(bytes_less(xx, xj));
                            lemma_bytes_less_transitive(xb, xx, xj);
                            if b - 1 == j {
                                lemma_bytes_less_irreflexive(xj);
                            } else {
                                assert(!bytes_less(xb, xj));
                            }
                        }
                    } else {
                        assert(keys@[a] == kb[a - 1] && keys@[b] == kb[b - 1]);
                    }
                }
            }
            i += 1;
        }
        proof {
            let pv = byte_texts(paths@);
            assert forall|a: int, b: int| 0 <= a < b < pv.len() implies !bytes_less(path_code(#[trigger] pv[b]), path_code(#[trigger] pv[a])) by {
                assert(keys@[a]@ == path_code(paths@[a]@));
                assert(keys@[b]@ == path_code(paths@[b]@));
            }
        }
        paths
    }
}

} // verus!
