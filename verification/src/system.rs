//! System information shown in the expandable rows, and the parsers of
//! the kernel and hardware files it comes from.
use vstd::prelude::*;
use crate::i18n::Translator;
use crate::storage::{attribute_spec, attribute_value, first_attribute, opt_view};
use crate::text::{
    chars_of, string_of, lines_of, lines_spec, words_of, words_spec, split_once_char,
    split_once_spec, parse_u64, parse_u64_spec, trim, trim_chars, trim_start, trim_start_chars,
    strip_hex_prefix, strip_hex_prefix_chars, parse_hex, parse_hex_spec, split_at_whitespace,
    split_whitespace_once, hex_fixed, push_hex_fixed, push_str, owned, chars_equal, contains_str,
    contains_sub, lowercase, to_lowercase,
};

verus! {

/// One expandable row: its label, the summary beside it, and the
/// `label: value` details it opens.
pub struct SystemSection {
    pub label: String,
    pub summary: String,
    pub details: Vec<(String, String)>,
}

/// The operating system, desktop environment and PC rows, and the icon
/// names of the first two.
pub struct SystemInfo {
    pub sections: [SystemSection; 3],
    pub os_icon: String,
    pub desktop_icon: String,
}

/// What `from_str_radix(.., 16)` reads from a PCI identifier file: the
/// trimmed text without its leading `0x`, when it fits in `limit`.
pub open spec fn hex_id(s: Seq<char>, limit: nat) -> Option<nat> {
    match parse_hex_spec(strip_hex_prefix(trim(s))) {
        Some(v) => if v <= limit { Some(v) } else { None },
        None => None,
    }
}

/// A PCI vendor or device identifier.
pub open spec fn pci_id(s: Seq<char>) -> Option<u16> {
    match hex_id(s, 0xffff) {
        Some(v) => Some(v as u16),
        None => None,
    }
}

fn hex_id_chars(v: &Vec<char>, limit: u64) -> (r: Option<u64>)
    ensures
        r == match hex_id(v@, limit as nat) {
            Some(n) => Some(n as u64),
            None => None,
        },
{
    let t = trim_chars(v);
    let stripped = strip_hex_prefix_chars(&t);
    parse_hex(&stripped, limit)
}

fn pci_id_chars(v: &Vec<char>) -> (r: Option<u16>)
    ensures
        r == pci_id(v@),
{
    match hex_id_chars(v, 0xffff) {
        Some(n) => Some(n as u16),
        None => None,
    }
}

/// Reads a PCI identifier (`vendor` or `device` file): hexadecimal, with
/// or without `0x`.
pub fn parse_pci_id(value: &str) -> (r: Option<u16>)
    ensures
        r == pci_id(value@),
{
    pci_id_chars(&chars_of(value))
}

/// Whether the contents of a PCI `class` file name a display controller
/// (base class 3).
pub open spec fn display_class(contents: Seq<char>) -> bool {
    match hex_id(contents, 0xffff_ffff) {
        Some(v) => v / 65536 == 3,
        None => false,
    }
}

/// Whether a PCI device with this `class` file is a display controller.
pub fn is_display_class(contents: &str) -> (r: bool)
    ensures
        r == display_class(contents@),
{
    match hex_id_chars(&chars_of(contents), 0xffff_ffff) {
        Some(v) => v / 65536 == 3,
        None => false,
    }
}

/// The name of a card in `/sys/class/drm`: `card` and at least one digit,
/// nothing else (no connector, no render node).
pub open spec fn graphics_card_name(name: Seq<char>) -> bool {
    &&& name.len() > 4
    &&& name.take(4) == "card"@
    &&& forall|k: int| 4 <= k < name.len() ==> '0' <= #[trigger] name[k] && name[k] <= '9'
}

/// Whether an entry of `/sys/class/drm` is a graphics card.
pub fn is_graphics_card(name: &str) -> (r: bool)
    ensures
        r == graphics_card_name(name@),
{
    proof {
        reveal_strlit("card");
        assert("card"@ =~= seq!['c', 'a', 'r', 'd']);
    }
    let c = chars_of(name);
    if c.len() <= 4 || c[0] != 'c' || c[1] != 'a' || c[2] != 'r' || c[3] != 'd' {
        assert(!graphics_card_name(c@)) by {
            if c@.len() > 4 && c@.take(4) == "card"@ {
                assert(c@.take(4)[0] == c@[0]);
                assert(c@.take(4)[1] == c@[1]);
                assert(c@.take(4)[2] == c@[2]);
                assert(c@.take(4)[3] == c@[3]);
            }
        }
        return false;
    }
    assert(c@.take(4) =~= "card"@);
    let mut i: usize = 4;
    while i < c.len()
        invariant
            4 <= i <= c@.len(),
            c@ == name@,
            c@.take(4) == "card"@,
            forall|k: int| 4 <= k < i ==> '0' <= #[trigger] c@[k] && c@[k] <= '9',
        decreases c@.len() - i,
    {
        if c[i] < '0' || c[i] > '9' {
            assert(!('0' <= c@[i as int] && c@[i as int] <= '9'));
            return false;
        }
        i += 1;
    }
    true
}

/// What a line of `/proc/meminfo` says of the total memory: on the
/// `MemTotal` line, its first word as a number of KiB above zero.
pub open spec fn memory_line(line: Seq<char>) -> Option<u64> {
    match split_once_spec(line, ':') {
        None => None,
        Some((key, value)) => if key != "MemTotal"@ {
            None
        } else {
            let w = words_spec(value);
            if w.len() == 0 {
                None
            } else {
                match parse_u64_spec(w[0]) {
                    Some(t) => if t > 0 {
                        Some(t)
                    } else {
                        None
                    },
                    None => None,
                }
            }
        },
    }
}

/// The first line that gives the total memory.
pub open spec fn first_memory_total(lines: Seq<Seq<char>>) -> Option<u64>
    decreases lines.len(),
{
    if lines.len() == 0 {
        None
    } else {
        match memory_line(lines[0]) {
            Some(t) => Some(t),
            None => first_memory_total(lines.drop_first()),
        }
    }
}

fn memory_line_exec(line: &Vec<char>) -> (r: Option<u64>)
    ensures
        r == memory_line(line@),
{
    let (key, value) = match split_once_char(line, ':') {
        Some(parts) => parts,
        None => return None,
    };
    let name = chars_of("MemTotal");
    if !chars_equal(&key, &name) {
        return None;
    }
    let w = words_of(&value);
    assert(w@.map_values(|p: Vec<char>| p@).len() == w@.len());
    if w.len() == 0 {
        return None;
    }
    assert(w@[0]@ == words_spec(value@)[0]);
    match parse_u64(&w[0]) {
        Some(t) => if t > 0 {
            Some(t)
        } else {
            None
        },
        None => None,
    }
}

/// The total memory in KiB from the contents of `/proc/meminfo`.
pub fn memory_total(contents: &str) -> (r: Option<u64>)
    ensures
        r == first_memory_total(lines_spec(contents@)),
{
    let lines = lines_of(&chars_of(contents));
    let ghost lv = lines@.map_values(|p: Vec<char>| p@);
    let mut i: usize = 0;
    assert(lv.skip(0) =~= lv);
    while i < lines.len()
        invariant
            0 <= i <= lines@.len(),
            lv == lines@.map_values(|p: Vec<char>| p@),
            lv == lines_spec(contents@),
            first_memory_total(lv) == first_memory_total(lv.skip(i as int)),
        decreases lines@.len() - i,
    {
        assert(lv.skip(i as int).drop_first() =~= lv.skip(i + 1));
        assert(lv.skip(i as int)[0] == lines@[i as int]@);
        match memory_line_exec(&lines[i]) {
            Some(t) => return Some(t),
            None => {},
        }
        i += 1;
    }
    None
}

/// A vendor's name with both identifiers in hexadecimal.
pub open spec fn pci_found(vendor: Seq<char>, vendor_id: u16, device_id: u16) -> Seq<char> {
    vendor + " ["@ + hex_fixed(vendor_id as nat, 4) + ":"@ + hex_fixed(device_id as nat, 4) + "]"@
}

/// What the scan of `pci.ids` gives when it ends without the device's
/// line: the vendor's name with both identifiers, if the vendor was found.
pub open spec fn pci_finish(vendor: Option<Seq<char>>, vendor_id: u16, device_id: u16) -> Option<
    Seq<char>,
> {
    match vendor {
        Some(v) => Some(pci_found(v, vendor_id, device_id)),
        None => None,
    }
}

/// The scan of the lines of `pci.ids`: skip comments and empty lines; a
/// line that starts at the margin names a vendor by its identifier; a line
/// indented once names a device of the vendor above it; deeper lines are
/// subsystems. The scan looks for the vendor, then for the device among
/// its lines, and ends at the next vendor.
pub open spec fn pci_scan(
    lines: Seq<Seq<char>>,
    vendor: Option<Seq<char>>,
    vendor_id: u16,
    device_id: u16,
) -> Option<Seq<char>>
    decreases lines.len(),
{
    if lines.len() == 0 {
        pci_finish(vendor, vendor_id, device_id)
    } else {
        let line = lines[0];
        let rest = lines.drop_first();
        if line.len() == 0 || line[0] == '#' {
            pci_scan(rest, vendor, vendor_id, device_id)
        } else if line[0] == '\t' {
            if (line.len() >= 2 && line[1] == '\t') || vendor is None {
                pci_scan(rest, vendor, vendor_id, device_id)
            } else {
                match split_whitespace_once(trim_start(line)) {
                    None => pci_scan(rest, vendor, vendor_id, device_id),
                    Some((id, name)) => if pci_id(id) == Some(device_id) && trim(name).len() > 0 {
                        Some(vendor->0 + " "@ + trim(name))
                    } else {
                        pci_scan(rest, vendor, vendor_id, device_id)
                    },
                }
            }
        } else if vendor is Some {
            pci_finish(vendor, vendor_id, device_id)
        } else {
            match split_whitespace_once(line) {
                None => pci_scan(rest, vendor, vendor_id, device_id),
                Some((id, name)) => if pci_id(id) == Some(vendor_id) && trim(name).len() > 0 {
                    pci_scan(rest, Some(trim(name)), vendor_id, device_id)
                } else {
                    pci_scan(rest, vendor, vendor_id, device_id)
                },
            }
        }
    }
}

fn pci_finish_exec(vendor: Option<Vec<char>>, vendor_id: u16, device_id: u16) -> (r: Option<
    String,
>)
    ensures
        match r {
            Some(n) => pci_finish(
                match vendor {
                    Some(v) => Some(v@),
                    None => None,
                },
                vendor_id,
                device_id,
            ) == Some(n@),
            None => vendor is None,
        },
{
    match vendor {
        Some(v) => {
            let mut s = string_of(v.as_slice());
            push_str(&mut s, " [");
            push_hex_fixed(&mut s, vendor_id as u32, 4);
            push_str(&mut s, ":");
            push_hex_fixed(&mut s, device_id as u32, 4);
            push_str(&mut s, "]");
            Some(s)
        },
        None => None,
    }
}

/// Names a PCI device from the contents of `pci.ids`: the vendor's name
/// and the device's, or the vendor's name with both identifiers when the
/// vendor lists no such device; nothing when the vendor is not listed.
pub fn pci_name(contents: &str, vendor_id: u16, device_id: u16) -> (r: Option<String>)
    ensures
        match r {
            Some(n) => pci_scan(lines_spec(contents@), None, vendor_id, device_id) == Some(n@),
            None => pci_scan(lines_spec(contents@), None, vendor_id, device_id) is None,
        },
{
    let lines = lines_of(&chars_of(contents));
    let ghost lv = lines@.map_values(|p: Vec<char>| p@);
    let mut vendor: Option<Vec<char>> = None;
    let mut i: usize = 0;
    assert(lv.skip(0) =~= lv);
    while i < lines.len()
        invariant
            0 <= i <= lines@.len(),
            lv == lines@.map_values(|p: Vec<char>| p@),
            lv == lines_spec(contents@),
            pci_scan(lv, None, vendor_id, device_id) == pci_scan(
                lv.skip(i as int),
                match vendor {
                    Some(v) => Some(v@),
                    None => None,
                },
                vendor_id,
                device_id,
            ),
        decreases lines@.len() - i,
    {
        assert(lv.skip(i as int).drop_first() =~= lv.skip(i + 1));
        assert(lv.skip(i as int)[0] == lines@[i as int]@);
        let line = &lines[i];
        if line.len() == 0 || line[0] == '#' {
            i += 1;
            continue;
        }
        if line[0] == '\t' {
            if (line.len() >= 2 && line[1] == '\t') || vendor.is_none() {
                i += 1;
                continue;
            }
            let trimmed = trim_start_chars(line);
            match split_at_whitespace(&trimmed) {
                None => {},
                Some((id, name)) => {
                    let name = trim_chars(&name);
                    if pci_id_chars(&id) == Some(device_id) && name.len() > 0 {
                        let mut s = match &vendor {
                            Some(v) => string_of(v.as_slice()),
                            None => String::new(),
                        };
                        push_str(&mut s, " ");
                        let n = string_of(name.as_slice());
                        push_str(&mut s, n.as_str());
                        return Some(s);
                    }
                },
            }
        } else {
            if vendor.is_some() {
                return pci_finish_exec(vendor, vendor_id, device_id);
            }
            match split_at_whitespace(line) {
                None => {},
                Some((id, name)) => {
                    let name = trim_chars(&name);
                    if pci_id_chars(&id) == Some(vendor_id) && name.len() > 0 {
                        vendor = Some(name);
                    }
                },
            }
        }
        i += 1;
    }
    assert(lv.skip(i as int) =~= Seq::<Seq<char>>::empty());
    pci_finish_exec(vendor, vendor_id, device_id)
}

/// The brand of a PCI vendor, for a device missing from `pci.ids`.
pub open spec fn vendor_brand(vendor_id: u16) -> Seq<char> {
    if vendor_id == 0x1002 {
        "AMD"@
    } else if vendor_id == 0x10de {
        "NVIDIA"@
    } else if vendor_id == 0x8086 {
        "Intel"@
    } else {
        "GPU PCI"@
    }
}

/// The name of a graphics device: the first of its `product_name` and
/// `label` files that holds a value; else, when both PCI identifiers can be
/// read, its name in `pci.ids` or its vendor's brand with both
/// identifiers; else the name of its driver.
pub open spec fn graphics_name_spec(
    names: Seq<Option<Seq<char>>>,
    vendor: Option<Seq<char>>,
    device: Option<Seq<char>>,
    pci_ids: Seq<char>,
    driver: Option<Seq<char>>,
) -> Option<Seq<char>> {
    match first_attribute(names) {
        Some(n) => Some(n),
        None => {
            let v = match vendor {
                Some(c) => pci_id(c),
                None => None,
            };
            let d = match device {
                Some(c) => pci_id(c),
                None => None,
            };
            match (v, d) {
                (Some(v), Some(d)) => Some(
                    match pci_scan(lines_spec(pci_ids), None, v, d) {
                        Some(n) => n,
                        None => pci_found(vendor_brand(v), v, d),
                    },
                ),
                _ => driver,
            }
        },
    }
}

fn optional_pci_id(contents: &Option<String>) -> (r: Option<u16>)
    ensures
        r == match opt_view(*contents) {
            Some(c) => pci_id(c),
            None => None,
        },
{
    match contents {
        Some(c) => parse_pci_id(c.as_str()),
        None => None,
    }
}

/// Names a graphics device from what its files hold: `names` the contents
/// of its `product_name` and `label` files, `vendor` and `device` those of
/// its PCI identifier files, `pci_ids` the contents of `pci.ids`, and
/// `driver` the name of its driver, each where it could be read.
pub fn graphics_name(
    names: Vec<Option<String>>,
    vendor: Option<String>,
    device: Option<String>,
    pci_ids: &str,
    driver: Option<String>,
) -> (r: Option<String>)
    ensures
        opt_view(r) == graphics_name_spec(
            names@.map_values(|c: Option<String>| opt_view(c)),
            opt_view(vendor),
            opt_view(device),
            pci_ids@,
            opt_view(driver),
        ),
{
    let ghost cv = names@.map_values(|c: Option<String>| opt_view(c));
    let mut i: usize = 0;
    assert(cv.skip(0) =~= cv);
    while i < names.len()
        invariant
            0 <= i <= names@.len(),
            cv == names@.map_values(|c: Option<String>| opt_view(c)),
            first_attribute(cv) == first_attribute(cv.skip(i as int)),
        decreases names@.len() - i,
    {
        assert(cv.skip(i as int).drop_first() =~= cv.skip(i + 1));
        assert(cv.skip(i as int)[0] == cv[i as int]);
        let c = match &names[i] {
            Some(s) => Some(s.clone()),
            None => None,
        };
        assert(opt_view(c) == cv[i as int]);
        match attribute_value(c) {
            Some(v) => return Some(v),
            None => {},
        }
        i += 1;
    }
    assert(cv.skip(i as int).len() == 0);
    let v = optional_pci_id(&vendor);
    let d = optional_pci_id(&device);
    match (v, d) {
        (Some(v), Some(d)) => match pci_name(pci_ids, v, d) {
            Some(n) => Some(n),
            None => {
                let brand = if v == 0x1002 {
                    "AMD"
                } else if v == 0x10de {
                    "NVIDIA"
                } else if v == 0x8086 {
                    "Intel"
                } else {
                    "GPU PCI"
                };
                let mut s = owned(brand);
                push_str(&mut s, " [");
                push_hex_fixed(&mut s, v as u32, 4);
                push_str(&mut s, ":");
                push_hex_fixed(&mut s, d as u32, 4);
                push_str(&mut s, "]");
                Some(s)
            },
        },
        _ => driver,
    }
}

/// The text a system file shows: its trimmed contents, or `No disponible`
/// when it could not be read or holds only whitespace.
pub open spec fn file_value(contents: Option<Seq<char>>) -> Seq<char> {
    match attribute_spec(contents) {
        Some(v) => v,
        None => "No disponible"@,
    }
}

/// The text shown for a system file from its contents.
pub fn read_value(contents: Option<String>) -> (r: String)
    ensures
        r@ == file_value(opt_view(contents)),
{
    match attribute_value(contents) {
        Some(v) => v,
        None => owned("No disponible"),
    }
}

/// The text an environment variable shows: its value, or `No disponible`
/// when it is unset or empty.
pub open spec fn variable_value(value: Option<Seq<char>>) -> Seq<char> {
    match value {
        Some(v) => if v.len() > 0 {
            v
        } else {
            "No disponible"@
        },
        None => "No disponible"@,
    }
}

/// The text shown for an environment variable from its value.
pub fn env_value(value: Option<String>) -> (r: String)
    ensures
        r@ == variable_value(opt_view(value)),
{
    match value {
        Some(v) => if !v.as_str().is_empty() {
            v
        } else {
            owned("No disponible")
        },
        None => owned("No disponible"),
    }
}

/// A quotation mark that `os-release` values may be wrapped in.
pub open spec fn is_quote(c: char) -> bool {
    c == '"' || c == '\''
}

/// `s` without leading quotation marks.
pub open spec fn strip_quotes_start(s: Seq<char>) -> Seq<char>
    decreases s.len(),
{
    if s.len() > 0 && is_quote(s[0]) {
        strip_quotes_start(s.drop_first())
    } else {
        s
    }
}

/// `s` without trailing quotation marks.
pub open spec fn strip_quotes_end(s: Seq<char>) -> Seq<char>
    decreases s.len(),
{
    if s.len() > 0 && is_quote(s.last()) {
        strip_quotes_end(s.drop_last())
    } else {
        s
    }
}

/// `s` without the quotation marks around it (`trim_matches(['"', '\''])`).
pub open spec fn strip_quotes(s: Seq<char>) -> Seq<char> {
    strip_quotes_end(strip_quotes_start(s))
}

fn strip_quotes_chars(v: &Vec<char>) -> (r: Vec<char>)
    ensures
        r@ == strip_quotes(v@),
{
    let n = v.len();
    let mut i: usize = 0;
    assert(v@.skip(0) =~= v@);
    while i < n && (v[i] == '"' || v[i] == '\'')
        invariant
            n == v@.len(),
            0 <= i <= n,
            strip_quotes_start(v@) == strip_quotes_start(v@.skip(i as int)),
        decreases n - i,
    {
        assert(v@.skip(i as int).drop_first() =~= v@.skip(i + 1));
        i += 1;
    }
    let ghost rest = v@.skip(i as int);
    assert(strip_quotes_start(rest) == rest);
    let mut j: usize = n;
    assert(rest.take(j - i) =~= rest);
    while j > i && (v[j - 1] == '"' || v[j - 1] == '\'')
        invariant
            n == v@.len(),
            0 <= i <= j <= n,
            rest == v@.skip(i as int),
            strip_quotes_end(rest) == strip_quotes_end(rest.take(j - i)),
        decreases j,
    {
        assert(rest.take(j - i).drop_last() =~= rest.take(j - 1 - i));
        assert(rest.take(j - i).last() == v@[j - 1]);
        j -= 1;
    }
    assert(rest.take(j - i) =~= v@.subrange(i as int, j as int));
    crate::text::slice_chars(v, i, j)
}

/// The `KEY=value` pairs of the lines of `os-release`, in order: comment
/// lines and lines without `=` are skipped, and quotation marks around a
/// value are dropped.
pub open spec fn release_pairs(lines: Seq<Seq<char>>) -> Seq<(Seq<char>, Seq<char>)>
    decreases lines.len(),
{
    if lines.len() == 0 {
        Seq::empty()
    } else {
        let r = release_pairs(lines.drop_last());
        let line = lines.last();
        if line.len() > 0 && line[0] == '#' {
            r
        } else {
            match split_once_spec(line, '=') {
                Some((key, value)) => r.push((key, strip_quotes(value))),
                None => r,
            }
        }
    }
}

/// A pair of strings as plain values.
pub open spec fn pair_view(p: (String, String)) -> (Seq<char>, Seq<char>) {
    (p.0@, p.1@)
}

/// Reads `/etc/os-release`: its `KEY=value` pairs in order.
pub fn parse_release(contents: &str) -> (r: Vec<(String, String)>)
    ensures
        r@.map_values(|p: (String, String)| pair_view(p)) == release_pairs(lines_spec(contents@)),
{
    let lines = lines_of(&chars_of(contents));
    let ghost lv = lines@.map_values(|p: Vec<char>| p@);
    let mut pairs: Vec<(String, String)> = Vec::new();
    let mut i: usize = 0;
    while i < lines.len()
        invariant
            0 <= i <= lines@.len(),
            lv == lines@.map_values(|p: Vec<char>| p@),
            lv == lines_spec(contents@),
            pairs@.map_values(|p: (String, String)| pair_view(p)) == release_pairs(lv.take(i as int)),
        decreases lines@.len() - i,
    {
        assert(lv.take(i + 1).drop_last() =~= lv.take(i as int));
        assert(lv.take(i + 1).last() == lines@[i as int]@);
        let line = &lines[i];
        if !(line.len() > 0 && line[0] == '#') {
            match split_once_char(line, '=') {
                Some((key, value)) => {
                    let ghost before = pairs@.map_values(|p: (String, String)| pair_view(p));
                    let v = strip_quotes_chars(&value);
                    pairs.push((string_of(key.as_slice()), string_of(v.as_slice())));
                    assert(pairs@.map_values(|p: (String, String)| pair_view(p)) =~= before.push(
                        (key@, strip_quotes(value@)),
                    ));
                },
                None => {},
            }
        }
        i += 1;
    }
    assert(lv.take(i as int) =~= lv);
    pairs
}

/// The value of the last pair with `key`.
pub open spec fn release_lookup(pairs: Seq<(Seq<char>, Seq<char>)>, key: Seq<char>) -> Option<
    Seq<char>,
>
    decreases pairs.len(),
{
    if pairs.len() == 0 {
        None
    } else if pairs.last().0 == key {
        Some(pairs.last().1)
    } else {
        release_lookup(pairs.drop_last(), key)
    }
}

/// The value given to `key` in `os-release`: the last one, as a later
/// line overrides an earlier one.
pub fn release_value(pairs: &Vec<(String, String)>, key: &str) -> (r: Option<String>)
    ensures
        opt_view(r) == release_lookup(pairs@.map_values(|p: (String, String)| pair_view(p)), key@),
{
    let ghost pv = pairs@.map_values(|p: (String, String)| pair_view(p));
    let mut i: usize = pairs.len();
    assert(pv.take(i as int) =~= pv);
    while i > 0
        invariant
            0 <= i <= pairs@.len(),
            pv == pairs@.map_values(|p: (String, String)| pair_view(p)),
            release_lookup(pv, key@) == release_lookup(pv.take(i as int), key@),
        decreases i,
    {
        assert(pv.take(i as int).drop_last() =~= pv.take(i - 1));
        assert(pv.take(i as int).last() == pair_view(pairs@[i - 1]));
        if crate::text::str_equal(pairs[i - 1].0.as_str(), key) {
            return Some(pairs[i - 1].1.clone());
        }
        i -= 1;
    }
    None
}

/// Whether `key`, trimmed, names the processor in `/proc/cpuinfo`.
pub open spec fn cpu_key(key: Seq<char>) -> bool {
    trim(key) == "model name"@ || trim(key) == "Hardware"@ || trim(key) == "Model"@
}

/// The processor's name: the trimmed value of the first line of
/// `/proc/cpuinfo` whose key names it.
pub open spec fn cpu_name_spec(lines: Seq<Seq<char>>) -> Option<Seq<char>>
    decreases lines.len(),
{
    if lines.len() == 0 {
        None
    } else {
        match split_once_spec(lines[0], ':') {
            Some((key, value)) => if cpu_key(key) {
                Some(trim(value))
            } else {
                cpu_name_spec(lines.drop_first())
            },
            None => cpu_name_spec(lines.drop_first()),
        }
    }
}

/// The processor's name from `/proc/cpuinfo`, or "unavailable".
pub fn cpu_name(cpuinfo: &str, text: Translator) -> (r: String)
    ensures
        r@ == match cpu_name_spec(lines_spec(cpuinfo@)) {
            Some(n) => n,
            None => if text.spanish() {
                "No disponible"@
            } else {
                "Unavailable"@
            },
        },
{
    let lines = lines_of(&chars_of(cpuinfo));
    let ghost lv = lines@.map_values(|p: Vec<char>| p@);
    let model_name = chars_of("model name");
    let hardware = chars_of("Hardware");
    let model = chars_of("Model");
    let mut i: usize = 0;
    assert(lv.skip(0) =~= lv);
    while i < lines.len()
        invariant
            0 <= i <= lines@.len(),
            lv == lines@.map_values(|p: Vec<char>| p@),
            lv == lines_spec(cpuinfo@),
            model_name@ == "model name"@,
            hardware@ == "Hardware"@,
            model@ == "Model"@,
            cpu_name_spec(lv) == cpu_name_spec(lv.skip(i as int)),
        decreases lines@.len() - i,
    {
        assert(lv.skip(i as int).drop_first() =~= lv.skip(i + 1));
        assert(lv.skip(i as int)[0] == lines@[i as int]@);
        match split_once_char(&lines[i], ':') {
            Some((key, value)) => {
                let k = trim_chars(&key);
                if chars_equal(&k, &model_name) || chars_equal(&k, &hardware) || chars_equal(
                    &k,
                    &model,
                ) {
                    let v = trim_chars(&value);
                    return string_of(v.as_slice());
                }
            },
            None => {},
        }
        i += 1;
    }
    owned(text.unavailable())
}

/// The settings icon for a desktop, from its name in lowercase.
pub open spec fn desktop_icon_spec(lower: Seq<char>) -> Seq<char> {
    if contains_sub(lower, "kde"@) {
        "kde"@
    } else if contains_sub(lower, "gnome"@) {
        "org.gnome.Settings"@
    } else if contains_sub(lower, "xfce"@) {
        "org.xfce.settings.manager"@
    } else {
        "preferences-desktop"@
    }
}

/// The settings icon for a desktop whose name, in lowercase, is `lower`.
pub fn desktop_icon_for(lower: &str) -> (r: String)
    ensures
        r@ == desktop_icon_spec(lower@),
{
    proof {
        reveal_strlit("kde");
        reveal_strlit("gnome");
        reveal_strlit("xfce");
    }
    let c = chars_of(lower);
    if contains_str(&c, "kde") {
        owned("kde")
    } else if contains_str(&c, "gnome") {
        owned("org.gnome.Settings")
    } else if contains_str(&c, "xfce") {
        owned("org.xfce.settings.manager")
    } else {
        owned("preferences-desktop")
    }
}

/// The settings icon for the desktop named `desktop` (`XDG_CURRENT_DESKTOP`).
pub fn desktop_icon(desktop: &str) -> (r: String)
    ensures
        r@ == desktop_icon_spec(lowercase(desktop@)),
{
    let lower = to_lowercase(desktop);
    desktop_icon_for(lower.as_str())
}

/// The label of the graphics device at `index` of `count`.
pub open spec fn gpu_label(count: nat, index: nat) -> Seq<char> {
    if count == 1 {
        "GPU"@
    } else {
        "GPU "@ + crate::text::decimal(index + 1)
    }
}

/// The rows for the graphics devices: one per device, or one saying that
/// none is known.
pub open spec fn graphics_rows_spec(names: Seq<Seq<char>>, spanish: bool) -> Seq<(Seq<char>, Seq<char>)> {
    if names.len() == 0 {
        seq![("GPU"@, if spanish { "No disponible"@ } else { "Unavailable"@ })]
    } else {
        Seq::new(names.len(), |i: int| (gpu_label(names.len(), i as nat), names[i]))
    }
}

/// The rows for the graphics devices named `names`.
pub fn graphics_rows(names: &Vec<String>, text: Translator) -> (r: Vec<(String, String)>)
    ensures
        r@.map_values(|p: (String, String)| pair_view(p)) == graphics_rows_spec(
            names@.map_values(|n: String| n@),
            text.spanish(),
        ),
{
    let ghost nv = names@.map_values(|n: String| n@);
    let ghost target = graphics_rows_spec(nv, text.spanish());
    let mut rows: Vec<(String, String)> = Vec::new();
    if names.len() == 0 {
        rows.push((owned("GPU"), owned(text.unavailable())));
        assert(rows@.map_values(|p: (String, String)| pair_view(p)) =~= target);
        return rows;
    }
    let mut i: usize = 0;
    while i < names.len()
        invariant
            0 <= i <= names@.len(),
            names@.len() > 0,
            nv == names@.map_values(|n: String| n@),
            target == graphics_rows_spec(nv, text.spanish()),
            rows@.map_values(|p: (String, String)| pair_view(p)) == target.take(i as int),
        decreases names@.len() - i,
    {
        let label = if names.len() == 1 {
            owned("GPU")
        } else {
            let mut l = owned("GPU ");
            crate::text::push_decimal(&mut l, (i + 1) as u64);
            l
        };
        let ghost before = rows@.map_values(|p: (String, String)| pair_view(p));
        assert(label@ == gpu_label(names@.len(), i as nat));
        let name = names[i].clone();
        assert(target[i as int] == (label@, name@));
        rows.push((label, name));
        assert(target.take(i + 1) =~= target.take(i as int).push(target[i as int]));
        assert(rows@.map_values(|p: (String, String)| pair_view(p)) =~= before.push((label@, name@)));
        i += 1;
    }
    assert(target.take(i as int) =~= target);
    rows
}

/// What the system rows are read from: file contents and environment
/// values as read, `None` where they could not be. `memory` is the total
/// memory already written in GiB; `storage` the disk rows.
pub struct SystemFacts {
    pub os_release: String,
    pub desktop: Option<String>,
    pub hostname: Option<String>,
    pub cpuinfo: String,
    pub product_name: Option<String>,
    pub threads: Option<usize>,
    pub graphics: Vec<String>,
    pub memory: Option<String>,
    pub storage: Vec<(String, String)>,
    pub kernel: Option<String>,
    pub architecture: String,
    pub uptime_seconds: Option<u64>,
    pub session: Option<String>,
    pub session_type: Option<String>,
    pub terminal: Option<String>,
    pub shell: Option<String>,
}

/// The Spanish or the English text.
pub open spec fn pick(spanish: bool, es: Seq<char>, en: Seq<char>) -> Seq<char> {
    if spanish {
        es
    } else {
        en
    }
}

/// The name of the operating system: `PRETTY_NAME`, else `NAME`, else
/// `Linux`.
pub open spec fn os_name_spec(pairs: Seq<(Seq<char>, Seq<char>)>) -> Seq<char> {
    match release_lookup(pairs, "PRETTY_NAME"@) {
        Some(n) => n,
        None => match release_lookup(pairs, "NAME"@) {
            Some(n) => n,
            None => "Linux"@,
        },
    }
}

/// The time since boot in hours and minutes.
pub open spec fn uptime_spec(seconds: Option<u64>, spanish: bool) -> Seq<char> {
    match seconds {
        Some(s) => crate::text::decimal((s / 3600) as nat) + " h "@ + crate::text::decimal(
            (s % 3600 / 60) as nat,
        ) + " min"@,
        None => pick(spanish, "No disponible"@, "Unavailable"@),
    }
}

/// The details of the PC row: model, processor, threads, graphics
/// devices, total memory, then the disks.
pub open spec fn pc_details_spec(f: SystemFacts, spanish: bool) -> Seq<(Seq<char>, Seq<char>)> {
    let unavailable = pick(spanish, "No disponible"@, "Unavailable"@);
    seq![
        (pick(spanish, "Modelo"@, "Model"@), file_value(opt_view(f.product_name))),
        ("CPU"@, match cpu_name_spec(lines_spec(f.cpuinfo@)) {
            Some(n) => n,
            None => unavailable,
        }),
        (pick(spanish, "Hilos"@, "Threads"@), match f.threads {
            Some(n) => crate::text::decimal(n as nat),
            None => unavailable,
        }),
    ] + graphics_rows_spec(f.graphics@.map_values(|n: String| n@), spanish) + seq![
        (pick(spanish, "RAM total"@, "Total RAM"@), match f.memory {
            Some(m) => m@,
            None => unavailable,
        }),
    ] + f.storage@.map_values(|p: (String, String)| pair_view(p))
}

/// A section's parts as plain values.
pub open spec fn section_view(s: SystemSection) -> (Seq<char>, Seq<char>, Seq<(Seq<char>, Seq<char>)>) {
    (s.label@, s.summary@, s.details@.map_values(|p: (String, String)| pair_view(p)))
}

fn section(label: String, summary: String, details: Vec<(String, String)>) -> (r: SystemSection)
    ensures
        section_view(r) == (label@, summary@, details@.map_values(|p: (String, String)| pair_view(p))),
{
    SystemSection { label, summary, details }
}

fn rows_from(items: Vec<(String, String)>) -> (r: Vec<(String, String)>)
    ensures
        r@.map_values(|p: (String, String)| pair_view(p)) == items@.map_values(|p: (String, String)| pair_view(p)),
{
    items
}

fn append_rows(rows: &mut Vec<(String, String)>, more: &Vec<(String, String)>)
    ensures
        final(rows)@.map_values(|p: (String, String)| pair_view(p)) == old(rows)@.map_values(
            |p: (String, String)| pair_view(p),
        ) + more@.map_values(|p: (String, String)| pair_view(p)),
{
    let ghost start = rows@.map_values(|p: (String, String)| pair_view(p));
    let ghost mv = more@.map_values(|p: (String, String)| pair_view(p));
    let mut i: usize = 0;
    while i < more.len()
        invariant
            0 <= i <= more@.len(),
            mv == more@.map_values(|p: (String, String)| pair_view(p)),
            rows@.map_values(|p: (String, String)| pair_view(p)) == start + mv.take(i as int),
        decreases more@.len() - i,
    {
        let ghost before = rows@.map_values(|p: (String, String)| pair_view(p));
        let pair = (more[i].0.clone(), more[i].1.clone());
        rows.push(pair);
        assert(rows@.map_values(|p: (String, String)| pair_view(p)) =~= before.push(mv[i as int]));
        assert(start + mv.take(i + 1) =~= (start + mv.take(i as int)).push(mv[i as int]));
        i += 1;
    }
    assert(mv.take(i as int) =~= mv);
}

impl SystemInfo {
    /// Builds the system rows from what was read: the operating system
    /// with its kernel, architecture and uptime; the desktop environment
    /// with its session, protocol, terminal and shell; and the PC with its
    /// hardware and disks.
    pub fn read(facts: &SystemFacts, text: Translator) -> (r: SystemInfo)
        ensures
            ({
                let sp = text.spanish();
                let pairs = release_pairs(lines_spec(facts.os_release@));
                let desktop = variable_value(opt_view(facts.desktop));
                &&& section_view(r.sections[0]) == (
                    pick(sp, "Sistema operativo"@, "Operating system"@),
                    os_name_spec(pairs),
                    seq![
                        ("Kernel"@, file_value(opt_view(facts.kernel))),
                        (pick(sp, "Arquitectura"@, "Architecture"@), facts.architecture@),
                        (pick(sp, "Tiempo activo"@, "Uptime"@), uptime_spec(facts.uptime_seconds, sp)),
                    ],
                )
                &&& section_view(r.sections[1]) == (
                    pick(sp, "Entorno de escritorio"@, "Desktop environment"@),
                    desktop,
                    seq![
                        (pick(sp, "Sesión"@, "Session"@), variable_value(opt_view(facts.session))),
                        (pick(sp, "Protocolo"@, "Protocol"@), variable_value(opt_view(facts.session_type))),
                        ("Terminal"@, variable_value(opt_view(facts.terminal))),
                        ("Shell"@, variable_value(opt_view(facts.shell))),
                    ],
                )
                &&& section_view(r.sections[2]) == (
                    "PC"@,
                    file_value(opt_view(facts.hostname)),
                    pc_details_spec(*facts, sp),
                )
                &&& r.os_icon@ == match release_lookup(pairs, "LOGO"@) {
                    Some(l) => l,
                    None => "distributor-logo"@,
                }
                &&& r.desktop_icon@ == desktop_icon_spec(lowercase(desktop))
            }),
    {
        let pairs = parse_release(facts.os_release.as_str());
        let os_name = match release_value(&pairs, "PRETTY_NAME") {
            Some(n) => n,
            None => match release_value(&pairs, "NAME") {
                Some(n) => n,
                None => owned("Linux"),
            },
        };
        let os_icon = match release_value(&pairs, "LOGO") {
            Some(l) => l,
            None => owned("distributor-logo"),
        };
        let desktop = env_value(facts.desktop.clone());
        let desktop_icon = desktop_icon(desktop.as_str());
        let uptime = match facts.uptime_seconds {
            Some(s) => text.uptime(s / 3600, s % 3600 / 60),
            None => owned(text.unavailable()),
        };
        let mut os_details: Vec<(String, String)> = Vec::new();
        os_details.push((owned("Kernel"), read_value(facts.kernel.clone())));
        os_details.push((owned(text.architecture()), facts.architecture.clone()));
        os_details.push((owned(text.uptime_label()), uptime));
        let mut desktop_details: Vec<(String, String)> = Vec::new();
        desktop_details.push((owned(text.session()), env_value(facts.session.clone())));
        desktop_details.push((owned(text.protocol()), env_value(facts.session_type.clone())));
        desktop_details.push((owned("Terminal"), env_value(facts.terminal.clone())));
        desktop_details.push((owned("Shell"), env_value(facts.shell.clone())));
        let ghost sp = text.spanish();
        let ghost unavailable = pick(sp, "No disponible"@, "Unavailable"@);
        let mut pc: Vec<(String, String)> = Vec::new();
        pc.push((owned(text.model()), read_value(facts.product_name.clone())));
        pc.push((owned("CPU"), cpu_name(facts.cpuinfo.as_str(), text)));
        let threads = match facts.threads {
            Some(n) => crate::text::decimal_string(n as u64),
            None => owned(text.unavailable()),
        };
        pc.push((owned(text.threads()), threads));
        let ghost head = seq![
            (pick(sp, "Modelo"@, "Model"@), file_value(opt_view(facts.product_name))),
            ("CPU"@, match cpu_name_spec(lines_spec(facts.cpuinfo@)) {
                Some(n) => n,
                None => unavailable,
            }),
            (pick(sp, "Hilos"@, "Threads"@), match facts.threads {
                Some(n) => crate::text::decimal(n as nat),
                None => unavailable,
            }),
        ];
        assert(pc@.map_values(|p: (String, String)| pair_view(p)) =~= head);
        let gpus = graphics_rows(&facts.graphics, text);
        append_rows(&mut pc, &gpus);
        let memory = match &facts.memory {
            Some(m) => m.clone(),
            None => owned(text.unavailable()),
        };
        let ghost before_memory = pc@.map_values(|p: (String, String)| pair_view(p));
        let memory_row = (owned(text.total_memory()), memory);
        let ghost memory_view = pair_view(memory_row);
        pc.push(memory_row);
        assert(pc@.map_values(|p: (String, String)| pair_view(p)) =~= before_memory.push(memory_view));
        let ghost before_storage = pc@.map_values(|p: (String, String)| pair_view(p));
        append_rows(&mut pc, &facts.storage);
        assert(before_memory.push(memory_view) =~= head + graphics_rows_spec(
            facts.graphics@.map_values(|n: String| n@),
            sp,
        ) + seq![memory_view]);
        assert(os_details@.map_values(|p: (String, String)| pair_view(p)) =~= seq![
            ("Kernel"@, file_value(opt_view(facts.kernel))),
            (pick(sp, "Arquitectura"@, "Architecture"@), facts.architecture@),
            (pick(sp, "Tiempo activo"@, "Uptime"@), uptime_spec(facts.uptime_seconds, sp)),
        ]);
        assert(desktop_details@.map_values(|p: (String, String)| pair_view(p)) =~= seq![
            (pick(sp, "Sesión"@, "Session"@), variable_value(opt_view(facts.session))),
            (pick(sp, "Protocolo"@, "Protocol"@), variable_value(opt_view(facts.session_type))),
            ("Terminal"@, variable_value(opt_view(facts.terminal))),
            ("Shell"@, variable_value(opt_view(facts.shell))),
        ]);
        assert(pc@.map_values(|p: (String, String)| pair_view(p)) =~= pc_details_spec(*facts, sp));
        SystemInfo {
            sections: [
                section(owned(text.operating_system()), os_name, os_details),
                section(owned(text.desktop_environment()), desktop, desktop_details),
                section(owned("PC"), read_value(facts.hostname.clone()), pc),
            ],
            os_icon,
            desktop_icon,
        }
    }
}

} // verus!
