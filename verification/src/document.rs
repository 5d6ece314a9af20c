//! The configuration file as a document of sections and values, and what
//! the launcher does to it before reading it: moving the old `[buttons]`
//! colors into `[theme]`, resolving the paths written in it, laying the
//! user's file over the global one, and recording theme changes.
use vstd::prelude::*;
use crate::text::{owned, str_equal};
use crate::paths::{resolve_path, resolve_spec};
use crate::config::Theme;

verus! {

/// A value of the configuration file: text, a list of texts, or any other
/// value as the file writes it.
pub enum Leaf {
    Text(String),
    Texts(Vec<String>),
    Other(String),
}

/// A top-level item of the configuration file: a section of keyed values,
/// or a value outside any section.
pub enum Entry {
    Section(Vec<(String, Leaf)>),
    Value(Leaf),
}

/// A configuration file: its top-level items by key.
pub struct Document {
    pub entries: Vec<(String, Entry)>,
}

/// The last position of `k` among the keys of `t`.
pub open spec fn find_key<V>(t: Seq<(String, V)>, k: Seq<char>) -> Option<int>
    decreases t.len(),
{
    if t.len() == 0 {
        None
    } else if t.last().0@ == k {
        Some(t.len() - 1)
    } else {
        find_key(t.drop_last(), k)
    }
}

/// The value kept under `k`.
pub open spec fn lookup<V>(t: Seq<(String, V)>, k: Seq<char>) -> Option<V> {
    match find_key(t, k) {
        Some(i) => Some(t[i].1),
        None => None,
    }
}

/// No key occurs twice.
pub open spec fn unique_keys<V>(t: Seq<(String, V)>) -> bool {
    forall|i: int, j: int| 0 <= i < j < t.len() ==> t[i].0@ != t[j].0@
}

/// Whether a document is well formed: no key occurs twice, at the top or
/// in a section.
pub open spec fn doc_wf(d: Seq<(String, Entry)>) -> bool {
    &&& unique_keys(d)
    &&& forall|k: Seq<char>| #[trigger] section_ok(lookup(d, k))
}

/// A section, if that is what an item is, has no repeated key.
pub open spec fn section_ok(e: Option<Entry>) -> bool {
    match e {
        Some(Entry::Section(t)) => unique_keys(t@),
        _ => true,
    }
}

proof fn lemma_find_key<V>(t: Seq<(String, V)>, k: Seq<char>)
    ensures
        match find_key(t, k) {
            Some(i) => 0 <= i < t.len() && t[i].0@ == k && forall|j: int| i < j < t.len() ==> t[j].0@ != k,
            None => forall|j: int| 0 <= j < t.len() ==> t[j].0@ != k,
        },
    decreases t.len(),
{
    if t.len() > 0 {
        lemma_find_key(t.drop_last(), k);
        assert forall|j: int| 0 <= j < t.len() - 1 implies t.drop_last()[j] == t[j] by {}
    }
}

/// In a table without repeated keys, the value under a key is the one at
/// the position that holds the key.
pub proof fn lemma_lookup_at<V>(t: Seq<(String, V)>, i: int)
    requires
        unique_keys(t),
        0 <= i < t.len(),
    ensures
        lookup(t, t[i].0@) == Some(t[i].1),
{
    lemma_find_key(t, t[i].0@);
}

proof fn lemma_lookup_none<V>(t: Seq<(String, V)>, k: Seq<char>)
    ensures
        (lookup(t, k) is None) == (forall|j: int| 0 <= j < t.len() ==> t[j].0@ != k),
{
    lemma_find_key(t, k);
}

proof fn lemma_lookup_push<V>(t: Seq<(String, V)>, key: String, v: V, k: Seq<char>)
    ensures
        lookup(t.push((key, v)), k) == (if k == key@ { Some(v) } else { lookup(t, k) }),
{
    let u = t.push((key, v));
    assert(u.drop_last() =~= t);
    if k != key@ {
        if let Some(i) = find_key(t, k) {
            lemma_find_key(t, k);
            assert(u[i] == t[i]);
        }
    }
}

proof fn lemma_lookup_update<V>(t: Seq<(String, V)>, i: int, key: String, v: V, k: Seq<char>)
    requires
        unique_keys(t),
        0 <= i < t.len(),
        key@ == t[i].0@,
    ensures
        lookup(t.update(i, (key, v)), k) == (if k == t[i].0@ { Some(v) } else { lookup(t, k) }),
        unique_keys(t.update(i, (key, v))),
{
    let u = t.update(i, (key, v));
    lemma_find_key(t, k);
    lemma_find_key(u, k);
    assert forall|a: int| 0 <= a < u.len() implies #[trigger] u[a].0@ == t[a].0@ by {}
    assert(unique_keys(u));
    if k == t[i].0@ {
        lemma_lookup_at(u, i);
    } else {
        match (find_key(t, k), find_key(u, k)) {
            (Some(a), Some(b)) => {
                assert(u[a].0@ == k);
                assert(t[b].0@ == k);
                assert(a == b);
                assert(u[a] == t[a]);
            },
            (Some(a), None) => {
                assert(u[a].0@ == k);
            },
            (None, Some(b)) => {
                assert(t[b].0@ == k);
            },
            (None, None) => {},
        }
    }
}

proof fn lemma_lookup_remove<V>(t: Seq<(String, V)>, i: int, k: Seq<char>)
    requires
        unique_keys(t),
        0 <= i < t.len(),
    ensures
        lookup(t.remove(i), k) == (if k == t[i].0@ { None } else { lookup(t, k) }),
        unique_keys(t.remove(i)),
{
    let u = t.remove(i);
    lemma_find_key(t, k);
    lemma_find_key(u, k);
    if k != t[i].0@ {
        if let Some(j) = find_key(t, k) {
            let j2 = if j < i { j } else { j - 1 };
            assert(u[j2] == t[j]);
            lemma_lookup_at(u, j2);
        } else {
            assert forall|j: int| 0 <= j < u.len() implies u[j].0@ != k by {
                if j < i { assert(u[j] == t[j]); } else { assert(u[j] == t[j + 1]); }
            }
        }
    } else {
        assert forall|j: int| 0 <= j < u.len() implies u[j].0@ != k by {
            if j < i { assert(u[j] == t[j]); } else { assert(u[j] == t[j + 1]); }
        }
    }
}

fn position_of_key<V>(t: &Vec<(String, V)>, k: &str) -> (r: Option<usize>)
    ensures
        match r {
            Some(i) => i < t@.len() && find_key(t@, k@) == Some(i as int),
            None => find_key(t@, k@) is None,
        },
{
    let mut i: usize = t.len();
    assert(t@.take(i as int) =~= t@);
    while i > 0
        invariant
            0 <= i <= t@.len(),
            find_key(t@, k@) == find_key(t@.take(i as int), k@),
        decreases i,
    {
        assert(t@.take(i as int).drop_last() =~= t@.take(i - 1));
        if str_equal(t[i - 1].0.as_str(), k) {
            return Some(i - 1);
        }
        i -= 1;
    }
    None
}

/// Sets the value under `key`: replaces the one there, or adds it at the
/// end.
pub fn set_entry<V>(t: &mut Vec<(String, V)>, key: String, value: V)
    requires
        unique_keys(old(t)@),
    ensures
        unique_keys(final(t)@),
        forall|k: Seq<char>| #[trigger] lookup(final(t)@, k) == (if k == key@ {
            Some(value)
        } else {
            lookup(old(t)@, k)
        }),
{
    match position_of_key(t, key.as_str()) {
        Some(i) => {
            proof {
                lemma_find_key(t@, key@);
            }
            let ghost before = t@;
            let ghost kv = key@;
            let ghost ks = key;
            t.set(i, (key, value));
            proof {
                assert(t@ == before.update(i as int, (ks, value)));
                assert forall|q: Seq<char>| #[trigger] lookup(t@, q) == (if q == kv {
                    Some(value)
                } else {
                    lookup(before, q)
                }) by {
                    lemma_lookup_update(before, i as int, ks, value, q);
                }
                lemma_lookup_update(before, i as int, ks, value, kv);
            }
        },
        None => {
            proof {
                lemma_find_key(t@, key@);
            }
            let ghost before = t@;
            let ghost kv = key@;
            t.push((key, value));
            proof {
                assert(t@ == before.push((t@.last().0, value)));
                assert forall|q: Seq<char>| #[trigger] lookup(t@, q) == (if q == kv {
                    Some(value)
                } else {
                    lookup(before, q)
                }) by {
                    lemma_lookup_push(before, t@.last().0, value, q);
                }
            }
        },
    }
}

/// Takes the value under `key` out of `t`.
pub fn take_entry<V>(t: &mut Vec<(String, V)>, key: &str) -> (r: Option<V>)
    requires
        unique_keys(old(t)@),
    ensures
        unique_keys(final(t)@),
        r == lookup(old(t)@, key@),
        forall|k: Seq<char>| #[trigger] lookup(final(t)@, k) == (if k == key@ {
            None
        } else {
            lookup(old(t)@, k)
        }),
{
    match position_of_key(t, key) {
        Some(i) => {
            let ghost before = t@;
            proof {
                lemma_find_key(before, key@);
                assert forall|q: Seq<char>| #[trigger] lookup(before.remove(i as int), q) == (if q == key@ {
                    None
                } else {
                    lookup(before, q)
                }) by {
                    lemma_lookup_remove(before, i as int, q);
                }
                lemma_lookup_remove(before, i as int, key@);
            }
            let (_, v) = t.remove(i);
            Some(v)
        },
        None => {
            None
        },
    }
}

/// `result` is `overlay` laid over `base`: each key has its value in
/// `overlay`, else its value in `base`.
pub open spec fn laid_over<V>(base: Seq<(String, V)>, overlay: Seq<(String, V)>, result: Seq<(String, V)>) -> bool {
    forall|k: Seq<char>| #[trigger] lookup(result, k) == (match lookup(overlay, k) {
        Some(v) => Some(v),
        None => lookup(base, k),
    })
}

/// `r` is the item `o` laid over the item `b`: two sections merge key by
/// key; otherwise `o` replaces `b`.
pub open spec fn merged_entry(b: Entry, o: Entry, r: Entry) -> bool {
    match (b, o) {
        (Entry::Section(bt), Entry::Section(ot)) => r matches Entry::Section(rt) && laid_over(
            bt@,
            ot@,
            rt@,
        ) && unique_keys(rt@),
        _ => r == o,
    }
}

/// `result` is the document `overlay` laid over `base`: a key of one only
/// keeps its item; a key of both gets the merged item.
pub open spec fn merged_doc(base: Seq<(String, Entry)>, overlay: Seq<(String, Entry)>, result: Seq<(String, Entry)>) -> bool {
    forall|k: Seq<char>| #[trigger] merged_key(lookup(base, k), lookup(overlay, k), lookup(result, k))
}

/// The item under one key after laying documents over each other.
pub open spec fn merged_key(b: Option<Entry>, o: Option<Entry>, r: Option<Entry>) -> bool {
    match (b, o) {
        (None, None) => r is None,
        (Some(b), None) => r == Some(b),
        (None, Some(o)) => r == Some(o),
        (Some(b), Some(o)) => match r {
            Some(x) => merged_entry(b, o, x),
            None => false,
        },
    }
}

proof fn lemma_take_push<V>(t: Seq<(String, V)>, n: int)
    requires
        0 <= n < t.len(),
    ensures
        t.take(n + 1) == t.take(n).push(t[n]),
{
    assert(t.take(n + 1) =~= t.take(n).push(t[n]));
}

proof fn lemma_unique_take<V>(t: Seq<(String, V)>, n: int, k: Seq<char>)
    requires
        unique_keys(t),
        0 <= n < t.len(),
        k == t[n].0@,
    ensures
        lookup(t.take(n), k) is None,
{
    lemma_lookup_none(t.take(n), k);
}

/// Lays the table `overlay` over `base`.
pub fn merge_tables<V>(base: Vec<(String, V)>, overlay: Vec<(String, V)>) -> (r: Vec<(String, V)>)
    requires
        unique_keys(base@),
        unique_keys(overlay@),
    ensures
        unique_keys(r@),
        laid_over(base@, overlay@, r@),
{
    let ghost b0 = base@;
    let ghost o0 = overlay@;
    let mut result = base;
    let mut rest = overlay;
    let ghost mut n: int = 0;
    assert(o0.skip(0) =~= o0);
    proof {
        assert forall|k: Seq<char>| #[trigger] lookup(result@, k) == (match lookup(o0.take(n), k) {
            Some(v) => Some(v),
            None => lookup(b0, k),
        }) by {
            lemma_lookup_none(o0.take(0), k);
        }
    }
    while rest.len() > 0
        invariant
            0 <= n <= o0.len(),
            rest@ == o0.skip(n),
            unique_keys(o0),
            unique_keys(result@),
            forall|k: Seq<char>| #[trigger] lookup(result@, k) == (match lookup(o0.take(n), k) {
                Some(v) => Some(v),
                None => lookup(b0, k),
            }),
        decreases rest@.len(),
    {
        let ghost prev = result@;
        let (key, value) = rest.remove(0);
        proof {
            assert(o0[n] == (key, value));
            assert(rest@ =~= o0.skip(n + 1));
            lemma_take_push(o0, n);
        }
        let ghost kv = key@;
        set_entry(&mut result, key, value);
        proof {
            assert forall|k: Seq<char>| #[trigger] lookup(result@, k) == (match lookup(o0.take(n + 1), k) {
                Some(v) => Some(v),
                None => lookup(b0, k),
            }) by {
                lemma_lookup_push(o0.take(n), o0[n].0, value, k);
            }
            n = n + 1;
        }
    }
    assert(o0.take(n) =~= o0);
    result
}

/// Lays the item `o` over the item `b`.
pub fn merge_entries(b: Entry, o: Entry) -> (r: Entry)
    requires
        b matches Entry::Section(t) ==> unique_keys(t@),
        o matches Entry::Section(t) ==> unique_keys(t@),
    ensures
        merged_entry(b, o, r),
        r matches Entry::Section(t) ==> unique_keys(t@),
{
    match (b, o) {
        (Entry::Section(bt), Entry::Section(ot)) => Entry::Section(merge_tables(bt, ot)),
        (_, o) => o,
    }
}

/// Lays the user's document `overlay` over the global one `base`: the
/// user's values win, the global ones fill in the rest, and sections found
/// in both are merged key by key.
pub fn merge_documents(base: Document, overlay: Document) -> (r: Document)
    requires
        doc_wf(base.entries@),
        doc_wf(overlay.entries@),
    ensures
        doc_wf(r.entries@),
        merged_doc(base.entries@, overlay.entries@, r.entries@),
{
    let ghost b0 = base.entries@;
    let ghost o0 = overlay.entries@;
    let mut result = base.entries;
    let mut rest = overlay.entries;
    let ghost mut n: int = 0;
    assert(o0.skip(0) =~= o0);
    proof {
        assert forall|k: Seq<char>| #[trigger] merged_key(lookup(b0, k), lookup(o0.take(n), k), lookup(result@, k)) by {
            lemma_lookup_none(o0.take(0), k);
        }
    }
    while rest.len() > 0
        invariant
            0 <= n <= o0.len(),
            rest@ == o0.skip(n),
            doc_wf(o0),
            doc_wf(b0),
            doc_wf(result@),
            forall|k: Seq<char>| #[trigger] merged_key(lookup(b0, k), lookup(o0.take(n), k), lookup(result@, k)),
        decreases rest@.len(),
    {
        let ghost prev = result@;
        let (key, value) = rest.remove(0);
        proof {
            assert(o0[n] == (key, value));
            assert(rest@ =~= o0.skip(n + 1));
            lemma_take_push(o0, n);
            lemma_unique_take(o0, n, key@);
            lemma_find_key(o0, key@);
            lemma_lookup_at(o0, n);
        }
        let ghost kv = key@;
        let ghost ks = o0[n].0;
        proof {
            assert(section_ok(lookup(prev, kv)));
            assert(section_ok(lookup(o0, kv)));
            assert(merged_key(lookup(b0, kv), lookup(o0.take(n), kv), lookup(prev, kv)));
            assert(lookup(prev, kv) == lookup(b0, kv));
        }
        let previous = take_entry(&mut result, key.as_str());
        let ghost prev_entry = previous;
        let merged = match previous {
            Some(b) => merge_entries(b, value),
            None => value,
        };
        let ghost merged_entry_value = merged;
        set_entry(&mut result, key, merged);
        proof {
            lemma_lookup_push(o0.take(n), ks, value, kv);
            assert(lookup(result@, kv) == Some(merged_entry_value));
            assert(merged_key(lookup(b0, kv), lookup(o0.take(n + 1), kv), lookup(result@, kv)));
            assert forall|k: Seq<char>| #[trigger] merged_key(lookup(b0, k), lookup(o0.take(n + 1), k), lookup(result@, k)) by {
                lemma_lookup_push(o0.take(n), ks, value, k);
                if k != kv {
                    assert(merged_key(lookup(b0, k), lookup(o0.take(n), k), lookup(prev, k)));
                }
            }
            assert forall|k: Seq<char>| #[trigger] section_ok(lookup(result@, k)) by {
                if k != kv {
                    assert(section_ok(lookup(prev, k)));
                }
            }
            n = n + 1;
        }
    }
    assert(o0.take(n) =~= o0);
    Document { entries: result }
}

/// What moving the old `[buttons]` colors into `[theme]` does to a
/// document (see `migrate_button_theme`).
pub open spec fn buttons_moved(old: Seq<(String, Entry)>, new: Seq<(String, Entry)>) -> bool {
    &&& (lookup(new, "buttons"@) is None)
    &&& (forall|k: Seq<char>| k != "buttons"@ && k != "theme"@ ==> #[trigger] lookup(new, k)
            == lookup(old, k))
    &&& (match lookup(old, "buttons"@) {
            Some(Entry::Section(bt)) => match lookup(old, "theme"@) {
                None => lookup(new, "theme"@) matches Some(Entry::Section(t)) && laid_over(
                    bt@,
                    Seq::empty(),
                    t@,
                ),
                Some(Entry::Section(tt)) => lookup(new, "theme"@) matches Some(
                    Entry::Section(t),
                ) && laid_over(bt@, tt@, t@),
                Some(other) => lookup(new, "theme"@) == Some(other),
            },
            _ => lookup(new, "theme"@) == lookup(old, "theme"@),
        })
}

/// Moves the colors of an old `[buttons]` section into `[theme]`: the
/// section goes away, and its keys join the theme unless the theme sets
/// them already. A `buttons` value that is not a section just goes away;
/// a `theme` value that is not a section stays as it is.
pub fn migrate_button_theme(doc: &mut Document)
    requires
        doc_wf(old(doc).entries@),
    ensures
        doc_wf(final(doc).entries@),
        buttons_moved(old(doc).entries@, final(doc).entries@),
{
    proof {
        reveal_strlit("buttons");
        reveal_strlit("theme");
        assert("theme"@.len() == 5 && "buttons"@.len() == 7);
        assert("theme"@ != "buttons"@);
    }
    let ghost d0 = doc.entries@;
    let buttons = take_entry(&mut doc.entries, "buttons");
    proof {
        assert(section_ok(lookup(d0, "buttons"@)));
        assert forall|k: Seq<char>| #[trigger] section_ok(lookup(doc.entries@, k)) by {
            if k != "buttons"@ {
                assert(section_ok(lookup(d0, k)));
            }
        }
    }
    let table = match buttons {
        Some(Entry::Section(t)) => t,
        _ => {
            assert(lookup(doc.entries@, "theme"@) == lookup(d0, "theme"@));
            return;
        },
    };
    let ghost d1 = doc.entries@;
    let theme = take_entry(&mut doc.entries, "theme");
    proof {
        assert(section_ok(lookup(d1, "theme"@)));
        assert forall|k: Seq<char>| #[trigger] section_ok(lookup(doc.entries@, k)) by {
            if k != "theme"@ {
                assert(section_ok(lookup(d1, k)));
            }
        }
    }
    let ghost bt = table@;
    let merged = match theme {
        None => {
            proof {
                assert forall|k: Seq<char>| #[trigger] lookup(bt, k) == (match lookup(Seq::<(String, Leaf)>::empty(), k) {
                    Some(v) => Some(v),
                    None => lookup(bt, k),
                }) by {}
            }
            Entry::Section(table)
        },
        Some(Entry::Section(t)) => Entry::Section(merge_tables(table, t)),
        Some(other) => other,
    };
    let ghost m = merged;
    set_entry(&mut doc.entries, owned("theme"), merged);
    proof {
        assert forall|k: Seq<char>| #[trigger] section_ok(lookup(doc.entries@, k)) by {
            if k != "theme"@ {
                assert(section_ok(lookup(d1, k)));
            } else {
                assert(lookup(doc.entries@, k) == Some(m));
            }
        }
    }
}

fn resolve_leaf(leaf: Leaf, base: &str, home: &Option<String>) -> (r: Result<Leaf, String>)
    ensures
        match leaf {
            Leaf::Text(p) => match (r, resolve_spec(p@, base@, match home {
                Some(h) => Some(h@),
                None => None,
            })) {
                (Ok(Leaf::Text(q)), Ok(t)) => q@ == t,
                (Err(m), Err(e)) => m@ == e,
                _ => false,
            },
            _ => r == Ok::<Leaf, String>(leaf),
        },
{
    match leaf {
        Leaf::Text(p) => match resolve_path(p.as_str(), base, home) {
            Ok(q) => Ok(Leaf::Text(q)),
            Err(e) => Err(e),
        },
        other => Ok(other),
    }
}

/// The paths of a list resolved in turn; the first error stops.
pub open spec fn resolve_all(list: Seq<Seq<char>>, base: Seq<char>, home: Option<Seq<char>>) -> Result<Seq<Seq<char>>, Seq<char>>
    decreases list.len(),
{
    if list.len() == 0 {
        Ok(Seq::empty())
    } else {
        match resolve_spec(list[0], base, home) {
            Err(e) => Err(e),
            Ok(first) => match resolve_all(list.drop_first(), base, home) {
                Err(e) => Err(e),
                Ok(rest) => Ok(seq![first] + rest),
            },
        }
    }
}

pub fn resolve_list(list: &Vec<String>, base: &str, home: &Option<String>) -> (r: Result<Vec<String>, String>)
    ensures
        match (r, resolve_all(list@.map_values(|s: String| s@), base@, match home {
            Some(h) => Some(h@),
            None => None,
        })) {
            (Ok(v), Ok(t)) => v@.map_values(|s: String| s@) == t,
            (Err(m), Err(e)) => m@ == e,
            _ => false,
        },
{
    let ghost hv = match home {
        Some(h) => Some(h@),
        None => None::<Seq<char>>,
    };
    let ghost lv = list@.map_values(|s: String| s@);
    let mut out: Vec<String> = Vec::new();
    let mut i: usize = 0;
    assert(lv.skip(0) =~= lv);
    while i < list.len()
        invariant
            0 <= i <= list@.len(),
            lv == list@.map_values(|s: String| s@),
            hv == match home {
                Some(h) => Some(h@),
                None => None::<Seq<char>>,
            },
            resolve_all(lv, base@, hv) == match resolve_all(lv.skip(i as int), base@, hv) {
                Ok(rest) => Ok(out@.map_values(|s: String| s@) + rest),
                Err(e) => Err(e),
            },
        decreases list@.len() - i,
    {
        assert(lv.skip(i as int).drop_first() =~= lv.skip(i + 1));
        assert(lv.skip(i as int)[0] == list@[i as int]@);
        match resolve_path(list[i].as_str(), base, home) {
            Ok(q) => {
                let ghost before = out@.map_values(|s: String| s@);
                out.push(q);
                proof {
                    assert(out@.map_values(|s: String| s@) =~= before.push(q@));
                    if let Ok(rest) = resolve_all(lv.skip(i + 1), base@, hv) {
                        assert(before + (seq![q@] + rest) =~= out@.map_values(|s: String| s@) + rest);
                    }
                    assert(resolve_all(lv, base@, hv) == match resolve_all(lv.skip(i + 1), base@, hv) {
                        Ok(rest) => Ok(out@.map_values(|s: String| s@) + rest),
                        Err(e) => Err(e),
                    });
                }
            },
            Err(e) => {
                return Err(e);
            },
        }
        i += 1;
    }
    assert(lv.skip(i as int) =~= Seq::<Seq<char>>::empty());
    assert(out@.map_values(|s: String| s@) + Seq::<Seq<char>>::empty() =~= out@.map_values(|s: String| s@));
    Ok(out)
}

/// The error of resolving a text value, if it is one and fails.
pub open spec fn text_error(l: Option<Leaf>, base: Seq<char>, home: Option<Seq<char>>) -> Option<Seq<char>> {
    match l {
        Some(Leaf::Text(p)) => match resolve_spec(p@, base, home) {
            Err(e) => Some(e),
            Ok(_) => None,
        },
        _ => None,
    }
}

/// The error of resolving a list of texts, if it is one and one fails.
pub open spec fn list_error(l: Option<Leaf>, base: Seq<char>, home: Option<Seq<char>>) -> Option<Seq<char>> {
    match l {
        Some(Leaf::Texts(v)) => match resolve_all(v@.map_values(|s: String| s@), base, home) {
            Err(e) => Some(e),
            Ok(_) => None,
        },
        _ => None,
    }
}

/// A text value with its path resolved; any other value as it was.
pub open spec fn text_resolved(old: Option<Leaf>, new: Option<Leaf>, base: Seq<char>, home: Option<Seq<char>>) -> bool {
    match old {
        Some(Leaf::Text(p)) => new matches Some(Leaf::Text(q)) && resolve_spec(p@, base, home) == Ok::<Seq<char>, Seq<char>>(q@),
        _ => new == old,
    }
}

/// A list of texts with each path resolved; any other value as it was.
pub open spec fn list_resolved(old: Option<Leaf>, new: Option<Leaf>, base: Seq<char>, home: Option<Seq<char>>) -> bool {
    match old {
        Some(Leaf::Texts(v)) => new matches Some(Leaf::Texts(w)) && resolve_all(
            v@.map_values(|s: String| s@),
            base,
            home,
        ) == Ok::<Seq<Seq<char>>, Seq<char>>(w@.map_values(|s: String| s@)),
        _ => new == old,
    }
}

/// The table of the section `name`, if the document has such a section.
pub open spec fn section_table(d: Seq<(String, Entry)>, name: Seq<char>) -> Option<Seq<(String, Leaf)>> {
    match lookup(d, name) {
        Some(Entry::Section(t)) => Some(t@),
        _ => None,
    }
}

/// The first error of resolving the paths of a document: the logo's
/// path, then the desktop folder, then the extra application folders.
pub open spec fn doc_paths_error(d: Seq<(String, Entry)>, base: Seq<char>, home: Option<Seq<char>>) -> Option<Seq<char>> {
    let logo = match section_table(d, "logo"@) {
        Some(t) => text_error(lookup(t, "path"@), base, home),
        None => None,
    };
    if logo is Some {
        logo
    } else {
        match section_table(d, "applications"@) {
            None => None,
            Some(t) => {
                let dd = text_error(lookup(t, "desktop_dir"@), base, home);
                if dd is Some {
                    dd
                } else {
                    list_error(lookup(t, "extra_dirs"@), base, home)
                }
            },
        }
    }
}

/// A section whose keys `changed` hold resolved values and whose other
/// keys are as they were; a non-section item as it was.
pub open spec fn section_resolved(
    old: Option<Entry>,
    new: Option<Entry>,
    texts: Seq<Seq<char>>,
    list: Option<Seq<char>>,
    base: Seq<char>,
    home: Option<Seq<char>>,
) -> bool {
    match old {
        Some(Entry::Section(ot)) => new matches Some(Entry::Section(nt)) && unique_keys(nt@) && (forall|k: Seq<char>|
            !texts.contains(k) && Some(k) != list ==> #[trigger] lookup(nt@, k) == lookup(ot@, k)) && (
        forall|k: Seq<char>| texts.contains(k) ==> text_resolved(
            #[trigger] lookup(ot@, k),
            lookup(nt@, k),
            base,
            home,
        )) && (match list {
            Some(l) => list_resolved(lookup(ot@, l), lookup(nt@, l), base, home),
            None => true,
        }),
        _ => new == old,
    }
}

fn resolve_text_key(t: &mut Vec<(String, Leaf)>, key: &str, base: &str, home: &Option<String>) -> (r: Result<(), String>)
    requires
        unique_keys(old(t)@),
    ensures
        unique_keys(final(t)@),
        match r {
            Ok(()) => text_error(lookup(old(t)@, key@), base@, match home {
                Some(h) => Some(h@),
                None => None,
            }) is None && text_resolved(lookup(old(t)@, key@), lookup(final(t)@, key@), base@, match home {
                Some(h) => Some(h@),
                None => None,
            }) && forall|k: Seq<char>| k != key@ ==> #[trigger] lookup(final(t)@, k) == lookup(old(t)@, k),
            Err(m) => text_error(lookup(old(t)@, key@), base@, match home {
                Some(h) => Some(h@),
                None => None,
            }) == Some(m@),
        },
{
    let ghost t0 = t@;
    let value = match take_entry(t, key) {
        Some(v) => v,
        None => return Ok(()),
    };
    let ghost v0 = value;
    let resolved = match resolve_leaf(value, base, home) {
        Ok(l) => l,
        Err(e) => return Err(e),
    };
    let ghost rv = resolved;
    set_entry(t, owned(key), resolved);
    assert(lookup(t@, key@) == Some(rv));
    Ok(())
}

fn resolve_list_key(t: &mut Vec<(String, Leaf)>, key: &str, base: &str, home: &Option<String>) -> (r: Result<(), String>)
    requires
        unique_keys(old(t)@),
    ensures
        unique_keys(final(t)@),
        match r {
            Ok(()) => list_error(lookup(old(t)@, key@), base@, match home {
                Some(h) => Some(h@),
                None => None,
            }) is None && list_resolved(lookup(old(t)@, key@), lookup(final(t)@, key@), base@, match home {
                Some(h) => Some(h@),
                None => None,
            }) && forall|k: Seq<char>| k != key@ ==> #[trigger] lookup(final(t)@, k) == lookup(old(t)@, k),
            Err(m) => list_error(lookup(old(t)@, key@), base@, match home {
                Some(h) => Some(h@),
                None => None,
            }) == Some(m@),
        },
{
    let value = match take_entry(t, key) {
        Some(v) => v,
        None => return Ok(()),
    };
    let resolved = match value {
        Leaf::Texts(list) => match resolve_list(&list, base, home) {
            Ok(v) => Leaf::Texts(v),
            Err(e) => return Err(e),
        },
        other => other,
    };
    let ghost rv = resolved;
    set_entry(t, owned(key), resolved);
    assert(lookup(t@, key@) == Some(rv));
    Ok(())
}

/// Resolves the paths written in a configuration file whose folder is
/// `base`: the logo's path, the desktop folder and the extra application
/// folders. Stops at the first path that cannot be resolved.
pub fn resolve_config_paths(doc: &mut Document, base: &str, home: &Option<String>) -> (r: Result<(), String>)
    requires
        doc_wf(old(doc).entries@),
    ensures
        doc_wf(final(doc).entries@),
        match r {
            Ok(()) => doc_paths_error(old(doc).entries@, base@, match home {
                Some(h) => Some(h@),
                None => None,
            }) is None && (forall|k: Seq<char>| k != "logo"@ && k != "applications"@ ==> #[trigger] lookup(
                final(doc).entries@,
                k,
            ) == lookup(old(doc).entries@, k)) && section_resolved(
                lookup(old(doc).entries@, "logo"@),
                lookup(final(doc).entries@, "logo"@),
                seq!["path"@],
                None,
                base@,
                match home {
                    Some(h) => Some(h@),
                    None => None,
                },
            ) && section_resolved(
                lookup(old(doc).entries@, "applications"@),
                lookup(final(doc).entries@, "applications"@),
                seq!["desktop_dir"@],
                Some("extra_dirs"@),
                base@,
                match home {
                    Some(h) => Some(h@),
                    None => None,
                },
            ),
            Err(m) => doc_paths_error(old(doc).entries@, base@, match home {
                Some(h) => Some(h@),
                None => None,
            }) == Some(m@),
        },
{
    proof {
        reveal_strlit("logo");
        reveal_strlit("applications");
        reveal_strlit("path");
        reveal_strlit("desktop_dir");
        reveal_strlit("extra_dirs");
        assert("logo"@.len() == 4 && "applications"@.len() == 12);
        assert("desktop_dir"@.len() == 11 && "extra_dirs"@.len() == 10);
    }
    let ghost d0 = doc.entries@;
    let logo = take_entry(&mut doc.entries, "logo");
    proof {
        assert(section_ok(lookup(d0, "logo"@)));
    }
    let logo = match logo {
        Some(Entry::Section(t)) => {
            let mut t = t;
            let ghost t0 = t@;
            match resolve_text_key(&mut t, "path", base, home) {
                Ok(()) => {},
                Err(e) => return Err(e),
            }
            proof {
                assert forall|k: Seq<char>| !seq!["path"@].contains(k) implies #[trigger] lookup(t@, k) == lookup(t0, k) by {
                    if k == "path"@ {
                        assert(seq!["path"@][0] == k);
                    }
                }
                assert forall|k: Seq<char>| seq!["path"@].contains(k) implies text_resolved(
                    #[trigger] lookup(t0, k),
                    lookup(t@, k),
                    base@,
                    match home {
                        Some(h) => Some(h@),
                        None => None,
                    },
                ) by {
                    assert(k == "path"@);
                }
            }
            Some(Entry::Section(t))
        },
        other => other,
    };
    let ghost logo_entry = logo;
    match logo {
        Some(e) => set_entry(&mut doc.entries, owned("logo"), e),
        None => {},
    }
    let ghost d1 = doc.entries@;
    proof {
        assert forall|k: Seq<char>| #[trigger] section_ok(lookup(d1, k)) by {
            if k != "logo"@ {
                assert(section_ok(lookup(d0, k)));
            }
        }
        assert(lookup(d1, "logo"@) == logo_entry);
        assert forall|k: Seq<char>| k != "logo"@ implies #[trigger] lookup(d1, k) == lookup(d0, k) by {}
    }
    let applications = take_entry(&mut doc.entries, "applications");
    proof {
        assert(section_ok(lookup(d1, "applications"@)));
    }
    let applications = match applications {
        Some(Entry::Section(t)) => {
            let mut t = t;
            let ghost t0 = t@;
            match resolve_text_key(&mut t, "desktop_dir", base, home) {
                Ok(()) => {},
                Err(e) => return Err(e),
            }
            let ghost t1 = t@;
            match resolve_list_key(&mut t, "extra_dirs", base, home) {
                Ok(()) => {},
                Err(e) => return Err(e),
            }
            proof {
                assert forall|k: Seq<char>| !seq!["desktop_dir"@].contains(k) && Some(k) != Some("extra_dirs"@)
                    implies #[trigger] lookup(t@, k) == lookup(t0, k) by {
                    if k == "desktop_dir"@ {
                        assert(seq!["desktop_dir"@][0] == k);
                    }
                }
                assert forall|k: Seq<char>| seq!["desktop_dir"@].contains(k) implies text_resolved(
                    #[trigger] lookup(t0, k),
                    lookup(t@, k),
                    base@,
                    match home {
                        Some(h) => Some(h@),
                        None => None,
                    },
                ) by {
                    assert(k == "desktop_dir"@);
                }
            }
            Some(Entry::Section(t))
        },
        other => other,
    };
    let ghost applications_entry = applications;
    match applications {
        Some(e) => set_entry(&mut doc.entries, owned("applications"), e),
        None => {},
    }
    proof {
        assert forall|k: Seq<char>| #[trigger] section_ok(lookup(doc.entries@, k)) by {
            if k != "applications"@ {
                assert(section_ok(lookup(d1, k)));
            }
        }
        assert(lookup(doc.entries@, "applications"@) == applications_entry);
    }
    Ok(())
}

/// The name of theme field `index` in the configuration file.
pub open spec fn theme_field_name(index: int) -> Seq<char> {
    if index == 0 { "background"@ } else if index == 1 { "foreground"@ } else if index == 2 { "muted"@ }
    else if index == 3 { "accent"@ } else if index == 4 { "info"@ } else if index == 5 { "border"@ }
    else if index == 6 { "error"@ } else if index == 7 { "selection"@ } else if index == 8 { "header_background"@ }
    else if index == 9 { "header_foreground"@ } else if index == 10 { "launcher_background"@ }
    else if index == 11 { "launcher_foreground"@ } else if index == 12 { "installer_background"@ }
    else if index == 13 { "manager_background"@ } else if index == 14 { "installer_manager_foreground"@ }
    else if index == 15 { "image_background"@ } else { "border_style"@ }
}

fn field_name(index: usize) -> (r: &'static str)
    ensures
        r@ == theme_field_name(index as int),
{
    if index == 0 { "background" } else if index == 1 { "foreground" } else if index == 2 { "muted" }
    else if index == 3 { "accent" } else if index == 4 { "info" } else if index == 5 { "border" }
    else if index == 6 { "error" } else if index == 7 { "selection" } else if index == 8 { "header_background" }
    else if index == 9 { "header_foreground" } else if index == 10 { "launcher_background" }
    else if index == 11 { "launcher_foreground" } else if index == 12 { "installer_background" }
    else if index == 13 { "manager_background" } else if index == 14 { "installer_manager_foreground" }
    else if index == 15 { "image_background" } else { "border_style" }
}

/// The theme fields whose setting differs from `base`, in field order, by
/// name and with the setting of `theme`.
pub open spec fn theme_changes_spec(base: Theme, theme: Theme, n: int) -> Seq<(Seq<char>, Seq<char>)>
    decreases n,
{
    if n <= 0 {
        Seq::empty()
    } else {
        let r = theme_changes_spec(base, theme, n - 1);
        let i = n - 1;
        if base.spec_field_value(i) != theme.spec_field_value(i) {
            r.push((theme_field_name(i), theme.spec_field_value(i)))
        } else {
            r
        }
    }
}

/// The theme fields changed from `base`, by name, with their new setting.
pub fn theme_changes(base: &Theme, theme: &Theme) -> (r: Vec<(String, String)>)
    ensures
        r@.map_values(|p: (String, String)| (p.0@, p.1@)) == theme_changes_spec(*base, *theme, 17),
{
    let mut out: Vec<(String, String)> = Vec::new();
    let mut i: usize = 0;
    while i < 17
        invariant
            0 <= i <= 17,
            out@.map_values(|p: (String, String)| (p.0@, p.1@)) == theme_changes_spec(*base, *theme, i as int),
        decreases 17 - i,
    {
        let old_value = base.field_value(i);
        let new_value = theme.field_value(i);
        if !str_equal(old_value.as_str(), new_value.as_str()) {
            let ghost before = out@.map_values(|p: (String, String)| (p.0@, p.1@));
            out.push((owned(field_name(i)), new_value));
            assert(out@.map_values(|p: (String, String)| (p.0@, p.1@)) =~= before.push(
                (theme_field_name(i as int), theme.spec_field_value(i as int)),
            ));
        }
        i += 1;
    }
    out
}

/// The last setting that `changes` give to `k`.
pub open spec fn changed_value(changes: Seq<(Seq<char>, Seq<char>)>, k: Seq<char>) -> Option<Seq<char>>
    decreases changes.len(),
{
    if changes.len() == 0 {
        None
    } else if changes.last().0 == k {
        Some(changes.last().1)
    } else {
        changed_value(changes.drop_last(), k)
    }
}

/// Whether a value is the text `v`.
pub open spec fn is_text(l: Option<Leaf>, v: Seq<char>) -> bool {
    l matches Some(Leaf::Text(s)) && s@ == v
}

/// The message when the user's `theme` is not a section.
pub open spec fn theme_not_section() -> Seq<char> {
    "El tema de usuario debe ser una tabla TOML"@
}

/// The theme section after recording the changes: each changed field
/// holds its new setting, the other keys what they held.
pub open spec fn theme_recorded(old: Seq<(String, Leaf)>, new: Seq<(String, Leaf)>, changes: Seq<(Seq<char>, Seq<char>)>) -> bool {
    forall|k: Seq<char>| match changed_value(changes, k) {
        Some(v) => is_text(#[trigger] lookup(new, k), v),
        None => lookup(new, k) == lookup(old, k),
    }
}

/// Records in the user's configuration the theme settings that differ
/// from `base` (the theme without the user's file): each changed field is
/// set in `[theme]`, which is created when missing. Fails, changing
/// nothing, when the user's `theme` is not a section.
pub fn record_theme(doc: &mut Document, base: &Theme, theme: &Theme) -> (r: Result<(), String>)
    requires
        doc_wf(old(doc).entries@),
    ensures
        doc_wf(final(doc).entries@),
        forall|k: Seq<char>| k != "theme"@ ==> #[trigger] lookup(final(doc).entries@, k) == lookup(old(doc).entries@, k),
        match lookup(old(doc).entries@, "theme"@) {
            None => r is Ok && (lookup(final(doc).entries@, "theme"@) matches Some(Entry::Section(t)) && theme_recorded(
                Seq::empty(),
                t@,
                theme_changes_spec(*base, *theme, 17),
            )),
            Some(Entry::Section(o)) => r is Ok && (lookup(final(doc).entries@, "theme"@) matches Some(Entry::Section(t))
                && theme_recorded(o@, t@, theme_changes_spec(*base, *theme, 17))),
            Some(other) => r matches Err(m) && m@ == theme_not_section() && lookup(final(doc).entries@, "theme"@) == Some(other),
        },
{
    proof {
        reveal_strlit("theme");
    }
    let ghost d1 = doc.entries@;
    let current = take_entry(&mut doc.entries, "theme");
    proof {
        assert(section_ok(lookup(d1, "theme"@)));
    }
    let mut table = match current {
        None => Vec::new(),
        Some(Entry::Section(t)) => t,
        Some(other) => {
            let ghost o = other;
            set_entry(&mut doc.entries, owned("theme"), other);
            proof {
                assert forall|k: Seq<char>| #[trigger] section_ok(lookup(doc.entries@, k)) by {
                    if k != "theme"@ {
                        assert(section_ok(lookup(d1, k)));
                    }
                }
                assert(lookup(doc.entries@, "theme"@) == Some(o));
            }
            return Err(owned("El tema de usuario debe ser una tabla TOML"));
        },
    };
    let ghost t0 = table@;
    let changes = theme_changes(base, theme);
    let ghost cv = changes@.map_values(|p: (String, String)| (p.0@, p.1@));
    let mut i: usize = 0;
    assert(cv.take(0) =~= Seq::<(Seq<char>, Seq<char>)>::empty());
    while i < changes.len()
        invariant
            0 <= i <= changes@.len(),
            cv == changes@.map_values(|p: (String, String)| (p.0@, p.1@)),
            cv == theme_changes_spec(*base, *theme, 17),
            unique_keys(table@),
            theme_recorded(t0, table@, cv.take(i as int)),
        decreases changes@.len() - i,
    {
        let ghost before = table@;
        let name = changes[i].0.clone();
        let value = changes[i].1.clone();
        let ghost nv = name@;
        let ghost vv = value@;
        assert(cv[i as int] == (nv, vv));
        set_entry(&mut table, name, Leaf::Text(value));
        proof {
            assert(cv.take(i + 1).drop_last() =~= cv.take(i as int));
            assert forall|k: Seq<char>| match changed_value(cv.take(i + 1), k) {
                Some(v) => is_text(#[trigger] lookup(table@, k), v),
                None => lookup(table@, k) == lookup(t0, k),
            } by {
                if k != nv {
                    assert(lookup(table@, k) == lookup(before, k));
                }
            }
        }
        i += 1;
    }
    assert(cv.take(i as int) =~= cv);
    let ghost tv = table@;
    set_entry(&mut doc.entries, owned("theme"), Entry::Section(table));
    proof {
        assert forall|k: Seq<char>| #[trigger] section_ok(lookup(doc.entries@, k)) by {
            if k != "theme"@ {
                assert(section_ok(lookup(d1, k)));
            }
        }
        if lookup(d1, "theme"@) is None {
            assert forall|k: Seq<char>| #[trigger] lookup(t0, k) == lookup(Seq::<(String, Leaf)>::empty(), k) by {
                lemma_lookup_none(t0, k);
                lemma_lookup_none(Seq::<(String, Leaf)>::empty(), k);
            }
        }
    }
    Ok(())
}

/// The paths of `old` resolved into `new` (see `resolve_config_paths`):
/// the logo's path, the desktop folder and the extra application folders,
/// everything else as it was.
pub open spec fn paths_done(old: Seq<(String, Entry)>, new: Seq<(String, Entry)>, base: Seq<char>, home: Option<Seq<char>>) -> bool {
    &&& forall|k: Seq<char>| k != "logo"@ && k != "applications"@ ==> #[trigger] lookup(new, k) == lookup(old, k)
    &&& section_resolved(lookup(old, "logo"@), lookup(new, "logo"@), seq!["path"@], None, base, home)
    &&& section_resolved(
        lookup(old, "applications"@),
        lookup(new, "applications"@),
        seq!["desktop_dir"@],
        Some("extra_dirs"@),
        base,
        home,
    )
}

/// Prepares a configuration file kept in the folder `base` for reading:
/// moves its old `[buttons]` colors into `[theme]`, then resolves its
/// paths; the first path that cannot be resolved is the error.
pub fn prepare_config(doc: &mut Document, base: &str, home: &Option<String>) -> (r: Result<(), String>)
    requires
        doc_wf(old(doc).entries@),
    ensures
        doc_wf(final(doc).entries@),
        exists|moved: Seq<(String, Entry)>| {
            &&& doc_wf(moved)
            &&& #[trigger] buttons_moved(old(doc).entries@, moved)
            &&& match r {
                Ok(()) => doc_paths_error(moved, base@, match home {
                    Some(h) => Some(h@),
                    None => None,
                }) is None && paths_done(moved, final(doc).entries@, base@, match home {
                    Some(h) => Some(h@),
                    None => None,
                }),
                Err(m) => doc_paths_error(moved, base@, match home {
                    Some(h) => Some(h@),
                    None => None,
                }) == Some(m@),
            }
        },
{
    migrate_button_theme(doc);
    let ghost moved = doc.entries@;
    let r = resolve_config_paths(doc, base, home);
    assert(doc_wf(moved) && buttons_moved(old(doc).entries@, moved));
    r
}

/// Prepares the user's configuration to hold a theme: moves its old
/// `[buttons]` colors into `[theme]`, then records the theme settings that
/// differ from `base` (see `record_theme`).
pub fn prepare_theme(doc: &mut Document, base: &Theme, theme: &Theme) -> (r: Result<(), String>)
    requires
        doc_wf(old(doc).entries@),
    ensures
        doc_wf(final(doc).entries@),
        exists|moved: Seq<(String, Entry)>| {
            &&& #[trigger] buttons_moved(old(doc).entries@, moved)
            &&& forall|k: Seq<char>| k != "theme"@ ==> #[trigger] lookup(final(doc).entries@, k) == lookup(moved, k)
            &&& match lookup(moved, "theme"@) {
                None => r is Ok && (lookup(final(doc).entries@, "theme"@) matches Some(Entry::Section(t))
                    && theme_recorded(Seq::empty(), t@, theme_changes_spec(*base, *theme, 17))),
                Some(Entry::Section(o)) => r is Ok && (lookup(final(doc).entries@, "theme"@) matches Some(
                    Entry::Section(t),
                ) && theme_recorded(o@, t@, theme_changes_spec(*base, *theme, 17))),
                Some(other) => r matches Err(m) && m@ == theme_not_section() && lookup(
                    final(doc).entries@,
                    "theme"@,
                ) == Some(other),
            }
        },
{
    migrate_button_theme(doc);
    let ghost moved = doc.entries@;
    let r = record_theme(doc, base, theme);
    assert(buttons_moved(old(doc).entries@, moved));
    r
}

} // verus!
