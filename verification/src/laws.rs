//! Properties that hold across the library's operations: what one call
//! undoes of another, what every call keeps, and what two calls in a row
//! give.
use vstd::prelude::*;
use crate::config::{ThemeColor, theme_color_text, parse_theme_color_bytes, theme_color_is, border_name, parse_border_bytes, RgbColor, hex_text, hex_byte, parse_rgb_bytes, BorderStyle, border_index, palette_color, palette_position, cycled_color, lemma_palette_distinct};
use crate::document::{Entry, Leaf, lookup, merged_doc, merged_key, merged_entry, doc_wf, laid_over};
use crate::history::{recorded, other_than};
use crate::graphics::{base64_spec, LegacyImage, placed, pending_items, removals, placements_text, area_of, index_of};
use crate::layout::{grid_has_tiles, grid_start, grid_end, clamped_selection, grid_columns, grid_rows, grid_offset, scrolled_offset, results_offset, results_end, results_visible};
use crate::app::{App, Section, ranked, KeyEvent, KeyCode, Action};
use crate::desktop::{Application, visible_spec};
use crate::fuzzy::fuzzy_score;
use crate::text::split_spec;
use crate::storage::{DiskReport, disk_rows};
use crate::storage::{Mount, selected_mounts, selection_step, mount_index, is_mount_for, is_persistent, same_filesystem_spec};

verus! {

/// Opening an entry puts it first, keeps no identifier twice when there
/// was none twice before, and keeps at most `limit` entries.
pub proof fn law_recent_unique_newest_first_bounded(recent: Seq<Seq<char>>, id: Seq<char>, limit: nat)
    requires
        limit > 0,
        recent.no_duplicates(),
    ensures
        recorded(recent, id, limit)[0] == id,
        recorded(recent, id, limit).len() <= limit,
        recorded(recent, id, limit).no_duplicates(),
{
    let kept = recent.filter(other_than(id));
    let all = seq![id] + kept;
    broadcast use vstd::seq_lib::group_filter_ensures;
    assert forall|i: int, j: int| 0 <= i < j < all.len() implies all[i] != all[j] by {
        if i == 0 {
            recent.lemma_filter_pred(other_than(id), j - 1);
            assert((other_than(id))(all[j]));
        } else {
            assert(all[i] == kept[i - 1] && all[j] == kept[j - 1]);
            lemma_filter_no_duplicates(recent, other_than(id), i - 1, j - 1);
        }
    }
    let r = recorded(recent, id, limit);
    if limit < all.len() {
        assert forall|i: int, j: int| 0 <= i < j < r.len() implies r[i] != r[j] by {
            assert(r[i] == all[i] && r[j] == all[j]);
        }
    }
}

proof fn lemma_filter_member(s: Seq<Seq<char>>, p: spec_fn(Seq<char>) -> bool, i: int)
    requires
        0 <= i < s.filter(p).len(),
    ensures
        s.contains(s.filter(p)[i]),
    decreases s.len(),
{
    reveal(Seq::filter);
    let g = s.drop_last().filter(p);
    if p(s.last()) && i == g.len() {
        assert(s[s.len() - 1] == s.filter(p)[i]);
    } else {
        lemma_filter_member(s.drop_last(), p, i);
        let k = choose|k: int| 0 <= k < s.drop_last().len() && s.drop_last()[k] == g[i];
        assert(s[k] == g[i]);
    }
}

proof fn lemma_filter_no_duplicates(s: Seq<Seq<char>>, p: spec_fn(Seq<char>) -> bool, i: int, j: int)
    requires
        s.no_duplicates(),
        0 <= i < j < s.filter(p).len(),
    ensures
        s.filter(p)[i] != s.filter(p)[j],
    decreases s.len(),
{
    reveal(Seq::filter);
    let f = s.filter(p);
    let g = s.drop_last().filter(p);
    assert(s.drop_last().no_duplicates()) by {
        assert forall|a: int, b: int| 0 <= a < b < s.drop_last().len() implies s.drop_last()[a] != s.drop_last()[b] by {
            assert(s.drop_last()[a] == s[a] && s.drop_last()[b] == s[b]);
        }
    }
    if p(s.last()) {
        assert(f == g.push(s.last()));
        if j == f.len() - 1 {
            lemma_filter_member(s.drop_last(), p, i);
            assert(s.drop_last().contains(g[i]));
            let k = choose|k: int| 0 <= k < s.drop_last().len() && s.drop_last()[k] == g[i];
            assert(s[k] == g[i]);
            assert(s[s.len() - 1] == s.last());
        } else {
            lemma_filter_no_duplicates(s.drop_last(), p, i, j);
        }
    } else {
        lemma_filter_no_duplicates(s.drop_last(), p, i, j);
    }
}

/// Cycling the border style forwards and then backwards gives it back, and
/// the other way round.
pub proof fn law_border_cycle_round_trip(b: BorderStyle)
    ensures
        b.spec_cycle(1isize).spec_cycle(-1isize) == b,
        b.spec_cycle(-1isize).spec_cycle(1isize) == b,
{
}

/// Cycling a palette color forwards and then backwards gives it back, and
/// the other way round.
pub proof fn law_palette_cycle_round_trip(c: (u8, u8, u8))
    requires
        palette_position(c) is Some,
    ensures
        cycled_color(cycled_color(c, false), true) == c,
        cycled_color(cycled_color(c, true), false) == c,
{
    let i = palette_position(c)->0;
    let f = palette_color((i + 1) % 12);
    let b = palette_color((i + 11) % 12);
    assert(palette_position(f) == Some((i + 1) % 12)) by {
        let w = choose|w: int| 0 <= w < 12 && palette_color(w) == f;
        lemma_palette_distinct(w, (i + 1) % 12);
    }
    assert(palette_position(b) == Some((i + 11) % 12)) by {
        let w = choose|w: int| 0 <= w < 12 && palette_color(w) == b;
        lemma_palette_distinct(w, (i + 11) % 12);
    }
}

/// Laying the user's configuration over the global one: a value that the
/// user's file sets in a section wins, and a value only the global file
/// sets in it stays, when both files have that section.
pub proof fn law_user_settings_win(
    base: Seq<(String, Entry)>,
    overlay: Seq<(String, Entry)>,
    result: Seq<(String, Entry)>,
    section: Seq<char>,
    key: Seq<char>,
)
    requires
        merged_doc(base, overlay, result),
        lookup(base, section) matches Some(Entry::Section(_)),
        lookup(overlay, section) matches Some(Entry::Section(_)),
    ensures
        lookup(result, section) matches Some(Entry::Section(t)) && lookup(t@, key) == match lookup(
            overlay,
            section,
        ) {
            Some(Entry::Section(o)) => match lookup(o@, key) {
                Some(v) => Some(v),
                None => match lookup(base, section) {
                    Some(Entry::Section(b)) => lookup(b@, key),
                    _ => None,
                },
            },
            _ => None,
        },
{
    assert(merged_key(lookup(base, section), lookup(overlay, section), lookup(result, section)));
}

/// Laying the user's configuration over the global one: an item that only
/// one of them has is kept as it is, and an item of both that is not a
/// section on both sides is the user's.
pub proof fn law_user_items_win(
    base: Seq<(String, Entry)>,
    overlay: Seq<(String, Entry)>,
    result: Seq<(String, Entry)>,
    key: Seq<char>,
)
    requires
        merged_doc(base, overlay, result),
    ensures
        lookup(overlay, key) is None ==> lookup(result, key) == lookup(base, key),
        lookup(base, key) is None ==> lookup(result, key) == lookup(overlay, key),
        (lookup(overlay, key) matches Some(Entry::Value(_))) ==> lookup(result, key) == lookup(overlay, key),
        (lookup(base, key) matches Some(Entry::Value(_))) && lookup(overlay, key) is Some ==> lookup(result, key)
            == lookup(overlay, key),
{
    assert(merged_key(lookup(base, key), lookup(overlay, key), lookup(result, key)));
}

/// Base64 makes four characters of each three bytes, the last group padded.
pub proof fn law_base64_length(b: Seq<u8>)
    ensures
        base64_spec(b).len() == 4 * ((b.len() + 2) / 3),
    decreases b.len(),
{
    if b.len() > 3 {
        law_base64_length(b.skip(3));
        assert((b.len() - 3 + 2) / 3 + 1 == (b.len() + 2) / 3);
    } else if b.len() == 3 {
        assert(b.skip(3).len() == 0);
        assert(base64_spec(b.skip(3)).len() == 0);
    }
}

proof fn lemma_hex_digit(d: nat)
    requires
        d < 16,
    ensures
        '\0' <= crate::text::hex_char(d) <= '\u{7f}',
        hex_byte(crate::text::hex_char(d) as u8) == Some(d as u8),
        (crate::text::hex_char(d) as u8) != 43,
{
    if d == 0 { assert(crate::text::hex_char(d) == '0'); }
    else if d == 1 { assert(crate::text::hex_char(d) == '1'); }
    else if d == 2 { assert(crate::text::hex_char(d) == '2'); }
    else if d == 3 { assert(crate::text::hex_char(d) == '3'); }
    else if d == 4 { assert(crate::text::hex_char(d) == '4'); }
    else if d == 5 { assert(crate::text::hex_char(d) == '5'); }
    else if d == 6 { assert(crate::text::hex_char(d) == '6'); }
    else if d == 7 { assert(crate::text::hex_char(d) == '7'); }
    else if d == 8 { assert(crate::text::hex_char(d) == '8'); }
    else if d == 9 { assert(crate::text::hex_char(d) == '9'); }
    else if d == 10 { assert(crate::text::hex_char(d) == 'a'); }
    else if d == 11 { assert(crate::text::hex_char(d) == 'b'); }
    else if d == 12 { assert(crate::text::hex_char(d) == 'c'); }
    else if d == 13 { assert(crate::text::hex_char(d) == 'd'); }
    else if d == 14 { assert(crate::text::hex_char(d) == 'e'); }
    else { assert(crate::text::hex_char(d) == 'f'); }
}

proof fn lemma_hex_fixed_byte(n: u8)
    ensures
        crate::text::hex_fixed(n as nat, 2) == seq![crate::text::hex_char(n as nat / 16), crate::text::hex_char(n as nat % 16)],
{
    assert(crate::text::hex_fixed((n as nat / 16) as nat, 1) == crate::text::hex_fixed((n as nat / 256) as nat, 0).push(
        crate::text::hex_char((n as nat / 16) % 16),
    ));
    assert((n as nat / 16) % 16 == n as nat / 16);
    assert(crate::text::hex_fixed((n as nat / 256) as nat, 0) =~= Seq::<char>::empty());
    assert(crate::text::hex_fixed(n as nat, 2) =~= seq![crate::text::hex_char(n as nat / 16), crate::text::hex_char(n as nat % 16)]);
}

/// A color written as `#rrggbb` reads back as the same color.
pub proof fn law_color_text_round_trip(c: RgbColor)
    ensures
        parse_rgb_bytes(vstd::utf8::encode_utf8(hex_text(c))) == Ok::<(u8, u8, u8), Seq<char>>(c.spec_components()),
{
    let (r, g, b) = c.spec_components();
    lemma_hex_fixed_byte(r);
    lemma_hex_fixed_byte(g);
    lemma_hex_fixed_byte(b);
    lemma_hex_digit(r as nat / 16);
    lemma_hex_digit(r as nat % 16);
    lemma_hex_digit(g as nat / 16);
    lemma_hex_digit(g as nat % 16);
    lemma_hex_digit(b as nat / 16);
    lemma_hex_digit(b as nat % 16);
    reveal_strlit("#");
    let t = hex_text(c);
    assert(t =~= seq![
        '#',
        crate::text::hex_char(r as nat / 16),
        crate::text::hex_char(r as nat % 16),
        crate::text::hex_char(g as nat / 16),
        crate::text::hex_char(g as nat % 16),
        crate::text::hex_char(b as nat / 16),
        crate::text::hex_char(b as nat % 16),
    ]);
    assert(vstd::utf8::is_ascii_chars(t));
    vstd::utf8::is_ascii_chars_encode_utf8(t);
    let e = vstd::utf8::encode_utf8(t);
    assert(e[0] == t[0] as u8);
    assert(e[1] == t[1] as u8);
    assert(e[2] == t[2] as u8);
    assert(e[3] == t[3] as u8);
    assert(e[4] == t[4] as u8);
    assert(e[5] == t[5] as u8);
    assert(e[6] == t[6] as u8);
    assert(('#' as u8) == 35);
    assert(r == (r as nat / 16) * 16 + r as nat % 16);
    assert(g == (g as nat / 16) * 16 + g as nat % 16);
    assert(b == (b as nat / 16) * 16 + b as nat % 16);
}

proof fn lemma_ascii_word(t: Seq<char>, w: Seq<u8>)
    requires
        t.len() == w.len(),
        forall|i: int| 0 <= i < t.len() ==> '\0' <= #[trigger] t[i] <= '\u{7f}' && w[i] == t[i] as u8,
    ensures
        vstd::utf8::encode_utf8(t) == w,
{
    assert(vstd::utf8::is_ascii_chars(t)) by {
        assert forall|i| 0 <= i < t.len() implies '\0' <= #[trigger] t[i] <= '\u{7f}' by {}
    }
    vstd::utf8::is_ascii_chars_encode_utf8(t);
    assert(vstd::utf8::encode_utf8(t) =~= w);
}

/// A border style written by name reads back as the same style.
pub proof fn law_border_text_round_trip(b: BorderStyle)
    ensures
        parse_border_bytes(vstd::utf8::encode_utf8(border_name(b))) == Ok::<BorderStyle, Seq<char>>(b),
{
    reveal_strlit("plain");
    reveal_strlit("rounded");
    reveal_strlit("double");
    reveal_strlit("thick");
    match b {
        BorderStyle::Plain => lemma_ascii_word("plain"@, crate::config::word_plain()),
        BorderStyle::Rounded => {
            lemma_ascii_word("rounded"@, crate::config::word_rounded());
            assert(!crate::config::equals_ignoring_case(crate::config::word_rounded(), crate::config::word_plain()));
        },
        BorderStyle::Double => {
            lemma_ascii_word("double"@, crate::config::word_double());
            assert(!crate::config::equals_ignoring_case(crate::config::word_double(), crate::config::word_plain()));
            assert(!crate::config::equals_ignoring_case(crate::config::word_double(), crate::config::word_rounded()));
        },
        BorderStyle::Thick => {
            lemma_ascii_word("thick"@, crate::config::word_thick());
            assert(crate::config::ascii_lower(crate::config::word_thick()[0]) != crate::config::word_plain()[0]);
            assert(!crate::config::equals_ignoring_case(crate::config::word_thick(), crate::config::word_plain()));
            assert(!crate::config::equals_ignoring_case(crate::config::word_thick(), crate::config::word_rounded()));
            assert(!crate::config::equals_ignoring_case(crate::config::word_thick(), crate::config::word_double()));
        },
    }
}

/// A theme color written as a setting reads back as the same color.
pub proof fn law_theme_color_text_round_trip(c: ThemeColor)
    ensures
        parse_theme_color_bytes(vstd::utf8::encode_utf8(theme_color_text(c))) matches Ok(t) && theme_color_is(c, t),
{
    reveal_strlit("terminal");
    match c {
        ThemeColor::Terminal => lemma_ascii_word("terminal"@, crate::config::word_terminal()),
        ThemeColor::Rgb(rgb) => {
            law_color_text_round_trip(rgb);
            let (r, g, b) = rgb.spec_components();
            lemma_hex_fixed_byte(r);
            lemma_hex_fixed_byte(g);
            lemma_hex_fixed_byte(b);
            reveal_strlit("#");
            assert(hex_text(rgb).len() == 7);
            lemma_hex_digit(r as nat / 16);
            lemma_hex_digit(r as nat % 16);
            lemma_hex_digit(g as nat / 16);
            lemma_hex_digit(g as nat % 16);
            lemma_hex_digit(b as nat / 16);
            lemma_hex_digit(b as nat % 16);
            let t = hex_text(rgb);
            assert(vstd::utf8::is_ascii_chars(t)) by {
                assert(t =~= seq![
                    '#',
                    crate::text::hex_char(r as nat / 16),
                    crate::text::hex_char(r as nat % 16),
                    crate::text::hex_char(g as nat / 16),
                    crate::text::hex_char(g as nat % 16),
                    crate::text::hex_char(b as nat / 16),
                    crate::text::hex_char(b as nat % 16),
                ]);
            }
            vstd::utf8::is_ascii_chars_encode_utf8(t);
        },
    }
}

/// The disks chosen for the system panel: at most two, the personal one
/// first; each is persistent and holds the path it was chosen for, and no
/// two show one filesystem.
pub proof fn law_chosen_disks(mounts: Seq<Mount>, home: Option<Seq<u8>>, sources: Seq<Seq<u8>>)
    requires
        sources.len() == mounts.len(),
    ensures
        ({
            let r = selected_mounts(mounts, home, sources);
            &&& r.len() <= 2
            &&& forall|k: int| 0 <= k < r.len() ==> is_mount_for(mounts, r[k].2, r[k].1) && is_persistent(mounts[r[k].1])
            &&& r.len() == 2 ==> r[0].0 == "personal"@ && r[1].0 == "sistema"@ && !same_filesystem_spec(
                mounts[r[0].1],
                mounts[r[1].1],
                sources[r[0].1],
                sources[r[1].1],
            )
        }),
{
    let first = selection_step(mounts, sources, Seq::empty(), "personal"@, home);
    lemma_step_chooses(mounts, sources, Seq::empty(), "personal"@, home);
    lemma_step_chooses(mounts, sources, first, "sistema"@, Some(seq![0x2fu8]));
    let r = selected_mounts(mounts, home, sources);
    if r.len() == 2 {
        assert(first.len() == 1);
        match mount_index(mounts, seq![0x2fu8]) {
            Some(i) => {
                assert(!(exists|k: int| 0 <= k < first.len() && same_filesystem_spec(
                    mounts[first[k].1],
                    mounts[i],
                    sources[first[k].1],
                    sources[i],
                )));
                assert(r[1].1 == i);
                assert(r[0] == first[0]);
                if same_filesystem_spec(mounts[first[0].1], mounts[i], sources[first[0].1], sources[i]) {
                    assert(exists|k: int| 0 <= k < first.len() && same_filesystem_spec(
                        mounts[first[k].1],
                        mounts[i],
                        sources[first[k].1],
                        sources[i],
                    ));
                }
            },
            None => {},
        }
    }
}

proof fn lemma_step_chooses(
    mounts: Seq<Mount>,
    sources: Seq<Seq<u8>>,
    selected: Seq<(Seq<char>, int, Seq<u8>)>,
    context: Seq<char>,
    path: Option<Seq<u8>>,
)
    requires
        forall|k: int| 0 <= k < selected.len() ==> is_mount_for(mounts, selected[k].2, selected[k].1) && is_persistent(mounts[selected[k].1]),
    ensures
        ({
            let r = selection_step(mounts, sources, selected, context, path);
            &&& r.len() <= selected.len() + 1
            &&& r.take(selected.len() as int) == selected
            &&& forall|k: int| 0 <= k < r.len() ==> is_mount_for(mounts, r[k].2, r[k].1) && is_persistent(mounts[r[k].1])
            &&& r.len() == selected.len() + 1 ==> r.last().0 == context
        }),
{
    let r = selection_step(mounts, sources, selected, context, path);
    assert(selected.take(selected.len() as int) =~= selected);
    if let Some(p) = path {
        if let Some(i) = mount_index(mounts, p) {
            assert(is_mount_for(mounts, p, i));
            if r.len() == selected.len() + 1 {
                assert(r =~= selected.push((context, i, p)));
                assert(r.take(selected.len() as int) =~= selected);
            }
        }
    }
}

proof fn lemma_scrolled_offset(offset: int, row: int, rows: int)
    requires
        rows >= 1,
        row >= 0,
        offset >= 0,
    ensures
        scrolled_offset(offset, row, rows) <= row < scrolled_offset(offset, row, rows) + rows,
        scrolled_offset(offset, row, rows) >= 0,
{
}

/// A grid always shows its selected application: the selection falls
/// among the positions shown.
pub proof fn law_grid_shows_selection(app: App, section: Section, area: crate::app::Rect)
    requires
        grid_has_tiles(app, section, area),
    ensures
        grid_start(app, section, area) <= clamped_selection(app, section) < grid_end(app, section, area),
{
    let sel = clamped_selection(app, section);
    let cols = grid_columns(area);
    let rows = grid_rows(area);
    let row = sel / cols;
    let o = grid_offset(app, section, area);
    lemma_scrolled_offset(app.offsets[crate::app::section_index(section)] as int, row, rows);
    assert(o * cols <= row * cols) by (nonlinear_arith)
        requires o <= row, cols >= 1;
    assert(row * cols <= sel) by (nonlinear_arith)
        requires row == sel / cols, cols >= 1, sel >= 0;
    assert(sel < (row + 1) * cols) by (nonlinear_arith)
        requires row == sel / cols, cols >= 1, sel >= 0;
    assert((row + 1) * cols <= (o + rows) * cols) by (nonlinear_arith)
        requires row < o + rows, cols >= 1;
    assert((o + rows) * cols == o * cols + rows * cols) by (nonlinear_arith);
}

/// The results always show the selected one.
pub proof fn law_results_show_selection(app: App, area: crate::app::Rect)
    requires
        area.height > 0,
        app.filtered@.len() > 0,
    ensures
        results_offset(app, area) <= clamped_selection(app, Section::Results) < results_end(app, area),
{
    lemma_scrolled_offset(
        app.offsets[2] as int,
        clamped_selection(app, Section::Results),
        results_visible(area),
    );
}

/// No identifier occurs twice.
pub open spec fn unique_ids(s: Seq<(u32, crate::app::Rect)>) -> bool {
    forall|i: int, j: int| 0 <= i < j < s.len() ==> s[i].0 != s[j].0
}

proof fn lemma_index_of(s: Seq<(u32, crate::app::Rect)>, id: u32)
    ensures
        match index_of(s, id) {
            Some(j) => 0 <= j < s.len() && s[j].0 == id,
            None => forall|k: int| 0 <= k < s.len() ==> s[k].0 != id,
        },
    decreases s.len(),
{
    if s.len() > 0 {
        lemma_index_of(s.drop_last(), id);
        assert forall|k: int| 0 <= k < s.len() - 1 implies s.drop_last()[k] == s[k] by {}
    }
}

proof fn lemma_area_at(s: Seq<(u32, crate::app::Rect)>, k: int)
    requires
        unique_ids(s),
        0 <= k < s.len(),
    ensures
        area_of(s, s[k].0) == Some(s[k].1),
    decreases s.len(),
{
    if k < s.len() - 1 {
        assert(unique_ids(s.drop_last()));
        lemma_area_at(s.drop_last(), k);
    }
}

proof fn lemma_area_none(s: Seq<(u32, crate::app::Rect)>, q: u32)
    requires
        forall|k: int| 0 <= k < s.len() ==> s[k].0 != q,
    ensures
        area_of(s, q) is None,
    decreases s.len(),
{
    if s.len() > 0 {
        lemma_area_none(s.drop_last(), q);
    }
}

proof fn lemma_placed(items: Seq<(u32, crate::app::Rect)>)
    ensures
        unique_ids(placed(items)),
        forall|q: u32| #[trigger] area_of(placed(items), q) == area_of(items, q),
    decreases items.len(),
{
    if items.len() > 0 {
        lemma_placed(items.drop_last());
        let r = placed(items.drop_last());
        let (id, area) = items.last();
        lemma_index_of(r, id);
        match index_of(r, id) {
            Some(j) => {
                let u = r.update(j, (id, area));
                assert(placed(items) == u);
                assert(unique_ids(u));
                assert forall|q: u32| #[trigger] area_of(u, q) == area_of(items, q) by {
                    if q == id {
                        lemma_area_at(u, j);
                    } else {
                        assert(area_of(items, q) == area_of(items.drop_last(), q));
                        assert(area_of(r, q) == area_of(items.drop_last(), q));
                        if exists|k: int| 0 <= k < u.len() && u[k].0 == q {
                            let k = choose|k: int| 0 <= k < u.len() && u[k].0 == q;
                            lemma_area_at(u, k);
                            lemma_area_at(r, k);
                        } else {
                            lemma_area_none(u, q);
                            assert forall|k: int| 0 <= k < r.len() implies r[k].0 != q by {
                                assert(u[k].0 != q);
                            }
                            lemma_area_none(r, q);
                        }
                    }
                }
            },
            None => {
                let u = r.push((id, area));
                assert(placed(items) == u);
                assert(u.drop_last() =~= r);
                assert(unique_ids(u));
                assert forall|q: u32| #[trigger] area_of(u, q) == area_of(items, q) by {
                    if q != id {
                        assert(area_of(items, q) == area_of(items.drop_last(), q));
                        assert(area_of(r, q) == area_of(items.drop_last(), q));
                    }
                }
            },
        }
    }
}

proof fn lemma_removals_empty(v: Seq<(u32, crate::app::Rect)>, n: int)
    requires
        unique_ids(v),
        0 <= n <= v.len(),
    ensures
        removals(v.take(n), v, false) == Seq::<char>::empty(),
    decreases n,
{
    if n > 0 {
        assert(v.take(n).drop_last() =~= v.take(n - 1));
        lemma_removals_empty(v, n - 1);
        lemma_area_at(v, n - 1);
        assert(removals(v.take(n), v, false) =~= Seq::<char>::empty());
    }
}

proof fn lemma_placements_empty(p: Seq<(LegacyImage, crate::app::Rect)>, n: int)
    requires
        unique_ids(pending_items(p)),
        0 <= n <= p.len(),
    ensures
        placements_text(p.take(n), placed(pending_items(p)), false) == Seq::<char>::empty(),
    decreases n,
{
    if n > 0 {
        assert(p.take(n).drop_last() =~= p.take(n - 1));
        lemma_placements_empty(p, n - 1);
        lemma_placed(pending_items(p));
        lemma_area_at(pending_items(p), n - 1);
        assert(placements_text(p.take(n), placed(pending_items(p)), false) =~= Seq::<char>::empty());
    }
}

/// Once the frame's images are on screen, flushing the same frame again
/// sends nothing, when no image was drawn twice.
pub proof fn law_flush_settles(pending: Seq<(LegacyImage, crate::app::Rect)>)
    requires
        unique_ids(pending_items(pending)),
    ensures
        removals(placed(pending_items(pending)), placed(pending_items(pending)), false) + placements_text(
            pending,
            placed(pending_items(pending)),
            false,
        ) == Seq::<char>::empty(),
{
    let v = placed(pending_items(pending));
    lemma_placed(pending_items(pending));
    lemma_removals_empty(v, v.len() as int);
    assert(v.take(v.len() as int) =~= v);
    lemma_placements_empty(pending, pending.len() as int);
    assert(pending.take(pending.len() as int) =~= pending);
    assert(Seq::<char>::empty() + Seq::<char>::empty() =~= Seq::<char>::empty());
}

/// A configured path resolved against an absolute folder, with `~` standing
/// for an absolute personal folder, is absolute.
pub proof fn law_resolved_paths_are_absolute(path: Seq<char>, base: Seq<char>, home: Option<Seq<char>>)
    requires
        crate::paths::is_absolute(base),
        home matches Some(h) ==> crate::paths::is_absolute(h),
    ensures
        crate::paths::resolve_spec(path, base, home) matches Ok(p) ==> crate::paths::is_absolute(p),
{
}


/// The score a search gives an item: the fuzzy score of its search text
/// plus twice that of its name (a name that does not match adds nothing).
pub open spec fn search_score(a: Application, query: Seq<char>) -> int {
    (match fuzzy_score(query, a.search_text@) {
        Some(s) => s as int,
        None => 0,
    }) + 2 * (match fuzzy_score(query, a.name@) {
        Some(n) => n as int,
        None => 0,
    })
}

/// Search results list each item whose search text matches, once, from the
/// highest score to the lowest: the score never rises along the list, and
/// items with equal scores keep their catalog order.
pub proof fn law_results_best_first(results: Seq<usize>, apps: Seq<Application>, query: Seq<char>)
    requires
        ranked(results, apps, query),
    ensures
        forall|k: int| 0 <= k < results.len() ==> #[trigger] results[k] < apps.len()
            && fuzzy_score(query, apps[results[k] as int].search_text@) is Some,
        forall|i: int| 0 <= i < apps.len() && fuzzy_score(query, (#[trigger] apps[i]).search_text@) is Some
            ==> results.contains(i as usize),
        forall|j: int, k: int| #![trigger results[j], results[k]] 0 <= j < k < results.len() ==>
            search_score(apps[results[j] as int], query) >= search_score(apps[results[k] as int], query),
        forall|j: int, k: int| #![trigger results[j], results[k]] 0 <= j < k < results.len()
            && search_score(apps[results[j] as int], query) == search_score(apps[results[k] as int], query)
            ==> results[j] < results[k],
        results.no_duplicates(),
{
    assert forall|i: int| 0 <= i < apps.len() && fuzzy_score(query, (#[trigger] apps[i]).search_text@) is Some
        implies results.contains(i as usize) by {
        assert(crate::app::ranking(apps, query, i) is Some);
    }
    assert forall|j: int, k: int| #![trigger results[j], results[k]] 0 <= j < k < results.len() implies
        search_score(apps[results[j] as int], query) >= search_score(apps[results[k] as int], query)
        && (search_score(apps[results[j] as int], query) == search_score(apps[results[k] as int], query)
            ==> results[j] < results[k]) by {
        assert(crate::app::ranks_before(apps, query, results[j] as int, results[k] as int));
        assert(results[j] < apps.len() && results[k] < apps.len());
    }
    assert forall|j: int, k: int| 0 <= j < k < results.len() implies results[j] != results[k] by {
        assert(crate::app::ranks_before(apps, query, results[j] as int, results[k] as int));
    }
}

/// The visibility rules of the catalog: an entry that is not of type
/// `Application`, is `Hidden`, has `NoDisplay=true`, or has neither a
/// command nor D-Bus activation is never listed, whatever the current
/// desktops; an application with a command and none of these or of the
/// desktop restrictions always is.
pub proof fn law_visibility_rules(f: Map<Seq<char>, Seq<char>>, desktops: Seq<Seq<char>>)
    ensures
        f.contains_key("NoDisplay"@) && f["NoDisplay"@] == "true"@ ==> !visible_spec(f, desktops),
        f.contains_key("Hidden"@) && f["Hidden"@] == "true"@ ==> !visible_spec(f, desktops),
        !(f.contains_key("Type"@) && f["Type"@] == "Application"@) ==> !visible_spec(f, desktops),
        !f.contains_key("Exec"@) && !(f.contains_key("DBusActivatable"@) && f["DBusActivatable"@] == "true"@)
            ==> !visible_spec(f, desktops),
        f.contains_key("Type"@) && f["Type"@] == "Application"@ && f.contains_key("Exec"@)
            && !f.contains_key("Hidden"@) && !f.contains_key("NoDisplay"@)
            && !f.contains_key("OnlyShowIn"@) && !f.contains_key("NotShowIn"@) ==> visible_spec(f, desktops),
        f.contains_key("OnlyShowIn"@) && (forall|i: int, j: int|
            0 <= i < split_spec(f["OnlyShowIn"@], ';').len() && 0 <= j < desktops.len()
                ==> #[trigger] split_spec(f["OnlyShowIn"@], ';')[i] != #[trigger] desktops[j])
            ==> !visible_spec(f, desktops),
        forall|i: int, j: int|
            f.contains_key("NotShowIn"@) && 0 <= i < split_spec(f["NotShowIn"@], ';').len() && 0 <= j < desktops.len()
                && #[trigger] split_spec(f["NotShowIn"@], ';')[i] == #[trigger] desktops[j]
            ==> !visible_spec(f, desktops),
{
}

/// Enter, with no help or context menu open, opens the item at the
/// selected position of the section shown, and nothing when the selection
/// is past its end; the state does not change.
pub proof fn law_enter_opens_the_selection(before: App, key: KeyEvent, after: App, action: Action)
    requires
        before.key_step(key, after, action),
        key.code == KeyCode::Enter,
        !key.release,
        !before.help,
        before.context_menu is None,
    ensures
        after == before,
        ({
            let list = match before.section {
                Section::Desktop => before.desktop@,
                Section::Recent => before.recent@,
                Section::Results => before.filtered@,
            };
            let sel = match before.section {
                Section::Desktop => before.selected[0],
                Section::Recent => before.selected[1],
                Section::Results => before.selected[2],
            };
            &&& sel < list.len() ==> action == Action::Launch(list[sel as int])
            &&& sel >= list.len() ==> action == Action::Idle
        }),
{
}

/// The rows of a disk: its filesystem type, one row for each drive (or one
/// when none is known), then used / total and, last, the available space,
/// each shown as the usage reports it.
pub proof fn law_disk_rows_show_usage(d: DiskReport, spanish: bool)
    ensures
        disk_rows(d, spanish).len() == 3 + (if d.drives@.len() == 0 { 1 } else { d.drives@.len() }),
        disk_rows(d, spanish)[0].1 == d.fs_type@,
        forall|i: int| 0 <= i < d.drives@.len() ==> disk_rows(d, spanish)[1 + i].1 == (#[trigger] d.drives@[i])@,
        d.usage matches Some(u) ==> {
            let rows = disk_rows(d, spanish);
            &&& rows[rows.len() - 1] == (if spanish { "Disponible"@ } else { "Available"@ }, u.available@)
            &&& rows[rows.len() - 2].1 == u.used@ + " / "@ + u.total@
        },
{
}


proof fn lemma_others_len(s: Seq<Seq<char>>, id: Seq<char>)
    requires
        s.no_duplicates(),
    ensures
        s.filter(other_than(id)).len() == if s.contains(id) { s.len() - 1 } else { s.len() as int },
    decreases s.len(),
{
    reveal(Seq::filter);
    if s.len() > 0 {
        let d = s.drop_last();
        assert(d.no_duplicates()) by {
            assert forall|a: int, b: int| 0 <= a < b < d.len() implies d[a] != d[b] by {
                assert(d[a] == s[a] && d[b] == s[b]);
            }
        }
        lemma_others_len(d, id);
        if s.last() == id {
            assert(!d.contains(id)) by {
                if d.contains(id) {
                    let k = choose|k: int| 0 <= k < d.len() && d[k] == id;
                    assert(s[k] == s[s.len() - 1]);
                }
            }
            assert(s.contains(id)) by {
                assert(s[s.len() - 1] == id);
            }
        } else {
            assert(s.contains(id) == d.contains(id)) by {
                if s.contains(id) {
                    let k = choose|k: int| 0 <= k < s.len() && s[k] == id;
                    assert(d[k] == id);
                }
                if d.contains(id) {
                    let k = choose|k: int| 0 <= k < d.len() && d[k] == id;
                    assert(s[k] == id);
                }
            }
        }
    }
}

proof fn lemma_others_index(s: Seq<Seq<char>>, id: Seq<char>, k: int)
    requires
        s.no_duplicates(),
        0 <= k < s.len(),
        s[k] != id,
    ensures
        ({
            let pos = if s.take(k).contains(id) { k - 1 } else { k };
            &&& 0 <= pos < s.filter(other_than(id)).len()
            &&& s.filter(other_than(id))[pos] == s[k]
        }),
    decreases s.len(),
{
    reveal(Seq::filter);
    let d = s.drop_last();
    assert(d.no_duplicates()) by {
        assert forall|a: int, b: int| 0 <= a < b < d.len() implies d[a] != d[b] by {
            assert(d[a] == s[a] && d[b] == s[b]);
        }
    }
    if k == s.len() - 1 {
        assert(s.take(k) =~= d);
        lemma_others_len(d, id);
        assert(s.filter(other_than(id)) == d.filter(other_than(id)).push(s.last()));
    } else {
        lemma_others_index(d, id, k);
        assert(d.take(k) =~= s.take(k));
        assert(d[k] == s[k]);
    }
}

/// Opening `id` on a list without repeats puts `id` first and shifts back
/// by one place every other entry that came before `id` (all of them when
/// `id` was not listed); those after it keep their place, and the list is
/// cut to `limit` entries. So nothing is lost while the list does not
/// outgrow `limit`.
pub proof fn law_recent_moves_to_front(recent: Seq<Seq<char>>, id: Seq<char>, limit: nat)
    requires
        recent.no_duplicates(),
        limit > 0,
    ensures
        recorded(recent, id, limit)[0] == id,
        recorded(recent, id, limit).len() == if recent.contains(id) {
            if recent.len() < limit { recent.len() as int } else { limit as int }
        } else {
            if recent.len() + 1 < limit { recent.len() + 1int } else { limit as int }
        },
        forall|k: int| 0 <= k < recent.len() && (#[trigger] recent[k]) != id ==> {
            let place = if recent.take(k).contains(id) { k } else { k + 1 };
            place < limit ==> recorded(recent, id, limit)[place] == recent[k]
        },
{
    let others = recent.filter(other_than(id));
    let all = seq![id] + others;
    lemma_others_len(recent, id);
    assert(recorded(recent, id, limit)[0] == all[0]);
    assert forall|k: int| 0 <= k < recent.len() && (#[trigger] recent[k]) != id implies {
        let place = if recent.take(k).contains(id) { k } else { k + 1 };
        place < limit ==> recorded(recent, id, limit)[place] == recent[k]
    } by {
        lemma_others_index(recent, id, k);
        let pos = if recent.take(k).contains(id) { k - 1 } else { k };
        assert(all[pos + 1] == others[pos]);
    }
}

} // verus!
