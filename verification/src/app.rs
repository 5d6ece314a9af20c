//! The launcher's state and what each input does to it. Work that leaves
//! the process (starting programs, reading the desktop, saving the
//! history) is returned as an `Action` for the caller to perform, and its
//! outcome is handed back through the `finish_*` methods.
use vstd::prelude::*;
use vstd::array::spec_array_update;
use vstd::utf8::encode_utf8;
use crate::config::Config;
use crate::desktop::{Application, Catalog};
use crate::fuzzy::{fuzzy_score, Scorer};
use crate::history::{History, texts};
use crate::i18n::Translator;
use crate::system::SystemInfo;
use crate::text::{is_control, is_control_char, trim, trim_string, chars_of, push_char, pop_char, str_equal};

verus! {

/// A group of launchable items.
#[derive(Debug, Clone, Copy, PartialEq, Eq, Structural)]
pub enum Section {
    Desktop,
    Recent,
    Results,
}

pub open spec fn section_index(s: Section) -> int {
    match s {
        Section::Desktop => 0,
        Section::Recent => 1,
        Section::Results => 2,
    }
}

impl Section {
    /// The position of this section in the per-section arrays of `App`.
    pub fn index(self) -> (r: usize)
        ensures
            r == section_index(self),
    {
        match self {
            Section::Desktop => 0,
            Section::Recent => 1,
            Section::Results => 2,
        }
    }
}

/// A companion program that replaces the launcher in its terminal.
#[derive(Debug, Clone, Copy, PartialEq, Eq, Structural)]
pub enum LapiProgram {
    Installer,
    Manager,
}

pub open spec fn program_command(p: LapiProgram) -> Seq<char> {
    match p {
        LapiProgram::Installer => "lapi-installer"@,
        LapiProgram::Manager => "lapi-manager"@,
    }
}

impl LapiProgram {
    /// The executable name of the program.
    pub fn command(self) -> (r: &'static str)
        ensures
            r@ == program_command(self),
    {
        match self {
            LapiProgram::Installer => "lapi-installer",
            LapiProgram::Manager => "lapi-manager",
        }
    }
}

/// What a region of the screen stands for.
#[derive(Debug, Clone, Copy, PartialEq, Eq, Structural)]
pub enum Target {
    System(usize),
    SystemDetails(usize),
    Program(LapiProgram),
    Section(Section),
    App(Section, usize),
    Search,
    ContextAction,
    ContextClose,
}

/// A rectangle of terminal cells.
#[derive(Debug, Clone, Copy, PartialEq, Eq, Structural)]
pub struct Rect {
    pub x: u16,
    pub y: u16,
    pub width: u16,
    pub height: u16,
}

impl Rect {
    /// The rectangle at `x`, `y` of `width` by `height` cells, cut so that
    /// it ends within the coordinate range.
    pub open spec fn spec_new(x: u16, y: u16, width: u16, height: u16) -> Rect {
        Rect {
            x,
            y,
            width: if x + width > 65535 { (65535 - x) as u16 } else { width },
            height: if y + height > 65535 { (65535 - y) as u16 } else { height },
        }
    }

    /// The rectangle at `x`, `y` of `width` by `height` cells, cut so that
    /// it ends within the coordinate range.
    pub fn new(x: u16, y: u16, width: u16, height: u16) -> (r: Rect)
        ensures
            r == Rect::spec_new(x, y, width, height),
    {
        Rect { x, y, width: x.saturating_add(width) - x, height: y.saturating_add(height) - y }
    }

    /// Whether the rectangle ends within the coordinate range.
    pub open spec fn valid(self) -> bool {
        self.x + self.width <= 65535 && self.y + self.height <= 65535
    }

    /// Whether the rectangle covers no cell.
    pub fn is_empty(self) -> (r: bool)
        ensures
            r == (self.width == 0 || self.height == 0),
    {
        self.width == 0 || self.height == 0
    }

    pub open spec fn spec_contains(self, column: u16, row: u16) -> bool {
        self.x <= column < self.x + self.width && self.y <= row < self.y + self.height
    }

    /// Whether the cell at `column`, `row` lies inside.
    pub fn contains(self, column: u16, row: u16) -> (r: bool)
        ensures
            r == self.spec_contains(column, row),
    {
        self.x <= column && (column as u32) < self.x as u32 + self.width as u32 && self.y <= row
            && (row as u32) < self.y as u32 + self.height as u32
    }
}

/// A region of the last drawn frame and what it stands for.
#[derive(Debug, Clone, Copy, PartialEq, Eq, Structural)]
pub struct Hit {
    pub area: Rect,
    pub target: Target,
}

/// A key of the keyboard.
#[derive(Debug, Clone, Copy, PartialEq, Eq, Structural)]
pub enum KeyCode {
    Char(char),
    F(u8),
    Esc,
    Enter,
    Tab,
    BackTab,
    Backspace,
    Left,
    Right,
    Up,
    Down,
    PageUp,
    PageDown,
    Home,
    End,
    Other,
}

/// A key press, repeat or release, with the modifiers held.
#[derive(Debug, Clone, Copy, PartialEq, Eq, Structural)]
pub struct KeyEvent {
    pub code: KeyCode,
    pub control: bool,
    pub alt: bool,
    pub super_key: bool,
    pub release: bool,
}

/// What the mouse did.
#[derive(Debug, Clone, Copy, PartialEq, Eq, Structural)]
pub enum MouseKind {
    LeftDown,
    RightDown,
    ScrollDown,
    ScrollUp,
    Other,
}

/// A mouse event at a cell.
#[derive(Debug, Clone, Copy, PartialEq, Eq, Structural)]
pub struct MouseEvent {
    pub kind: MouseKind,
    pub column: u16,
    pub row: u16,
}

/// An input of the terminal.
pub enum Event {
    Key(KeyEvent),
    Paste(String),
    Mouse(MouseEvent),
    Other,
}

/// Work that an input asks of the caller.
#[derive(Debug, Clone, Copy, PartialEq, Eq, Structural)]
pub enum Action {
    /// Nothing to do.
    Idle,
    /// Start the item at this index of `apps`.
    Launch(usize),
    /// Read the catalog again.
    Reload,
    /// Pin the item at this index to the desktop, or unpin it.
    TogglePin(usize),
    /// Replace the launcher with this program if it is on `PATH`.
    LaunchProgram(LapiProgram),
}

/// Double clicks are two clicks on one target within this many milliseconds.
pub const DOUBLE_CLICK_MS: u64 = 400;

/// The longest search, in characters.
pub const QUERY_LIMIT: usize = 256;

/// The state of the launcher.
pub struct App {
    pub config: Config,
    pub text: Translator,
    pub apps: Vec<Application>,
    pub filtered: Vec<usize>,
    pub desktop: Vec<usize>,
    pub recent: Vec<usize>,
    pub query: String,
    pub section: Section,
    pub selected: [usize; 3],
    pub offsets: [usize; 3],
    pub columns: [usize; 3],
    pub rows: [usize; 3],
    pub system: SystemInfo,
    pub expanded: [bool; 3],
    pub system_offsets: [usize; 3],
    pub system_rows: [usize; 3],
    pub system_focus: Option<usize>,
    pub content_scroll: u16,
    pub content_height: u16,
    pub content_viewport_height: u16,
    pub hits: Vec<Hit>,
    pub help: bool,
    pub context_menu: Option<usize>,
    pub quit: bool,
    pub next_program: Option<LapiProgram>,
    pub status: String,
    pub status_error: bool,
    pub history: History,
    pub matcher: Scorer,
    /// The last clicked item and the time of the click, in milliseconds.
    pub last_click: Option<(Target, u64)>,
}

pub open spec fn sat_sub(a: int, b: int) -> int {
    if a > b { a - b } else { 0 }
}

pub open spec fn min(a: int, b: int) -> int {
    if a < b { a } else { b }
}

/// `usize::saturating_add_signed`.
pub open spec fn sat_add_signed(a: int, change: int) -> int {
    if a + change < 0 { 0 } else if a + change > usize::MAX { usize::MAX as int } else { a + change }
}

fn saturating_add_signed(a: usize, change: isize) -> (r: usize)
    ensures
        r == sat_add_signed(a as int, change as int),
{
    let v: i128 = a as i128 + change as i128;
    if v < 0 {
        0
    } else if v > usize::MAX as i128 {
        usize::MAX
    } else {
        v as usize
    }
}

/// The indices of the items that are on the desktop, in order.
pub open spec fn desktop_of(apps: Seq<Application>) -> Seq<usize> {
    Seq::new(apps.len(), |i: int| i as usize).filter(|i: usize| i < apps.len() && apps[i as int].on_desktop)
}

/// The identifiers of the items.
pub open spec fn app_ids(apps: Seq<Application>) -> Seq<Seq<char>> {
    apps.map_values(|a: Application| a.id@)
}

/// The first position of `id` in `ids`.
pub open spec fn first_position(ids: Seq<Seq<char>>, id: Seq<char>) -> Option<int>
    decreases ids.len(),
{
    if ids.len() == 0 {
        None
    } else {
        match first_position(ids.drop_last(), id) {
            Some(i) => Some(i),
            None => if ids.last() == id { Some(ids.len() - 1) } else { None },
        }
    }
}

/// The items of the history that are in the catalog, in history order:
/// for each identifier, the first item that carries it.
pub open spec fn recent_of(history: Seq<Seq<char>>, ids: Seq<Seq<char>>) -> Seq<usize>
    decreases history.len(),
{
    if history.len() == 0 {
        Seq::empty()
    } else {
        let r = recent_of(history.drop_last(), ids);
        match first_position(ids, history.last()) {
            Some(i) => r.push(i as usize),
            None => r,
        }
    }
}

/// The ranking score of item `i`: the score of its search text plus twice
/// the score of its name (0 when the name does not match); `None` when
/// its search text does not match.
pub open spec fn ranking(apps: Seq<Application>, query: Seq<char>, i: int) -> Option<int> {
    match fuzzy_score(query, apps[i].search_text@) {
        Some(s) => Some(s + 2 * match fuzzy_score(query, apps[i].name@) {
            Some(n) => n as int,
            None => 0,
        }),
        None => None,
    }
}

/// Whether item `a` is listed before item `b`: a higher ranking first,
/// and the catalog order among equal rankings.
pub open spec fn ranks_before(apps: Seq<Application>, query: Seq<char>, a: int, b: int) -> bool {
    match (ranking(apps, query, a), ranking(apps, query, b)) {
        (Some(x), Some(y)) => x > y || (x == y && a < b),
        _ => false,
    }
}

/// `results` lists exactly the matching items, best first.
pub open spec fn ranked(results: Seq<usize>, apps: Seq<Application>, query: Seq<char>) -> bool {
    &&& forall|k: int| 0 <= k < results.len() ==> #[trigger] results[k] < apps.len() && ranking(apps, query, results[k] as int) is Some
    &&& forall|i: int| 0 <= i < apps.len() && (#[trigger] ranking(apps, query, i)) is Some ==> results.contains(i as usize)
    &&& forall|j: int, k: int| 0 <= j < k < results.len() ==> ranks_before(apps, query, #[trigger] results[j] as int, #[trigger] results[k] as int)
}

impl App {
    /// The items of a section, by index into `apps`.
    pub open spec fn indices_of(self, s: Section) -> Seq<usize> {
        match s {
            Section::Desktop => self.desktop@,
            Section::Recent => self.recent@,
            Section::Results => self.filtered@,
        }
    }

    pub open spec fn is_searching(self) -> bool {
        self.query@.len() > 0
    }

    /// The state after the search text became `query` in section `section`,
    /// with every list rebuilt: the desktop items, the ranked results of the
    /// trimmed search, the history items within the recent limit; selections
    /// and offsets back at 0, the results shown while searching, the desktop
    /// shown instead of empty results, and no pending double click.
    pub open spec fn refiltered(self, query: Seq<char>, section: Section, after: App) -> bool {
        &&& after.query@ == query
        &&& after == (App {
            query: after.query,
            desktop: after.desktop,
            filtered: after.filtered,
            recent: after.recent,
            selected: after.selected,
            offsets: after.offsets,
            section: after.section,
            last_click: None,
            matcher: after.matcher,
            ..self
        })
        &&& after.desktop@ == desktop_of(self.apps@)
        &&& ranked(after.filtered@, self.apps@, trim(query))
        &&& trim(query).len() == 0 ==> after.filtered@ == Seq::new(self.apps@.len(), |i: int| i as usize)
        &&& after.recent@ == recent_of(
            texts(self.history.recent@).take(min(self.config.launcher.recent_limit as int, self.history.recent@.len() as int)),
            app_ids(self.apps@),
        )
        &&& after.selected@ == seq![0usize, 0, 0]
        &&& after.offsets@ == seq![0usize, 0, 0]
        &&& after.section == (if query.len() > 0 { Section::Results } else if section == Section::Results {
            Section::Desktop
        } else {
            section
        })
    }

    /// Every item's texts fit the matcher: their UTF-8 encodings are at
    /// most `u32::MAX` bytes long.
    pub open spec fn texts_fit(apps: Seq<Application>) -> bool {
        forall|i: int| 0 <= i < apps.len() ==> encode_utf8((#[trigger] apps[i]).search_text@).len() <= 0xffff_ffff
            && encode_utf8(apps[i].name@).len() <= 0xffff_ffff
    }

    fn filter(&mut self)
        requires
            Self::texts_fit(old(self).apps@),
            old(self).query@.len() <= QUERY_LIMIT,
        ensures
            old(self).refiltered(old(self).query@, old(self).section, *final(self)),
    {
        let desktop = desktop_items(&self.apps);
        let query = trim_string(self.query.as_str());
        proof {
            crate::text::lemma_trim_len(self.query@);
        }
        let order = rank_items(&mut self.matcher, &self.apps, query.as_str());
        let recent = recent_items(&self.history, &self.apps, self.config.launcher.recent_limit);
        self.desktop = desktop;
        self.filtered = order;
        self.recent = recent;
        self.selected = [0, 0, 0];
        self.offsets = [0, 0, 0];
        assert(self.selected@ =~= seq![0usize, 0, 0]);
        assert(self.offsets@ =~= seq![0usize, 0, 0]);
        if self.query.as_str().unicode_len() > 0 {
            self.section = Section::Results;
        } else if self.section == Section::Results {
            self.section = Section::Desktop;
        }
        self.last_click = None;
    }
}

/// The indices of the desktop items.
fn desktop_items(apps_vec: &Vec<Application>) -> (r: Vec<usize>)
    ensures
        r@ == desktop_of(apps_vec@),
{
    let n = apps_vec.len();
    let ghost apps = apps_vec@;
    let ghost pred = |i: usize| i < apps.len() && apps[i as int].on_desktop;
    let ghost all = Seq::new(apps.len(), |i: int| i as usize);
    let mut desktop: Vec<usize> = Vec::new();
    let mut i: usize = 0;
    while i < n
        invariant
            n == apps.len(),
            apps == apps_vec@,
            0 <= i <= n,
            pred == (|i: usize| i < apps.len() && apps[i as int].on_desktop),
            all == Seq::new(apps.len(), |i: int| i as usize),
            desktop@ == all.take(i as int).filter(pred),
        decreases n - i,
    {
        proof {
            assert(all.take(i + 1) =~= all.take(i as int).push(i));
            all.take(i as int).lemma_filter_push(i, pred);
        }
        if apps_vec[i].on_desktop {
            desktop.push(i);
        }
        i += 1;
    }
    assert(all.take(n as int) =~= all);
    desktop
}

/// The matching items for `query`, best first.
#[verifier::spinoff_prover]
#[verifier::rlimit(40)]
fn rank_items(matcher: &mut Scorer, apps_vec: &Vec<Application>, query: &str) -> (r: Vec<usize>)
    requires
        App::texts_fit(apps_vec@),
        query@.len() <= QUERY_LIMIT,
    ensures
        ranked(r@, apps_vec@, query@),
        query@.len() == 0 ==> r@ == Seq::new(apps_vec@.len(), |i: int| i as usize),
{
    let n = apps_vec.len();
    let ghost apps = apps_vec@;
    let ghost q = query@;
    let mut order: Vec<usize> = Vec::new();
    let mut keys: Vec<u64> = Vec::new();
    let mut i: usize = 0;
    while i < n
        invariant
            n == apps.len(),
            apps == apps_vec@,
            App::texts_fit(apps),
            q == query@,
            q.len() <= QUERY_LIMIT,
            0 <= i <= n,
            order@.len() == keys@.len(),
            forall|k: int| 0 <= k < order@.len() ==> #[trigger] order@[k] < i && ranking(apps, q, order@[k] as int) == Some(keys@[k] as int),
            forall|j: int| 0 <= j < i && (#[trigger] ranking(apps, q, j)) is Some ==> order@.contains(j as usize),
            forall|j: int, k: int| 0 <= j < k < order@.len() ==> ranks_before(apps, q, #[trigger] order@[j] as int, #[trigger] order@[k] as int),
            q.len() == 0 ==> order@ == Seq::new(i as nat, |k: int| k as usize),
            q.len() == 0 ==> forall|k: int| 0 <= k < keys@.len() ==> #[trigger] keys@[k] == 0,
        decreases n - i,
    {
        let found = matcher.score(query, apps_vec[i].search_text.as_str());
        match found {
            Some(s) => {
                let named = matcher.score(query, apps_vec[i].name.as_str());
                let name_score: u64 = match named {
                    Some(v) => v as u64,
                    None => 0,
                };
                let total: u64 = s as u64 + 2 * name_score;
                assert(ranking(apps, q, i as int) == Some(total as int));
                let mut pos: usize = 0;
                while pos < keys.len() && keys[pos] >= total
                    invariant
                        order@.len() == keys@.len(),
                        0 <= pos <= keys@.len(),
                        forall|k: int| 0 <= k < pos ==> #[trigger] keys@[k] >= total,
                    decreases keys@.len() - pos,
                {
                    pos += 1;
                }
                proof {
                    // Keys never increase along the order.
                    assert forall|k: int| pos <= k < keys@.len() implies #[trigger] keys@[k] < total by {
                        if k > pos as int {
                            assert(ranks_before(apps, q, order@[pos as int] as int, order@[k] as int));
                        }
                    }
                }
                let ghost old_order = order@;
                let ghost old_keys = keys@;
                order.insert(pos, i);
                keys.insert(pos, total);
                proof {
                    if q.len() == 0 {
                        assert(total == 0);
                        assert(pos == old_keys.len());
                        assert(order@ =~= Seq::new((i + 1) as nat, |k: int| k as usize));
                    }
                    assert forall|k: int| 0 <= k < order@.len() implies #[trigger] order@[k] < i + 1 && ranking(apps, q, order@[k] as int) == Some(keys@[k] as int) by {
                        if k < pos { assert(order@[k] == old_order[k]); } else if k > pos { assert(order@[k] == old_order[k - 1]); }
                    }
                    assert forall|j: int| 0 <= j < i + 1 && (#[trigger] ranking(apps, q, j)) is Some implies order@.contains(j as usize) by {
                        if j == i {
                            assert(order@[pos as int] == i);
                        } else {
                            let k = choose|k: int| 0 <= k < old_order.len() && old_order[k] == j as usize;
                            if k < pos { assert(order@[k] == old_order[k]); } else { assert(order@[k + 1] == old_order[k]); }
                        }
                    }
                    assert forall|j: int, k: int| 0 <= j < k < order@.len() implies ranks_before(apps, q, #[trigger] order@[j] as int, #[trigger] order@[k] as int) by {
                        let oj = if j < pos { j } else { j - 1 };
                        let ok = if k < pos { k } else { k - 1 };
                        if j == pos {
                            assert(keys@[k] == old_keys[ok]);
                            assert(old_keys[ok] < total);
                        } else if k == pos {
                            assert(old_keys[oj] >= total);
                            assert(old_order[oj] < i);
                        } else {
                            assert(order@[j] == old_order[oj]);
                            assert(order@[k] == old_order[ok]);
                            assert(oj < ok);
                        }
                    }
                }
            },
            None => {
                assert(ranking(apps, q, i as int) is None);
            },
        }
        i += 1;
    }
    proof {
        if q.len() == 0 {
            assert(order@ =~= Seq::new(apps.len(), |k: int| k as usize));
        }
    }
    order
}

/// The history items that are in the catalog, for at most `limit` entries
/// of the history.
fn recent_items(history: &History, apps_vec: &Vec<Application>, limit: usize) -> (r: Vec<usize>)
    ensures
        r@ == recent_of(texts(history.recent@).take(min(limit as int, history.recent@.len() as int)), app_ids(apps_vec@)),
{
    let n = apps_vec.len();
    let ghost apps = apps_vec@;
    let count = if limit < history.recent.len() { limit } else { history.recent.len() };
    let ghost hist = texts(history.recent@).take(count as int);
    let ghost ids = app_ids(apps);
    let mut recent: Vec<usize> = Vec::new();
    let mut h: usize = 0;
    while h < count
        invariant
            n == apps.len(),
            apps == apps_vec@,
            ids == app_ids(apps),
            count <= history.recent@.len(),
            hist == texts(history.recent@).take(count as int),
            0 <= h <= count,
            recent@ == recent_of(hist.take(h as int), ids),
        decreases count - h,
    {
        assert(hist.take(h + 1).drop_last() =~= hist.take(h as int));
        assert(hist.take(h + 1).last() == history.recent@[h as int]@);
        let mut j: usize = 0;
        let mut found: Option<usize> = None;
        while j < n
            invariant
                n == apps.len(),
                apps == apps_vec@,
                ids == app_ids(apps),
                h < history.recent@.len(),
                0 <= j <= n,
                found is None ==> first_position(ids.take(j as int), history.recent@[h as int]@) is None,
                found matches Some(x) ==> first_position(ids, history.recent@[h as int]@) == Some(x as int),
            decreases n - j,
        {
            if found.is_none() {
                assert(ids.take(j + 1).drop_last() =~= ids.take(j as int));
                if str_equal(apps_vec[j].id.as_str(), history.recent[h].as_str()) {
                    proof {
                        lemma_first_position_extends(ids, history.recent@[h as int]@, j as int);
                    }
                    found = Some(j);
                }
            }
            j += 1;
        }
        if found.is_none() {
            assert(ids.take(n as int) =~= ids);
        }
        match found {
            Some(x) => {
                recent.push(x);
            },
            None => {},
        }
        h += 1;
    }
    assert(hist.take(count as int) =~= hist);
    recent
}

proof fn lemma_first_position_extends(ids: Seq<Seq<char>>, id: Seq<char>, j: int)
    requires
        0 <= j < ids.len(),
        first_position(ids.take(j), id) is None,
        ids[j] == id,
    ensures
        first_position(ids, id) == Some(j),
{
    assert(ids.take(j + 1).drop_last() =~= ids.take(j));
    lemma_first_position_prefix(ids, id, j + 1);
}

proof fn lemma_first_position_prefix(ids: Seq<Seq<char>>, id: Seq<char>, j: int)
    requires
        0 <= j <= ids.len(),
        first_position(ids.take(j), id) is Some,
    ensures
        first_position(ids, id) == first_position(ids.take(j), id),
    decreases ids.len() - j,
{
    if j < ids.len() {
        assert(ids.take(j + 1).drop_last() =~= ids.take(j));
        lemma_first_position_prefix(ids, id, j + 1);
    } else {
        assert(ids.take(j) =~= ids);
    }
}


/// The target of the topmost hit region that contains the cell, the last
/// drawn region winning.
pub open spec fn hit_target(hits: Seq<Hit>, column: u16, row: u16) -> Option<Target>
    decreases hits.len(),
{
    if hits.len() == 0 {
        None
    } else if hits.last().area.spec_contains(column, row) {
        Some(hits.last().target)
    } else {
        hit_target(hits.drop_last(), column, row)
    }
}

/// The last expanded system row.
pub open spec fn last_expanded(e: [bool; 3]) -> Option<usize> {
    if e[2] { Some(2usize) } else if e[1] { Some(1usize) } else if e[0] { Some(0usize) } else { None }
}

/// The pasted characters that are kept: the non-control ones, at most `room`.
pub open spec fn pasted(text: Seq<char>, room: int) -> Seq<char> {
    let kept = text.filter(|c: char| !is_control_char(c));
    if room < kept.len() { kept.take(room) } else { kept }
}

/// Whether a click on `target` at `now` completes a double click.
pub open spec fn is_double_click(last: Option<(Target, u64)>, target: Target, now: u64) -> bool {
    match last {
        Some((previous, time)) => previous == target && sat_sub(now as int, time as int) < DOUBLE_CLICK_MS,
        None => false,
    }
}

impl App {
    /// The invariant of the state: the item lists, the context menu and the
    /// system rows refer to what exists, every item's texts fit the
    /// matcher, the query stays within `QUERY_LIMIT` characters, and the
    /// grid sizes keep page moves within `isize`.
    pub open spec fn wf(self) -> bool {
        &&& Self::texts_fit(self.apps@)
        &&& self.query@.len() <= QUERY_LIMIT
        &&& forall|k: int| 0 <= k < self.desktop@.len() ==> #[trigger] self.desktop@[k] < self.apps@.len()
        &&& forall|k: int| 0 <= k < self.recent@.len() ==> #[trigger] self.recent@[k] < self.apps@.len()
        &&& forall|k: int| 0 <= k < self.filtered@.len() ==> #[trigger] self.filtered@[k] < self.apps@.len()
        &&& self.context_menu matches Some(i) ==> i < self.apps@.len()
        &&& self.system_focus matches Some(i) ==> i < 3
        &&& forall|k: int| 0 <= k < self.hits@.len() ==> match #[trigger] self.hits@[k].target {
            Target::System(i) => i < 3,
            Target::SystemDetails(i) => i < 3,
            _ => true,
        }
        &&& forall|k: int| 0 <= k < 3 ==> #[trigger] self.columns[k] <= isize::MAX
            && self.columns[k] * self.rows[k] <= isize::MAX
    }

    /// This state with the selection of section `i` at `v` and no pending
    /// double click.
    pub open spec fn with_selection(self, i: int, v: int) -> App {
        App { selected: spec_array_update(self.selected, i, v as usize), last_click: None, ..self }
    }

    /// The selection moved by `change`, within the items of the section.
    pub open spec fn moved(self, change: int) -> App {
        let i = section_index(self.section);
        let len = self.indices_of(self.section).len() as int;
        self.with_selection(i, min(sat_add_signed(self.selected[i] as int, change), sat_sub(len, 1)))
    }

    pub open spec fn max_scroll(self) -> int {
        sat_sub(self.content_height as int, self.content_viewport_height as int)
    }

    /// The home view scrolled by `change` rows, within its content.
    pub open spec fn content_scrolled(self, change: int) -> App {
        let v = if change < 0 {
            sat_sub(self.content_scroll as int, min(-change, 65535))
        } else {
            min(min(self.content_scroll + min(change, 65535), 65535), self.max_scroll())
        };
        App { content_scroll: v as u16, last_click: None, ..self }
    }

    /// System row `i` expanded or collapsed, its details back at the top;
    /// an expanded row takes the focus, a collapsed focused row hands it to
    /// the last expanded one.
    pub open spec fn system_toggled(self, i: int) -> App {
        let e = spec_array_update(self.expanded, i, !self.expanded[i]);
        App {
            expanded: e,
            system_offsets: spec_array_update(self.system_offsets, i, 0usize),
            system_focus: if e[i] { Some(i as usize) } else if self.system_focus == Some(i as usize) {
                last_expanded(e)
            } else {
                self.system_focus
            },
            ..self
        }
    }

    /// The details of expanded system row `i` scrolled by `change` within
    /// the rows they have; a collapsed row or one without visible rows is
    /// left alone.
    pub open spec fn system_scrolled(self, i: int, change: int) -> App {
        if !self.expanded[i] || self.system_rows[i] == 0 {
            self
        } else {
            let maximum = sat_sub(self.system.sections[i].details@.len() as int, self.system_rows[i] as int);
            App {
                system_focus: Some(i as usize),
                system_offsets: spec_array_update(
                    self.system_offsets,
                    i,
                    min(sat_add_signed(self.system_offsets[i] as int, change), maximum) as usize,
                ),
                ..self
            }
        }
    }

    /// The item that Enter opens: the selected one of the current section.
    pub open spec fn launch_action(self) -> Action {
        let list = self.indices_of(self.section);
        let sel = self.selected[section_index(self.section)] as int;
        if sel < list.len() { Action::Launch(list[sel]) } else { Action::Idle }
    }

    /// What a key does.
    pub open spec fn key_step(self, key: KeyEvent, after: App, action: Action) -> bool {
        let code = key.code;
        let s = section_index(self.section);
        let searching = self.is_searching();
        if key.release {
            after == self && action == Action::Idle
        } else if key.control && code == KeyCode::Char('c') {
            after == (App { quit: true, ..self }) && action == Action::Idle
        } else if self.help {
            action == Action::Idle && after == (if code == KeyCode::Esc || code == KeyCode::F(1)
                || code == KeyCode::Enter { App { help: false, ..self } } else { self })
        } else if self.context_menu is Some {
            if code == KeyCode::Esc {
                after == (App { context_menu: None, ..self }) && action == Action::Idle
            } else if code == KeyCode::Enter {
                after == self && action == Action::TogglePin(self.context_menu->0)
            } else {
                after == self && action == Action::Idle
            }
        } else {
            match code {
                KeyCode::Esc => action == Action::Idle && if searching {
                    self.refiltered(Seq::empty(), self.section, after)
                } else {
                    after == (App { quit: true, ..self })
                },
                KeyCode::F(n) => if n == 1 {
                    after == (App { help: true, ..self }) && action == Action::Idle
                } else if 2 <= n <= 4 {
                    after == self.system_toggled(n - 2) && action == Action::Idle
                } else if n == 5 {
                    after == self && action == Action::Reload
                } else {
                    after == self && action == Action::Idle
                },
                KeyCode::Tab => action == Action::Idle && after == (if searching { self.moved(1) } else {
                    App { section: if self.section == Section::Desktop { Section::Recent } else { Section::Desktop }, ..self }
                }),
                KeyCode::BackTab => action == Action::Idle && after == (if searching { self.moved(-1) } else {
                    App { section: if self.section == Section::Desktop { Section::Recent } else { Section::Desktop }, ..self }
                }),
                KeyCode::PageUp => action == Action::Idle && after == (if searching {
                    self.moved(-(self.columns[s] * self.rows[s]))
                } else {
                    self.content_scrolled(-6)
                }),
                KeyCode::PageDown => action == Action::Idle && after == (if searching {
                    self.moved(self.columns[s] * self.rows[s])
                } else {
                    self.content_scrolled(6)
                }),
                KeyCode::Left => action == Action::Idle && after == self.moved(-1),
                KeyCode::Right => action == Action::Idle && after == self.moved(1),
                KeyCode::Up => action == Action::Idle && after == (if key.control {
                    if !searching { self.content_scrolled(-1) } else if self.system_focus is Some {
                        self.system_scrolled(self.system_focus->0 as int, -1)
                    } else { self }
                } else {
                    self.moved(-self.columns[s])
                }),
                KeyCode::Down => action == Action::Idle && after == (if key.control {
                    if !searching { self.content_scrolled(1) } else if self.system_focus is Some {
                        self.system_scrolled(self.system_focus->0 as int, 1)
                    } else { self }
                } else {
                    self.moved(self.columns[s] as int)
                }),
                KeyCode::Home => action == Action::Idle && after == (App {
                    selected: spec_array_update(self.selected, s, 0usize), ..self }),
                KeyCode::End => action == Action::Idle && after == (App {
                    selected: spec_array_update(self.selected, s, sat_sub(self.indices_of(self.section).len() as int, 1) as usize),
                    ..self
                }),
                KeyCode::Enter => after == self && action == self.launch_action(),
                KeyCode::Backspace => action == Action::Idle && self.refiltered(
                    if searching { self.query@.drop_last() } else { self.query@ },
                    self.section,
                    after,
                ),
                KeyCode::Char(c) => action == Action::Idle && if key.control && (c == 'l' || c == 'u') {
                    self.refiltered(Seq::empty(), self.section, after)
                } else if !key.control && !key.alt && !key.super_key && self.query@.len() < QUERY_LIMIT
                    && !is_control_char(c) {
                    self.refiltered(self.query@.push(c), Section::Desktop, after)
                } else {
                    after == self
                },
                _ => after == self && action == Action::Idle,
            }
        }
    }

    /// What pasting `text` does: outside the help, the non-control
    /// characters join the search up to its limit and the lists are rebuilt.
    pub open spec fn paste_step(self, text: Seq<char>, after: App, action: Action) -> bool {
        action == Action::Idle && if self.help {
            after == self
        } else {
            self.refiltered(
                self.query@ + pasted(text, sat_sub(QUERY_LIMIT as int, self.query@.len() as int)),
                Section::Desktop,
                after,
            )
        }
    }

    /// What a left click on `target` at `now` does, outside the help and
    /// the context menu.
    pub open spec fn click_step(self, target: Option<Target>, now: u64, after: App, action: Action) -> bool {
        match target {
            Some(Target::System(i)) => after == (App { last_click: None, ..self.system_toggled(i as int) })
                && action == Action::Idle,
            Some(Target::SystemDetails(i)) => after == (App { system_focus: Some(i), last_click: None, ..self })
                && action == Action::Idle,
            Some(Target::Program(p)) => after == (App { last_click: None, ..self }) && action
                == Action::LaunchProgram(p),
            Some(Target::Section(sec)) => after == (App { section: sec, last_click: None, ..self })
                && action == Action::Idle,
            Some(Target::Search) => after == (App {
                section: if self.is_searching() { Section::Results } else { Section::Desktop },
                last_click: None,
                ..self
            }) && action == Action::Idle,
            Some(Target::App(sec, position)) => {
                let picked = App {
                    section: sec,
                    selected: spec_array_update(self.selected, section_index(sec), position),
                    ..self
                };
                if is_double_click(self.last_click, Target::App(sec, position), now) {
                    after == (App { last_click: None, ..picked }) && action == picked.launch_action()
                } else {
                    after == (App { last_click: Some((Target::App(sec, position), now)), ..picked })
                        && action == Action::Idle
                }
            },
            _ => after == (App { last_click: None, ..self }) && action == Action::Idle,
        }
    }

    /// What the mouse does.
    pub open spec fn mouse_step(self, mouse: MouseEvent, now: u64, after: App, action: Action) -> bool {
        let target = hit_target(self.hits@, mouse.column, mouse.row);
        if self.help {
            after == self && action == Action::Idle
        } else {
            match mouse.kind {
                MouseKind::LeftDown => if self.context_menu is Some {
                    if target == Some(Target::ContextAction) {
                        after == self && action == Action::TogglePin(self.context_menu->0)
                    } else {
                        after == (App { context_menu: None, ..self }) && action == Action::Idle
                    }
                } else {
                    self.click_step(target, now, after, action)
                },
                MouseKind::RightDown => action == Action::Idle && match target {
                    Some(Target::App(sec, position)) => {
                        let list = self.indices_of(sec);
                        if position < list.len() && self.apps@[list[position as int] as int].file is None {
                            after == (App { context_menu: Some(list[position as int]), last_click: None, ..self })
                        } else {
                            after == self
                        }
                    },
                    _ => after == self,
                },
                MouseKind::ScrollDown | MouseKind::ScrollUp => {
                    let direction: int = if mouse.kind == MouseKind::ScrollDown { 1 } else { -1 };
                    action == Action::Idle && if !self.is_searching() {
                        after == self.content_scrolled(direction)
                    } else {
                        match target {
                            Some(Target::System(i)) => after == self.system_scrolled(i as int, direction),
                            Some(Target::SystemDetails(i)) => after == self.system_scrolled(i as int, direction),
                            Some(Target::App(sec, _)) => {
                                let m = App { section: sec, ..self };
                                after == m.moved(direction * m.columns[section_index(sec)])
                            },
                            Some(Target::Section(sec)) => {
                                let m = App { section: sec, ..self };
                                after == m.moved(direction * m.columns[section_index(sec)])
                            },
                            _ => after == self.moved(direction * self.columns[section_index(self.section)]),
                        }
                    }
                },
                MouseKind::Other => after == self && action == Action::Idle,
            }
        }
    }
}


/// The target under the cell, the last drawn region winning.
fn find_target(hits: &Vec<Hit>, column: u16, row: u16) -> (r: Option<Target>)
    ensures
        r == hit_target(hits@, column, row),
{
    let mut k = hits.len();
    assert(hits@.take(k as int) =~= hits@);
    while k > 0
        invariant
            0 <= k <= hits@.len(),
            hit_target(hits@, column, row) == hit_target(hits@.take(k as int), column, row),
        decreases k,
    {
        let ghost t = hits@.take(k as int);
        assert(t.drop_last() =~= hits@.take(k - 1));
        assert(t.last() == hits@[k - 1]);
        if hits[k - 1].area.contains(column, row) {
            return Some(hits[k - 1].target);
        }
        k -= 1;
    }
    assert(hits@.take(0) =~= Seq::<Hit>::empty());
    None
}

proof fn lemma_pasted_step(text: Seq<char>, room: int, k: int)
    requires
        0 <= k < text.len(),
        room >= 0,
    ensures
        pasted(text.take(k + 1), room) == (if !is_control_char(text[k]) && pasted(text.take(k), room).len() < room {
            pasted(text.take(k), room).push(text[k])
        } else {
            pasted(text.take(k), room)
        }),
{
    let pred = |c: char| !is_control_char(c);
    assert(text.take(k + 1) =~= text.take(k).push(text[k]));
    text.take(k).lemma_filter_push(text[k], pred);
    let f = text.take(k).filter(pred);
    if pred(text[k]) {
        if f.len() < room {
            assert(f.push(text[k]) =~= (if room < f.len() + 1 { f.push(text[k]).take(room) } else { f.push(text[k]) }));
        } else {
            assert(f.push(text[k]).take(room) =~= f.take(room));
            if room == f.len() {
                assert(f.take(room) =~= f);
            }
        }
    }
}

impl App {
    /// Starts with the catalog and history; the status reports skipped
    /// entries or that the launcher is ready.
    pub fn new(config: Config, catalog: Catalog, history: History, system: SystemInfo, text: Translator) -> (r: App)
        requires
            App::texts_fit(catalog.apps@),
        ensures
            r.wf(),
            r.apps@ == catalog.apps@,
            r.query@.len() == 0,
            r.section == Section::Desktop,
            r.desktop@ == desktop_of(catalog.apps@),
            ranked(r.filtered@, catalog.apps@, Seq::empty()),
            r.recent@ == recent_of(
                texts(history.recent@).take(min(config.launcher.recent_limit as int, history.recent@.len() as int)),
                app_ids(catalog.apps@),
            ),
            r.status@ == (if catalog.skipped > 0 {
                if text.spanish() { "Se omitieron "@ + crate::text::decimal(catalog.skipped as nat) + " accesos inválidos"@ }
                else { "Skipped "@ + crate::text::decimal(catalog.skipped as nat) + " invalid entries"@ }
            } else if text.spanish() { "Listo para abrir aplicaciones"@ } else { "Ready to open applications"@ }),
            !r.status_error,
            !r.quit,
            !r.help,
            r.next_program is None,
            r.context_menu is None,
            r.system_focus is None,
            r.hits@.len() == 0,
            r.selected@ == seq![0usize, 0, 0],
            r.columns@ == seq![1usize, 1, 1],
            r.rows@ == seq![1usize, 1, 1],
            r.expanded@ == seq![false, false, false],
            r.content_scroll == 0,
    {
        let status = if catalog.skipped > 0 {
            text.skipped_entries(catalog.skipped)
        } else {
            crate::text::owned(text.ready())
        };
        let mut app = App {
            config,
            text,
            apps: catalog.apps,
            filtered: Vec::new(),
            desktop: Vec::new(),
            recent: Vec::new(),
            query: String::new(),
            section: Section::Desktop,
            selected: [0, 0, 0],
            offsets: [0, 0, 0],
            columns: [1, 1, 1],
            rows: [1, 1, 1],
            system,
            expanded: [false, false, false],
            system_offsets: [0, 0, 0],
            system_rows: [0, 0, 0],
            system_focus: None,
            content_scroll: 0,
            content_height: 0,
            content_viewport_height: 0,
            hits: Vec::new(),
            help: false,
            context_menu: None,
            quit: false,
            next_program: None,
            status,
            status_error: false,
            history,
            matcher: Scorer::new(),
            last_click: None,
        };
        app.filter();
        proof {
            lemma_lists_in_range(&app);
            assert(app.columns@ =~= seq![1usize, 1, 1]);
            assert(app.rows@ =~= seq![1usize, 1, 1]);
            assert(app.expanded@ =~= seq![false, false, false]);
            assert(trim(Seq::<char>::empty()) =~= Seq::<char>::empty());
            assert(App::texts_fit(app.apps@));
            assert(app.hits@.len() == 0);
            assert forall|k: int| 0 <= k < 3 implies #[trigger] app.columns[k] <= isize::MAX
                && app.columns[k] * app.rows[k] <= isize::MAX by {
                assert(app.columns[k] == 1 && app.rows[k] == 1);
            }
        }
        app
    }

    /// The items of a section, by index into `apps`.
    pub fn indices(&self, section: Section) -> (r: &[usize])
        ensures
            r@ == self.indices_of(section),
    {
        match section {
            Section::Desktop => self.desktop.as_slice(),
            Section::Recent => self.recent.as_slice(),
            Section::Results => self.filtered.as_slice(),
        }
    }

    /// Whether there is a search.
    pub fn searching(&self) -> (r: bool)
        ensures
            r == self.is_searching(),
    {
        !self.query.as_str().is_empty()
    }

    /// Records the height of the home view's content and of its viewport,
    /// and keeps the scroll position within the content.
    pub fn set_content_view(&mut self, content_height: u16, viewport_height: u16)
        ensures
            *final(self) == (App {
                content_height,
                content_viewport_height: viewport_height,
                content_scroll: min(old(self).content_scroll as int, sat_sub(content_height as int, viewport_height as int)) as u16,
                ..*old(self)
            }),
    {
        self.content_height = content_height;
        self.content_viewport_height = viewport_height;
        let maximum = self.maximum_content_scroll();
        if maximum < self.content_scroll {
            self.content_scroll = maximum;
        }
    }

    fn maximum_content_scroll(&self) -> (r: u16)
        ensures
            r == self.max_scroll(),
    {
        if self.content_height > self.content_viewport_height {
            self.content_height - self.content_viewport_height
        } else {
            0
        }
    }

    fn move_selection(&mut self, change: isize)
        ensures
            *final(self) == old(self).moved(change as int),
    {
        let i = self.section.index();
        let len = self.indices(self.section).len();
        let v = saturating_add_signed(self.selected[i], change);
        let cap = if len > 0 { len - 1 } else { 0 };
        self.selected[i] = if v < cap { v } else { cap };
        self.last_click = None;
        assert(self.selected =~= spec_array_update(old(self).selected, i as int, (if v < cap { v } else { cap })));
    }

    fn scroll_content(&mut self, change: isize)
        ensures
            *final(self) == old(self).content_scrolled(change as int),
    {
        let maximum = self.maximum_content_scroll();
        if change < 0 {
            let magnitude: u16 = if change < -65535 { 65535 } else { (-change) as u16 };
            self.content_scroll = if self.content_scroll > magnitude { self.content_scroll - magnitude } else { 0 };
        } else {
            let amount: u16 = if change > 65535 { 65535 } else { change as u16 };
            let sum: u16 = if self.content_scroll as u32 + amount as u32 > 65535 { 65535 } else { self.content_scroll + amount };
            self.content_scroll = if sum < maximum { sum } else { maximum };
        }
        self.last_click = None;
    }

    fn toggle_system(&mut self, index: usize)
        requires
            index < 3,
        ensures
            *final(self) == old(self).system_toggled(index as int),
    {
        let now_expanded = !self.expanded[index];
        self.expanded[index] = now_expanded;
        self.system_offsets[index] = 0;
        assert(self.expanded =~= spec_array_update(old(self).expanded, index as int, now_expanded));
        assert(self.system_offsets =~= spec_array_update(old(self).system_offsets, index as int, 0usize));
        if now_expanded {
            self.system_focus = Some(index);
        } else if self.system_focus == Some(index) {
            self.system_focus = if self.expanded[2] { Some(2) } else if self.expanded[1] { Some(1) } else if self.expanded[0] {
                Some(0) } else { None };
        }
    }

    fn scroll_system(&mut self, index: usize, change: isize)
        requires
            index < 3,
        ensures
            *final(self) == old(self).system_scrolled(index as int, change as int),
    {
        if !self.expanded[index] || self.system_rows[index] == 0 {
            return;
        }
        self.system_focus = Some(index);
        let details = self.system.sections[index].details.len();
        let maximum = if details > self.system_rows[index] { details - self.system_rows[index] } else { 0 };
        let v = saturating_add_signed(self.system_offsets[index], change);
        self.system_offsets[index] = if v < maximum { v } else { maximum };
        assert(self.system_offsets =~= spec_array_update(old(self).system_offsets, index as int, (if v < maximum { v } else { maximum })));
    }

    fn launch_target(&self) -> (r: Action)
        ensures
            r == self.launch_action(),
    {
        let list = self.indices(self.section);
        let sel = self.selected[self.section.index()];
        if sel < list.len() {
            Action::Launch(list[sel])
        } else {
            Action::Idle
        }
    }
}

proof fn lemma_recent_in_range(history: Seq<Seq<char>>, ids: Seq<Seq<char>>)
    ensures
        forall|k: int| 0 <= k < recent_of(history, ids).len() ==> #[trigger] recent_of(history, ids)[k] < ids.len(),
    decreases history.len(),
{
    if history.len() > 0 {
        lemma_recent_in_range(history.drop_last(), ids);
        lemma_first_position_range(ids, history.last());
        let r = recent_of(history.drop_last(), ids);
        assert forall|k: int| 0 <= k < recent_of(history, ids).len() implies #[trigger] recent_of(history, ids)[k] < ids.len() by {
            if k < r.len() {
                assert(recent_of(history, ids)[k] == r[k]);
            }
        }
    }
}

proof fn lemma_first_position_range(ids: Seq<Seq<char>>, id: Seq<char>)
    ensures
        first_position(ids, id) matches Some(i) ==> 0 <= i < ids.len(),
    decreases ids.len(),
{
    if ids.len() > 0 {
        lemma_first_position_range(ids.drop_last(), id);
    }
}

proof fn lemma_desktop_in_range(apps: Seq<Application>)
    ensures
        forall|k: int| 0 <= k < desktop_of(apps).len() ==> #[trigger] desktop_of(apps)[k] < apps.len(),
{
    let pred = |i: usize| i < apps.len() && apps[i as int].on_desktop;
    let all = Seq::new(apps.len(), |i: int| i as usize);
    assert forall|k: int| 0 <= k < desktop_of(apps).len() implies #[trigger] desktop_of(apps)[k] < apps.len() by {
        all.lemma_filter_pred(pred, k);
    }
}

/// After a rebuild every list refers to an existing item.
proof fn lemma_lists_in_range(app: &App)
    requires
        app.desktop@ == desktop_of(app.apps@),
        ranked(app.filtered@, app.apps@, trim(app.query@)),
        app.recent@ == recent_of(
            texts(app.history.recent@).take(min(app.config.launcher.recent_limit as int, app.history.recent@.len() as int)),
            app_ids(app.apps@),
        ),
    ensures
        forall|k: int| 0 <= k < app.desktop@.len() ==> #[trigger] app.desktop@[k] < app.apps@.len(),
        forall|k: int| 0 <= k < app.recent@.len() ==> #[trigger] app.recent@[k] < app.apps@.len(),
        forall|k: int| 0 <= k < app.filtered@.len() ==> #[trigger] app.filtered@[k] < app.apps@.len(),
{
    lemma_desktop_in_range(app.apps@);
    lemma_recent_in_range(
        texts(app.history.recent@).take(min(app.config.launcher.recent_limit as int, app.history.recent@.len() as int)),
        app_ids(app.apps@),
    );
}


impl App {
    fn handle_key(&mut self, key: KeyEvent) -> (action: Action)
        requires
            old(self).wf(),
        ensures
            old(self).key_step(key, *final(self), action),
    {
        let code = key.code;
        if key.release {
            return Action::Idle;
        }
        if key.control && code == KeyCode::Char('c') {
            self.quit = true;
            return Action::Idle;
        }
        if self.help {
            if code == KeyCode::Esc || code == KeyCode::F(1) || code == KeyCode::Enter {
                self.help = false;
            }
            return Action::Idle;
        }
        if let Some(index) = self.context_menu {
            if code == KeyCode::Esc {
                self.context_menu = None;
                return Action::Idle;
            } else if code == KeyCode::Enter {
                return Action::TogglePin(index);
            }
            return Action::Idle;
        }
        let s = self.section.index();
        let searching = self.searching();
        match code {
            KeyCode::Esc => {
                if !searching {
                    self.quit = true;
                } else {
                    self.query = String::new();
                    self.filter();
                }
            },
            KeyCode::F(n) => {
                if n == 1 {
                    self.help = true;
                } else if 2 <= n && n <= 4 {
                    self.toggle_system((n - 2) as usize);
                } else if n == 5 {
                    return Action::Reload;
                }
            },
            KeyCode::Tab | KeyCode::BackTab => {
                if searching {
                    self.move_selection(if code == KeyCode::Tab { 1 } else { -1 });
                } else {
                    self.section = if self.section == Section::Desktop { Section::Recent } else { Section::Desktop };
                }
            },
            KeyCode::PageUp | KeyCode::PageDown => {
                if searching {
                    let page = (self.columns[s] * self.rows[s]) as isize;
                    self.move_selection(if code == KeyCode::PageUp { -page } else { page });
                } else {
                    self.scroll_content(if code == KeyCode::PageUp { -6 } else { 6 });
                }
            },
            KeyCode::Left => self.move_selection(-1),
            KeyCode::Right => self.move_selection(1),
            KeyCode::Up | KeyCode::Down => {
                let step: isize = if code == KeyCode::Up { -1 } else { 1 };
                if key.control {
                    if !searching {
                        self.scroll_content(step);
                    } else if let Some(index) = self.system_focus {
                        self.scroll_system(index, step);
                    }
                } else {
                    let columns = self.columns[s] as isize;
                    self.move_selection(if code == KeyCode::Up { -columns } else { columns });
                }
            },
            KeyCode::Home => {
                self.selected[s] = 0;
                assert(self.selected =~= spec_array_update(old(self).selected, s as int, 0usize));
            },
            KeyCode::End => {
                let len = self.indices(self.section).len();
                let last = if len > 0 { len - 1 } else { 0 };
                self.selected[s] = last;
                assert(self.selected =~= spec_array_update(old(self).selected, s as int, last));
            },
            KeyCode::Enter => {
                return self.launch_target();
            },
            KeyCode::Backspace => {
                let _ = pop_char(&mut self.query);
                self.filter();
            },
            KeyCode::Char(c) => {
                if key.control && (c == 'l' || c == 'u') {
                    self.query = String::new();
                    self.filter();
                } else if !key.control && !key.alt && !key.super_key && self.query.as_str().unicode_len() < QUERY_LIMIT
                    && !is_control(c) {
                    push_char(&mut self.query, c);
                    self.section = Section::Desktop;
                    self.filter();
                }
            },
            _ => {},
        }
        Action::Idle
    }

    fn handle_paste(&mut self, text: String) -> (action: Action)
        requires
            old(self).wf(),
        ensures
            old(self).paste_step(text@, *final(self), action),
    {
        if self.help {
            return Action::Idle;
        }
        let count = self.query.as_str().unicode_len();
        let room: usize = if count < QUERY_LIMIT { QUERY_LIMIT - count } else { 0 };
        let characters = chars_of(text.as_str());
        let ghost start = self.query@;
        let mut taken: usize = 0;
        let mut k: usize = 0;
        assert(pasted(text@.take(0), room as int) =~= Seq::<char>::empty()) by {
            assert(text@.take(0) =~= Seq::<char>::empty());
            reveal_with_fuel(Seq::filter, 1);
        }
        while k < characters.len()
            invariant
                characters@ == text@,
                0 <= k <= characters@.len(),
                self.query@ == start + pasted(text@.take(k as int), room as int),
                taken == pasted(text@.take(k as int), room as int).len(),
                self.help == old(self).help,
                *self == (App { query: self.query, ..*old(self) }),
            decreases characters@.len() - k,
        {
            proof {
                lemma_pasted_step(text@, room as int, k as int);
            }
            let c = characters[k];
            if !is_control(c) && taken < room {
                push_char(&mut self.query, c);
                taken += 1;
            }
            k += 1;
        }
        assert(text@.take(k as int) =~= text@);
        self.section = Section::Desktop;
        self.filter();
        Action::Idle
    }

    fn handle_mouse(&mut self, mouse: MouseEvent, now: u64) -> (action: Action)
        requires
            old(self).wf(),
        ensures
            old(self).mouse_step(mouse, now, *final(self), action),
    {
        if self.help {
            return Action::Idle;
        }
        let target = find_target(&self.hits, mouse.column, mouse.row);
        match mouse.kind {
            MouseKind::LeftDown => {
                if let Some(index) = self.context_menu {
                    if target == Some(Target::ContextAction) {
                        return Action::TogglePin(index);
                    }
                    self.context_menu = None;
                    return Action::Idle;
                }
                let mut action = Action::Idle;
                match target {
                    Some(Target::System(index)) => {
                        proof { lemma_hit_target_in(self.hits@, mouse.column, mouse.row); }
                        self.toggle_system(index);
                    },
                    Some(Target::SystemDetails(index)) => {
                        self.system_focus = Some(index);
                    },
                    Some(Target::Program(program)) => {
                        action = Action::LaunchProgram(program);
                    },
                    Some(Target::Section(section)) => {
                        self.section = section;
                    },
                    Some(Target::Search) => {
                        self.section = if self.searching() { Section::Results } else { Section::Desktop };
                    },
                    Some(Target::App(section, position)) => {
                        self.section = section;
                        let i = section.index();
                        self.selected[i] = position;
                        assert(self.selected =~= spec_array_update(old(self).selected, i as int, position));
                        let double = match self.last_click {
                            Some((previous, time)) => previous == Target::App(section, position) && (if now > time {
                                now - time } else { 0 }) < DOUBLE_CLICK_MS,
                            None => false,
                        };
                        if double {
                            action = self.launch_target();
                            self.last_click = None;
                        } else {
                            self.last_click = Some((Target::App(section, position), now));
                        }
                        return action;
                    },
                    _ => {},
                }
                self.last_click = None;
                action
            },
            MouseKind::RightDown => {
                if let Some(Target::App(section, position)) = target {
                    let list = self.indices(section);
                    if position < list.len() {
                        let index = list[position];
                        proof { lemma_indices_in_range(self, section); }
                        if self.apps[index].file.is_none() {
                            self.context_menu = Some(index);
                            self.last_click = None;
                        }
                    }
                }
                Action::Idle
            },
            MouseKind::ScrollDown | MouseKind::ScrollUp => {
                let direction: isize = if mouse.kind == MouseKind::ScrollDown { 1 } else { -1 };
                if !self.searching() {
                    self.scroll_content(direction);
                } else {
                    proof { lemma_hit_target_in(self.hits@, mouse.column, mouse.row); }
                    match target {
                        Some(Target::System(index)) => self.scroll_system(index, direction),
                        Some(Target::SystemDetails(index)) => self.scroll_system(index, direction),
                        _ => {
                            match target {
                                Some(Target::App(section, _)) => { self.section = section; },
                                Some(Target::Section(section)) => { self.section = section; },
                                _ => {},
                            }
                            let columns = self.columns[self.section.index()] as isize;
                            self.move_selection(direction * columns);
                        },
                    }
                }
                Action::Idle
            },
            MouseKind::Other => Action::Idle,
        }
    }

    /// Applies one input at time `now` (in milliseconds) and returns the
    /// work it asks for (see `key_step`, `paste_step` and `mouse_step`).
    pub fn handle(&mut self, event: Event, now: u64) -> (action: Action)
        requires
            old(self).wf(),
        ensures
            match event {
                Event::Key(key) => old(self).key_step(key, *final(self), action),
                Event::Paste(text) => old(self).paste_step(text@, *final(self), action),
                Event::Mouse(mouse) => old(self).mouse_step(mouse, now, *final(self), action),
                Event::Other => *final(self) == *old(self) && action == Action::Idle,
            },
    {
        match event {
            Event::Key(key) => self.handle_key(key),
            Event::Paste(text) => self.handle_paste(text),
            Event::Mouse(mouse) => self.handle_mouse(mouse, now),
            Event::Other => Action::Idle,
        }
    }
}

proof fn lemma_hit_target_in(hits: Seq<Hit>, column: u16, row: u16)
    ensures
        hit_target(hits, column, row) matches Some(t) ==> exists|k: int| 0 <= k < hits.len() && hits[k].target == t,
    decreases hits.len(),
{
    if hits.len() > 0 {
        lemma_hit_target_in(hits.drop_last(), column, row);
        if !hits.last().area.spec_contains(column, row) {
            if let Some(t) = hit_target(hits, column, row) {
                let k = choose|k: int| 0 <= k < hits.drop_last().len() && hits.drop_last()[k].target == t;
                assert(hits[k].target == t);
            }
        } else {
            assert(hits[hits.len() - 1].target == hits.last().target);
        }
    }
}

proof fn lemma_indices_in_range(app: &App, section: Section)
    requires
        app.wf(),
    ensures
        forall|k: int| 0 <= k < app.indices_of(section).len() ==> #[trigger] app.indices_of(section)[k] < app.apps@.len(),
{
}


/// One input applied to a state (see `App::handle`).
pub open spec fn step(before: App, event: Event, now: u64, after: App, action: Action) -> bool {
    match event {
        Event::Key(key) => before.key_step(key, after, action),
        Event::Paste(text) => before.paste_step(text@, after, action),
        Event::Mouse(mouse) => before.mouse_step(mouse, now, after, action),
        Event::Other => after == before && action == Action::Idle,
    }
}

/// The action names an existing item when it names one.
pub open spec fn action_in_range(action: Action, apps: Seq<Application>) -> bool {
    match action {
        Action::Launch(i) => i < apps.len(),
        Action::TogglePin(i) => i < apps.len(),
        _ => true,
    }
}

impl App {
    /// This state with another catalog.
    pub open spec fn with_apps(self, apps: Vec<Application>) -> App {
        App { apps: apps, ..self }
    }

    /// Reports an error in the status line.
    pub fn error(&mut self, message: String)
        ensures
            *final(self) == (App { status: message, status_error: true, ..*old(self) }),
    {
        self.status = message;
        self.status_error = true;
    }

    /// Replaces the launcher with `program` when it is available, and
    /// otherwise reports that it is missing and keeps the launcher running.
    pub fn select_lapi_program(&mut self, program: LapiProgram, available: bool)
        ensures
            available ==> *final(self) == (App { next_program: Some(program), quit: true, ..*old(self) }),
            !available ==> final(self).status@ == (if old(self).text.spanish() {
                "No se encontró "@ + program_command(program) + " en PATH; Lapi Launcher sigue activo"@
            } else {
                program_command(program) + " was not found in PATH; Lapi Launcher remains active"@
            }) && *final(self) == (App { status: final(self).status, status_error: true, ..*old(self) }),
    {
        if available {
            self.next_program = Some(program);
            self.quit = true;
        } else {
            let message = self.text.program_missing(program.command());
            self.error(message);
        }
    }

    /// Records that item `index` was started: it goes first in the history
    /// and the status says it is opening.
    pub fn record_launch(&mut self, index: usize)
        requires
            index < old(self).apps@.len(),
        ensures
            texts(final(self).history.recent@) == crate::history::recorded(
                texts(old(self).history.recent@),
                old(self).apps@[index as int].id@,
                old(self).config.launcher.recent_limit as nat,
            ),
            final(self).status@ == (if old(self).text.spanish() { "Abriendo "@ } else { "Opening "@ })
                + old(self).apps@[index as int].name@,
            *final(self) == (App { history: final(self).history, status: final(self).status, status_error: false, ..*old(self) }),
    {
        let limit = self.config.launcher.recent_limit;
        self.history.record(self.apps[index].id.as_str(), limit);
        self.status = self.text.opening(self.apps[index].name.as_str());
        self.status_error = false;
    }

    /// Finishes a start after the history was saved (`save_error` holds
    /// the failure, if any): the lists are rebuilt with the selections
    /// kept, the recent selection back at its first item, and the launcher
    /// quits when configured to and nothing failed.
    pub fn finish_launch(&mut self, save_error: Option<String>)
        requires
            old(self).wf(),
        ensures
            final(self).wf(),
            exists|rebuilt: App| #[trigger] old(self).refiltered(old(self).query@, old(self).section, rebuilt)
                && *final(self) == (App {
                selected: spec_array_update(old(self).selected, 1, 0usize),
                status: final(self).status,
                status_error: final(self).status_error,
                quit: final(self).quit,
                ..rebuilt
            }),
            final(self).status@ == (match save_error { Some(e) => e@, None => old(self).status@ }),
            final(self).status_error == (save_error is Some || old(self).status_error),
            final(self).quit == (old(self).config.launcher.close_on_launch && !final(self).status_error),
    {
        let selection = self.selected;
        self.filter();
        let ghost rebuilt = *self;
        self.selected = selection;
        self.selected[1] = 0;
        assert(self.selected =~= spec_array_update(old(self).selected, 1, 0usize));
        if let Some(e) = save_error {
            self.error(e);
        }
        self.quit = self.config.launcher.close_on_launch && !self.status_error;
        proof {
            lemma_lists_in_range(&rebuilt);
            assert(old(self).refiltered(old(self).query@, old(self).section, rebuilt));
        }
    }

    /// Reports that item `index` could not be started.
    pub fn launch_failed(&mut self, index: usize)
        requires
            index < old(self).apps@.len(),
        ensures
            final(self).status@ == (if old(self).text.spanish() { "No se pudo abrir "@ } else { "Could not open "@ })
                + old(self).apps@[index as int].name@,
            *final(self) == (App { status: final(self).status, status_error: true, ..*old(self) }),
    {
        let message = self.text.cannot_open(self.apps[index].name.as_str());
        self.error(message);
    }

    /// Takes a freshly read catalog, or reports why it could not be read.
    pub fn finish_reload(&mut self, result: Result<Vec<Application>, String>)
        requires
            old(self).wf(),
            old(self).context_menu is None,
            result matches Ok(apps) ==> App::texts_fit(apps@),
        ensures
            final(self).wf(),
            match result {
                Ok(apps) => exists|rebuilt: App| #[trigger] old(self).with_apps(apps).refiltered(old(self).query@, old(self).section, rebuilt)
                    && *final(self) == (App { status: final(self).status, status_error: false, ..rebuilt })
                    && final(self).status@ == (if old(self).text.spanish() { "Aplicaciones actualizadas"@ } else {
                    "Applications updated"@ }),
                Err(e) => *final(self) == (App { status: e, status_error: true, ..*old(self) }),
            },
    {
        match result {
            Ok(apps) => {
                self.apps = apps;
                self.filter();
                let ghost rebuilt = *self;
                self.status = crate::text::owned(self.text.applications_updated());
                self.status_error = false;
                proof {
                    lemma_lists_in_range(&rebuilt);
                }
            },
            Err(e) => self.error(e),
        }
    }
}


impl App {
    /// Finishes pinning or unpinning the item of the context menu: the new
    /// catalog is taken and the status names the item, or the failure is
    /// reported; the menu closes either way.
    pub fn finish_pin(&mut self, result: Result<Vec<Application>, String>)
        requires
            old(self).wf(),
            old(self).context_menu is Some,
            result matches Ok(apps) ==> App::texts_fit(apps@),
        ensures
            final(self).wf(),
            match result {
                Ok(apps) => exists|rebuilt: App| #[trigger] old(self).with_apps(apps).refiltered(old(self).query@, old(self).section, rebuilt)
                    && *final(self) == (App { status: final(self).status, status_error: false, context_menu: None, ..rebuilt })
                    && final(self).status@ == (if old(self).text.spanish() { "Escritorio actualizado: "@ } else {
                    "Desktop updated: "@ }) + old(self).apps@[old(self).context_menu->0 as int].name@,
                Err(e) => *final(self) == (App { status: e, status_error: true, context_menu: None, ..*old(self) }),
            },
    {
        let index = match self.context_menu {
            Some(i) => i,
            None => 0,
        };
        let name = self.apps[index].name.clone();
        match result {
            Ok(apps) => {
                self.apps = apps;
                self.context_menu = None;
                let ghost closed = *self;
                self.filter();
                let ghost rebuilt = *self;
                self.status = self.text.desktop_updated(name.as_str());
                self.status_error = false;
                proof {
                    lemma_lists_in_range(&rebuilt);
                    assert(closed.refiltered(closed.query@, closed.section, rebuilt));
                    let r2 = App { context_menu: old(self).context_menu, ..rebuilt };
                    assert(old(self).with_apps(apps).refiltered(old(self).query@, old(self).section, r2));
                }
            },
            Err(e) => {
                self.error(e);
                self.context_menu = None;
            },
        }
    }
}

proof fn lemma_refiltered_wf(before: App, query: Seq<char>, section: Section, after: App)
    requires
        before.wf(),
        before.refiltered(query, section, after),
        after.query@.len() <= QUERY_LIMIT,
    ensures
        after.wf(),
{
    lemma_lists_in_range(&after);
}

/// Every input keeps the invariant of the state, and the work it asks for
/// names an existing item.
pub proof fn lemma_step_keeps_wf(before: App, event: Event, now: u64, after: App, action: Action)
    requires
        before.wf(),
        step(before, event, now, after, action),
    ensures
        after.wf(),
        action_in_range(action, after.apps@),
{
    lemma_step_keeps_query_limit(before, event, now, after, action);
    match event {
        Event::Key(key) => {
            if !key.release && !(key.control && key.code == KeyCode::Char('c')) && !before.help && before.context_menu is None {
                let s = section_index(before.section);
                match key.code {
                    KeyCode::Esc => if before.is_searching() { lemma_refiltered_wf(before, Seq::empty(), before.section, after); },
                    KeyCode::Backspace => {
                        let q = if before.is_searching() { before.query@.drop_last() } else { before.query@ };
                        lemma_refiltered_wf(before, q, before.section, after);
                    },
                    KeyCode::Char(c) => {
                        if key.control && (c == 'l' || c == 'u') {
                            lemma_refiltered_wf(before, Seq::empty(), before.section, after);
                        } else if !key.control && !key.alt && !key.super_key && before.query@.len() < QUERY_LIMIT
                            && !is_control_char(c) {
                            lemma_refiltered_wf(before, before.query@.push(c), Section::Desktop, after);
                        }
                    },
                    KeyCode::Enter => {
                        let list = before.indices_of(before.section);
                        let sel = before.selected[s] as int;
                        if sel < list.len() {
                            assert(list[sel] < before.apps@.len());
                        }
                    },
                    _ => {},
                }
            }
        },
        Event::Paste(text) => {
            if !before.help {
                lemma_refiltered_wf(
                    before,
                    before.query@ + pasted(text@, sat_sub(QUERY_LIMIT as int, before.query@.len() as int)),
                    Section::Desktop,
                    after,
                );
            }
        },
        Event::Mouse(mouse) => {
            let target = hit_target(before.hits@, mouse.column, mouse.row);
            lemma_hit_target_in(before.hits@, mouse.column, mouse.row);
            if let Some(t) = target {
                let k = choose|k: int| 0 <= k < before.hits@.len() && before.hits@[k].target == t;
                assert(match before.hits@[k].target { Target::System(i) => i < 3, Target::SystemDetails(i) => i < 3, _ => true });
            }
            if !before.help && mouse.kind == MouseKind::LeftDown && before.context_menu is None {
                if let Some(Target::App(sec, position)) = target {
                    let picked = App {
                        section: sec,
                        selected: spec_array_update(before.selected, section_index(sec), position),
                        ..before
                    };
                    let list = picked.indices_of(picked.section);
                    let sel = picked.selected[section_index(picked.section)] as int;
                    if sel < list.len() {
                        assert(list[sel] < before.apps@.len());
                    }
                }
            }
            if !before.help && mouse.kind == MouseKind::RightDown {
                if let Some(Target::App(sec, position)) = target {
                    let list = before.indices_of(sec);
                    if position < list.len() {
                        assert(list[position as int] < before.apps@.len());
                    }
                }
            }
        },
        Event::Other => {},
    }
}

/// The search never grows past its limit of characters.
pub proof fn lemma_step_keeps_query_limit(before: App, event: Event, now: u64, after: App, action: Action)
    requires
        before.query@.len() <= QUERY_LIMIT,
        step(before, event, now, after, action),
    ensures
        after.query@.len() <= QUERY_LIMIT,
{
    match event {
        Event::Paste(text) => {
            if !before.help {
                let room = sat_sub(QUERY_LIMIT as int, before.query@.len() as int);
                let kept = text@.filter(|c: char| !is_control_char(c));
                assert(pasted(text@, room).len() <= room);
            }
        },
        _ => {},
    }
}

} // verus!
