//! The dashboard the server paints, and the rules that fit it to the
//! 1600×1200 panel: how many calendar rows, to-do pills, school rows,
//! history facts and which joke fit each column.

use vstd::prelude::*;
use crate::text::{
    parse_i32, parse_i32_exec, chars_of, end_char, find_ws, first_ws, line_at, lines, push_char, skip_ws, string_in,
    trim, trim_char_end, trim_end, trim_range, trim_start, words, find_char, is_ws, strip_cr,
};

verus! {

#[derive(Debug, Clone, PartialEq, Eq)]
pub struct CalendarEvent {
    pub start: String,
    pub title: String,
    pub all_day: bool,
    pub day_label: String,
    /// Local `YYYY-MM-DD` so Today / Coming next stay in chronological order.
    pub date: String,
    /// Config birthdays, merged into Today / Coming next.
    pub birthday: bool,
    /// Pronote school-day hours, merged into Today and the next school day.
    pub school: bool,
    /// ICS series (`RRULE` / `RDATE` / `RECURRENCE-ID`). One-off family events
    /// stay `false` so the time column can use a different fill.
    pub recurring: bool,
    /// Wandsworth food & recycling, merged into one calendar row.
    pub bin: bool,
}

/// Today/week title column is ~570px (half of 1600 − padding − time − gaps)
/// at 33px Atkinson, ~17px per character → ~33 glyphs.
pub const EVENT_TITLE_MAX_CHARS: usize = 33;

/// How far ahead to pull events for Coming next.
pub const EVENT_HORIZON_DAYS: i64 = 180;

/// Config birthdays are merged into the calendar this far ahead (inclusive).
pub const BIRTHDAY_HORIZON_DAYS: i64 = 14;

/// Pixel budget for the stacked Today + Coming next column on the 1600×1200
/// panel. Keep in sync with `dashboard.css`.
pub const EVENTS_COLUMN_PX: i32 = 990;
pub const SECTION_HEAD_PX: i32 = 48;
pub const EVENT_ROW_PX: i32 = 60;
/// Minimum gap between Today and Coming next.
pub const SECTION_GAP_PX: i32 = 60;
pub const EMPTY_SECTION_BODY_PX: i32 = 54;

/// Right-hand columns (same grid row as events). Keep in sync with `dashboard.css`.
pub const SIDEBAR_PX: i32 = 1008;
pub const SIDEBAR_GAP_PX: i32 = 28;
pub const TUBE_ROW_PX: i32 = 44;
pub const COMING_ROW_PX: i32 = 44;
pub const SCHOOL_ROW_PX: i32 = 44;
pub const ROOM_ROW_PX: i32 = 44;
/// Wikipedia pool; the panel then keeps only facts that fit leftover height.
pub const HISTORY_POOL: usize = 12;
pub const MAX_HISTORY_FACTS: usize = 5;
pub const HISTORY_MAX_LINES: usize = 3;
/// 16px TRMNL16 at `line-height: 20px`.
pub const HISTORY_LINE_PX: i32 = 20;
pub const HISTORY_ITEM_PAD_Y: i32 = 12;
pub const HISTORY_ITEM_BORDER_PX: i32 = 2;
pub const HISTORY_YEAR_PX: i32 = 92;
pub const HISTORY_TEXT_GAP_PX: i32 = 12;
/// Conservative 16px TRMNL16 (~0.6em). Prefer skipping a fact to clipping.
pub const HISTORY_CHAR_PX: i32 = 10;
pub const MAX_HOMEWORK_ROWS: usize = 8;
pub const MAX_GRADE_ROWS: usize = 8;
/// Compact “+ N other todos” line under the pills (margin + height).
pub const TODOS_MORE_PX: i32 = 36;
/// One quarter of the 1600px panel (sidebar half of a 2×2).
pub const SIDEBAR_QUARTER_PX: i32 = 362;
/// Full sidebar inner width (two quarters + the 24px pair gap).
pub const SIDEBAR_INNER_PX: i32 = 748;
pub const TODO_PILL_PAD_X: i32 = 24;
pub const TODO_PILL_BORDER_X: i32 = 4;
/// Conservative 21px TRMNL21 bold (~0.65em).
pub const TODO_PILL_CHAR_PX: i32 = 15;
pub const TODO_PILL_ROW_PX: i32 = 37;
pub const TODO_PILL_GAP_PX: i32 = 8;
pub const TODO_PILL_TOP_PX: i32 = 10;
pub const HISTORY_TEXT_MAX_PX: i32 = 644;
/// 21px TRMNL21 at `line-height: 26px`. Prefer skipping a joke to clipping.
pub const JOKE_LINE_PX: i32 = 26;
pub const JOKE_PAD_TOP_PX: i32 = 10;
pub const JOKE_PUNCH_GAP_PX: i32 = 4;
pub const JOKE_MAX_LINES: usize = 6;
pub const JOKE_CHAR_PX: i32 = 15;
pub const JOKE_TEXT_MAX_PX: i32 = 362;
/// Pronote week grid (`.week-grid` margin-top, day label, one row per time band).
pub const WEEK_GRID_TOP_PX: i32 = 8;
pub const WEEK_DAY_LABEL_PX: i32 = 22;
pub const WEEK_SLOT_PX: i32 = 18;

/// Pixel height of `today_count` Today rows.
pub open spec fn today_body_px(today_count: nat) -> int {
    if today_count == 0 {
        EMPTY_SECTION_BODY_PX as int
    } else if today_count * EVENT_ROW_PX > i32::MAX {
        i32::MAX as int
    } else {
        today_count * EVENT_ROW_PX
    }
}

/// Coming next rows that fit under `today_count` Today rows.
pub open spec fn coming_capacity(today_count: nat) -> nat {
    let leftover = EVENTS_COLUMN_PX - SECTION_HEAD_PX - today_body_px(today_count) - SECTION_GAP_PX
        - SECTION_HEAD_PX;
    if leftover < COMING_ROW_PX {
        0
    } else {
        (leftover / COMING_ROW_PX as int) as nat
    }
}

/// How many Coming next rows fit under Today on the 13.3″ panel.
pub fn coming_event_capacity(today_count: usize) -> (r: usize)
    requires
        today_count <= i32::MAX,
    ensures
        r == coming_capacity(today_count as nat),
{
    let n = today_count as i32;
    let today_body: i32 = if today_count == 0 {
        EMPTY_SECTION_BODY_PX
    } else if n > i32::MAX / EVENT_ROW_PX {
        i32::MAX
    } else {
        n * EVENT_ROW_PX
    };
    let leftover = EVENTS_COLUMN_PX - SECTION_HEAD_PX - today_body - SECTION_GAP_PX - SECTION_HEAD_PX;
    if leftover < COMING_ROW_PX {
        0
    } else {
        (leftover / COMING_ROW_PX) as usize
    }
}

/// Today rows that still leave Coming next a heading plus one row.
pub open spec fn today_limit() -> nat {
    ((EVENTS_COLUMN_PX - SECTION_HEAD_PX - (SECTION_GAP_PX + SECTION_HEAD_PX + COMING_ROW_PX))
        / EVENT_ROW_PX as int) as nat
}

/// Today is first, but always leave Coming next a heading plus one row.
pub fn max_today_events() -> (r: usize)
    ensures
        r == today_limit(),
{
    let reserved = SECTION_GAP_PX + SECTION_HEAD_PX + COMING_ROW_PX;
    let body = EVENTS_COLUMN_PX - SECTION_HEAD_PX - reserved;
    (body / EVENT_ROW_PX) as usize
}

/// The first line of `s`, as `str::lines` yields it, or nothing.
pub open spec fn first_line(s: Seq<char>) -> Seq<char> {
    if lines(s).len() == 0 {
        Seq::empty()
    } else {
        lines(s)[0]
    }
}

/// A calendar title on one line: the first line, trimmed; past
/// [`EVENT_TITLE_MAX_CHARS`] characters it is cut, trailing spaces dropped,
/// and an ellipsis added.
pub open spec fn event_title_of(title: Seq<char>) -> Seq<char> {
    let t = trim(first_line(title));
    if t.len() <= EVENT_TITLE_MAX_CHARS {
        t
    } else {
        trim_char_end(t.take(EVENT_TITLE_MAX_CHARS - 1), ' ').push('…')
    }
}

pub fn truncate_event_title(title: &str) -> (r: String)
    ensures
        r@ == event_title_of(title@),
{
    let v = chars_of(title);
    let n = v.len();
    if n == 0 {
        assert(lines(title@) =~= Seq::<Seq<char>>::empty());
        assert(trim_start(Seq::<char>::empty()) =~= Seq::<char>::empty());
        return String::new();
    }
    let (end, _next) = line_at(&v, 0);
    assert(v@.subrange(0, n as int) =~= v@);
    let (i, j) = trim_range(&v, 0, end);
    if j - i <= EVENT_TITLE_MAX_CHARS {
        return string_in(&v, i, j);
    }
    let k = end_char(&v, ' ', i, i + (EVENT_TITLE_MAX_CHARS - 1));
    let mut out = string_in(&v, i, k);
    push_char(&mut out, '…');
    proof {
        let t = v@.subrange(i as int, j as int);
        assert(t.take(EVENT_TITLE_MAX_CHARS - 1) =~= v@.subrange(i as int, i + EVENT_TITLE_MAX_CHARS - 1));
    }
    out
}

#[derive(Debug, Clone, PartialEq, Eq)]
pub struct TodoItem {
    pub title: String,
    pub done: bool,
}

#[derive(Debug, Clone, PartialEq, Eq)]
pub struct RoomClimate {
    pub name: String,
    pub temperature: String,
    pub humidity: String,
    pub online: bool,
}

#[derive(Debug, Clone, PartialEq, Eq)]
pub struct WeatherSlot {
    pub period: String,
    pub icon: String,
    pub temperature: String,
    pub summary: String,
}

#[derive(Debug, Clone, PartialEq, Eq)]
pub struct WeatherDay {
    pub label: String,
    pub slots: Vec<WeatherSlot>,
    pub sunrise: String,
    pub sunset: String,
    pub pollen: String,
    /// CSS class: `low`, `moderate`, `high`, or empty when unknown.
    pub pollen_level: String,
}

#[derive(Debug, Clone, PartialEq, Eq, Default)]
pub struct Weather {
    pub location: String,
    pub days: Vec<WeatherDay>,
}

#[derive(Debug, Clone, PartialEq, Eq)]
pub struct StatusLine {
    pub id: String,
    pub name: String,
    pub status: String,
    /// CSS class: `good`, `delay`, or `severe`.
    pub severity: String,
    /// Spectra 6 colour class: `black`, `yellow`, `green`, or `blue`.
    pub colour: String,
}

/// Pronote homework and recent grades for the two school quarter-sections.
#[derive(Debug, Clone, PartialEq, Eq, Default)]
pub struct School {
    /// Child or student first name as Pronote shows it.
    pub student: String,
    /// Period average, for example `14.2`. Empty when Pronote has none.
    pub average: String,
    pub homework: Vec<SchoolItem>,
    pub grades: Vec<SchoolItem>,
    /// First and last lesson today and on the next school day.
    pub days: Vec<SchoolDay>,
    /// Monday–Friday timetable for the sidebar week grid.
    pub week: SchoolWeek,
}

impl School {
    /// The school sections have something to show.
    pub open spec fn visible(&self) -> bool {
        self.homework@.len() > 0 || self.grades@.len() > 0 || self.student@.len() > 0
            || self.average@.len() > 0 || self.days@.len() > 0
    }

    pub fn is_visible(&self) -> (r: bool)
        ensures
            r == self.visible(),
    {
        self.homework.len() > 0 || self.grades.len() > 0 || !self.student.as_str().is_empty()
            || !self.average.as_str().is_empty() || self.days.len() > 0
    }
}

#[derive(Debug, Clone, PartialEq, Eq)]
pub struct SchoolDay {
    pub date: String,
    pub start: String,
    pub end: String,
}

#[derive(Debug, Clone, PartialEq, Eq, Default)]
pub struct SchoolWeek {
    /// `School - This week`, or `School - Next week` on Saturday and Sunday.
    pub title: String,
    pub days: Vec<SchoolWeekDay>,
    /// Unique lesson start times for the left-hand axis.
    pub times: Vec<SchoolWeekTime>,
    /// One row per start time.
    pub bands: i32,
}

#[derive(Debug, Clone, PartialEq, Eq)]
pub struct SchoolWeekTime {
    pub label: String,
    /// CSS `grid-row` (day headers occupy row 1).
    pub row: i32,
    /// Unused: the axis shows start times only.
    pub end: bool,
}

#[derive(Debug, Clone, PartialEq, Eq)]
pub struct SchoolWeekDay {
    pub label: String,
    pub today: bool,
    /// CSS `grid-column` (time axis is column 1).
    pub col: i32,
    pub lessons: Vec<SchoolLesson>,
}

#[derive(Debug, Clone, PartialEq, Eq)]
pub struct SchoolLesson {
    pub subject: String,
    /// Pronote `CouleurFond` hex, darkened for the chip background.
    pub colour: String,
    /// Always `#ffffff` so the subject stays readable on the darkened chip.
    pub ink: String,
    /// Inclusive CSS `grid-row` start (day headers occupy row 1).
    pub row_start: i32,
    /// Exclusive CSS `grid-row` end.
    pub row_end: i32,
}

#[derive(Debug, Clone, PartialEq, Eq)]
pub struct SchoolItem {
    pub when: String,
    pub subject: String,
    /// Grade mark, for example `15.5/20`. Empty on homework rows.
    pub detail: String,
    /// CSS class for a grade: `high`, `mid`, `low`, or empty.
    pub level: String,
}

#[derive(Debug, Clone, PartialEq, Eq)]
pub struct HistoryFact {
    pub year: String,
    pub text: String,
}

#[derive(Debug, Clone, PartialEq, Eq, Default)]
pub struct Joke {
    pub setup: String,
    pub punchline: String,
}

/// `low` below 25 %, else `ok`.
pub open spec fn level_of(pct: u16) -> Seq<char> {
    if pct < 25 {
        "low"@
    } else {
        "ok"@
    }
}

pub fn battery_level(pct: u16) -> (r: &'static str)
    ensures
        r@ == level_of(pct),
{
    if pct < 25 {
        "low"
    } else {
        "ok"
    }
}


/// Longest text, in characters, that the layout rules measure. The pixel
/// sums are `i32` as on the panel; with at most this many characters (or
/// list entries) at a few dozen pixels each they stay far below `i32::MAX`
/// (2 147 483 647), so no sum can overflow. A dashboard past it could not be
/// painted anyway: the panel is 800 pixels tall.
pub const TEXT_LIMIT: usize = 10_000_000;

/// `a * b` saturated at `i32::MAX` (for non-negative operands).
pub open spec fn sat_mul(a: int, b: int) -> int {
    if a * b > i32::MAX {
        i32::MAX as int
    } else {
        a * b
    }
}

/// Rendered width of a word of `n` characters, at least one character wide.
pub open spec fn word_px(n: nat, char_px: int) -> int {
    if sat_mul(n as int, char_px) < char_px {
        char_px
    } else {
        sat_mul(n as int, char_px)
    }
}

/// Greedy word wrap, one word: `(lines, x)` after placing a word `w` pixels wide.
/// A word wider than the line is broken into line-sized chunks.
pub open spec fn wrap_step(lines: nat, x: int, w: int, max_px: int, char_px: int) -> (nat, int) {
    if w > max_px {
        let l = if x > 0 {
            lines + 1
        } else {
            lines
        };
        let chunks = (w + max_px - 1) / max_px;
        ((l + chunks - 1) as nat, w % max_px)
    } else {
        let need = if x == 0 {
            w
        } else {
            char_px + w
        };
        if x > 0 && x + need > max_px {
            (lines + 1, w)
        } else {
            (lines, x + need)
        }
    }
}

/// Lines used after wrapping the words `ws`, from `(lines, x)`.
pub open spec fn wrap_fold(ws: Seq<Seq<char>>, lines: nat, x: int, max_px: int, char_px: int) -> nat
    decreases ws.len(),
{
    if ws.len() == 0 {
        lines
    } else {
        let st = wrap_step(lines, x, word_px(ws[0].len(), char_px), max_px, char_px);
        wrap_fold(ws.drop_first(), st.0, st.1, max_px, char_px)
    }
}

/// Lines `text` wraps to in a column `max_px` wide at `char_px` per character.
pub open spec fn wrap_lines(text: Seq<char>, max_px: int, char_px: int) -> nat {
    if text.len() == 0 || max_px <= 0 || char_px <= 0 {
        0
    } else {
        wrap_fold(words(text), 1, 0, max_px, char_px)
    }
}

/// The words of `v[p..n]` are the word at `[a, b)` and the words after `b`.
proof fn lemma_next_word(v: Seq<char>, p: int, a: int, b: int)
    requires
        0 <= p <= a < b <= v.len(),
        trim_start(v.subrange(p, v.len() as int)) == v.subrange(a, v.len() as int),
        b - a == first_ws(v.subrange(a, v.len() as int)),
    ensures
        words(v.subrange(p, v.len() as int)) == seq![v.subrange(a, b)] + words(
            v.subrange(b, v.len() as int),
        ),
{
    let t = v.subrange(a, v.len() as int);
    assert(t.take(b - a) =~= v.subrange(a, b));
    assert(t.skip(b - a) =~= v.subrange(b, v.len() as int));
}

fn wrap_line_count(text: &str, max_px: i32, char_px: i32) -> (r: usize)
    requires
        text@.len() <= TEXT_LIMIT,
        max_px <= 1000,
        char_px <= 16,
    ensures
        r == wrap_lines(text@, max_px as int, char_px as int),
        r <= 1 + 17 * text@.len(),
{
    let v = chars_of(text);
    let n = v.len();
    if n == 0 || max_px <= 0 || char_px <= 0 {
        return 0;
    }
    let ghost all = words(v@);
    assert(v@.subrange(0, n as int) =~= v@);
    let mut lines: usize = 1;
    let mut x: i32 = 0;
    let mut p: usize = 0;
    while p < n
        invariant
            n == v@.len(),
            v@ == text@,
            n <= TEXT_LIMIT,
            0 < max_px <= 1000,
            0 < char_px <= 16,
            p <= n,
            0 <= x <= max_px,
            1 <= lines <= 1 + 17 * p,
            wrap_fold(all, 1, 0, max_px as int, char_px as int) == wrap_fold(
                words(v@.subrange(p as int, n as int)),
                lines as nat,
                x as int,
                max_px as int,
                char_px as int,
            ),
            all == words(v@),
        ensures
            p == n,
            1 <= lines <= 1 + 17 * n,
            0 <= x <= max_px,
            wrap_fold(all, 1, 0, max_px as int, char_px as int) == wrap_fold(
                words(v@.subrange(p as int, n as int)),
                lines as nat,
                x as int,
                max_px as int,
                char_px as int,
            ),
        decreases n - p,
    {
        let a = skip_ws(&v, p, n);
        if a == n {
            assert(trim_start(v@.subrange(p as int, n as int)).len() == 0);
            assert(words(v@.subrange(p as int, n as int)) =~= Seq::<Seq<char>>::empty());
            p = n;
            assert(v@.subrange(p as int, n as int) =~= Seq::<char>::empty());
            assert(words(Seq::<char>::empty()) =~= Seq::<Seq<char>>::empty());
            break;
        }
        let b = find_ws(&v, a, n);
        proof {
            crate::text::lemma_first_ws(v@.subrange(a as int, n as int));
            crate::text::lemma_trim_start_not_ws(v@.subrange(p as int, n as int));
            assert(v@.subrange(a as int, n as int)[0] == v@[a as int]);
            lemma_next_word(v@, p as int, a as int, b as int);
        }
        let count = (b - a) as i32;
        assert(count * char_px <= 16 * count) by (nonlinear_arith)
            requires
                0 < char_px <= 16,
                count > 0,
        ;
        assert(count * char_px >= char_px) by (nonlinear_arith)
            requires
                0 < char_px,
                count >= 1,
        ;
        let w: i32 = count * char_px;
        assert(w == word_px((b - a) as nat, char_px as int));
        if w > max_px {
            let mut l = lines;
            if x > 0 {
                l = l + 1;
            }
            let chunks = ((w + max_px - 1) / max_px) as usize;
            assert(chunks <= w) by (nonlinear_arith)
                requires
                    w > max_px,
                    max_px > 0,
                    chunks == (w + max_px - 1) / (max_px as int),
            ;
            assert(chunks >= 1) by (nonlinear_arith)
                requires
                    w > max_px,
                    max_px > 0,
                    chunks == (w + max_px - 1) / (max_px as int),
            ;
            lines = l + (chunks - 1);
            x = w % max_px;
        } else {
            let need = if x == 0 {
                w
            } else {
                char_px + w
            };
            if x > 0 && x + need > max_px {
                lines = lines + 1;
                x = w;
            } else {
                x = x + need;
            }
        }
        assert(seq![v@.subrange(a as int, b as int)].add(words(v@.subrange(b as int, n as int))).drop_first() =~= words(v@.subrange(b as int, n as int)));
        p = b;
    }
    assert(v@.subrange(p as int, n as int) =~= Seq::<char>::empty());
    assert(words(Seq::<char>::empty()) =~= Seq::<Seq<char>>::empty());
    lines
}


/// Longest list the layout rules measure; the bound keeps every `i32`
/// pixel sum of the sidebar clear of overflow (see [`TEXT_LIMIT`]).
pub const LIST_LIMIT: usize = 10_000_000;

/// Height of a sidebar block: heading plus `rows` rows, or the empty-section note.
pub open spec fn block_px(rows: nat, row_px: int) -> int {
    SECTION_HEAD_PX + if rows == 0 {
        EMPTY_SECTION_BODY_PX as int
    } else {
        sat_mul(rows as int, row_px)
    }
}

fn sidebar_block_px(rows: usize, row_px: i32) -> (r: i32)
    requires
        rows <= LIST_LIMIT,
        0 < row_px <= 44,
    ensures
        r == block_px(rows as nat, row_px as int),
        SECTION_HEAD_PX <= r <= SECTION_HEAD_PX + 44 * LIST_LIMIT + EMPTY_SECTION_BODY_PX,
{
    if rows == 0 {
        SECTION_HEAD_PX + EMPTY_SECTION_BODY_PX
    } else {
        let n = rows as i32;
        assert(n * row_px <= 44 * LIST_LIMIT) by (nonlinear_arith)
            requires
                0 < n <= LIST_LIMIT,
                0 < row_px <= 44,
        ;
        assert(n * row_px > 0) by (nonlinear_arith)
            requires
                0 < n,
                0 < row_px,
        ;
        SECTION_HEAD_PX + n * row_px
    }
}

/// Rows of `row_px` that fit below a heading in `section_px`.
pub open spec fn rows_in(section_px: int, row_px: int) -> nat {
    let body = section_px - SECTION_HEAD_PX;
    if body < row_px {
        0
    } else {
        (body / row_px) as nat
    }
}

fn max_rows_in(section_px: i32, row_px: i32) -> (r: usize)
    requires
        section_px >= 0,
        row_px > 0,
    ensures
        r == rows_in(section_px as int, row_px as int),
{
    let body = section_px - SECTION_HEAD_PX;
    if body < row_px {
        0
    } else {
        (body / row_px) as usize
    }
}

/// `v` clamped into `[lo, hi]`.
pub open spec fn clamp(v: int, lo: int, hi: int) -> int {
    if v < lo {
        lo
    } else if v > hi {
        hi
    } else {
        v
    }
}

/// Width of a to-do pill, at most one line wide.
pub open spec fn pill_w(t: TodoItem, wrap_px: int) -> int {
    clamp(
        TODO_PILL_PAD_X + TODO_PILL_BORDER_X + sat_mul(t.title@.len() as int, TODO_PILL_CHAR_PX as int),
        1,
        wrap_px,
    )
}

fn todo_pill_width(title: &str, wrap_px: i32) -> (r: i32)
    requires
        title@.len() <= TEXT_LIMIT,
        1 <= wrap_px,
    ensures
        r == clamp(
            TODO_PILL_PAD_X + TODO_PILL_BORDER_X + sat_mul(title@.len() as int, TODO_PILL_CHAR_PX as int),
            1,
            wrap_px as int,
        ),
        1 <= r <= wrap_px,
{
    let n = chars_of(title).len() as i32;
    let text = n * TODO_PILL_CHAR_PX;
    let w = TODO_PILL_PAD_X + TODO_PILL_BORDER_X + text;
    if w < 1 {
        1
    } else if w > wrap_px {
        wrap_px
    } else {
        w
    }
}

/// Greedy pill packing, one pill: `(rows, x)` after placing a pill `w` wide.
pub open spec fn pill_step(rows: int, x: int, w: int, wrap_px: int) -> (int, int) {
    if rows == 0 || x + TODO_PILL_GAP_PX + w > wrap_px {
        (rows + 1, w)
    } else {
        (rows, x + TODO_PILL_GAP_PX + w)
    }
}

/// Rows and last-row width after packing the pills of `ts`, left to right.
pub open spec fn pill_layout(ts: Seq<TodoItem>, wrap_px: int) -> (int, int)
    decreases ts.len(),
{
    if ts.len() == 0 {
        (0, 0)
    } else {
        let p = pill_layout(ts.drop_last(), wrap_px);
        pill_step(p.0, p.1, pill_w(ts.last(), wrap_px), wrap_px)
    }
}

/// Height of `rows` rows of pills under the section heading.
pub open spec fn pills_px(rows: int) -> int {
    TODO_PILL_TOP_PX + rows * TODO_PILL_ROW_PX + (rows - 1) * TODO_PILL_GAP_PX
}

/// The longest prefix of `ts` whose pills fit `body_px`.
pub open spec fn todos_fit(ts: Seq<TodoItem>, body_px: int, wrap_px: int) -> nat
    decreases ts.len(),
{
    if ts.len() == 0 {
        0
    } else if pills_px(pill_layout(ts, wrap_px).0) <= body_px {
        ts.len()
    } else {
        todos_fit(ts.drop_last(), body_px, wrap_px)
    }
}

/// Height of the to-do body: the pills, or the empty-section note.
pub open spec fn todos_body(ts: Seq<TodoItem>, wrap_px: int) -> int {
    if ts.len() == 0 {
        EMPTY_SECTION_BODY_PX as int
    } else {
        pills_px(pill_layout(ts, wrap_px).0)
    }
}

/// Height of the to-do block: heading, body, and the "+ N other todos" line.
pub open spec fn todos_block(ts: Seq<TodoItem>, more: nat, wrap_px: int) -> int {
    SECTION_HEAD_PX + todos_body(ts, wrap_px) + if more > 0 {
        TODOS_MORE_PX as int
    } else {
        0
    }
}

/// Every title is short enough to measure.
pub open spec fn titles_ok(ts: Seq<TodoItem>) -> bool {
    forall|i: int| 0 <= i < ts.len() ==> (#[trigger] ts[i]).title@.len() <= TEXT_LIMIT
}

proof fn lemma_pill_layout_bounds(ts: Seq<TodoItem>, wrap_px: int)
    requires
        1 <= wrap_px,
    ensures
        0 <= pill_layout(ts, wrap_px).0 <= ts.len(),
        ts.len() > 0 ==> 1 <= pill_layout(ts, wrap_px).0,
        0 <= pill_layout(ts, wrap_px).1 <= wrap_px,
    decreases ts.len(),
{
    if ts.len() > 0 {
        lemma_pill_layout_bounds(ts.drop_last(), wrap_px);
    }
}

/// Once a prefix overflows, every longer prefix does too.
proof fn lemma_todos_fit_stops(ts: Seq<TodoItem>, k: int, body_px: int, wrap_px: int)
    requires
        1 <= wrap_px,
        0 <= k < ts.len(),
        k == 0 || pills_px(pill_layout(ts.take(k), wrap_px).0) <= body_px,
        pills_px(pill_layout(ts.take(k + 1), wrap_px).0) > body_px,
    ensures
        todos_fit(ts, body_px, wrap_px) == k,
    decreases ts.len(),
{
    if ts.len() == k + 1 {
        assert(ts.take(k + 1) =~= ts);
        assert(ts.drop_last() =~= ts.take(k));
        lemma_fit_prefix(ts.take(k), body_px, wrap_px);
    } else {
        lemma_pill_rows_grow(ts, k + 1, ts.len() as int, wrap_px);
        assert(ts.take(ts.len() as int) =~= ts);
        assert(ts.drop_last().take(k) =~= ts.take(k));
        assert(ts.drop_last().take(k + 1) =~= ts.take(k + 1));
        lemma_todos_fit_stops(ts.drop_last(), k, body_px, wrap_px);
    }
}

/// A prefix that fits is its own longest fitting prefix.
proof fn lemma_fit_prefix(ts: Seq<TodoItem>, body_px: int, wrap_px: int)
    requires
        ts.len() == 0 || pills_px(pill_layout(ts, wrap_px).0) <= body_px,
    ensures
        todos_fit(ts, body_px, wrap_px) == ts.len(),
{
}

/// Rows never decrease as pills are added.
proof fn lemma_pill_rows_grow(ts: Seq<TodoItem>, a: int, b: int, wrap_px: int)
    requires
        1 <= wrap_px,
        0 <= a <= b <= ts.len(),
    ensures
        pill_layout(ts.take(a), wrap_px).0 <= pill_layout(ts.take(b), wrap_px).0,
    decreases b - a,
{
    if a < b {
        lemma_pill_rows_grow(ts, a, b - 1, wrap_px);
        assert(ts.take(b).drop_last() =~= ts.take(b - 1));
    }
}

/// How many leading to-dos wrap into `body_px` below the section heading.
fn todos_fitting_in(todos: &[TodoItem], body_px: i32, wrap_px: i32) -> (r: usize)
    requires
        todos@.len() <= LIST_LIMIT,
        titles_ok(todos@),
        1 <= wrap_px <= 1000,
    ensures
        r == todos_fit(todos@, body_px as int, wrap_px as int),
        r <= todos@.len(),
{
    let n = todos.len();
    let ghost ts = todos@;
    if body_px < TODO_PILL_TOP_PX + TODO_PILL_ROW_PX {
        if n > 0 {
            proof {
                lemma_pill_layout_bounds(ts.take(1), wrap_px as int);
                assert(ts.take(0) =~= Seq::<TodoItem>::empty());
                lemma_todos_fit_stops(ts, 0, body_px as int, wrap_px as int);
            }
        }
        return 0;
    }
    let mut rows: i32 = 0;
    let mut x: i32 = 0;
    let mut shown: usize = 0;
    assert(ts.take(0) =~= Seq::<TodoItem>::empty());
    while shown < n
        invariant
            n == ts.len(),
            ts == todos@,
            n <= LIST_LIMIT,
            titles_ok(ts),
            1 <= wrap_px <= 1000,
            body_px >= TODO_PILL_TOP_PX + TODO_PILL_ROW_PX,
            shown <= n,
            (rows as int, x as int) == pill_layout(ts.take(shown as int), wrap_px as int),
            0 <= rows <= shown,
            0 <= x <= wrap_px,
            shown == 0 || pills_px(rows as int) <= body_px,
        ensures
            shown <= n,
            shown == n ==> (rows as int, x as int) == pill_layout(ts.take(shown as int), wrap_px as int),
            shown == n ==> (shown == 0 || pills_px(rows as int) <= body_px),
            shown < n ==> shown == todos_fit(ts, body_px as int, wrap_px as int),
        decreases n - shown,
    {
        let w = todo_pill_width(todos[shown].title.as_str(), wrap_px);
        let new_row = rows == 0 || x + TODO_PILL_GAP_PX + w > wrap_px;
        assert(ts.take(shown + 1).drop_last() =~= ts.take(shown as int));
        if new_row {
            let next_rows = rows + 1;
            let height = TODO_PILL_TOP_PX + next_rows * TODO_PILL_ROW_PX + rows * TODO_PILL_GAP_PX;
            if height > body_px {
                proof {
                    lemma_todos_fit_stops(ts, shown as int, body_px as int, wrap_px as int);
                }
                break;
            }
            rows = next_rows;
            x = w;
        } else {
            x = x + TODO_PILL_GAP_PX + w;
        }
        shown = shown + 1;
    }
    if shown == n {
        proof {
            assert(ts.take(n as int) =~= ts);
            lemma_fit_prefix(ts, body_px as int, wrap_px as int);
        }
    }
    shown
}

fn todos_body_px(todos: &[TodoItem], wrap_px: i32) -> (r: i32)
    requires
        todos@.len() <= LIST_LIMIT,
        titles_ok(todos@),
        1 <= wrap_px <= 1000,
    ensures
        r == todos_body(todos@, wrap_px as int),
        0 < r <= TODO_PILL_TOP_PX + 45 * LIST_LIMIT + EMPTY_SECTION_BODY_PX,
{
    let n = todos.len();
    if n == 0 {
        return EMPTY_SECTION_BODY_PX;
    }
    let ghost ts = todos@;
    let mut rows: i32 = 0;
    let mut x: i32 = 0;
    let mut i: usize = 0;
    assert(ts.take(0) =~= Seq::<TodoItem>::empty());
    while i < n
        invariant
            n == ts.len(),
            ts == todos@,
            n <= LIST_LIMIT,
            titles_ok(ts),
            1 <= wrap_px <= 1000,
            i <= n,
            (rows as int, x as int) == pill_layout(ts.take(i as int), wrap_px as int),
            0 <= rows <= i,
            i > 0 ==> rows >= 1,
            0 <= x <= wrap_px,
        decreases n - i,
    {
        let w = todo_pill_width(todos[i].title.as_str(), wrap_px);
        assert(ts.take(i + 1).drop_last() =~= ts.take(i as int));
        if rows == 0 || x + TODO_PILL_GAP_PX + w > wrap_px {
            rows = rows + 1;
            x = w;
        } else {
            x = x + TODO_PILL_GAP_PX + w;
        }
        i = i + 1;
    }
    assert(ts.take(n as int) =~= ts);
    TODO_PILL_TOP_PX + rows * TODO_PILL_ROW_PX + (rows - 1) * TODO_PILL_GAP_PX
}

fn todos_block_px(todos: &[TodoItem], more: usize, wrap_px: i32) -> (r: i32)
    requires
        todos@.len() <= LIST_LIMIT,
        titles_ok(todos@),
        1 <= wrap_px <= 1000,
    ensures
        r == todos_block(todos@, more as nat, wrap_px as int),
        0 < r <= SECTION_HEAD_PX + TODO_PILL_TOP_PX + 45 * LIST_LIMIT + EMPTY_SECTION_BODY_PX
            + TODOS_MORE_PX,
{
    SECTION_HEAD_PX + todos_body_px(todos, wrap_px) + if more > 0 {
        TODOS_MORE_PX
    } else {
        0
    }
}


impl Duplicate for HistoryFact {
    fn duplicate(&self) -> (r: Self) {
        HistoryFact { year: self.year.clone(), text: self.text.clone() }
    }
}

/// Sort key of a year label: `44 BC` → −44, `1851` → 1851, anything else → 0.
/// Negating `i32::MIN` leaves it as it is (two's complement).
pub open spec fn year_key(y: Seq<char>) -> int {
    let n = y.len() as int;
    if n >= 3 && y[n - 3] == ' ' && y[n - 2] == 'B' && y[n - 1] == 'C' {
        let v: int = match parse_i32(y.take(n - 3)) {
            Some(v) => v as int,
            None => 0,
        };
        if v == i32::MIN {
            i32::MIN as int
        } else {
            -v
        }
    } else {
        match parse_i32(y) {
            Some(v) => v as int,
            None => 0,
        }
    }
}

fn history_year_sort_key(year: &str) -> (r: i32)
    ensures
        r == year_key(year@),
{
    let v = chars_of(year);
    let n = v.len();
    if n >= 3 && v[n - 3] == ' ' && v[n - 2] == 'B' && v[n - 1] == 'C' {
        assert(v@.take(n - 3) =~= v@.subrange(0, n - 3));
        let x = match parse_i32_exec(&v, 0, n - 3) {
            Some(x) => x,
            None => 0,
        };
        if x == i32::MIN {
            i32::MIN
        } else {
            -x
        }
    } else {
        assert(v@.subrange(0, n as int) =~= v@);
        match parse_i32_exec(&v, 0, n) {
            Some(x) => x,
            None => 0,
        }
    }
}

/// Where a fact with key `k` goes in `s`: after every fact whose key is not larger.
pub open spec fn year_slot(s: Seq<HistoryFact>, k: int) -> int
    decreases s.len(),
{
    if s.len() == 0 {
        0
    } else if year_key(s[0].year@) > k {
        0
    } else {
        1 + year_slot(s.drop_first(), k)
    }
}

/// `fs` ordered by year key, oldest first; facts with equal keys keep their order.
pub open spec fn by_year(fs: Seq<HistoryFact>) -> Seq<HistoryFact>
    decreases fs.len(),
{
    if fs.len() == 0 {
        fs
    } else {
        let s = by_year(fs.drop_last());
        s.insert(year_slot(s, year_key(fs.last().year@)), fs.last())
    }
}

/// Height of one history fact, when it wraps to one to three lines.
pub open spec fn fact_px(text: Seq<char>) -> Option<int> {
    let l = wrap_lines(text, HISTORY_TEXT_MAX_PX as int, HISTORY_CHAR_PX as int);
    if l == 0 || l > HISTORY_MAX_LINES {
        None
    } else {
        Some(HISTORY_ITEM_PAD_Y + l * HISTORY_LINE_PX + HISTORY_ITEM_BORDER_PX)
    }
}

/// Facts of `fs` taken in order while each still fits `body_px` beside those
/// already taken, up to [`MAX_HISTORY_FACTS`]; a fact that does not fit is skipped.
pub open spec fn pack_facts(fs: Seq<HistoryFact>, used: int, out: Seq<HistoryFact>, body_px: int) -> Seq<HistoryFact>
    decreases fs.len(),
{
    if fs.len() == 0 || out.len() >= MAX_HISTORY_FACTS {
        out
    } else {
        match fact_px(fs[0].text@) {
            None => pack_facts(fs.drop_first(), used, out, body_px),
            Some(h) => if used + h > body_px {
                pack_facts(fs.drop_first(), used, out, body_px)
            } else {
                pack_facts(fs.drop_first(), used + h, out.push(fs[0]), body_px)
            },
        }
    }
}

/// The history facts shown in `section_px`: oldest first, as many as fit.
pub open spec fn packed_history(facts: Seq<HistoryFact>, section_px: int) -> Seq<HistoryFact> {
    let body = section_px - SECTION_HEAD_PX;
    if body <= 0 {
        Seq::empty()
    } else {
        pack_facts(by_year(facts), 0, Seq::empty(), body)
    }
}

fn history_item_px(text: &str) -> (r: Option<i32>)
    requires
        text@.len() <= TEXT_LIMIT,
    ensures
        match r {
            Some(h) => fact_px(text@) == Some(h as int) && 0 < h <= 100,
            None => fact_px(text@) is None,
        },
{
    let lines = wrap_line_count(text, HISTORY_TEXT_MAX_PX, HISTORY_CHAR_PX);
    if lines == 0 || lines > HISTORY_MAX_LINES {
        return None;
    }
    Some(HISTORY_ITEM_PAD_Y + (lines as i32) * HISTORY_LINE_PX + HISTORY_ITEM_BORDER_PX)
}

/// Every fact is short enough to measure.
pub open spec fn facts_ok(fs: Seq<HistoryFact>) -> bool {
    forall|i: int| 0 <= i < fs.len() ==> (#[trigger] fs[i]).text@.len() <= TEXT_LIMIT
}

/// `facts` ordered by year, oldest first, stable.
fn sort_by_year(facts: &[HistoryFact]) -> (r: Vec<HistoryFact>)
    ensures
        r@ == by_year(facts@),
{
    let n = facts.len();
    let mut out: Vec<HistoryFact> = Vec::new();
    let mut keys: Vec<i32> = Vec::new();
    let mut i: usize = 0;
    assert(facts@.take(0) =~= Seq::<HistoryFact>::empty());
    while i < n
        invariant
            n == facts@.len(),
            i <= n,
            out@ == by_year(facts@.take(i as int)),
            keys@.len() == out@.len(),
            forall|j: int| 0 <= j < out@.len() ==> keys@[j] == year_key(#[trigger] out@[j].year@),
        decreases n - i,
    {
        let f = facts[i].duplicate();
        let k = history_year_sort_key(f.year.as_str());
        let m = out.len();
        let mut j: usize = 0;
        assert(out@.skip(0) =~= out@);
        while j < m && keys[j] <= k
            invariant
                m == out@.len(),
                keys@.len() == m,
                j <= m,
                forall|t: int| 0 <= t < out@.len() ==> keys@[t] == year_key(#[trigger] out@[t].year@),
                year_slot(out@, k as int) == j + year_slot(out@.skip(j as int), k as int),
            decreases m - j,
        {
            assert(out@.skip(j as int).drop_first() =~= out@.skip(j + 1));
            j = j + 1;
        }
        proof {
            if j < m {
                assert(out@.skip(j as int)[0] == out@[j as int]);
            } else {
                assert(out@.skip(j as int) =~= Seq::<HistoryFact>::empty());
            }
            assert(facts@.take(i + 1).drop_last() =~= facts@.take(i as int));
            assert(facts@.take(i + 1).last() == facts@[i as int]);
        }
        let ghost o = out@;
        let ghost ko = keys@;
        out.insert(j, f);
        keys.insert(j, k);
        proof {
            assert forall|t: int| 0 <= t < out@.len() implies keys@[t] == year_key(#[trigger] out@[t].year@) by {
                if t > j as int {
                    assert(out@[t] == o[t - 1]);
                    assert(keys@[t] == ko[t - 1]);
                } else if t < j as int {
                    assert(out@[t] == o[t]);
                }
            }
        }
        i = i + 1;
    }
    assert(facts@.take(n as int) =~= facts@);
    out
}


proof fn lemma_year_slot_bound(s: Seq<HistoryFact>, k: int)
    ensures
        0 <= year_slot(s, k) <= s.len(),
    decreases s.len(),
{
    if s.len() > 0 && year_key(s[0].year@) <= k {
        lemma_year_slot_bound(s.drop_first(), k);
    }
}

/// Ordering by year keeps the facts: same length, and each is one of the inputs.
proof fn lemma_by_year_elems(fs: Seq<HistoryFact>)
    ensures
        by_year(fs).len() == fs.len(),
        forall|i: int| 0 <= i < fs.len() ==> exists|j: int| 0 <= j < fs.len() && #[trigger] by_year(fs)[i] == fs[j],
    decreases fs.len(),
{
    if fs.len() > 0 {
        let p = fs.drop_last();
        lemma_by_year_elems(p);
        let s = by_year(p);
        let k = year_slot(s, year_key(fs.last().year@));
        lemma_year_slot_bound(s, year_key(fs.last().year@));
        assert forall|i: int| 0 <= i < fs.len() implies exists|j: int| 0 <= j < fs.len() && #[trigger] by_year(fs)[i] == fs[j] by {
            if i < k {
                let j0 = choose|j: int| 0 <= j < p.len() && s[i] == p[j];
                assert(fs[j0] == p[j0]);
            } else if i == k {
                assert(by_year(fs)[i] == fs[fs.len() - 1]);
            } else {
                let j0 = choose|j: int| 0 <= j < p.len() && s[i - 1] == p[j];
                assert(fs[j0] == p[j0]);
            }
        }
    }
}

/// Facts packed in order as `pack_facts` says, stopping at [`MAX_HISTORY_FACTS`].
fn pack_history(facts: &[HistoryFact], section_px: i32) -> (r: Vec<HistoryFact>)
    requires
        facts_ok(facts@),
        section_px >= -2_000_000_000,
    ensures
        r@ == packed_history(facts@, section_px as int),
{
    let body = section_px - SECTION_HEAD_PX;
    if body <= 0 {
        return Vec::new();
    }
    let sorted = sort_by_year(facts);
    proof {
        lemma_by_year_elems(facts@);
        assert forall|i: int| 0 <= i < sorted@.len() implies (#[trigger] sorted@[i]).text@.len() <= TEXT_LIMIT by {
            let j = choose|j: int| 0 <= j < facts@.len() && by_year(facts@)[i] == facts@[j];
            assert(facts@[j].text@.len() <= TEXT_LIMIT);
        }
    }
    let n = sorted.len();
    let mut used: i32 = 0;
    let mut out: Vec<HistoryFact> = Vec::new();
    let mut i: usize = 0;
    assert(sorted@.skip(0) =~= sorted@);
    while i < n
        invariant
            n == sorted@.len(),
            i <= n,
            facts_ok(sorted@),
            0 <= used <= 100 * out@.len(),
            out@.len() <= MAX_HISTORY_FACTS,
            0 < body,
            pack_facts(sorted@, 0, Seq::empty(), body as int) == pack_facts(
                sorted@.skip(i as int),
                used as int,
                out@,
                body as int,
            ),
        ensures
            pack_facts(sorted@, 0, Seq::empty(), body as int) == out@,
        decreases n - i,
    {
        assert(sorted@.skip(i as int)[0] == sorted@[i as int]);
        assert(sorted@.skip(i as int).drop_first() =~= sorted@.skip(i + 1));
        if out.len() == MAX_HISTORY_FACTS {
            break;
        }
        let h = match history_item_px(sorted[i].text.as_str()) {
            Some(h) => h,
            None => {
                i = i + 1;
                continue;
            },
        };
        if used + h > body {
            i = i + 1;
            continue;
        }
        used = used + h;
        out.push(sorted[i].duplicate());
        i = i + 1;
    }
    if i == n {
        assert(sorted@.skip(n as int) =~= Seq::<HistoryFact>::empty());
    }
    out
}


/// Height of a joke's body, when setup and punchline wrap to one to
/// [`JOKE_MAX_LINES`] lines in a quarter column.
pub open spec fn joke_px(j: Joke) -> Option<int> {
    let setup = wrap_lines(j.setup@, JOKE_TEXT_MAX_PX as int, JOKE_CHAR_PX as int);
    let punch = if j.punchline@.len() == 0 {
        0
    } else {
        wrap_lines(j.punchline@, JOKE_TEXT_MAX_PX as int, JOKE_CHAR_PX as int)
    };
    let lines = setup + punch;
    if lines == 0 || lines > JOKE_MAX_LINES {
        None
    } else {
        Some(JOKE_PAD_TOP_PX + lines * JOKE_LINE_PX + if punch > 0 {
            JOKE_PUNCH_GAP_PX as int
        } else {
            0
        })
    }
}

/// Setup and punchline are short enough to measure.
pub open spec fn joke_ok(j: Joke) -> bool {
    j.setup@.len() <= TEXT_LIMIT && j.punchline@.len() <= TEXT_LIMIT
}

fn joke_body_px(joke: &Joke) -> (r: Option<i32>)
    requires
        joke_ok(*joke),
    ensures
        match r {
            Some(h) => joke_px(*joke) == Some(h as int) && 0 < h <= 200,
            None => joke_px(*joke) is None,
        },
{
    let setup_lines = wrap_line_count(joke.setup.as_str(), JOKE_TEXT_MAX_PX, JOKE_CHAR_PX);
    let punch_lines = if joke.punchline.as_str().is_empty() {
        0
    } else {
        wrap_line_count(joke.punchline.as_str(), JOKE_TEXT_MAX_PX, JOKE_CHAR_PX)
    };
    if setup_lines > JOKE_MAX_LINES || punch_lines > JOKE_MAX_LINES {
        return None;
    }
    let lines = setup_lines + punch_lines;
    if lines == 0 || lines > JOKE_MAX_LINES {
        return None;
    }
    let gap = if punch_lines > 0 {
        JOKE_PUNCH_GAP_PX
    } else {
        0
    };
    Some(JOKE_PAD_TOP_PX + (lines as i32) * JOKE_LINE_PX + gap)
}

/// The joke wraps to at most [`JOKE_MAX_LINES`] lines in its quarter column.
pub fn joke_fits_panel(joke: &Joke) -> (r: bool)
    requires
        joke_ok(*joke),
    ensures
        r == joke_px(*joke) is Some,
{
    joke_body_px(joke).is_some()
}

/// Height of the joke block, or nothing without a joke.
pub open spec fn joke_block(j: Option<Joke>) -> int {
    match j {
        Some(j) => SECTION_HEAD_PX + match joke_px(j) {
            Some(h) => h,
            None => 0,
        },
        None => 0,
    }
}

fn joke_block_px(joke: &Option<Joke>) -> (r: i32)
    requires
        *joke matches Some(j) ==> joke_ok(j),
    ensures
        r == joke_block(*joke),
        0 <= r <= SECTION_HEAD_PX + 200,
{
    match joke {
        Some(j) => SECTION_HEAD_PX + match joke_body_px(j) {
            Some(h) => h,
            None => 0,
        },
        None => 0,
    }
}

/// Height of the school week grid: one band per start time.
pub open spec fn week_block(w: SchoolWeek) -> int {
    if w.days@.len() == 0 {
        0
    } else {
        let bands = if w.bands > 0 {
            w.bands as int
        } else {
            w.times@.len() as int
        };
        SECTION_HEAD_PX + WEEK_GRID_TOP_PX + WEEK_DAY_LABEL_PX + bands * WEEK_SLOT_PX
    }
}

/// The week grid is small enough to measure.
pub open spec fn week_ok(w: SchoolWeek) -> bool {
    w.bands <= LIST_LIMIT as int && w.times@.len() <= LIST_LIMIT
}

fn week_block_px(week: &SchoolWeek) -> (r: i32)
    requires
        week_ok(*week),
    ensures
        r == week_block(*week),
        0 <= r <= SECTION_HEAD_PX + WEEK_GRID_TOP_PX + WEEK_DAY_LABEL_PX + WEEK_SLOT_PX * LIST_LIMIT,
{
    if week.days.len() == 0 {
        return 0;
    }
    let bands = if week.bands > 0 {
        week.bands
    } else {
        week.times.len() as i32
    };
    SECTION_HEAD_PX + WEEK_GRID_TOP_PX + WEEK_DAY_LABEL_PX + bands * WEEK_SLOT_PX
}


#[derive(Debug, Clone, PartialEq, Eq)]
pub struct Dashboard {
    pub family_name: String,
    pub weekday: String,
    pub day: String,
    pub month: String,
    pub date_long: String,
    pub date_iso: String,
    /// `Saint` / `Sainte` / `Saints`, empty for named feasts (Noël, Toussaint).
    pub saint_title: String,
    pub saint_name: String,
    /// Primary calendar heading: `Today`, or `Tomorrow` after 18:00
    /// when nothing later remains on the calendar day.
    pub today_title: String,
    /// Day ordinal painted in red after `Tomorrow` (`20th`). Empty on Today.
    pub today_ordinal: String,
    pub events_today: Vec<CalendarEvent>,
    pub events_coming: Vec<CalendarEvent>,
    pub todos: Vec<TodoItem>,
    /// Open tasks that did not fit under Tube + House. Shown as “+ N other todos”.
    pub todos_more: usize,
    pub rooms: Vec<RoomClimate>,
    pub weather: Weather,
    pub tube: Vec<StatusLine>,
    pub history: Vec<HistoryFact>,
    pub joke: Option<Joke>,
    pub school: School,
    pub source_note: String,
    /// Homework / grades columns. Skipped in the layout hash.
    pub show_school_sections: bool,
    /// Pico has reported a battery reading. Hidden on the panel until then.
    pub has_battery: bool,
    pub battery_pct: u16,
    /// Spectra class: `ok` (green, ≥25%), `low` (red, <25%).
    pub battery_level: String,
    /// Local `HH:MM` when this bitmap was painted. Omitted from the layout hash.
    pub last_refresh: String,
    /// Local `HH:MM`, or `Day HH:MM` when the next poll is tomorrow.
    pub next_refresh: String,
}

/// `s` cut to at most `k` items (`Vec::truncate`).
pub open spec fn trunc<T>(s: Seq<T>, k: int) -> Seq<T> {
    if k < s.len() {
        s.take(k)
    } else {
        s
    }
}

/// The larger of `a` and `b`.
pub open spec fn imax(a: int, b: int) -> int {
    if a >= b {
        a
    } else {
        b
    }
}

/// Every list and text of the sidebar is small enough to measure.
pub open spec fn sidebar_ok(d: Dashboard) -> bool {
    &&& d.tube@.len() <= LIST_LIMIT
    &&& d.rooms@.len() <= LIST_LIMIT
    &&& d.todos@.len() <= LIST_LIMIT
    &&& titles_ok(d.todos@)
    &&& d.school.homework@.len() <= LIST_LIMIT
    &&& d.school.grades@.len() <= LIST_LIMIT
    &&& facts_ok(d.history@)
    &&& week_ok(d.school.week)
    &&& (d.joke matches Some(j) ==> joke_ok(j))
}

/// Gaps between the sidebar sections that are on.
pub open spec fn sidebar_gaps(school_on: bool, week_on: bool, history_on: bool) -> int {
    2 + (if school_on {
        1int
    } else {
        0
    }) + (if week_on {
        1int
    } else {
        0
    }) + (if history_on {
        1int
    } else {
        0
    }) - 1
}

/// House and Tube share the bottom row: the taller of the two.
pub open spec fn footer_of(d: Dashboard) -> int {
    imax(block_px(d.tube@.len(), TUBE_ROW_PX as int), block_px(d.rooms@.len(), ROOM_ROW_PX as int))
}

/// The joke, unless it wraps to too many lines.
pub open spec fn joke_kept(d: Dashboard) -> Option<Joke> {
    match d.joke {
        Some(j) => if joke_px(j) is None {
            None
        } else {
            Some(j)
        },
        None => None,
    }
}

/// Least height on history's behalf: a heading and one line, when there are facts.
pub open spec fn history_floor(d: Dashboard) -> int {
    if d.history@.len() == 0 {
        0
    } else {
        SECTION_HEAD_PX + HISTORY_ITEM_PAD_Y + HISTORY_LINE_PX + HISTORY_ITEM_BORDER_PX
    }
}

/// Gaps in the sidebar of `d`.
pub open spec fn gaps_of(d: Dashboard, school_on: bool) -> int {
    SIDEBAR_GAP_PX * sidebar_gaps(school_on, d.school.week.days@.len() > 0, history_floor(d) > 0)
}

/// Rows of homework and grades that fit above the pair row, House and Tube.
#[verifier::opaque]
pub open spec fn school_cap(d: Dashboard, school_on: bool) -> nat {
    let pair_min = SECTION_HEAD_PX + if d.todos@.len() == 0 {
        EMPTY_SECTION_BODY_PX as int
    } else {
        TODO_PILL_TOP_PX + TODO_PILL_ROW_PX
    };
    let pair_reserve = imax(pair_min, joke_block(joke_kept(d)));
    let budget = imax(
        SIDEBAR_PX - footer_of(d) - pair_reserve - week_block(d.school.week) - history_floor(d)
            - gaps_of(d, school_on),
        0,
    );
    rows_in(budget, SCHOOL_ROW_PX as int)
}

/// Homework rows kept.
#[verifier::opaque]
pub open spec fn homework_kept(d: Dashboard, school_on: bool) -> Seq<SchoolItem> {
    if school_on {
        trunc(d.school.homework@, if school_cap(d, school_on) < MAX_HOMEWORK_ROWS {
            school_cap(d, school_on) as int
        } else {
            MAX_HOMEWORK_ROWS as int
        })
    } else {
        d.school.homework@
    }
}

/// Grade rows kept.
#[verifier::opaque]
pub open spec fn grades_kept(d: Dashboard, school_on: bool) -> Seq<SchoolItem> {
    if school_on {
        trunc(d.school.grades@, if school_cap(d, school_on) < MAX_GRADE_ROWS {
            school_cap(d, school_on) as int
        } else {
            MAX_GRADE_ROWS as int
        })
    } else {
        d.school.grades@
    }
}

/// Height of the homework / grades row.
#[verifier::opaque]
pub open spec fn school_row_of(d: Dashboard, school_on: bool) -> int {
    if school_on {
        imax(
            block_px(homework_kept(d, school_on).len(), SCHOOL_ROW_PX as int),
            block_px(grades_kept(d, school_on).len(), SCHOOL_ROW_PX as int),
        )
    } else {
        0
    }
}

/// Height left for the To do / Joke pair.
#[verifier::opaque]
pub open spec fn pair_budget_of(d: Dashboard, school_on: bool) -> int {
    imax(
        SIDEBAR_PX - school_row_of(d, school_on) - footer_of(d) - week_block(d.school.week)
            - history_floor(d) - gaps_of(d, school_on),
        0,
    )
}

/// The joke shown: kept, and tall no more than the pair row allows.
#[verifier::opaque]
pub open spec fn joke_shown(d: Dashboard, school_on: bool) -> Option<Joke> {
    if joke_block(joke_kept(d)) > pair_budget_of(d, school_on) {
        None
    } else {
        joke_kept(d)
    }
}

/// Pills wrap in a quarter column beside a joke, else across the sidebar.
#[verifier::opaque]
pub open spec fn wrap_of(d: Dashboard, school_on: bool) -> int {
    if joke_shown(d, school_on) is Some {
        SIDEBAR_QUARTER_PX as int
    } else {
        SIDEBAR_INNER_PX as int
    }
}

/// To-dos shown out of `ts` when their body has `body` pixels: all when
/// they fit, else as many as fit above the "+ N other todos" line, at least
/// one fewer than all.
pub open spec fn shown_for(ts: Seq<TodoItem>, body: int, wrap: int) -> nat {
    let total = ts.len();
    if total == 0 || todos_fit(ts, body, wrap) == total {
        total
    } else {
        let k = todos_fit(ts, body - TODOS_MORE_PX, wrap);
        if k < total - 1 {
            k
        } else {
            (total - 1) as nat
        }
    }
}

/// To-dos shown; the rest become "+ N other todos".
#[verifier::opaque]
pub open spec fn todos_shown(d: Dashboard, school_on: bool) -> nat {
    shown_for(d.todos@, pair_budget_of(d, school_on) - SECTION_HEAD_PX, wrap_of(d, school_on))
}

/// History packed into what the other sections leave.
#[verifier::opaque]
pub open spec fn history_kept(d: Dashboard, school_on: bool) -> Seq<HistoryFact> {
    let shown = d.todos@.take(todos_shown(d, school_on) as int);
    let more = (d.todos@.len() - todos_shown(d, school_on)) as nat;
    let joke_h = if joke_shown(d, school_on) is Some {
        joke_block(joke_kept(d))
    } else {
        0
    };
    let pair_px = imax(todos_block(shown, more, wrap_of(d, school_on)), joke_h);
    let budget = SIDEBAR_PX - school_row_of(d, school_on) - pair_px - week_block(d.school.week)
        - footer_of(d) - gaps_of(d, school_on);
    if history_floor(d) > 0 {
        packed_history(d.history@, budget)
    } else {
        Seq::empty()
    }
}

/// `new` is `old` with its sidebar fitted: only the joke, homework, grades,
/// to-dos, their overflow count and the history change, as the rules say.
#[verifier::opaque]
pub open spec fn sidebar_fitted(old: Dashboard, new: Dashboard, school_on: bool) -> bool {
    &&& new == (Dashboard {
        joke: new.joke,
        todos: new.todos,
        todos_more: new.todos_more,
        history: new.history,
        school: (School { homework: new.school.homework, grades: new.school.grades, ..old.school }),
        ..old
    })
    &&& new.joke == joke_shown(old, school_on)
    &&& new.school.homework@ == homework_kept(old, school_on)
    &&& new.school.grades@ == grades_kept(old, school_on)
    &&& new.todos@ == old.todos@.take(todos_shown(old, school_on) as int)
    &&& new.todos_more == old.todos@.len() - todos_shown(old, school_on)
    &&& new.history@ == history_kept(old, school_on)
}


proof fn lemma_sidebar_fitted(old: Dashboard, new: Dashboard, school_on: bool)
    requires
        new == (Dashboard {
            joke: new.joke,
            todos: new.todos,
            todos_more: new.todos_more,
            history: new.history,
            school: (School { homework: new.school.homework, grades: new.school.grades, ..old.school }),
            ..old
        }),
        new.joke == joke_shown(old, school_on),
        new.school.homework@ == homework_kept(old, school_on),
        new.school.grades@ == grades_kept(old, school_on),
        new.todos@ == old.todos@.take(todos_shown(old, school_on) as int),
        new.todos_more == old.todos@.len() - todos_shown(old, school_on),
        new.history@ == history_kept(old, school_on),
    ensures
        sidebar_fitted(old, new, school_on),
{
    reveal(sidebar_fitted);
}

impl Dashboard {
    /// Record a battery reading: percent capped at 100, with its level.
    pub fn set_battery(&mut self, pct: u16)
        ensures
            *final(self) == (Dashboard {
                has_battery: true,
                battery_pct: if pct > 100 {
                    100
                } else {
                    pct
                },
                battery_level: final(self).battery_level,
                ..*old(self)
            }),
            final(self).battery_level@ == level_of(final(self).battery_pct),
    {
        let pct = if pct > 100 {
            100
        } else {
            pct
        };
        self.has_battery = true;
        self.battery_pct = pct;
        self.battery_level = battery_level(pct).to_string();
    }

    /// Keep Tube and House in full on the bottom row. To do and Joke share
    /// a quarter-column row. On this day sits above the school week; leftover
    /// height is packed with facts (up to three wrapped lines each).
    pub fn fit_sidebar_to_panel(&mut self)
        requires
            sidebar_ok(*old(self)),
        ensures
            sidebar_fitted(
                *old(self),
                *final(self),
                old(self).show_school_sections && old(self).school.visible(),
            ),
    {
        let on = self.show_school_sections && self.school.is_visible();
        self.fit_sidebar(on);
    }

    /// [`Dashboard::fit_sidebar_to_panel`] with the school sections on or off.
    #[verifier::spinoff_prover]
    #[verifier::rlimit(100)]
    pub fn fit_sidebar(&mut self, school_on: bool)
        requires
            sidebar_ok(*old(self)),
        ensures
            sidebar_fitted(*old(self), *final(self), school_on),
    {
        let ghost d = *old(self);
        let (footer_px, week_px, floor) = self.fixed_heights();
        self.drop_long_joke();
        let gaps = Self::gaps_px(school_on, self.school.week.days.len() > 0, floor > 0);
        assert(gaps == gaps_of(d, school_on));
        let joke_px = joke_block_px(&self.joke);
        assert(joke_px == joke_block(joke_kept(d)));
        let pair_min = SECTION_HEAD_PX + if self.todos.len() == 0 {
            EMPTY_SECTION_BODY_PX
        } else {
            TODO_PILL_TOP_PX + TODO_PILL_ROW_PX
        };
        let pair_reserve = if pair_min >= joke_px {
            pair_min
        } else {
            joke_px
        };
        let school_row = self.trim_school(school_on, footer_px + pair_reserve + week_px + floor + gaps);
        assert(self.school.homework@ == homework_kept(d, school_on) && self.school.grades@
            == grades_kept(d, school_on)) by {
            reveal(homework_kept);
            reveal(grades_kept);
            reveal(school_cap);
        }
        assert(school_row == school_row_of(d, school_on)) by {
            reveal(school_row_of);
        }
        let raw_pair = SIDEBAR_PX - school_row - footer_px - week_px - floor - gaps;
        let pair_budget = if raw_pair >= 0 {
            raw_pair
        } else {
            0
        };
        assert(pair_budget == pair_budget_of(d, school_on)) by {
            reveal(pair_budget_of);
        }
        let mut joke_h = joke_px;
        if joke_px > pair_budget {
            self.joke = None;
            joke_h = 0;
        }
        assert(self.joke == joke_shown(d, school_on)) by {
            reveal(joke_shown);
        }
        let wrap_px = if self.joke.is_some() {
            SIDEBAR_QUARTER_PX
        } else {
            SIDEBAR_INNER_PX
        };
        assert(wrap_px == wrap_of(d, school_on)) by {
            reveal(wrap_of);
        }
        let tb = self.fit_todos(pair_budget - SECTION_HEAD_PX, wrap_px);
        assert(self.todos@ == d.todos@.take(todos_shown(d, school_on) as int) && self.todos_more
            == d.todos@.len() - todos_shown(d, school_on)) by {
            reveal(todos_shown);
        }
        let pair_px = if tb >= joke_h {
            tb
        } else {
            joke_h
        };
        let history_budget = SIDEBAR_PX - school_row - pair_px - week_px - footer_px - gaps;
        self.fit_history(history_budget, floor > 0);
        assert(self.history@ == history_kept(d, school_on)) by {
            reveal(history_kept);
            reveal(joke_shown);
        }
        assert(*self == (Dashboard {
            joke: self.joke,
            todos: self.todos,
            todos_more: self.todos_more,
            history: self.history,
            school: (School { homework: self.school.homework, grades: self.school.grades, ..d.school }),
            ..d
        }));
        proof {
            lemma_sidebar_fitted(d, *self, school_on);
        }
    }

    /// Keep the history facts that fit `budget` pixels (none when `on` is false).
    fn fit_history(&mut self, budget: i32, on: bool)
        requires
            facts_ok(old(self).history@),
            budget >= -2_000_000_000,
        ensures
            *final(self) == (Dashboard { history: final(self).history, ..*old(self) }),
            final(self).history@ == if on {
                packed_history(old(self).history@, budget as int)
            } else {
                Seq::empty()
            },
    {
        let kept = if on {
            pack_history(self.history.as_slice(), budget)
        } else {
            Vec::new()
        };
        self.history = kept;
    }

    /// House/Tube footer, week grid and history floor heights.
    fn fixed_heights(&self) -> (r: (i32, i32, i32))
        requires
            sidebar_ok(*self),
        ensures
            r.0 == footer_of(*self),
            r.1 == week_block(self.school.week),
            r.2 == history_floor(*self),
            SECTION_HEAD_PX <= r.0 <= SECTION_HEAD_PX + 44 * LIST_LIMIT + EMPTY_SECTION_BODY_PX,
            0 <= r.1 <= SECTION_HEAD_PX + WEEK_GRID_TOP_PX + WEEK_DAY_LABEL_PX + WEEK_SLOT_PX * LIST_LIMIT,
            0 <= r.2 <= 100,
    {
        let a = sidebar_block_px(self.tube.len(), TUBE_ROW_PX);
        let b = sidebar_block_px(self.rooms.len(), ROOM_ROW_PX);
        let footer = if a >= b {
            a
        } else {
            b
        };
        let week = week_block_px(&self.school.week);
        let floor: i32 = if self.history.len() == 0 {
            0
        } else {
            SECTION_HEAD_PX + HISTORY_ITEM_PAD_Y + HISTORY_LINE_PX + HISTORY_ITEM_BORDER_PX
        };
        (footer, week, floor)
    }

    /// Drop a joke that wraps to too many lines.
    fn drop_long_joke(&mut self)
        requires
            sidebar_ok(*old(self)),
        ensures
            *final(self) == (Dashboard { joke: joke_kept(*old(self)), ..*old(self) }),
    {
        let drop_joke = match &self.joke {
            Some(j) => joke_body_px(j).is_none(),
            None => false,
        };
        if drop_joke {
            self.joke = None;
        }
    }

    /// Pixels taken by the gaps between the sections that are on.
    fn gaps_px(school_on: bool, week_on: bool, history_on: bool) -> (r: i32)
        ensures
            r == SIDEBAR_GAP_PX * sidebar_gaps(school_on, week_on, history_on),
            0 <= r <= 4 * SIDEBAR_GAP_PX,
    {
        SIDEBAR_GAP_PX * (2 + (if school_on {
            1i32
        } else {
            0
        }) + (if week_on {
            1i32
        } else {
            0
        }) + (if history_on {
            1i32
        } else {
            0
        }) - 1)
    }

    /// Cut homework and grades to the rows that fit beside `taken` pixels of
    /// other sections; returns the height of their row (0 when off).
    fn trim_school(&mut self, school_on: bool, taken: i32) -> (r: i32)
        requires
            old(self).school.homework@.len() <= LIST_LIMIT,
            old(self).school.grades@.len() <= LIST_LIMIT,
            0 <= taken <= 1_000_000_000,
        ensures
            *final(self) == (Dashboard {
                school: (School {
                    homework: final(self).school.homework,
                    grades: final(self).school.grades,
                    ..old(self).school
                }),
                ..*old(self)
            }),
            ({
                let cap = rows_in(imax(SIDEBAR_PX - taken, 0), SCHOOL_ROW_PX as int);
                &&& final(self).school.homework@ == if school_on {
                    trunc(old(self).school.homework@, if cap < MAX_HOMEWORK_ROWS { cap as int } else { MAX_HOMEWORK_ROWS as int })
                } else {
                    old(self).school.homework@
                }
                &&& final(self).school.grades@ == if school_on {
                    trunc(old(self).school.grades@, if cap < MAX_GRADE_ROWS { cap as int } else { MAX_GRADE_ROWS as int })
                } else {
                    old(self).school.grades@
                }
            }),
            r == if school_on {
                imax(
                    block_px(final(self).school.homework@.len(), SCHOOL_ROW_PX as int),
                    block_px(final(self).school.grades@.len(), SCHOOL_ROW_PX as int),
                )
            } else {
                0
            },
            0 <= r <= SECTION_HEAD_PX + 44 * LIST_LIMIT + EMPTY_SECTION_BODY_PX,
    {
        if !school_on {
            return 0;
        }
        let raw = SIDEBAR_PX - taken;
        let budget = if raw >= 0 {
            raw
        } else {
            0
        };
        let cap = max_rows_in(budget, SCHOOL_ROW_PX);
        let hw = if cap < MAX_HOMEWORK_ROWS {
            cap
        } else {
            MAX_HOMEWORK_ROWS
        };
        let gr = if cap < MAX_GRADE_ROWS {
            cap
        } else {
            MAX_GRADE_ROWS
        };
        self.school.homework.truncate(hw);
        self.school.grades.truncate(gr);
        let a = sidebar_block_px(self.school.homework.len(), SCHOOL_ROW_PX);
        let b = sidebar_block_px(self.school.grades.len(), SCHOOL_ROW_PX);
        if a >= b {
            a
        } else {
            b
        }
    }

    /// Keep the to-dos that fit `body` pixels, counting the rest; returns the
    /// height of the to-do block.
    fn fit_todos(&mut self, body: i32, wrap_px: i32) -> (r: i32)
        requires
            old(self).todos@.len() <= LIST_LIMIT,
            titles_ok(old(self).todos@),
            1 <= wrap_px <= 1000,
            body >= -1_000_000_000,
        ensures
            *final(self) == (Dashboard {
                todos: final(self).todos,
                todos_more: final(self).todos_more,
                ..*old(self)
            }),
            final(self).todos@ == old(self).todos@.take(
                shown_for(old(self).todos@, body as int, wrap_px as int) as int,
            ),
            final(self).todos_more == old(self).todos@.len() - shown_for(
                old(self).todos@,
                body as int,
                wrap_px as int,
            ),
            r == todos_block(final(self).todos@, final(self).todos_more as nat, wrap_px as int),
            0 < r <= SECTION_HEAD_PX + TODO_PILL_TOP_PX + 45 * LIST_LIMIT + EMPTY_SECTION_BODY_PX
                + TODOS_MORE_PX,
    {
        let ghost d = *old(self);
        let total = self.todos.len();
        if total == 0 {
            self.todos_more = 0;
        } else {
            if todos_fitting_in(self.todos.as_slice(), body, wrap_px) == total {
                self.todos_more = 0;
            } else {
                let k = todos_fitting_in(self.todos.as_slice(), body - TODOS_MORE_PX, wrap_px);
                let shown = if k < total - 1 {
                    k
                } else {
                    total - 1
                };
                self.todos_more = total - shown;
                self.todos.truncate(shown);
            }
        }
        proof {
            if self.todos@.len() == d.todos@.len() {
                assert(d.todos@.take(d.todos@.len() as int) =~= d.todos@);
            }
            assert forall|i: int| 0 <= i < self.todos@.len() implies (#[trigger] self.todos@[i]).title@.len() <= TEXT_LIMIT by {
                assert(self.todos@[i] == d.todos@[i]);
            }
        }
        todos_block_px(self.todos.as_slice(), self.todos_more, wrap_px)
    }
}


/// `a` sorts strictly before `b` in the code-point order of their characters
/// (the byte order of their UTF-8 encodings, which `String`'s `Ord` uses).
pub open spec fn text_lt(a: Seq<char>, b: Seq<char>) -> bool
    decreases a.len(),
{
    if a.len() == 0 {
        b.len() > 0
    } else if b.len() == 0 {
        false
    } else if a[0] != b[0] {
        a[0] < b[0]
    } else {
        text_lt(a.drop_first(), b.drop_first())
    }
}

/// Three-way comparison of `a` and `b`: negative, zero (equal) or positive.
pub(crate) fn compare_text(a: &str, b: &str) -> (r: i8)
    ensures
        r < 0 <==> text_lt(a@, b@),
        r == 0 <==> a@ == b@,
{
    let x = chars_of(a);
    let y = chars_of(b);
    let mut i: usize = 0;
    let n = x.len();
    let m = y.len();
    assert(x@.skip(0) =~= x@);
    assert(y@.skip(0) =~= y@);
    while i < n && i < m
        invariant
            x@ == a@,
            y@ == b@,
            n == x@.len(),
            m == y@.len(),
            i <= n,
            i <= m,
            x@.take(i as int) == y@.take(i as int),
            text_lt(x@, y@) == text_lt(x@.skip(i as int), y@.skip(i as int)),
        decreases n - i,
    {
        assert(x@.skip(i as int)[0] == x@[i as int]);
        assert(y@.skip(i as int)[0] == y@[i as int]);
        if x[i] != y[i] {
            if x[i] < y[i] {
                return -1;
            } else {
                assert(x@[i as int] != y@[i as int]);
                return 1;
            }
        }
        assert(x@.skip(i as int).drop_first() =~= x@.skip(i + 1));
        assert(y@.skip(i as int).drop_first() =~= y@.skip(i + 1));
        assert(x@.take(i + 1) =~= x@.take(i as int).push(x@[i as int]));
        assert(y@.take(i + 1) =~= y@.take(i as int).push(y@[i as int]));
        i = i + 1;
    }
    if i == n && i == m {
        assert(x@ =~= x@.take(i as int));
        assert(y@ =~= y@.take(i as int));
        assert(!text_lt(x@.skip(i as int), y@.skip(i as int)));
        0
    } else if i == n {
        assert(x@.skip(i as int).len() == 0);
        assert(x@.len() != y@.len());
        -1
    } else {
        assert(y@.skip(i as int).len() == 0);
        assert(x@.len() != y@.len());
        1
    }
}

/// `a` sorts before `b`: by start then title, or by date, start, title.
pub open spec fn event_lt(a: CalendarEvent, b: CalendarEvent, by_date: bool) -> bool {
    if by_date && a.date@ != b.date@ {
        text_lt(a.date@, b.date@)
    } else if a.start@ != b.start@ {
        text_lt(a.start@, b.start@)
    } else {
        text_lt(a.title@, b.title@)
    }
}

fn event_before(a: &CalendarEvent, b: &CalendarEvent, by_date: bool) -> (r: bool)
    ensures
        r == event_lt(*a, *b, by_date),
{
    if by_date {
        let c = compare_text(a.date.as_str(), b.date.as_str());
        if c != 0 {
            return c < 0;
        }
    }
    let c = compare_text(a.start.as_str(), b.start.as_str());
    if c != 0 {
        return c < 0;
    }
    compare_text(a.title.as_str(), b.title.as_str()) < 0
}

/// Where `e` goes in `s`: after every event it does not sort before.
pub open spec fn event_slot(s: Seq<CalendarEvent>, e: CalendarEvent, by_date: bool) -> int
    decreases s.len(),
{
    if s.len() == 0 {
        0
    } else if event_lt(e, s[0], by_date) {
        0
    } else {
        1 + event_slot(s.drop_first(), e, by_date)
    }
}

/// `es` in calendar order; events that compare equal keep their order.
pub open spec fn sort_events(es: Seq<CalendarEvent>, by_date: bool) -> Seq<CalendarEvent>
    decreases es.len(),
{
    if es.len() == 0 {
        es
    } else {
        let s = sort_events(es.drop_last(), by_date);
        s.insert(event_slot(s, es.last(), by_date), es.last())
    }
}

proof fn lemma_event_slot_bound(s: Seq<CalendarEvent>, e: CalendarEvent, by_date: bool)
    ensures
        0 <= event_slot(s, e, by_date) <= s.len(),
    decreases s.len(),
{
    if s.len() > 0 && !event_lt(e, s[0], by_date) {
        lemma_event_slot_bound(s.drop_first(), e, by_date);
    }
}

proof fn lemma_sort_events_len(es: Seq<CalendarEvent>, by_date: bool)
    ensures
        sort_events(es, by_date).len() == es.len(),
    decreases es.len(),
{
    if es.len() > 0 {
        lemma_sort_events_len(es.drop_last(), by_date);
        lemma_event_slot_bound(sort_events(es.drop_last(), by_date), es.last(), by_date);
    }
}

/// Stable insertion sort of the events into calendar order.
pub(crate) fn sort_event_list(v: &mut Vec<CalendarEvent>, by_date: bool)
    ensures
        final(v)@ == sort_events(old(v)@, by_date),
{
    let ghost orig = v@;
    let mut rest: Vec<CalendarEvent> = Vec::new();
    core::mem::swap(v, &mut rest);
    let n = rest.len();
    let mut i: usize = 0;
    assert(orig.take(0) =~= Seq::<CalendarEvent>::empty());
    assert(orig.skip(0) =~= orig);
    while i < n
        invariant
            n == orig.len(),
            i <= n,
            rest@ == orig.skip(i as int),
            v@ == sort_events(orig.take(i as int), by_date),
        decreases n - i,
    {
        proof {
            lemma_sort_events_len(orig.take(i as int), by_date);
        }
        let e = rest.remove(0);
        let m = v.len();
        let mut j: usize = 0;
        assert(v@.skip(0) =~= v@);
        while j < m && !event_before(&e, &v[j], by_date)
            invariant
                m == v@.len(),
                j <= m,
                event_slot(v@, e, by_date) == j + event_slot(v@.skip(j as int), e, by_date),
            decreases m - j,
        {
            assert(v@.skip(j as int)[0] == v@[j as int]);
            assert(v@.skip(j as int).drop_first() =~= v@.skip(j + 1));
            j = j + 1;
        }
        proof {
            if j < m {
                assert(v@.skip(j as int)[0] == v@[j as int]);
            } else {
                assert(v@.skip(j as int) =~= Seq::<CalendarEvent>::empty());
            }
            assert(orig.take(i + 1).drop_last() =~= orig.take(i as int));
            assert(orig.skip(i as int)[0] == orig[i as int]);
            assert(orig.skip(i as int).subrange(1, orig.skip(i as int).len() as int) =~= orig.skip(i + 1));
        }
        v.insert(j, e);
        i = i + 1;
    }
    assert(orig.take(n as int) =~= orig);
}

impl Dashboard {
    /// Sort the calendar and keep only the rows that fit the panel.
    pub fn fit_calendar_to_panel(&mut self)
        ensures
            *final(self) == (Dashboard {
                events_today: final(self).events_today,
                events_coming: final(self).events_coming,
                ..*old(self)
            }),
            final(self).events_today@ == trunc(sort_events(old(self).events_today@, false), today_limit() as int),
            final(self).events_coming@ == trunc(
                sort_events(old(self).events_coming@, true),
                coming_capacity(final(self).events_today@.len()) as int,
            ),
    {
        sort_event_list(&mut self.events_today, false);
        sort_event_list(&mut self.events_coming, true);
        self.events_today.truncate(max_today_events());
        let cap = coming_event_capacity(self.events_today.len());
        self.events_coming.truncate(cap);
    }
}


/// A field-for-field copy of a value made of text, numbers and flags.
pub trait Duplicate: Sized {
    fn duplicate(&self) -> (r: Self)
        ensures
            r == *self,
    ;
}

impl Duplicate for CalendarEvent {
    fn duplicate(&self) -> (r: Self) {
        CalendarEvent {
            start: self.start.clone(),
            title: self.title.clone(),
            all_day: self.all_day,
            day_label: self.day_label.clone(),
            date: self.date.clone(),
            birthday: self.birthday,
            school: self.school,
            recurring: self.recurring,
            bin: self.bin,
        }
    }
}

impl Duplicate for TodoItem {
    fn duplicate(&self) -> (r: Self) {
        TodoItem { title: self.title.clone(), done: self.done }
    }
}

impl Duplicate for RoomClimate {
    fn duplicate(&self) -> (r: Self) {
        RoomClimate {
            name: self.name.clone(),
            temperature: self.temperature.clone(),
            humidity: self.humidity.clone(),
            online: self.online,
        }
    }
}

impl Duplicate for WeatherSlot {
    fn duplicate(&self) -> (r: Self) {
        WeatherSlot {
            period: self.period.clone(),
            icon: self.icon.clone(),
            temperature: self.temperature.clone(),
            summary: self.summary.clone(),
        }
    }
}

impl Duplicate for StatusLine {
    fn duplicate(&self) -> (r: Self) {
        StatusLine {
            id: self.id.clone(),
            name: self.name.clone(),
            status: self.status.clone(),
            severity: self.severity.clone(),
            colour: self.colour.clone(),
        }
    }
}

impl Duplicate for SchoolDay {
    fn duplicate(&self) -> (r: Self) {
        SchoolDay { date: self.date.clone(), start: self.start.clone(), end: self.end.clone() }
    }
}

impl Duplicate for SchoolWeekTime {
    fn duplicate(&self) -> (r: Self) {
        SchoolWeekTime { label: self.label.clone(), row: self.row, end: self.end }
    }
}

impl Duplicate for SchoolLesson {
    fn duplicate(&self) -> (r: Self) {
        SchoolLesson {
            subject: self.subject.clone(),
            colour: self.colour.clone(),
            ink: self.ink.clone(),
            row_start: self.row_start,
            row_end: self.row_end,
        }
    }
}

impl Duplicate for SchoolItem {
    fn duplicate(&self) -> (r: Self) {
        SchoolItem {
            when: self.when.clone(),
            subject: self.subject.clone(),
            detail: self.detail.clone(),
            level: self.level.clone(),
        }
    }
}

impl Duplicate for Joke {
    fn duplicate(&self) -> (r: Self) {
        Joke { setup: self.setup.clone(), punchline: self.punchline.clone() }
    }
}

/// A copy of a list of such values.
pub fn copy_vec<T: Duplicate>(v: &Vec<T>) -> (r: Vec<T>)
    ensures
        r@ == v@,
{
    let n = v.len();
    let mut r: Vec<T> = Vec::new();
    let mut i: usize = 0;
    while i < n
        invariant
            n == v@.len(),
            i <= n,
            r@ == v@.take(i as int),
        decreases n - i,
    {
        r.push(v[i].duplicate());
        assert(v@.take(i + 1) =~= v@.take(i as int).push(v@[i as int]));
        i = i + 1;
    }
    assert(v@.take(n as int) =~= v@);
    r
}

/// Same day forecast: equal fields and slots.
pub open spec fn same_weather_day(a: WeatherDay, b: WeatherDay) -> bool {
    a.label == b.label && a.slots@ == b.slots@ && a.sunrise == b.sunrise && a.sunset == b.sunset
        && a.pollen == b.pollen && a.pollen_level == b.pollen_level
}

/// Same weather: location and each day.
pub open spec fn same_weather(a: Weather, b: Weather) -> bool {
    a.location == b.location && a.days@.len() == b.days@.len() && forall|i: int|
        0 <= i < a.days@.len() ==> same_weather_day(#[trigger] a.days@[i], b.days@[i])
}

/// Same timetable day.
pub open spec fn same_week_day(a: SchoolWeekDay, b: SchoolWeekDay) -> bool {
    a.label == b.label && a.today == b.today && a.col == b.col && a.lessons@ == b.lessons@
}

/// Same week grid.
pub open spec fn same_week(a: SchoolWeek, b: SchoolWeek) -> bool {
    a.title == b.title && a.times@ == b.times@ && a.bands == b.bands && a.days@.len() == b.days@.len()
        && forall|i: int| 0 <= i < a.days@.len() ==> same_week_day(#[trigger] a.days@[i], b.days@[i])
}

fn copy_weather(w: &Weather) -> (r: Weather)
    ensures
        same_weather(r, *w),
{
    let n = w.days.len();
    let mut days: Vec<WeatherDay> = Vec::new();
    let mut i: usize = 0;
    while i < n
        invariant
            n == w.days@.len(),
            i <= n,
            days@.len() == i,
            forall|j: int| 0 <= j < i ==> same_weather_day(#[trigger] days@[j], w.days@[j]),
        decreases n - i,
    {
        let d = &w.days[i];
        days.push(
            WeatherDay {
                label: d.label.clone(),
                slots: copy_vec(&d.slots),
                sunrise: d.sunrise.clone(),
                sunset: d.sunset.clone(),
                pollen: d.pollen.clone(),
                pollen_level: d.pollen_level.clone(),
            },
        );
        i = i + 1;
    }
    Weather { location: w.location.clone(), days }
}

fn copy_week(w: &SchoolWeek) -> (r: SchoolWeek)
    ensures
        same_week(r, *w),
{
    let n = w.days.len();
    let mut days: Vec<SchoolWeekDay> = Vec::new();
    let mut i: usize = 0;
    while i < n
        invariant
            n == w.days@.len(),
            i <= n,
            days@.len() == i,
            forall|j: int| 0 <= j < i ==> same_week_day(#[trigger] days@[j], w.days@[j]),
        decreases n - i,
    {
        let d = &w.days[i];
        days.push(
            SchoolWeekDay {
                label: d.label.clone(),
                today: d.today,
                col: d.col,
                lessons: copy_vec(&d.lessons),
            },
        );
        i = i + 1;
    }
    SchoolWeek { title: w.title.clone(), days, times: copy_vec(&w.times), bands: w.bands }
}

/// What the layout hash sees of `d`: `h` has every field of `d` but the
/// refresh times (empty), and, when the school sections are hidden, the
/// homework, grades and average (empty).
pub open spec fn layout_copy(d: Dashboard, h: Dashboard) -> bool {
    &&& h.family_name == d.family_name
    &&& h.weekday == d.weekday
    &&& h.day == d.day
    &&& h.month == d.month
    &&& h.date_long == d.date_long
    &&& h.date_iso == d.date_iso
    &&& h.saint_title == d.saint_title
    &&& h.saint_name == d.saint_name
    &&& h.today_title == d.today_title
    &&& h.today_ordinal == d.today_ordinal
    &&& h.events_today@ == d.events_today@
    &&& h.events_coming@ == d.events_coming@
    &&& h.todos@ == d.todos@
    &&& h.todos_more == d.todos_more
    &&& h.rooms@ == d.rooms@
    &&& same_weather(h.weather, d.weather)
    &&& h.tube@ == d.tube@
    &&& h.history@ == d.history@
    &&& h.joke == d.joke
    &&& h.school.student == d.school.student
    &&& h.school.days@ == d.school.days@
    &&& same_week(h.school.week, d.school.week)
    &&& (d.show_school_sections ==> h.school.average == d.school.average && h.school.homework@
        == d.school.homework@ && h.school.grades@ == d.school.grades@)
    &&& (!d.show_school_sections ==> h.school.average@.len() == 0 && h.school.homework@.len() == 0
        && h.school.grades@.len() == 0)
    &&& h.source_note == d.source_note
    &&& h.show_school_sections == d.show_school_sections
    &&& h.has_battery == d.has_battery
    &&& h.battery_pct == d.battery_pct
    &&& h.battery_level == d.battery_level
    &&& h.last_refresh@.len() == 0
    &&& h.next_refresh@.len() == 0
}

impl Dashboard {
    /// The dashboard as the layout hash sees it: refresh times dropped so a
    /// painted clock does not force a repaint inside a poll window, and the
    /// school sections dropped when they are hidden. Battery stays.
    pub fn for_layout_hash(&self) -> (r: Self)
        ensures
            layout_copy(*self, r),
    {
        let show = self.show_school_sections;
        let school = School {
            student: self.school.student.clone(),
            average: if show {
                self.school.average.clone()
            } else {
                String::new()
            },
            homework: if show {
                copy_vec(&self.school.homework)
            } else {
                Vec::new()
            },
            grades: if show {
                copy_vec(&self.school.grades)
            } else {
                Vec::new()
            },
            days: copy_vec(&self.school.days),
            week: copy_week(&self.school.week),
        };
        let joke = match &self.joke {
            Some(j) => Some(j.duplicate()),
            None => None,
        };
        Dashboard {
            family_name: self.family_name.clone(),
            weekday: self.weekday.clone(),
            day: self.day.clone(),
            month: self.month.clone(),
            date_long: self.date_long.clone(),
            date_iso: self.date_iso.clone(),
            saint_title: self.saint_title.clone(),
            saint_name: self.saint_name.clone(),
            today_title: self.today_title.clone(),
            today_ordinal: self.today_ordinal.clone(),
            events_today: copy_vec(&self.events_today),
            events_coming: copy_vec(&self.events_coming),
            todos: copy_vec(&self.todos),
            todos_more: self.todos_more,
            rooms: copy_vec(&self.rooms),
            weather: copy_weather(&self.weather),
            tube: copy_vec(&self.tube),
            history: copy_vec(&self.history),
            joke,
            school,
            source_note: self.source_note.clone(),
            show_school_sections: show,
            has_battery: self.has_battery,
            battery_pct: self.battery_pct,
            battery_level: self.battery_level.clone(),
            last_refresh: String::new(),
            next_refresh: String::new(),
        }
    }

    /// Fit the calendar, then the sidebar.
    pub fn fit_to_panel(&mut self)
        requires
            sidebar_ok(*old(self)),
        ensures
            exists|mid: Dashboard|
                calendar_fitted(*old(self), mid) && sidebar_fitted(
                    mid,
                    *final(self),
                    mid.show_school_sections && mid.school.visible(),
                ),
    {
        let ghost start = *self;
        self.fit_calendar_to_panel();
        let ghost mid = *self;
        self.fit_sidebar_to_panel();
        assert(calendar_fitted(start, mid));
    }
}

/// `new` is `old` with its calendar sorted and cut to what fits.
pub open spec fn calendar_fitted(old: Dashboard, new: Dashboard) -> bool {
    &&& new == (Dashboard { events_today: new.events_today, events_coming: new.events_coming, ..old })
    &&& new.events_today@ == trunc(sort_events(old.events_today@, false), today_limit() as int)
    &&& new.events_coming@ == trunc(
        sort_events(old.events_coming@, true),
        coming_capacity(new.events_today@.len()) as int,
    )
}


proof fn lemma_text_lt_irrefl(a: Seq<char>)
    ensures
        !text_lt(a, a),
    decreases a.len(),
{
    if a.len() > 0 {
        lemma_text_lt_irrefl(a.drop_first());
    }
}

proof fn lemma_text_lt_asym(a: Seq<char>, b: Seq<char>)
    ensures
        text_lt(a, b) ==> !text_lt(b, a),
    decreases a.len(),
{
    if a.len() > 0 && b.len() > 0 && a[0] == b[0] {
        lemma_text_lt_asym(a.drop_first(), b.drop_first());
    }
}

proof fn lemma_text_lt_trans(a: Seq<char>, b: Seq<char>, c: Seq<char>)
    ensures
        text_lt(a, b) && text_lt(b, c) ==> text_lt(a, c),
    decreases a.len(),
{
    if a.len() > 0 && b.len() > 0 && c.len() > 0 && a[0] == b[0] && b[0] == c[0] {
        lemma_text_lt_trans(a.drop_first(), b.drop_first(), c.drop_first());
    }
}

proof fn lemma_event_lt_order(a: CalendarEvent, b: CalendarEvent, c: CalendarEvent, by_date: bool)
    ensures
        !event_lt(a, a, by_date),
        event_lt(a, b, by_date) ==> !event_lt(b, a, by_date),
        event_lt(a, b, by_date) && event_lt(b, c, by_date) ==> event_lt(a, c, by_date),
{
    lemma_text_lt_irrefl(a.date@);
    lemma_text_lt_irrefl(a.start@);
    lemma_text_lt_irrefl(a.title@);
    lemma_text_lt_asym(a.date@, b.date@);
    lemma_text_lt_asym(a.start@, b.start@);
    lemma_text_lt_asym(a.title@, b.title@);
    lemma_text_lt_trans(a.date@, b.date@, c.date@);
    lemma_text_lt_trans(a.start@, b.start@, c.start@);
    lemma_text_lt_trans(a.title@, b.title@, c.title@);
    lemma_text_lt_asym(a.date@, c.date@);
    lemma_text_lt_asym(a.start@, c.start@);
    lemma_text_lt_asym(a.title@, c.title@);
    lemma_text_lt_asym(b.date@, c.date@);
    lemma_text_lt_asym(b.start@, c.start@);
    lemma_text_lt_asym(b.title@, c.title@);
}

/// No event sorts before one listed ahead of it.
pub open spec fn events_sorted(s: Seq<CalendarEvent>, by_date: bool) -> bool {
    forall|i: int, j: int| 0 <= i < j < s.len() ==> !event_lt(#[trigger] s[j], #[trigger] s[i], by_date)
}

proof fn lemma_event_slot_props(s: Seq<CalendarEvent>, e: CalendarEvent, by_date: bool)
    ensures
        forall|j: int| 0 <= j < event_slot(s, e, by_date) ==> !event_lt(e, #[trigger] s[j], by_date),
        event_slot(s, e, by_date) < s.len() ==> event_lt(e, s[event_slot(s, e, by_date)], by_date),
        0 <= event_slot(s, e, by_date) <= s.len(),
    decreases s.len(),
{
    if s.len() > 0 && !event_lt(e, s[0], by_date) {
        lemma_event_slot_props(s.drop_first(), e, by_date);
        assert forall|j: int| 0 <= j < event_slot(s, e, by_date) implies !event_lt(e, #[trigger] s[j], by_date) by {
            if j > 0 {
                assert(s[j] == s.drop_first()[j - 1]);
            }
        }
    }
}

proof fn lemma_insert_event_sorted(s: Seq<CalendarEvent>, e: CalendarEvent, by_date: bool)
    requires
        events_sorted(s, by_date),
    ensures
        events_sorted(s.insert(event_slot(s, e, by_date), e), by_date),
{
    let p = event_slot(s, e, by_date);
    lemma_event_slot_props(s, e, by_date);
    let t = s.insert(p, e);
    assert forall|i: int, j: int| 0 <= i < j < t.len() implies !event_lt(#[trigger] t[j], #[trigger] t[i], by_date) by {
        if i == p {
            let k = j - 1;
            assert(t[j] == s[k]);
            lemma_event_lt_order(s[k], e, s[p], by_date);
            if k > p {
                assert(!event_lt(s[k], s[p], by_date));
            }
        } else if j == p {
            assert(t[i] == s[i]);
        } else {
            let ii = if i < p { i } else { i - 1 };
            let jj = if j < p { j } else { j - 1 };
            assert(t[i] == s[ii]);
            assert(t[j] == s[jj]);
        }
    }
}

/// Calendar order: the sorted events are in order, and they are the same
/// events (the same multiset) as before.
pub proof fn lemma_sort_events(es: Seq<CalendarEvent>, by_date: bool)
    ensures
        events_sorted(sort_events(es, by_date), by_date),
        sort_events(es, by_date).to_multiset() == es.to_multiset(),
    decreases es.len(),
{
    broadcast use vstd::seq_lib::to_multiset_insert, vstd::seq_lib::to_multiset_build;

    if es.len() == 0 {
    } else {
        let p = es.drop_last();
        lemma_sort_events(p, by_date);
        lemma_event_slot_props(sort_events(p, by_date), es.last(), by_date);
        lemma_insert_event_sorted(sort_events(p, by_date), es.last(), by_date);
        assert(p.push(es.last()) =~= es);
    }
}

proof fn lemma_year_slot_props(s: Seq<HistoryFact>, k: int)
    ensures
        forall|j: int| 0 <= j < year_slot(s, k) ==> year_key((#[trigger] s[j]).year@) <= k,
        year_slot(s, k) < s.len() ==> year_key(s[year_slot(s, k)].year@) > k,
        0 <= year_slot(s, k) <= s.len(),
    decreases s.len(),
{
    if s.len() > 0 && year_key(s[0].year@) <= k {
        lemma_year_slot_props(s.drop_first(), k);
        assert forall|j: int| 0 <= j < year_slot(s, k) implies year_key((#[trigger] s[j]).year@) <= k by {
            if j > 0 {
                assert(s[j] == s.drop_first()[j - 1]);
            }
        }
    }
}

/// Oldest first: year keys never decrease along the list.
pub open spec fn years_sorted(s: Seq<HistoryFact>) -> bool {
    forall|i: int, j: int| 0 <= i < j < s.len() ==> year_key((#[trigger] s[i]).year@) <= year_key(
        (#[trigger] s[j]).year@,
    )
}

/// History order: the facts ordered by year are in order and are the same
/// facts (the same multiset) as before.
#[verifier::spinoff_prover]
#[verifier::rlimit(60)]
pub proof fn lemma_by_year(fs: Seq<HistoryFact>)
    ensures
        years_sorted(by_year(fs)),
        by_year(fs).to_multiset() == fs.to_multiset(),
    decreases fs.len(),
{
    broadcast use vstd::seq_lib::to_multiset_insert, vstd::seq_lib::to_multiset_build;

    if fs.len() > 0 {
        let p = fs.drop_last();
        lemma_by_year(p);
        let s = by_year(p);
        let k = year_key(fs.last().year@);
        lemma_year_slot_props(s, k);
        let q = year_slot(s, k);
        let t = s.insert(q, fs.last());
        assert forall|i: int, j: int| 0 <= i < j < t.len() implies year_key((#[trigger] t[i]).year@)
            <= year_key((#[trigger] t[j]).year@) by {
            if i == q {
                assert(t[j] == s[j - 1]);
                assert(year_key(s[q].year@) > k);
                if j - 1 > q {
                    assert(year_key(s[q].year@) <= year_key(s[j - 1].year@));
                }
            } else if j == q {
                assert(t[i] == s[i]);
            } else {
                let ii = if i < q { i } else { i - 1 };
                let jj = if j < q { j } else { j - 1 };
                assert(t[i] == s[ii]);
                assert(t[j] == s[jj]);
            }
        }
        assert(p.push(fs.last()) =~= fs);
    }
}

proof fn lemma_pack_facts_bound(fs: Seq<HistoryFact>, used: int, out: Seq<HistoryFact>, body: int)
    requires
        out.len() <= MAX_HISTORY_FACTS,
    ensures
        pack_facts(fs, used, out, body).len() <= MAX_HISTORY_FACTS,
    decreases fs.len(),
{
    if fs.len() > 0 && out.len() < MAX_HISTORY_FACTS {
        lemma_pack_facts_bound(fs.drop_first(), used, out, body);
        lemma_pack_facts_bound(fs.drop_first(), used, out.push(fs[0]), body);
        match fact_px(fs[0].text@) {
            Some(h) => {
                lemma_pack_facts_bound(fs.drop_first(), used + h, out.push(fs[0]), body);
            },
            None => {},
        }
    }
}

/// The history shown never holds more than [`MAX_HISTORY_FACTS`] facts.
pub proof fn lemma_history_capped(facts: Seq<HistoryFact>, section_px: int)
    ensures
        packed_history(facts, section_px).len() <= MAX_HISTORY_FACTS,
{
    if section_px - SECTION_HEAD_PX > 0 {
        lemma_pack_facts_bound(by_year(facts), 0, Seq::empty(), section_px - SECTION_HEAD_PX);
    }
}

/// Fitting the sidebar hides to-dos without losing count: those shown plus
/// the "+ N other todos" are all of them, and the shown ones are the first.
pub proof fn lemma_todos_counted(d: Dashboard, school_on: bool)
    ensures
        todos_shown(d, school_on) <= d.todos@.len(),
{
    reveal(todos_shown);
    let ts = d.todos@;
    lemma_todos_fit_le(ts, pair_budget_of(d, school_on) - SECTION_HEAD_PX, wrap_of(d, school_on));
    lemma_todos_fit_le(
        ts,
        pair_budget_of(d, school_on) - SECTION_HEAD_PX - TODOS_MORE_PX,
        wrap_of(d, school_on),
    );
}

proof fn lemma_todos_fit_le(ts: Seq<TodoItem>, body: int, wrap: int)
    ensures
        todos_fit(ts, body, wrap) <= ts.len(),
    decreases ts.len(),
{
    if ts.len() > 0 {
        lemma_todos_fit_le(ts.drop_last(), body, wrap);
    }
}

/// Today never takes all the column: with as many Today rows as are
/// allowed, Coming next still gets at least one row.
pub proof fn lemma_coming_keeps_a_row(today_count: nat)
    requires
        today_count <= today_limit(),
    ensures
        coming_capacity(today_count) >= 1,
{
}

/// More Today rows never leave more room for Coming next.
pub proof fn lemma_coming_capacity_monotone(a: nat, b: nat)
    requires
        a <= b,
    ensures
        coming_capacity(b) <= coming_capacity(a),
{
    assert(today_body_px(a) <= today_body_px(b) || a == 0) by (nonlinear_arith)
        requires
            a <= b,
            today_body_px(a) == if a == 0 { EMPTY_SECTION_BODY_PX as int } else if a * EVENT_ROW_PX > i32::MAX { i32::MAX as int } else { a * EVENT_ROW_PX },
            today_body_px(b) == if b == 0 { EMPTY_SECTION_BODY_PX as int } else if b * EVENT_ROW_PX > i32::MAX { i32::MAX as int } else { b * EVENT_ROW_PX },
    ;
    if a == 0 && b > 0 {
        assert(b * EVENT_ROW_PX >= 60) by (nonlinear_arith)
            requires
                b >= 1,
        ;
    }
    let la = EVENTS_COLUMN_PX - SECTION_HEAD_PX - today_body_px(a) - SECTION_GAP_PX - SECTION_HEAD_PX;
    let lb = EVENTS_COLUMN_PX - SECTION_HEAD_PX - today_body_px(b) - SECTION_GAP_PX - SECTION_HEAD_PX;
    if la >= COMING_ROW_PX && lb >= COMING_ROW_PX {
        assert(lb / 44 <= la / 44) by (nonlinear_arith)
            requires
                lb <= la,
                lb >= 0,
        ;
    }
}

/// A calendar title fits one line: at most [`EVENT_TITLE_MAX_CHARS`] characters.
pub proof fn lemma_event_title_fits(title: Seq<char>)
    ensures
        event_title_of(title).len() <= EVENT_TITLE_MAX_CHARS,
{
    let t = trim(first_line(title));
    if t.len() > EVENT_TITLE_MAX_CHARS {
        lemma_trim_char_end_len(t.take(EVENT_TITLE_MAX_CHARS - 1), ' ');
    }
}

proof fn lemma_pack_sorted(fs: Seq<HistoryFact>, used: int, out: Seq<HistoryFact>, body_px: int)
    requires
        years_sorted(fs),
        years_sorted(out),
        forall|i: int, j: int|
            0 <= i < out.len() && 0 <= j < fs.len() ==> year_key((#[trigger] out[i]).year@) <= year_key(
                (#[trigger] fs[j]).year@,
            ),
    ensures
        years_sorted(pack_facts(fs, used, out, body_px)),
    decreases fs.len(),
{
    if fs.len() == 0 || out.len() >= MAX_HISTORY_FACTS {
    } else {
        let rest = fs.drop_first();
        assert forall|i: int, j: int| 0 <= i < j < rest.len() implies year_key((#[trigger] rest[i]).year@)
            <= year_key((#[trigger] rest[j]).year@) by {
            assert(rest[i] == fs[i + 1]);
            assert(rest[j] == fs[j + 1]);
        }
        assert forall|i: int, j: int| 0 <= i < out.len() && 0 <= j < rest.len() implies year_key(
            (#[trigger] out[i]).year@,
        ) <= year_key((#[trigger] rest[j]).year@) by {
            assert(rest[j] == fs[j + 1]);
        }
        match fact_px(fs[0].text@) {
            None => lemma_pack_sorted(rest, used, out, body_px),
            Some(h) => if used + h > body_px {
                lemma_pack_sorted(rest, used, out, body_px);
            } else {
                let o2 = out.push(fs[0]);
                assert forall|i: int, j: int| 0 <= i < j < o2.len() implies year_key((#[trigger] o2[i]).year@)
                    <= year_key((#[trigger] o2[j]).year@) by {
                    if j == out.len() {
                        assert(o2[j] == fs[0]);
                        assert(o2[i] == out[i]);
                    } else {
                        assert(o2[i] == out[i]);
                        assert(o2[j] == out[j]);
                    }
                }
                assert forall|i: int, j: int| 0 <= i < o2.len() && 0 <= j < rest.len() implies year_key(
                    (#[trigger] o2[i]).year@,
                ) <= year_key((#[trigger] rest[j]).year@) by {
                    assert(rest[j] == fs[j + 1]);
                    if i == out.len() {
                        assert(o2[i] == fs[0]);
                    } else {
                        assert(o2[i] == out[i]);
                    }
                }
                lemma_pack_sorted(rest, used + h, o2, body_px);
            },
        }
    }
}

/// The history shown is ordered by year, oldest first.
pub proof fn lemma_history_sorted(facts: Seq<HistoryFact>, section_px: int)
    ensures
        years_sorted(packed_history(facts, section_px)),
{
    if section_px - SECTION_HEAD_PX > 0 {
        lemma_by_year(facts);
        lemma_pack_sorted(by_year(facts), 0, Seq::empty(), section_px - SECTION_HEAD_PX);
    }
}

/// What fitting the sidebar does, read directly: the to-dos shown are the
/// first ones and, with the "+ N other todos" count, account for all of
/// them; at most five history facts stay, oldest first; the joke is the original one or
/// is dropped; nothing outside the sidebar changes.
pub proof fn lemma_sidebar_fitted_direct(old: Dashboard, new: Dashboard, school_on: bool)
    requires
        sidebar_fitted(old, new, school_on),
    ensures
        new.todos@ == old.todos@.take(new.todos@.len() as int),
        new.todos@.len() + new.todos_more == old.todos@.len(),
        new.history@.len() <= MAX_HISTORY_FACTS,
        years_sorted(new.history@),
        new.joke is None || new.joke == old.joke,
        new.events_today == old.events_today,
        new.events_coming == old.events_coming,
        new.rooms == old.rooms,
        new.weather == old.weather,
        new.tube == old.tube,
        new.school.student == old.school.student,
{
    reveal(sidebar_fitted);
    reveal(history_kept);
    reveal(joke_shown);
    lemma_todos_counted(old, school_on);
    let k = todos_shown(old, school_on);
    assert(new.todos@.len() == k);
    let shown = old.todos@.take(k as int);
    let more = (old.todos@.len() - k) as nat;
    let joke_h = if joke_shown(old, school_on) is Some {
        joke_block(joke_kept(old))
    } else {
        0
    };
    let pair_px = imax(todos_block(shown, more, wrap_of(old, school_on)), joke_h);
    let budget = SIDEBAR_PX - school_row_of(old, school_on) - pair_px - week_block(old.school.week)
        - footer_of(old) - gaps_of(old, school_on);
    lemma_history_capped(old.history@, budget);
    lemma_history_sorted(old.history@, budget);
}

/// No line break in `s`.
pub open spec fn one_line(s: Seq<char>) -> bool {
    forall|k: int| 0 <= k < s.len() ==> s[k] != '\n'
}

proof fn lemma_first_line_one_line(s: Seq<char>)
    ensures
        one_line(first_line(s)),
        one_line(s) ==> first_line(s) == s,
{
    crate::text::lemma_find_char(s, '\n');
    if s.len() > 0 {
        match find_char(s, '\n') {
            Some(i) => {
                assert(lines(s)[0] == strip_cr(s.take(i)));
            },
            None => {
                assert(lines(s)[0] == s);
            },
        }
    } else {
        assert(lines(s).len() == 0);
    }
}

proof fn lemma_trim_start_sub(s: Seq<char>)
    ensures
        one_line(s) ==> one_line(trim_start(s)),
        trim_start(s).len() <= s.len(),
        trim_start(s).len() > 0 ==> !is_ws(trim_start(s)[0]),
        trim_start(s).len() > 0 ==> trim_start(s).last() == s.last(),
    decreases s.len(),
{
    if s.len() > 0 && is_ws(s[0]) {
        lemma_trim_start_sub(s.drop_first());
    }
}

proof fn lemma_trim_end_sub(s: Seq<char>)
    ensures
        one_line(s) ==> one_line(trim_end(s)),
        trim_end(s).len() <= s.len(),
        trim_end(s).len() > 0 ==> !is_ws(trim_end(s).last()) && trim_end(s)[0] == s[0],
        forall|k: int| 0 <= k < trim_end(s).len() ==> trim_end(s)[k] == s[k],
    decreases s.len(),
{
    if s.len() > 0 && is_ws(s.last()) {
        lemma_trim_end_sub(s.drop_last());
        assert forall|k: int| 0 <= k < trim_end(s).len() implies trim_end(s)[k] == s[k] by {
            assert(s.drop_last()[k] == s[k]);
        }
    }
}

proof fn lemma_trim_fixed(s: Seq<char>)
    requires
        s.len() > 0 ==> !is_ws(s[0]) && !is_ws(s.last()),
    ensures
        trim(s) == s,
{
}

proof fn lemma_trim_char_end_prefix(s: Seq<char>, c: char)
    ensures
        trim_char_end(s, c).len() <= s.len(),
        forall|k: int| 0 <= k < trim_char_end(s, c).len() ==> trim_char_end(s, c)[k] == s[k],
        s.len() > 0 && s[0] != c ==> trim_char_end(s, c).len() > 0,
    decreases s.len(),
{
    if s.len() > 0 && s.last() == c {
        lemma_trim_char_end_prefix(s.drop_last(), c);
        assert forall|k: int| 0 <= k < trim_char_end(s, c).len() implies trim_char_end(s, c)[k] == s[k] by {
            assert(s.drop_last()[k] == s[k]);
        }
    }
}

/// A title already cut to one line stays as it is: the rule applied twice
/// gives what it gave once.
pub proof fn lemma_event_title_idempotent(title: Seq<char>)
    ensures
        event_title_of(event_title_of(title)) == event_title_of(title),
        one_line(event_title_of(title)),
{
    let f = first_line(title);
    lemma_first_line_one_line(title);
    lemma_trim_start_sub(f);
    lemma_trim_end_sub(trim_start(f));
    let t = trim(f);
    let r = event_title_of(title);
    lemma_event_title_fits(title);
    if t.len() > EVENT_TITLE_MAX_CHARS {
        let u = t.take(EVENT_TITLE_MAX_CHARS - 1);
        lemma_trim_char_end_prefix(u, ' ');
        let w = trim_char_end(u, ' ');
        assert(u[0] == t[0]);
        assert(!is_ws(t[0]));
        assert(w[0] == t[0]);
        assert(r == w.push('…'));
        assert(r[0] == t[0]);
        assert(r.last() == '…');
        assert forall|k: int| 0 <= k < r.len() implies r[k] != '\n' by {
            if k < w.len() {
                assert(r[k] == w[k]);
                assert(w[k] == u[k]);
                assert(u[k] == t[k]);
            }
        }
    } else {
        assert(r == t);
    }
    lemma_first_line_one_line(r);
    lemma_trim_fixed(r);
}

proof fn lemma_trim_char_end_len(s: Seq<char>, c: char)
    ensures
        trim_char_end(s, c).len() <= s.len(),
    decreases s.len(),
{
    if s.len() > 0 && s.last() == c {
        lemma_trim_char_end_len(s.drop_last(), c);
    }
}

/// `HH:MM` of a second of the day.
pub open spec fn clock_hhmm(secs: u32) -> Seq<char> {
    crate::server::wakes::hhmm(crate::server::wakes::WakeTime { hour: secs / 3600, minute: (secs % 3600) / 60 })
}

fn clock_text(secs: u32) -> (r: String)
    requires
        secs < 86400,
    ensures
        r@ == clock_hhmm(secs),
{
    crate::server::wakes::hhmm_text(crate::server::wakes::WakeTime { hour: secs / 3600, minute: (secs % 3600) / 60 })
}

/// The header's last and next refresh in zone `tz`: `HH:MM` of `last`, and
/// `HH:MM` of `next`, with the weekday (`%a`) in front when it is another
/// day; both empty when `tz` names no zone.
pub open spec fn refresh_texts(last: i64, next: i64, tz: Seq<char>) -> (Seq<char>, Seq<char>) {
    match (crate::server::schedule::local_clock_at(last, tz), crate::server::schedule::local_clock_at(next, tz)) {
        (Some((y, m, d, s)), Some((y2, m2, d2, s2))) => (
            clock_hhmm(s),
            if y == y2 && m == m2 && d == d2 {
                clock_hhmm(s2)
            } else {
                crate::server::dates::date_text(y2, m2, d2, "%a"@) + " "@ + clock_hhmm(s2)
            },
        ),
        _ => (Seq::empty(), Seq::empty()),
    }
}

/// The instant the painted frame stops being current: `next_secs` after
/// `now`.
pub fn refresh_until_at(now: crate::server::frame::UtcStamp, next_secs: u64) -> (r: crate::server::frame::UtcStamp)
    requires
        next_secs <= crate::server::schedule::MAX_DELTA_SECS,
        crate::server::schedule::utc_in_range(now.secs + next_secs),
    ensures
        r == (crate::server::frame::UtcStamp { secs: (now.secs + next_secs) as i64, nanos: now.nanos }),
{
    crate::server::schedule::instant_after(now, next_secs)
}

impl Dashboard {
    /// Paint last/next using the arrival time and the real next slot
    /// instant (so 18:00 stays 18:00); nothing else changes.
    pub fn set_refresh_at(&mut self, last: crate::server::frame::UtcStamp, next: crate::server::frame::UtcStamp, tz: &str)
        requires
            crate::server::ics::clock_range(last.secs as int),
            crate::server::ics::clock_range(next.secs as int),
        ensures
            *final(self) == (Dashboard { last_refresh: final(self).last_refresh, next_refresh: final(self).next_refresh, ..*old(self) }),
            (final(self).last_refresh@, final(self).next_refresh@) == refresh_texts(last.secs, next.secs, tz@),
    {
        let a = crate::server::schedule::local_clock(last.secs, tz);
        let b = crate::server::schedule::local_clock(next.secs, tz);
        match (a, b) {
            (Some((day, s)), Some((day2, s2))) => {
                self.last_refresh = clock_text(s);
                if day.year == day2.year && day.month == day2.month && day.day == day2.day {
                    self.next_refresh = clock_text(s2);
                } else {
                    let mut t = crate::server::dates::format_date(day2, "%a");
                    let ghost w = t@;
                    crate::text::push_str(&mut t, " ");
                    let c = clock_text(s2);
                    crate::text::push_str(&mut t, c.as_str());
                    assert(t@ =~= w + " "@ + clock_hhmm(s2));
                    self.next_refresh = t;
                }
            },
            _ => {
                self.last_refresh = String::new();
                self.next_refresh = String::new();
            },
        }
    }

    /// Paint last/next for a poll at `now` whose frame holds `next_secs`.
    pub fn set_refresh_window(&mut self, now: crate::server::frame::UtcStamp, next_secs: u64, tz: &str)
        requires
            crate::server::ics::clock_range(now.secs as int),
            next_secs <= crate::server::schedule::MAX_DELTA_SECS,
            crate::server::ics::clock_range(now.secs + next_secs),
        ensures
            *final(self) == (Dashboard { last_refresh: final(self).last_refresh, next_refresh: final(self).next_refresh, ..*old(self) }),
            (final(self).last_refresh@, final(self).next_refresh@) == refresh_texts(now.secs, (now.secs + next_secs) as i64, tz@),
    {
        proof {
            crate::server::dates::lemma_day_bounds();
        }
        let until = refresh_until_at(now, next_secs);
        self.set_refresh_at(now, until, tz);
    }
}

} // verus!
