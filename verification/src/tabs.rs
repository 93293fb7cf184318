//! The tab bar: tab labels and widths, where each tab sits for a scroll
//! offset, which offset centres the active tab, and the hit areas of the
//! scroll and new-tab buttons.
use vstd::prelude::*;
use crate::layout::{self, Rect};
use crate::text;
use crate::width;

verus! {

pub const MIN_TAB_WIDTH: u16 = 8;

pub const NEW_TAB_WIDTH: u16 = 3;

pub const TAB_SCROLL_BUTTON_WIDTH: u16 = 3;

/// The tabs of a workspace as the layout measures them: the display width
/// of each tab's label, and which tab is active.
#[derive(Debug)]
pub struct TabWidths {
    pub label_widths: Vec<u16>,
    pub active_tab: usize,
}

/// A tab is its label with two columns of padding on each side, and at least
/// `MIN_TAB_WIDTH` columns.
pub open spec fn tab_width_spec(label_width: u16) -> u16 {
    layout::max16(layout::sat_add(label_width, 4), MIN_TAB_WIDTH)
}

fn label_tab_width(label_width: u16) -> (r: u16)
    ensures
        r == tab_width_spec(label_width),
        r >= MIN_TAB_WIDTH,
{
    layout::max_u16(label_width.saturating_add(4), MIN_TAB_WIDTH)
}

/// The label of a tab: its name (or its 1-based number), followed by ` Z`
/// when the tab is zoomed.
pub open spec fn tab_chrome_label_spec(display_name: Option<Seq<char>>, tab_idx: usize, zoomed: bool) -> Seq<
    char,
> {
    let name = match display_name {
        Some(n) => n,
        None => text::decimal((tab_idx + 1) as nat),
    };
    if zoomed {
        name + seq![' ', 'Z']
    } else {
        name
    }
}

fn chrome_label(display_name: Option<&str>, tab_idx: usize, zoomed: bool) -> (r: String)
    requires
        display_name is None ==> tab_idx < usize::MAX,
    ensures
        r@ == tab_chrome_label_spec(
            match display_name {
                Some(n) => Some(n@),
                None => None,
            },
            tab_idx,
            zoomed,
        ),
{
    let mut label: Vec<char> = match display_name {
        Some(n) => text::chars_of(n),
        None => {
            let mut digits: Vec<char> = Vec::new();
            text::push_decimal(&mut digits, (tab_idx + 1) as u64);
            assert(digits@ =~= text::decimal((tab_idx + 1) as nat));
            digits
        },
    };
    if zoomed {
        label.push(' ');
        label.push('Z');
    }
    text::string_from_chars(label.as_slice())
}

/// A tab of the workspace: the name it is shown under, where it has one,
/// and whether it is zoomed.
#[derive(Debug)]
pub struct TabInfo {
    pub display_name: Option<String>,
    pub zoomed: bool,
}

/// The tabs of the workspace the tab bar shows, and which one is active.
#[derive(Debug)]
pub struct TabBarTabs {
    pub tabs: Vec<TabInfo>,
    pub active_tab: usize,
}

/// The label of tab `idx`; an index past the last tab is shown as its
/// number.
pub open spec fn tab_label_spec(tabs: Seq<TabInfo>, idx: usize) -> Seq<char> {
    if idx < tabs.len() {
        tab_chrome_label_spec(
            text::opt_view(tabs[idx as int].display_name),
            idx,
            tabs[idx as int].zoomed,
        )
    } else {
        tab_chrome_label_spec(None, idx, false)
    }
}

/// Tab `idx` has a name, or a number that can be computed.
pub open spec fn labelled(tabs: Seq<TabInfo>, idx: usize) -> bool {
    (idx < tabs.len() && tabs[idx as int].display_name is Some) || idx < usize::MAX
}

pub fn tab_chrome_label(tabs: &TabBarTabs, tab_idx: usize) -> (r: String)
    requires
        labelled(tabs.tabs@, tab_idx),
    ensures
        r@ == tab_label_spec(tabs.tabs@, tab_idx),
{
    if tab_idx < tabs.tabs.len() {
        let tab = &tabs.tabs[tab_idx];
        let name: Option<&str> = match &tab.display_name {
            Some(n) => Some(n.as_str()),
            None => None,
        };
        chrome_label(name, tab_idx, tab.zoomed)
    } else {
        chrome_label(None, tab_idx, false)
    }
}

/// The display width of each tab's label.
pub open spec fn measured_widths(tabs: Seq<TabInfo>) -> Seq<u16> {
    Seq::new(tabs.len(), |i: int| width::display_width_u16_spec(tab_label_spec(tabs, i as usize)))
}

/// The width of tab `idx` in the bar: its label's display width with two
/// columns of padding on each side, and at least `MIN_TAB_WIDTH`.
pub fn tab_width(tabs: &TabBarTabs, tab_idx: usize) -> (r: u16)
    requires
        labelled(tabs.tabs@, tab_idx),
    ensures
        r == tab_width_spec(width::display_width_u16_spec(tab_label_spec(tabs.tabs@, tab_idx))),
        r >= MIN_TAB_WIDTH,
{
    let label = tab_chrome_label(tabs, tab_idx);
    label_tab_width(width::display_width_u16(label.as_str()))
}

/// Measures the tabs' labels for the layout.
pub fn measure_tabs(tabs: &TabBarTabs) -> (r: TabWidths)
    ensures
        r.label_widths@ == measured_widths(tabs.tabs@),
        r.active_tab == tabs.active_tab,
{
    let mut widths: Vec<u16> = Vec::new();
    let mut k: usize = 0;
    while k < tabs.tabs.len()
        invariant
            k <= tabs.tabs.len(),
            widths@ == measured_widths(tabs.tabs@).take(k as int),
        decreases tabs.tabs.len() - k,
    {
        let label = tab_chrome_label(tabs, k);
        widths.push(width::display_width_u16(label.as_str()));
        k = k + 1;
        assert(widths@ =~= measured_widths(tabs.tabs@).take(k as int));
    }
    assert(measured_widths(tabs.tabs@).take(tabs.tabs.len() as int) =~= measured_widths(
        tabs.tabs@,
    ));
    TabWidths { label_widths: widths, active_tab: tabs.active_tab }
}

pub open spec fn tab_widths(labels: Seq<u16>) -> Seq<u16> {
    labels.map_values(|w: u16| tab_width_spec(w))
}

pub open spec fn zeros(n: int) -> Seq<Rect> {
    Seq::new(n as nat, |i: int| Rect::zero())
}

/// The tabs from `idx` on, laid out from column `x` up to `right` in row
/// `y`: each as wide as it wants and fits (at least one column), one column
/// apart; tabs that start at or past `right` get an empty rectangle.
pub open spec fn layout_from(tw: Seq<u16>, y: u16, right: u16, x: u16, idx: int) -> Seq<Rect>
    decreases tw.len() - idx,
{
    if idx >= tw.len() || idx < 0 {
        Seq::<Rect>::empty()
    } else if x >= right {
        zeros(tw.len() - idx)
    } else {
        let w = layout::max16(layout::min16(tw[idx], (right - x) as u16), 1);
        seq![Rect::new_spec(x, y, w, 1)] + layout_from(
            tw,
            y,
            right,
            layout::sat_add(x, (w + 1) as u16),
            idx + 1,
        )
    }
}

/// The hit area of each tab when the bar in `area` is scrolled by `scroll`
/// tabs: tabs before the scroll offset, and all tabs of an empty area, get an
/// empty rectangle.
pub open spec fn layout_spec(labels: Seq<u16>, area: Rect, scroll: usize) -> Seq<Rect> {
    let n = labels.len() as int;
    if area.width == 0 || area.height == 0 {
        zeros(n)
    } else {
        let s = if scroll < n {
            scroll as int
        } else {
            n
        };
        zeros(s) + layout_from(tab_widths(labels), area.y, (area.x + area.width) as u16, area.x, s)
    }
}

/// The layout's column arithmetic stays within `u16`: an area with room
/// ends within the grid, and a tab is as wide as the whole grid only where
/// the area does not start at column 0 and span it.
pub open spec fn layout_fits(labels: Seq<u16>, area: Rect) -> bool {
    area.width == 0 || area.height == 0 || {
        &&& area.wf()
        &&& (area.x > 0 || area.width < u16::MAX || forall|i: int|
            0 <= i < labels.len() ==> tab_width_spec(#[trigger] labels[i]) < u16::MAX)
    }
}

proof fn lemma_layout_from_len(tw: Seq<u16>, y: u16, right: u16, x: u16, idx: int)
    requires
        0 <= idx <= tw.len(),
    ensures
        layout_from(tw, y, right, x, idx).len() == tw.len() - idx,
    decreases tw.len() - idx,
{
    if idx < tw.len() && x < right {
        let w = layout::max16(layout::min16(tw[idx], (right - x) as u16), 1);
        lemma_layout_from_len(tw, y, right, layout::sat_add(x, (w + 1) as u16), idx + 1);
    }
}

/// Whether the tab bar can be laid out in `area` (see `layout_fits`).
pub fn tab_layout_fits(tabs: &TabWidths, area: Rect) -> (r: bool)
    ensures
        r == layout_fits(tabs.label_widths@, area),
{
    if area.width == 0 || area.height == 0 {
        return true;
    }
    if !area.is_within_grid() {
        return false;
    }
    if area.x > 0 || area.width < u16::MAX {
        return true;
    }
    let mut k: usize = 0;
    while k < tabs.label_widths.len()
        invariant
            k <= tabs.label_widths.len(),
            area.wf(),
            area.height != 0,
            area.x == 0,
            area.width == u16::MAX,
            forall|i: int| 0 <= i < k ==> tab_width_spec(#[trigger] tabs.label_widths@[i]) < u16::MAX,
        decreases tabs.label_widths.len() - k,
    {
        if label_tab_width(tabs.label_widths[k]) == u16::MAX {
            assert(!(tab_width_spec(tabs.label_widths@[k as int]) < u16::MAX));
            return false;
        }
        k = k + 1;
    }
    true
}

/// Where each tab sits when the bar is scrolled by `scroll` tabs.
#[verifier::rlimit(30)]
pub fn layout_tab_hit_areas(tabs: &TabWidths, area: Rect, scroll: usize) -> (r: Vec<Rect>)
    requires
        layout_fits(tabs.label_widths@, area),
    ensures
        r@ == layout_spec(tabs.label_widths@, area, scroll),
{
    let n = tabs.label_widths.len();
    let mut rects: Vec<Rect> = Vec::new();
    let mut k: usize = 0;
    while k < n
        invariant
            k <= n,
            rects@ == zeros(k as int),
        decreases n - k,
    {
        rects.push(Rect::default());
        k = k + 1;
        assert(rects@ =~= zeros(k as int));
    }
    if area.width == 0 || area.height == 0 {
        return rects;
    }
    let ghost tw = tab_widths(tabs.label_widths@);
    let right = area.x + area.width;
    let s: usize = if scroll < n {
        scroll
    } else {
        n
    };
    let ghost full = layout_from(tw, area.y, right, area.x, s as int);
    proof {
        lemma_layout_from_len(tw, area.y, right, area.x, s as int);
    }
    let mut x = area.x;
    let mut idx = s;
    assert(full.skip(0) =~= full);
    assert(rects@ =~= zeros(s as int) + full.take(0) + zeros(n - s));
    while idx < n
        invariant
            s <= idx <= n,
            n == tabs.label_widths.len(),
            area.width != 0 && area.height != 0,
            s == if scroll < n {
                scroll
            } else {
                n
            },
            tw == tab_widths(tabs.label_widths@),
            tw.len() == n,
            right == area.x + area.width,
            layout_fits(tabs.label_widths@, area),
            area.x <= x,
            x == area.x || x > 0,
            idx == s || x > 0,
            full.len() == n - s,
            full == layout_from(tw, area.y, right, area.x, s as int),
            layout_from(tw, area.y, right, x, idx as int) == full.skip(idx - s),
            rects@ == zeros(s as int) + full.take(idx - s) + zeros(n - idx),
        decreases n - idx,
    {
        if x >= right {
            assert(full.skip(idx - s) =~= zeros(n - idx));
            assert(full =~= full.take(idx - s) + full.skip(idx - s));
            assert(rects@ =~= zeros(s as int) + full);
            return rects;
        }
        let desired = label_tab_width(tabs.label_widths[idx]);
        assert(desired == tw[idx as int]);
        let remaining = right - x;
        let width = layout::max_u16(layout::min_u16(desired, remaining), 1);
        assert(width < u16::MAX) by {
            if x == 0 {
                assert(area.x == 0);
                if area.width == u16::MAX {
                    assert(tab_width_spec(tabs.label_widths@[idx as int]) < u16::MAX);
                }
            }
        }
        let rect = Rect::new(x, area.y, width, 1);
        let ghost before = rects@;
        rects.set(idx, rect);
        let ghost step = layout_from(tw, area.y, right, x, idx as int);
        assert(step[0] == rect);
        assert(step.skip(1) =~= layout_from(
            tw,
            area.y,
            right,
            layout::sat_add(x, (width + 1) as u16),
            idx + 1,
        ));
        assert(full.skip(idx - s)[0] == rect);
        assert(full.skip(idx + 1 - s) =~= full.skip(idx - s).skip(1));
        x = x.saturating_add(width + 1);
        idx = idx + 1;
        assert(full.take(idx - s) =~= full.take(idx - 1 - s).push(rect));
        assert(rects@ =~= zeros(s as int) + full.take(idx - s) + zeros(n - idx));
    }
    assert(full.take(n - s) =~= full);
    assert(rects@ =~= zeros(s as int) + full);
    rects
}

pub open spec fn all_wf(rects: Seq<Rect>) -> bool {
    forall|i: int| 0 <= i < rects.len() ==> (#[trigger] rects[i]).wf()
}

proof fn lemma_layout_from_wf(tw: Seq<u16>, y: u16, right: u16, x: u16, idx: int)
    ensures
        all_wf(layout_from(tw, y, right, x, idx)),
    decreases tw.len() - idx,
{
    if idx >= tw.len() || idx < 0 {
    } else if x >= right {
    } else {
        let w = layout::max16(layout::min16(tw[idx], (right - x) as u16), 1);
        let rest = layout_from(tw, y, right, layout::sat_add(x, (w + 1) as u16), idx + 1);
        lemma_layout_from_wf(tw, y, right, layout::sat_add(x, (w + 1) as u16), idx + 1);
        let l = layout_from(tw, y, right, x, idx);
        assert forall|i: int| 0 <= i < l.len() implies (#[trigger] l[i]).wf() by {
            if i > 0 {
                assert(l[i] == rest[i - 1]);
            }
        }
    }
}

/// Every hit area of a layout lies within the grid.
pub proof fn lemma_layout_wf(labels: Seq<u16>, area: Rect, scroll: usize)
    ensures
        all_wf(layout_spec(labels, area, scroll)),
        layout_spec(labels, area, scroll).len() == labels.len(),
{
    let n = labels.len() as int;
    if area.width == 0 || area.height == 0 {
    } else {
        let s = if scroll < n {
            scroll as int
        } else {
            n
        };
        let tw = tab_widths(labels);
        let right = (area.x + area.width) as u16;
        lemma_layout_from_wf(tw, area.y, right, area.x, s);
        lemma_layout_from_len(tw, area.y, right, area.x, s);
        let l = layout_spec(labels, area, scroll);
        let f = layout_from(tw, area.y, right, area.x, s);
        assert forall|i: int| 0 <= i < l.len() implies (#[trigger] l[i]).wf() by {
            if i >= s {
                assert(l[i] == f[i - s]);
            }
        }
    }
}

/// The tabs laid out from column `x`: those with room lie between `x` and
/// `right` in row `y`, in order and one column apart, and once a tab has no
/// room no later tab has.
#[verifier::rlimit(30)]
proof fn lemma_layout_from_placed(tw: Seq<u16>, y: u16, right: u16, x: u16, idx: int)
    requires
        0 <= idx <= tw.len(),
        right <= u16::MAX,
        x > 0 || right < u16::MAX || forall|i: int| 0 <= i < tw.len() ==> #[trigger] tw[i] < u16::MAX,
    ensures
        ({
            let l = layout_from(tw, y, right, x, idx);
            &&& forall|i: int|
                0 <= i < l.len() && (#[trigger] l[i]).width > 0 ==> x <= l[i].x && l[i].x
                    + l[i].width <= right && l[i].y == y
            &&& forall|i: int, j: int|
                0 <= i < j < l.len() && (#[trigger] l[i]).width > 0 && (#[trigger] l[j]).width > 0
                    ==> l[i].x + l[i].width < l[j].x
            &&& forall|i: int, j: int|
                0 <= i < j < l.len() && (#[trigger] l[j]).width > 0 ==> (#[trigger] l[i]).width
                    > 0
            &&& idx < tw.len() && x < right ==> l[0].width > 0
        }),
    decreases tw.len() - idx,
{
    let l = layout_from(tw, y, right, x, idx);
    lemma_layout_from_len(tw, y, right, x, idx);
    if idx >= tw.len() {
    } else if x >= right {
        assert forall|i: int| 0 <= i < l.len() implies (#[trigger] l[i]).width == 0 by {}
    } else {
        let w = layout::max16(layout::min16(tw[idx], (right - x) as u16), 1);
        assert(w <= right - x);
        assert(w < u16::MAX);
        let nx = layout::sat_add(x, (w + 1) as u16);
        let rest = layout_from(tw, y, right, nx, idx + 1);
        lemma_layout_from_placed(tw, y, right, nx, idx + 1);
        lemma_layout_from_len(tw, y, right, nx, idx + 1);
        let head = Rect::new_spec(x, y, w, 1);
        assert(head.width == w);
        assert(l[0] == head);
        assert forall|i: int| 1 <= i < l.len() implies #[trigger] l[i] == rest[i - 1] by {}
        if x + w + 1 > u16::MAX {
            assert(nx >= right);
            assert forall|i: int| 0 <= i < rest.len() implies (#[trigger] rest[i]).width == 0 by {}
        } else {
            assert(nx == x + w + 1);
        }
        assert forall|i: int|
            0 <= i < l.len() && (#[trigger] l[i]).width > 0 implies x <= l[i].x && l[i].x
                + l[i].width <= right && l[i].y == y by {
            if i > 0 {
                assert(l[i] == rest[i - 1]);
            }
        }
        assert forall|i: int, j: int|
            0 <= i < j < l.len() && (#[trigger] l[i]).width > 0 && (#[trigger] l[j]).width > 0
                implies l[i].x + l[i].width < l[j].x by {
            assert(l[j] == rest[j - 1]);
            if i > 0 {
                assert(l[i] == rest[i - 1]);
            }
        }
        assert forall|i: int, j: int|
            0 <= i < j < l.len() && (#[trigger] l[j]).width > 0 implies (#[trigger] l[i]).width
                > 0 by {
            assert(l[j] == rest[j - 1]);
            if i > 0 {
                assert(l[i] == rest[i - 1]);
            }
        }
    }
}

/// Tabs never spill out of the tab bar: every tab with room lies within
/// `area`, in its top row, after the scroll offset, in order and one column
/// apart; the tabs with room are consecutive, and the first tab after the
/// scroll offset always gets a column.
#[verifier::rlimit(30)]
pub proof fn lemma_layout_within_area(labels: Seq<u16>, area: Rect, scroll: usize)
    requires
        layout_fits(labels, area),
    ensures
        ({
            let l = layout_spec(labels, area, scroll);
            &&& l.len() == labels.len()
            &&& forall|i: int|
                0 <= i < l.len() && (#[trigger] l[i]).width > 0 ==> scroll <= i && area.x <= l[i].x
                    && l[i].x + l[i].width <= area.x + area.width && l[i].y == area.y
            &&& forall|i: int, j: int|
                0 <= i < j < l.len() && (#[trigger] l[i]).width > 0 && (#[trigger] l[j]).width > 0
                    ==> l[i].x + l[i].width < l[j].x
            &&& forall|i: int, j: int|
                scroll <= i < j < l.len() && (#[trigger] l[j]).width > 0 ==> (
                #[trigger] l[i]).width > 0
            &&& scroll < labels.len() && area.width > 0 && area.height > 0 ==> l[scroll as int].width
                > 0
        }),
{
    let n = labels.len() as int;
    let l = layout_spec(labels, area, scroll);
    lemma_layout_wf(labels, area, scroll);
    if area.width == 0 || area.height == 0 {
        assert forall|i: int| 0 <= i < l.len() implies (#[trigger] l[i]).width == 0 by {}
    } else {
        let s = if scroll < n {
            scroll as int
        } else {
            n
        };
        let tw = tab_widths(labels);
        let right = (area.x + area.width) as u16;
        assert(area.x > 0 || right < u16::MAX || forall|i: int|
            0 <= i < tw.len() ==> #[trigger] tw[i] < u16::MAX) by {
            if !(area.x > 0 || right < u16::MAX) {
                assert forall|i: int| 0 <= i < tw.len() implies #[trigger] tw[i] < u16::MAX by {
                    assert(tw[i] == tab_width_spec(labels[i]));
                }
            }
        }
        lemma_layout_from_placed(tw, area.y, right, area.x, s);
        lemma_layout_from_len(tw, area.y, right, area.x, s);
        let f = layout_from(tw, area.y, right, area.x, s);
        assert forall|i: int| 0 <= i < l.len() implies #[trigger] l[i] == if i < s {
            Rect::zero()
        } else {
            f[i - s]
        } by {}
        assert forall|i: int|
            0 <= i < l.len() && (#[trigger] l[i]).width > 0 implies scroll <= i && area.x <= l[i].x
                && l[i].x + l[i].width <= area.x + area.width && l[i].y == area.y by {
            assert(l[i] == f[i - s]);
        }
        assert forall|i: int, j: int|
            0 <= i < j < l.len() && (#[trigger] l[i]).width > 0 && (#[trigger] l[j]).width > 0
                implies l[i].x + l[i].width < l[j].x by {
            assert(l[i] == f[i - s]);
            assert(l[j] == f[j - s]);
        }
        assert forall|i: int, j: int|
            scroll <= i < j < l.len() && (#[trigger] l[j]).width > 0 implies (
            #[trigger] l[i]).width > 0 by {
            assert(l[i] == f[i - s]);
            assert(l[j] == f[j - s]);
        }
        if scroll < n {
            assert(l[scroll as int] == f[0]);
        }
    }
}

/// The column just past the last tab that has room, or `fallback` where none
/// has.
pub open spec fn trailing_x(rects: Seq<Rect>, fallback: u16) -> u16
    decreases rects.len(),
{
    if rects.len() == 0 {
        fallback
    } else if rects.last().width > 0 {
        (rects.last().x + rects.last().width) as u16
    } else {
        trailing_x(rects.drop_last(), fallback)
    }
}

/// The right edge of the last tab with room can be computed in `u16`.
pub open spec fn trailing_fits(rects: Seq<Rect>) -> bool
    decreases rects.len(),
{
    if rects.len() == 0 {
        true
    } else if rects.last().width > 0 {
        rects.last().x + rects.last().width <= u16::MAX
    } else {
        trailing_fits(rects.drop_last())
    }
}

proof fn lemma_trailing_fits(rects: Seq<Rect>)
    requires
        all_wf(rects),
    ensures
        trailing_fits(rects),
    decreases rects.len(),
{
    if rects.len() > 0 {
        assert(rects.last().wf());
        let d = rects.drop_last();
        assert forall|i: int| 0 <= i < d.len() implies (#[trigger] d[i]).wf() by {
            assert(d[i] == rects[i]);
        }
        lemma_trailing_fits(d);
    }
}

pub fn trailing_tab_controls_x(tab_hit_areas: &Vec<Rect>, fallback_x: u16) -> (r: u16)
    requires
        trailing_fits(tab_hit_areas@),
    ensures
        r == trailing_x(tab_hit_areas@, fallback_x),
{
    let mut k = tab_hit_areas.len();
    assert(tab_hit_areas@.take(k as int) =~= tab_hit_areas@);
    while k > 0
        invariant
            k <= tab_hit_areas.len(),
            trailing_fits(tab_hit_areas@.take(k as int)),
            trailing_x(tab_hit_areas@, fallback_x) == trailing_x(
                tab_hit_areas@.take(k as int),
                fallback_x,
            ),
        decreases k,
    {
        let rect = tab_hit_areas[k - 1];
        assert(tab_hit_areas@.take(k as int).last() == rect);
        assert(tab_hit_areas@.take(k as int).drop_last() =~= tab_hit_areas@.take(k - 1));
        if rect.width > 0 {
            return rect.x + rect.width;
        }
        k = k - 1;
    }
    fallback_x
}

/// The last tab has room when the bar is scrolled by `s`.
pub open spec fn last_fits(labels: Seq<u16>, area: Rect, s: usize) -> bool {
    let l = layout_spec(labels, area, s);
    l.len() > 0 && l.last().width > 0
}

pub open spec fn first_fitting(labels: Seq<u16>, area: Rect, k: nat) -> Option<usize>
    decreases k,
{
    if k == 0 {
        None
    } else {
        match first_fitting(labels, area, (k - 1) as nat) {
            Some(s) => Some(s),
            None => if last_fits(labels, area, (k - 1) as usize) {
                Some((k - 1) as usize)
            } else {
                None
            },
        }
    }
}

/// The smallest scroll offset at which the last tab has room, or 0.
pub open spec fn max_scroll_spec(labels: Seq<u16>, area: Rect) -> usize {
    match first_fitting(labels, area, labels.len()) {
        Some(s) => s,
        None => 0,
    }
}

pub fn max_tab_scroll(tabs: &TabWidths, area: Rect) -> (r: usize)
    requires
        layout_fits(tabs.label_widths@, area),
    ensures
        r == max_scroll_spec(tabs.label_widths@, area),
{
    let n = tabs.label_widths.len();
    let mut s: usize = 0;
    while s < n
        invariant
            s <= n,
            n == tabs.label_widths.len(),
            layout_fits(tabs.label_widths@, area),
            first_fitting(tabs.label_widths@, area, s as nat) is None,
        decreases n - s,
    {
        let rects = layout_tab_hit_areas(tabs, area, s);
        proof {
            lemma_layout_wf(tabs.label_widths@, area, s);
        }
        if rects.len() > 0 && rects[rects.len() - 1].width > 0 {
            assert(first_fitting(tabs.label_widths@, area, (s + 1) as nat) == Some(s));
            proof {
                lemma_first_fitting_stays(tabs.label_widths@, area, (s + 1) as nat, n as nat);
            }
            return s;
        }
        s = s + 1;
    }
    0
}

proof fn lemma_first_fitting_stays(labels: Seq<u16>, area: Rect, k: nat, m: nat)
    requires
        k <= m,
        first_fitting(labels, area, k) is Some,
    ensures
        first_fitting(labels, area, m) == first_fitting(labels, area, k),
    decreases m - k,
{
    if k < m {
        lemma_first_fitting_stays(labels, area, k, (m - 1) as nat);
    }
}

/// Twice the centre column of a span, as the bar compares centres.
pub open spec fn center_of(x: u16, width: u16) -> u16 {
    layout::sat_add(layout::sat_mul(x, 2), width)
}

/// The best scroll offset among `0..k` for centring the active tab, with its
/// distance; a later offset wins ties.
pub open spec fn centered_upto(labels: Seq<u16>, active: usize, area: Rect, k: nat) -> (usize, u16)
    decreases k,
{
    if k == 0 {
        (active, u16::MAX)
    } else {
        let (bs, bd) = centered_upto(labels, active, area, (k - 1) as nat);
        let s = (k - 1) as usize;
        let rects = layout_spec(labels, area, s);
        if active < rects.len() && rects[active as int].width > 0 {
            let d = layout::abs_diff(
                center_of(rects[active as int].x, rects[active as int].width),
                center_of(area.x, area.width),
            );
            if d <= bd {
                (s, d)
            } else {
                (bs, bd)
            }
        } else {
            (bs, bd)
        }
    }
}

/// The scroll offset, up to the active tab's index, that brings the active
/// tab's centre closest to the bar's centre.
pub open spec fn centered_scroll_spec(labels: Seq<u16>, active: usize, area: Rect) -> usize {
    centered_upto(labels, active, area, (active + 1) as nat).0
}

fn center_u16(x: u16, width: u16) -> (r: u16)
    ensures
        r == center_of(x, width),
{
    layout::saturating_mul_u16(x, 2).saturating_add(width)
}

#[verifier::rlimit(30)]
pub fn centered_tab_scroll(tabs: &TabWidths, area: Rect) -> (r: usize)
    requires
        layout_fits(tabs.label_widths@, area),
    ensures
        r == centered_scroll_spec(tabs.label_widths@, tabs.active_tab, area),
{
    let active = tabs.active_tab;
    let mut best_scroll = active;
    let mut best_distance = u16::MAX;
    let viewport_center = center_u16(area.x, area.width);
    let mut scroll: usize = 0;
    loop
        invariant_except_break
            scroll <= active,
            (best_scroll, best_distance) == centered_upto(
                tabs.label_widths@,
                active,
                area,
                scroll as nat,
            ),
        invariant
            layout_fits(tabs.label_widths@, area),
            active == tabs.active_tab,
            viewport_center == center_of(area.x, area.width),
        ensures
            best_scroll == centered_scroll_spec(tabs.label_widths@, active, area),
        decreases active - scroll,
    {
        let rects = layout_tab_hit_areas(tabs, area, scroll);
        if active < rects.len() && rects[active].width > 0 {
            let active_rect = rects[active];
            let distance = layout::abs_diff_u16(
                center_u16(active_rect.x, active_rect.width),
                viewport_center,
            );
            if distance <= best_distance {
                best_distance = distance;
                best_scroll = scroll;
            }
        }
        if scroll == active {
            break;
        }
        scroll = scroll + 1;
    }
    best_scroll
}

/// At scroll offset `t` the active tab has room in the bar.
pub open spec fn active_shown_at(labels: Seq<u16>, active: usize, area: Rect, t: int) -> bool {
    active < layout_spec(labels, area, t as usize).len() && layout_spec(
        labels,
        area,
        t as usize,
    )[active as int].width > 0
}

/// How far the active tab's centre is from the bar's centre at scroll
/// offset `t`, in half columns: |(2x + w) - (2 area.x + area.width)|.
pub open spec fn active_centre_offset(labels: Seq<u16>, active: usize, area: Rect, t: int) -> int {
    let r = layout_spec(labels, area, t as usize)[active as int];
    let d = (2 * r.x + r.width) - (2 * area.x + area.width);
    if d < 0 {
        -d
    } else {
        d
    }
}

proof fn lemma_centre_exact(x: u16, w: u16)
    requires
        2 * x + w <= u16::MAX,
    ensures
        center_of(x, w) == 2 * x + w,
{
}

/// What `centered_upto` holds after looking at the offsets below `k`.
proof fn lemma_centered_upto_closest(labels: Seq<u16>, active: usize, area: Rect, k: nat)
    requires
        layout_fits(labels, area),
        2 * (area.x + area.width) <= u16::MAX,
        k <= active + 1,
    ensures
        ({
            let (bs, bd) = centered_upto(labels, active, area, k);
            &&& (forall|t: int| 0 <= t < k ==> !#[trigger] active_shown_at(labels, active, area, t))
                ==> bs == active && bd == u16::MAX
            &&& (exists|t: int| 0 <= t < k && #[trigger] active_shown_at(labels, active, area, t))
                ==> {
                &&& bs < k
                &&& active_shown_at(labels, active, area, bs as int)
                &&& bd == active_centre_offset(labels, active, area, bs as int)
                &&& forall|t: int|
                    0 <= t < k && #[trigger] active_shown_at(labels, active, area, t) ==> bd
                        <= active_centre_offset(labels, active, area, t) && (t > bs
                        ==> active_centre_offset(labels, active, area, t) > bd)
            }
        }),
    decreases k,
{
    if k > 0 {
        let km = (k - 1) as nat;
        lemma_centered_upto_closest(labels, active, area, km);
        let s = (k - 1) as usize;
        let rects = layout_spec(labels, area, s);
        lemma_layout_within_area(labels, area, s);
        lemma_centre_exact(area.x, area.width);
        if active < rects.len() && rects[active as int].width > 0 {
            let r = rects[active as int];
            lemma_centre_exact(r.x, r.width);
            assert(active_shown_at(labels, active, area, s as int));
            assert(layout::abs_diff(center_of(r.x, r.width), center_of(area.x, area.width))
                == active_centre_offset(labels, active, area, s as int));
        }
        let (bs, bd) = centered_upto(labels, active, area, k);
        if exists|t: int| 0 <= t < k && #[trigger] active_shown_at(labels, active, area, t) {
            if !active_shown_at(labels, active, area, km as int) {
                let t0 = choose|t: int| 0 <= t < k && #[trigger] active_shown_at(labels, active, area, t);
                assert(t0 < km);
            }
        } else {
            assert(!active_shown_at(labels, active, area, km as int));
        }
    }
}

/// Following the active tab centres it: among the offsets up to the active
/// tab's index at which it has room, the chosen offset brings its centre
/// closest to the bar's centre, and any later offset is strictly farther
/// (ties go to the later offset); where no offset gives it room, the offset
/// is the active index. Stated where the doubled centres stay within `u16`.
pub proof fn lemma_centered_scroll_centres_active(labels: Seq<u16>, active: usize, area: Rect)
    requires
        layout_fits(labels, area),
        2 * (area.x + area.width) <= u16::MAX,
    ensures
        ({
            let s = centered_scroll_spec(labels, active, area);
            &&& (forall|t: int| 0 <= t <= active ==> !#[trigger] active_shown_at(labels, active, area, t))
                ==> s == active
            &&& (exists|t: int| 0 <= t <= active && #[trigger] active_shown_at(labels, active, area, t))
                ==> {
                &&& s <= active
                &&& active_shown_at(labels, active, area, s as int)
                &&& forall|t: int|
                    0 <= t <= active && #[trigger] active_shown_at(labels, active, area, t)
                        ==> active_centre_offset(labels, active, area, s as int)
                        <= active_centre_offset(labels, active, area, t) && (t > s
                        ==> active_centre_offset(labels, active, area, t)
                        > active_centre_offset(labels, active, area, s as int))
            }
        }),
{
    lemma_centered_upto_closest(labels, active, area, (active + 1) as nat);
}

/// Where the tab bar's parts sit: the scroll offset, each tab's hit area,
/// and the scroll buttons and new-tab button (empty where not shown).
#[derive(Debug)]
pub struct TabBarView {
    pub scroll: usize,
    pub tab_hit_areas: Vec<Rect>,
    pub scroll_left_hit_area: Rect,
    pub scroll_right_hit_area: Rect,
    pub new_tab_hit_area: Rect,
}

pub type TabBarViewSpec = (usize, Seq<Rect>, Rect, Rect, Rect);

impl View for TabBarView {
    type V = TabBarViewSpec;

    open spec fn view(&self) -> TabBarViewSpec {
        (
            self.scroll,
            self.tab_hit_areas@,
            self.scroll_left_hit_area,
            self.scroll_right_hit_area,
            self.new_tab_hit_area,
        )
    }
}

pub open spec fn min_usize(a: usize, b: usize) -> usize {
    if a < b {
        a
    } else {
        b
    }
}

/// The scroll offset within `area`: centring the active tab when following
/// it, else the current offset; never past the largest useful offset.
pub open spec fn chosen_scroll(
    labels: Seq<u16>,
    active: usize,
    area: Rect,
    current_scroll: usize,
    follow_active: bool,
) -> usize {
    let max_s = max_scroll_spec(labels, area);
    if follow_active {
        min_usize(centered_scroll_spec(labels, active, area), max_s)
    } else {
        min_usize(current_scroll, max_s)
    }
}

pub open spec fn has_hidden_tab(rects: Seq<Rect>) -> bool {
    exists|i: int| 0 <= i < rects.len() && (#[trigger] rects[i]).width == 0
}

/// The tab bar in `area`. Without mouse controls the tabs take the whole
/// area. With them, where every tab fits beside a new-tab button the button
/// follows the last tab; otherwise a scroll-left button comes first, and a
/// scroll-right button and the new-tab button follow the last tab that has
/// room, with the tabs between.
pub open spec fn tab_bar_view_spec(
    labels: Seq<u16>,
    active: usize,
    area: Rect,
    current_scroll: usize,
    follow_active: bool,
    mouse_chrome: bool,
) -> TabBarViewSpec {
    if area.width == 0 || area.height == 0 {
        (0, Seq::<Rect>::empty(), Rect::zero(), Rect::zero(), Rect::zero())
    } else if !mouse_chrome {
        let scroll = chosen_scroll(labels, active, area, current_scroll, follow_active);
        (scroll, layout_spec(labels, area, scroll), Rect::zero(), Rect::zero(), Rect::zero())
    } else {
        let area_right = (area.x + area.width) as u16;
        let all_tabs_area = Rect::new_spec(
            area.x,
            area.y,
            layout::sat_sub(area.width, NEW_TAB_WIDTH),
            area.height,
        );
        let all_tabs = layout_spec(labels, all_tabs_area, 0);
        if !has_hidden_tab(all_tabs) {
            let new_tab_x = trailing_x(all_tabs, area.x);
            (
                0,
                all_tabs,
                Rect::zero(),
                Rect::zero(),
                Rect::new_spec(
                    new_tab_x,
                    area.y,
                    layout::min16(layout::sat_sub(area_right, new_tab_x), NEW_TAB_WIDTH),
                    1,
                ),
            )
        } else {
            let left = Rect::new_spec(
                area.x,
                area.y,
                layout::min16(TAB_SCROLL_BUTTON_WIDTH, area.width),
                1,
            );
            let tab_area_x = (left.x + left.width) as u16;
            let tab_area_right = layout::sat_sub(
                area_right,
                layout::sat_add(NEW_TAB_WIDTH, TAB_SCROLL_BUTTON_WIDTH),
            );
            let tab_area = Rect::new_spec(
                tab_area_x,
                area.y,
                layout::sat_sub(tab_area_right, tab_area_x),
                area.height,
            );
            let scroll = chosen_scroll(labels, active, tab_area, current_scroll, follow_active);
            let hits = layout_spec(labels, tab_area, scroll);
            let trailing = layout::min16(trailing_x(hits, tab_area_x), tab_area_right);
            let right = Rect::new_spec(
                trailing,
                area.y,
                layout::min16(layout::sat_sub(area_right, trailing), TAB_SCROLL_BUTTON_WIDTH),
                1,
            );
            let new_tab_x = (right.x + right.width) as u16;
            (
                scroll,
                hits,
                left,
                right,
                Rect::new_spec(
                    new_tab_x,
                    area.y,
                    layout::min16(layout::sat_sub(area_right, new_tab_x), NEW_TAB_WIDTH),
                    1,
                ),
            )
        }
    }
}

fn chosen_scroll_exec(
    tabs: &TabWidths,
    area: Rect,
    current_scroll: usize,
    follow_active: bool,
) -> (r: usize)
    requires
        layout_fits(tabs.label_widths@, area),
    ensures
        r == chosen_scroll(tabs.label_widths@, tabs.active_tab, area, current_scroll, follow_active),
{
    let max_scroll = max_tab_scroll(tabs, area);
    let wanted = if follow_active {
        centered_tab_scroll(tabs, area)
    } else {
        current_scroll
    };
    if wanted < max_scroll {
        wanted
    } else {
        max_scroll
    }
}

fn any_hidden(rects: &Vec<Rect>) -> (r: bool)
    ensures
        r == has_hidden_tab(rects@),
{
    let mut k: usize = 0;
    while k < rects.len()
        invariant
            k <= rects.len(),
            forall|i: int| 0 <= i < k ==> (#[trigger] rects@[i]).width != 0,
        decreases rects.len() - k,
    {
        if rects[k].width == 0 {
            assert(rects@[k as int].width == 0);
            return true;
        }
        k = k + 1;
    }
    false
}

/// Lays out the tab bar for tabs of the given label widths (see
/// `tab_bar_view_spec`).
#[verifier::rlimit(30)]
pub fn tab_bar_view_for_widths(
    tabs: &TabWidths,
    area: Rect,
    current_scroll: usize,
    follow_active: bool,
    mouse_chrome: bool,
) -> (r: TabBarView)
    requires
        layout_fits(tabs.label_widths@, area),
    ensures
        r@ == tab_bar_view_spec(
            tabs.label_widths@,
            tabs.active_tab,
            area,
            current_scroll,
            follow_active,
            mouse_chrome,
        ),
{
    if area.width == 0 || area.height == 0 {
        return TabBarView {
            scroll: 0,
            tab_hit_areas: Vec::new(),
            scroll_left_hit_area: Rect::default(),
            scroll_right_hit_area: Rect::default(),
            new_tab_hit_area: Rect::default(),
        };
    }
    if !mouse_chrome {
        let scroll = chosen_scroll_exec(tabs, area, current_scroll, follow_active);
        return TabBarView {
            scroll,
            tab_hit_areas: layout_tab_hit_areas(tabs, area, scroll),
            scroll_left_hit_area: Rect::default(),
            scroll_right_hit_area: Rect::default(),
            new_tab_hit_area: Rect::default(),
        };
    }
    let area_right = area.x + area.width;
    let all_tabs_area = Rect::new(
        area.x,
        area.y,
        area.width.saturating_sub(NEW_TAB_WIDTH),
        area.height,
    );
    let all_tabs = layout_tab_hit_areas(tabs, all_tabs_area, 0);
    proof {
        lemma_layout_wf(tabs.label_widths@, all_tabs_area, 0);
        lemma_trailing_fits(all_tabs@);
    }
    if !any_hidden(&all_tabs) {
        let new_tab_x = trailing_tab_controls_x(&all_tabs, area.x);
        let new_tab_hit_area = Rect::new(
            new_tab_x,
            area.y,
            layout::min_u16(area_right.saturating_sub(new_tab_x), NEW_TAB_WIDTH),
            1,
        );
        return TabBarView {
            scroll: 0,
            tab_hit_areas: all_tabs,
            scroll_left_hit_area: Rect::default(),
            scroll_right_hit_area: Rect::default(),
            new_tab_hit_area,
        };
    }
    let left_hit_area = Rect::new(
        area.x,
        area.y,
        layout::min_u16(TAB_SCROLL_BUTTON_WIDTH, area.width),
        1,
    );
    let tab_area_x = left_hit_area.x + left_hit_area.width;
    let reserved_trailing_width = NEW_TAB_WIDTH.saturating_add(TAB_SCROLL_BUTTON_WIDTH);
    let tab_area_right = area_right.saturating_sub(reserved_trailing_width);
    let tab_area = Rect::new(
        tab_area_x,
        area.y,
        tab_area_right.saturating_sub(tab_area_x),
        area.height,
    );
    let scroll = chosen_scroll_exec(tabs, tab_area, current_scroll, follow_active);
    let tab_hit_areas = layout_tab_hit_areas(tabs, tab_area, scroll);
    proof {
        lemma_layout_wf(tabs.label_widths@, tab_area, scroll);
        lemma_trailing_fits(tab_hit_areas@);
    }
    let trailing_x = layout::min_u16(
        trailing_tab_controls_x(&tab_hit_areas, tab_area_x),
        tab_area_right,
    );
    let right_hit_area = Rect::new(
        trailing_x,
        area.y,
        layout::min_u16(area_right.saturating_sub(trailing_x), TAB_SCROLL_BUTTON_WIDTH),
        1,
    );
    let new_tab_x = right_hit_area.x + right_hit_area.width;
    let new_tab_hit_area = Rect::new(
        new_tab_x,
        area.y,
        layout::min_u16(area_right.saturating_sub(new_tab_x), NEW_TAB_WIDTH),
        1,
    );
    TabBarView {
        scroll,
        tab_hit_areas,
        scroll_left_hit_area: left_hit_area,
        scroll_right_hit_area: right_hit_area,
        new_tab_hit_area,
    }
}

/// Lays out the tab bar of the workspace's tabs in `area` (see
/// `tab_bar_view_spec`).
pub fn compute_tab_bar_view(
    tabs: &TabBarTabs,
    area: Rect,
    current_scroll: usize,
    follow_active: bool,
    mouse_chrome: bool,
) -> (r: TabBarView)
    requires
        layout_fits(measured_widths(tabs.tabs@), area),
    ensures
        r@ == tab_bar_view_spec(
            measured_widths(tabs.tabs@),
            tabs.active_tab,
            area,
            current_scroll,
            follow_active,
            mouse_chrome,
        ),
{
    let widths = measure_tabs(tabs);
    tab_bar_view_for_widths(&widths, area, current_scroll, follow_active, mouse_chrome)
}

/// The tab bar's layout, or none where its columns cannot be counted in
/// `u16` (see `layout_fits`).
pub fn tab_bar_view(
    tabs: &TabBarTabs,
    area: Rect,
    current_scroll: usize,
    follow_active: bool,
    mouse_chrome: bool,
) -> (r: Option<TabBarView>)
    ensures
        layout_fits(measured_widths(tabs.tabs@), area) <==> r is Some,
        r matches Some(v) ==> v@ == tab_bar_view_spec(
            measured_widths(tabs.tabs@),
            tabs.active_tab,
            area,
            current_scroll,
            follow_active,
            mouse_chrome,
        ),
{
    let widths = measure_tabs(tabs);
    if tab_layout_fits(&widths, area) {
        Some(compute_tab_bar_view(tabs, area, current_scroll, follow_active, mouse_chrome))
    } else {
        None
    }
}

/// The first tab with room.
pub open spec fn first_visible(rects: Seq<Rect>) -> Option<int>
    decreases rects.len(),
{
    if rects.len() == 0 {
        None
    } else {
        match first_visible(rects.drop_last()) {
            Some(i) => Some(i),
            None => if rects.last().width > 0 {
                Some(rects.len() - 1)
            } else {
                None
            },
        }
    }
}

/// The last tab with room.
pub open spec fn last_visible(rects: Seq<Rect>) -> Option<int>
    decreases rects.len(),
{
    if rects.len() == 0 {
        None
    } else if rects.last().width > 0 {
        Some(rects.len() - 1)
    } else {
        last_visible(rects.drop_last())
    }
}

proof fn lemma_visible_bounds(rects: Seq<Rect>)
    ensures
        first_visible(rects) matches Some(i) ==> 0 <= i < rects.len() && rects[i].width > 0
            && forall|j: int| 0 <= j < i ==> (#[trigger] rects[j]).width == 0,
        first_visible(rects) is None ==> forall|j: int|
            0 <= j < rects.len() ==> (#[trigger] rects[j]).width == 0,
        last_visible(rects) matches Some(i) ==> 0 <= i < rects.len() && rects[i].width > 0,
        last_visible(rects) is None <==> first_visible(rects) is None,
    decreases rects.len(),
{
    if rects.len() > 0 {
        lemma_visible_bounds(rects.drop_last());
        let d = rects.drop_last();
        assert forall|j: int| 0 <= j < rects.len() - 1 implies #[trigger] rects[j] == d[j] by {}
    }
}

/// The column where a tab dragged to position `insert_idx` would be
/// inserted, given the hit areas of the tabs and of the scroll buttons.
pub open spec fn drop_indicator_spec(
    rects: Seq<Rect>,
    left: Rect,
    right: Rect,
    tab_count: usize,
    insert_idx: usize,
) -> Option<u16> {
    match first_visible(rects) {
        None => None,
        Some(f) => {
            let l = match last_visible(rects) {
                Some(l) => l,
                None => f,
            };
            if insert_idx == 0 {
                Some(
                    if f == 0 {
                        rects[f].x
                    } else {
                        (left.x + left.width) as u16
                    },
                )
            } else if insert_idx < rects.len() && rects[insert_idx as int].width > 0 {
                Some(layout::sat_sub(rects[insert_idx as int].x, 1))
            } else if insert_idx >= tab_count {
                Some(
                    if l + 1 >= tab_count {
                        (rects[l].x + rects[l].width) as u16
                    } else {
                        layout::sat_sub(right.x, 1)
                    },
                )
            } else {
                None
            }
        },
    }
}

/// The columns the insertion mark is computed from fit in `u16`: the end of
/// the scroll-left button where the mark goes before a hidden first tab, and
/// the end of the last tab with room where it goes after the last tab.
pub open spec fn drop_indicator_fits(
    rects: Seq<Rect>,
    left: Rect,
    tab_count: usize,
    insert_idx: usize,
) -> bool {
    match first_visible(rects) {
        None => true,
        Some(f) => {
            let l = match last_visible(rects) {
                Some(l) => l,
                None => f,
            };
            &&& insert_idx == 0 && f != 0 ==> left.x + left.width <= u16::MAX
            &&& insert_idx != 0 && !(insert_idx < rects.len() && rects[insert_idx as int].width > 0)
                && insert_idx >= tab_count && l + 1 >= tab_count ==> rects[l].x + rects[l].width
                <= u16::MAX
        },
    }
}

/// Where to draw the insertion mark while a tab is dragged.
#[verifier::rlimit(30)]
pub fn tab_drop_indicator_x(
    tab_hit_areas: &Vec<Rect>,
    scroll_left_hit_area: Rect,
    scroll_right_hit_area: Rect,
    tab_count: usize,
    insert_idx: usize,
) -> (r: Option<u16>)
    requires
        drop_indicator_fits(tab_hit_areas@, scroll_left_hit_area, tab_count, insert_idx),
    ensures
        r == drop_indicator_spec(
            tab_hit_areas@,
            scroll_left_hit_area,
            scroll_right_hit_area,
            tab_count,
            insert_idx,
        ),
{
    let ghost rs = tab_hit_areas@;
    proof {
        lemma_visible_bounds(rs);
    }
    let n = tab_hit_areas.len();
    // The first visible tab.
    let mut f: usize = 0;
    while f < n && tab_hit_areas[f].width == 0
        invariant
            f <= n,
            n == rs.len(),
            rs == tab_hit_areas@,
            forall|j: int| 0 <= j < f ==> (#[trigger] rs[j]).width == 0,
        decreases n - f,
    {
        f = f + 1;
    }
    if f == n {
        assert(first_visible(rs) is None) by {
            if first_visible(rs) is Some {
                let i = first_visible(rs)->0;
                assert(rs[i].width == 0);
            }
        }
        return None;
    }
    assert(first_visible(rs) == Some(f as int)) by {
        if first_visible(rs) is Some {
            let i = first_visible(rs)->0;
            if i < f {
                assert(rs[i].width == 0);
            }
            if i > f {
                assert(rs[f as int].width == 0);
            }
        } else {
            assert(rs[f as int].width == 0);
        }
    }
    // The last visible tab.
    let mut l: usize = n - 1;
    assert(rs.take(n as int) =~= rs);
    while l > f && tab_hit_areas[l].width == 0
        invariant
            f <= l < n,
            n == rs.len(),
            rs == tab_hit_areas@,
            rs[f as int].width > 0,
            last_visible(rs) == last_visible(rs.take(l + 1)),
        decreases l,
    {
        assert(rs.take(l + 1).drop_last() =~= rs.take(l as int));
        assert(rs.take(l + 1).last() == rs[l as int]);
        l = l - 1;
    }
    proof {
        assert(rs.take(l + 1).last() == rs[l as int]);
        if rs[l as int].width == 0 {
            assert(l == f);
        }
        assert(last_visible(rs) == Some(l as int));
    }
    if insert_idx == 0 {
        return Some(
            if f == 0 {
                tab_hit_areas[f].x
            } else {
                scroll_left_hit_area.x + scroll_left_hit_area.width
            },
        );
    }
    if insert_idx < n && tab_hit_areas[insert_idx].width > 0 {
        return Some(tab_hit_areas[insert_idx].x.saturating_sub(1));
    }
    if insert_idx >= tab_count {
        return Some(
            if l + 1 >= tab_count {
                tab_hit_areas[l].x + tab_hit_areas[l].width
            } else {
                scroll_right_hit_area.x.saturating_sub(1)
            },
        );
    }
    None
}

/// What the workspace's git checkout reports: uncommitted changes, and
/// commits ahead of and behind its upstream.
#[derive(Clone, Copy, Debug)]
pub struct GitStatus {
    pub dirty_count: Option<usize>,
    pub ahead_behind: Option<(usize, usize)>,
}

/// The parts of the git status label: `●N` for changed files, `↑N` ahead,
/// `↓N` behind, each only where N is not zero.
pub open spec fn git_parts(git: GitStatus) -> Seq<Seq<char>> {
    let dirty = match git.dirty_count {
        Some(c) => if c > 0 {
            seq![seq!['\u{25cf}'] + text::decimal(c as nat)]
        } else {
            Seq::<Seq<char>>::empty()
        },
        None => Seq::<Seq<char>>::empty(),
    };
    let ahead_behind = match git.ahead_behind {
        Some((a, b)) => (if a > 0 {
            seq![seq!['\u{2191}'] + text::decimal(a as nat)]
        } else {
            Seq::<Seq<char>>::empty()
        }) + (if b > 0 {
            seq![seq!['\u{2193}'] + text::decimal(b as nat)]
        } else {
            Seq::<Seq<char>>::empty()
        }),
        None => Seq::<Seq<char>>::empty(),
    };
    dirty + ahead_behind
}

/// The git status label: its parts joined by spaces, or none where there
/// are no parts.
pub open spec fn git_status_label_spec(git: GitStatus) -> Option<Seq<char>> {
    if git_parts(git).len() == 0 {
        None
    } else {
        Some(text::join_with(git_parts(git), ' '))
    }
}

/// `l` shows the count `n` after `mark` between columns `i` and `e`: `mark`
/// at `i`, at the start or after a space; then digits up to `e` that read as
/// `n`; then the end or a space.
pub open spec fn count_at(l: Seq<char>, mark: char, n: nat, i: int, e: int) -> bool {
    &&& 0 <= i
    &&& i + 1 < e <= l.len()
    &&& l[i] == mark
    &&& i == 0 || l[i - 1] == ' '
    &&& e == l.len() || l[e] == ' '
    &&& forall|k: int| i + 1 <= k < e ==> text::is_ascii_digit(#[trigger] l[k])
    &&& text::digits_value(l.subrange(i + 1, e)) == n
}

/// `l` shows the count `n` after `mark` somewhere.
pub open spec fn shows_count(l: Seq<char>, mark: char, n: nat) -> bool {
    exists|i: int, e: int| #[trigger] count_at(l, mark, n, i, e)
}

/// Where part `j` sits when parts are joined by spaces: after the earlier
/// parts and a space, before a space and the later parts.
proof fn lemma_joined_part(ps: Seq<Seq<char>>, j: int) -> (ab: (Seq<char>, Seq<char>))
    requires
        0 <= j < ps.len(),
    ensures
        text::join_with(ps, ' ') == ab.0 + ps[j] + ab.1,
        ab.0.len() == 0 || ab.0.last() == ' ',
        ab.1.len() == 0 || ab.1[0] == ' ',
        j == 0 ==> ab.0.len() == 0,
{
    let x = ps.take(j);
    let rest = ps.skip(j + 1);
    let y = seq![ps[j]] + rest;
    assert(ps =~= x + y);
    let b = if rest.len() > 0 {
        seq![' '] + text::join_with(rest, ' ')
    } else {
        Seq::<char>::empty()
    };
    assert(text::join_with(y, ' ') == ps[j] + b) by {
        if rest.len() > 0 {
            text::lemma_join_append(seq![ps[j]], rest, ' ');
            assert(text::join_with(seq![ps[j]], ' ') == ps[j]);
            assert(ps[j] + seq![' '] + text::join_with(rest, ' ') =~= ps[j] + b);
        } else {
            assert(y =~= seq![ps[j]]);
            assert(ps[j] + b =~= ps[j]);
        }
    }
    if j > 0 {
        text::lemma_join_append(x, y, ' ');
        let a = text::join_with(x, ' ') + seq![' '];
        assert(text::join_with(ps, ' ') =~= a + ps[j] + b);
        (a, b)
    } else {
        assert(x =~= Seq::<Seq<char>>::empty());
        assert(ps =~= y);
        assert(text::join_with(ps, ' ') =~= Seq::<char>::empty() + ps[j] + b);
        (Seq::<char>::empty(), b)
    }
}

/// A part `mark` + the decimal of `n` at index `j` shows `n` in the joined
/// label, starting right after the earlier parts.
proof fn lemma_part_shows_count(ps: Seq<Seq<char>>, j: int, mark: char, n: nat) -> (i: int)
    requires
        0 <= j < ps.len(),
        ps[j] == seq![mark] + text::decimal(n),
    ensures
        count_at(text::join_with(ps, ' '), mark, n, i, i + 1 + text::decimal(n).len()),
        j == 0 ==> i == 0,
{
    let (a, b) = lemma_joined_part(ps, j);
    let l = text::join_with(ps, ' ');
    let d = text::decimal(n);
    text::lemma_decimal_reads_back(n);
    let i = a.len() as int;
    let e = i + 1 + d.len();
    assert(l =~= a + seq![mark] + d + b);
    assert(l.subrange(i + 1, e) =~= d);
    assert forall|k: int| i + 1 <= k < e implies text::is_ascii_digit(#[trigger] l[k]) by {
        assert(l[k] == d[k - i - 1]);
    }
    if i > 0 {
        assert(l[i - 1] == a.last());
    }
    if e < l.len() {
        assert(l[e] == b[0]);
    }
    i
}

/// The git label shows each nonzero count as its mark followed by the count
/// written in decimal (the digits read back as the count itself): changed
/// files as `●N` at the start, commits ahead as `↑N`, behind as `↓N`; and
/// there is a label exactly when some count is nonzero.
pub proof fn lemma_git_label_shows_counts(git: GitStatus)
    ensures
        git_status_label_spec(git) is None <==> ((git.dirty_count matches Some(c) ==> c == 0) && (
        git.ahead_behind matches Some((a, b)) ==> a == 0 && b == 0)),
        git.dirty_count matches Some(c) ==> (c > 0 ==> (git_status_label_spec(git) matches Some(l)
            && l[0] == '\u{25cf}' && shows_count(l, '\u{25cf}', c as nat))),
        git.ahead_behind matches Some((a, b)) ==> (a > 0 ==> (git_status_label_spec(git) matches Some(
            l,
        ) && shows_count(l, '\u{2191}', a as nat))),
        git.ahead_behind matches Some((a, b)) ==> (b > 0 ==> (git_status_label_spec(git) matches Some(
            l,
        ) && shows_count(l, '\u{2193}', b as nat))),
{
    let ps = git_parts(git);
    let dirty_len: int = match git.dirty_count {
        Some(c) => if c > 0 {
            1
        } else {
            0
        },
        None => 0,
    };
    match git.dirty_count {
        Some(c) => {
            if c > 0 {
                assert(ps[0] == seq!['\u{25cf}'] + text::decimal(c as nat));
                let i = lemma_part_shows_count(ps, 0, '\u{25cf}', c as nat);
                let l = text::join_with(ps, ' ');
                assert(count_at(l, '\u{25cf}', c as nat, i, i + 1 + text::decimal(c as nat).len()));
            }
        },
        None => {},
    }
    match git.ahead_behind {
        Some((a, b)) => {
            if a > 0 {
                assert(ps[dirty_len] == seq!['\u{2191}'] + text::decimal(a as nat));
                let i = lemma_part_shows_count(ps, dirty_len, '\u{2191}', a as nat);
                let l = text::join_with(ps, ' ');
                assert(count_at(l, '\u{2191}', a as nat, i, i + 1 + text::decimal(a as nat).len()));
            }
            if b > 0 {
                let jb = dirty_len + if a > 0 {
                    1int
                } else {
                    0int
                };
                assert(ps[jb] == seq!['\u{2193}'] + text::decimal(b as nat));
                let i = lemma_part_shows_count(ps, jb, '\u{2193}', b as nat);
                let l = text::join_with(ps, ' ');
                assert(count_at(l, '\u{2193}', b as nat, i, i + 1 + text::decimal(b as nat).len()));
            }
        },
        None => {},
    }
}

fn marked_count(mark: char, n: usize) -> (r: Vec<char>)
    ensures
        r@ == seq![mark] + text::decimal(n as nat),
{
    let mut r: Vec<char> = Vec::new();
    r.push(mark);
    text::push_decimal(&mut r, n as u64);
    assert(r@ =~= seq![mark] + text::decimal(n as nat));
    r
}

pub fn git_status_label(git: &GitStatus) -> (r: Option<String>)
    ensures
        match r {
            Some(l) => git_status_label_spec(*git) == Some(l@),
            None => git_status_label_spec(*git) is None,
        },
{
    let mut parts: Vec<Vec<char>> = Vec::new();
    match git.dirty_count {
        Some(c) => {
            if c > 0 {
                parts.push(marked_count('\u{25cf}', c));
            }
        },
        None => {},
    }
    let ghost after_dirty = text::views(parts@);
    match git.ahead_behind {
        Some((a, b)) => {
            if a > 0 {
                parts.push(marked_count('\u{2191}', a));
            }
            let ghost after_ahead = text::views(parts@);
            if b > 0 {
                parts.push(marked_count('\u{2193}', b));
            }
            assert(text::views(parts@) =~= git_parts(*git));
        },
        None => {
            assert(text::views(parts@) =~= git_parts(*git));
        },
    }
    if parts.len() == 0 {
        return None;
    }
    let joined = text::join_with_chars(&parts, ' ');
    Some(text::string_from_chars(joined.as_slice()))
}

/// `N%`, with N at most 100.
pub open spec fn context_usage_label_spec(used: u8) -> Seq<char> {
    text::decimal(
        if used > 100 {
            100nat
        } else {
            used as nat
        },
    ).push('%')
}

fn context_usage_label_chars(used: u8) -> (r: Vec<char>)
    ensures
        r@ == context_usage_label_spec(used),
        r@.len() <= 4,
{
    let shown: u8 = if used > 100 {
        100
    } else {
        used
    };
    let mut r: Vec<char> = Vec::new();
    text::push_decimal(&mut r, shown as u64);
    proof {
        reveal_with_fuel(text::decimal, 3);
    }
    r.push('%');
    r
}

pub fn context_usage_label(used: u8) -> (r: String)
    ensures
        r@ == context_usage_label_spec(used),
{
    let chars = context_usage_label_chars(used);
    text::string_from_chars(chars.as_slice())
}

proof fn lemma_context_usage_label_printable(used: u8)
    ensures
        width::printable_ascii(context_usage_label_spec(used)),
        context_usage_label_spec(used).len() <= 4,
{
    let n: nat = if used > 100 {
        100nat
    } else {
        used as nat
    };
    text::lemma_decimal_digits(n);
    reveal_with_fuel(text::decimal, 3);
    let l = context_usage_label_spec(used);
    assert forall|i: int| 0 <= i < l.len() implies ' ' <= #[trigger] l[i] && l[i] <= '~' by {
        if i < l.len() - 1 {
            assert(l[i] == text::decimal(n)[i]);
        }
    }
}

/// The labels at the right end of the tab bar, in order: the plugins' status
/// items, the git status, the context usage.
pub open spec fn status_labels_spec(
    plugin_labels: Seq<Seq<char>>,
    git: GitStatus,
    context_used_percent: Option<u8>,
) -> Seq<Seq<char>> {
    let with_git = match git_status_label_spec(git) {
        Some(g) => plugin_labels.push(g),
        None => plugin_labels,
    };
    match context_used_percent {
        Some(u) => with_git.push(context_usage_label_spec(u)),
        None => with_git,
    }
}

pub open spec fn item_labels(items: Seq<crate::plugin_status::PluginStatusItem>) -> Seq<Seq<char>> {
    items.map_values(|i: crate::plugin_status::PluginStatusItem| i.label@)
}

pub fn status_labels(
    plugin_items: &Vec<crate::plugin_status::PluginStatusItem>,
    git: &GitStatus,
    context_used_percent: Option<u8>,
) -> (r: Vec<String>)
    ensures
        r@.map_values(|s: String| s@) == status_labels_spec(
            item_labels(plugin_items@),
            *git,
            context_used_percent,
        ),
{
    let mut labels: Vec<String> = Vec::new();
    let mut k: usize = 0;
    while k < plugin_items.len()
        invariant
            k <= plugin_items.len(),
            labels@.map_values(|s: String| s@) =~= item_labels(plugin_items@).take(k as int),
        decreases plugin_items.len() - k,
    {
        let ghost before = labels@;
        labels.push(plugin_items[k].label.clone());
        assert(labels@.map_values(|s: String| s@) =~= before.map_values(|s: String| s@).push(
            plugin_items@[k as int].label@,
        ));
        assert(item_labels(plugin_items@).take(k + 1) =~= item_labels(plugin_items@).take(
            k as int,
        ).push(plugin_items@[k as int].label@));
        k = k + 1;
    }
    assert(item_labels(plugin_items@).take(plugin_items.len() as int) =~= item_labels(
        plugin_items@,
    ));
    match git_status_label(git) {
        Some(g) => {
            let ghost before = labels@;
            labels.push(g);
            assert(labels@.map_values(|s: String| s@) =~= before.map_values(|s: String| s@).push(
                g@,
            ));
        },
        None => {},
    }
    match context_used_percent {
        Some(u) => {
            let ghost before = labels@;
            let l = context_usage_label(u);
            labels.push(l);
            assert(labels@.map_values(|s: String| s@) =~= before.map_values(|s: String| s@).push(
                l@,
            ));
        },
        None => {},
    }
    labels
}

/// The columns the status labels take: each label's width and two columns
/// of padding.
pub open spec fn reserved_width(widths: Seq<u16>) -> int
    decreases widths.len(),
{
    if widths.len() == 0 {
        0
    } else {
        reserved_width(widths.drop_last()) + layout::sat_add(widths.last(), 2)
    }
}

proof fn lemma_reserved_width_nonneg(widths: Seq<u16>)
    ensures
        reserved_width(widths) >= 0,
    decreases widths.len(),
{
    if widths.len() > 0 {
        lemma_reserved_width_nonneg(widths.drop_last());
    }
}

proof fn lemma_reserved_width_monotone(widths: Seq<u16>, k: int)
    requires
        0 <= k <= widths.len(),
    ensures
        0 <= reserved_width(widths.take(k)) <= reserved_width(widths),
    decreases widths.len() - k,
{
    lemma_reserved_width_nonneg(widths.take(k));
    if k < widths.len() {
        assert(widths.take(k + 1).drop_last() =~= widths.take(k));
        lemma_reserved_width_monotone(widths, k + 1);
    } else {
        assert(widths.take(k) =~= widths);
    }
}

fn sum_reserved(widths: &Vec<u16>) -> (r: u16)
    requires
        reserved_width(widths@) <= u16::MAX,
    ensures
        r == reserved_width(widths@),
{
    let mut total: u16 = 0;
    let mut k: usize = 0;
    assert(widths@.take(0) =~= Seq::<u16>::empty());
    while k < widths.len()
        invariant
            k <= widths.len(),
            reserved_width(widths@) <= u16::MAX,
            total == reserved_width(widths@.take(k as int)),
        decreases widths.len() - k,
    {
        assert(widths@.take(k + 1).drop_last() =~= widths@.take(k as int));
        proof {
            lemma_reserved_width_monotone(widths@, k + 1);
        }
        total = total + widths[k].saturating_add(2);
        k = k + 1;
    }
    assert(widths@.take(widths.len() as int) =~= widths@);
    total
}

/// Whether the status labels of the given display widths, with their
/// padding, fit in a `u16` column count.
pub fn status_widths_fit(widths: &Vec<u16>) -> (r: bool)
    ensures
        r == (reserved_width(widths@) <= u16::MAX),
{
    let mut total: u32 = 0;
    let mut k: usize = 0;
    assert(widths@.take(0) =~= Seq::<u16>::empty());
    while k < widths.len()
        invariant
            k <= widths.len(),
            total == reserved_width(widths@.take(k as int)),
            total <= u16::MAX,
        decreases widths.len() - k,
    {
        assert(widths@.take(k + 1).drop_last() =~= widths@.take(k as int));
        total = total + widths[k].saturating_add(2) as u32;
        if total > 65535 {
            proof {
                lemma_reserved_width_monotone(widths@, k + 1);
            }
            return false;
        }
        k = k + 1;
    }
    assert(widths@.take(widths.len() as int) =~= widths@);
    true
}

/// The part of `area` left for tabs once labels of the given display widths
/// take their columns at its right end.
pub open spec fn content_rect_spec(label_widths: Seq<u16>, area: Rect) -> Rect {
    Rect::new_spec(
        area.x,
        area.y,
        layout::sat_sub(area.width, layout::min16(reserved_width(label_widths) as u16, area.width)),
        area.height,
    )
}

/// The display widths of labels.
pub open spec fn label_widths_of(labels: Seq<Seq<char>>) -> Seq<u16> {
    labels.map_values(|l: Seq<char>| width::display_width_u16_spec(l))
}

pub fn status_label_widths(labels: &Vec<String>) -> (r: Vec<u16>)
    ensures
        r@ == label_widths_of(labels@.map_values(|s: String| s@)),
{
    let ghost views = labels@.map_values(|s: String| s@);
    let mut widths: Vec<u16> = Vec::new();
    let mut k: usize = 0;
    while k < labels.len()
        invariant
            k <= labels.len(),
            views == labels@.map_values(|s: String| s@),
            widths@ == label_widths_of(views).take(k as int),
        decreases labels.len() - k,
    {
        widths.push(width::display_width_u16(labels[k].as_str()));
        k = k + 1;
        assert(widths@ =~= label_widths_of(views).take(k as int));
    }
    assert(label_widths_of(views).take(labels.len() as int) =~= label_widths_of(views));
    widths
}

/// The display widths of the labels at the right end of the tab bar.
pub open spec fn status_widths(
    plugin_items: Seq<crate::plugin_status::PluginStatusItem>,
    git: GitStatus,
    context_used_percent: Option<u8>,
) -> Seq<u16> {
    label_widths_of(status_labels_spec(item_labels(plugin_items), git, context_used_percent))
}

/// The part of the tab bar left for tabs once the plugins' status items, the
/// git status and the context usage take their columns at its right end,
/// each with a column of padding on either side.
pub fn tab_content_rect_with_status(
    plugin_items: &Vec<crate::plugin_status::PluginStatusItem>,
    git: &GitStatus,
    context_used_percent: Option<u8>,
    area: Rect,
) -> (r: Rect)
    requires
        reserved_width(status_widths(plugin_items@, *git, context_used_percent)) <= u16::MAX,
    ensures
        r == content_rect_spec(status_widths(plugin_items@, *git, context_used_percent), area),
{
    let labels = status_labels(plugin_items, git, context_used_percent);
    let widths = status_label_widths(&labels);
    tab_content_rect_for_widths(&widths, area)
}

/// The part of the tab bar left for tabs, or none where the status labels
/// are too wide to count in `u16` columns.
pub fn tab_content_rect_checked(
    plugin_items: &Vec<crate::plugin_status::PluginStatusItem>,
    git: &GitStatus,
    context_used_percent: Option<u8>,
    area: Rect,
) -> (r: Option<Rect>)
    ensures
        (reserved_width(status_widths(plugin_items@, *git, context_used_percent)) <= u16::MAX)
            <==> r is Some,
        r matches Some(rect) ==> rect == content_rect_spec(
            status_widths(plugin_items@, *git, context_used_percent),
            area,
        ),
{
    let labels = status_labels(plugin_items, git, context_used_percent);
    let widths = status_label_widths(&labels);
    if status_widths_fit(&widths) {
        Some(tab_content_rect_with_status(plugin_items, git, context_used_percent, area))
    } else {
        None
    }
}

/// The part of the tab bar left for tabs once the status labels of the
/// given display widths are placed at its right end.
pub fn tab_content_rect_for_widths(label_widths: &Vec<u16>, area: Rect) -> (r: Rect)
    requires
        reserved_width(label_widths@) <= u16::MAX,
    ensures
        r == content_rect_spec(label_widths@, area),
{
    let reserved = layout::min_u16(sum_reserved(label_widths), area.width);
    Rect::new(area.x, area.y, area.width.saturating_sub(reserved), area.height)
}

/// The width the status labels take at the right end of `area`.
pub fn right_status_width(label_widths: &Vec<u16>, area: Rect) -> (r: u16)
    requires
        reserved_width(label_widths@) <= u16::MAX,
    ensures
        r == layout::min16(reserved_width(label_widths@) as u16, area.width),
{
    layout::min_u16(sum_reserved(label_widths), area.width)
}

/// Where the status labels are drawn: the right end of `area`.
pub fn status_rect(label_widths: &Vec<u16>, area: Rect) -> (r: Rect)
    requires
        reserved_width(label_widths@) <= u16::MAX,
        area.x + area.width - layout::min16(reserved_width(label_widths@) as u16, area.width)
            <= u16::MAX,
    ensures
        ({
            let w = layout::min16(reserved_width(label_widths@) as u16, area.width);
            r == Rect::new_spec((area.x + area.width - w) as u16, area.y, w, area.height)
        }),
{
    let width = right_status_width(label_widths, area);
    Rect::new(area.x + area.width.saturating_sub(width), area.y, width, area.height)
}

/// Where the context usage is drawn: right after the tabs (or the new-tab
/// button, where the mouse controls show it), as wide as its label with one
/// column each side, but not into the status labels.
pub open spec fn context_usage_rect_spec(
    context_used_percent: Option<u8>,
    mouse_capture: bool,
    new_tab_hit_area: Rect,
    tab_hit_areas: Seq<Rect>,
    tab_bar_rect: Rect,
    status_rect: Rect,
) -> Rect {
    match context_used_percent {
        None => Rect::zero(),
        Some(used) => {
            let tabs_end = if mouse_capture && new_tab_hit_area.width > 0 {
                (new_tab_hit_area.x + new_tab_hit_area.width) as u16
            } else {
                trailing_x(tab_hit_areas, tab_bar_rect.x)
            };
            let right = status_rect.x;
            Rect::new_spec(
                layout::min16(tabs_end, right),
                tab_bar_rect.y,
                layout::min16(
                    layout::sat_add(context_usage_label_spec(used).len() as u16, 2),
                    layout::sat_sub(right, tabs_end),
                ),
                1,
            )
        },
    }
}

/// The context usage rectangle. Its label is ASCII digits and `%`, one
/// column each, so its display width is its length.
pub fn context_usage_rect(
    context_used_percent: Option<u8>,
    mouse_capture: bool,
    new_tab_hit_area: Rect,
    tab_hit_areas: &Vec<Rect>,
    tab_bar_rect: Rect,
    status_rect: Rect,
) -> (r: Rect)
    requires
        context_used_percent is Some ==> if mouse_capture && new_tab_hit_area.width > 0 {
            new_tab_hit_area.x + new_tab_hit_area.width <= u16::MAX
        } else {
            trailing_fits(tab_hit_areas@)
        },
    ensures
        r == context_usage_rect_spec(
            context_used_percent,
            mouse_capture,
            new_tab_hit_area,
            tab_hit_areas@,
            tab_bar_rect,
            status_rect,
        ),
{
    let used = match context_used_percent {
        Some(used) => used,
        None => {
            return Rect::default();
        },
    };
    let tabs_end = if mouse_capture && new_tab_hit_area.width > 0 {
        new_tab_hit_area.x + new_tab_hit_area.width
    } else {
        trailing_tab_controls_x(tab_hit_areas, tab_bar_rect.x)
    };
    let right = status_rect.x;
    let label = context_usage_label(used);
    let label_width = width::display_width_u16(label.as_str());
    proof {
        lemma_context_usage_label_printable(used);
    }
    Rect::new(
        layout::min_u16(tabs_end, right),
        tab_bar_rect.y,
        layout::min_u16(label_width.saturating_add(2), right.saturating_sub(tabs_end)),
        1,
    )
}

/// How a tab is drawn: the active tab on the accent colour, bold unless its
/// name was chosen automatically; other tabs dimmed where auto-named.
#[derive(Clone, Copy, Debug, PartialEq, Eq, Structural)]
pub enum TabStyle {
    Active,
    ActiveBold,
    AutoNamed,
    Named,
}

pub fn tab_style(active: bool, auto_named: bool) -> (r: TabStyle)
    ensures
        active && auto_named ==> r == TabStyle::Active,
        active && !auto_named ==> r == TabStyle::ActiveBold,
        !active && auto_named ==> r == TabStyle::AutoNamed,
        !active && !auto_named ==> r == TabStyle::Named,
{
    if active {
        if auto_named {
            TabStyle::Active
        } else {
            TabStyle::ActiveBold
        }
    } else if auto_named {
        TabStyle::AutoNamed
    } else {
        TabStyle::Named
    }
}

/// The context usage is shown in the warning colour above 50%.
pub fn context_usage_is_high(used: u8) -> (r: bool)
    ensures
        r == (used > 50),
{
    used > 50
}

pub open spec fn spaces(n: int) -> Seq<char> {
    Seq::new(if n > 0 { n as nat } else { 0nat }, |i: int| ' ')
}

/// The text drawn in a tab's hit area: a space, then the label padded with
/// spaces to one column less than the area's width.
pub open spec fn tab_text_spec(label: Seq<char>, width: u16) -> Seq<char> {
    seq![' '] + label + spaces(layout::sat_sub(width, 1) - label.len())
}

pub fn tab_text(label: &str, width: u16) -> (r: String)
    ensures
        r@ == tab_text_spec(label@, width),
{
    let name = text::chars_of(label);
    let target = width.saturating_sub(1) as usize;
    let mut out: Vec<char> = Vec::new();
    out.push(' ');
    text::push_all(&mut out, &name);
    let mut k = name.len();
    while k < target
        invariant
            name.len() <= k <= target || (k == name.len() && k >= target),
            out@ == seq![' '] + name@ + spaces(k - name.len()),
        decreases target - k,
    {
        out.push(' ');
        k = k + 1;
        assert(out@ =~= seq![' '] + name@ + spaces(k - name.len()));
    }
    assert(out@ =~= tab_text_spec(label@, width));
    text::string_from_chars(out.as_slice())
}

/// The scroll-left button is live once the bar is scrolled.
pub fn can_scroll_left(scroll_left_hit_area: Rect, tab_scroll: usize) -> (r: bool)
    ensures
        r == (scroll_left_hit_area.width > 0 && tab_scroll > 0),
{
    scroll_left_hit_area.width > 0 && tab_scroll > 0
}

/// The scroll-right button is live while a tab after the last visible one
/// exists.
pub fn can_scroll_right(
    scroll_right_hit_area: Rect,
    last_visible_idx: Option<usize>,
    tab_count: usize,
) -> (r: bool)
    requires
        scroll_right_hit_area.width > 0 ==> (last_visible_idx matches Some(i) ==> i < usize::MAX),
    ensures
        r == (scroll_right_hit_area.width > 0 && (last_visible_idx matches Some(i) && i + 1
            < tab_count)),
{
    scroll_right_hit_area.width > 0 && match last_visible_idx {
        Some(i) => i < tab_count && i + 1 < tab_count,
        None => false,
    }
}

/// Where the mark that tabs are hidden on the left is drawn: after the
/// scroll-left button (or at the bar's start), where that column is in the
/// bar.
pub open spec fn left_marker_spec(
    first_visible_idx: Option<usize>,
    mouse_capture: bool,
    scroll_left_hit_area: Rect,
    area: Rect,
) -> Option<u16> {
    if first_visible_idx matches Some(i) && i > 0 {
        let x = if mouse_capture && scroll_left_hit_area.width > 0 {
            (scroll_left_hit_area.x + scroll_left_hit_area.width) as u16
        } else {
            area.x
        };
        if x < area.x + area.width {
            Some(x)
        } else {
            None
        }
    } else {
        None
    }
}

pub fn left_overflow_marker_x(
    first_visible_idx: Option<usize>,
    mouse_capture: bool,
    scroll_left_hit_area: Rect,
    area: Rect,
) -> (r: Option<u16>)
    requires
        mouse_capture && scroll_left_hit_area.width > 0 ==> scroll_left_hit_area.x
            + scroll_left_hit_area.width <= u16::MAX,
        area.x + area.width <= u16::MAX,
    ensures
        r == left_marker_spec(first_visible_idx, mouse_capture, scroll_left_hit_area, area),
{
    match first_visible_idx {
        Some(i) => {
            if i == 0 {
                return None;
            }
        },
        None => {
            return None;
        },
    }
    let x = if mouse_capture && scroll_left_hit_area.width > 0 {
        scroll_left_hit_area.x + scroll_left_hit_area.width
    } else {
        area.x
    };
    if x < area.x + area.width {
        Some(x)
    } else {
        None
    }
}

/// Where the mark that tabs are hidden on the right is drawn: before the
/// scroll-right button (or at the bar's last column), where that column is
/// in the bar.
pub open spec fn right_marker_spec(
    last_visible_idx: Option<usize>,
    tab_count: usize,
    mouse_capture: bool,
    scroll_right_hit_area: Rect,
    area: Rect,
) -> Option<u16> {
    if last_visible_idx matches Some(i) && i + 1 < tab_count {
        let x = if mouse_capture && scroll_right_hit_area.width > 0 {
            layout::sat_sub(scroll_right_hit_area.x, 1)
        } else {
            (area.x + layout::sat_sub(area.width, 1)) as u16
        };
        if x >= area.x && x < area.x + area.width {
            Some(x)
        } else {
            None
        }
    } else {
        None
    }
}

pub fn right_overflow_marker_x(
    last_visible_idx: Option<usize>,
    tab_count: usize,
    mouse_capture: bool,
    scroll_right_hit_area: Rect,
    area: Rect,
) -> (r: Option<u16>)
    requires
        area.x + area.width <= u16::MAX,
        last_visible_idx matches Some(i) ==> i < usize::MAX,
    ensures
        r == right_marker_spec(
            last_visible_idx,
            tab_count,
            mouse_capture,
            scroll_right_hit_area,
            area,
        ),
{
    match last_visible_idx {
        Some(i) => {
            if !(i < tab_count && i + 1 < tab_count) {
                return None;
            }
        },
        None => {
            return None;
        },
    }
    let x = if mouse_capture && scroll_right_hit_area.width > 0 {
        scroll_right_hit_area.x.saturating_sub(1)
    } else {
        area.x + area.width.saturating_sub(1)
    };
    if x >= area.x && x < area.x + area.width {
        Some(x)
    } else {
        None
    }
}

/// The insertion mark stays within the bar's last column.
pub fn drop_mark_column(x: u16, area: Rect) -> (r: u16)
    requires
        area.x + layout::sat_sub(area.width, 1) <= u16::MAX,
    ensures
        r == layout::min16(x, (area.x + layout::sat_sub(area.width, 1)) as u16),
{
    layout::min_u16(x, area.x + area.width.saturating_sub(1))
}

} // verus!
