use vstd::prelude::*;
use crate::geometry::{Rect, rect_new_spec, saturating_add_spec, saturating_sub_spec};
use crate::model::{
    ClientShellConfig, ClientShellSnapshot, ClientShellTab, ScrollWindow, ShellHitMap,
    ShellRenderState, focused_positions,
};
use crate::section::{CONTROL_ROWS, FOOTER_ROWS, HEADER_ROWS, TITLE_COLUMN};
use crate::text::{texts_view, wrapped_title, wrapped_title_lines};

verus! {

/// The tab list inside the vertical tabs area: below the header and the
/// "new tab" control, above the footer.
pub open spec fn tab_body_spec(area: Rect) -> Rect {
    rect_new_spec(
        area.x,
        (area.y + HEADER_ROWS + CONTROL_ROWS) as u16,
        area.width,
        saturating_sub_spec(area.height, (HEADER_ROWS + CONTROL_ROWS + FOOTER_ROWS) as u16),
    )
}

/// Each title wrapped into the columns right of the title column of a row
/// `width` columns wide.
pub open spec fn wrapped_titles(titles: Seq<Seq<char>>, width: u16) -> Seq<Seq<Seq<char>>> {
    titles.map_values(|t: Seq<char>| wrapped_title(t, saturating_sub_spec(width, TITLE_COLUMN) as nat))
}

/// The rows a tab takes: one per title line, at most `height`.
pub open spec fn tab_rows(lines: Seq<Seq<char>>, height: u16) -> nat {
    if lines.len() < height {
        lines.len()
    } else {
        height as nat
    }
}

/// The rows all tabs take together.
pub open spec fn total_rows(lines: Seq<Seq<Seq<char>>>, height: u16) -> nat
    decreases lines.len(),
{
    if lines.len() == 0 {
        0
    } else {
        total_rows(lines.drop_last(), height) + tab_rows(lines.last(), height)
    }
}

/// Whether the tab list needs a scrollbar: the body is wider than one column
/// and the tabs, wrapped to the full body width, take more rows than it has.
pub open spec fn needs_scrollbar(body: Rect, titles: Seq<Seq<char>>) -> bool {
    body.width > 1 && total_rows(wrapped_titles(titles, body.width), body.height) > body.height
}

/// The width of the tab rows: the body width, less one column for the scrollbar.
pub open spec fn row_width(body: Rect, scrollbar: bool) -> u16 {
    saturating_sub_spec(body.width, if scrollbar { 1 } else { 0 })
}

/// The position, among the given tabs, of the first focused one.
pub open spec fn first_focused(tabs: Seq<ClientShellTab>, positions: Seq<usize>) -> Option<usize>
    decreases positions.len(),
{
    if positions.len() == 0 {
        None
    } else if tabs[positions[0] as int].focused {
        Some(0)
    } else {
        match first_focused(tabs, positions.drop_first()) {
            Some(j) => Some((j + 1) as usize),
            None => None,
        }
    }
}

/// The lines of each wrapped title.
pub open spec fn titles_view(lines: Seq<Vec<String>>) -> Seq<Seq<Seq<char>>> {
    lines.map_values(|l: Vec<String>| texts_view(l@))
}

/// What the tab column knows before it scrolls: the body, the tabs of the
/// focused space, their wrapped titles, whether a scrollbar is shown, the
/// width of the rows, the height of each tab, and the tab to scroll into view.
pub struct TabColumnPlan {
    pub body: Rect,
    pub positions: Vec<usize>,
    pub lines: Vec<Vec<String>>,
    pub scrollbar: bool,
    pub width: u16,
    pub heights: Vec<u16>,
    pub reveal_target: Option<usize>,
}

/// Where one visible tab is drawn: which tab (a position among the plan's
/// tabs), its rectangle, where its title lines start, how wide and how many
/// they are, and where its status icon goes with the room it has.
pub struct TabRow {
    pub tab: usize,
    pub rect: Rect,
    pub text_x: u16,
    pub text_width: u16,
    pub text_rows: usize,
    pub marker: Option<(u16, u16)>,
}

/// Everything the tab column draws after scrolling.
pub struct TabColumnLayout {
    pub rows: Vec<TabRow>,
    pub scrollbar: Option<Rect>,
    pub new_tab: Option<Rect>,
    pub drag_row: Option<u16>,
}

/// The rectangle of the list body for a vertical tabs area.
fn tab_body(area: Rect) -> (r: Rect)
    requires
        area.y + HEADER_ROWS + CONTROL_ROWS <= u16::MAX,
    ensures
        r == tab_body_spec(area),
{
    Rect::new(
        area.x,
        area.y + HEADER_ROWS + CONTROL_ROWS,
        area.width,
        area.height.saturating_sub(HEADER_ROWS + CONTROL_ROWS + FOOTER_ROWS),
    )
}

/// Wraps every title for rows `width` columns wide.
fn wrap_titles(titles: &Vec<String>, width: u16) -> (r: Vec<Vec<String>>)
    ensures
        titles_view(r@) == wrapped_titles(texts_view(titles@), width),
{
    let mut r: Vec<Vec<String>> = Vec::new();
    let mut i: usize = 0;
    while i < titles.len()
        invariant
            i <= titles@.len(),
            r@.len() == i,
            titles_view(r@) == wrapped_titles(texts_view(titles@), width).take(i as int),
        decreases titles@.len() - i,
    {
        let lines = wrapped_title_lines(titles[i].as_str(), width.saturating_sub(TITLE_COLUMN));
        let ghost before = r@;
        let ghost lv = texts_view(lines@);
        r.push(lines);
        proof {
            let want = wrapped_titles(texts_view(titles@), width);
            assert(r@.drop_last() == before);
            assert forall|k: int| 0 <= k <= i implies #[trigger] titles_view(r@)[k] == want[k] by {
                if k < i {
                    assert(r@[k] == before[k]);
                    assert(titles_view(before)[k] == want.take(i as int)[k]);
                } else {
                    assert(texts_view(r@[k]@) == lv);
                    assert(texts_view(titles@)[k] == titles@[k]@);
                }
            }
            assert(titles_view(r@) =~= want.take(i + 1));
        }
        i = i + 1;
    }
    proof {
        assert(wrapped_titles(texts_view(titles@), width).take(i as int) =~= wrapped_titles(
            texts_view(titles@),
            width,
        ));
    }
    r
}

/// Whether the wrapped titles take more rows than `height`, each tab
/// counting at most `height` rows.
fn exceeds_rows(lines: &Vec<Vec<String>>, height: u16) -> (r: bool)
    ensures
        r == (total_rows(titles_view(lines@), height) > height),
{
    let ghost ls = titles_view(lines@);
    let mut sum: usize = 0;
    let mut i: usize = 0;
    while i < lines.len()
        invariant
            ls == titles_view(lines@),
            i <= lines@.len(),
            sum == total_rows(ls.take(i as int), height),
            sum <= height,
        decreases lines@.len() - i,
    {
        let rows = if lines[i].len() < height as usize {
            lines[i].len()
        } else {
            height as usize
        };
        proof {
            assert(ls.take(i + 1).drop_last() =~= ls.take(i as int));
            assert(ls[i as int].len() == lines@[i as int]@.len());
        }
        if sum + rows > height as usize {
            proof {
                lemma_total_rows_grows(ls, height, i as int + 1);
            }
            return true;
        }
        sum = sum + rows;
        i = i + 1;
    }
    proof {
        assert(ls.take(i as int) =~= ls);
    }
    false
}

proof fn lemma_total_rows_grows(ls: Seq<Seq<Seq<char>>>, height: u16, k: int)
    requires
        0 <= k <= ls.len(),
    ensures
        total_rows(ls.take(k), height) <= total_rows(ls, height),
    decreases ls.len() - k,
{
    if k < ls.len() {
        lemma_total_rows_grows(ls, height, k + 1);
        assert(ls.take(k + 1).drop_last() =~= ls.take(k));
    } else {
        assert(ls.take(k) =~= ls);
    }
}

/// The height of each tab: its number of title lines, at most `height`.
fn tab_heights(lines: &Vec<Vec<String>>, height: u16) -> (r: Vec<u16>)
    ensures
        r@.len() == lines@.len(),
        forall|i: int|
            0 <= i < r@.len() ==> #[trigger] r@[i] as nat == tab_rows(
                titles_view(lines@)[i],
                height,
            ),
{
    let mut r: Vec<u16> = Vec::new();
    let mut i: usize = 0;
    while i < lines.len()
        invariant
            i <= lines@.len(),
            r@.len() == i,
            forall|j: int|
                0 <= j < i ==> #[trigger] r@[j] as nat == tab_rows(
                    titles_view(lines@)[j],
                    height,
                ),
        decreases lines@.len() - i,
    {
        let h = if lines[i].len() < height as usize {
            lines[i].len() as u16
        } else {
            height
        };
        r.push(h);
        proof {
            assert(titles_view(lines@)[i as int] == texts_view(lines@[i as int]@));
        }
        i = i + 1;
    }
    r
}

/// A position moved `by` places further.
spec fn shifted(p: Option<usize>, by: int) -> Option<usize> {
    match p {
        Some(k) => Some((k + by) as usize),
        None => None,
    }
}

proof fn lemma_first_focused_bounded(tabs: Seq<ClientShellTab>, positions: Seq<usize>)
    ensures
        first_focused(tabs, positions) matches Some(k) ==> k < positions.len(),
    decreases positions.len(),
{
    if positions.len() > 0 {
        lemma_first_focused_bounded(tabs, positions.drop_first());
    }
}

/// The position, among the given tabs, of the first focused one.
fn first_focused_tab(snapshot: &ClientShellSnapshot, positions: &Vec<usize>) -> (r: Option<usize>)
    requires
        forall|j: int| 0 <= j < positions@.len() ==> #[trigger] positions@[j] < snapshot.tabs@.len(),
    ensures
        r == first_focused(snapshot.tabs@, positions@),
{
    let mut j: usize = 0;
    proof {
        assert(positions@.subrange(0, positions@.len() as int) =~= positions@);
        lemma_first_focused_bounded(snapshot.tabs@, positions@);
    }
    while j < positions.len()
        invariant
            j <= positions@.len(),
            forall|k: int| 0 <= k < positions@.len() ==> #[trigger] positions@[k] < snapshot.tabs@.len(),
            first_focused(snapshot.tabs@, positions@) == shifted(
                first_focused(snapshot.tabs@, positions@.subrange(j as int, positions@.len() as int)),
                j as int,
            ),
        decreases positions@.len() - j,
    {
        let ghost rest = positions@.subrange(j as int, positions@.len() as int);
        proof {
            assert(rest.drop_first() =~= positions@.subrange(j + 1, positions@.len() as int));
            assert(rest[0] == positions@[j as int]);
            lemma_first_focused_bounded(snapshot.tabs@, rest);
        }
        if snapshot.tabs[positions[j]].focused {
            return Some(j);
        }
        proof {
            let inner = first_focused(snapshot.tabs@, rest.drop_first());
            lemma_first_focused_bounded(snapshot.tabs@, rest.drop_first());
            assert(first_focused(snapshot.tabs@, rest) == shifted(inner, 1));
            assert(shifted(shifted(inner, 1), j as int) == shifted(inner, j + 1));
        }
        j = j + 1;
    }
    proof {
        assert(positions@.subrange(j as int, positions@.len() as int).len() == 0);
    }
    None
}

/// Lays out the tab list before scrolling.
///
/// Records the list body in the hit map, wraps the titles of the focused
/// space's tabs (`titles`, one per position in `positions`) to the body
/// width, shows a scrollbar when the body is wider than one column and the
/// tabs take more rows than it has (then rewrapping the titles one column
/// narrower), and gives each tab as many rows as its title has lines, at most
/// the body height. When the render state asks for it, the focused tab is
/// named as the one to scroll into view, and the request is consumed.
pub fn plan_tab_column(
    hits: &mut ShellHitMap,
    state: &mut ShellRenderState,
    snapshot: &ClientShellSnapshot,
    positions: Vec<usize>,
    titles: &Vec<String>,
) -> (plan: TabColumnPlan)
    requires
        positions@ == focused_positions(snapshot.tabs@, snapshot.focused_workspace_id),
        titles@.len() == positions@.len(),
        old(hits).vertical_tabs_area.y + HEADER_ROWS + CONTROL_ROWS <= u16::MAX,
    ensures
        plan.body == tab_body_spec(old(hits).vertical_tabs_area),
        *final(hits) == (ShellHitMap { tab_body: plan.body, ..*old(hits) }),
        plan.positions@ == positions@,
        plan.scrollbar == needs_scrollbar(plan.body, texts_view(titles@)),
        plan.width == row_width(plan.body, plan.scrollbar),
        titles_view(plan.lines@) == wrapped_titles(texts_view(titles@), plan.width),
        plan.heights@.len() == titles@.len(),
        forall|i: int|
            0 <= i < plan.heights@.len() ==> #[trigger] plan.heights@[i] as nat == tab_rows(
                titles_view(plan.lines@)[i],
                plan.body.height,
            ),
        plan.reveal_target == if old(state).reveal_focused_tab {
            first_focused(snapshot.tabs@, positions@)
        } else {
            None
        },
        *final(state) == (ShellRenderState { reveal_focused_tab: false, ..*old(state) }),
{
    let area = hits.vertical_tabs_area;
    let body = tab_body(area);
    hits.tab_body = body;
    let mut lines = wrap_titles(titles, body.width);
    let scrollbar = body.width > 1 && exceeds_rows(&lines, body.height);
    let width = body.width.saturating_sub(if scrollbar { 1 } else { 0 });
    if scrollbar {
        lines = wrap_titles(titles, width);
    }
    let heights = tab_heights(&lines, body.height);
    assert(titles_view(lines@).len() == lines@.len());
    assert(wrapped_titles(texts_view(titles@), width).len() == titles@.len());
    let reveal = state.reveal_focused_tab;
    state.reveal_focused_tab = false;
    let reveal_target = if reveal {
        proof {
            crate::model::lemma_focused_positions_in_range(
                snapshot.tabs@,
                snapshot.focused_workspace_id,
            );
        }
        first_focused_tab(snapshot, &positions)
    } else {
        None
    };
    TabColumnPlan { body, positions, lines, scrollbar, width, heights, reveal_target }
}


/// Rectangles stacked downwards from row `y`, one per height, each as wide
/// as `width` and cut to fit in `u16`.
pub open spec fn stack_rects(x: u16, y: u16, width: u16, heights: Seq<u16>) -> Seq<Rect>
    decreases heights.len(),
{
    if heights.len() == 0 {
        seq![]
    } else {
        let first = rect_new_spec(x, y, width, heights[0]);
        seq![first] + stack_rects(x, first.bottom_spec(), width, heights.drop_first())
    }
}

/// The first visible tab: `start`, but not past the end `n`.
pub open spec fn visible_start(start: usize, n: nat) -> nat {
    if start >= n {
        n
    } else {
        start as nat
    }
}

/// The end of the visible tabs: `count` tabs from `start`, but not past the end `n`.
pub open spec fn visible_end(start: usize, count: usize, n: nat) -> nat {
    if start >= n {
        n
    } else if count > n - start {
        n
    } else {
        (start + count) as nat
    }
}

/// The rectangles of the visible tabs of a plan, scrolled to `start`.
pub open spec fn visible_rects(plan: TabColumnPlan, start: usize, viewport_rows: usize) -> Seq<Rect> {
    stack_rects(
        plan.body.x,
        plan.body.y,
        plan.width,
        plan.heights@.subrange(
            visible_start(start, plan.heights@.len()) as int,
            visible_end(start, viewport_rows, plan.heights@.len()) as int,
        ),
    )
}

/// Where a tab's status icon goes: one column in when the row is wider than
/// one column, with the room left to the row's right edge; nowhere in a row
/// with no width.
pub open spec fn marker_spec(rect: Rect) -> Option<(u16, u16)> {
    if rect.width > 0 {
        let x = rect.x + if rect.width > 1 { 1int } else { 0int };
        Some((x as u16, (rect.right_spec() - x) as u16))
    } else {
        None
    }
}

/// How the tab at position `tab`, whose title has `lines`, is drawn in `rect`.
pub open spec fn row_spec(tab: usize, rect: Rect, lines: Seq<Seq<char>>) -> TabRow {
    TabRow {
        tab,
        rect,
        text_x: saturating_add_spec(rect.x, TITLE_COLUMN),
        text_width: saturating_sub_spec(rect.width, TITLE_COLUMN),
        text_rows: tab_rows(lines, rect.height) as usize,
        marker: marker_spec(rect),
    }
}

/// `a - b`, or 0 where `b` is larger.
pub open spec fn usize_saturating_sub(a: usize, b: usize) -> usize {
    if a < b {
        0
    } else {
        (a - b) as usize
    }
}

/// `a + b`, or `usize::MAX` where the sum does not fit.
pub open spec fn usize_saturating_add(a: usize, b: nat) -> nat {
    if a + b > usize::MAX {
        usize::MAX as nat
    } else {
        (a + b) as nat
    }
}

/// The row on which the drag indicator is drawn for a tab being dropped at
/// `insert_index`: the top of the visible tab now at that place, or the
/// bottom of the last visible tab when it goes after them; none when the
/// place is not among the visible ones or the row is not above the bottom of
/// the vertical tabs area.
pub open spec fn drag_row_spec(
    insert_index: Option<usize>,
    scroll: usize,
    tabs: Seq<(Rect, String)>,
    area_bottom: u16,
) -> Option<u16> {
    match insert_index {
        Some(index) => if index >= scroll && index <= usize_saturating_add(scroll, tabs.len()) {
            let k = index - scroll;
            let row = if k < tabs.len() {
                Some(tabs[k].0.y)
            } else if tabs.len() > 0 {
                Some(tabs.last().0.bottom_spec())
            } else {
                None
            };
            match row {
                Some(r) => if r < area_bottom {
                    Some(r)
                } else {
                    None
                },
                None => None,
            }
        } else {
            None
        },
        None => None,
    }
}

/// The hit entries recorded for the visible tabs: each rectangle with its tab's id.
pub open spec fn tab_hits(
    snapshot: ClientShellSnapshot,
    plan: TabColumnPlan,
    start: usize,
    rects: Seq<Rect>,
) -> Seq<(Rect, String)> {
    Seq::new(
        rects.len(),
        |k: int| (rects[k], snapshot.tabs@[plan.positions@[start + k] as int].tab_id),
    )
}

/// The plan was made for this snapshot: its sequences match and its
/// positions are tabs of the snapshot.
pub open spec fn plan_fits(plan: TabColumnPlan, snapshot: ClientShellSnapshot) -> bool {
    &&& plan.heights@.len() == plan.positions@.len()
    &&& plan.lines@.len() == plan.positions@.len()
    &&& forall|j: int|
        0 <= j < plan.positions@.len() ==> #[trigger] plan.positions@[j] < snapshot.tabs@.len()
    &&& plan.scrollbar ==> plan.body.width > 1
}

pub proof fn lemma_stack_len(x: u16, y: u16, width: u16, heights: Seq<u16>)
    ensures
        stack_rects(x, y, width, heights).len() == heights.len(),
    decreases heights.len(),
{
    if heights.len() > 0 {
        let first = rect_new_spec(x, y, width, heights[0]);
        lemma_stack_len(x, first.bottom_spec(), width, heights.drop_first());
    }
}

/// Lays out the tab list once the list scroller has settled.
///
/// The scroll position becomes `max_offset_from_bottom - offset_from_bottom`
/// (0 at most), and the largest one is recorded. From that position on, as
/// many tabs as the viewport holds are stacked from the top of the body,
/// each as tall as its plan height and as wide as the plan's row width; each
/// gets its title area right of the title column and, where it has width, a
/// status icon place, and is recorded in the hit map with its tab id. A
/// scrollbar takes the last column of the body when the plan has one; the
/// "new tab" control takes the row under the header when the mouse is
/// captured. The drag indicator row is computed from the recorded tabs.
pub fn arrange_tab_column(
    hits: &mut ShellHitMap,
    state: &mut ShellRenderState,
    config: &ClientShellConfig,
    snapshot: &ClientShellSnapshot,
    plan: &TabColumnPlan,
    window: &ScrollWindow,
) -> (layout: TabColumnLayout)
    requires
        plan_fits(*plan, *snapshot),
        ({
            let start = usize_saturating_sub(window.max_offset_from_bottom, window.offset_from_bottom);
            let rects = visible_rects(*plan, start, window.viewport_rows);
            forall|k: int|
                0 <= k < rects.len() && #[trigger] rects[k].height > 0 ==> plan.body.x + TITLE_COLUMN
                    <= u16::MAX
        }),
        config.mouse_capture ==> old(hits).vertical_tabs_area.y + HEADER_ROWS <= u16::MAX,
    ensures
        ({
            let area = old(hits).vertical_tabs_area;
            let start = usize_saturating_sub(window.max_offset_from_bottom, window.offset_from_bottom);
            let rects = visible_rects(*plan, start, window.viewport_rows);
            let scrollbar = if plan.scrollbar {
                Some(
                    rect_new_spec(
                        (plan.body.right_spec() - 1) as u16,
                        plan.body.y,
                        1,
                        plan.body.height,
                    ),
                )
            } else {
                None
            };
            let new_tab = if config.mouse_capture {
                Some(rect_new_spec(area.x, (area.y + HEADER_ROWS) as u16, area.width, CONTROL_ROWS))
            } else {
                None
            };
            &&& *final(state) == (ShellRenderState { tab_scroll: start, ..*old(state) })
            &&& final(state).tab_scroll <= final(hits).tab_max_scroll
            &&& layout.rows@.len() == rects.len()
            &&& forall|k: int|
                0 <= k < rects.len() ==> #[trigger] layout.rows@[k] == row_spec(
                    (start + k) as usize,
                    rects[k],
                    titles_view(plan.lines@)[start + k],
                )
            &&& layout.scrollbar == scrollbar
            &&& layout.new_tab == new_tab
            &&& *final(hits) == (ShellHitMap {
                tabs: final(hits).tabs,
                tab_max_scroll: window.max_offset_from_bottom,
                tab_scroll_metrics: Some(*window),
                tab_scrollbar: match scrollbar {
                    Some(r) => r,
                    None => old(hits).tab_scrollbar,
                },
                new_tab: match new_tab {
                    Some(r) => r,
                    None => old(hits).new_tab,
                },
                ..*old(hits)
            })
            &&& final(hits).tabs@ == old(hits).tabs@ + tab_hits(*snapshot, *plan, start, rects)
            &&& layout.drag_row == drag_row_spec(
                old(state).tab_drag_insert_index,
                start,
                final(hits).tabs@,
                area.bottom_spec(),
            )
        }),
{
    let area = hits.vertical_tabs_area;
    let body = plan.body;
    let start = window.max_offset_from_bottom.saturating_sub(window.offset_from_bottom);
    state.tab_scroll = start;
    hits.tab_max_scroll = window.max_offset_from_bottom;
    hits.tab_scroll_metrics = Some(*window);
    let n = plan.heights.len();
    let first = if start >= n {
        n
    } else {
        start
    };
    let end = if start >= n {
        n
    } else if window.viewport_rows > n - start {
        n
    } else {
        start + window.viewport_rows
    };
    let ghost hs = plan.heights@.subrange(first as int, end as int);
    let ghost rects = stack_rects(body.x, body.y, plan.width, hs);
    let ghost old_tabs = hits.tabs@;
    let ghost lines = titles_view(plan.lines@);
    proof {
        lemma_stack_len(body.x, body.y, plan.width, hs);
        assert(hs.subrange(0, hs.len() as int) =~= hs);
        assert(rects =~= Seq::<Rect>::empty() + stack_rects(body.x, body.y, plan.width, hs.subrange(0, hs.len() as int)));
        assert(tab_hits(*snapshot, *plan, start, rects).take(0) =~= Seq::<(Rect, String)>::empty());
        assert(hits.tabs@ =~= old_tabs + tab_hits(*snapshot, *plan, start, rects).take(0));
    }
    let ghost before_loop = *hits;
    let mut rows: Vec<TabRow> = Vec::new();
    let mut y = body.y;
    let mut index = first;
    while index < end
        invariant
            first <= index <= end <= n,
            first == visible_start(start, n as nat),
            end == visible_end(start, window.viewport_rows, n as nat),
            end > first ==> first == start,
            n == plan.heights@.len(),
            plan_fits(*plan, *snapshot),
            body == plan.body,
            hs == plan.heights@.subrange(first as int, end as int),
            rects == stack_rects(body.x, body.y, plan.width, hs),
            rects.len() == hs.len(),
            lines == titles_view(plan.lines@),
            rows@.len() == index - first,
            forall|k: int|
                0 <= k < index - first ==> #[trigger] rows@[k] == row_spec(
                    (start + k) as usize,
                    rects[k],
                    lines[start + k],
                ),
            rects == rects.take(index - first) + stack_rects(
                body.x,
                y,
                plan.width,
                hs.subrange(index - first, hs.len() as int),
            ),
            hits.tabs@ == old_tabs + tab_hits(*snapshot, *plan, start, rects).take(index - first),
            *hits == (ShellHitMap { tabs: hits.tabs, ..before_loop }),
            before_loop.vertical_tabs_area == area,
        decreases end - index,
    {
        let ghost k = index - first;
        let ghost tail = hs.subrange(k, hs.len() as int);
        let rect = Rect::new(body.x, y, plan.width, plan.heights[index]);
        proof {
            assert(tail[0] == plan.heights@[index as int]);
            assert(tail.drop_first() =~= hs.subrange(k + 1, hs.len() as int));
            let after = stack_rects(body.x, rect.bottom_spec(), plan.width, tail.drop_first());
            assert(stack_rects(body.x, y, plan.width, tail) == seq![rect] + after);
            assert(rects[k] == rect) by {
                assert((rects.take(k) + (seq![rect] + after))[k] == rect);
            }
            assert(rects.take(k + 1) =~= rects.take(k).push(rect));
            assert(rects =~= rects.take(k + 1) + after);
        }
        y = rect.bottom();
        let marker = if rect.width > 0 {
            let x = rect.x + if rect.width > 1 { 1 } else { 0 };
            Some((x, rect.right() - x))
        } else {
            None
        };
        let text_rows = if plan.lines[index].len() < rect.height as usize {
            plan.lines[index].len()
        } else {
            rect.height as usize
        };
        proof {
            assert(lines[index as int] == texts_view(plan.lines@[index as int]@));
        }
        let row = TabRow {
            tab: index,
            rect,
            text_x: rect.x.saturating_add(TITLE_COLUMN),
            text_width: rect.width.saturating_sub(TITLE_COLUMN),
            text_rows,
            marker,
        };
        rows.push(row);
        let position = plan.positions[index];
        let id = snapshot.tabs[position].tab_id.clone();
        hits.tabs.push((rect, id));
        proof {
            assert(tab_hits(*snapshot, *plan, start, rects).take(k + 1) =~= tab_hits(
                *snapshot,
                *plan,
                start,
                rects,
            ).take(k).push((rect, id)));
        }
        index = index + 1;
    }
    proof {
        assert(tab_hits(*snapshot, *plan, start, rects).take(rects.len() as int) =~= tab_hits(
            *snapshot,
            *plan,
            start,
            rects,
        ));
    }
    let scrollbar = if plan.scrollbar {
        let r = Rect::new(body.right() - 1, body.y, 1, body.height);
        hits.tab_scrollbar = r;
        Some(r)
    } else {
        None
    };
    let new_tab = if config.mouse_capture {
        let r = Rect::new(area.x, area.y + HEADER_ROWS, area.width, CONTROL_ROWS);
        hits.new_tab = r;
        Some(r)
    } else {
        None
    };
    let drag_row = match state.tab_drag_insert_index {
        Some(insert) => {
            let count = hits.tabs.len();
            if insert >= start && insert <= start.saturating_add(count) {
                let k = insert - start;
                let row = if k < count {
                    Some(hits.tabs[k].0.y)
                } else if count > 0 {
                    Some(hits.tabs[count - 1].0.bottom())
                } else {
                    None
                };
                match row {
                    Some(r) => if r < area.bottom() {
                        Some(r)
                    } else {
                        None
                    },
                    None => None,
                }
            } else {
                None
            }
        },
        None => None,
    };
    TabColumnLayout { rows, scrollbar, new_tab, drag_row }
}

/// Whether the title column of every visible tab row with height lies in
/// `u16`: the condition `arrange_tab_column` needs of its plan and window.
pub fn title_column_fits(plan: &TabColumnPlan, window: &ScrollWindow) -> (r: bool)
    ensures
        r == ({
            let start = usize_saturating_sub(window.max_offset_from_bottom, window.offset_from_bottom);
            let rects = visible_rects(*plan, start, window.viewport_rows);
            forall|k: int|
                0 <= k < rects.len() && #[trigger] rects[k].height > 0 ==> plan.body.x + TITLE_COLUMN
                    <= u16::MAX
        }),
{
    let body = plan.body;
    let ghost start_g = usize_saturating_sub(window.max_offset_from_bottom, window.offset_from_bottom);
    let ghost rects = visible_rects(*plan, start_g, window.viewport_rows);
    if body.x <= u16::MAX - TITLE_COLUMN {
        return true;
    }
    let start = window.max_offset_from_bottom.saturating_sub(window.offset_from_bottom);
    let n = plan.heights.len();
    let first = if start >= n {
        n
    } else {
        start
    };
    let end = if start >= n {
        n
    } else if window.viewport_rows > n - start {
        n
    } else {
        start + window.viewport_rows
    };
    let ghost hs = plan.heights@.subrange(first as int, end as int);
    proof {
        lemma_stack_len(body.x, body.y, plan.width, hs);
        assert(hs.subrange(0, hs.len() as int) =~= hs);
        assert(rects =~= rects.take(0) + stack_rects(body.x, body.y, plan.width, hs.subrange(0, hs.len() as int)));
    }
    let mut y = body.y;
    let mut index = first;
    while index < end
        invariant
            first <= index <= end <= n,
            n == plan.heights@.len(),
            body == plan.body,
            body.x + TITLE_COLUMN > u16::MAX,
            rects == visible_rects(*plan, start_g, window.viewport_rows),
            start_g == usize_saturating_sub(window.max_offset_from_bottom, window.offset_from_bottom),
            hs == plan.heights@.subrange(first as int, end as int),
            rects == stack_rects(body.x, body.y, plan.width, hs),
            rects.len() == hs.len(),
            forall|k: int| 0 <= k < index - first ==> #[trigger] rects[k].height == 0,
            rects == rects.take(index - first) + stack_rects(
                body.x,
                y,
                plan.width,
                hs.subrange(index - first, hs.len() as int),
            ),
        decreases end - index,
    {
        let ghost k = index - first;
        let ghost tail = hs.subrange(k, hs.len() as int);
        let rect = Rect::new(body.x, y, plan.width, plan.heights[index]);
        proof {
            assert(tail[0] == plan.heights@[index as int]);
            assert(tail.drop_first() =~= hs.subrange(k + 1, hs.len() as int));
            let after = stack_rects(body.x, rect.bottom_spec(), plan.width, tail.drop_first());
            assert(stack_rects(body.x, y, plan.width, tail) == seq![rect] + after);
            assert(rects[k] == rect) by {
                assert((rects.take(k) + (seq![rect] + after))[k] == rect);
            }
            assert(rects.take(k + 1) =~= rects.take(k).push(rect));
            assert(rects =~= rects.take(k + 1) + after);
        }
        if rect.height > 0 {
            assert(rects[k].height > 0);
            return false;
        }
        y = rect.bottom();
        index = index + 1;
    }
    true
}

} // verus!
