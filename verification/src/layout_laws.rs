use vstd::prelude::*;
use crate::column::{
    TabColumnPlan, drag_row_spec, first_focused, lemma_stack_len, needs_scrollbar, stack_rects,
    tab_body_spec, tab_hits, total_rows, usize_saturating_sub, visible_rects, wrapped_titles,
};
use crate::section::{MIN_TAB_HEIGHT, minimum_spaces, reserves_tab_section, spaces_height};
use crate::geometry::{Rect, rect_new_spec};
use crate::model::{
    ClientShellConfig, ClientShellSnapshot, ClientShellTab, ShellRenderState, focused_positions,
    in_focused_workspace,
};

verus! {

/// The sum of the heights.
pub open spec fn total_height(heights: Seq<u16>) -> nat
    decreases heights.len(),
{
    if heights.len() == 0 {
        0
    } else {
        heights[0] as nat + total_height(heights.drop_first())
    }
}

/// Stacked tab rows touch: each starts on the row where the one above it
/// ends, and all start at the same column with the same width.
pub proof fn law_stacked_rows_touch(x: u16, y: u16, width: u16, heights: Seq<u16>)
    ensures
        stack_rects(x, y, width, heights).len() == heights.len(),
        forall|k: int|
            0 <= k < heights.len() ==> (#[trigger] stack_rects(x, y, width, heights)[k]).x == x
                && stack_rects(x, y, width, heights)[k].width == rect_new_spec(
                x,
                0,
                width,
                0,
            ).width,
        forall|k: int|
            0 <= k < heights.len() - 1 ==> #[trigger] stack_rects(x, y, width, heights)[k
                + 1].y == stack_rects(x, y, width, heights)[k].bottom_spec(),
    decreases heights.len(),
{
    if heights.len() > 0 {
        let first = rect_new_spec(x, y, width, heights[0]);
        let rest = stack_rects(x, first.bottom_spec(), width, heights.drop_first());
        law_stacked_rows_touch(x, first.bottom_spec(), width, heights.drop_first());
        let all = stack_rects(x, y, width, heights);
        assert(all == seq![first] + rest);
        if heights.len() > 1 {
            let second = rect_new_spec(x, first.bottom_spec(), width, heights.drop_first()[0]);
            assert(rest[0] == second);
        }
        assert forall|k: int| 0 <= k < heights.len() - 1 implies #[trigger] all[k + 1].y
            == all[k].bottom_spec() by {
            if k > 0 {
                assert(all[k] == rest[k - 1]);
                assert(all[k + 1] == rest[k]);
                assert(rest[(k - 1) + 1].y == rest[k - 1].bottom_spec());
            } else {
                assert(all[1] == rest[0]);
            }
        }
        assert forall|k: int| 0 <= k < heights.len() implies (#[trigger] all[k]).x == x
            && all[k].width == rect_new_spec(x, 0, width, 0).width by {
            if k > 0 {
                assert(all[k] == rest[k - 1]);
            }
        }
    }
}

proof fn lemma_stack_inside(x: u16, y: u16, width: u16, heights: Seq<u16>, top: int, bottom: int)
    requires
        top <= y,
        y + total_height(heights) <= bottom,
        bottom <= u16::MAX,
    ensures
        forall|k: int|
            0 <= k < heights.len() ==> {
                let r = #[trigger] stack_rects(x, y, width, heights)[k];
                &&& top <= r.y
                &&& r.y + r.height <= bottom
                &&& r.height == heights[k]
            },
    decreases heights.len(),
{
    if heights.len() > 0 {
        let first = rect_new_spec(x, y, width, heights[0]);
        let rest = stack_rects(x, first.bottom_spec(), width, heights.drop_first());
        lemma_stack_inside(x, first.bottom_spec(), width, heights.drop_first(), top, bottom);
        lemma_stack_len(x, first.bottom_spec(), width, heights.drop_first());
        let all = stack_rects(x, y, width, heights);
        assert(all == seq![first] + rest);
        assert forall|k: int| 0 <= k < heights.len() implies {
            let r = #[trigger] all[k];
            &&& top <= r.y
            &&& r.y + r.height <= bottom
            &&& r.height == heights[k]
        } by {
            if k > 0 {
                assert(all[k] == rest[k - 1]);
                assert(heights.drop_first()[k - 1] == heights[k]);
            }
        }
    }
}

/// Tab rows stacked from the top of the list body, as wide as the body at
/// most and no taller together than the body, stay inside the body and keep
/// their heights.
pub proof fn law_stacked_rows_stay_in_body(body: Rect, width: u16, heights: Seq<u16>)
    requires
        body.fits(),
        width <= body.width,
        total_height(heights) <= body.height,
    ensures
        forall|k: int|
            0 <= k < heights.len() ==> {
                let r = #[trigger] stack_rects(body.x, body.y, width, heights)[k];
                &&& body.x == r.x
                &&& r.x + r.width <= body.x + body.width
                &&& body.y <= r.y
                &&& r.y + r.height <= body.y + body.height
                &&& r.height == heights[k]
            },
{
    law_stacked_rows_touch(body.x, body.y, width, heights);
    lemma_stack_inside(body.x, body.y, width, heights, body.y as int, body.y + body.height);
}

/// The tabs listed for the focused space are exactly the tabs that belong to
/// it, in the order of the snapshot, each once.
pub proof fn law_focused_positions_are_the_focused_space(
    tabs: Seq<ClientShellTab>,
    focused: Option<String>,
)
    requires
        tabs.len() <= usize::MAX,
    ensures
        forall|j: int|
            0 <= j < focused_positions(tabs, focused).len() ==> {
                let p = #[trigger] focused_positions(tabs, focused)[j];
                p < tabs.len() && in_focused_workspace(tabs[p as int], focused)
            },
        forall|i: int|
            0 <= i < tabs.len() && in_focused_workspace(#[trigger] tabs[i], focused) ==> focused_positions(
                tabs,
                focused,
            ).contains(i as usize),
        forall|j: int, k: int|
            0 <= j < k < focused_positions(tabs, focused).len() ==> #[trigger] focused_positions(
                tabs,
                focused,
            )[j] < #[trigger] focused_positions(tabs, focused)[k],
    decreases tabs.len(),
{
    if tabs.len() > 0 {
        let prev = tabs.drop_last();
        law_focused_positions_are_the_focused_space(prev, focused);
        let ps = focused_positions(tabs, focused);
        let pp = focused_positions(prev, focused);
        let last = (tabs.len() - 1) as usize;
        let included = in_focused_workspace(tabs.last(), focused);
        if included {
            assert(ps == pp.push(last));
        } else {
            assert(ps == pp);
        }
        assert forall|j: int| 0 <= j < ps.len() implies {
            let p = #[trigger] ps[j];
            p < tabs.len() && in_focused_workspace(tabs[p as int], focused)
        } by {
            if j < pp.len() {
                assert(ps[j] == pp[j]);
                assert(tabs[pp[j] as int] == prev[pp[j] as int]);
            } else {
                assert(included);
                assert(ps[j] == last);
            }
        }
        assert forall|i: int| 0 <= i < tabs.len() && in_focused_workspace(#[trigger] tabs[i], focused)
            implies ps.contains(i as usize) by {
            if i < tabs.len() - 1 {
                assert(prev[i] == tabs[i]);
                assert(pp.contains(i as usize));
                let j = choose|j: int| 0 <= j < pp.len() && pp[j] == i as usize;
                assert(ps[j] == pp[j]);
            } else {
                assert(tabs[i] == tabs.last());
                assert(ps[ps.len() - 1] == i as usize);
            }
        }
        assert forall|j: int, k: int| 0 <= j < k < ps.len() implies #[trigger] ps[j] < #[trigger] ps[k] by {
            if k < pp.len() {
                assert(ps[j] == pp[j] && ps[k] == pp[k]);
            } else {
                assert(ps[j] == pp[j]);
                assert(pp[j] < prev.len());
            }
        }
    }
}


/// Reserving the tab section splits the sidebar area in two without gap or
/// overlap: the spaces list keeps at least its minimum rows on top, the
/// vertical tabs area takes the rest below it (at least the section's
/// minimum, so its list body has a row), and a proposed height that leaves
/// both their minimum is taken as it is.
pub proof fn law_section_split_partitions_area(area: Rect, proposed_height: u16, workspace_header_rows: u16)
    requires
        area.fits(),
        workspace_header_rows + 2 + MIN_TAB_HEIGHT <= u16::MAX,
        area.height >= minimum_spaces(workspace_header_rows) + MIN_TAB_HEIGHT,
    ensures
        ({
            let h = spaces_height(area, proposed_height, workspace_header_rows);
            let tabs = rect_new_spec(area.x, (area.y + h) as u16, area.width, (area.height - h) as u16);
            let body = tab_body_spec(tabs);
            &&& minimum_spaces(workspace_header_rows) <= h
            &&& tabs.height >= MIN_TAB_HEIGHT
            &&& tabs.x == area.x && tabs.width == area.width
            &&& tabs.y == area.y + h
            &&& h + tabs.height == area.height
            &&& body.height >= 1
            &&& tabs.y < body.y
            &&& body.y + body.height <= area.y + area.height
            &&& (minimum_spaces(workspace_header_rows) <= proposed_height <= area.height
                - MIN_TAB_HEIGHT ==> h == proposed_height)
        }),
{
}

/// A larger split ratio never shrinks the spaces list nor grows the tab
/// section: the spaces list's height grows with the proposed height.
pub proof fn law_section_split_monotone(
    area: Rect,
    proposed_low: u16,
    proposed_high: u16,
    workspace_header_rows: u16,
)
    requires
        proposed_low <= proposed_high,
        workspace_header_rows + 2 + MIN_TAB_HEIGHT <= u16::MAX,
        area.height >= minimum_spaces(workspace_header_rows) + MIN_TAB_HEIGHT,
    ensures
        spaces_height(area, proposed_low, workspace_header_rows) <= spaces_height(
            area,
            proposed_high,
            workspace_header_rows,
        ),
        area.height - spaces_height(area, proposed_low, workspace_header_rows) >= area.height
            - spaces_height(area, proposed_high, workspace_header_rows),
{
}

/// When the scroller settles at the top with room for every tab, every tab
/// of the plan is shown and recorded, in order, each with its own id.
pub proof fn law_full_window_lists_every_tab(
    snapshot: ClientShellSnapshot,
    plan: TabColumnPlan,
    max_offset_from_bottom: usize,
    offset_from_bottom: usize,
    viewport_rows: usize,
)
    requires
        usize_saturating_sub(max_offset_from_bottom, offset_from_bottom) == 0,
        viewport_rows >= plan.heights@.len(),
        plan.heights@.len() == plan.positions@.len(),
    ensures
        visible_rects(plan, 0, viewport_rows).len() == plan.positions@.len(),
        forall|k: int|
            0 <= k < plan.positions@.len() ==> (#[trigger] tab_hits(
                snapshot,
                plan,
                0,
                visible_rects(plan, 0, viewport_rows),
            )[k]).1 == snapshot.tabs@[plan.positions@[k] as int].tab_id,
{
    let n = plan.heights@.len() as int;
    lemma_stack_len(plan.body.x, plan.body.y, plan.width, plan.heights@.subrange(0, n));
}

/// With the tab bar not hidden for a single tab, the tab section is reserved
/// exactly when vertical tabs are on, the sidebar is open, the area is tall
/// enough for both parts and there is a snapshot, whatever the number of
/// tabs in the focused space.
pub proof fn law_tab_section_reserved_whatever_the_tab_count(
    area: Rect,
    snapshot: Option<&ClientShellSnapshot>,
    config: ClientShellConfig,
    state: ShellRenderState,
    workspace_header_rows: u16,
)
    requires
        !config.hide_tab_bar_when_single_tab,
    ensures
        reserves_tab_section(area, snapshot, config, state, workspace_header_rows) == (
        config.vertical_tabs && !state.sidebar_collapsed && area.height >= minimum_spaces(
            workspace_header_rows,
        ) + MIN_TAB_HEIGHT && snapshot is Some),
{
}

/// With the tab bar hidden for a single tab, a focused space of exactly one
/// tab gets no tab section, and any other number of tabs (none included)
/// gets one wherever the section would be reserved with that setting off.
pub proof fn law_single_tab_hides_the_tab_section(
    area: Rect,
    snapshot: &ClientShellSnapshot,
    config: ClientShellConfig,
    state: ShellRenderState,
    workspace_header_rows: u16,
)
    requires
        config.hide_tab_bar_when_single_tab,
    ensures
        ({
            let shown = ClientShellConfig { hide_tab_bar_when_single_tab: false, ..config };
            let count = focused_positions(snapshot.tabs@, snapshot.focused_workspace_id).len();
            &&& count == 1 ==> !reserves_tab_section(
                area,
                Some(snapshot),
                config,
                state,
                workspace_header_rows,
            )
            &&& count != 1 ==> reserves_tab_section(
                area,
                Some(snapshot),
                config,
                state,
                workspace_header_rows,
            ) == reserves_tab_section(area, Some(snapshot), shown, state, workspace_header_rows)
        }),
{
}

/// The drag indicator for a drop at `index` stands at the top of the tab that
/// is at that place: the row recorded `index - scroll` places into the
/// visible rows of this frame, whatever the scroll, when that row is above
/// the bottom of the area; a drop just after the last visible row is shown
/// at that row's bottom; a drop above the visible rows is not shown.
pub proof fn law_drag_indicator_marks_the_insert_place(
    index: usize,
    scroll: usize,
    tabs: Seq<(Rect, String)>,
    area_bottom: u16,
)
    ensures
        scroll <= index < scroll + tabs.len() && tabs[index - scroll].0.y < area_bottom
            ==> drag_row_spec(Some(index), scroll, tabs, area_bottom) == Some(
            tabs[index - scroll].0.y,
        ),
        scroll <= index < scroll + tabs.len() && tabs[index - scroll].0.y >= area_bottom
            ==> drag_row_spec(Some(index), scroll, tabs, area_bottom) is None,
        tabs.len() > 0 && index == scroll + tabs.len() && tabs.last().0.bottom_spec()
            < area_bottom ==> drag_row_spec(Some(index), scroll, tabs, area_bottom) == Some(
            tabs.last().0.bottom_spec(),
        ),
        index < scroll ==> drag_row_spec(Some(index), scroll, tabs, area_bottom) is None,
        drag_row_spec(None, scroll, tabs, area_bottom) is None,
{
}

/// The tab scrolled into view is the first focused tab of the focused space:
/// the place `j` named holds a focused tab and no earlier place does, and no
/// place is named only when none of the tabs is focused.
pub proof fn law_first_focused_is_the_first_focused_tab(
    tabs: Seq<ClientShellTab>,
    positions: Seq<usize>,
)
    requires
        positions.len() <= usize::MAX,
    ensures
        match first_focused(tabs, positions) {
            Some(j) => {
                &&& j < positions.len()
                &&& tabs[positions[j as int] as int].focused
                &&& forall|k: int| 0 <= k < j ==> !(#[trigger] tabs[positions[k] as int]).focused
            },
            None => forall|k: int|
                0 <= k < positions.len() ==> !(#[trigger] tabs[positions[k] as int]).focused,
        },
    decreases positions.len(),
{
    if positions.len() > 0 && !tabs[positions[0] as int].focused {
        let rest = positions.drop_first();
        law_first_focused_is_the_first_focused_tab(tabs, rest);
        match first_focused(tabs, rest) {
            Some(j) => {
                assert(positions[j + 1] == rest[j as int]);
                assert forall|k: int| 0 <= k < j + 1 implies !(
                #[trigger] tabs[positions[k] as int]).focused by {
                    if k > 0 {
                        assert(positions[k] == rest[k - 1]);
                    }
                }
            },
            None => {
                assert forall|k: int| 0 <= k < positions.len() implies !(
                #[trigger] tabs[positions[k] as int]).focused by {
                    if k > 0 {
                        assert(positions[k] == rest[k - 1]);
                    }
                }
            },
        }
    }
}

/// Tabs count row by row toward the scrollbar decision: the rows of a list
/// of tabs are the rows of its parts added up, and one tab counts its title
/// lines but at most `height` of them, so a list of tabs counts at most
/// `height` rows per tab.
pub proof fn law_tab_rows_add_up(
    a: Seq<Seq<Seq<char>>>,
    b: Seq<Seq<Seq<char>>>,
    lines: Seq<Seq<char>>,
    height: u16,
)
    ensures
        total_rows(a + b, height) == total_rows(a, height) + total_rows(b, height),
        total_rows(seq![lines], height) == if lines.len() < height {
            lines.len()
        } else {
            height as nat
        },
        total_rows(a, height) <= a.len() * height,
    decreases b.len(),
{
    assert(seq![lines].drop_last() =~= Seq::<Seq<Seq<char>>>::empty());
    assert(total_rows(Seq::<Seq<Seq<char>>>::empty(), height) == 0);
    assert(seq![lines].last() == lines);
    if b.len() == 0 {
        assert(a + b =~= a);
    } else {
        law_tab_rows_add_up(a, b.drop_last(), lines, height);
        assert((a + b).drop_last() =~= a + b.drop_last());
        assert((a + b).last() == b.last());
    }
    lemma_total_rows_at_most(a, height);
}

proof fn lemma_total_rows_at_most(a: Seq<Seq<Seq<char>>>, height: u16)
    ensures
        total_rows(a, height) <= a.len() * height,
    decreases a.len(),
{
    if a.len() > 0 {
        lemma_total_rows_at_most(a.drop_last(), height);
        assert(a.len() * height == (a.len() - 1) * height + height) by (nonlinear_arith);
    }
}

/// A single tab never needs a scrollbar: its rows are cut to the height of
/// the list body, so it always fits.
pub proof fn law_single_tab_needs_no_scrollbar(body: Rect, title: Seq<char>)
    ensures
        !needs_scrollbar(body, seq![title]),
{
    let lines = wrapped_titles(seq![title], body.width);
    assert(lines.len() == 1);
    assert(lines.drop_last() =~= Seq::<Seq<Seq<char>>>::empty());
    assert(total_rows(Seq::<Seq<Seq<char>>>::empty(), body.height) == 0);
    assert(total_rows(lines, body.height) <= body.height);
}

} // verus!
