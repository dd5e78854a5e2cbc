use vstd::prelude::*;
use crate::geometry::Rect;

verus! {

/// One tab of the shell as the tab column reads it.
pub struct ClientShellTab {
    pub tab_id: String,
    pub workspace_id: String,
    pub focused: bool,
}

/// The part of the shell's snapshot that the tab column reads: all tabs, in
/// order, and the workspace ("space") that has the focus.
pub struct ClientShellSnapshot {
    pub tabs: Vec<ClientShellTab>,
    pub focused_workspace_id: Option<String>,
}

/// The settings that the tab column reads.
pub struct ClientShellConfig {
    pub vertical_tabs: bool,
    pub hide_tab_bar_when_single_tab: bool,
    pub mouse_capture: bool,
}

/// The per-frame render state that the tab column reads and updates.
pub struct ShellRenderState {
    pub sidebar_collapsed: bool,
    pub reveal_focused_tab: bool,
    pub tab_scroll: usize,
    pub tab_drag_insert_index: Option<usize>,
}

/// The scroll position that the list scroller settled on: how many tabs fit
/// in the viewport, and how far from the bottom the view is and can be.
#[derive(Clone, Copy, Debug, PartialEq, Eq, Structural)]
pub struct ScrollWindow {
    pub viewport_rows: usize,
    pub offset_from_bottom: usize,
    pub max_offset_from_bottom: usize,
}

/// The clickable areas that the tab column records for input handling.
pub struct ShellHitMap {
    pub tab_section_area: Rect,
    pub vertical_tabs_area: Rect,
    pub tab_section_divider: Rect,
    pub tab_body: Rect,
    pub tabs: Vec<(Rect, String)>,
    pub tab_max_scroll: usize,
    pub tab_scroll_metrics: Option<ScrollWindow>,
    pub tab_scrollbar: Rect,
    pub new_tab: Rect,
}

/// Whether a tab belongs to the focused workspace.
pub open spec fn in_focused_workspace(tab: ClientShellTab, focused: Option<String>) -> bool {
    match focused {
        Some(f) => tab.workspace_id@ == f@,
        None => false,
    }
}

/// The positions, in order, of the tabs that belong to the focused workspace.
pub open spec fn focused_positions(tabs: Seq<ClientShellTab>, focused: Option<String>) -> Seq<
    usize,
>
    decreases tabs.len(),
{
    if tabs.len() == 0 {
        seq![]
    } else if in_focused_workspace(tabs.last(), focused) {
        focused_positions(tabs.drop_last(), focused).push((tabs.len() - 1) as usize)
    } else {
        focused_positions(tabs.drop_last(), focused)
    }
}

/// Whether the tab belongs to the focused workspace.
fn tab_in_focused_workspace(tab: &ClientShellTab, focused: &Option<String>) -> (r: bool)
    ensures
        r == in_focused_workspace(*tab, *focused),
{
    match focused {
        Some(f) => tab.workspace_id == *f,
        None => false,
    }
}

pub proof fn lemma_focused_positions_in_range(tabs: Seq<ClientShellTab>, focused: Option<String>)
    ensures
        focused_positions(tabs, focused).len() <= tabs.len(),
        forall|j: int|
            0 <= j < focused_positions(tabs, focused).len() ==> #[trigger] focused_positions(
                tabs,
                focused,
            )[j] < tabs.len(),
    decreases tabs.len(),
{
    if tabs.len() > 0 {
        lemma_focused_positions_in_range(tabs.drop_last(), focused);
    }
}

/// The positions of the snapshot's tabs that belong to the focused workspace.
pub fn focused_workspace_tabs(snapshot: &ClientShellSnapshot) -> (r: Vec<usize>)
    ensures
        r@ == focused_positions(snapshot.tabs@, snapshot.focused_workspace_id),
        forall|j: int| 0 <= j < r@.len() ==> #[trigger] r@[j] < snapshot.tabs@.len(),
{
    let mut r: Vec<usize> = Vec::new();
    let mut i: usize = 0;
    while i < snapshot.tabs.len()
        invariant
            i <= snapshot.tabs@.len(),
            r@ == focused_positions(snapshot.tabs@.take(i as int), snapshot.focused_workspace_id),
        decreases snapshot.tabs@.len() - i,
    {
        proof {
            assert(snapshot.tabs@.take(i + 1).drop_last() =~= snapshot.tabs@.take(i as int));
        }
        if tab_in_focused_workspace(&snapshot.tabs[i], &snapshot.focused_workspace_id) {
            r.push(i);
        }
        i = i + 1;
    }
    proof {
        assert(snapshot.tabs@.take(i as int) =~= snapshot.tabs@);
        lemma_focused_positions_in_range(snapshot.tabs@, snapshot.focused_workspace_id);
    }
    r
}

} // verus!
