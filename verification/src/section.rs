use vstd::prelude::*;
use crate::geometry::{Rect, rect_new_spec};
use crate::model::{
    ClientShellConfig, ClientShellSnapshot, ShellHitMap, ShellRenderState, focused_positions,
    focused_workspace_tabs,
};

verus! {

/// Rows of the tab section's header line.
pub const HEADER_ROWS: u16 = 1;

/// Rows of the "new tab" control under the header.
pub const CONTROL_ROWS: u16 = 1;

/// Rows kept free under the tab list.
pub const FOOTER_ROWS: u16 = 1;

/// The fewest rows the tab section can have: header, control, one tab row, footer.
pub const MIN_TAB_HEIGHT: u16 = HEADER_ROWS + CONTROL_ROWS + 1 + FOOTER_ROWS;

/// Columns before a tab's title: padding, status icon, then a space.
pub const TITLE_COLUMN: u16 = 3;

/// The fewest rows the spaces list above the tabs keeps: its header, one
/// space row and one more row.
pub open spec fn minimum_spaces(workspace_header_rows: u16) -> int {
    workspace_header_rows + 1 + 1
}

/// Whether the sidebar area is split into the spaces list and a tab section:
/// vertical tabs are on, the sidebar is not collapsed, the area is tall
/// enough for both parts, there is a snapshot, and the tab bar is not hidden
/// because the focused space holds a single tab.
pub open spec fn reserves_tab_section(
    area: Rect,
    snapshot: Option<&ClientShellSnapshot>,
    config: ClientShellConfig,
    state: ShellRenderState,
    workspace_header_rows: u16,
) -> bool {
    &&& config.vertical_tabs
    &&& !state.sidebar_collapsed
    &&& area.height >= minimum_spaces(workspace_header_rows) + MIN_TAB_HEIGHT
    &&& snapshot is Some
    &&& !(config.hide_tab_bar_when_single_tab && focused_positions(
        snapshot->0.tabs@,
        snapshot->0.focused_workspace_id,
    ).len() == 1)
}

/// The height left to the spaces list: the proposed height (the area's
/// height scaled by the split ratio and rounded), clamped so that both the
/// spaces list and the tab section keep their minimum rows.
pub open spec fn spaces_height(area: Rect, proposed_height: u16, workspace_header_rows: u16) -> u16 {
    let low = minimum_spaces(workspace_header_rows);
    let high = area.height - MIN_TAB_HEIGHT;
    if proposed_height < low {
        low as u16
    } else if proposed_height > high {
        high as u16
    } else {
        proposed_height
    }
}

/// The height the spaces list keeps when the tab section is reserved, none otherwise.
fn reserved_height(
    area: Rect,
    snapshot: Option<&ClientShellSnapshot>,
    config: &ClientShellConfig,
    state: &ShellRenderState,
    workspace_header_rows: u16,
    proposed_height: u16,
) -> (r: Option<u16>)
    requires
        workspace_header_rows + 2 + MIN_TAB_HEIGHT <= u16::MAX,
    ensures
        r == if reserves_tab_section(area, snapshot, *config, *state, workspace_header_rows) {
            Some(spaces_height(area, proposed_height, workspace_header_rows))
        } else {
            None
        },
{
    let minimum_spaces = workspace_header_rows + 1 + 1;
    if !config.vertical_tabs || state.sidebar_collapsed || area.height < minimum_spaces
        + MIN_TAB_HEIGHT {
        return None;
    }
    let snapshot = match snapshot {
        Some(s) => s,
        None => {
            return None;
        },
    };
    let count = focused_workspace_tabs(snapshot).len();
    if config.hide_tab_bar_when_single_tab && count == 1 {
        return None;
    }
    let high = area.height - MIN_TAB_HEIGHT;
    let height = if proposed_height < minimum_spaces {
        minimum_spaces
    } else if proposed_height > high {
        high
    } else {
        proposed_height
    };
    Some(height)
}

/// Whether `reserve_section` can split this area: where the tab section is
/// reserved, the row below the spaces list must be a `u16` row.
pub fn section_split_fits(
    area: Rect,
    snapshot: Option<&ClientShellSnapshot>,
    config: &ClientShellConfig,
    state: &ShellRenderState,
    workspace_header_rows: u16,
    proposed_height: u16,
) -> (r: bool)
    requires
        workspace_header_rows + 2 + MIN_TAB_HEIGHT <= u16::MAX,
    ensures
        r == (reserves_tab_section(area, snapshot, *config, *state, workspace_header_rows) ==> area.y
            + spaces_height(area, proposed_height, workspace_header_rows) <= u16::MAX),
{
    match reserved_height(area, snapshot, config, state, workspace_header_rows, proposed_height) {
        Some(h) => h <= u16::MAX - area.y,
        None => true,
    }
}

/// Splits the sidebar area between the spaces list and the vertical tab section.
///
/// Where the section is reserved (see `reserves_tab_section`), the spaces
/// list keeps the top `spaces_height` rows, which are returned; the hit map
/// records the whole area as the tab section area, the rows below as the
/// vertical tabs area, and the first of those rows as the divider. Otherwise
/// the area is returned whole and the hit map is left as it was.
///
/// `proposed_height` is the area's height multiplied by the split ratio (the
/// dragged split, else the sidebar's default split) and rounded, as a `u16`.
/// `workspace_header_rows` is the height of the spaces list's header.
pub fn reserve_section(
    area: Rect,
    snapshot: Option<&ClientShellSnapshot>,
    config: &ClientShellConfig,
    state: &ShellRenderState,
    hits: &mut ShellHitMap,
    workspace_header_rows: u16,
    proposed_height: u16,
) -> (r: Rect)
    requires
        workspace_header_rows + 2 + MIN_TAB_HEIGHT <= u16::MAX,
        reserves_tab_section(area, snapshot, *config, *state, workspace_header_rows) ==> area.y
            + spaces_height(area, proposed_height, workspace_header_rows) <= u16::MAX,
    ensures
        ({
            let height = spaces_height(area, proposed_height, workspace_header_rows);
            if reserves_tab_section(area, snapshot, *config, *state, workspace_header_rows) {
                &&& r == (Rect { height, ..area })
                &&& *final(hits) == (ShellHitMap {
                    tab_section_area: area,
                    vertical_tabs_area: rect_new_spec(
                        area.x,
                        (area.y + height) as u16,
                        area.width,
                        (area.height - height) as u16,
                    ),
                    tab_section_divider: rect_new_spec(
                        area.x,
                        (area.y + height) as u16,
                        area.width,
                        HEADER_ROWS,
                    ),
                    ..*old(hits)
                })
            } else {
                &&& r == area
                &&& *final(hits) == *old(hits)
            }
        }),
{
    let height = match reserved_height(
        area,
        snapshot,
        config,
        state,
        workspace_header_rows,
        proposed_height,
    ) {
        Some(h) => h,
        None => {
            return area;
        },
    };
    hits.tab_section_area = area;
    hits.vertical_tabs_area = Rect::new(area.x, area.y + height, area.width, area.height - height);
    hits.tab_section_divider = Rect::new(area.x, area.y + height, area.width, HEADER_ROWS);
    Rect { height, ..area }
}

} // verus!
