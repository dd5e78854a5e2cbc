use vertical_tabs::geometry::Rect;
use vertical_tabs::model::{
    ClientShellConfig, ClientShellSnapshot, ClientShellTab, ShellHitMap, ShellRenderState,
};
use vertical_tabs::section::reserve_section;

fn tab(id: &str, workspace: &str, focused: bool) -> ClientShellTab {
    ClientShellTab { tab_id: id.to_string(), workspace_id: workspace.to_string(), focused }
}

fn snapshot(count: usize) -> ClientShellSnapshot {
    let mut tabs = Vec::new();
    for index in 0..count {
        tabs.push(tab(&format!("tab_{}", index + 1), "ws_1", index == 0));
    }
    tabs.push(tab("other", "ws_2", false));
    ClientShellSnapshot { tabs, focused_workspace_id: Some("ws_1".to_string()) }
}

fn config() -> ClientShellConfig {
    ClientShellConfig { vertical_tabs: true, hide_tab_bar_when_single_tab: false, mouse_capture: true }
}

fn state() -> ShellRenderState {
    ShellRenderState {
        sidebar_collapsed: false,
        reveal_focused_tab: false,
        tab_scroll: 0,
        tab_drag_insert_index: None,
    }
}

fn hits() -> ShellHitMap {
    ShellHitMap {
        tab_section_area: Rect::zero(),
        vertical_tabs_area: Rect::zero(),
        tab_section_divider: Rect::zero(),
        tab_body: Rect::zero(),
        tabs: Vec::new(),
        tab_max_scroll: 0,
        tab_scroll_metrics: None,
        tab_scrollbar: Rect::zero(),
        new_tab: Rect::zero(),
    }
}

#[test]
fn section_is_reserved_below_the_spaces() {
    let area = Rect::new(0, 5, 20, 30);
    let snap = snapshot(2);
    let mut h = hits();
    let spaces = reserve_section(area, Some(&snap), &config(), &state(), &mut h, 1, 12);
    assert_eq!(spaces, Rect::new(0, 5, 20, 12));
    assert_eq!(h.tab_section_area, area);
    assert_eq!(h.vertical_tabs_area, Rect::new(0, 17, 20, 18));
    assert_eq!(h.tab_section_divider, Rect::new(0, 17, 20, 1));
}

#[test]
fn section_height_is_clamped_to_both_minimums() {
    let area = Rect::new(0, 5, 20, 30);
    let snap = snapshot(2);
    let mut h = hits();
    let spaces = reserve_section(area, Some(&snap), &config(), &state(), &mut h, 1, 1);
    assert_eq!(spaces.height, 3);
    assert_eq!(h.vertical_tabs_area, Rect::new(0, 8, 20, 27));
    let spaces = reserve_section(area, Some(&snap), &config(), &state(), &mut h, 1, 29);
    assert_eq!(spaces.height, 26);
    assert_eq!(h.vertical_tabs_area, Rect::new(0, 31, 20, 4));
}

#[test]
fn section_is_not_reserved_when_it_cannot_be_shown() {
    let area = Rect::new(0, 5, 20, 30);
    let snap = snapshot(2);
    let mut h = hits();
    let mut off = config();
    off.vertical_tabs = false;
    assert_eq!(reserve_section(area, Some(&snap), &off, &state(), &mut h, 1, 12), area);
    let mut collapsed = state();
    collapsed.sidebar_collapsed = true;
    assert_eq!(reserve_section(area, Some(&snap), &config(), &collapsed, &mut h, 1, 12), area);
    assert_eq!(reserve_section(area, None, &config(), &state(), &mut h, 1, 12), area);
    let short = Rect::new(0, 5, 20, 6);
    assert_eq!(reserve_section(short, Some(&snap), &config(), &state(), &mut h, 1, 3), short);
    assert_eq!(h.vertical_tabs_area, Rect::zero());
    assert!(h.tab_section_area.is_empty());
}

#[test]
fn section_is_hidden_for_a_single_tab_when_asked() {
    let area = Rect::new(0, 5, 20, 30);
    let single = snapshot(1);
    let mut h = hits();
    let mut hide = config();
    hide.hide_tab_bar_when_single_tab = true;
    assert_eq!(reserve_section(area, Some(&single), &hide, &state(), &mut h, 1, 12), area);
    let two = snapshot(2);
    assert_eq!(reserve_section(area, Some(&two), &hide, &state(), &mut h, 1, 12).height, 12);
}
