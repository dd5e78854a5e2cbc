use vertical_tabs::column::{arrange_tab_column, plan_tab_column, TabColumnPlan};
use vertical_tabs::geometry::Rect;
use vertical_tabs::model::{
    focused_workspace_tabs, ClientShellConfig, ClientShellSnapshot, ClientShellTab, ScrollWindow, ShellHitMap,
    ShellRenderState,
};

fn tab(id: &str, workspace: &str, focused: bool) -> ClientShellTab {
    ClientShellTab { tab_id: id.to_string(), workspace_id: workspace.to_string(), focused }
}

fn snapshot() -> ClientShellSnapshot {
    ClientShellSnapshot {
        tabs: vec![tab("tab_1", "a", false), tab("tab_2", "b", true), tab("tab_3", "a", true)],
        focused_workspace_id: Some("a".to_string()),
    }
}

fn state() -> ShellRenderState {
    ShellRenderState {
        sidebar_collapsed: false,
        reveal_focused_tab: false,
        tab_scroll: 0,
        tab_drag_insert_index: None,
    }
}

fn hits(area: Rect) -> ShellHitMap {
    ShellHitMap {
        tab_section_area: Rect::zero(),
        vertical_tabs_area: area,
        tab_section_divider: Rect::zero(),
        tab_body: Rect::zero(),
        tabs: Vec::new(),
        tab_max_scroll: 0,
        tab_scroll_metrics: None,
        tab_scrollbar: Rect::zero(),
        new_tab: Rect::zero(),
    }
}

fn plan(h: &mut ShellHitMap, st: &mut ShellRenderState, titles: &[&str]) -> TabColumnPlan {
    let snap = snapshot();
    let positions = focused_workspace_tabs(&snap);
    let titles: Vec<String> = titles.iter().map(|t| t.to_string()).collect();
    plan_tab_column(h, st, &snap, positions, &titles)
}

#[test]
fn only_tabs_of_the_focused_space_are_listed() {
    assert_eq!(focused_workspace_tabs(&snapshot()), vec![0, 2]);
    let none = ClientShellSnapshot { tabs: snapshot().tabs, focused_workspace_id: None };
    assert!(focused_workspace_tabs(&none).is_empty());
}

#[test]
fn plan_wraps_titles_and_sizes_tabs() {
    let mut h = hits(Rect::new(0, 10, 17, 12));
    let mut st = state();
    let p = plan(&mut h, &mut st, &["alpha bravo charlie", "task 2"]);
    assert_eq!(p.body, Rect::new(0, 12, 17, 9));
    assert_eq!(h.tab_body, p.body);
    assert!(!p.scrollbar);
    assert_eq!(p.width, 17);
    assert_eq!(p.lines, vec![vec!["alpha bravo".to_string(), "charlie".to_string()], vec!["task 2".to_string()]]);
    assert_eq!(p.heights, vec![2, 1]);
    assert_eq!(p.reveal_target, None);
}

#[test]
fn plan_adds_a_scrollbar_when_tabs_overflow() {
    let mut h = hits(Rect::new(0, 10, 17, 5));
    let mut st = state();
    let p = plan(&mut h, &mut st, &["one", "two"]);
    assert_eq!(p.body, Rect::new(0, 12, 17, 2));
    assert!(!p.scrollbar);
    let mut h = hits(Rect::new(0, 10, 17, 4));
    let p = plan(&mut h, &mut st, &["one", "two"]);
    assert_eq!(p.body.height, 1);
    assert!(p.scrollbar);
    assert_eq!(p.width, 16);
    assert_eq!(p.heights, vec![1, 1]);
}

#[test]
fn plan_clips_an_oversized_title_to_the_body() {
    let mut h = hits(Rect::new(0, 10, 10, 6));
    let mut st = state();
    let p = plan(&mut h, &mut st, &["aa bb cc dd ee", "x"]);
    assert_eq!(p.body.height, 3);
    assert!(p.scrollbar);
    assert_eq!(p.heights, vec![3, 1]);
}

#[test]
fn plan_names_the_focused_tab_once_when_asked() {
    let mut h = hits(Rect::new(0, 10, 17, 12));
    let mut st = state();
    st.reveal_focused_tab = true;
    let p = plan(&mut h, &mut st, &["a", "b"]);
    assert_eq!(p.reveal_target, Some(1));
    assert!(!st.reveal_focused_tab);
    let p = plan(&mut h, &mut st, &["a", "b"]);
    assert_eq!(p.reveal_target, None);
}

#[test]
fn arrange_stacks_visible_tabs_and_records_them() {
    let mut h = hits(Rect::new(0, 10, 17, 12));
    let mut st = state();
    let p = plan(&mut h, &mut st, &["alpha bravo charlie", "task 2"]);
    let config = ClientShellConfig { vertical_tabs: true, hide_tab_bar_when_single_tab: false, mouse_capture: true };
    st.tab_drag_insert_index = Some(1);
    let window = ScrollWindow { viewport_rows: 2, offset_from_bottom: 0, max_offset_from_bottom: 0 };
    let layout = arrange_tab_column(&mut h, &mut st, &config, &snapshot(), &p, &window);
    assert_eq!(layout.rows.len(), 2);
    assert_eq!(layout.rows[0].tab, 0);
    assert_eq!(layout.rows[0].rect, Rect::new(0, 12, 17, 2));
    assert_eq!(layout.rows[1].rect, Rect::new(0, 14, 17, 1));
    assert_eq!(layout.rows[1].rect.y, layout.rows[0].rect.bottom());
    assert_eq!(layout.rows[0].text_x, 3);
    assert_eq!(layout.rows[0].text_width, 14);
    assert_eq!(layout.rows[0].text_rows, 2);
    assert_eq!(layout.rows[1].text_rows, 1);
    assert_eq!(layout.rows[0].marker, Some((1, 16)));
    assert_eq!(h.tabs, vec![(Rect::new(0, 12, 17, 2), "tab_1".to_string()), (Rect::new(0, 14, 17, 1), "tab_3".to_string())]);
    assert_eq!(layout.scrollbar, None);
    assert_eq!(layout.new_tab, Some(Rect::new(0, 11, 17, 1)));
    assert_eq!(h.new_tab, Rect::new(0, 11, 17, 1));
    assert_eq!(layout.drag_row, Some(14));
    assert_eq!(st.tab_scroll, 0);
    assert_eq!(h.tab_max_scroll, 0);
}

#[test]
fn drag_indicator_goes_after_the_last_tab_or_nowhere() {
    let config = ClientShellConfig { vertical_tabs: true, hide_tab_bar_when_single_tab: false, mouse_capture: false };
    let window = ScrollWindow { viewport_rows: 2, offset_from_bottom: 0, max_offset_from_bottom: 0 };
    for (insert, expected) in [(Some(2), Some(15)), (Some(5), None), (None, None)] {
        let mut h = hits(Rect::new(0, 10, 17, 12));
        let mut st = state();
        let p = plan(&mut h, &mut st, &["alpha bravo charlie", "task 2"]);
        st.tab_drag_insert_index = insert;
        let layout = arrange_tab_column(&mut h, &mut st, &config, &snapshot(), &p, &window);
        assert_eq!(layout.drag_row, expected);
        assert_eq!(layout.new_tab, None);
        assert!(h.new_tab.is_empty());
    }
}

#[test]
fn arrange_scrolls_and_draws_the_scrollbar() {
    let mut h = hits(Rect::new(0, 10, 17, 4));
    let mut st = state();
    let p = plan(&mut h, &mut st, &["one", "two"]);
    let config = ClientShellConfig { vertical_tabs: true, hide_tab_bar_when_single_tab: false, mouse_capture: false };
    let window = ScrollWindow { viewport_rows: 1, offset_from_bottom: 0, max_offset_from_bottom: 1 };
    let layout = arrange_tab_column(&mut h, &mut st, &config, &snapshot(), &p, &window);
    assert_eq!(st.tab_scroll, 1);
    assert_eq!(h.tab_max_scroll, 1);
    assert_eq!(layout.rows.len(), 1);
    assert_eq!(layout.rows[0].tab, 1);
    assert_eq!(layout.rows[0].rect, Rect::new(0, 12, 16, 1));
    assert_eq!(h.tabs[0].1, "tab_3");
    assert_eq!(layout.scrollbar, Some(Rect::new(16, 12, 1, 1)));
    assert_eq!(h.tab_scrollbar, Rect::new(16, 12, 1, 1));
}

#[test]
fn arrange_shows_nothing_when_scrolled_past_the_end() {
    let mut h = hits(Rect::new(0, 10, 17, 12));
    let mut st = state();
    let p = plan(&mut h, &mut st, &["a", "b"]);
    let config = ClientShellConfig { vertical_tabs: true, hide_tab_bar_when_single_tab: false, mouse_capture: false };
    let window = ScrollWindow { viewport_rows: 4, offset_from_bottom: 1, max_offset_from_bottom: 4 };
    let layout = arrange_tab_column(&mut h, &mut st, &config, &snapshot(), &p, &window);
    assert_eq!(st.tab_scroll, 3);
    assert!(layout.rows.is_empty());
    assert!(h.tabs.is_empty());
}
