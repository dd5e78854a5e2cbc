use vertical_tabs::column::{arrange_tab_column, plan_tab_column, title_column_fits};
use vertical_tabs::geometry::Rect;
use vertical_tabs::model::{
    focused_workspace_tabs, ClientShellConfig, ClientShellSnapshot, ClientShellTab, ScrollWindow,
    ShellHitMap, ShellRenderState,
};
use vertical_tabs::section::{reserve_section, section_split_fits};
use vertical_tabs::text::wrapped_title_lines;

fn visible(s: &str) -> String {
    s.chars().filter(|c| !c.is_whitespace()).collect()
}

const TITLES: [&str; 6] = [
    "alpha bravo charlie delta echo",
    "  lead and trail  ",
    "alpha·bravo-charlie",
    "界界·a\u{301}-bbb",
    "abcdefghijklmnop",
    "",
];

#[test]
fn wrapping_always_gives_a_line() {
    for title in TITLES {
        for width in 0..12 {
            assert!(!wrapped_title_lines(title, width).is_empty());
        }
        assert_eq!(wrapped_title_lines(title, 0), vec![""]);
    }
}

#[test]
fn wrapped_lines_have_no_trailing_white_space() {
    for title in TITLES {
        for width in 1..12 {
            for line in wrapped_title_lines(title, width) {
                assert!(!line.ends_with(char::is_whitespace), "{title:?} {width} {line:?}");
            }
        }
    }
}

#[test]
fn wrapped_lines_are_runs_of_the_title() {
    for title in TITLES {
        for width in 0..12 {
            for line in wrapped_title_lines(title, width) {
                assert!(title.contains(line.as_str()), "{title:?} {width} {line:?}");
            }
        }
    }
}

#[test]
fn wrapping_keeps_every_visible_character() {
    for title in TITLES {
        for width in 1..12 {
            let joined: String = wrapped_title_lines(title, width).concat();
            assert_eq!(visible(&joined), visible(title), "{title:?} {width}");
        }
    }
}

fn tabs(count: usize) -> ClientShellSnapshot {
    let mut tabs = Vec::new();
    for index in 0..count {
        let workspace = if index % 3 == 1 { "b" } else { "a" };
        tabs.push(ClientShellTab {
            tab_id: format!("tab_{}", index + 1),
            workspace_id: workspace.to_string(),
            focused: false,
        });
    }
    ClientShellSnapshot { tabs, focused_workspace_id: Some("a".to_string()) }
}

#[test]
fn listed_tabs_are_exactly_those_of_the_focused_space_in_order() {
    let snap = tabs(7);
    let positions = focused_workspace_tabs(&snap);
    assert_eq!(positions, vec![0, 2, 3, 5, 6]);
    for (index, tab) in snap.tabs.iter().enumerate() {
        assert_eq!(positions.contains(&index), tab.workspace_id == "a");
    }
}

#[test]
fn visible_tab_rows_touch_and_stay_in_the_body() {
    let snap = tabs(7);
    let positions = focused_workspace_tabs(&snap);
    let titles: Vec<String> = positions.iter().map(|_| "alpha bravo charlie".to_string()).collect();
    let mut hits = ShellHitMap {
        tab_section_area: Rect::zero(),
        vertical_tabs_area: Rect::new(2, 4, 15, 11),
        tab_section_divider: Rect::zero(),
        tab_body: Rect::zero(),
        tabs: Vec::new(),
        tab_max_scroll: 0,
        tab_scroll_metrics: None,
        tab_scrollbar: Rect::zero(),
        new_tab: Rect::zero(),
    };
    let mut state = ShellRenderState {
        sidebar_collapsed: false,
        reveal_focused_tab: false,
        tab_scroll: 0,
        tab_drag_insert_index: None,
    };
    let plan = plan_tab_column(&mut hits, &mut state, &snap, positions, &titles);
    let config = ClientShellConfig { vertical_tabs: true, hide_tab_bar_when_single_tab: false, mouse_capture: true };
    let window = ScrollWindow { viewport_rows: 2, offset_from_bottom: 1, max_offset_from_bottom: 3 };
    let layout = arrange_tab_column(&mut hits, &mut state, &config, &snap, &plan, &window);
    assert_eq!(state.tab_scroll, 2);
    assert!(state.tab_scroll <= hits.tab_max_scroll);
    assert_eq!(layout.rows.len(), 2);
    let body = plan.body;
    for pair in layout.rows.windows(2) {
        assert_eq!(pair[1].rect.y, pair[0].rect.bottom());
    }
    for row in &layout.rows {
        assert_eq!(row.rect.x, body.x);
        assert!(row.rect.y >= body.y && row.rect.bottom() <= body.bottom());
        assert!(row.rect.right() <= body.right());
    }
}

#[test]
fn reserving_the_section_splits_the_area_without_gap() {
    let snap = tabs(4);
    let config = ClientShellConfig { vertical_tabs: true, hide_tab_bar_when_single_tab: false, mouse_capture: true };
    let state = ShellRenderState {
        sidebar_collapsed: false,
        reveal_focused_tab: false,
        tab_scroll: 0,
        tab_drag_insert_index: None,
    };
    for height in 7..20 {
        for proposed in 0..25 {
            let area = Rect::new(1, 2, 10, height);
            let mut hits = ShellHitMap {
                tab_section_area: Rect::zero(),
                vertical_tabs_area: Rect::zero(),
                tab_section_divider: Rect::zero(),
                tab_body: Rect::zero(),
                tabs: Vec::new(),
                tab_max_scroll: 0,
                tab_scroll_metrics: None,
                tab_scrollbar: Rect::zero(),
                new_tab: Rect::zero(),
            };
            let spaces = reserve_section(area, Some(&snap), &config, &state, &mut hits, 1, proposed);
            let tabs_area = hits.vertical_tabs_area;
            assert!(spaces.height >= 3);
            assert!(tabs_area.height >= 4);
            assert_eq!(tabs_area.y, spaces.bottom());
            assert_eq!(spaces.height + tabs_area.height, area.height);
            assert_eq!(hits.tab_section_divider.y, tabs_area.y);
            assert_eq!(hits.tab_section_divider.height, 1);
        }
    }
}

#[test]
fn wrapped_lines_do_not_start_with_white_space() {
    for title in TITLES {
        for width in 1..12 {
            for line in wrapped_title_lines(title, width) {
                assert!(!line.starts_with(char::is_whitespace), "{title:?} {width} {line:?}");
            }
        }
    }
}

#[test]
fn wrapped_ascii_lines_fit_unless_one_grapheme() {
    for title in ["alpha bravo charlie delta echo", "abcdefghijklmnop", "a-b-c-d e f", "xx yyyyyyy z"] {
        for width in 1..12u16 {
            for line in wrapped_title_lines(title, width) {
                assert!(line.chars().count() <= usize::from(width) || line.chars().count() == 1, "{title:?} {width} {line:?}");
            }
        }
    }
}

#[test]
fn a_title_that_fits_gives_one_line() {
    assert_eq!(wrapped_title_lines(" alpha bravo ", 20), vec!["alpha bravo"]);
}

#[test]
fn re_wrapping_a_line_gives_it_back() {
    for title in TITLES {
        for width in 1..12 {
            for line in wrapped_title_lines(title, width) {
                assert_eq!(wrapped_title_lines(&line, width), vec![line.clone()]);
            }
        }
    }
}

#[test]
fn a_larger_split_never_shrinks_the_spaces_list() {
    let snap = tabs(4);
    let config = ClientShellConfig { vertical_tabs: true, hide_tab_bar_when_single_tab: false, mouse_capture: true };
    let state = ShellRenderState {
        sidebar_collapsed: false,
        reveal_focused_tab: false,
        tab_scroll: 0,
        tab_drag_insert_index: None,
    };
    let area = Rect::new(0, 0, 10, 20);
    let mut previous = 0;
    for proposed in 0..30 {
        let mut hits = ShellHitMap {
            tab_section_area: Rect::zero(),
            vertical_tabs_area: Rect::zero(),
            tab_section_divider: Rect::zero(),
            tab_body: Rect::zero(),
            tabs: Vec::new(),
            tab_max_scroll: 0,
            tab_scroll_metrics: None,
            tab_scrollbar: Rect::zero(),
            new_tab: Rect::zero(),
        };
        assert!(section_split_fits(area, Some(&snap), &config, &state, 1, proposed));
        let spaces = reserve_section(area, Some(&snap), &config, &state, &mut hits, 1, proposed);
        assert!(spaces.height >= previous);
        previous = spaces.height;
    }
    let low = Rect { x: 0, y: u16::MAX - 10, width: 10, height: 20 };
    assert!(!section_split_fits(low, Some(&snap), &config, &state, 1, 15));
}

#[test]
fn a_window_from_the_top_with_room_lists_every_tab() {
    let snap = tabs(7);
    let positions = focused_workspace_tabs(&snap);
    let titles: Vec<String> = positions.iter().map(|_| "t".to_string()).collect();
    let mut hits = ShellHitMap {
        tab_section_area: Rect::zero(),
        vertical_tabs_area: Rect::new(0, 0, 15, 40),
        tab_section_divider: Rect::zero(),
        tab_body: Rect::zero(),
        tabs: Vec::new(),
        tab_max_scroll: 0,
        tab_scroll_metrics: None,
        tab_scrollbar: Rect::zero(),
        new_tab: Rect::zero(),
    };
    let mut state = ShellRenderState {
        sidebar_collapsed: false,
        reveal_focused_tab: false,
        tab_scroll: 4,
        tab_drag_insert_index: None,
    };
    let plan = plan_tab_column(&mut hits, &mut state, &snap, positions, &titles);
    let config = ClientShellConfig { vertical_tabs: true, hide_tab_bar_when_single_tab: false, mouse_capture: false };
    let window = ScrollWindow { viewport_rows: 5, offset_from_bottom: 0, max_offset_from_bottom: 0 };
    assert!(title_column_fits(&plan, &window));
    arrange_tab_column(&mut hits, &mut state, &config, &snap, &plan, &window);
    assert_eq!(state.tab_scroll, 0);
    assert_eq!(hits.tab_scroll_metrics, Some(window));
    let ids: Vec<&str> = hits.tabs.iter().map(|(_, id)| id.as_str()).collect();
    assert_eq!(ids, vec!["tab_1", "tab_3", "tab_4", "tab_6", "tab_7"]);
}

#[test]
fn title_column_must_fit_only_for_rows_with_height() {
    let snap = tabs(1);
    let positions = focused_workspace_tabs(&snap);
    let titles = vec!["t".to_string()];
    let mut hits = ShellHitMap {
        tab_section_area: Rect::zero(),
        vertical_tabs_area: Rect::new(u16::MAX - 1, 0, 1, 10),
        tab_section_divider: Rect::zero(),
        tab_body: Rect::zero(),
        tabs: Vec::new(),
        tab_max_scroll: 0,
        tab_scroll_metrics: None,
        tab_scrollbar: Rect::zero(),
        new_tab: Rect::zero(),
    };
    let mut state = ShellRenderState {
        sidebar_collapsed: false,
        reveal_focused_tab: false,
        tab_scroll: 0,
        tab_drag_insert_index: None,
    };
    let plan = plan_tab_column(&mut hits, &mut state, &snap, positions, &titles);
    let shown = ScrollWindow { viewport_rows: 1, offset_from_bottom: 0, max_offset_from_bottom: 0 };
    assert!(!title_column_fits(&plan, &shown));
    let hidden = ScrollWindow { viewport_rows: 0, offset_from_bottom: 0, max_offset_from_bottom: 0 };
    assert!(title_column_fits(&plan, &hidden));
}

#[test]
fn wrapped_lines_stand_in_the_title_in_order_with_only_white_space_between() {
    for title in TITLES {
        for width in 1..12 {
            let mut rest = title;
            for line in wrapped_title_lines(title, width) {
                let at = rest.find(line.as_str()).expect("line in the rest of the title");
                assert!(rest[..at].chars().all(char::is_whitespace), "{title:?} {width} {line:?}");
                rest = &rest[at + line.len()..];
            }
            assert!(rest.chars().all(char::is_whitespace), "{title:?} {width}");
        }
    }
}
