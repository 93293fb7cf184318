use herdr::layout::Rect;
use herdr::plugin_status::{PluginStatusItem, PluginStatusSeverity};
use herdr::tabs::{
    can_scroll_left, can_scroll_right, compute_tab_bar_view, context_usage_is_high,
    context_usage_label, context_usage_rect, drop_mark_column, git_status_label,
    layout_tab_hit_areas, left_overflow_marker_x, max_tab_scroll, measure_tabs,
    right_overflow_marker_x, right_status_width, status_label_widths, status_labels, status_rect,
    status_widths_fit, tab_bar_view, tab_chrome_label, tab_content_rect_checked,
    tab_content_rect_for_widths, tab_content_rect_with_status, tab_drop_indicator_x,
    tab_bar_view_for_widths, tab_layout_fits, tab_style, tab_text, tab_width,
    trailing_tab_controls_x, GitStatus,
    TabBarTabs, TabInfo, TabStyle, TabWidths,
};
use herdr::width::display_width_u16;
use unicode_width::UnicodeWidthStr;

/// A bar's row of cells, all blank.
fn blank_row(bar: Rect) -> Vec<char> {
    vec![' '; (bar.x + bar.width) as usize]
}

/// Writes `text` into the cells of `area`, cut at its right edge.
fn paint(row: &mut Vec<char>, area: Rect, text: &str) {
    for (offset, c) in text.chars().take(area.width as usize).enumerate() {
        row[area.x as usize + offset] = c;
    }
}

fn width_of(label: &str) -> u16 {
    UnicodeWidthStr::width(label) as u16
}

fn no_git() -> GitStatus {
    GitStatus { dirty_count: None, ahead_behind: None }
}

fn tabs_of(labels: &[&str], active_tab: usize) -> TabWidths {
    TabWidths {
        label_widths: labels.iter().map(|l| width_of(l)).collect(),
        active_tab,
    }
}

fn named(name: &str, zoomed: bool) -> TabInfo {
    TabInfo { display_name: Some(name.to_string()), zoomed }
}

fn bar_of(tabs: Vec<TabInfo>, active_tab: usize) -> TabBarTabs {
    TabBarTabs { tabs, active_tab }
}

#[test]
fn zoom_marker_counts_toward_tab_width() {
    let tabs = bar_of(vec![named("abcdefgh", true)], 0);
    assert_eq!(tab_chrome_label(&tabs, 0), "abcdefgh Z");
    assert_eq!(tab_width(&tabs, 0), 14);
}

#[test]
fn tab_width_uses_display_width_for_cjk_labels() {
    let tabs = bar_of(vec![named("提交 herdr 的反馈", false)], 0);
    assert_eq!(tab_width(&tabs, 0), display_width_u16("提交 herdr 的反馈") + 4);
    assert_eq!(tab_width(&tabs, 0), width_of("提交 herdr 的反馈") + 4);
}

#[test]
fn tab_bar_marks_zoomed_tabs_without_renaming_them() {
    let tabs = bar_of(vec![named("1", true), named("test", true)], 0);
    let view = compute_tab_bar_view(&tabs, Rect::new(0, 0, 30, 1), 0, true, false);
    let row = format!(
        "{}{}",
        tab_text(&tab_chrome_label(&tabs, 0), view.tab_hit_areas[0].width),
        tab_text(&tab_chrome_label(&tabs, 1), view.tab_hit_areas[1].width)
    );
    assert!(row.contains(" 1 Z"), "tab row: {row:?}");
    assert!(row.contains(" test Z"), "tab row: {row:?}");
    assert_eq!(tabs.tabs[0].display_name.as_deref(), Some("1"));
    assert_eq!(tabs.tabs[1].display_name.as_deref(), Some("test"));
}

#[test]
fn dirty_status_reserves_right_edge_and_renders() {
    let git = GitStatus { dirty_count: Some(3), ahead_behind: None };
    let bar = Rect::new(0, 0, 30, 1);
    let tab_area = tab_content_rect_with_status(&Vec::new(), &git, None, bar);
    assert_eq!(tab_area, Rect::new(0, 0, 26, 1));
    let labels = status_labels(&Vec::new(), &git, None);
    assert_eq!(labels, vec!["●3".to_string()]);
    let status = status_rect(&status_label_widths(&labels), bar);
    assert_eq!(status, Rect::new(26, 0, 4, 1));
    let drawn = format!(" {} ", labels[0]);
    assert!(drawn.trim_end().ends_with(" ●3"));
}

#[test]
fn plugin_status_reserves_right_edge_and_renders() {
    let items = vec![PluginStatusItem {
        plugin_id: "example.notify".to_string(),
        id: "notifications".to_string(),
        label: "notifications off".to_string(),
        severity: PluginStatusSeverity::Warning,
        priority: 50,
    }];
    let bar = Rect::new(0, 0, 40, 1);
    let tab_area = tab_content_rect_with_status(&items, &no_git(), None, bar);
    assert_eq!(tab_area, Rect::new(0, 0, 21, 1));
    let labels = status_labels(&items, &no_git(), None);
    assert_eq!(labels, vec!["notifications off".to_string()]);
    let status = status_rect(&status_label_widths(&labels), bar);
    assert_eq!(status.x + status.width, 40);
    assert!(format!(" {} ", labels[0]).trim_end().ends_with(" notifications off"));
}

#[test]
fn context_usage_renders_as_a_percentage() {
    let bar = Rect::new(0, 0, 40, 1);
    let tab_area = tab_content_rect_with_status(&Vec::new(), &no_git(), Some(31), bar);
    assert_eq!(tab_area, Rect::new(0, 0, 35, 1));
    let tabs = bar_of(vec![named("1", false)], 0);
    let view = compute_tab_bar_view(&tabs, tab_area, 0, true, false);
    assert_eq!(view.tab_hit_areas, vec![Rect::new(0, 0, 8, 1)]);

    let status = status_rect(&Vec::new(), bar);
    let rect = context_usage_rect(
        Some(31),
        false,
        view.new_tab_hit_area,
        &view.tab_hit_areas,
        bar,
        status,
    );
    assert_eq!(rect, Rect::new(8, 0, 5, 1));
    let mut row = blank_row(bar);
    paint(
        &mut row,
        view.tab_hit_areas[0],
        &tab_text(&tab_chrome_label(&tabs, 0), view.tab_hit_areas[0].width),
    );
    paint(&mut row, rect, &format!(" {} ", context_usage_label(31)));
    let row: String = row.into_iter().collect();
    assert!(row.starts_with(" 1       31%"), "tab row: {row:?}");
}

#[test]
fn context_usage_follows_mouse_tab_controls() {
    let mut tabs = vec![named("1", false)];
    for idx in 2..=6 {
        tabs.push(named(&format!("tab-{idx}"), false));
    }
    let tabs = bar_of(tabs, 0);
    let bar = Rect::new(0, 0, 30, 1);
    let tab_area = tab_content_rect_with_status(&Vec::new(), &no_git(), Some(72), bar);
    let view = compute_tab_bar_view(&tabs, tab_area, 0, true, true);
    let status = status_rect(&Vec::new(), bar);
    let context_rect = context_usage_rect(
        Some(72),
        true,
        view.new_tab_hit_area,
        &view.tab_hit_areas,
        bar,
        status,
    );
    assert_eq!(
        context_rect.x,
        view.new_tab_hit_area.x + view.new_tab_hit_area.width
    );
    assert_eq!(context_rect.width, 5);
    let mut row = blank_row(bar);
    for (idx, area) in view.tab_hit_areas.iter().enumerate() {
        paint(&mut row, *area, &tab_text(&tab_chrome_label(&tabs, idx), area.width));
    }
    paint(&mut row, view.new_tab_hit_area, " + ");
    paint(&mut row, context_rect, &format!(" {} ", context_usage_label(72)));
    let row: String = row.into_iter().collect();
    assert!(row.contains(" +  72%"), "tab row: {row:?}");
}

#[test]
fn active_auto_named_tab_keeps_readable_weight() {
    assert_eq!(tab_style(true, true), TabStyle::Active);
    assert_eq!(tab_style(true, false), TabStyle::ActiveBold);
    assert_eq!(tab_style(false, true), TabStyle::AutoNamed);
    assert_eq!(tab_style(false, false), TabStyle::Named);
}

#[test]
fn tab_bar_renders_trailing_cjk_character() {
    let tabs = bar_of(vec![named("提交 herdr 的反馈", false)], 0);
    let view = compute_tab_bar_view(&tabs, Rect::new(0, 0, 30, 1), 0, true, false);
    assert_eq!(view.tab_hit_areas[0], Rect::new(0, 0, 21, 1));
    let text = tab_text(&tab_chrome_label(&tabs, 0), view.tab_hit_areas[0].width);
    assert!(text.contains('馈'), "tab text: {text:?}");
}

#[test]
fn unnamed_tabs_are_numbered_from_one() {
    let mut list: Vec<TabInfo> = (0..10).map(|_| TabInfo { display_name: None, zoomed: false }).collect();
    list[9].zoomed = true;
    let tabs = bar_of(list, 0);
    assert_eq!(tab_chrome_label(&tabs, 0), "1");
    assert_eq!(tab_chrome_label(&tabs, 11), "12");
    assert_eq!(tab_chrome_label(&tabs, 9), "10 Z");
}

#[test]
fn short_labels_get_the_minimum_width() {
    let tabs = bar_of(
        vec![named("", false), named("abcd", false), named("abcde", false), named(&"x".repeat(70000), false)],
        0,
    );
    assert_eq!(tab_width(&tabs, 0), 8);
    assert_eq!(tab_width(&tabs, 1), 8);
    assert_eq!(tab_width(&tabs, 2), 9);
    assert_eq!(tab_width(&tabs, 3), u16::MAX);
    let measured = measure_tabs(&tabs);
    assert_eq!(measured.label_widths, vec![0, 4, 5, u16::MAX]);
}

#[test]
fn checked_layouts_refuse_what_does_not_fit() {
    let tabs = bar_of(vec![named(&"x".repeat(70000), false)], 0);
    assert!(tab_bar_view(&tabs, Rect::new(0, 0, u16::MAX, 1), 0, true, false).is_none());
    let view = tab_bar_view(&tabs, Rect::new(1, 0, 100, 1), 0, true, false).unwrap();
    assert_eq!(view.tab_hit_areas, vec![Rect::new(1, 0, 100, 1)]);
    let wide = vec![PluginStatusItem {
        plugin_id: "p".into(),
        id: "i".into(),
        label: "y".repeat(40000),
        severity: PluginStatusSeverity::Normal,
        priority: 0,
    }, PluginStatusItem {
        plugin_id: "p".into(),
        id: "j".into(),
        label: "z".repeat(40000),
        severity: PluginStatusSeverity::Normal,
        priority: 0,
    }];
    assert!(tab_content_rect_checked(&wide, &no_git(), None, Rect::new(0, 0, 80, 1)).is_none());
    assert_eq!(
        tab_content_rect_checked(&Vec::new(), &no_git(), Some(5), Rect::new(0, 0, 80, 1)),
        Some(Rect::new(0, 0, 76, 1))
    );
    assert_eq!(tab_content_rect_for_widths(&vec![2, 3], Rect::new(0, 0, 80, 1)), Rect::new(0, 0, 71, 1));
}

#[test]
fn layout_places_tabs_one_column_apart_and_clips_the_last() {
    let tabs = tabs_of(&["1", "tab-2", "tab-3"], 0);
    let rects = layout_tab_hit_areas(&tabs, Rect::new(0, 0, 22, 1), 0);
    assert_eq!(
        rects,
        vec![Rect::new(0, 0, 8, 1), Rect::new(9, 0, 9, 1), Rect::new(19, 0, 3, 1)]
    );
    let rects = layout_tab_hit_areas(&tabs, Rect::new(0, 0, 22, 1), 1);
    assert_eq!(
        rects,
        vec![Rect::new(0, 0, 0, 0), Rect::new(0, 0, 9, 1), Rect::new(10, 0, 9, 1)]
    );
    let rects = layout_tab_hit_areas(&tabs, Rect::new(0, 0, 0, 1), 0);
    assert_eq!(rects, vec![Rect::default(); 3]);
}

#[test]
fn layout_gives_tabs_past_the_right_edge_no_room() {
    let tabs = tabs_of(&["tab-1", "tab-2", "tab-3"], 0);
    let rects = layout_tab_hit_areas(&tabs, Rect::new(2, 3, 10, 1), 0);
    assert_eq!(
        rects,
        vec![Rect::new(2, 3, 9, 1), Rect::default(), Rect::default()]
    );
    let rects = layout_tab_hit_areas(&tabs, Rect::new(2, 3, 10, 1), 7);
    assert_eq!(rects, vec![Rect::default(); 3]);
}

#[test]
fn max_scroll_is_the_first_offset_showing_the_last_tab() {
    let tabs = tabs_of(&["tab-1", "tab-2", "tab-3", "tab-4"], 0);
    assert_eq!(max_tab_scroll(&tabs, Rect::new(0, 0, 20, 1)), 2);
    assert_eq!(max_tab_scroll(&tabs, Rect::new(0, 0, 80, 1)), 0);
}

#[test]
fn following_the_active_tab_centres_it() {
    let tabs = tabs_of(&["tab-1", "tab-2", "tab-3", "tab-4", "tab-5"], 3);
    let view = tab_bar_view_for_widths(&tabs, Rect::new(0, 0, 20, 1), 0, true, false);
    assert_eq!(view.scroll, 2);
    assert_eq!(view.tab_hit_areas[3], Rect::new(10, 0, 9, 1));
    let view = tab_bar_view_for_widths(&tabs, Rect::new(0, 0, 20, 1), 1, false, false);
    assert_eq!(view.scroll, 1);
    let view = tab_bar_view_for_widths(&tabs, Rect::new(0, 0, 20, 1), 9, false, false);
    assert_eq!(view.scroll, 3);
}

#[test]
fn mouse_chrome_without_overflow_puts_new_tab_after_tabs() {
    let tabs = tabs_of(&["1", "2"], 0);
    let view = tab_bar_view_for_widths(&tabs, Rect::new(0, 0, 40, 1), 0, true, true);
    assert_eq!(view.scroll, 0);
    assert_eq!(view.tab_hit_areas, vec![Rect::new(0, 0, 8, 1), Rect::new(9, 0, 8, 1)]);
    assert_eq!(view.new_tab_hit_area, Rect::new(17, 0, 3, 1));
    assert_eq!(view.scroll_left_hit_area, Rect::default());
    assert_eq!(view.scroll_right_hit_area, Rect::default());
}

#[test]
fn mouse_chrome_with_overflow_shows_scroll_buttons() {
    let tabs = tabs_of(&["tab-1", "tab-2", "tab-3", "tab-4"], 0);
    let view = tab_bar_view_for_widths(&tabs, Rect::new(0, 0, 25, 1), 0, false, true);
    assert_eq!(view.scroll_left_hit_area, Rect::new(0, 0, 3, 1));
    assert_eq!(view.tab_hit_areas[0], Rect::new(3, 0, 9, 1));
    assert_eq!(view.scroll_right_hit_area, Rect::new(19, 0, 3, 1));
    assert_eq!(view.new_tab_hit_area, Rect::new(22, 0, 3, 1));
}

#[test]
fn empty_area_gives_an_empty_view() {
    let tabs = tabs_of(&["1"], 0);
    let view = tab_bar_view_for_widths(&tabs, Rect::new(0, 0, 0, 1), 4, true, true);
    assert_eq!(view.scroll, 0);
    assert!(view.tab_hit_areas.is_empty());
    assert_eq!(view.new_tab_hit_area, Rect::default());
}

#[test]
fn trailing_controls_follow_the_last_visible_tab() {
    let rects = vec![Rect::new(0, 0, 8, 1), Rect::new(9, 0, 4, 1), Rect::default()];
    assert_eq!(trailing_tab_controls_x(&rects, 5), 13);
    assert_eq!(trailing_tab_controls_x(&vec![Rect::default()], 5), 5);
    assert_eq!(trailing_tab_controls_x(&Vec::new(), 7), 7);
}

#[test]
fn drop_indicator_positions() {
    let rects = vec![Rect::default(), Rect::new(4, 0, 8, 1), Rect::new(13, 0, 8, 1), Rect::default()];
    let left = Rect::new(0, 0, 3, 1);
    let right = Rect::new(24, 0, 3, 1);
    assert_eq!(tab_drop_indicator_x(&rects, left, right, 4, 0), Some(3));
    assert_eq!(tab_drop_indicator_x(&rects, left, right, 4, 2), Some(12));
    assert_eq!(tab_drop_indicator_x(&rects, left, right, 4, 4), Some(23));
    assert_eq!(tab_drop_indicator_x(&rects, left, right, 4, 3), None);
    let all = vec![Rect::new(0, 0, 8, 1), Rect::new(9, 0, 8, 1)];
    assert_eq!(tab_drop_indicator_x(&all, Rect::default(), Rect::default(), 2, 0), Some(0));
    assert_eq!(tab_drop_indicator_x(&all, Rect::default(), Rect::default(), 2, 2), Some(17));
    assert_eq!(tab_drop_indicator_x(&Vec::new(), left, right, 0, 0), None);
}

#[test]
fn git_status_label_lists_nonzero_counts() {
    let git = GitStatus { dirty_count: Some(2), ahead_behind: Some((1, 4)) };
    assert_eq!(git_status_label(&git), Some("●2 ↑1 ↓4".to_string()));
    let git = GitStatus { dirty_count: Some(0), ahead_behind: Some((0, 3)) };
    assert_eq!(git_status_label(&git), Some("↓3".to_string()));
    let git = GitStatus { dirty_count: Some(0), ahead_behind: Some((0, 0)) };
    assert_eq!(git_status_label(&git), None);
    assert_eq!(git_status_label(&no_git()), None);
}

#[test]
fn context_usage_label_is_capped_at_one_hundred() {
    assert_eq!(context_usage_label(0), "0%");
    assert_eq!(context_usage_label(100), "100%");
    assert_eq!(context_usage_label(250), "100%");
    assert!(context_usage_is_high(51));
    assert!(!context_usage_is_high(50));
}

#[test]
fn status_labels_keep_plugin_git_context_order() {
    let items = vec![PluginStatusItem {
        plugin_id: "a".into(),
        id: "x".into(),
        label: "busy".into(),
        severity: PluginStatusSeverity::Normal,
        priority: 0,
    }];
    let git = GitStatus { dirty_count: None, ahead_behind: Some((2, 0)) };
    assert_eq!(
        status_labels(&items, &git, Some(40)),
        vec!["busy".to_string(), "↑2".to_string(), "40%".to_string()]
    );
}

#[test]
fn status_width_is_capped_by_the_bar() {
    assert_eq!(right_status_width(&vec![10, 10], Rect::new(0, 0, 30, 1)), 24);
    assert_eq!(right_status_width(&vec![40], Rect::new(0, 0, 30, 1)), 30);
    assert_eq!(tab_content_rect_for_widths(&vec![40], Rect::new(5, 1, 30, 1)), Rect::new(5, 1, 0, 1));
    assert_eq!(status_rect(&vec![40], Rect::new(5, 1, 30, 1)), Rect::new(5, 1, 30, 1));
}

#[test]
fn context_usage_rect_is_empty_without_usage_and_clipped_by_status() {
    let tabs = vec![Rect::new(0, 0, 8, 1)];
    let bar = Rect::new(0, 0, 12, 1);
    assert_eq!(
        context_usage_rect(None, false, Rect::default(), &tabs, bar, Rect::new(12, 0, 0, 1)),
        Rect::default()
    );
    assert_eq!(
        context_usage_rect(Some(5), false, Rect::default(), &tabs, bar, Rect::new(10, 0, 2, 1)),
        Rect::new(8, 0, 2, 1)
    );
}

#[test]
fn tab_text_pads_to_the_hit_area() {
    assert_eq!(tab_text("ab", 6), " ab   ");
    assert_eq!(tab_text("abcdef", 3), " abcdef");
    assert_eq!(tab_text("", 0), " ");
}

#[test]
fn scroll_buttons_and_overflow_markers() {
    assert!(can_scroll_left(Rect::new(0, 0, 3, 1), 1));
    assert!(!can_scroll_left(Rect::new(0, 0, 3, 1), 0));
    assert!(!can_scroll_left(Rect::default(), 2));
    assert!(can_scroll_right(Rect::new(20, 0, 3, 1), Some(2), 4));
    assert!(!can_scroll_right(Rect::new(20, 0, 3, 1), Some(3), 4));
    assert!(!can_scroll_right(Rect::new(20, 0, 3, 1), None, 4));
    let area = Rect::new(0, 0, 30, 1);
    assert_eq!(left_overflow_marker_x(Some(2), true, Rect::new(0, 0, 3, 1), area), Some(3));
    assert_eq!(left_overflow_marker_x(Some(2), false, Rect::new(0, 0, 3, 1), area), Some(0));
    assert_eq!(left_overflow_marker_x(Some(0), true, Rect::new(0, 0, 3, 1), area), None);
    assert_eq!(right_overflow_marker_x(Some(1), 4, true, Rect::new(20, 0, 3, 1), area), Some(19));
    assert_eq!(right_overflow_marker_x(Some(1), 4, false, Rect::new(20, 0, 3, 1), area), Some(29));
    assert_eq!(right_overflow_marker_x(Some(3), 4, false, Rect::new(20, 0, 3, 1), area), None);
    assert_eq!(drop_mark_column(40, area), 29);
    assert_eq!(drop_mark_column(4, area), 4);
}

#[test]
fn rect_new_keeps_within_the_grid() {
    assert_eq!(Rect::new(u16::MAX - 2, 1, 10, u16::MAX), Rect { x: u16::MAX - 2, y: 1, width: 2, height: u16::MAX - 1 });
}

#[test]
fn fit_checks_before_layout() {
    assert!(status_widths_fit(&vec![10, 20]));
    assert!(status_widths_fit(&vec![65533]));
    assert!(status_widths_fit(&vec![65534]));
    assert!(!status_widths_fit(&vec![65533, 0]));
    assert!(!status_widths_fit(&vec![40000, 40000]));
    let wide = TabWidths { label_widths: vec![u16::MAX], active_tab: 0 };
    assert!(!tab_layout_fits(&wide, Rect::new(0, 0, u16::MAX, 1)));
    assert!(tab_layout_fits(&wide, Rect::new(1, 0, 100, 1)));
    assert!(tab_layout_fits(&tabs_of(&["a"], 0), Rect::new(0, 0, u16::MAX, 1)));
    assert!(!Rect { x: 10, y: 0, width: u16::MAX, height: 1 }.is_within_grid());
    assert!(Rect::new(10, 0, u16::MAX, 1).is_within_grid());
}

#[test]
fn laid_out_tabs_stay_inside_the_area() {
    let tabs = tabs_of(&["one", "two", "three", "four", "five", "six"], 2);
    let area = Rect::new(5, 2, 31, 1);
    for scroll in 0..7 {
        let rects = layout_tab_hit_areas(&tabs, area, scroll);
        let mut last_end = None;
        for (idx, rect) in rects.iter().enumerate() {
            if rect.width == 0 {
                continue;
            }
            assert!(idx >= scroll);
            assert!(rect.x >= area.x && rect.x + rect.width <= area.x + area.width);
            assert_eq!(rect.y, area.y);
            if let Some(end) = last_end {
                assert!(end < rect.x);
            }
            last_end = Some(rect.x + rect.width);
        }
        if scroll < 6 {
            assert!(rects[scroll].width > 0);
        }
    }
}
