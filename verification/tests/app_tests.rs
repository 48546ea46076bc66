use log_viewer::app::App;
use log_viewer::input_element::InputTextElement;
use log_viewer::keys::{handle_key_press, Key, KeyMods, UiEffect};
use log_viewer::tab::{Tab, TabType, TableItems};

fn row(ts: &str, msg: &str) -> Vec<String> {
    vec![
        "test.log".to_string(),
        ts.to_string(),
        "INFO".to_string(),
        msg.to_string(),
    ]
}

fn normal_tab(path: &str, rows: Vec<Vec<String>>) -> Tab {
    Tab::new(
        path.to_string(),
        TableItems {
            data: rows,
            selected_item_index: 0,
        },
        TabType::Normal,
        0,
    )
}

fn no_mods() -> KeyMods {
    KeyMods {
        control: false,
        shift: false,
        alt: false,
    }
}

#[test]
fn filter_keeps_records_matching_any_keyword() {
    let mut app = App::new();
    app.add_tab(normal_tab(
        "a.log",
        vec![
            row("1", "something with foo inside"),
            row("2", "nothing relevant"),
            row("3", "BAR shouting"),
            row("4", "quiet"),
        ],
    ));
    app.filter_by_current_input("foo,bar".to_string());
    let working = &app.tabs[1].filtered_view_items;
    assert_eq!(working.data.len(), 2);
    assert_eq!(working.data[0][3], "something with foo inside");
    assert_eq!(working.data[1][3], "BAR shouting");
    assert_eq!(working.selected_item_index, 0);
}

#[test]
fn blank_filter_keeps_everything_in_order() {
    let mut app = App::new();
    app.add_tab(normal_tab(
        "a.log",
        vec![row("1", "first"), row("2", "second"), row("3", "third")],
    ));
    app.filter_by_current_input("foo".to_string());
    assert_eq!(app.tabs[1].filtered_view_items.data.len(), 0);
    app.filter_by_current_input("".to_string());
    let working = &app.tabs[1].filtered_view_items;
    assert_eq!(working.data.len(), 3);
    assert_eq!(working.data[0][3], "first");
    assert_eq!(working.data[1][3], "second");
    assert_eq!(working.data[2][3], "third");
}

#[test]
fn filter_keywords_are_trimmed() {
    let mut app = App::new();
    app.add_tab(normal_tab(
        "a.log",
        vec![row("1", "alpha here"), row("2", "beta there")],
    ));
    app.filter_by_current_input(" alpha , gamma ".to_string());
    let working = &app.tabs[1].filtered_view_items;
    assert_eq!(working.data.len(), 1);
    assert_eq!(working.data[0][3], "alpha here");
}

#[test]
fn search_without_match_leaves_selection_unchanged() {
    let mut app = App::new();
    app.add_tab(normal_tab(
        "a.log",
        vec![row("1", "aaa"), row("2", "bbb"), row("3", "ccc")],
    ));
    {
        let t = &mut app.tabs[1];
        t.filtered_view_items.selected_item_index = 1;
    }
    app.next(Some("zzz".to_string()));
    assert_eq!(app.tabs[1].filtered_view_items.selected_item_index, 1);
    app.previous(Some("zzz".to_string()));
    assert_eq!(app.tabs[1].filtered_view_items.selected_item_index, 1);
}

#[test]
fn search_moves_to_nearest_match() {
    let mut app = App::new();
    app.add_tab(normal_tab(
        "a.log",
        vec![
            row("1", "target one"),
            row("2", "filler"),
            row("3", "TARGET two"),
            row("4", "filler"),
        ],
    ));
    app.next(Some("target".to_string()));
    assert_eq!(app.tabs[1].filtered_view_items.selected_item_index, 2);
    app.previous(Some("target".to_string()));
    assert_eq!(app.tabs[1].filtered_view_items.selected_item_index, 0);
}

#[test]
fn combined_tab_sorts_by_timestamp_and_selects_last() {
    let mut app = App::new();
    app.add_tab(normal_tab("a.log", vec![row("2", "a2"), row("1", "a1")]));
    app.add_tab(normal_tab("b.log", vec![row("3", "b3"), row("0", "b0")]));
    let combined = &app.tabs[0].filtered_view_items;
    assert_eq!(combined.data.len(), 4);
    assert_eq!(combined.data[0][1], "0");
    assert_eq!(combined.data[1][1], "1");
    assert_eq!(combined.data[2][1], "2");
    assert_eq!(combined.data[3][1], "3");
    assert_eq!(combined.selected_item_index, 3);
}

#[test]
fn combined_sort_is_stable_for_equal_timestamps() {
    let mut app = App::new();
    app.add_tab(normal_tab(
        "a.log",
        vec![row("5", "first"), row("5", "second")],
    ));
    app.add_tab(normal_tab("b.log", vec![row("5", "third")]));
    let combined = &app.tabs[0].filtered_view_items;
    assert_eq!(combined.data.len(), 3);
    assert_eq!(combined.data[0][3], "first");
    assert_eq!(combined.data[1][3], "second");
    assert_eq!(combined.data[2][3], "third");
}

#[test]
fn tail_refresh_replaces_records_and_selects_last() {
    let mut app = App::new();
    app.add_tab(normal_tab("a.log", vec![row("1", "old")]));
    app.set_tail_enabled(true);
    assert!(App::tail_should_reload(10, 25));
    assert!(!App::tail_should_reload(10, 10));
    let fresh = vec![row("1", "old"), row("2", "new"), row("3", "newest")];
    app.commit_tail_data("a.log", fresh, 25);
    assert_eq!(app.tabs[1].items.data.len(), 3);
    assert_eq!(app.tabs[1].items.selected_item_index, 2);
    assert_eq!(app.tabs[1].last_file_size, 25);
    let filter = {
        let t: &InputTextElement = app.filter_input_text();
        t.text()
    };
    app.filter_by_current_input(filter);
    assert_eq!(app.tabs[1].filtered_view_items.data.len(), 3);
    assert_eq!(app.tabs[1].filtered_view_items.selected_item_index, 2);
}

#[test]
fn closing_combined_tab_is_rejected() {
    let mut app = App::new();
    app.add_tab(normal_tab("a.log", vec![row("1", "x")]));
    app.selected_tab_index = 0;
    let closed = app.close_current_tab();
    assert!(!closed);
    assert_eq!(app.tabs.len(), 2);
}

#[test]
fn closing_normal_tab_rebuilds_combined() {
    let mut app = App::new();
    app.add_tab(normal_tab("a.log", vec![row("1", "from a")]));
    app.add_tab(normal_tab("b.log", vec![row("2", "from b")]));
    assert_eq!(app.tabs[0].filtered_view_items.data.len(), 2);
    assert_eq!(app.selected_tab_index, 2);
    let closed = app.close_current_tab();
    assert!(closed);
    assert_eq!(app.tabs.len(), 2);
    assert_eq!(app.selected_tab_index, 1);
    let combined = &app.tabs[0].filtered_view_items;
    assert_eq!(combined.data.len(), 1);
    assert_eq!(combined.data[0][3], "from a");
}

#[test]
fn navigation_clamps_at_both_ends() {
    let mut app = App::new();
    app.add_tab(normal_tab(
        "a.log",
        vec![row("1", "a"), row("2", "b"), row("3", "c")],
    ));
    app.start();
    assert_eq!(app.tabs[1].filtered_view_items.selected_item_index, 0);
    app.previous(None);
    assert_eq!(app.tabs[1].filtered_view_items.selected_item_index, 0);
    app.next(None);
    assert_eq!(app.tabs[1].filtered_view_items.selected_item_index, 1);
    app.end();
    assert_eq!(app.tabs[1].filtered_view_items.selected_item_index, 2);
    app.next(None);
    assert_eq!(app.tabs[1].filtered_view_items.selected_item_index, 2);
    app.skipping_prev();
    assert_eq!(app.tabs[1].filtered_view_items.selected_item_index, 0);
    app.skipping_next();
    assert_eq!(app.tabs[1].filtered_view_items.selected_item_index, 2);
}

#[test]
fn view_buffer_window_follows_selection() {
    let mut rows = Vec::new();
    for i in 0..120 {
        rows.push(row(&format!("{:03}", i), "m"));
    }
    let mut app = App::new();
    app.add_tab(normal_tab("a.log", rows));
    {
        let t = &mut app.tabs[1];
        t.filtered_view_items.selected_item_index = 75;
    }
    let (start, end) = app.get_view_buffer_range();
    assert_eq!(start, 50);
    assert_eq!(end, 100);
    assert_eq!(app.calculate_position_in_view_buffer(), 25);
    {
        let t = &mut app.tabs[1];
        t.filtered_view_items.selected_item_index = 110;
    }
    let (start, end) = app.get_view_buffer_range();
    assert_eq!(start, 100);
    assert_eq!(end, 120);
}

#[test]
fn selected_entry_text_is_padded() {
    let mut app = App::new();
    app.add_tab(normal_tab("a.log", vec![row("12:00", "hello")]));
    app.selected_tab_index = 1;
    let line = app.selected_log_entry_in_text();
    assert_eq!(line, format!("{:<25}{:<8}{}", "12:00", "INFO", "hello"));
}

#[test]
fn quit_key_stops_the_app() {
    let mut app = App::new();
    assert!(*app.running());
    let effect = handle_key_press(Key::Char('q'), no_mods(), &mut app);
    assert!(matches!(effect, UiEffect::Nothing));
    assert!(!*app.running());
}

#[test]
fn escape_pops_one_frame_but_never_the_base() {
    let mut app = App::new();
    app.add_tab(normal_tab("a.log", vec![row("1", "x")]));
    assert_eq!(app.view_mode().len(), 1);
    let _ = handle_key_press(Key::Esc, no_mods(), &mut app);
    assert_eq!(app.view_mode().len(), 1);
    let _ = handle_key_press(Key::Enter, no_mods(), &mut app);
    assert_eq!(app.view_mode().len(), 2);
    let _ = handle_key_press(Key::Esc, no_mods(), &mut app);
    assert_eq!(app.view_mode().len(), 1);
}

#[test]
fn close_key_is_rejected_on_combined_tab() {
    let mut app = App::new();
    app.add_tab(normal_tab("a.log", vec![row("1", "x")]));
    app.selected_tab_index = 0;
    let _ = handle_key_press(Key::Char('x'), no_mods(), &mut app);
    assert_eq!(app.tabs.len(), 2);
    app.selected_tab_index = 1;
    let _ = handle_key_press(Key::Char('x'), no_mods(), &mut app);
    assert_eq!(app.tabs.len(), 1);
}

#[test]
fn tail_toggle_and_tab_switch_keys() {
    let mut app = App::new();
    app.add_tab(normal_tab("a.log", vec![row("1", "x")]));
    assert!(!app.tail_enabled());
    let _ = handle_key_press(Key::Char('t'), no_mods(), &mut app);
    assert!(app.tail_enabled());
    app.selected_tab_index = 0;
    let _ = handle_key_press(Key::Right, no_mods(), &mut app);
    assert_eq!(app.selected_tab_index(), 1);
    let _ = handle_key_press(Key::Right, no_mods(), &mut app);
    assert_eq!(app.selected_tab_index(), 1);
    let _ = handle_key_press(Key::Left, no_mods(), &mut app);
    assert_eq!(app.selected_tab_index(), 0);
}

#[test]
fn copy_key_hands_back_the_selected_line() {
    let mut app = App::new();
    app.add_tab(normal_tab("a.log", vec![row("12:00", "hello")]));
    let effect = handle_key_press(Key::Char('c'), no_mods(), &mut app);
    match effect {
        UiEffect::CopyText(text) => {
            assert_eq!(text, format!("{:<25}{:<8}{}", "12:00", "INFO", "hello"));
        }
        _ => panic!("expected copy effect"),
    }
    assert!(app.copying_to_clipboard);
}

#[test]
fn open_key_asks_for_the_file_picker() {
    let mut app = App::new();
    let effect = handle_key_press(Key::Char('o'), no_mods(), &mut app);
    assert!(matches!(effect, UiEffect::OpenFilePicker));
}

#[test]
fn filter_typing_refilters_at_once() {
    let mut app = App::new();
    app.add_tab(normal_tab(
        "a.log",
        vec![row("1", "abc"), row("2", "xyz")],
    ));
    let _ = handle_key_press(Key::Char('f'), no_mods(), &mut app);
    let _ = handle_key_press(Key::Char('x'), no_mods(), &mut app);
    assert_eq!(app.filter_input_text().text(), "x");
    assert_eq!(app.tabs[1].filtered_view_items.data.len(), 1);
    assert_eq!(app.tabs[1].filtered_view_items.data[0][3], "xyz");
    let _ = handle_key_press(Key::Backspace, no_mods(), &mut app);
    assert_eq!(app.filter_input_text().text(), "");
    assert_eq!(app.tabs[1].filtered_view_items.data.len(), 2);
}

#[test]
fn search_keys_step_through_matches() {
    let mut app = App::new();
    app.add_tab(normal_tab(
        "a.log",
        vec![row("1", "match"), row("2", "no"), row("3", "match")],
    ));
    let _ = handle_key_press(Key::Char('s'), no_mods(), &mut app);
    assert_eq!(app.view_mode().len(), 2);
    for c in "match".chars() {
        let _ = handle_key_press(Key::Char(c), no_mods(), &mut app);
    }
    assert_eq!(app.search_input_text().text(), "match");
    let _ = handle_key_press(Key::Down, no_mods(), &mut app);
    assert_eq!(app.tabs[1].filtered_view_items.selected_item_index, 2);
    let _ = handle_key_press(Key::Up, no_mods(), &mut app);
    assert_eq!(app.tabs[1].filtered_view_items.selected_item_index, 0);
    let _ = handle_key_press(Key::Esc, no_mods(), &mut app);
    assert_eq!(app.view_mode().len(), 1);
}

#[test]
fn clicking_a_visible_record_selects_it() {
    let mut app = App::new();
    app.add_tab(normal_tab(
        "a.log",
        vec![row("1", "a"), row("2", "b"), row("3", "c")],
    ));
    app.select_clicked_item(2);
    assert_eq!(app.tabs[1].filtered_view_items.selected_item_index, 2);
    app.select_clicked_item(9);
    assert_eq!(app.tabs[1].filtered_view_items.selected_item_index, 2);
    let before = app.view_mode().len();
    app.select_clicked_item(2);
    assert_eq!(app.view_mode().len(), before + 1);
}

#[test]
fn clicked_item_index_accounts_for_window_and_offset() {
    assert_eq!(App::clicked_item_index(50, 3, 10, 4), Some(57));
    assert_eq!(App::clicked_item_index(0, 0, 5, 4), None);
    assert_eq!(App::clicked_item_index(0, 0, 6, 4), Some(0));
}

#[test]
fn tail_snapshot_covers_every_normal_tab() {
    let mut app = App::new();
    app.add_tab(normal_tab("a.log", vec![row("1", "x")]));
    app.add_tab(normal_tab("b.log", vec![row("2", "y")]));
    let snap = app.tail_snapshot();
    assert_eq!(snap.len(), 2);
    assert_eq!(snap[0].0, "a.log");
    assert_eq!(snap[1].0, "b.log");
}

#[test]
fn double_g_jumps_to_start_and_shift_g_to_end() {
    let mut app = App::new();
    app.add_tab(normal_tab(
        "a.log",
        vec![row("1", "a"), row("2", "b"), row("3", "c")],
    ));
    let shift = KeyMods {
        control: false,
        shift: true,
        alt: false,
    };
    app.end();
    // the first 'g' only remembers itself; the second jumps to the start
    let _ = handle_key_press(Key::Char('g'), no_mods(), &mut app);
    assert_eq!(app.tabs[1].filtered_view_items.selected_item_index, 2);
    let _ = handle_key_press(Key::Char('g'), no_mods(), &mut app);
    assert_eq!(app.tabs[1].filtered_view_items.selected_item_index, 0);
    let _ = handle_key_press(Key::Char('G'), shift, &mut app);
    assert_eq!(app.tabs[1].filtered_view_items.selected_item_index, 2);
}

#[test]
fn escape_leaves_the_filter_input() {
    let mut app = App::new();
    app.add_tab(normal_tab("a.log", vec![row("1", "x")]));
    let _ = handle_key_press(Key::Char('f'), no_mods(), &mut app);
    assert!(matches!(
        app.selected_input(),
        Some(log_viewer::app::SelectedInput::Filter)
    ));
    // while the filter owns the keyboard, 'q' is text, not quit
    let _ = handle_key_press(Key::Char('q'), no_mods(), &mut app);
    assert!(*app.running());
    assert_eq!(app.filter_input_text().text(), "q");
    let _ = handle_key_press(Key::Esc, no_mods(), &mut app);
    assert!(app.selected_input().is_none());
}

#[test]
fn control_c_leaves_the_search_overlay() {
    let mut app = App::new();
    app.add_tab(normal_tab("a.log", vec![row("1", "x")]));
    let _ = handle_key_press(Key::Char('s'), no_mods(), &mut app);
    assert_eq!(app.view_mode().len(), 2);
    let ctrl = KeyMods {
        control: true,
        shift: false,
        alt: false,
    };
    let _ = handle_key_press(Key::Char('c'), ctrl, &mut app);
    assert_eq!(app.view_mode().len(), 1);
    assert!(app.selected_input().is_none());
}
