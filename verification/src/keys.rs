//! The key bindings: what each key press does to the application state.
//! The event capture layer decodes terminal input into a plain `Key` and
//! modifier flags; everything it causes — navigation, filtering, searching,
//! the view-mode stack, quitting — is decided and performed here. Only two
//! outcomes need outside help, opening the file picker and writing to the
//! clipboard, and those are handed back as an effect for the caller.

use vstd::prelude::*;

use crate::app::App;
use crate::app::SelectedInput;
use crate::app::ViewMode;
use crate::app::combined_rows;
use crate::app::filter_tabs_updated;
use crate::app::item_view_switched;
use crate::app::next_sel;
use crate::app::prev_sel;
use crate::app::same_except_tab_choice;
use crate::app::same_ui_fields;
use crate::app::sel_update;
use crate::app::spec_working;
use crate::app::DEFAULT_SKIP_SIZE;
use crate::json::beautified_of;

verus! {

/// A logical key, decoded from the terminal.
#[derive(Clone, Copy, PartialEq, Eq, Structural)]
pub enum Key {
    Char(char),
    Enter,
    Esc,
    Backspace,
    Delete,
    Left,
    Right,
    Up,
    Down,
    Home,
    End,
    PageUp,
    PageDown,
    Other,
}

/// The modifier flags of a key press.
#[derive(Clone, Copy, PartialEq, Eq, Structural)]
pub struct KeyMods {
    pub control: bool,
    pub shift: bool,
    pub alt: bool,
}

/// What a key press asks the world outside the state to do.
pub enum UiEffect {
    Nothing,
    OpenFilePicker,
    CopyText(String),
}

/// The selection step a plain forward move makes.
pub open spec fn plain_next(pre: App, post: App) -> bool {
    if spec_working(pre).rows().len() == 0 {
        post == pre
    } else {
        sel_update(
            pre,
            post,
            next_sel(
                spec_working(pre).rows(),
                None,
                spec_working(pre).selected_item_index as int,
            ),
        )
    }
}

/// The selection step a plain backward move makes.
pub open spec fn plain_prev(pre: App, post: App) -> bool {
    if spec_working(pre).rows().len() == 0 {
        post == pre
    } else {
        sel_update(
            pre,
            post,
            prev_sel(
                spec_working(pre).rows(),
                None,
                spec_working(pre).selected_item_index as int,
            ),
        )
    }
}

/// The selection step a forward search from the current search text makes.
pub open spec fn search_next(pre: App, post: App) -> bool {
    if spec_working(pre).rows().len() == 0 {
        post == pre
    } else {
        sel_update(
            pre,
            post,
            next_sel(
                spec_working(pre).rows(),
                Some(pre.search_input_text.text_view()),
                spec_working(pre).selected_item_index as int,
            ),
        )
    }
}

/// The selection step a backward search from the current search text makes.
pub open spec fn search_prev(pre: App, post: App) -> bool {
    if spec_working(pre).rows().len() == 0 {
        post == pre
    } else {
        sel_update(
            pre,
            post,
            prev_sel(
                spec_working(pre).rows(),
                Some(pre.search_input_text.text_view()),
                spec_working(pre).selected_item_index as int,
            ),
        )
    }
}

/// A page-wise jump forward.
pub open spec fn page_next(pre: App, post: App) -> bool {
    if spec_working(pre).rows().len() == 0 {
        post == pre
    } else {
        sel_update(
            pre,
            post,
            ({
                let i = spec_working(pre).selected_item_index as int;
                let n = spec_working(pre).rows().len() as int;
                if i + DEFAULT_SKIP_SIZE < n {
                    i + DEFAULT_SKIP_SIZE
                } else {
                    n - 1
                }
            }),
        )
    }
}

/// A page-wise jump back.
pub open spec fn page_prev(pre: App, post: App) -> bool {
    if spec_working(pre).rows().len() == 0 {
        post == pre
    } else {
        sel_update(
            pre,
            post,
            ({
                let i = spec_working(pre).selected_item_index as int;
                if i - DEFAULT_SKIP_SIZE > 0 {
                    i - DEFAULT_SKIP_SIZE
                } else {
                    0int
                }
            }),
        )
    }
}

/// A jump to the first record.
pub open spec fn to_start(pre: App, post: App) -> bool {
    if spec_working(pre).rows().len() == 0 {
        post == pre
    } else {
        sel_update(pre, post, 0)
    }
}

/// A jump to the last record.
pub open spec fn to_end(pre: App, post: App) -> bool {
    if spec_working(pre).rows().len() == 0 {
        post == pre
    } else {
        sel_update(pre, post, spec_working(pre).rows().len() - 1)
    }
}

/// One stack frame popped, never the base.
pub open spec fn popped_back(pre: App, post: App) -> bool {
    if pre.view_mode@.len() > 1 {
        post.view_mode@ == pre.view_mode@.drop_last() && crate::app::same_except_view_mode(
            pre,
            post,
        )
    } else {
        post == pre
    }
}

/// The selected Normal tab closed and the Combined tab rebuilt; a no-op on
/// the Combined tab itself.
pub open spec fn tab_close_step(pre: App, post: App) -> bool {
    if !(pre.tabs@[pre.selected_tab_index as int].tab_type is Normal) {
        post == pre
    } else {
        let sel = pre.selected_tab_index as int;
        let removed = pre.tabs@.remove(sel);
        &&& post.selected_tab_index as int == (if sel == pre.tabs@.len() - 1 {
            sel - 1
        } else {
            sel
        })
        &&& post.tabs@.len() == removed.len()
        &&& forall|k: int| 1 <= k < removed.len() ==> #[trigger] post.tabs@[k] == removed[k]
        &&& post.tabs@[0].filtered_view_items.rows() == combined_rows(post.tabs@)
        &&& post.tabs@[0].items.rows() == combined_rows(post.tabs@)
        &&& same_ui_fields(pre, post)
    }
}

/// The switch into the tab list one step right or left.
pub open spec fn tab_right(pre: App, post: App) -> bool {
    &&& same_except_tab_choice(pre, post)
    &&& post.selected_tab_index as int == (if pre.selected_tab_index + 1 < pre.tabs@.len() {
        pre.selected_tab_index + 1
    } else {
        pre.tabs@.len() - 1
    })
}

pub open spec fn tab_left(pre: App, post: App) -> bool {
    &&& same_except_tab_choice(pre, post)
    &&& post.selected_tab_index as int == (if pre.selected_tab_index > 0 {
        pre.selected_tab_index - 1
    } else {
        0int
    })
}

/// The text the copy key puts on the clipboard: the selected record's
/// line, with any enclosed JSON prettified while the record detail view is
/// open.
pub open spec fn copy_text_spec(pre: App) -> Seq<char> {
    let line = crate::app::log_entry_text(
        spec_working(pre).rows()[spec_working(pre).selected_item_index as int],
    );
    if pre.view_mode@.last() is TableItem {
        match beautified_of(line) {
            Some(b) => b,
            None => line,
        }
    } else {
        line
    }
}

/// What one key does outside any text input: the complete normal-mode
/// binding table. Only the quit keys stop the app; Escape and `b` pop one
/// view frame and never exit; closing is rejected on the Combined tab.
pub open spec fn normal_step(pre: App, post: App, key: Key, mods: KeyMods, r: UiEffect) -> bool {
    match key {
        Key::Char(c) => {
            if c == 'q' || c == 'Q' {
                post == (App { running: false, ..pre }) && r is Nothing
            } else if c == 'g' || c == 'G' {
                let pre2 = App { last_key_input: Some('g'), ..pre };
                let shift_only = mods.shift && !mods.control && !mods.alt;
                &&& r is Nothing
                &&& if shift_only {
                    to_end(pre2, post)
                } else if pre.last_key_input == Some('g') {
                    to_start(pre2, post)
                } else {
                    post == pre2
                }
            } else if c == 'x' {
                tab_close_step(pre, post) && r is Nothing
            } else if c == 'b' {
                popped_back(pre, post) && r is Nothing
            } else if c == 'o' {
                post == pre && r is OpenFilePicker
            } else if c == 'l' {
                tab_right(pre, post) && r is Nothing
            } else if c == 'h' {
                tab_left(pre, post) && r is Nothing
            } else if c == 'j' {
                plain_next(pre, post) && r is Nothing
            } else if c == 'k' {
                plain_prev(pre, post) && r is Nothing
            } else if c == '}' {
                page_next(pre, post) && r is Nothing
            } else if c == '{' {
                page_prev(pre, post) && r is Nothing
            } else if c == 'd' || c == 'D' {
                (if mods.control {
                    page_next(pre, post)
                } else {
                    post == pre
                }) && r is Nothing
            } else if c == 'u' || c == 'U' {
                (if mods.control {
                    page_prev(pre, post)
                } else {
                    post == pre
                }) && r is Nothing
            } else if c == 'f' {
                post == (App { selected_input: Some(SelectedInput::Filter), ..pre }) && r
                    is Nothing
            } else if c == 's' {
                &&& post.selected_input == Some(SelectedInput::Search)
                &&& post.view_mode@ == pre.view_mode@.push(ViewMode::SearchView)
                &&& post.running == pre.running
                &&& post.tabs == pre.tabs
                &&& post.selected_tab_index == pre.selected_tab_index
                &&& post.filter_input_text == pre.filter_input_text
                &&& post.search_input_text == pre.search_input_text
                &&& post.view_buffer_size == pre.view_buffer_size
                &&& post.tail_enabled == pre.tail_enabled
                &&& post.copying_to_clipboard == pre.copying_to_clipboard
                &&& post.mouse_position == pre.mouse_position
                &&& post.last_key_input == pre.last_key_input
                &&& r is Nothing
            } else if c == 't' {
                post == (App { tail_enabled: !pre.tail_enabled, ..pre }) && r is Nothing
            } else if c == 'c' {
                if spec_working(pre).rows().len() == 0 {
                    post == pre && r is Nothing
                } else {
                    &&& post == (App { copying_to_clipboard: true, ..pre })
                    &&& r matches UiEffect::CopyText(t) && t@ == copy_text_spec(pre)
                }
            } else if c == 'n' {
                search_next(pre, post) && r is Nothing
            } else if c == 'p' {
                search_prev(pre, post) && r is Nothing
            } else {
                post == pre && r is Nothing
            }
        },
        Key::Esc => popped_back(pre, post) && r is Nothing,
        Key::Home => to_start(pre, post) && r is Nothing,
        Key::End => to_end(pre, post) && r is Nothing,
        Key::Enter => item_view_switched(pre, post) && r is Nothing,
        Key::Right => tab_right(pre, post) && r is Nothing,
        Key::Left => tab_left(pre, post) && r is Nothing,
        Key::Down => plain_next(pre, post) && r is Nothing,
        Key::Up => plain_prev(pre, post) && r is Nothing,
        Key::PageDown => page_next(pre, post) && r is Nothing,
        Key::PageUp => page_prev(pre, post) && r is Nothing,
        _ => post == pre && r is Nothing,
    }
}

/// Handles a key outside any text input.
pub fn handle_normal_mode(key: Key, app: &mut App, mods: KeyMods) -> (r: UiEffect)
    requires
        old(app).wf(),
    ensures
        final(app).wf(),
        normal_step(*old(app), *final(app), key, mods, r),
{
    match key {
        Key::Char(c) => {
            if c == 'q' || c == 'Q' {
                app.running = false;
                UiEffect::Nothing
            } else if c == 'g' || c == 'G' {
                let shift_only = mods.shift && !mods.control && !mods.alt;
                let was_g = match app.last_key_input {
                    Some(lc) => lc == 'g',
                    None => false,
                };
                app.last_key_input = Some('g');
                if shift_only {
                    app.end();
                } else if was_g {
                    app.start();
                }
                UiEffect::Nothing
            } else if c == 'x' {
                let _ = app.close_current_tab();
                UiEffect::Nothing
            } else if c == 'b' {
                app.back();
                UiEffect::Nothing
            } else if c == 'o' {
                UiEffect::OpenFilePicker
            } else if c == 'l' {
                app.next_tab();
                UiEffect::Nothing
            } else if c == 'h' {
                app.prev_tab();
                UiEffect::Nothing
            } else if c == 'j' {
                app.next(None);
                UiEffect::Nothing
            } else if c == 'k' {
                app.previous(None);
                UiEffect::Nothing
            } else if c == '}' {
                app.skipping_next();
                UiEffect::Nothing
            } else if c == '{' {
                app.skipping_prev();
                UiEffect::Nothing
            } else if c == 'd' || c == 'D' {
                if mods.control {
                    app.skipping_next();
                }
                UiEffect::Nothing
            } else if c == 'u' || c == 'U' {
                if mods.control {
                    app.skipping_prev();
                }
                UiEffect::Nothing
            } else if c == 'f' {
                app.selected_input = Some(SelectedInput::Filter);
                UiEffect::Nothing
            } else if c == 's' {
                app.selected_input = Some(SelectedInput::Search);
                app.view_mode.push(ViewMode::SearchView);
                UiEffect::Nothing
            } else if c == 't' {
                app.tail_enabled = !app.tail_enabled;
                UiEffect::Nothing
            } else if c == 'c' {
                let sel = app.selected_tab_index;
                if app.tabs[sel].filtered_view_items.data.len() == 0 {
                    return UiEffect::Nothing;
                }
                let mut text = app.selected_log_entry_in_text();
                let vm_len = app.view_mode.len();
                let in_detail = match &app.view_mode[vm_len - 1] {
                    ViewMode::TableItem(_) => true,
                    _ => false,
                };
                proof {
                    assert(app.view_mode@.last() == app.view_mode@[vm_len - 1]);
                }
                if in_detail {
                    match crate::json::beatify_enclosed_json(text.as_str()) {
                        Some(pretty) => {
                            text = pretty;
                        },
                        None => {},
                    }
                }
                app.copying_to_clipboard = true;
                UiEffect::CopyText(text)
            } else if c == 'n' {
                let search = app.search_input_text.text();
                app.next(Some(search));
                UiEffect::Nothing
            } else if c == 'p' {
                let search = app.search_input_text.text();
                app.previous(Some(search));
                UiEffect::Nothing
            } else {
                UiEffect::Nothing
            }
        },
        Key::Esc => {
            app.back();
            UiEffect::Nothing
        },
        Key::Home => {
            app.start();
            UiEffect::Nothing
        },
        Key::End => {
            app.end();
            UiEffect::Nothing
        },
        Key::Enter => {
            app.switch_to_item_view();
            UiEffect::Nothing
        },
        Key::Right => {
            app.next_tab();
            UiEffect::Nothing
        },
        Key::Left => {
            app.prev_tab();
            UiEffect::Nothing
        },
        Key::Down => {
            app.next(None);
            UiEffect::Nothing
        },
        Key::Up => {
            app.previous(None);
            UiEffect::Nothing
        },
        Key::PageDown => {
            app.skipping_next();
            UiEffect::Nothing
        },
        Key::PageUp => {
            app.skipping_prev();
            UiEffect::Nothing
        },
        _ => UiEffect::Nothing,
    }
}

/// The input element can take one more character.
pub open spec fn can_grow(t: crate::input_element::InputTextElement) -> bool {
    t.text_view().len() + 1 < 0x7fff_ffff_ffff_ffff
}

/// The filter text after one editing key.
pub open spec fn edited_filter_text(t: crate::input_element::InputTextElement, key: Key) -> Seq<char> {
    match key {
        Key::Char(c) => if can_grow(t) {
            t.text_view().insert(t.cursor_view() + 1, c)
        } else {
            t.text_view()
        },
        Key::Backspace => if t.cursor_view() >= 0 {
            t.text_view().remove(t.cursor_view())
        } else {
            t.text_view()
        },
        Key::Delete => if t.cursor_view() < t.text_view().len() - 1 {
            t.text_view().remove(t.cursor_view() + 1)
        } else {
            t.text_view()
        },
        _ => t.text_view(),
    }
}

/// The cursor after one editing key.
pub open spec fn edited_cursor(t: crate::input_element::InputTextElement, key: Key) -> int {
    match key {
        Key::Char(_) => if can_grow(t) {
            t.cursor_view() + 1
        } else {
            t.cursor_view()
        },
        Key::Backspace => if t.cursor_view() >= 0 {
            t.cursor_view() - 1
        } else {
            -1int
        },
        Key::Delete => t.cursor_view(),
        Key::Left => if t.cursor_view() - 1 >= -1 {
            t.cursor_view() - 1
        } else {
            -1int
        },
        Key::Right => if t.cursor_view() + 1 <= t.text_view().len() - 1 {
            t.cursor_view() + 1
        } else {
            t.text_view().len() - 1
        },
        Key::Home => -1int,
        Key::End => t.text_view().len() - 1,
        _ => t.cursor_view(),
    }
}

/// An editing key applied to the filter box, followed by a refilter of
/// every tab from the new text; nothing else moves.
pub open spec fn filter_edit_refreshed(pre: App, post: App, key: Key) -> bool {
    &&& post.filter_input_text.text_view() == edited_filter_text(pre.filter_input_text, key)
    &&& post.filter_input_text.cursor_view() == edited_cursor(pre.filter_input_text, key)
    &&& filter_tabs_updated(pre, post, post.filter_input_text.text_view())
    &&& post.running == pre.running
    &&& post.selected_tab_index == pre.selected_tab_index
    &&& post.view_mode == pre.view_mode
    &&& post.selected_input == pre.selected_input
    &&& post.search_input_text == pre.search_input_text
    &&& post.view_buffer_size == pre.view_buffer_size
    &&& post.tail_enabled == pre.tail_enabled
    &&& post.copying_to_clipboard == pre.copying_to_clipboard
    &&& post.mouse_position == pre.mouse_position
    &&& post.last_key_input == pre.last_key_input
}

/// Leaving an input overlay: a record-detail frame on top is popped,
/// otherwise the text input is released.
pub open spec fn filter_exited(pre: App, post: App) -> bool {
    if pre.view_mode@.last() is TableItem && pre.view_mode@.len() > 1 {
        post.view_mode@ == pre.view_mode@.drop_last() && crate::app::same_except_view_mode(
            pre,
            post,
        )
    } else if pre.view_mode@.last() is TableItem {
        post == pre
    } else {
        post == (App { selected_input: None, ..pre })
    }
}

/// What one key does while the filter text is being edited: typing
/// reshapes the filter and refilters at once; arrows still navigate;
/// Escape or Ctrl-C leaves the filter input. A key does nothing unless the
/// filter input owns the keyboard.
pub open spec fn filtered_step(pre: App, post: App, key: Key, mods: KeyMods) -> bool {
    if !(pre.selected_input matches Some(SelectedInput::Filter)) {
        post == pre
    } else {
        match key {
        Key::Char(c) => {
            if (c == 'c' || c == 'C') && mods.control {
                filter_exited(pre, post)
            } else {
                filter_edit_refreshed(pre, post, key)
            }
        },
        Key::Backspace => filter_edit_refreshed(pre, post, key),
        Key::Enter => item_view_switched(pre, post),
        Key::Down => plain_next(pre, post),
        Key::Up => plain_prev(pre, post),
        Key::PageDown => page_next(pre, post),
        Key::PageUp => page_prev(pre, post),
            Key::Esc => filter_exited(pre, post),
            _ => filter_edit_refreshed(pre, post, key),
        }
    }
}

/// Leaving the search overlay: the input is released and the search frame
/// popped.
pub open spec fn search_exited(pre: App, post: App) -> bool {
    &&& post.selected_input is None
    &&& (if pre.view_mode@.len() > 1 {
        post.view_mode@ == pre.view_mode@.drop_last()
    } else {
        post.view_mode == pre.view_mode
    })
    &&& post.running == pre.running
    &&& post.tabs == pre.tabs
    &&& post.selected_tab_index == pre.selected_tab_index
    &&& post.filter_input_text == pre.filter_input_text
    &&& post.search_input_text == pre.search_input_text
    &&& post.view_buffer_size == pre.view_buffer_size
    &&& post.tail_enabled == pre.tail_enabled
    &&& post.copying_to_clipboard == pre.copying_to_clipboard
    &&& post.mouse_position == pre.mouse_position
    &&& post.last_key_input == pre.last_key_input
}

/// An editing key applied to the search box alone.
pub open spec fn search_edited(pre: App, post: App, key: Key) -> bool {
    &&& post.search_input_text.text_view() == edited_filter_text(pre.search_input_text, key)
    &&& post.search_input_text.cursor_view() == edited_cursor(pre.search_input_text, key)
    &&& post.running == pre.running
    &&& post.tabs == pre.tabs
    &&& post.selected_tab_index == pre.selected_tab_index
    &&& post.view_mode == pre.view_mode
    &&& post.selected_input == pre.selected_input
    &&& post.filter_input_text == pre.filter_input_text
    &&& post.view_buffer_size == pre.view_buffer_size
    &&& post.tail_enabled == pre.tail_enabled
    &&& post.copying_to_clipboard == pre.copying_to_clipboard
    &&& post.mouse_position == pre.mouse_position
    &&& post.last_key_input == pre.last_key_input
}

/// What one key does while the search overlay is open: typing edits the
/// search text; Down, Up and Enter step through matches; Escape or Ctrl-C
/// closes the overlay. A key does nothing unless the search input owns the
/// keyboard.
pub open spec fn search_step(pre: App, post: App, key: Key, mods: KeyMods) -> bool {
    if !(pre.selected_input matches Some(SelectedInput::Search)) {
        post == pre
    } else {
        match key {
            Key::Char(c) => {
                if (c == 'c' || c == 'C') && mods.control {
                    search_exited(pre, post)
                } else {
                    search_edited(pre, post, key)
                }
            },
            Key::Down => search_next(pre, post),
            Key::Up => search_prev(pre, post),
            Key::Enter => {
                if mods.shift {
                    search_prev(pre, post)
                } else if !mods.control && !mods.alt {
                    search_next(pre, post)
                } else {
                    post == pre
                }
            },
            Key::PageDown => page_next(pre, post),
            Key::PageUp => page_prev(pre, post),
            Key::Esc => search_exited(pre, post),
            _ => search_edited(pre, post, key),
        }
    }
}

/// One keyboard edit applied to a text box.
fn handle_common_input(input: &mut crate::input_element::InputTextElement, key: Key)
    requires
        old(input).wf(),
    ensures
        final(input).wf(),
        final(input).text_view() == edited_filter_text(*old(input), key),
        final(input).cursor_view() == edited_cursor(*old(input), key),
{
    match key {
        Key::Char(c) => {
            let t = input.text();
            let len = t.as_str().unicode_len();
            if (len as u64) < 0x7fff_ffff_ffff_fffeu64 {
                input.add_char(c);
            }
        },
        Key::Backspace => {
            input.remove_char();
        },
        Key::Delete => {
            input.delete_char();
        },
        Key::Left => {
            input.cursor_left();
        },
        Key::Right => {
            input.cursor_right();
        },
        Key::Home => {
            input.cursor_to_start();
        },
        Key::End => {
            input.cursor_to_end();
        },
        _ => {},
    }
}

/// Handles a key while the filter text is being edited.
pub fn handle_filtered_mode(key: Key, mods: KeyMods, app: &mut App)
    requires
        old(app).wf(),
    ensures
        final(app).wf(),
        filtered_step(*old(app), *final(app), key, mods),
{
    let owns = match &app.selected_input {
        Some(SelectedInput::Filter) => true,
        _ => false,
    };
    if !owns {
        return ;
    }
    match key {
        Key::Char(c) => {
            if (c == 'c' || c == 'C') && mods.control {
                exit_filter_input(app);
            } else {
                handle_common_input(&mut app.filter_input_text, key);
                let text = app.filter_input_text.text();
                app.filter_by_current_input(text);
            }
        },
        Key::Backspace => {
            handle_common_input(&mut app.filter_input_text, key);
            let text = app.filter_input_text.text();
            app.filter_by_current_input(text);
        },
        Key::Enter => {
            app.switch_to_item_view();
        },
        Key::Down => {
            app.next(None);
        },
        Key::Up => {
            app.previous(None);
        },
        Key::PageDown => {
            app.skipping_next();
        },
        Key::PageUp => {
            app.skipping_prev();
        },
        Key::Esc => {
            exit_filter_input(app);
        },
        _ => {
            handle_common_input(&mut app.filter_input_text, key);
            let text = app.filter_input_text.text();
            app.filter_by_current_input(text);
        },
    }
}

fn exit_filter_input(app: &mut App)
    requires
        old(app).wf(),
    ensures
        final(app).wf(),
        filter_exited(*old(app), *final(app)),
{
    let vm_len = app.view_mode.len();
    let in_detail = match &app.view_mode[vm_len - 1] {
        ViewMode::TableItem(_) => true,
        _ => false,
    };
    proof {
        assert(app.view_mode@.last() == app.view_mode@[vm_len - 1]);
    }
    if in_detail {
        if vm_len > 1 {
            app.view_mode.pop();
        }
    } else {
        app.selected_input = None;
    }
}

/// Handles a key while the search overlay is open.
pub fn handle_search_mode(key: Key, mods: KeyMods, app: &mut App)
    requires
        old(app).wf(),
    ensures
        final(app).wf(),
        search_step(*old(app), *final(app), key, mods),
{
    let owns = match &app.selected_input {
        Some(SelectedInput::Search) => true,
        _ => false,
    };
    if !owns {
        return ;
    }
    match key {
        Key::Char(c) => {
            if (c == 'c' || c == 'C') && mods.control {
                app.selected_input = None;
                if app.view_mode.len() > 1 {
                    app.view_mode.pop();
                }
            } else {
                handle_common_input(&mut app.search_input_text, key);
            }
        },
        Key::Down => {
            let search = app.search_input_text.text();
            app.next(Some(search));
        },
        Key::Up => {
            let search = app.search_input_text.text();
            app.previous(Some(search));
        },
        Key::Enter => {
            if mods.shift {
                let search = app.search_input_text.text();
                app.previous(Some(search));
            } else if !mods.control && !mods.alt {
                let search = app.search_input_text.text();
                app.next(Some(search));
            }
        },
        Key::PageDown => {
            app.skipping_next();
        },
        Key::PageUp => {
            app.skipping_prev();
        },
        Key::Esc => {
            app.selected_input = None;
            if app.view_mode.len() > 1 {
                app.view_mode.pop();
            }
        },
        _ => {
            handle_common_input(&mut app.search_input_text, key);
        },
    }
}

/// Which handler one key press reaches: the filter editor while it owns
/// the keyboard, the search overlay while it is on top, else the normal
/// bindings.
pub open spec fn key_step(pre: App, post: App, key: Key, mods: KeyMods, r: UiEffect) -> bool {
    if pre.selected_input matches Some(SelectedInput::Filter) {
        filtered_step(pre, post, key, mods) && r is Nothing
    } else if pre.view_mode@.last() is SearchView {
        search_step(pre, post, key, mods) && r is Nothing
    } else {
        normal_step(pre, post, key, mods, r)
    }
}

/// Routes one key press to the active mode and performs it.
pub fn handle_key_press(key: Key, mods: KeyMods, app: &mut App) -> (r: UiEffect)
    requires
        old(app).wf(),
    ensures
        final(app).wf(),
        key_step(*old(app), *final(app), key, mods, r),
{
    let in_filter = match &app.selected_input {
        Some(SelectedInput::Filter) => true,
        _ => false,
    };
    if in_filter {
        handle_filtered_mode(key, mods, app);
        return UiEffect::Nothing;
    }
    let vm_len = app.view_mode.len();
    let in_search = match &app.view_mode[vm_len - 1] {
        ViewMode::SearchView => true,
        _ => false,
    };
    proof {
        assert(app.view_mode@.last() == app.view_mode@[vm_len - 1]);
    }
    if in_search {
        handle_search_mode(key, mods, app);
        return UiEffect::Nothing;
    }
    handle_normal_mode(key, app, mods)
}

} // verus!
