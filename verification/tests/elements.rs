use termnode::app::dispatch::{common_parent_count, first_phase, mouse_target, next_phase, MouseAction, Phase};
use termnode::app::focus::cycle_focus;
use termnode::app::{HitMap, Navigation, Viewport};
use termnode::elements::console::ConsoleToggle;
use termnode::elements::drag::{updated_hold, Draggable, OnDragResult, Resizable};
use termnode::elements::input::{Input, InputEvent};
use termnode::elements::tabs::Tabs;
use termnode::elements::{Console, Entry, History};
use termnode::node::NodeId;
use termnode::style::{BorderStyle, Offset, Size, SizeValue, Style};
use termnode::text::Text;
use termnode::PartialRect;

fn lines(text: &Text) -> Vec<String> {
    text.input.iter().map(|l| l.content().to_string()).collect()
}

#[test]
fn input_typing_replaces_the_placeholder() {
    let mut input = Input::with_placeholder("type here");
    let mut text = Text::plain("type here", None);
    assert!(input.handle(&InputEvent::Char('a'), &mut text, None));
    assert!(input.handle(&InputEvent::Char('b'), &mut text, None));
    assert_eq!(lines(&text), vec!["ab"]);
    assert_eq!(input.cursor, (2, 0));
    assert_eq!(text.cursor, Some((2, 0)));
    assert!(!input.visible_placeholder);
}

#[test]
fn input_enter_and_backspace() {
    let mut input = Input::with_placeholder("?");
    let mut text = Text::plain("?", None);
    input.handle(&InputEvent::Char('a'), &mut text, None);
    input.handle(&InputEvent::Char('b'), &mut text, None);
    assert!(!input.handle(&InputEvent::Enter, &mut text, None));
    assert_eq!(lines(&text), vec!["ab", ""]);
    assert_eq!(input.cursor, (0, 1));
    input.handle(&InputEvent::Char('c'), &mut text, None);
    assert_eq!(lines(&text), vec!["ab", "c"]);
    assert!(!input.handle(&InputEvent::Backspace, &mut text, None));
    assert_eq!(lines(&text), vec!["ab", ""]);
    assert_eq!(input.cursor, (0, 1));
    // backspace at the start of a line joins it to the line before
    input.handle(&InputEvent::Backspace, &mut text, None);
    assert_eq!(lines(&text), vec!["ab"]);
    assert_eq!(input.cursor, (2, 0));
    input.handle(&InputEvent::Backspace, &mut text, None);
    input.handle(&InputEvent::Backspace, &mut text, None);
    // a single empty line brings the placeholder back
    assert!(input.visible_placeholder);
    assert_eq!(lines(&text), vec!["?"]);
    assert_eq!(input.cursor, (0, 0));
    assert_eq!(text.cursor, Some((0, 0)));
}

#[test]
fn input_paste() {
    let mut input = Input::with_placeholder("?");
    let mut text = Text::plain("?", None);
    assert!(!input.handle(&InputEvent::Paste("x\ny".to_string()), &mut text, None));
    assert_eq!(lines(&text), vec!["x", "y"]);
    assert_eq!(input.cursor, (1, 1));
    input.handle(&InputEvent::Paste("12".to_string()), &mut text, None);
    assert_eq!(lines(&text), vec!["x", "y12"]);
    assert_eq!(input.cursor, (3, 1));
    // several lines split the cursor's line around them
    input.cursor = (1, 1);
    input.handle(&InputEvent::Paste("A\nB".to_string()), &mut text, None);
    assert_eq!(lines(&text), vec!["x", "yA", "B12"]);
    assert_eq!(input.cursor, (1, 2));
}

#[test]
fn input_ignores_control_characters_and_other_events() {
    let mut input = Input::with_placeholder("?");
    let mut text = Text::plain("?", None);
    input.handle(&InputEvent::Char('z'), &mut text, None);
    assert!(!input.handle(&InputEvent::Char('\u{7}'), &mut text, None));
    assert!(!input.handle(&InputEvent::Char('\u{85}'), &mut text, None));
    assert!(!input.handle(&InputEvent::Other, &mut text, None));
    assert_eq!(lines(&text), vec!["z"]);
    assert_eq!(input.cursor, (1, 0));
}

#[test]
fn input_with_cursor_off_the_text_changes_nothing() {
    let mut input = Input::with_placeholder("?");
    let mut text = Text::plain("?", None);
    input.handle(&InputEvent::Char('z'), &mut text, None);
    input.cursor = (5, 0);
    assert!(!input.handle(&InputEvent::Backspace, &mut text, None));
    assert_eq!(lines(&text), vec!["z"]);
    assert_eq!(input.cursor, (5, 0));
}

#[test]
fn console_history_keeps_the_last_entries() {
    let mut history = History::new();
    assert_eq!(history.size(), 38);
    assert_eq!(history.version(), 0);
    Console::set_history_size(&mut history, 2);
    assert_eq!(history.size(), 2);
    assert_eq!(history.version(), 1);
    Console::log(&mut history, "one".to_string());
    Console::warn(&mut history, "two".to_string());
    Console::error(&mut history, "three".to_string());
    assert_eq!(history.version(), 4);
    let kept: Vec<String> = history
        .store()
        .iter()
        .map(|e| match e {
            Entry::Info(t) => format!("info:{}", t),
            Entry::Warn(t) => format!("warn:{}", t),
            Entry::Error(t) => format!("error:{}", t),
        })
        .collect();
    assert_eq!(kept, vec!["warn:two", "error:three"]);
    Console::print(&mut history, "four".to_string());
    assert_eq!(history.store().len(), 2);
}

#[test]
fn console_toggle_saves_and_restores_the_style() {
    let mut toggle = ConsoleToggle::new();
    let mut style = Style::default();
    style.size = Size::from_cells(40, 10);
    style.border = (true, true, true, true, None);
    assert!(toggle.toggle(&mut style));
    assert_eq!(style.size, Size::from_cells(0, 0));
    assert_eq!(style.border, (false, false, false, false, None));
    assert!(!toggle.toggle(&mut style));
    assert_eq!(style.size, Size::from_cells(40, 10));
    assert_eq!(style.border, (true, true, true, true, None));
}

#[test]
fn draggable_moves_its_offset_inside_the_area() {
    let area = PartialRect::new(None, Some(5), None, None);
    let (offset, result) = Draggable::on_drag(Offset::Translate(1, 2), (3, -1), true, (4, 9), &area);
    assert_eq!(offset, Offset::Translate(4, 1));
    assert!(result.stop_propagation && result.update_hold_x && result.update_hold_y);
    // outside the area or with other modifiers nothing moves
    let (offset, result) = Draggable::on_drag(Offset::Absolute(1, 2), (3, -1), true, (5, 0), &area);
    assert_eq!(offset, Offset::Absolute(1, 2));
    assert_eq!(result, OnDragResult::default());
    let (offset, _) = Draggable::on_drag(Offset::Absolute(1, 2), (3, -1), false, (0, 0), &area);
    assert_eq!(offset, Offset::Absolute(1, 2));
}

#[test]
fn resizable_follows_the_dragged_edge() {
    let size = Size::from_cells(10, 5);
    let (new_size, result) = Resizable::on_drag(size, (10, 5), true, true, (9, 2), (2, 7));
    assert_eq!(new_size, Size::new(SizeValue::Cells(12), SizeValue::Cells(5)));
    assert_eq!(result, OnDragResult { stop_propagation: true, update_hold_x: true, update_hold_y: false });
    // the corner resizes both ways, never below zero
    let (new_size, result) = Resizable::on_drag(size, (10, 5), true, true, (9, 4), (-20, -1));
    assert_eq!(new_size, Size::new(SizeValue::Cells(10), SizeValue::Cells(4)));
    assert_eq!(result, OnDragResult { stop_propagation: true, update_hold_x: false, update_hold_y: true });
    // away from the edges nothing happens
    let (new_size, result) = Resizable::on_drag(size, (10, 5), true, true, (3, 2), (2, 2));
    assert_eq!(new_size, size);
    assert_eq!(result, OnDragResult::default());
}

#[test]
fn hold_follows_the_mouse_where_asked() {
    let result = OnDragResult { stop_propagation: true, update_hold_x: true, update_hold_y: false };
    assert_eq!(updated_hold((1, 1), (7, 8), result), (7, 1));
}

#[test]
fn tab_line_opens_under_the_selected_tab() {
    let style = BorderStyle::sharp();
    assert_eq!(Tabs::tab_line(&vec![1, 2], 0, &style), "┘   └┴────┴");
    assert_eq!(Tabs::tab_line(&vec![1, 2], 1, &style), "┴───┴┘    └");
    assert_eq!(Tabs::tab_line(&vec![], 0, &style), "");
}

#[test]
fn focus_cycles_through_the_ids() {
    let ids = vec![NodeId(1), NodeId(2), NodeId(3)];
    assert_eq!(cycle_focus(&ids, NodeId(2), Navigation::Next, true), Some(2));
    assert_eq!(cycle_focus(&ids, NodeId(3), Navigation::Next, true), Some(0));
    assert_eq!(cycle_focus(&ids, NodeId(3), Navigation::Next, false), None);
    assert_eq!(cycle_focus(&ids, NodeId(1), Navigation::Previous, true), Some(2));
    assert_eq!(cycle_focus(&ids, NodeId(1), Navigation::Previous, false), None);
    assert_eq!(cycle_focus(&vec![NodeId(4)], NodeId(4), Navigation::Next, true), None);
}

#[test]
fn hitmap_marks_the_viewport_area() {
    let mut hitmap = HitMap::new(4, 2);
    let viewport = Viewport { min: (1, 0), max: (3, 1), screen: (4, 2) };
    hitmap.add_target_area(NodeId(7), &viewport);
    assert_eq!(hitmap.get(1, 0), Some(NodeId(7)));
    assert_eq!(hitmap.get(2, 0), Some(NodeId(7)));
    assert_eq!(hitmap.get(0, 0), Some(NodeId(0)));
    assert_eq!(hitmap.get(3, 0), Some(NodeId(0)));
    assert_eq!(hitmap.get(1, 1), Some(NodeId(0)));
    assert_eq!(hitmap.get(4, 0), None);
    hitmap.resize(2, 1);
    assert_eq!(hitmap.get(1, 0), Some(NodeId(0)));
    assert_eq!(hitmap.get(0, 1), None);
}

#[test]
fn viewport_debug_render_shows_its_area() {
    let viewport = Viewport { min: (1, 1), max: (3, 2), screen: (4, 3) };
    assert_eq!(viewport.debug_render(), vec![vec![0, 0, 0, 0], vec![0, 1, 1, 0], vec![0, 0, 0, 0]]);
    let mut v = Viewport::new(2, 1);
    assert_eq!(v.debug_render(), vec![vec![1, 1]]);
    v.resize(3, 1);
    assert_eq!(v, Viewport { min: (0, 0), max: (3, 1), screen: (3, 1) });
}

#[test]
fn mouse_events_follow_the_hold() {
    let (hold, target) = mouse_target(MouseAction::Down, None, 3, 4, NodeId(7));
    assert_eq!((hold, target), (Some((3, 4, NodeId(7))), NodeId(7)));
    let (hold, target) = mouse_target(MouseAction::Drag, hold, 9, 9, NodeId(2));
    assert_eq!((hold, target), (Some((3, 4, NodeId(7))), NodeId(7)));
    let (hold, target) = mouse_target(MouseAction::Up, hold, 9, 9, NodeId(2));
    assert_eq!((hold, target), (None, NodeId(2)));
    assert_eq!(mouse_target(MouseAction::Drag, None, 1, 1, NodeId(5)), (None, NodeId(5)));
    assert_eq!(mouse_target(MouseAction::Other, Some((0, 0, NodeId(1))), 1, 1, NodeId(5)), (Some((0, 0, NodeId(1))), NodeId(5)));
}

#[test]
fn focus_changes_skip_the_common_parents() {
    let old = vec![NodeId(5), NodeId(3), NodeId(1)];
    let new = vec![NodeId(6), NodeId(4), NodeId(3), NodeId(1)];
    assert_eq!(common_parent_count(&old, &new), 2);
    assert_eq!(common_parent_count(&old, &old), 3);
    assert_eq!(common_parent_count(&vec![NodeId(2)], &vec![NodeId(3)]), 0);
    assert_eq!(common_parent_count(&vec![], &old), 0);
}

#[test]
fn event_phases_capture_down_then_bubble_up() {
    let mut steps = vec![];
    let mut phase = first_phase(3);
    while phase != Phase::Done {
        steps.push(phase);
        phase = next_phase(phase, 3, false);
    }
    assert_eq!(steps, vec![Phase::Capture(2), Phase::Capture(1), Phase::Target, Phase::Bubble(1), Phase::Bubble(2)]);
    assert_eq!(next_phase(Phase::Capture(2), 3, true), Phase::Done);
    assert_eq!(first_phase(1), Phase::Target);
    assert_eq!(next_phase(Phase::Target, 1, false), Phase::Done);
    assert_eq!(first_phase(0), Phase::Done);
}

#[test]
fn console_entries_as_text() {
    let text = Entry::Warn("careful\nnow".to_string()).as_text(None);
    assert_eq!(lines(&text), vec!["careful", "now"]);
}
