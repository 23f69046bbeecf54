//! Tests of the runtime key and view state machine, placement, and the
//! submission encoder.

use squeekboard::ArrangementKind;
use squeekboard::Bounds;
use squeekboard::DocLayout;
use squeekboard::KeyEvent;
use squeekboard::Layout;
use squeekboard::Point;
use squeekboard::PressType;
use squeekboard::SymbolSet;
use squeekboard::Timestamp;
use squeekboard::VirtualKeyboard;
use squeekboard::find_key_paths;
use squeekboard::is_point_inside;

fn build_layout(text: &str) -> Layout {
    let doc = DocLayout::parse(text).expect("document should parse");
    let (built, _warnings) = doc.build(&SymbolSet::empty());
    let mut layout = Layout::new(built.expect("build should succeed"), ArrangementKind::Base);
    layout.place_contents();
    layout
}

/// Construction moves the compiled views in unchanged; placement is a
/// separate step that the owner runs before hit-testing.
#[test]
fn new_leaves_views_unplaced() {
    let doc = DocLayout::parse(TWO_KEYS).expect("document should parse");
    let (built, _warnings) = doc.build(&SymbolSet::empty());
    let layout = Layout::new(built.expect("build should succeed"), ArrangementKind::Base);
    assert!(layout.views[0].1.rows[0].bounds.is_none());
}

const LOCKING: &str = "bounds: { x: 0, y: 0, width: 10, height: 2 }\nviews:\n  base:\n    - \"a lock\"\n  b:\n    - \"a lock\"\nbuttons:\n  lock:\n    action:\n      locking: { lock_view: b, unlock_view: base }\noutlines:\n  default: { bounds: { x: 0, y: 0, width: 1, height: 1 } }\n";

/// Pressing and releasing a locking key toggles the view; an unrelated
/// key's release first reverts the view through the cascade.
#[test]
fn lock_level_toggles() {
    let mut layout = build_layout(LOCKING);
    let vk = VirtualKeyboard {};
    // Ids appear in first-appearance order: "a" then "lock".
    let a = layout.views[0].1.rows[0].buttons[0].state;
    let lock = layout.views[0].1.rows[0].buttons[1].state;
    assert_eq!(layout.current_view.as_str(), "base");

    layout.press_key(&vk, lock, Timestamp(1));
    layout.release_key(&vk, lock, Timestamp(2));
    assert_eq!(layout.current_view.as_str(), "b");
    assert!(layout.key_states[lock].locked);

    layout.press_key(&vk, lock, Timestamp(3));
    layout.release_key(&vk, lock, Timestamp(4));
    assert_eq!(layout.current_view.as_str(), "base");
    assert!(!layout.key_states[lock].locked);

    // Lock again, then press and release the unrelated key: the cascade
    // reverts to base before the key's own action applies.
    layout.press_key(&vk, lock, Timestamp(5));
    layout.release_key(&vk, lock, Timestamp(6));
    assert_eq!(layout.current_view.as_str(), "b");
    layout.press_key(&vk, a, Timestamp(7));
    layout.release_key(&vk, a, Timestamp(8));
    assert_eq!(layout.current_view.as_str(), "base");
    assert!(!layout.key_states[lock].locked);
}

/// A single-code key mirrors press and release on the wire; a multi-code
/// key sends every down-up pair at press time and nothing at release.
#[test]
fn encoder_policy() {
    let vk = VirtualKeyboard {};
    let single = vec![9u32];
    let down = vk.switch(&single, PressType::Pressed, Timestamp(7));
    assert_eq!(
        down,
        vec![KeyEvent { timestamp: 7, keycode: 1, state: PressType::Pressed }]
    );
    let up = vk.switch(&single, PressType::Released, Timestamp(8));
    assert_eq!(
        up,
        vec![KeyEvent { timestamp: 8, keycode: 1, state: PressType::Released }]
    );

    let multi = vec![9u32, 10u32];
    let down = vk.switch(&multi, PressType::Pressed, Timestamp(9));
    assert_eq!(
        down,
        vec![
            KeyEvent { timestamp: 9, keycode: 1, state: PressType::Pressed },
            KeyEvent { timestamp: 9, keycode: 1, state: PressType::Released },
            KeyEvent { timestamp: 9, keycode: 2, state: PressType::Pressed },
            KeyEvent { timestamp: 9, keycode: 2, state: PressType::Released },
        ]
    );
    let up = vk.switch(&multi, PressType::Released, Timestamp(10));
    assert_eq!(up, Vec::<KeyEvent>::new());
}

const TWO_KEYS: &str = "bounds: { x: 0, y: 0, width: 2, height: 1 }\nviews:\n  base:\n    - \"a b\"\noutlines:\n  default: { bounds: { x: 0, y: 0, width: 1, height: 1 } }\n";

/// A touch presses the key under the point; a drag to another button
/// releases the first and presses the second; a drag into the void
/// releases everything.
#[test]
fn depress_and_drag() {
    let mut layout = build_layout(TWO_KEYS);
    let vk = VirtualKeyboard {};
    let a = layout.views[0].1.rows[0].buttons[0].state;
    let b = layout.views[0].1.rows[0].buttons[1].state;

    // Coordinates are in thousandths of a unit.
    let outcome = layout.depress(&vk, Point { x: 100, y: 100 }, Timestamp(1));
    let outcome = outcome.expect("the first button covers the point");
    assert_eq!(outcome.key, a);
    assert_eq!(layout.key_states[a].pressed, PressType::Pressed);

    let outcome = layout.drag(&vk, Point { x: 1500, y: 500 }, Timestamp(2));
    assert_eq!(outcome.pressed, Some((0, 1, b)));
    assert_eq!(layout.key_states[a].pressed, PressType::Released);
    assert_eq!(layout.key_states[b].pressed, PressType::Pressed);

    let outcome = layout.drag(&vk, Point { x: 9000, y: 9000 }, Timestamp(3));
    assert_eq!(outcome.pressed, None);
    assert_eq!(layout.key_states[a].pressed, PressType::Released);
    assert_eq!(layout.key_states[b].pressed, PressType::Released);
}

/// Rows are centered horizontally within the view's fixed width, stacked
/// from the view's y origin; buttons line up from the left edge.
#[test]
fn placement_centers_rows() {
    let layout = build_layout(TWO_KEYS);
    let view = &layout.views[0].1;
    // Two unit-wide buttons in a view two units wide: no slack.
    assert_eq!(
        view.rows[0].bounds,
        Some(Bounds { x: 0, y: 0, width: 2000, height: 1000 })
    );
    assert_eq!(view.rows[0].buttons[0].bounds.x, 0);
    assert_eq!(view.rows[0].buttons[1].bounds.x, 1000);
}

/// Checks whether the paths point to the same shared key state.
#[test]
fn view_has_button() {
    let layout = build_layout(TWO_KEYS);
    let view = &layout.views[0].1;
    let a = view.rows[0].buttons[0].state;
    assert_eq!(find_key_paths(view, a), vec![(0usize, 0usize)]);
    let other = a + 17;
    assert_eq!(find_key_paths(view, other), Vec::<(usize, usize)>::new());
}

#[test]
fn point_inside_rotations() {
    let bounds = Bounds { x: 0, y: 0, width: 1000, height: 500 };
    let origin = Point { x: 0, y: 0 };
    assert!(is_point_inside(bounds, Point { x: 500, y: 100 }, origin, 0));
    assert!(!is_point_inside(bounds, Point { x: 1000, y: 100 }, origin, 0));
    assert!(!is_point_inside(bounds, Point { x: 500, y: 100 }, origin, 45));
    // Rotated a right angle, the point lands transposed.
    assert!(is_point_inside(bounds, Point { x: -100, y: 500 }, origin, 90));
}

/// Switching to a view that does not exist is refused and changes
/// nothing.
#[test]
fn set_view_unknown() {
    let mut layout = build_layout(TWO_KEYS);
    assert!(layout.set_view("nowhere".to_string()).is_err());
    assert_eq!(layout.current_view.as_str(), "base");
    assert!(layout.set_view("base".to_string()).is_ok());
}

/// Releasing everything at once clears every pressed key.
#[test]
fn release_all_clears() {
    let mut layout = build_layout(TWO_KEYS);
    let vk = VirtualKeyboard {};
    let a = layout.views[0].1.rows[0].buttons[0].state;
    let b = layout.views[0].1.rows[0].buttons[1].state;
    layout.press_key(&vk, a, Timestamp(1));
    layout.press_key(&vk, b, Timestamp(2));
    let events = layout.release_all(&vk, Timestamp(3));
    assert_eq!(events.len(), 2);
    assert_eq!(layout.get_pressed_keys(), Vec::<usize>::new());
}
