//! Tests of the bundled resources, output tracking, keymap rendering and
//! assorted helpers.

use std::collections::HashMap;

use squeekboard::CloneOwned;
use squeekboard::CountAndPrint;
use squeekboard::Handler;
use squeekboard::Level;
use squeekboard::LayoutId;
use squeekboard::Mode;
use squeekboard::OutputState;
use squeekboard::Outputs;
use squeekboard::Transform;
use squeekboard::Translation;
use squeekboard::Wrapped;
use squeekboard::check_builtin_layout;
use squeekboard::generate_keycodes;
use squeekboard::generate_keymap;
use squeekboard::get_current_layout;
use squeekboard::get_keyboard;
use squeekboard::get_layout_names;
use squeekboard::get_overlays;
use squeekboard::hash_map_map;
use squeekboard::parse_line;

#[test]
fn check_overlays_present() {
    for name in get_overlays() {
        assert!(get_keyboard(name).is_some());
    }
}

#[test]
fn mapping_line() {
    assert_eq!(
        Some(("name", Translation("translation"))),
        parse_line("name translation")
    );
}

#[test]
fn mapping_bad() {
    assert_eq!(None, parse_line("bad"));
}

#[test]
fn mapping_empty() {
    assert_eq!(None, parse_line(""));
}

#[test]
fn mapping_comment() {
    assert_eq!(None, parse_line("# comment"));
}

#[test]
fn mapping_comment_offset() {
    assert_eq!(None, parse_line("  # comment"));
}

#[test]
fn layout_names_lookup() {
    let names = get_layout_names("en-US").expect("bundled language");
    assert_eq!(names.get("us"), Some(&Translation("English (US)")));
    assert!(get_layout_names("xx-XX").is_none());
}

#[test]
fn builtin_layouts_build_cleanly() {
    assert!(check_builtin_layout("us"));
    assert!(check_builtin_layout("terminal"));
    assert!(check_builtin_layout("emoji"));
    assert!(!check_builtin_layout("nonexistent"));
}

/// The rendered keymap binds each name to its code, in table order.
#[test]
fn keymap_text_exact() {
    let table = generate_keycodes(&vec!["a".to_string(), "b".to_string(), "a".to_string()]);
    let text = generate_keymap(&table).expect("two names fit");
    let expected = "xkb_keymap {\n\nxkb_keycodes \"squeekboard\" {\n    minimum = 8;\n    maximum = 255;\n    <I9> = 9;\n    <I10> = 10;\n};\n\nxkb_symbols \"squeekboard\" {\n    name[Group1] = \"Letters\";\n    key <I9> { [ a ] };\n    key <I10> { [ b ] };\n};\n\nxkb_types \"squeekboard\" {\n};\n\nxkb_compatibility \"squeekboard\" {\n};\n\n};\n";
    assert_eq!(text.as_str(), expected);
}

#[test]
fn output_batches_commit_on_done() {
    let mut outputs = Outputs::new();
    let id = outputs.register();
    outputs.handle_geometry(id, 70, 140, 1);
    outputs.handle_mode(id, 0x1, 360, 720);
    outputs.handle_scale(id, 2);
    // Nothing visible before the batch boundary.
    assert_eq!(outputs.get_state(id).current_mode, None);
    let state = outputs.handle_done(id);
    assert_eq!(state.scale, 2);
    assert_eq!(outputs.get_state(id).current_mode, Some(Mode { width: 360, height: 720 }));
    // The transform swaps the axes of both sizes.
    let pixel = outputs.get_state(id).get_pixel_size().expect("mode and transform known");
    assert_eq!((pixel.width, pixel.height), (720, 360));
    let phys = outputs.get_state(id).get_phys_size().expect("size and transform known");
    assert_eq!((phys.width, phys.height), (140, 70));
}

#[test]
fn output_transform_decoding() {
    assert_eq!(Transform::from_u32(0), Some(Transform::Normal));
    assert_eq!(Transform::from_u32(7), Some(Transform::FlippedRotated270));
    assert_eq!(Transform::from_u32(8), None);
    let state = OutputState::uninitialized();
    assert_eq!(state.scale, 1);
    assert!(state.get_pixel_size().is_none());
}

#[test]
fn count_and_print_counts_problems() {
    let mut counter = CountAndPrint::new();
    counter.handle(Level::Warning, "one");
    counter.handle(Level::Info, "not a problem");
    counter.handle(Level::Bug, "two");
    assert_eq!(counter.0, 2);
}

#[test]
fn wrapped_shares_one_value() {
    let cell = std::rc::Rc::new(std::cell::RefCell::new(7u32));
    let wrapped = Wrapped::wrap(cell.clone());
    let another = wrapped.clone_ref();
    *another.borrow_mut() = 9;
    assert_eq!(wrapped.clone_owned(), 9);
    assert_eq!(*wrapped.unwrap().borrow(), 9);
}

#[test]
fn hash_map_map_rebuilds() {
    let mut map: HashMap<u32, u32> = HashMap::new();
    map.insert(1, 10);
    map.insert(2, 20);
    let out: HashMap<u64, u64> = hash_map_map(map, |k, v| ((k as u64) * 2, (v as u64) + 1));
    assert_eq!(out.get(&2), Some(&11));
    assert_eq!(out.get(&4), Some(&21));
    assert_eq!(out.len(), 2);
}

#[test]
fn current_layout_prefers_overlay() {
    let system = vec![LayoutId::System { kind: "xkb".into(), name: "de".into() }];
    let current = get_current_layout(Some("emoji".to_string()), &system);
    assert_eq!(current, Some(LayoutId::Local("emoji".into())));
    let current = get_current_layout(None, &system);
    match current {
        Some(LayoutId::System { kind, name }) => {
            assert_eq!(kind.as_str(), "xkb");
            assert_eq!(name.as_str(), "de");
        },
        other => panic!("unexpected layout {:?}", other),
    }
    assert_eq!(get_current_layout(None, &Vec::new()), None);
    assert_eq!(LayoutId::Local("emoji".to_string()).get_name(), "emoji");
}
