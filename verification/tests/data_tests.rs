//! Tests of the declarative document parser and the build pipeline.

use squeekboard::Action;
use squeekboard::ArrangementKind;
use squeekboard::ButtonMeta;
use squeekboard::DataSource;
use squeekboard::DocLayout;
use squeekboard::Error;
use squeekboard::FormattingError;
use squeekboard::KeySym;
use squeekboard::Label;
use squeekboard::SymbolSet;
use squeekboard::Warning;
use squeekboard::create_action;
use squeekboard::list_layout_sources;
use squeekboard::parse_milli;
use squeekboard::split_ws;
use squeekboard::FALLBACK_LAYOUT_NAME;

fn yaml_of(body: &str) -> DocLayout {
    DocLayout::parse(body).expect("document should parse")
}

const SIMPLE: &str = "bounds: { x: 0, y: 0, width: 0, height: 0 }\nviews:\n  base:\n    - \"test\"\nbuttons:\n  test:\n    label: \"test\"\noutlines:\n  default: { bounds: { x: 0, y: 0, width: 0, height: 0 } }\n";

#[test]
fn test_parse_path() {
    let doc = yaml_of(SIMPLE);
    assert_eq!(doc.bounds.x, 0);
    assert_eq!(doc.bounds.y, 0);
    assert_eq!(doc.bounds.width, 0);
    assert_eq!(doc.bounds.height, 0);
    assert_eq!(doc.views.len(), 1);
    assert_eq!(doc.views[0].0.as_str(), "base");
    assert_eq!(doc.views[0].1, vec!["test".to_string()]);
    assert_eq!(doc.buttons.len(), 1);
    assert_eq!(doc.buttons[0].0.as_str(), "test");
    assert_eq!(doc.buttons[0].1.label.as_deref(), Some("test"));
    assert!(doc.buttons[0].1.icon.is_none());
    assert!(doc.buttons[0].1.keysym.is_none());
    assert!(doc.buttons[0].1.action.is_none());
    assert!(doc.buttons[0].1.outline.is_none());
    assert_eq!(doc.outlines.len(), 1);
    assert_eq!(doc.outlines[0].0.as_str(), "default");
}

/// Check if the default protection works.
#[test]
fn test_empty_views() {
    let out = DocLayout::parse(
        "bounds: { x: 0, y: 0, width: 0, height: 0 }\noutlines:\n  default: { bounds: { x: 0, y: 0, width: 0, height: 0 } }\n",
    );
    match out {
        Ok(_) => panic!("Data mistakenly accepted"),
        Err(Error::Yaml(squeekboard::YamlError::MissingField(f))) => {
            assert_eq!(f.as_str(), "views");
        },
        Err(e) => panic!("Unexpected error {:?}", e),
    }
}

#[test]
fn test_extra_field() {
    let out = DocLayout::parse(
        "bounds: { x: 0, y: 0, width: 0, height: 0 }\nbad_field: \"rubbish\"\nviews:\n  base:\n    - \"test\"\noutlines:\n  default: { bounds: { x: 0, y: 0, width: 0, height: 0 } }\n",
    );
    match out {
        Ok(_) => panic!("Data mistakenly accepted"),
        Err(Error::Yaml(squeekboard::YamlError::UnknownField(f))) => {
            assert_eq!(f.as_str(), "bad_field");
        },
        Err(e) => panic!("Unexpected error {:?}", e),
    }
}

const KEY1: &str = "bounds: { x: 0, y: 0, width: 10, height: 4 }\nviews:\n  base:\n    - \".\"\nbuttons:\n  \".\":\n    label: \"test\"\noutlines:\n  default: { bounds: { x: 0, y: 0, width: 1, height: 1 } }\n";

#[test]
fn test_layout_punctuation() {
    let doc = yaml_of(KEY1);
    let (built, _warnings) = doc.build(&SymbolSet::empty());
    let data = built.expect("build should succeed");
    let layout = squeekboard::Layout::new(data, ArrangementKind::Base);
    let view = &layout.views[0].1;
    match &view.rows[0].buttons[0].label {
        Label::Text(t) => assert_eq!(t.as_str(), "test"),
        other => panic!("unexpected label {:?}", other),
    }
}

const KEY2: &str = "bounds: { x: 0, y: 0, width: 10, height: 4 }\nviews:\n  base:\n    - \"\u{00e9}\"\nbuttons:\n  \"\u{00e9}\":\n    label: \"test\"\noutlines:\n  default: { bounds: { x: 0, y: 0, width: 1, height: 1 } }\n";

#[test]
fn test_layout_unicode() {
    let doc = yaml_of(KEY2);
    let (built, _warnings) = doc.build(&SymbolSet::empty());
    let data = built.expect("build should succeed");
    let layout = squeekboard::Layout::new(data, ArrangementKind::Base);
    let view = &layout.views[0].1;
    match &view.rows[0].buttons[0].label {
        Label::Text(t) => assert_eq!(t.as_str(), "test"),
        other => panic!("unexpected label {:?}", other),
    }
}

/// Test multiple code points.
#[test]
fn test_layout_unicode_multi() {
    let doc = yaml_of(
        "bounds: { x: 0, y: 0, width: 10, height: 4 }\nviews:\n  base:\n    - \"ab\"\noutlines:\n  default: { bounds: { x: 0, y: 0, width: 1, height: 1 } }\n",
    );
    let (built, _warnings) = doc.build(&SymbolSet::empty());
    let data = built.expect("build should succeed");
    let state_index = data.views[0].1.rows[0].buttons[0].state;
    assert_eq!(data.key_states[state_index].keycodes.len(), 2);
}

#[test]
fn parsing_fallback() {
    let doc = DocLayout::from_resource(FALLBACK_LAYOUT_NAME).expect("missing fallback layout");
    let symbols = SymbolSet::from_names(vec!["space".to_string(), "Tab".to_string()]);
    let (built, warnings) = doc.build(&symbols);
    assert!(built.is_ok());
    assert_eq!(warnings.len(), 0);
}

/// First fallback should be to builtin, not to FALLBACK_LAYOUT_NAME.
#[test]
fn fallbacks_order() {
    let sources = list_layout_sources("nb", ArrangementKind::Base, None);

    assert_eq!(
        sources,
        vec![
            (ArrangementKind::Base, DataSource::Resource("nb".into())),
            (
                ArrangementKind::Base,
                DataSource::Resource(FALLBACK_LAYOUT_NAME.into())
            ),
        ]
    );
}

#[test]
fn test_key_unicode() {
    assert_eq!(
        create_action(
            &vec![(
                ".".to_string(),
                ButtonMeta {
                    icon: None,
                    keysym: None,
                    action: None,
                    label: Some("test".into()),
                    outline: None,
                }
            )],
            &".".to_string(),
            &Vec::new(),
            &SymbolSet::empty(),
        )
        .0,
        Action::Submit {
            text: None,
            keys: vec![KeySym("U002E".into())],
        }
    );
}

#[test]
fn wide_sources_precede_base() {
    let sources = list_layout_sources(
        "de",
        ArrangementKind::Wide,
        Some("/tmp/keyboards".to_string()),
    );
    assert_eq!(sources.len(), 8);
    assert_eq!(
        sources[0],
        (
            ArrangementKind::Wide,
            DataSource::File("/tmp/keyboards/de_wide.yaml".to_string())
        )
    );
    assert_eq!(
        sources[1],
        (ArrangementKind::Wide, DataSource::Resource("de_wide".into()))
    );
    assert_eq!(
        sources[2],
        (
            ArrangementKind::Base,
            DataSource::File("/tmp/keyboards/de.yaml".to_string())
        )
    );
    assert_eq!(
        sources[7],
        (ArrangementKind::Base, DataSource::Resource("us".into()))
    );
}

/// An unresolvable view reference still builds, resolving to the default
/// view, with a warning.
#[test]
fn missing_view_falls_back() {
    let doc = yaml_of(
        "bounds: { x: 0, y: 0, width: 10, height: 4 }\nviews:\n  base:\n    - \"switcher\"\nbuttons:\n  switcher:\n    action:\n      set_view: \"missing\"\noutlines:\n  default: { bounds: { x: 0, y: 0, width: 1, height: 1 } }\n",
    );
    let (built, warnings) = doc.build(&SymbolSet::empty());
    let data = built.expect("build should succeed despite the missing view");
    let state_index = data.views[0].1.rows[0].buttons[0].state;
    match &data.key_states[state_index].action {
        Action::SetLevel(target) => assert_eq!(target.as_str(), "base"),
        other => panic!("unexpected action {:?}", other),
    }
    assert!(warnings.len() > 0);
    match &warnings[0] {
        Warning::MissingView { button, view } => {
            assert_eq!(button.as_str(), "switcher");
            assert_eq!(view.as_str(), "missing");
        },
        other => panic!("unexpected warning {:?}", other),
    }
}

/// An unknown outline name warns and falls back to the default outline;
/// without a default outline a unit bound is used, with a second warning.
#[test]
fn outline_fallbacks_warn() {
    let doc = yaml_of(
        "bounds: { x: 0, y: 0, width: 10, height: 4 }\nviews:\n  base:\n    - \"a\"\nbuttons:\n  a:\n    outline: \"huge\"\noutlines:\n  default: { bounds: { x: 0, y: 0, width: 2, height: 1 } }\n",
    );
    let (built, warnings) = doc.build(&SymbolSet::empty());
    let data = built.expect("build should succeed despite the unknown outline");
    let button = &data.views[0].1.rows[0].buttons[0];
    assert_eq!(button.outline_name.as_str(), "default");
    assert_eq!(button.bounds.width, 2000);
    assert_eq!(warnings.len(), 1);
    match &warnings[0] {
        Warning::MissingOutline { button, outline } => {
            assert_eq!(button.as_str(), "a");
            assert_eq!(outline.as_str(), "huge");
        },
        other => panic!("unexpected warning {:?}", other),
    }

    let doc = yaml_of(
        "bounds: { x: 0, y: 0, width: 10, height: 4 }\nviews:\n  base:\n    - \"a\"\noutlines:\n  wide: { bounds: { x: 0, y: 0, width: 2, height: 1 } }\n",
    );
    let (built, warnings) = doc.build(&SymbolSet::empty());
    let data = built.expect("build should succeed despite the missing default outline");
    let button = &data.views[0].1.rows[0].buttons[0];
    // The fallback unit bound, in thousandths of a unit.
    assert_eq!(button.bounds.width, 1000);
    assert_eq!(button.bounds.height, 1000);
    assert_eq!(warnings.len(), 1);
    match &warnings[0] {
        Warning::NoDefaultOutline { button } => assert_eq!(button.as_str(), "a"),
        other => panic!("unexpected warning {:?}", other),
    }
}

/// A layout without the default view cannot build.
#[test]
fn missing_base_view_is_fatal() {
    let doc = yaml_of(
        "bounds: { x: 0, y: 0, width: 10, height: 4 }\nviews:\n  main:\n    - \"a\"\noutlines:\n  default: { bounds: { x: 0, y: 0, width: 1, height: 1 } }\n",
    );
    let (built, _warnings) = doc.build(&SymbolSet::empty());
    match built {
        Err(FormattingError::MissingBaseView) => {},
        other => panic!("unexpected outcome {:?}", other),
    }
}

/// A recognized whole id becomes a single-symbol submission.
#[test]
fn recognized_id_submits_itself() {
    let symbols = SymbolSet::from_names(vec!["space".to_string()]);
    let (action, warnings) = create_action(
        &Vec::new(),
        &"space".to_string(),
        &Vec::new(),
        &symbols,
    );
    assert_eq!(
        action,
        Action::Submit { text: None, keys: vec![KeySym("space".into())] }
    );
    assert_eq!(warnings.len(), 0);
}

/// An unrecognized explicit keysym warns and substitutes the placeholder.
#[test]
fn invalid_keysym_substituted() {
    let (action, warnings) = create_action(
        &vec![(
            "key".to_string(),
            ButtonMeta {
                action: None,
                outline: None,
                keysym: Some("NoSuchSym".into()),
                label: None,
                icon: None,
            },
        )],
        &"key".to_string(),
        &Vec::new(),
        &SymbolSet::empty(),
    );
    assert_eq!(
        action,
        Action::Submit { text: None, keys: vec![KeySym("space".into())] }
    );
    assert_eq!(warnings.len(), 1);
}

/// An id outside the basic plane still gets a full hexadecimal label.
#[test]
fn codepoint_label_wide() {
    let (action, _warnings) = create_action(
        &Vec::new(),
        &"\u{20ac}".to_string(),
        &Vec::new(),
        &SymbolSet::empty(),
    );
    assert_eq!(
        action,
        Action::Submit { text: None, keys: vec![KeySym("U20AC".into())] }
    );
}

#[test]
fn milli_parsing() {
    assert_eq!(parse_milli(&"52.67".to_string()), Some(52670));
    assert_eq!(parse_milli(&"-3".to_string()), Some(-3000));
    assert_eq!(parse_milli(&"0".to_string()), Some(0));
    assert_eq!(parse_milli(&"10.5".to_string()), Some(10500));
    assert_eq!(parse_milli(&"2.125".to_string()), Some(2125));
    assert_eq!(parse_milli(&"1e5".to_string()), None);
    assert_eq!(parse_milli(&".5".to_string()), None);
    assert_eq!(parse_milli(&"".to_string()), None);
}

#[test]
fn splitting_rows() {
    let toks = split_ws("a  bc\t d ");
    assert_eq!(
        toks,
        vec!["a".to_string(), "bc".to_string(), "d".to_string()]
    );
    assert_eq!(split_ws(""), Vec::<String>::new());
    assert_eq!(split_ws("   "), Vec::<String>::new());
}

/// A coordinate beyond the declared limit rejects the document.
#[test]
fn coordinate_out_of_range() {
    let out = DocLayout::parse(
        "bounds: { x: 2000000000, y: 0, width: 0, height: 0 }\nviews:\n  base:\n    - \"a\"\noutlines:\n  default: { bounds: { x: 0, y: 0, width: 1, height: 1 } }\n",
    );
    match out {
        Err(Error::Yaml(squeekboard::YamlError::OutOfRange(f))) => {
            assert_eq!(f.as_str(), "x");
        },
        other => panic!("unexpected outcome {:?}", other),
    }
}

/// Duplicate keys reject the document rather than silently overwriting.
#[test]
fn duplicate_view_rejected() {
    let out = DocLayout::parse(
        "bounds: { x: 0, y: 0, width: 0, height: 0 }\nviews:\n  base:\n    - \"a\"\n  base:\n    - \"b\"\noutlines:\n  default: { bounds: { x: 0, y: 0, width: 1, height: 1 } }\n",
    );
    assert!(out.is_err());
}

/// The keycode assignment is collision-free and gapless.
#[test]
fn keycodes_bijective() {
    let doc = yaml_of(
        "bounds: { x: 0, y: 0, width: 10, height: 4 }\nviews:\n  base:\n    - \"a b\"\n    - \"b c\"\noutlines:\n  default: { bounds: { x: 0, y: 0, width: 1, height: 1 } }\n",
    );
    let (built, _warnings) = doc.build(&SymbolSet::empty());
    let data = built.expect("build should succeed");
    let mut codes: Vec<u32> = data
        .key_states
        .iter()
        .flat_map(|s| s.keycodes.iter().copied())
        .collect();
    codes.sort();
    codes.dedup();
    assert_eq!(codes, vec![9, 10, 11]);
}
