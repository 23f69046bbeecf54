//! Tests of the input-method protocol bridge.

use squeekboard::ContentPurpose;
use squeekboard::IMService;
use squeekboard::ImCommand;
use squeekboard::SubmitError;

/// Field updates commit atomically on `done`, and a second `done` with no
/// updates neither changes `active` nor refires the activation edge.
#[test]
fn done_commits_atomically() {
    let mut im = IMService::new();
    im.handle_input_method_activate();
    im.handle_content_type(0x1, 6);
    im.handle_surrounding_text("hello".to_string(), 5);
    // Nothing is externally visible before the commit.
    assert!(!im.is_active());
    assert_eq!(im.current.surrounding_text.as_str(), "");

    let change = im.handle_done();
    let change = change.expect("activation changed, so the edge fires");
    assert!(change.active);
    assert_eq!(change.hint.bits, 0x1);
    assert_eq!(change.purpose, ContentPurpose::Email);
    assert!(im.is_active());
    assert_eq!(im.current.surrounding_text.as_str(), "hello");
    assert_eq!(im.current.surrounding_cursor, 5);
    assert_eq!(im.current.content_hint.bits, 0x1);
    assert_eq!(im.current.content_purpose, ContentPurpose::Email);

    // A second commit without updates: still active, no edge.
    let change = im.handle_done();
    assert!(change.is_none());
    assert!(im.is_active());
}

/// Outbound operations while inactive fail with the not-active condition
/// and produce no wire effect.
#[test]
fn submissions_require_activation() {
    let mut im = IMService::new();
    assert!(matches!(
        im.commit_string(&"x".to_string()),
        Err(SubmitError::NotActive)
    ));
    assert!(matches!(
        im.delete_surrounding_text(1, 0),
        Err(SubmitError::NotActive)
    ));
    assert!(matches!(im.commit(), Err(SubmitError::NotActive)));
    assert_eq!(im.take_outbox().len(), 0);
}

/// Successful submissions queue wire operations, and the serial counter
/// advances with each commit.
#[test]
fn submissions_reach_the_outbox() {
    let mut im = IMService::new();
    im.handle_input_method_activate();
    im.handle_done();
    assert!(im.is_active());

    im.commit_string(&"ab".to_string()).expect("active");
    im.delete_surrounding_text(1, 2).expect("active");
    im.commit().expect("active");
    im.commit().expect("active");

    let ops = im.take_outbox();
    assert_eq!(ops.len(), 4);
    match &ops[0] {
        ImCommand::CommitString { text } => assert_eq!(text.as_str(), "ab"),
        other => panic!("unexpected operation {:?}", other),
    }
    match &ops[1] {
        ImCommand::DeleteSurroundingText { before, after } => {
            assert_eq!(*before, 1);
            assert_eq!(*after, 2);
        },
        other => panic!("unexpected operation {:?}", other),
    }
    match (&ops[2], &ops[3]) {
        (ImCommand::Commit { serial: s1 }, ImCommand::Commit { serial: s2 }) => {
            assert_eq!(*s1, 0);
            assert_eq!(*s2, 1);
        },
        other => panic!("unexpected operations {:?}", other),
    }
    assert_eq!(im.take_outbox().len(), 0);
}

/// Unrecognized hint, purpose and cause values are replaced with the
/// documented defaults rather than rejected.
#[test]
fn unrecognized_values_recovered() {
    let mut im = IMService::new();
    let (hint_ok, purpose_ok) = im.handle_content_type(0xffff_ffff, 99);
    assert!(!hint_ok);
    assert!(!purpose_ok);
    let cause_ok = im.handle_text_change_cause(7);
    assert!(!cause_ok);
    im.handle_input_method_activate();
    im.handle_done();
    assert_eq!(im.current.content_hint.bits, 0);
    assert_eq!(im.current.content_purpose, ContentPurpose::Normal);
}

/// Deactivation carried by a commit fires the edge with neutral defaults.
#[test]
fn deactivation_edge() {
    let mut im = IMService::new();
    im.handle_input_method_activate();
    im.handle_done();
    im.handle_input_method_deactivate();
    let change = im.handle_done().expect("activation changed");
    assert!(!change.active);
    assert_eq!(change.hint.bits, 0);
    assert_eq!(change.purpose, ContentPurpose::Normal);
}

/// Unavailability deactivates immediately, bypassing the buffers.
#[test]
fn unavailable_deactivates() {
    let mut im = IMService::new();
    im.handle_input_method_activate();
    im.handle_done();
    assert!(im.is_active());
    let active = im.handle_unavailable();
    assert!(!active);
    assert!(!im.is_active());
}

#[test]
fn purpose_decoding() {
    assert_eq!(ContentPurpose::try_from(0), Ok(ContentPurpose::Normal));
    assert_eq!(ContentPurpose::try_from(13), Ok(ContentPurpose::Terminal));
    assert!(ContentPurpose::try_from(14).is_err());
    assert_eq!(ContentPurpose::Alpha.to_u32(), 1);
}
