//! The input-method protocol bridge: a double-buffered snapshot of the
//! text-entry context, with commit and activation semantics.
//!
//! Incoming field updates accumulate in a pending state; nothing becomes
//! externally visible until a commit (`done`) message arrives.  Outbound
//! submissions are valid only while the committed state is active.

use vstd::prelude::*;

use vstd::string::StringExecFns;

verus! {

/// The bits of `content_hint` the protocol defines.
pub const CONTENT_HINT_NONE: u32 = 0x0;

pub const CONTENT_HINT_COMPLETION: u32 = 0x1;

pub const CONTENT_HINT_SPELLCHECK: u32 = 0x2;

pub const CONTENT_HINT_AUTO_CAPITALIZATION: u32 = 0x4;

pub const CONTENT_HINT_LOWERCASE: u32 = 0x8;

pub const CONTENT_HINT_UPPERCASE: u32 = 0x10;

pub const CONTENT_HINT_TITLECASE: u32 = 0x20;

pub const CONTENT_HINT_HIDDEN_TEXT: u32 = 0x40;

pub const CONTENT_HINT_SENSITIVE_DATA: u32 = 0x80;

pub const CONTENT_HINT_LATIN: u32 = 0x100;

pub const CONTENT_HINT_MULTILINE: u32 = 0x200;

/// Every hint bit the protocol defines.
pub const CONTENT_HINT_ALL: u32 = 0x3ff;

/// A set of `content_hint` bit flags received from the protocol peer.
#[derive(Debug, Clone, Copy, PartialEq, Eq, Structural)]
pub struct ContentHint {
    pub bits: u32,
}

impl ContentHint {
    /// Accepts a peer-supplied bitset exactly when it holds no undefined
    /// bits.
    pub fn from_bits(bits: u32) -> (r: Option<ContentHint>)
        ensures
            bits & !CONTENT_HINT_ALL == 0 ==> r == Some((ContentHint { bits })),
            bits & !CONTENT_HINT_ALL != 0 ==> r is None,
    {
        if bits & !CONTENT_HINT_ALL == 0 {
            Some(ContentHint { bits })
        } else {
            None
        }
    }
}

/// An unrecognized numeric value received from the protocol peer.
#[derive(Debug, Clone, Copy, PartialEq, Eq, Structural)]
pub struct UnrecognizedValue;

impl UnrecognizedValue {
    /// A printable description of the condition.
    pub fn message(&self) -> (r: &'static str) {
        "Unrecognized value"
    }
}

/// Mirror of the protocol's `content_purpose` values.
#[derive(Debug, Clone, Copy, PartialEq, Eq, Structural)]
pub enum ContentPurpose {
    Normal,
    Alpha,
    Digits,
    Number,
    Phone,
    Url,
    Email,
    Name,
    Password,
    Pin,
    Date,
    Time,
    Datetime,
    Terminal,
}

impl ContentPurpose {
    /// The numeric wire value of this purpose.
    pub open spec fn spec_to_u32(self) -> u32 {
        match self {
            ContentPurpose::Normal => 0,
            ContentPurpose::Alpha => 1,
            ContentPurpose::Digits => 2,
            ContentPurpose::Number => 3,
            ContentPurpose::Phone => 4,
            ContentPurpose::Url => 5,
            ContentPurpose::Email => 6,
            ContentPurpose::Name => 7,
            ContentPurpose::Password => 8,
            ContentPurpose::Pin => 9,
            ContentPurpose::Date => 10,
            ContentPurpose::Time => 11,
            ContentPurpose::Datetime => 12,
            ContentPurpose::Terminal => 13,
        }
    }

    /// Returns the numeric wire value of this purpose.
    pub fn to_u32(self) -> (r: u32)
        ensures
            r == self.spec_to_u32(),
    {
        match self {
            ContentPurpose::Normal => 0,
            ContentPurpose::Alpha => 1,
            ContentPurpose::Digits => 2,
            ContentPurpose::Number => 3,
            ContentPurpose::Phone => 4,
            ContentPurpose::Url => 5,
            ContentPurpose::Email => 6,
            ContentPurpose::Name => 7,
            ContentPurpose::Password => 8,
            ContentPurpose::Pin => 9,
            ContentPurpose::Date => 10,
            ContentPurpose::Time => 11,
            ContentPurpose::Datetime => 12,
            ContentPurpose::Terminal => 13,
        }
    }

    /// The purpose a defined wire value decodes to, for `num <= 13`.
    pub open spec fn spec_from_u32(num: u32) -> ContentPurpose {
        if num == 0 {
            ContentPurpose::Normal
        } else if num == 1 {
            ContentPurpose::Alpha
        } else if num == 2 {
            ContentPurpose::Digits
        } else if num == 3 {
            ContentPurpose::Number
        } else if num == 4 {
            ContentPurpose::Phone
        } else if num == 5 {
            ContentPurpose::Url
        } else if num == 6 {
            ContentPurpose::Email
        } else if num == 7 {
            ContentPurpose::Name
        } else if num == 8 {
            ContentPurpose::Password
        } else if num == 9 {
            ContentPurpose::Pin
        } else if num == 10 {
            ContentPurpose::Date
        } else if num == 11 {
            ContentPurpose::Time
        } else if num == 12 {
            ContentPurpose::Datetime
        } else {
            ContentPurpose::Terminal
        }
    }

    /// Decodes a peer-supplied purpose value; recognizes exactly the wire
    /// values the protocol defines.
    pub fn try_from(num: u32) -> (r: Result<ContentPurpose, UnrecognizedValue>)
        ensures
            match r {
                Ok(p) => num <= 13 && p == ContentPurpose::spec_from_u32(num)
                    && p.spec_to_u32() == num,
                Err(_) => num > 13,
            },
    {
        match num {
            0 => Ok(ContentPurpose::Normal),
            1 => Ok(ContentPurpose::Alpha),
            2 => Ok(ContentPurpose::Digits),
            3 => Ok(ContentPurpose::Number),
            4 => Ok(ContentPurpose::Phone),
            5 => Ok(ContentPurpose::Url),
            6 => Ok(ContentPurpose::Email),
            7 => Ok(ContentPurpose::Name),
            8 => Ok(ContentPurpose::Password),
            9 => Ok(ContentPurpose::Pin),
            10 => Ok(ContentPurpose::Date),
            11 => Ok(ContentPurpose::Time),
            12 => Ok(ContentPurpose::Datetime),
            13 => Ok(ContentPurpose::Terminal),
            _ => Err(UnrecognizedValue),
        }
    }
}

/// Mirror of the protocol's `change_cause` values.
#[derive(Debug, Clone, Copy, PartialEq, Eq, Structural)]
pub enum ChangeCause {
    InputMethod,
    Other,
}

impl ChangeCause {
    /// Decodes a peer-supplied cause value; recognizes exactly the wire
    /// values the protocol defines.
    pub fn try_from(num: u32) -> (r: Result<ChangeCause, UnrecognizedValue>)
        ensures
            num == 0 ==> r == Ok::<ChangeCause, UnrecognizedValue>(ChangeCause::InputMethod),
            num == 1 ==> r == Ok::<ChangeCause, UnrecognizedValue>(ChangeCause::Other),
            num > 1 ==> r == Err::<ChangeCause, UnrecognizedValue>(UnrecognizedValue),
    {
        match num {
            0 => Ok(ChangeCause::InputMethod),
            1 => Ok(ChangeCause::Other),
            _ => Err(UnrecognizedValue),
        }
    }
}

/// The state of the text-entry context as requested by the peer.
#[derive(Debug, Clone)]
pub struct IMProtocolState {
    pub surrounding_text: String,
    pub surrounding_cursor: u32,
    pub content_purpose: ContentPurpose,
    pub content_hint: ContentHint,
    pub text_change_cause: ChangeCause,
    pub active: bool,
}

impl IMProtocolState {
    /// The neutral state except for the `active` flag: empty surrounding
    /// text, no hints, normal purpose, input-method change cause.
    pub open spec fn spec_is_neutral_with(self, active: bool) -> bool {
        &&& self.surrounding_text@ == Seq::<char>::empty()
        &&& self.surrounding_cursor == 0
        &&& self.content_hint == (ContentHint { bits: CONTENT_HINT_NONE })
        &&& self.content_purpose == ContentPurpose::Normal
        &&& self.text_change_cause == ChangeCause::InputMethod
        &&& self.active == active
    }

    /// The neutral state: inactive, with every other field at its default.
    pub open spec fn spec_is_neutral(self) -> bool {
        self.spec_is_neutral_with(false)
    }
}

impl Default for IMProtocolState {
    /// Returns the neutral state.
    fn default() -> (r: IMProtocolState)
        ensures
            r.spec_is_neutral(),
    {
        IMProtocolState {
            surrounding_text: String::new(),
            surrounding_cursor: 0,
            content_hint: ContentHint { bits: CONTENT_HINT_NONE },
            content_purpose: ContentPurpose::Normal,
            text_change_cause: ChangeCause::InputMethod,
            active: false,
        }
    }
}

/// An outbound submission was attempted while the input method was not
/// active.
#[derive(Debug, Clone, Copy, PartialEq, Eq, Structural)]
pub enum SubmitError {
    /// The input method had not been activated.
    NotActive,
}

/// One outbound wire operation the embedder must perform.
#[derive(Debug, Clone)]
pub enum ImCommand {
    CommitString { text: String },
    DeleteSurroundingText { before: u32, after: u32 },
    Commit { serial: u32 },
}

/// The activation edge reported by a commit: the new `active` flag, and the
/// hint and purpose pair to push to the owning context.
#[derive(Debug, Clone, Copy, PartialEq, Eq, Structural)]
pub struct ActiveChange {
    pub active: bool,
    pub hint: ContentHint,
    pub purpose: ContentPurpose,
}

/// The double-buffered protocol bridge.  `pending` absorbs incoming field
/// updates; `current` is the last committed, externally visible state.
/// Outbound operations append wire commands to `outbox`, which the embedder
/// drains and performs.
#[derive(Debug)]
pub struct IMService {
    pub pending: IMProtocolState,
    pub current: IMProtocolState,
    pub preedit_string: String,
    pub serial: u32,
    pub outbox: Vec<ImCommand>,
}

impl IMService {
    /// Creates a bridge with both buffers in the neutral state.
    pub fn new() -> (r: IMService)
        ensures
            r.pending.spec_is_neutral(),
            r.current.spec_is_neutral(),
            r.preedit_string@ == Seq::<char>::empty(),
            r.serial == 0,
            r.outbox@.len() == 0,
    {
        IMService {
            pending: IMProtocolState::default(),
            current: IMProtocolState::default(),
            preedit_string: String::new(),
            serial: 0,
            outbox: Vec::new(),
        }
    }

    /// Whether the committed state is active.
    pub fn is_active(&self) -> (r: bool)
        ensures
            r == self.current.active,
    {
        self.current.active
    }

    /// The peer activated the input method: the pending state resets to the
    /// neutral state with `active` set, and the preedit is cleared.
    pub fn handle_input_method_activate(&mut self)
        ensures
            final(self).pending.spec_is_neutral_with(true),
            final(self).current == old(self).current,
            final(self).preedit_string@ == Seq::<char>::empty(),
            final(self).serial == old(self).serial,
            final(self).outbox == old(self).outbox,
    {
        self.preedit_string = String::new();
        self.pending = IMProtocolState { active: true, ..IMProtocolState::default() };
    }

    /// The peer deactivated the input method: only the pending `active`
    /// flag is cleared.
    pub fn handle_input_method_deactivate(&mut self)
        ensures
            final(self).pending == (IMProtocolState { active: false, ..old(self).pending }),
            final(self).current == old(self).current,
            final(self).preedit_string == old(self).preedit_string,
            final(self).serial == old(self).serial,
            final(self).outbox == old(self).outbox,
    {
        self.pending.active = false;
    }

    /// The peer reported the surrounding text and cursor.
    pub fn handle_surrounding_text(&mut self, text: String, cursor: u32)
        ensures
            final(self).pending == (IMProtocolState {
                surrounding_text: text,
                surrounding_cursor: cursor,
                ..old(self).pending
            }),
            final(self).current == old(self).current,
            final(self).preedit_string == old(self).preedit_string,
            final(self).serial == old(self).serial,
            final(self).outbox == old(self).outbox,
    {
        self.pending.surrounding_text = text;
        self.pending.surrounding_cursor = cursor;
    }

    /// The peer reported the content hint and purpose.  Unrecognized values
    /// are replaced by the documented defaults; the returned flags say
    /// which of the two values were recognized, so the embedder can log the
    /// others.
    pub fn handle_content_type(&mut self, hint: u32, purpose: u32) -> (recognized: (bool, bool))
        ensures
            final(self).pending == (IMProtocolState {
                content_hint: if hint & !CONTENT_HINT_ALL == 0 {
                    ContentHint { bits: hint }
                } else {
                    ContentHint { bits: CONTENT_HINT_NONE }
                },
                content_purpose: if purpose <= 13 {
                    ContentPurpose::spec_from_u32(purpose)
                } else {
                    ContentPurpose::Normal
                },
                ..old(self).pending
            }),
            recognized.0 == (hint & !CONTENT_HINT_ALL == 0),
            recognized.1 == (purpose <= 13),
            final(self).current == old(self).current,
            final(self).preedit_string == old(self).preedit_string,
            final(self).serial == old(self).serial,
            final(self).outbox == old(self).outbox,
    {
        let (h, hint_ok) = match ContentHint::from_bits(hint) {
            Some(h) => (h, true),
            None => (ContentHint { bits: CONTENT_HINT_NONE }, false),
        };
        let (p, purpose_ok) = match ContentPurpose::try_from(purpose) {
            Ok(p) => (p, true),
            Err(_) => (ContentPurpose::Normal, false),
        };
        self.pending.content_hint = h;
        self.pending.content_purpose = p;
        (hint_ok, purpose_ok)
    }

    /// The peer reported the cause of a text change.  An unrecognized value
    /// is replaced by the documented default; the returned flag says
    /// whether the value was recognized.
    pub fn handle_text_change_cause(&mut self, cause: u32) -> (recognized: bool)
        ensures
            final(self).pending == (IMProtocolState {
                text_change_cause: if cause == 0 {
                    ChangeCause::InputMethod
                } else if cause == 1 {
                    ChangeCause::Other
                } else {
                    ChangeCause::InputMethod
                },
                ..old(self).pending
            }),
            recognized == (cause <= 1),
            final(self).current == old(self).current,
            final(self).preedit_string == old(self).preedit_string,
            final(self).serial == old(self).serial,
            final(self).outbox == old(self).outbox,
    {
        let (c, ok) = match ChangeCause::try_from(cause) {
            Ok(c) => (c, true),
            Err(_) => (ChangeCause::InputMethod, false),
        };
        self.pending.text_change_cause = c;
        ok
    }

    /// The commit signal: the pending state becomes current atomically, and
    /// the pending buffer resets to defaults except that the just-committed
    /// `active` flag is carried forward.  Returns the activation edge, with
    /// the hint and purpose to push, exactly when the committed `active`
    /// flag changed.
    pub fn handle_done(&mut self) -> (r: Option<ActiveChange>)
        ensures
            final(self).current == old(self).pending,
            final(self).pending.spec_is_neutral_with(old(self).pending.active),
            r == spec_done_event(old(self).current, old(self).pending),
            final(self).preedit_string == old(self).preedit_string,
            final(self).serial == old(self).serial,
            final(self).outbox == old(self).outbox,
    {
        let active_changed = self.current.active != self.pending.active;
        let hint = self.pending.content_hint;
        let purpose = self.pending.content_purpose;
        let new_active = self.pending.active;

        let pending = core::mem::replace(
            &mut self.pending,
            IMProtocolState { active: new_active, ..IMProtocolState::default() },
        );
        self.current = pending;

        if active_changed {
            if new_active {
                Some(ActiveChange { active: true, hint, purpose })
            } else {
                Some(
                    ActiveChange {
                        active: false,
                        hint: ContentHint { bits: CONTENT_HINT_NONE },
                        purpose: ContentPurpose::Normal,
                    },
                )
            }
        } else {
            None
        }
    }

    /// The protocol became unavailable: the committed state is deactivated
    /// immediately, bypassing the buffers.  The returned flag is the new
    /// `active` value for the activation callback, always `false`.
    pub fn handle_unavailable(&mut self) -> (active: bool)
        ensures
            final(self).current == (IMProtocolState { active: false, ..old(self).current }),
            final(self).pending == old(self).pending,
            active == false,
            final(self).preedit_string == old(self).preedit_string,
            final(self).serial == old(self).serial,
            final(self).outbox == old(self).outbox,
    {
        self.current.active = false;
        false
    }

    /// Queues a commit-string operation.  Fails with the not-active
    /// condition, queueing nothing, exactly when the committed state is
    /// inactive.
    pub fn commit_string(&mut self, text: &String) -> (r: Result<(), SubmitError>)
        ensures
            old(self).current.active ==> r == Ok::<(), SubmitError>(()) && final(self).outbox@
                == old(self).outbox@.push((ImCommand::CommitString { text: *text }))
                && final(self).serial == old(self).serial,
            !old(self).current.active ==> r == Err::<(), SubmitError>(SubmitError::NotActive)
                && *final(self) == *old(self),
            final(self).current == old(self).current,
            final(self).pending == old(self).pending,
            final(self).preedit_string == old(self).preedit_string,
    {
        if self.current.active {
            self.outbox.push(ImCommand::CommitString { text: text.clone() });
            Ok(())
        } else {
            Err(SubmitError::NotActive)
        }
    }

    /// Queues a delete-surrounding-text operation.  Fails with the
    /// not-active condition, queueing nothing, exactly when the committed
    /// state is inactive.
    pub fn delete_surrounding_text(&mut self, before: u32, after: u32) -> (r: Result<
        (),
        SubmitError,
    >)
        ensures
            old(self).current.active ==> r == Ok::<(), SubmitError>(()) && final(self).outbox@
                == old(self).outbox@.push((ImCommand::DeleteSurroundingText { before, after }))
                && final(self).serial == old(self).serial,
            !old(self).current.active ==> r == Err::<(), SubmitError>(SubmitError::NotActive)
                && *final(self) == *old(self),
            final(self).current == old(self).current,
            final(self).pending == old(self).pending,
            final(self).preedit_string == old(self).preedit_string,
    {
        if self.current.active {
            self.outbox.push(ImCommand::DeleteSurroundingText { before, after });
            Ok(())
        } else {
            Err(SubmitError::NotActive)
        }
    }

    /// Queues a commit operation carrying the current serial, then
    /// increments the wraparound serial counter.  Fails with the not-active
    /// condition, queueing nothing, exactly when the committed state is
    /// inactive.
    pub fn commit(&mut self) -> (r: Result<(), SubmitError>)
        ensures
            old(self).current.active ==> r == Ok::<(), SubmitError>(()) && final(self).outbox@
                == old(self).outbox@.push((ImCommand::Commit { serial: old(self).serial }))
                && final(self).serial == (old(self).serial + 1) % 0x1_0000_0000,
            !old(self).current.active ==> r == Err::<(), SubmitError>(SubmitError::NotActive)
                && *final(self) == *old(self),
            final(self).current == old(self).current,
            final(self).pending == old(self).pending,
            final(self).preedit_string == old(self).preedit_string,
    {
        if self.current.active {
            self.outbox.push(ImCommand::Commit { serial: self.serial });
            self.serial = if self.serial == u32::MAX {
                0
            } else {
                self.serial + 1
            };
            Ok(())
        } else {
            Err(SubmitError::NotActive)
        }
    }

    /// Hands the queued wire operations to the embedder, leaving the queue
    /// empty.
    pub fn take_outbox(&mut self) -> (r: Vec<ImCommand>)
        ensures
            r == old(self).outbox,
            final(self).outbox@.len() == 0,
            final(self).current == old(self).current,
            final(self).pending == old(self).pending,
            final(self).preedit_string == old(self).preedit_string,
            final(self).serial == old(self).serial,
    {
        core::mem::replace(&mut self.outbox, Vec::new())
    }
}

/// The activation edge a commit reports: `Some` exactly when the committed
/// `active` flag changes, carrying the committed hint and purpose if now
/// active, the neutral defaults otherwise.
pub open spec fn spec_done_event(current: IMProtocolState, pending: IMProtocolState) -> Option<
    ActiveChange,
> {
    if current.active == pending.active {
        None
    } else if pending.active {
        Some(
            ActiveChange {
                active: true,
                hint: pending.content_hint,
                purpose: pending.content_purpose,
            },
        )
    } else {
        Some(
            ActiveChange {
                active: false,
                hint: ContentHint { bits: CONTENT_HINT_NONE },
                purpose: ContentPurpose::Normal,
            },
        )
    }
}

/// A commit publishes every pending field at once: after `content-type`
/// and `surrounding-text` updates followed by one `done`, the committed
/// state reflects both together; and a second `done` with no updates in
/// between leaves the committed `active` flag unchanged and reports no
/// activation edge.
pub proof fn lemma_done_commits_atomically(
    s0: IMService,
    s1: IMService,
    s2: IMService,
    s3: IMService,
    s4: IMService,
    hint: u32,
    purpose: u32,
    text: String,
    cursor: u32,
    r1: Option<ActiveChange>,
    r2: Option<ActiveChange>,
)
    requires
        hint & !CONTENT_HINT_ALL == 0,
        purpose <= 13,
        // content-type, then surrounding-text, each as the handlers leave them
        s1.pending == (IMProtocolState {
            content_hint: ContentHint { bits: hint },
            content_purpose: ContentPurpose::spec_from_u32(purpose),
            ..s0.pending
        }),
        s1.current == s0.current,
        s2.pending == (IMProtocolState {
            surrounding_text: text,
            surrounding_cursor: cursor,
            ..s1.pending
        }),
        s2.current == s1.current,
        // first done
        s3.current == s2.pending,
        s3.pending.spec_is_neutral_with(s2.pending.active),
        r1 == spec_done_event(s2.current, s2.pending),
        // second done, with no updates in between
        s4.current == s3.pending,
        r2 == spec_done_event(s3.current, s3.pending),
    ensures
        // the committed state reflects both updates together
        s3.current.content_hint == (ContentHint { bits: hint }),
        s3.current.content_purpose == ContentPurpose::spec_from_u32(purpose),
        s3.current.surrounding_text == text,
        s3.current.surrounding_cursor == cursor,
        // the second commit leaves `active` unchanged and reports no edge
        s4.current.active == s3.current.active,
        (r2 is None),
{
}

} // verus!
