//! The vocabulary of things a key can do when activated.

use vstd::prelude::*;

verus! {

/// Name of a keysym, resolved to a numeric code at build time.
#[derive(Debug, Clone)]
pub struct KeySym(pub String);

/// Modifiers that alter submitted keypresses.
#[derive(Debug, Clone, PartialEq, Eq, Structural)]
pub enum Modifier {
    Control,
    Alt,
}

/// Action to perform on a key press and, in reverse, on release.
#[derive(Debug, Clone)]
pub enum Action {
    /// Switch to this view.
    SetLevel(String),
    /// Switch to a view and latch.
    LockLevel {
        lock: String,
        /// The view to return to when unlocked.
        unlock: String,
    },
    /// Set this modifier.
    SetModifier(Modifier),
    /// Submit some text.
    Submit {
        /// Text to submit with the input method.
        text: Option<String>,
        /// The key events this symbol submits when submitting text
        /// is not possible.
        keys: Vec<KeySym>,
    },
    /// Open the settings panel.
    ShowPreferences,
}

impl Action {
    /// The view this action switches to, if any: the lock target when the
    /// key is locked, the plain or unlock target otherwise.
    pub open spec fn spec_level_target(self, locked: bool) -> Option<Seq<char>> {
        match self {
            Action::SetLevel(name) => Some(name@),
            Action::LockLevel { lock, unlock } => Some(
                if locked {
                    lock@
                } else {
                    unlock@
                },
            ),
            _ => None,
        }
    }

    /// Returns the view this action switches to, given the key's lock
    /// state, if any.
    pub fn level_target(&self, locked: bool) -> (r: Option<String>)
        ensures
            match r {
                Some(t) => self.spec_level_target(locked) == Some(t@),
                None => self.spec_level_target(locked) is None,
            },
    {
        match self {
            Action::SetLevel(name) => Some(name.clone()),
            Action::LockLevel { lock, unlock } => Some(
                if locked {
                    lock.clone()
                } else {
                    unlock.clone()
                },
            ),
            _ => None,
        }
    }
}

impl KeySym {
    /// Equality over the carried name.
    pub open spec fn spec_eq(self, other: KeySym) -> bool {
        self.0@ == other.0@
    }
}

impl PartialEq for KeySym {
    fn eq(&self, other: &KeySym) -> (r: bool) {
        self.0.eq(&other.0)
    }
}

impl vstd::std_specs::cmp::PartialEqSpecImpl for KeySym {
    open spec fn obeys_eq_spec() -> bool {
        true
    }

    open spec fn eq_spec(&self, other: &KeySym) -> bool {
        self.spec_eq(*other)
    }
}

impl Action {
    /// Field-wise equality, with strings compared by contents.
    pub open spec fn spec_eq(self, other: Action) -> bool {
        match (self, other) {
            (Action::SetLevel(a), Action::SetLevel(b)) => a@ == b@,
            (
                Action::LockLevel { lock: la, unlock: ua },
                Action::LockLevel { lock: lb, unlock: ub },
            ) => la@ == lb@ && ua@ == ub@,
            (Action::SetModifier(a), Action::SetModifier(b)) => a == b,
            (
                Action::Submit { text: ta, keys: ka },
                Action::Submit { text: tb, keys: kb },
            ) => {
                &&& match (ta, tb) {
                    (None, None) => true,
                    (Some(x), Some(y)) => x@ == y@,
                    _ => false,
                }
                &&& ka@.len() == kb@.len()
                &&& forall|i: int| 0 <= i < ka@.len() ==> (#[trigger] ka@[i]).0@ == kb@[i].0@
            },
            (Action::ShowPreferences, Action::ShowPreferences) => true,
            _ => false,
        }
    }
}

impl PartialEq for Action {
    #[verifier::loop_isolation(false)]
    fn eq(&self, other: &Action) -> (r: bool) {
        match (self, other) {
            (Action::SetLevel(a), Action::SetLevel(b)) => a.eq(b),
            (
                Action::LockLevel { lock: la, unlock: ua },
                Action::LockLevel { lock: lb, unlock: ub },
            ) => la.eq(lb) && ua.eq(ub),
            (Action::SetModifier(a), Action::SetModifier(b)) => a == b,
            (
                Action::Submit { text: ta, keys: ka },
                Action::Submit { text: tb, keys: kb },
            ) => {
                let text_eq = match (ta, tb) {
                    (None, None) => true,
                    (Some(x), Some(y)) => x.eq(y),
                    _ => false,
                };
                if !text_eq {
                    return false;
                }
                if ka.len() != kb.len() {
                    return false;
                }
                let mut i: usize = 0;
                while i < ka.len()
                    invariant
                        i <= ka@.len(),
                        ka@.len() == kb@.len(),
                        forall|j: int| 0 <= j < i ==> (#[trigger] ka@[j]).0@ == kb@[j].0@,
                    decreases ka@.len() - i,
                {
                    if !ka[i].0.eq(&kb[i].0) {
                        proof {
                            assert((ka@[i as int]).0@ != kb@[i as int].0@);
                        }
                        return false;
                    }
                    i += 1;
                }
                true
            },
            (Action::ShowPreferences, Action::ShowPreferences) => true,
            _ => false,
        }
    }
}

impl vstd::std_specs::cmp::PartialEqSpecImpl for Action {
    open spec fn obeys_eq_spec() -> bool {
        true
    }

    open spec fn eq_spec(&self, other: &Action) -> bool {
        self.spec_eq(*other)
    }
}

} // verus!
