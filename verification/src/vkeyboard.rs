//! The stateless key-submission encoder: translating a key's resolved
//! keycodes and a press or release intent into outbound wire key events.

use vstd::prelude::*;

use crate::keyboard::KEYCODE_BOTTOM;
use crate::keyboard::Modifiers;
use crate::keyboard::PressType;

verus! {

/// A wire timestamp handed in by the embedder with each pointer event.
#[derive(Debug, Clone, Copy, PartialEq, Eq, Structural)]
pub struct Timestamp(pub u32);

/// The fixed offset subtracted from table keycodes before they go on the
/// wire: the mapping mechanism numbers codes from 8.
pub const KEYCODE_OFFSET: u32 = 8;

/// One outbound wire key event.
#[derive(Debug, Clone, Copy, PartialEq, Eq, Structural)]
pub struct KeyEvent {
    pub timestamp: u32,
    pub keycode: u32,
    pub state: PressType,
}

/// The wire event for one keycode.
pub open spec fn spec_event(code: u32, state: PressType, time: u32) -> KeyEvent {
    KeyEvent { timestamp: time, keycode: (code - KEYCODE_OFFSET) as u32, state }
}

/// The down-up pair emitted for every code of a multi-code key at press
/// time, in code order.
pub open spec fn spec_press_pairs(codes: Seq<u32>, time: u32) -> Seq<KeyEvent>
    decreases codes.len(),
{
    if codes.len() == 0 {
        Seq::empty()
    } else {
        spec_press_pairs(codes.drop_last(), time) + seq![
            spec_event(codes.last(), PressType::Pressed, time),
            spec_event(codes.last(), PressType::Released, time),
        ]
    }
}

/// What the encoder emits: exactly one mirroring event for a single-code
/// key; for a multi-code key, a full down-up pair per code at press time
/// and nothing at release time.
pub open spec fn spec_switch_events(codes: Seq<u32>, action: PressType, time: u32) -> Seq<
    KeyEvent,
> {
    if codes.len() == 1 {
        seq![spec_event(codes[0], action, time)]
    } else if action == PressType::Pressed {
        spec_press_pairs(codes, time)
    } else {
        Seq::empty()
    }
}

/// The outbound virtual-keyboard protocol endpoint.  The encoder itself is
/// stateless; the embedder forwards the returned events to the wire.
#[derive(Debug, Clone, Copy, PartialEq, Eq, Structural)]
pub struct VirtualKeyboard {}

impl VirtualKeyboard {
    /// Encodes the submission of `keycodes` with the given press or release
    /// intent into wire key events.
    pub fn switch(&self, keycodes: &Vec<u32>, action: PressType, timestamp: Timestamp) -> (r:
        Vec<KeyEvent>)
        requires
            forall|i: int| 0 <= i < keycodes@.len() ==> keycodes@[i] >= KEYCODE_BOTTOM,
        ensures
            r@ == spec_switch_events(keycodes@, action, timestamp.0),
    {
        let mut out: Vec<KeyEvent> = Vec::new();
        if keycodes.len() == 1 {
            out.push(
                KeyEvent {
                    timestamp: timestamp.0,
                    keycode: keycodes[0] - KEYCODE_OFFSET,
                    state: action,
                },
            );
            proof {
                assert(out@ =~= spec_switch_events(keycodes@, action, timestamp.0));
            }
        } else if matches!(action, PressType::Pressed) {
            let mut i: usize = 0;
            while i < keycodes.len()
                invariant
                    i <= keycodes@.len(),
                    forall|j: int| 0 <= j < keycodes@.len() ==> keycodes@[j] >= KEYCODE_BOTTOM,
                    out@ == spec_press_pairs(keycodes@.take(i as int), timestamp.0),
                decreases keycodes@.len() - i,
            {
                out.push(
                    KeyEvent {
                        timestamp: timestamp.0,
                        keycode: keycodes[i] - KEYCODE_OFFSET,
                        state: PressType::Pressed,
                    },
                );
                out.push(
                    KeyEvent {
                        timestamp: timestamp.0,
                        keycode: keycodes[i] - KEYCODE_OFFSET,
                        state: PressType::Released,
                    },
                );
                proof {
                    assert(keycodes@.take(i + 1).drop_last() =~= keycodes@.take(i as int));
                    assert(keycodes@.take(i + 1).last() == keycodes@[i as int]);
                    assert(out@ =~= spec_press_pairs(keycodes@.take(i + 1), timestamp.0));
                }
                i += 1;
            }
            proof {
                assert(keycodes@.take(keycodes@.len() as int) =~= keycodes@);
            }
        }
        out
    }

    /// Encodes a modifier-state change as the wire bitmask.
    pub fn set_modifiers_state(&self, modifiers: Modifiers) -> (r: u32)
        ensures
            r == modifiers.bits,
    {
        modifiers.bits
    }
}

} // verus!
