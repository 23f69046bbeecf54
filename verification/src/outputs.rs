//! Tracking display outputs: per-output state, double-buffered so that a
//! batch of property messages becomes visible only on its `done` signal.

use vstd::prelude::*;
use vstd::view::View as _;

verus! {

/// Mirror of the protocol's output transform values.
#[derive(Debug, Clone, Copy, PartialEq, Eq, Structural)]
pub enum Transform {
    Normal,
    Rotated90,
    Rotated180,
    Rotated270,
    Flipped,
    FlippedRotated90,
    FlippedRotated180,
    FlippedRotated270,
}

impl Transform {
    /// The transform a defined wire value decodes to, for `v <= 7`.
    pub open spec fn spec_from_u32(v: u32) -> Transform {
        if v == 0 {
            Transform::Normal
        } else if v == 1 {
            Transform::Rotated90
        } else if v == 2 {
            Transform::Rotated180
        } else if v == 3 {
            Transform::Rotated270
        } else if v == 4 {
            Transform::Flipped
        } else if v == 5 {
            Transform::FlippedRotated90
        } else if v == 6 {
            Transform::FlippedRotated180
        } else {
            Transform::FlippedRotated270
        }
    }

    /// Decodes a wire transform value; recognizes exactly the values the
    /// protocol defines.
    pub fn from_u32(v: u32) -> (r: Option<Transform>)
        ensures
            v <= 7 ==> r == Some(Transform::spec_from_u32(v)),
            v > 7 ==> r is None,
    {
        match v {
            0 => Some(Transform::Normal),
            1 => Some(Transform::Rotated90),
            2 => Some(Transform::Rotated180),
            3 => Some(Transform::Rotated270),
            4 => Some(Transform::Flipped),
            5 => Some(Transform::FlippedRotated90),
            6 => Some(Transform::FlippedRotated180),
            7 => Some(Transform::FlippedRotated270),
            _ => None,
        }
    }

    /// Whether this transform swaps the output's axes.
    pub open spec fn spec_swaps_axes(self) -> bool {
        match self {
            Transform::Normal | Transform::Rotated180 | Transform::Flipped
                | Transform::FlippedRotated180 => false,
            _ => true,
        }
    }
}

/// A size in pixels.
#[derive(Debug, Clone, Copy, PartialEq, Eq, Structural)]
pub struct Size {
    pub width: u32,
    pub height: u32,
}

/// A size in millimetres.
#[derive(Debug, Clone, Copy, PartialEq, Eq, Structural)]
pub struct SizeMM {
    pub width: i32,
    pub height: i32,
}

/// An output's pixel mode.
#[derive(Debug, Clone, Copy, PartialEq, Eq, Structural)]
pub struct Mode {
    pub width: i32,
    pub height: i32,
}

/// The observed properties of one output.
#[derive(Debug, Clone, Copy, PartialEq, Eq, Structural)]
pub struct OutputState {
    pub current_mode: Option<Mode>,
    pub phys_size: Option<SizeMM>,
    pub transform: Option<Transform>,
    pub scale: i32,
}

impl OutputState {
    /// The state of an output nothing has been heard about.
    pub fn uninitialized() -> (r: OutputState)
        ensures
            r == (OutputState {
                current_mode: None::<Mode>,
                phys_size: None::<SizeMM>,
                transform: None::<Transform>,
                scale: 1,
            }),
    {
        OutputState { current_mode: None, phys_size: None, transform: None, scale: 1 }
    }

    /// The transformed pixel size: the mode's size, with the axes swapped
    /// for the rotated transforms.  Known once both mode and transform
    /// are.  Negative mode values pass through the cast unchecked, as the
    /// wire allows them.
    pub fn get_pixel_size(&self) -> (r: Option<Size>)
        ensures
            match r {
                Some(size) => self.current_mode matches Some(m) && self.transform matches Some(t)
                    && size == (if t.spec_swaps_axes() {
                    Size { width: m.height as u32, height: m.width as u32 }
                } else {
                    Size { width: m.width as u32, height: m.height as u32 }
                }),
                None => self.current_mode is None || self.transform is None,
            },
    {
        match (&self.current_mode, &self.transform) {
            (Some(mode), Some(transform)) => {
                let swap = matches!(
                    transform,
                    Transform::Rotated90 | Transform::Rotated270 | Transform::FlippedRotated90
                        | Transform::FlippedRotated270
                );
                if swap {
                    Some(
                        Size {
                            width: #[verifier::truncate] (mode.height as u32),
                            height: #[verifier::truncate] (mode.width as u32),
                        },
                    )
                } else {
                    Some(
                        Size {
                            width: #[verifier::truncate] (mode.width as u32),
                            height: #[verifier::truncate] (mode.height as u32),
                        },
                    )
                }
            },
            _ => None,
        }
    }

    /// The transformed physical size, with the axes swapped for the
    /// rotated transforms.  Known once both physical size and transform
    /// are.
    pub fn get_phys_size(&self) -> (r: Option<Size>)
        ensures
            match r {
                Some(size) => self.phys_size matches Some(p) && self.transform matches Some(t)
                    && size == (if t.spec_swaps_axes() {
                    Size { width: p.height as u32, height: p.width as u32 }
                } else {
                    Size { width: p.width as u32, height: p.height as u32 }
                }),
                None => self.phys_size is None || self.transform is None,
            },
    {
        match (&self.phys_size, &self.transform) {
            (Some(phys), Some(transform)) => {
                let swap = matches!(
                    transform,
                    Transform::Rotated90 | Transform::Rotated270 | Transform::FlippedRotated90
                        | Transform::FlippedRotated270
                );
                if swap {
                    Some(
                        Size {
                            width: #[verifier::truncate] (phys.height as u32),
                            height: #[verifier::truncate] (phys.width as u32),
                        },
                    )
                } else {
                    Some(
                        Size {
                            width: #[verifier::truncate] (phys.width as u32),
                            height: #[verifier::truncate] (phys.height as u32),
                        },
                    )
                }
            },
            _ => None,
        }
    }
}

/// One tracked output: the batch being received, and the last state its
/// `done` signal committed.
#[derive(Debug, Clone, Copy, PartialEq, Eq, Structural)]
pub struct Output {
    pub pending: OutputState,
    pub current: OutputState,
}

/// Every bit of the protocol's mode flags.
pub const MODE_FLAG_CURRENT: u32 = 0x1;

pub const MODE_FLAG_PREFERRED: u32 = 0x2;

pub const MODE_FLAGS_ALL: u32 = 0x3;

/// The collection of tracked outputs.  The embedder registers each
/// output it hears about and routes that output's messages here by
/// index; it fires its own update notification after each `done`.
#[derive(Debug)]
pub struct Outputs {
    pub outputs: Vec<Output>,
}

impl Outputs {
    /// A collection with no outputs yet.
    pub fn new() -> (r: Outputs)
        ensures
            r.outputs@.len() == 0,
    {
        Outputs { outputs: Vec::new() }
    }

    /// Starts tracking one more output, returning its index.
    pub fn register(&mut self) -> (id: usize)
        ensures
            id == old(self).outputs@.len(),
            final(self).outputs@ == old(self).outputs@.push(
                Output {
                    pending: OutputState {
                        current_mode: None::<Mode>,
                        phys_size: None::<SizeMM>,
                        transform: None::<Transform>,
                        scale: 1,
                    },
                    current: OutputState {
                        current_mode: None::<Mode>,
                        phys_size: None::<SizeMM>,
                        transform: None::<Transform>,
                        scale: 1,
                    },
                },
            ),
    {
        let id = self.outputs.len();
        self.outputs.push(
            Output { pending: OutputState::uninitialized(), current: OutputState::uninitialized() },
        );
        id
    }

    /// A geometry message: the physical size, kept only when plausible,
    /// and the transform, with unrecognized values replaced by the
    /// documented default.  The returned flags say whether the transform
    /// was recognized and the size plausible, for the embedder's log.
    pub fn handle_geometry(&mut self, id: usize, phys_width: i32, phys_height: i32, transform: u32)
        -> (recognized: (bool, bool))
        requires
            id < old(self).outputs@.len(),
        ensures
            final(self).outputs@ == old(self).outputs@.update(
                id as int,
                (Output {
                    pending: OutputState {
                        transform: Some(
                            if transform <= 7 {
                                Transform::spec_from_u32(transform)
                            } else {
                                Transform::Normal
                            },
                        ),
                        phys_size: if phys_width > 0 && phys_height > 0 {
                            Some(SizeMM { width: phys_width, height: phys_height })
                        } else {
                            None
                        },
                        ..old(self).outputs@[id as int].pending
                    },
                    ..old(self).outputs@[id as int]
                }),
            ),
            recognized.0 == (transform <= 7),
            recognized.1 == (phys_width > 0 && phys_height > 0),
    {
        let (t, t_ok) = match Transform::from_u32(transform) {
            Some(t) => (t, true),
            None => (Transform::Normal, false),
        };
        let plausible = phys_width > 0 && phys_height > 0;
        self.outputs[id].pending.transform = Some(t);
        self.outputs[id].pending.phys_size = if plausible {
            Some(SizeMM { width: phys_width, height: phys_height })
        } else {
            None
        };
        proof {
            assert(self.outputs@ =~= old(self).outputs@.update(
                id as int,
                self.outputs@[id as int],
            ));
        }
        (t_ok, plausible)
    }

    /// A mode message: kept when flagged as the current mode.  The
    /// returned flag says whether only defined mode flags were set.
    pub fn handle_mode(&mut self, id: usize, flags: u32, width: i32, height: i32) -> (recognized:
        bool)
        requires
            id < old(self).outputs@.len(),
        ensures
            flags & MODE_FLAG_CURRENT != 0 ==> final(self).outputs@ == old(self).outputs@.update(
                id as int,
                (Output {
                    pending: OutputState {
                        current_mode: Some(Mode { width, height }),
                        ..old(self).outputs@[id as int].pending
                    },
                    ..old(self).outputs@[id as int]
                }),
            ),
            flags & MODE_FLAG_CURRENT == 0 ==> final(self).outputs@ == old(self).outputs@,
            recognized == (flags & !MODE_FLAGS_ALL == 0),
    {
        let recognized = flags & !MODE_FLAGS_ALL == 0;
        if flags & MODE_FLAG_CURRENT != 0 {
            self.outputs[id].pending.current_mode = Some(Mode { width, height });
            proof {
                assert(self.outputs@ =~= old(self).outputs@.update(
                    id as int,
                    self.outputs@[id as int],
                ));
            }
        } else {
            proof {
                assert(self.outputs@ =~= old(self).outputs@);
            }
        }
        recognized
    }

    /// A scale message.
    pub fn handle_scale(&mut self, id: usize, factor: i32)
        requires
            id < old(self).outputs@.len(),
        ensures
            final(self).outputs@ == old(self).outputs@.update(
                id as int,
                (Output {
                    pending: OutputState {
                        scale: factor,
                        ..old(self).outputs@[id as int].pending
                    },
                    ..old(self).outputs@[id as int]
                }),
            ),
    {
        self.outputs[id].pending.scale = factor;
        proof {
            assert(self.outputs@ =~= old(self).outputs@.update(
                id as int,
                self.outputs@[id as int],
            ));
        }
    }

    /// The batch boundary: the received batch becomes the output's
    /// committed state.  The embedder fires its update notification with
    /// the returned state.
    pub fn handle_done(&mut self, id: usize) -> (r: OutputState)
        requires
            id < old(self).outputs@.len(),
        ensures
            final(self).outputs@ == old(self).outputs@.update(
                id as int,
                (Output {
                    current: old(self).outputs@[id as int].pending,
                    ..old(self).outputs@[id as int]
                }),
            ),
            r == old(self).outputs@[id as int].pending,
    {
        let committed = self.outputs[id].pending;
        self.outputs[id].current = committed;
        proof {
            assert(self.outputs@ =~= old(self).outputs@.update(
                id as int,
                self.outputs@[id as int],
            ));
        }
        committed
    }

    /// The committed state of one output.
    pub fn get_state(&self, id: usize) -> (r: OutputState)
        requires
            id < self.outputs@.len(),
        ensures
            r == self.outputs@[id as int].current,
    {
        self.outputs[id].current
    }
}

} // verus!
