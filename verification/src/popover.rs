//! The data side of the layout chooser: which layout the user sees and
//! may switch to.  Rendering the chooser belongs to the embedder.

use vstd::prelude::*;
use vstd::view::View as _;

verus! {

/// A list of string pairs, as the system settings carry input sources.
#[derive(Debug, Clone)]
pub struct ArrayPairString(pub Vec<(String, String)>);

/// A reference to what the user wants to see.
#[derive(Debug, Clone)]
pub enum LayoutId {
    /// Affects the layout in the system settings.
    System { kind: String, name: String },
    /// Only affects what this input method presents.
    Local(String),
}

impl LayoutId {
    /// Field-wise equality over the carried strings.
    pub open spec fn spec_eq(self, other: LayoutId) -> bool {
        match (self, other) {
            (
                LayoutId::System { kind: ka, name: na },
                LayoutId::System { kind: kb, name: nb },
            ) => ka@ == kb@ && na@ == nb@,
            (LayoutId::Local(a), LayoutId::Local(b)) => a@ == b@,
            _ => false,
        }
    }

    /// The layout's plain name, without its source.
    pub fn get_name(&self) -> (r: &str)
        ensures
            match self {
                LayoutId::System { kind, name } => r@ == name@,
                LayoutId::Local(name) => r@ == name@,
            },
    {
        match self {
            LayoutId::System { kind: _, name } => name.as_str(),
            LayoutId::Local(name) => name.as_str(),
        }
    }
}

impl PartialEq for LayoutId {
    fn eq(&self, other: &LayoutId) -> (r: bool) {
        match (self, other) {
            (
                LayoutId::System { kind: ka, name: na },
                LayoutId::System { kind: kb, name: nb },
            ) => ka.eq(kb) && na.eq(nb),
            (LayoutId::Local(a), LayoutId::Local(b)) => a.eq(b),
            _ => false,
        }
    }
}

impl vstd::std_specs::cmp::PartialEqSpecImpl for LayoutId {
    open spec fn obeys_eq_spec() -> bool {
        true
    }

    open spec fn eq_spec(&self, other: &LayoutId) -> bool {
        self.spec_eq(*other)
    }
}

/// What the user currently sees: first any overlay, then the first of
/// the system layouts.
pub fn get_current_layout(overlay: Option<String>, system_layouts: &Vec<LayoutId>) -> (r: Option<
    LayoutId,
>)
    ensures
        match overlay {
            Some(name) => r matches Some(l) && l.spec_eq(LayoutId::Local(name)),
            None => {
                if system_layouts@.len() == 0 {
                    r is None
                } else {
                    r matches Some(l) && l.spec_eq(system_layouts@[0])
                }
            },
        },
{
    match overlay {
        Some(name) => Some(LayoutId::Local(name)),
        None => {
            if system_layouts.len() == 0 {
                None
            } else {
                match &system_layouts[0] {
                    LayoutId::System { kind, name } => Some(
                        LayoutId::System { kind: kind.clone(), name: name.clone() },
                    ),
                    LayoutId::Local(name) => Some(LayoutId::Local(name.clone())),
                }
            }
        },
    }
}

} // verus!
