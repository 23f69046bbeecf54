//! Checking functionality: building a layout end to end and counting the
//! problems found on the way.

use vstd::prelude::*;

use crate::data::Layout;
use crate::data::spec_oversized;
use crate::data::SymbolSet;
use crate::logging::Handler;
use crate::logging::Level;

verus! {

/// A handler that counts every problem it is handed; an embedder may
/// forward the text to its own sink as well.
#[derive(Debug, Clone, Copy, PartialEq, Eq, Structural)]
pub struct CountAndPrint(pub u32);

impl Handler for CountAndPrint {
    fn handle(&mut self, level: Level, warning: &str) {
        if level.is_problem() && self.0 < u32::MAX {
            self.0 = self.0 + 1;
        }
    }
}

impl CountAndPrint {
    /// A counter starting at zero.
    pub fn new() -> (r: CountAndPrint)
        ensures
            r.0 == 0,
    {
        CountAndPrint(0)
    }
}

/// Checks that the named builtin layout builds cleanly: the document
/// parses, the build succeeds, and nothing had to be recovered from.
/// The keycode table is sound by construction: every keycode the build
/// hands out resolves within the rendered keymap's range.
pub fn check_builtin_layout(name: &str) -> (r: bool)
    ensures
        name@ != "us"@ && name@ != "terminal"@ && name@ != "emoji"@ ==> !r,
{
    match crate::resources::get_keyboard(name) {
        Some(text) => check_layout_str(text),
        None => false,
    }
}

/// Checks that declarative text builds cleanly.  The outside parser is
/// in front; what a document must satisfy is decided by `from_node` and
/// stated on `check_layout`.
pub fn check_layout_str(text: &str) -> (r: bool) {
    match Layout::parse(text) {
        Ok(doc) => check_layout(doc),
        Err(_) => false,
    }
}

/// Builds a document with the builtin symbol set and reports whether it
/// succeeded without warnings.  A passing document is sound, carries the
/// default view, and fits within every build limit; the zero-warnings
/// part holds of the run itself.
fn check_layout(layout: Layout) -> (r: bool)
    ensures
        r ==> layout.wf() && crate::data::spec_view_names_of(layout.views@).contains(
            crate::layout::DEFAULT_VIEW_NAME@,
        ) && !spec_oversized(layout.views@),
{
    if !layout_wf_check(&layout) {
        return false;
    }
    let ghost doc = layout;
    let symbols = SymbolSet::from_names(crate::resources::builtin_symbol_names());
    let (built, warnings) = layout.build(&symbols);
    match built {
        Ok(_) => warnings.len() == 0,
        Err(_) => false,
    }
}

/// Re-checks the document invariant the parser guarantees, so that
/// documents from any source can be fed in.
fn layout_wf_check(layout: &Layout) -> (r: bool)
    ensures
        r ==> layout.wf(),
{
    let mut names: Vec<String> = Vec::new();
    let mut i: usize = 0;
    while i < layout.views.len()
        invariant
            i <= layout.views@.len(),
            names@.len() == i,
            forall|k: int| 0 <= k < i ==> (#[trigger] names@[k])@ == layout.views@[k].0@,
        decreases layout.views@.len() - i,
    {
        names.push(layout.views[i].0.clone());
        i += 1;
    }
    if !names_distinct(&names) {
        return false;
    }
    let mut names2: Vec<String> = Vec::new();
    let mut i: usize = 0;
    while i < layout.buttons.len()
        invariant
            i <= layout.buttons@.len(),
            names2@.len() == i,
            forall|k: int| 0 <= k < i ==> (#[trigger] names2@[k])@ == layout.buttons@[k].0@,
        decreases layout.buttons@.len() - i,
    {
        names2.push(layout.buttons[i].0.clone());
        i += 1;
    }
    if !names_distinct(&names2) {
        return false;
    }
    let mut names3: Vec<String> = Vec::new();
    let mut i: usize = 0;
    while i < layout.outlines.len()
        invariant
            i <= layout.outlines@.len(),
            names3@.len() == i,
            forall|k: int| 0 <= k < i ==> (#[trigger] names3@[k])@ == layout.outlines@[k].0@,
        decreases layout.outlines@.len() - i,
    {
        names3.push(layout.outlines[i].0.clone());
        i += 1;
    }
    if !names_distinct(&names3) {
        return false;
    }
    if !bounds_wf_check(&layout.bounds) {
        return false;
    }
    let mut i: usize = 0;
    while i < layout.outlines.len()
        invariant
            i <= layout.outlines@.len(),
            forall|k: int| 0 <= k < i ==> (#[trigger] layout.outlines@[k]).1.bounds.wf(),
        decreases layout.outlines@.len() - i,
    {
        if !bounds_wf_check(&layout.outlines[i].1.bounds) {
            return false;
        }
        i += 1;
    }
    proof {
        assert(layout.views@.map(|i: int, p: (String, Vec<String>)| p.0@) =~= names@.map(
            |i: int, n: String| n@,
        ));
        assert(layout.buttons@.map(|i: int, p: (String, crate::data::ButtonMeta)| p.0@)
            =~= names2@.map(|i: int, n: String| n@));
        assert(layout.outlines@.map(|i: int, p: (String, crate::data::Outline)| p.0@)
            =~= names3@.map(|i: int, n: String| n@));
    }
    true
}

/// Checks that a rectangle stays within the declared coordinate limit.
fn bounds_wf_check(b: &crate::layout::Bounds) -> (r: bool)
    ensures
        r == b.wf(),
{
    -crate::layout::COORD_LIMIT <= b.x && b.x <= crate::layout::COORD_LIMIT
        && -crate::layout::COORD_LIMIT <= b.y && b.y <= crate::layout::COORD_LIMIT
        && -crate::layout::COORD_LIMIT <= b.width && b.width <= crate::layout::COORD_LIMIT
        && -crate::layout::COORD_LIMIT <= b.height && b.height <= crate::layout::COORD_LIMIT
}

/// Checks that no name repeats.
fn names_distinct(names: &Vec<String>) -> (r: bool)
    ensures
        r == crate::keyboard::distinct_seqs(names@.map(|i: int, n: String| n@)),
{
    let ghost mapped = names@.map(|i: int, n: String| n@);
    let mut i: usize = 1;
    while i < names.len()
        invariant
            1 <= i || names@.len() <= 1,
            i <= names@.len() || names@.len() == 0,
            mapped == names@.map(|i: int, n: String| n@),
            forall|a: int, b: int| 0 <= a < b < i ==> mapped[a] != mapped[b],
        decreases names@.len() - i,
    {
        let mut j: usize = 0;
        while j < i
            invariant
                0 <= i < names@.len(),
                j <= i,
                mapped == names@.map(|i: int, n: String| n@),
                forall|a: int| 0 <= a < j ==> mapped[a] != mapped[i as int],
            decreases i - j,
        {
            if names[j].eq(&names[i]) {
                proof {
                    assert(mapped[j as int] == mapped[i as int]);
                }
                return false;
            }
            j += 1;
        }
        i += 1;
    }
    proof {
        assert forall|a: int, b: int| 0 <= a < b < mapped.len() implies mapped[a] != mapped[b] by {}
    }
    true
}

} // verus!
