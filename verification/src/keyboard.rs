//! Key state records and the global keysym-to-keycode table.
//!
//! Every distinct keysym used by any `Submit` action in a layout is assigned
//! a unique, reproducible numeric code, and the whole table is rendered as a
//! textual keymap for the platform's keyboard-mapping mechanism.

use vstd::prelude::*;
use vstd::string::StringExecFns;

use crate::action::Action;

verus! {

/// Whether a key is currently held down.
#[derive(Debug, Clone, Copy, PartialEq, Eq, Structural)]
pub enum PressType {
    Released,
    Pressed,
}

impl PressType {
    /// The wire encoding of the press state.
    pub open spec fn spec_code(self) -> u32 {
        match self {
            PressType::Released => 0,
            PressType::Pressed => 1,
        }
    }

    /// Returns the wire encoding of the press state.
    pub fn code(self) -> (r: u32)
        ensures
            r == self.spec_code(),
    {
        match self {
            PressType::Released => 0,
            PressType::Pressed => 1,
        }
    }
}

/// A set of keyboard modifiers, as a wire bitmask.
#[derive(Debug, Clone, Copy, PartialEq, Eq, Structural)]
pub struct Modifiers {
    pub bits: u32,
}

/// The runtime state of one logical key.  Several buttons may refer to the
/// same record; the keycode list and action never change after build.
#[derive(Debug, Clone)]
pub struct KeyState {
    pub pressed: PressType,
    pub locked: bool,
    pub keycodes: Vec<u32>,
    pub action: Action,
}

/// The lowest keycode the table assigns.  Keycodes below 8 are reserved by
/// the keymap format, and the wire encoding subtracts a fixed offset of 8.
pub const KEYCODE_BOTTOM: u32 = 9;

/// The largest keycode the textual keymap format can bind.
pub const KEYCODE_MAX: u32 = 255;

/// True when no two elements of `s` are equal.
pub open spec fn distinct_seqs(s: Seq<Seq<char>>) -> bool {
    forall|i: int, j: int| 0 <= i < j < s.len() ==> s[i] != s[j]
}

/// The subsequence of `s` keeping only the first occurrence of each element.
pub open spec fn dedup_first(s: Seq<Seq<char>>) -> Seq<Seq<char>>
    decreases s.len(),
{
    if s.len() == 0 {
        Seq::empty()
    } else {
        let rest = dedup_first(s.drop_last());
        if rest.contains(s.last()) {
            rest
        } else {
            rest.push(s.last())
        }
    }
}

pub proof fn lemma_dedup_first_distinct(s: Seq<Seq<char>>)
    ensures
        distinct_seqs(dedup_first(s)),
        forall|x: Seq<char>| dedup_first(s).contains(x) <==> s.contains(x),
    decreases s.len(),
{
    if s.len() == 0 {
        assert forall|x: Seq<char>| dedup_first(s).contains(x) <==> s.contains(x) by {
            if s.contains(x) {
                let i = choose|i: int| 0 <= i < s.len() && s[i] == x;
            }
        }
    } else {
        lemma_dedup_first_distinct(s.drop_last());
        let rest = dedup_first(s.drop_last());
        assert forall|x: Seq<char>| dedup_first(s).contains(x) <==> s.contains(x) by {
            if dedup_first(s).contains(x) {
                if rest.contains(x) {
                    assert(s.drop_last().contains(x));
                    let i = choose|i: int| 0 <= i < s.drop_last().len() && s.drop_last()[i] == x;
                    assert(s[i] == x);
                } else {
                    assert(x == s.last());
                    assert(s[s.len() - 1] == x);
                }
            }
            if s.contains(x) {
                let i = choose|i: int| 0 <= i < s.len() && s[i] == x;
                if i < s.len() - 1 {
                    assert(s.drop_last()[i] == x);
                    assert(s.drop_last().contains(x));
                    assert(rest.contains(x));
                    if !rest.contains(s.last()) {
                        assert(dedup_first(s) == rest.push(s.last()));
                        let j = choose|j: int| 0 <= j < rest.len() && rest[j] == x;
                        assert(rest.push(s.last())[j] == x);
                    }
                } else {
                    if rest.contains(s.last()) {
                        assert(dedup_first(s).contains(x));
                    } else {
                        assert(dedup_first(s)[rest.len() as int] == s.last());
                        assert(dedup_first(s).contains(x));
                    }
                }
            }
        }
        if !rest.contains(s.last()) {
            assert forall|i: int, j: int|
                0 <= i < j < dedup_first(s).len() implies dedup_first(s)[i] != dedup_first(
                s,
            )[j] by {
                if j < rest.len() {
                } else {
                    assert(dedup_first(s)[j] == s.last());
                    assert(rest[i] == dedup_first(s)[i]);
                    assert(rest.contains(rest[i]));
                }
            }
        }
    }
}

/// The global table assigning a numeric code to every keysym name.
/// The code of `names[i]` is `KEYCODE_BOTTOM + i`, so distinct names map to
/// distinct, contiguous codes: no collisions and no gaps.
#[derive(Debug, Clone)]
pub struct KeycodeTable {
    pub names: Vec<String>,
}

impl KeycodeTable {
    /// Well-formed: no name appears twice.
    pub open spec fn wf(self) -> bool {
        distinct_seqs(self.names@.map(|i: int, n: String| n@))
    }

    /// The set of names the table binds.
    pub open spec fn spec_contains(self, name: Seq<char>) -> bool {
        self.names@.map(|i: int, n: String| n@).contains(name)
    }

    /// The code bound to the name at position `i`.
    pub open spec fn spec_code_at(self, i: int) -> u32 {
        (KEYCODE_BOTTOM + i) as u32
    }

    /// How many names the table binds.
    pub open spec fn spec_len(self) -> nat {
        self.names@.len()
    }

    /// Looks a name up, returning its code.  Returns `Some` exactly for the
    /// names the table binds.
    pub fn get(&self, name: &String) -> (r: Option<u32>)
        requires
            self.names@.len() + KEYCODE_BOTTOM <= KEYCODE_MAX + 1,
        ensures
            match r {
                Some(c) => exists|i: int|
                    0 <= i < self.names@.len() && self.names@[i]@ == name@ && c
                        == self.spec_code_at(i),
                None => !self.spec_contains(name@),
            },
    {
        let ghost mapped = self.names@.map(|i: int, n: String| n@);
        let mut i: usize = 0;
        while i < self.names.len()
            invariant
                i <= self.names@.len(),
                self.names@.len() + KEYCODE_BOTTOM <= KEYCODE_MAX + 1,
                mapped == self.names@.map(|i: int, n: String| n@),
                forall|j: int| 0 <= j < i ==> self.names@[j]@ != name@,
            decreases self.names@.len() - i,
        {
            if self.names[i].eq(name) {
                proof {
                    assert(self.names@[i as int]@ == name@ && KEYCODE_BOTTOM + i as u32
                        == self.spec_code_at(i as int));
                }
                return Some(KEYCODE_BOTTOM + i as u32);
            }
            i += 1;
        }
        proof {
            assert forall|j: int| 0 <= j < mapped.len() implies mapped[j] != name@ by {
                assert(mapped[j] == self.names@[j]@);
            }
        }
        None
    }
}

/// The build cannot produce a usable layout: a fatal condition of the
/// document or of rendering the keycode table as keymap text.
#[derive(Debug, Clone, Copy, PartialEq, Eq, Structural)]
pub enum FormattingError {
    /// The table binds more codes than the textual format can express.
    TooManyKeysyms,
    /// No view carries the default view name, which unresolved view
    /// references fall back to and the runtime starts at.
    MissingBaseView,
    /// A view holds more rows, or a row more button ids, than a layout
    /// can carry.
    OversizedView,
}

/// The decimal digit `d` as a character, for `d < 10`.
pub open spec fn digit_char(d: nat) -> char {
    if d == 0 {
        '0'
    } else if d == 1 {
        '1'
    } else if d == 2 {
        '2'
    } else if d == 3 {
        '3'
    } else if d == 4 {
        '4'
    } else if d == 5 {
        '5'
    } else if d == 6 {
        '6'
    } else if d == 7 {
        '7'
    } else if d == 8 {
        '8'
    } else {
        '9'
    }
}

/// The decimal rendering of `n`, most significant digit first.
pub open spec fn dec_str_of(n: nat) -> Seq<char>
    decreases n,
{
    if n < 10 {
        seq![digit_char(n)]
    } else {
        dec_str_of(n / 10).push(digit_char(n % 10))
    }
}

/// Returns the single decimal digit `d` as a string slice.
pub fn digit_str(d: u32) -> (r: &'static str)
    requires
        d < 10,
    ensures
        r@ == seq![digit_char(d as nat)],
{
    proof {
        reveal_strlit("0");
        reveal_strlit("1");
        reveal_strlit("2");
        reveal_strlit("3");
        reveal_strlit("4");
        reveal_strlit("5");
        reveal_strlit("6");
        reveal_strlit("7");
        reveal_strlit("8");
        reveal_strlit("9");
    }
    match d {
        0 => "0",
        1 => "1",
        2 => "2",
        3 => "3",
        4 => "4",
        5 => "5",
        6 => "6",
        7 => "7",
        8 => "8",
        _ => "9",
    }
}

/// Renders `n` in decimal.
fn dec_string(n: u32) -> (s: String)
    ensures
        s@ == dec_str_of(n as nat),
    decreases n,
{
    if n < 10 {
        digit_str(n).to_owned()
    } else {
        let mut s = dec_string(n / 10);
        s.append(digit_str(n % 10));
        proof {
            assert(n / 10 < n) by (nonlinear_arith)
                requires
                    n >= 10,
            ;
        }
        s
    }
}

/// One binding line of the keycodes section.
pub open spec fn keycode_line(code: nat) -> Seq<char> {
    "    <I"@ + dec_str_of(code) + "> = "@ + dec_str_of(code) + ";\n"@
}

/// The keycodes section lines for the first `n` table entries.
pub open spec fn keycode_lines(n: nat) -> Seq<char>
    decreases n,
{
    if n == 0 {
        Seq::empty()
    } else {
        keycode_lines((n - 1) as nat) + keycode_line((KEYCODE_BOTTOM as nat + n - 1) as nat)
    }
}

/// One binding line of the symbols section.
pub open spec fn symbol_line(name: Seq<char>, code: nat) -> Seq<char> {
    "    key <I"@ + dec_str_of(code) + "> { [ "@ + name + " ] };\n"@
}

/// The symbols section lines for the first `n` table entries.
pub open spec fn symbol_lines(names: Seq<Seq<char>>, n: nat) -> Seq<char>
    decreases n,
{
    if n == 0 {
        Seq::empty()
    } else {
        symbol_lines(names, (n - 1) as nat) + symbol_line(
            names[n - 1],
            (KEYCODE_BOTTOM as nat + n - 1) as nat,
        )
    }
}

/// The complete keymap text binding each name of the table to its code.
pub open spec fn keymap_text(names: Seq<Seq<char>>) -> Seq<char> {
    "xkb_keymap {\n\nxkb_keycodes \"squeekboard\" {\n    minimum = 8;\n    maximum = 255;\n"@
        + keycode_lines(names.len())
        + "};\n\nxkb_symbols \"squeekboard\" {\n    name[Group1] = \"Letters\";\n"@
        + symbol_lines(names, names.len())
        + "};\n\nxkb_types \"squeekboard\" {\n};\n\nxkb_compatibility \"squeekboard\" {\n};\n\n};\n"@
}

/// Renders the table as keymap text.  Fails exactly when the table binds
/// more codes than the format's maximum allows.
pub fn generate_keymap(table: &KeycodeTable) -> (r: Result<String, FormattingError>)
    ensures
        match r {
            Ok(s) => table.spec_len() + KEYCODE_BOTTOM <= KEYCODE_MAX + 1 && s@ == keymap_text(
                table.names@.map(|i: int, n: String| n@),
            ),
            Err(e) => table.spec_len() + KEYCODE_BOTTOM > KEYCODE_MAX + 1 && e
                == FormattingError::TooManyKeysyms,
        },
{
    let ghost names = table.names@.map(|i: int, n: String| n@);
    if table.names.len() > (KEYCODE_MAX - KEYCODE_BOTTOM) as usize + 1 {
        return Err(FormattingError::TooManyKeysyms);
    }
    let mut s = String::new();
    s.append(
        "xkb_keymap {\n\nxkb_keycodes \"squeekboard\" {\n    minimum = 8;\n    maximum = 255;\n",
    );
    let mut i: usize = 0;
    while i < table.names.len()
        invariant
            i <= table.names@.len(),
            table.names@.len() + KEYCODE_BOTTOM <= KEYCODE_MAX + 1,
            s@ == "xkb_keymap {\n\nxkb_keycodes \"squeekboard\" {\n    minimum = 8;\n    maximum = 255;\n"@
                + keycode_lines(i as nat),
        decreases table.names@.len() - i,
    {
        let code = KEYCODE_BOTTOM + i as u32;
        let code_text = dec_string(code);
        s.append("    <I");
        s.append(code_text.as_str());
        s.append("> = ");
        s.append(code_text.as_str());
        s.append(";\n");
        i += 1;
    }
    s.append("};\n\nxkb_symbols \"squeekboard\" {\n    name[Group1] = \"Letters\";\n");
    let ghost mid = s@;
    let mut i: usize = 0;
    while i < table.names.len()
        invariant
            i <= table.names@.len(),
            table.names@.len() + KEYCODE_BOTTOM <= KEYCODE_MAX + 1,
            names == table.names@.map(|i: int, n: String| n@),
            s@ == mid + symbol_lines(names, i as nat),
        decreases table.names@.len() - i,
    {
        let code = KEYCODE_BOTTOM + i as u32;
        let code_text = dec_string(code);
        s.append("    key <I");
        s.append(code_text.as_str());
        s.append("> { [ ");
        s.append(table.names[i].as_str());
        s.append(" ] };\n");
        proof {
            assert(table.names@[i as int]@ == names[i as int]);
        }
        i += 1;
    }
    s.append("};\n\nxkb_types \"squeekboard\" {\n};\n\nxkb_compatibility \"squeekboard\" {\n};\n\n};\n");
    proof {
        assert(s@ =~= keymap_text(names));
    }
    Ok(s)
}

/// Collects every distinct name of `names`, in order of first appearance,
/// into a keycode table.  First appearance order makes the assignment
/// reproducible for a given layout document.
pub fn generate_keycodes(names: &Vec<String>) -> (t: KeycodeTable)
    ensures
        t.wf(),
        t.names@.map(|i: int, n: String| n@) == dedup_first(
            names@.map(|i: int, n: String| n@),
        ),
        forall|x: Seq<char>|
            t.spec_contains(x) <==> names@.map(|i: int, n: String| n@).contains(x),
{
    let ghost all = names@.map(|i: int, n: String| n@);
    let mut out: Vec<String> = Vec::new();
    let mut i: usize = 0;
    while i < names.len()
        invariant
            i <= names@.len(),
            all == names@.map(|i: int, n: String| n@),
            out@.map(|i: int, n: String| n@) == dedup_first(all.take(i as int)),
        decreases names@.len() - i,
    {
        let ghost prefix = all.take(i as int);
        let mut found = false;
        let mut j: usize = 0;
        while j < out.len() && !found
            invariant
                j <= out@.len(),
                i < names@.len(),
                found ==> out@.map(|i: int, n: String| n@).contains(names@[i as int]@),
                !found ==> forall|k: int| 0 <= k < j ==> out@[k]@ != names@[i as int]@,
            decreases out@.len() - j,
        {
            if out[j].eq(&names[i]) {
                found = true;
                proof {
                    assert(out@.map(|i: int, n: String| n@)[j as int] == names@[i as int]@);
                }
            }
            j += 1;
        }
        proof {
            assert(all.take(i + 1).drop_last() =~= prefix);
            assert(all.take(i + 1).last() == all[i as int]);
            assert(all[i as int] == names@[i as int]@);
            if !found {
                let mapped_out = out@.map(|i: int, n: String| n@);
                assert forall|k: int| 0 <= k < mapped_out.len() implies #[trigger] mapped_out[k]
                    != names@[i as int]@ by {
                    assert(mapped_out[k] == out@[k]@);
                }
            }
        }
        if !found {
            let ghost old_out = out@;
            out.push(names[i].clone());
            proof {
                assert(out@.map(|i: int, n: String| n@) =~= old_out.map(|i: int, n: String| n@)
                    .push(names@[i as int]@));
            }
        } else {
            proof {
                assert(out@.map(|i: int, n: String| n@) =~= dedup_first(all.take(i + 1)));
            }
        }
        i += 1;
    }
    proof {
        assert(all.take(names@.len() as int) =~= all);
        lemma_dedup_first_distinct(all);
    }
    KeycodeTable { names: out }
}

} // verus!
