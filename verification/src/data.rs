//! The declarative layout documents: their format, checking, and the
//! build pipeline that turns them into a compiled key and keycode model.

use vstd::prelude::*;
use vstd::view::View as _;

use vstd::string::StrSliceExecFns;
use vstd::string::StringExecFns;

use crate::keyboard::dedup_first;
use crate::keyboard::distinct_seqs;
use crate::keyboard::FormattingError;
use crate::keyboard::KEYCODE_BOTTOM;
use crate::keyboard::KEYCODE_MAX;
use crate::layout::ArrangementKind;
use crate::layout::Bounds;
use crate::layout::COORD_LIMIT;
use crate::layout::spec_names_of;
use crate::layout::DEFAULT_VIEW_NAME;
use crate::layout::MAX_BUTTONS_PER_ROW;
use crate::layout::MAX_ROWS_PER_VIEW;
use crate::yaml::Node;
use crate::yaml::YamlError;

verus! {

/// The layout tried when every candidate for the wanted layout fails.
pub const FALLBACK_LAYOUT_NAME: &'static str = "us";

/// Where a declarative layout may come from: a file in an overridable
/// directory, or a bundled resource.
#[derive(Debug, Clone)]
pub enum DataSource {
    File(String),
    Resource(String),
}

impl DataSource {
    /// Field-wise equality over the carried path or name.
    pub open spec fn spec_eq(self, other: DataSource) -> bool {
        match (self, other) {
            (DataSource::File(a), DataSource::File(b)) => a@ == b@,
            (DataSource::Resource(a), DataSource::Resource(b)) => a@ == b@,
            _ => false,
        }
    }
}

impl PartialEq for DataSource {
    fn eq(&self, other: &DataSource) -> (r: bool) {
        match (self, other) {
            (DataSource::File(a), DataSource::File(b)) => a.eq(b),
            (DataSource::Resource(a), DataSource::Resource(b)) => a.eq(b),
            _ => false,
        }
    }
}

impl vstd::std_specs::cmp::PartialEqSpecImpl for DataSource {
    open spec fn obeys_eq_spec() -> bool {
        true
    }

    open spec fn eq_spec(&self, other: &DataSource) -> bool {
        self.spec_eq(*other)
    }
}

/// Errors loading a declarative document from a source.
#[derive(Debug)]
pub enum Error {
    /// The document text is not a valid layout description.
    Yaml(YamlError),
    /// Reading the source failed.
    Io(String),
    /// The file was missing.  Distinct from `Io` so that a missing
    /// candidate can be told apart without inspecting the message.
    Missing(String),
}

/// Errors building a usable layout from a candidate source.
#[derive(Debug)]
pub enum LoadError {
    BadData(Error),
    MissingResource,
    BadResource(YamlError),
    BadKeyMap(FormattingError),
}

/// A warning recovered from while building: the build goes on with a
/// documented fallback.
#[derive(Debug, Clone)]
pub enum Warning {
    /// An action referred to a view that does not exist; the default view
    /// name was used instead.
    MissingView { button: String, view: String },
    /// An explicit keysym name is not recognized; a placeholder symbol was
    /// used instead.
    InvalidKeysym { button: String, keysym: String },
    /// A button id with no Unicode scalar values; a placeholder symbol was
    /// used instead.
    EmptyButtonId { button: String },
    /// A button named an outline that does not exist; the default outline
    /// was used instead.
    MissingOutline { button: String, outline: String },
    /// No default outline exists; a unit-size bound was used instead.
    NoDefaultOutline { button: String },
}

/// The set of keysym names the platform's symbol data recognizes.  The
/// embedder supplies it; the builder only ever asks for membership.
#[derive(Debug, Clone)]
pub struct SymbolSet {
    pub names: Vec<String>,
}

impl SymbolSet {
    /// Whether a name is recognized.
    pub open spec fn spec_contains(self, name: Seq<char>) -> bool {
        exists|i: int| 0 <= i < self.names@.len() && (#[trigger] self.names@[i])@ == name
    }

    /// A set recognizing nothing.
    pub fn empty() -> (r: SymbolSet)
        ensures
            r.names@.len() == 0,
    {
        SymbolSet { names: Vec::new() }
    }

    /// A set recognizing exactly the given names.
    pub fn from_names(names: Vec<String>) -> (r: SymbolSet)
        ensures
            r.names == names,
    {
        SymbolSet { names }
    }

    /// Asks whether `name` is recognized.
    pub fn contains(&self, name: &String) -> (r: bool)
        ensures
            r == self.spec_contains(name@),
    {
        let mut i: usize = 0;
        while i < self.names.len()
            invariant
                i <= self.names@.len(),
                forall|j: int| 0 <= j < i ==> (#[trigger] self.names@[j])@ != name@,
            decreases self.names@.len() - i,
        {
            if self.names[i].eq(name) {
                return true;
            }
            i += 1;
        }
        false
    }
}

/// One candidate entry: a file of the given name under the overridable
/// directory.
pub open spec fn spec_file_source(
    e: (ArrangementKind, DataSource),
    kind: ArrangementKind,
    dir: Seq<char>,
    n: Seq<char>,
) -> bool {
    e.0 == kind && (e.1 matches DataSource::File(p) && p@ == dir + "/"@ + n + ".yaml"@)
}

/// One candidate entry: a bundled resource of the given name.
pub open spec fn spec_resource_source(
    e: (ArrangementKind, DataSource),
    kind: ArrangementKind,
    n: Seq<char>,
) -> bool {
    e.0 == kind && (e.1 matches DataSource::Resource(m) && m@ == n)
}

/// Lists candidate sources, most preferred first: the arrangement-specific
/// file then resource, the base-arrangement file then resource, and the
/// same again for the fallback layout name.  A wide arrangement falls
/// back to the base arrangement of the same name before another language;
/// file candidates appear exactly when an overridable directory is set.
pub fn list_layout_sources(name: &str, kind: ArrangementKind, keyboards_path: Option<String>)
    -> (r: Vec<(ArrangementKind, DataSource)>)
    ensures
        ({
            let s = r@;
            let wide_name = name@ + "_wide"@;
            let fb = FALLBACK_LAYOUT_NAME@;
            let fb_wide = FALLBACK_LAYOUT_NAME@ + "_wide"@;
            match (kind, keyboards_path) {
                (ArrangementKind::Base, None) => {
                    &&& s.len() == 2
                    &&& spec_resource_source(s[0], ArrangementKind::Base, name@)
                    &&& spec_resource_source(s[1], ArrangementKind::Base, fb)
                },
                (ArrangementKind::Base, Some(dir)) => {
                    &&& s.len() == 4
                    &&& spec_file_source(s[0], ArrangementKind::Base, dir@, name@)
                    &&& spec_resource_source(s[1], ArrangementKind::Base, name@)
                    &&& spec_file_source(s[2], ArrangementKind::Base, dir@, fb)
                    &&& spec_resource_source(s[3], ArrangementKind::Base, fb)
                },
                (ArrangementKind::Wide, None) => {
                    &&& s.len() == 4
                    &&& spec_resource_source(s[0], ArrangementKind::Wide, wide_name)
                    &&& spec_resource_source(s[1], ArrangementKind::Base, name@)
                    &&& spec_resource_source(s[2], ArrangementKind::Wide, fb_wide)
                    &&& spec_resource_source(s[3], ArrangementKind::Base, fb)
                },
                (ArrangementKind::Wide, Some(dir)) => {
                    &&& s.len() == 8
                    &&& spec_file_source(s[0], ArrangementKind::Wide, dir@, wide_name)
                    &&& spec_resource_source(s[1], ArrangementKind::Wide, wide_name)
                    &&& spec_file_source(s[2], ArrangementKind::Base, dir@, name@)
                    &&& spec_resource_source(s[3], ArrangementKind::Base, name@)
                    &&& spec_file_source(s[4], ArrangementKind::Wide, dir@, fb_wide)
                    &&& spec_resource_source(s[5], ArrangementKind::Wide, fb_wide)
                    &&& spec_file_source(s[6], ArrangementKind::Base, dir@, fb)
                    &&& spec_resource_source(s[7], ArrangementKind::Base, fb)
                },
            }
        }),
{
    let mut ret: Vec<(ArrangementKind, DataSource)> = Vec::new();
    let wide = matches!(kind, ArrangementKind::Wide);

    if wide {
        let wide_name = name.to_owned().concat("_wide");
        push_source_pair(&mut ret, &keyboards_path, &wide_name, ArrangementKind::Wide);
    }
    let base_name = name.to_owned();
    push_source_pair(&mut ret, &keyboards_path, &base_name, ArrangementKind::Base);
    if wide {
        let fallback_wide = FALLBACK_LAYOUT_NAME.to_owned().concat("_wide");
        push_source_pair(&mut ret, &keyboards_path, &fallback_wide, ArrangementKind::Wide);
    }
    let fallback = FALLBACK_LAYOUT_NAME.to_owned();
    push_source_pair(&mut ret, &keyboards_path, &fallback, ArrangementKind::Base);
    ret
}

/// Adds the candidates for one layout name: the file under the overridable
/// directory, if one is set, then the bundled resource.
fn push_source_pair(
    ret: &mut Vec<(ArrangementKind, DataSource)>,
    keyboards_path: &Option<String>,
    name: &String,
    kind: ArrangementKind,
)
    ensures
        ({
            let n0 = old(ret)@.len() as int;
            let r = final(ret)@;
            &&& (forall|i: int| 0 <= i < n0 ==> r[i] == old(ret)@[i])
            &&& match keyboards_path {
                Some(path) => {
                    &&& r.len() == n0 + 2
                    &&& r[n0].0 == kind
                    &&& (r[n0].1 matches DataSource::File(p) && p@ == path@ + "/"@ + name@
                        + ".yaml"@)
                    &&& r[n0 + 1].0 == kind
                    &&& (r[n0 + 1].1 matches DataSource::Resource(n) && n@ == name@)
                },
                None => {
                    &&& r.len() == n0 + 1
                    &&& r[n0].0 == kind
                    &&& (r[n0].1 matches DataSource::Resource(n) && n@ == name@)
                },
            }
        }),
{
    match keyboards_path {
        Some(path) => {
            let mut file = path.clone();
            file.append("/");
            file.append(name.as_str());
            file.append(".yaml");
            ret.push((kind, DataSource::File(file)));
        },
        None => {},
    }
    ret.push((kind, DataSource::Resource(name.clone())));
}

// --- Decimal coordinates, in thousandths ---
/// Whether a character is a decimal digit.
pub open spec fn spec_is_digit(c: char) -> bool {
    48 <= c as u32 <= 57
}

/// The value of a decimal digit character.
pub open spec fn spec_digit_val(c: char) -> int {
    c as u32 - 48
}

/// Whether the sequence is one or more decimal digits.
pub open spec fn spec_is_digits(s: Seq<char>) -> bool {
    s.len() >= 1 && forall|i: int| 0 <= i < s.len() ==> spec_is_digit(#[trigger] s[i])
}

/// The value of a decimal digit string, most significant digit first.
pub open spec fn spec_dec_val(s: Seq<char>) -> int
    decreases s.len(),
{
    if s.len() == 0 {
        0
    } else {
        spec_dec_val(s.drop_last()) * 10 + spec_digit_val(s.last())
    }
}

/// The first position of a dot at or after `i`, or the length.
pub open spec fn spec_find_dot(s: Seq<char>, i: int) -> int
    decreases s.len() - i,
{
    if i < 0 || i >= s.len() {
        s.len() as int
    } else if s[i] == '.' {
        i
    } else {
        spec_find_dot(s, i + 1)
    }
}

/// The value, in thousandths, of a fractional digit string: the first
/// three digits count, the rest are cut off.
pub open spec fn spec_frac_milli(s: Seq<char>) -> int {
    if s.len() >= 3 {
        spec_dec_val(s.take(3))
    } else if s.len() == 2 {
        spec_dec_val(s) * 10
    } else if s.len() == 1 {
        spec_dec_val(s) * 100
    } else {
        0
    }
}

/// The most integer digits a coordinate number may have.
pub const MAX_INT_DIGITS: usize = 12;

/// What a coordinate number text is worth, in thousandths: an optional
/// minus sign, one to twelve integer digits, and optionally a dot and
/// fractional digits, of which the first three count.
pub open spec fn spec_parse_milli(s: Seq<char>) -> Option<int> {
    let neg = s.len() > 0 && s[0] == '-';
    let body = if neg {
        s.drop_first()
    } else {
        s
    };
    let d = spec_find_dot(body, 0);
    let ip = body.take(d);
    let has_frac = d < body.len();
    let fp = body.skip(d + 1);
    if spec_is_digits(ip) && ip.len() <= MAX_INT_DIGITS && (has_frac ==> spec_is_digits(fp)) {
        let magnitude = spec_dec_val(ip) * 1000 + (if has_frac {
            spec_frac_milli(fp)
        } else {
            0
        });
        if neg {
            Some(-magnitude)
        } else {
            Some(magnitude)
        }
    } else {
        None
    }
}


// --- The declarative document ---
/// The root element describing an entire keyboard.
#[derive(Debug, Clone)]
pub struct Layout {
    /// The bounds every view gets.
    pub bounds: Bounds,
    /// Named views, each a list of row strings of whitespace-separated
    /// button ids.
    pub views: Vec<(String, Vec<String>)>,
    /// Optional per-button metadata.
    pub buttons: Vec<(String, ButtonMeta)>,
    /// Named outlines supplying button bounds.
    pub outlines: Vec<(String, Outline)>,
}

/// Declarative metadata for one button, all fields optional.
#[derive(Debug, Clone)]
pub struct ButtonMeta {
    /// Action other than a keysym (conflicts with `keysym`).
    pub action: Option<Action>,
    /// The name of the outline; `"default"` when absent.
    pub outline: Option<String>,
    /// An explicit keysym name.
    pub keysym: Option<String>,
    /// The label; derived from the button id when absent.
    pub label: Option<String>,
    /// An icon reference; conflicts with `label`.
    pub icon: Option<String>,
}

impl Default for ButtonMeta {
    /// A metadata record with nothing set.
    fn default() -> (r: ButtonMeta)
        ensures
            r.action is None,
            r.outline is None,
            r.keysym is None,
            r.label is None,
            r.icon is None,
    {
        ButtonMeta { action: None, outline: None, keysym: None, label: None, icon: None }
    }
}

/// A declarative action attached to a button.
#[derive(Debug, Clone)]
pub enum Action {
    /// Switch to a view and latch.
    Locking { lock_view: String, unlock_view: String },
    /// Switch to a view.
    SetView(String),
    /// Open the settings panel.
    ShowPrefs,
}

/// The named outline shape applied to a button.
#[derive(Debug, Clone)]
pub struct Outline {
    pub bounds: Bounds,
}

/// The names of an entry list, in order.
pub open spec fn spec_entry_keys(entries: Seq<(String, crate::yaml::Node)>) -> Seq<Seq<char>> {
    entries.map(|i: int, p: (String, crate::yaml::Node)| p.0@)
}

impl Layout {
    /// The document invariant the parser guarantees: unique names
    /// throughout, and every coordinate within the declared limit.
    pub open spec fn wf(self) -> bool {
        &&& distinct_seqs(self.views@.map(|i: int, p: (String, Vec<String>)| p.0@))
        &&& distinct_seqs(self.buttons@.map(|i: int, p: (String, ButtonMeta)| p.0@))
        &&& distinct_seqs(self.outlines@.map(|i: int, p: (String, Outline)| p.0@))
        &&& self.bounds.wf()
        &&& forall|i: int|
            0 <= i < self.outlines@.len() ==> (#[trigger] self.outlines@[i]).1.bounds.wf()
    }
}

/// Checks that no entry name repeats.
fn check_distinct_keys(entries: &Vec<(String, crate::yaml::Node)>) -> (r: Option<String>)
    ensures
        r is None <==> distinct_seqs(spec_entry_keys(entries@)),
{
    let ghost keys = spec_entry_keys(entries@);
    let mut i: usize = 1;
    while i < entries.len()
        invariant
            1 <= i || entries@.len() <= 1,
            i <= entries@.len() || entries@.len() == 0,
            keys == spec_entry_keys(entries@),
            forall|a: int, b: int| 0 <= a < b < i ==> keys[a] != keys[b],
        decreases entries@.len() - i,
    {
        let mut j: usize = 0;
        while j < i
            invariant
                0 <= i < entries@.len(),
                j <= i,
                keys == spec_entry_keys(entries@),
                forall|a: int| 0 <= a < j ==> keys[a] != keys[i as int],
            decreases i - j,
        {
            if entries[j].0.eq(&entries[i].0) {
                proof {
                    assert(keys[j as int] == keys[i as int]);
                }
                return Some(entries[i].0.clone());
            }
            j += 1;
        }
        i += 1;
    }
    proof {
        assert forall|a: int, b: int| 0 <= a < b < keys.len() implies keys[a] != keys[b] by {}
    }
    None
}

/// Reads a coordinate number node, in thousandths of a unit, within the
/// declared limit.  Succeeds exactly on the nodes the coordinate grammar
/// accepts.
fn parse_coord(node: &crate::yaml::Node, field: &str) -> (r: Result<i64, YamlError>)
    ensures
        r is Ok <==> spec_coord_ok(*node),
        r matches Ok(v) ==> -COORD_LIMIT <= v <= COORD_LIMIT && (node matches Node::Number(s)
            && spec_parse_milli(s@) == Some(v as int)),
{
    let text = match node {
        crate::yaml::Node::Number(s) => s,
        _ => {
            return Err(YamlError::BadType(field.to_owned()));
        },
    };
    match parse_milli(text) {
        Some(v) => {
            if -COORD_LIMIT <= v && v <= COORD_LIMIT {
                Ok(v)
            } else {
                Err(YamlError::OutOfRange(field.to_owned()))
            }
        },
        None => Err(YamlError::BadNumber(field.to_owned())),
    }
}

/// Reads a decimal coordinate text into thousandths.
pub fn parse_milli(text: &String) -> (r: Option<i64>)
    ensures
        match r {
            Some(v) => spec_parse_milli(text@) == Some(v as int),
            None => spec_parse_milli(text@) is None,
        },
{
    let n = text.as_str().unicode_len();
    let neg = n > 0 && text.as_str().get_char(0) == '-';
    let start: usize = if neg {
        1
    } else {
        0
    };
    let ghost body = if neg {
        text@.drop_first()
    } else {
        text@
    };
    proof {
        assert(body.len() == n - start);
        assert(forall|i: int| 0 <= i < body.len() ==> body[i] == text@[i + start]);
    }
    // Find the dot, if any.
    let mut d: usize = 0;
    while d < n - start && text.as_str().get_char(start + d) != '.'
        invariant
            start <= 1,
            n == text@.len(),
            start <= n,
            body.len() == n - start,
            forall|i: int| 0 <= i < body.len() ==> body[i] == text@[i + start],
            d <= n - start,
            spec_find_dot(body, 0) == spec_find_dot(body, d as int),
            forall|i: int| 0 <= i < d ==> body[i] != '.',
        decreases n - start - d,
    {
        d += 1;
    }
    proof {
        if d < n - start {
            assert(body[d as int] == '.');
        }
        assert(spec_find_dot(body, d as int) == d as int || (d == n - start && spec_find_dot(
            body,
            d as int,
        ) == body.len()));
        assert(spec_find_dot(body, 0) == d as int);
    }
    let has_frac = d < n - start;
    // Integer part.
    let ip = match parse_digits(text, start, start + d) {
        Some(v) => v,
        None => {
            proof {
                assert(body.take(d as int) =~= text@.subrange(start as int, (start + d) as int));
            }
            return None;
        },
    };
    proof {
        assert(body.take(d as int) =~= text@.subrange(start as int, (start + d) as int));
    }
    if d > MAX_INT_DIGITS {
        return None;
    }
    // Fractional part.
    let mut frac: i64 = 0;
    if has_frac {
        let fstart = start + d + 1;
        let ghost fp = body.skip(d + 1);
        proof {
            assert(fp =~= text@.subrange(fstart as int, n as int));
        }
        if !check_digits(text, fstart, n) {
            return None;
        }
        let flen = n - fstart;
        let f3 = if flen >= 3 {
            proof {
                reveal_with_fuel(pow10, 4);
            }
            match parse_digits(text, fstart, fstart + 3) {
                Some(v) => {
                    proof {
                        assert(fp.take(3) =~= text@.subrange(fstart as int, fstart + 3));
                        assert(v == spec_frac_milli(fp));
                        assert(0 <= v < 1000);
                    }
                    v
                },
                None => {
                    proof {
                        assert(fp.take(3) =~= text@.subrange(fstart as int, fstart + 3));
                        assert(spec_is_digits(fp));
                        assert forall|k: int| 0 <= k < fp.take(3).len() implies spec_is_digit(
                            #[trigger] fp.take(3)[k],
                        ) by {
                            assert(fp.take(3)[k] == fp[k]);
                        }
                        assert(spec_is_digits(fp.take(3)));
                        assert(false);
                    }
                    0
                },
            }
        } else {
            let v = match parse_digits(text, fstart, n) {
                Some(v) => v,
                None => 0,
            };
            proof {
                reveal_with_fuel(pow10, 4);
            }
            if flen == 2 {
                proof {
                    assert(v == spec_dec_val(fp));
                    assert(v * 10 == spec_frac_milli(fp));
                    assert(0 <= v * 10 < 1000);
                }
                v * 10
            } else {
                proof {
                    assert(flen == 1);
                    assert(v == spec_dec_val(fp));
                    assert(v * 100 == spec_frac_milli(fp));
                    assert(0 <= v * 100 < 1000);
                }
                v * 100
            }
        };
        frac = f3;
    }
    proof {
        lemma_pow10_mono(d as nat, MAX_INT_DIGITS as nat);
        assert(pow10(MAX_INT_DIGITS as nat) == 1_000_000_000_000) by {
            reveal_with_fuel(pow10, 13);
        }
        assert(spec_is_digits(body.take(d as int)));
        assert(ip == spec_dec_val(body.take(d as int)));
        if has_frac {
            assert(spec_is_digits(body.skip(d + 1)));
            assert(frac == spec_frac_milli(body.skip(d + 1)));
        }
        assert(0 <= frac < 1000);
        assert(0 <= ip < 1_000_000_000_000);
    }
    let magnitude = ip * 1000 + frac;
    if neg {
        proof {
            assert(spec_parse_milli(text@) == Some(-magnitude as int));
        }
        Some(-magnitude)
    } else {
        proof {
            assert(spec_parse_milli(text@) == Some(magnitude as int));
        }
        Some(magnitude)
    }
}

/// Checks that `text` holds only decimal digits, at least one, between
/// two character positions.
fn check_digits(text: &String, from: usize, to: usize) -> (r: bool)
    requires
        from <= to <= text@.len(),
    ensures
        r == spec_is_digits(text@.subrange(from as int, to as int)),
{
    if to == from {
        return false;
    }
    let ghost whole = text@.subrange(from as int, to as int);
    let mut i: usize = from;
    while i < to
        invariant
            from <= i <= to <= text@.len(),
            whole == text@.subrange(from as int, to as int),
            forall|k: int| 0 <= k < i - from ==> spec_is_digit(#[trigger] whole[k]),
        decreases to - i,
    {
        let c = text.as_str().get_char(i);
        let cv = c as u32;
        if cv < 48 || cv > 57 {
            proof {
                assert(whole[(i - from) as int] == c);
            }
            return false;
        }
        proof {
            assert(whole[(i - from) as int] == c);
        }
        i += 1;
    }
    true
}

/// Reads the decimal digits of `text` between two character positions.
/// Fails when the range is empty or holds a non-digit.
fn parse_digits(text: &String, from: usize, to: usize) -> (r: Option<i64>)
    requires
        from <= to <= text@.len(),
    ensures
        match r {
            Some(v) => spec_is_digits(text@.subrange(from as int, to as int)) && v
                == spec_dec_val(text@.subrange(from as int, to as int)) && 0 <= v < pow10(
                (to - from) as nat,
            ),
            None => !spec_is_digits(text@.subrange(from as int, to as int)) || to - from
                > MAX_INT_DIGITS,
        },
{
    if to == from {
        return None;
    }
    if to - from > MAX_INT_DIGITS {
        return None;
    }
    let ghost whole = text@.subrange(from as int, to as int);
    let mut acc: i64 = 0;
    let mut i: usize = from;
    while i < to
        invariant
            from <= i <= to <= text@.len(),
            to - from <= MAX_INT_DIGITS,
            whole == text@.subrange(from as int, to as int),
            spec_is_digits(text@.subrange(from as int, i as int)) || i == from,
            acc == spec_dec_val(text@.subrange(from as int, i as int)),
            0 <= acc,
            acc < pow10((i - from) as nat),
        decreases to - i,
    {
        let c = text.as_str().get_char(i);
        let cv = c as u32;
        if cv < 48 || cv > 57 {
            proof {
                assert(whole[(i - from) as int] == c);
                assert(!spec_is_digits(whole));
            }
            return None;
        }
        proof {
            lemma_pow10_mono((i - from) as nat, (to - from) as nat);
            lemma_pow10_mono((i + 1 - from) as nat, MAX_INT_DIGITS as nat);
            assert(pow10(MAX_INT_DIGITS as nat) == 1_000_000_000_000) by {
                reveal_with_fuel(pow10, 13);
            }
            assert(text@.subrange(from as int, i + 1).drop_last() =~= text@.subrange(
                from as int,
                i as int,
            ));
            assert(text@.subrange(from as int, i + 1).last() == c);
        }
        acc = acc * 10 + (cv - 48) as i64;
        proof {
            assert forall|k: int|
                0 <= k < text@.subrange(from as int, i + 1).len() implies spec_is_digit(
                #[trigger] text@.subrange(from as int, i + 1)[k],
            ) by {
                if k < i - from {
                    assert(text@.subrange(from as int, i as int)[k] == text@.subrange(
                        from as int,
                        i + 1,
                    )[k]);
                }
            }
        }
        i += 1;
    }
    proof {
        assert(text@.subrange(from as int, to as int) == whole);
    }
    Some(acc)
}

/// Ten to the `n`-th power.
pub open spec fn pow10(n: nat) -> int
    decreases n,
{
    if n == 0 {
        1
    } else {
        10 * pow10((n - 1) as nat)
    }
}

pub proof fn lemma_pow10_pos(n: nat)
    ensures
        pow10(n) >= 1,
    decreases n,
{
    if n > 0 {
        lemma_pow10_pos((n - 1) as nat);
    }
}

pub proof fn lemma_pow10_mono(a: nat, b: nat)
    requires
        a <= b,
    ensures
        pow10(a) <= pow10(b),
        pow10(a) >= 1,
    decreases b,
{
    lemma_pow10_pos(a);
    if b > 0 && a < b {
        lemma_pow10_mono(a, (b - 1) as nat);
        lemma_pow10_pos((b - 1) as nat);
        assert(pow10(b) == 10 * pow10((b - 1) as nat));
    }
}



/// Compares a string against a literal key.
pub fn str_eq(a: &String, b: &str) -> (r: bool)
    ensures
        r == (a@ == b@),
{
    a.eq(&b.to_owned())
}

/// Whether one entry list carries a given name.
pub open spec fn spec_has_key(entries: Seq<(String, Node)>, k: Seq<char>) -> bool {
    exists|i: int| 0 <= i < entries.len() && (#[trigger] entries[i]).0@ == k
}

/// Whether a node is a coordinate number the format accepts: a number
/// whose text the coordinate grammar reads, within the declared limit.
pub open spec fn spec_coord_ok(n: Node) -> bool {
    n matches Node::Number(s) && (spec_parse_milli(s@) matches Some(v) && -COORD_LIMIT <= v
        <= COORD_LIMIT)
}

/// Whether a field name belongs to a bounds mapping.
pub open spec fn spec_bounds_key_ok(k: Seq<char>) -> bool {
    k == "x"@ || k == "y"@ || k == "width"@ || k == "height"@
}

/// Whether a node is a bounds mapping the format accepts: exactly the
/// four coordinate fields, each present once.
pub open spec fn spec_bounds_ok(n: Node) -> bool {
    n matches Node::Mapping(entries) && {
        &&& distinct_seqs(spec_entry_keys(entries@))
        &&& forall|i: int|
            0 <= i < entries@.len() ==> spec_bounds_key_ok((#[trigger] entries@[i]).0@)
                && spec_coord_ok(entries@[i].1)
        &&& spec_has_key(entries@, "x"@)
        &&& spec_has_key(entries@, "y"@)
        &&& spec_has_key(entries@, "width"@)
        &&& spec_has_key(entries@, "height"@)
    }
}

/// Whether a node is a view body the format accepts: a sequence of row
/// strings.
pub open spec fn spec_view_rows_ok(n: Node) -> bool {
    n matches Node::Sequence(rows) && forall|j: int|
        0 <= j < rows@.len() ==> (#[trigger] rows@[j]) is Str
}

/// Whether a node is a views mapping the format accepts.
pub open spec fn spec_views_ok(n: Node) -> bool {
    n matches Node::Mapping(entries) && {
        &&& distinct_seqs(spec_entry_keys(entries@))
        &&& forall|i: int| 0 <= i < entries@.len() ==> spec_view_rows_ok((#[trigger] entries@[i]).1)
    }
}

/// Whether a mapping holds exactly a locking action's two view fields.
pub open spec fn spec_locking_fields_ok(fields: Seq<(String, Node)>) -> bool {
    &&& distinct_seqs(spec_entry_keys(fields))
    &&& forall|i: int|
        0 <= i < fields.len() ==> ((#[trigger] fields[i]).0@ == "lock_view"@ || fields[i].0@
            == "unlock_view"@) && fields[i].1 is Str
    &&& spec_has_key(fields, "lock_view"@)
    &&& spec_has_key(fields, "unlock_view"@)
}

/// Whether a node is a declarative action the format accepts: the plain
/// settings tag, or a single-entry mapping naming one of the two view
/// switches.
pub open spec fn spec_action_node_ok(n: Node) -> bool {
    match n {
        Node::Str(tag) => tag@ == "show_prefs"@,
        Node::Mapping(entries) => entries@.len() == 1 && {
            ||| (entries@[0].0@ == "set_view"@ && entries@[0].1 is Str)
            ||| (entries@[0].0@ == "locking"@ && (entries@[0].1 matches Node::Mapping(fields)
                && spec_locking_fields_ok(fields@)))
        },
        _ => false,
    }
}

/// Whether one metadata field is known to the format and well-typed.
pub open spec fn spec_meta_field_ok(key: Seq<char>, value: Node) -> bool {
    if key == "action"@ {
        spec_action_node_ok(value)
    } else if key == "outline"@ || key == "keysym"@ || key == "label"@ || key == "icon"@ {
        value is Str
    } else {
        false
    }
}

/// Whether a node is one button's metadata mapping the format accepts.
pub open spec fn spec_button_meta_ok(n: Node) -> bool {
    n matches Node::Mapping(fields) && {
        &&& distinct_seqs(spec_entry_keys(fields@))
        &&& forall|j: int|
            0 <= j < fields@.len() ==> spec_meta_field_ok(
                (#[trigger] fields@[j]).0@,
                fields@[j].1,
            )
    }
}

/// Whether a node is a buttons mapping the format accepts.
pub open spec fn spec_buttons_ok(n: Node) -> bool {
    n matches Node::Mapping(entries) && {
        &&& distinct_seqs(spec_entry_keys(entries@))
        &&& forall|i: int|
            0 <= i < entries@.len() ==> spec_button_meta_ok((#[trigger] entries@[i]).1)
    }
}

/// Whether a node is one outline the format accepts: exactly a `bounds`
/// field.
pub open spec fn spec_outline_node_ok(n: Node) -> bool {
    n matches Node::Mapping(fields) && {
        &&& fields@.len() == 1
        &&& fields@[0].0@ == "bounds"@
        &&& spec_bounds_ok(fields@[0].1)
    }
}

/// Whether a node is an outlines mapping the format accepts.
pub open spec fn spec_outlines_ok(n: Node) -> bool {
    n matches Node::Mapping(entries) && {
        &&& distinct_seqs(spec_entry_keys(entries@))
        &&& forall|i: int|
            0 <= i < entries@.len() ==> spec_outline_node_ok((#[trigger] entries@[i]).1)
    }
}

/// Whether a top-level value suits its field name.  False for any name
/// the format does not know.
pub open spec fn spec_top_value_ok(key: Seq<char>, value: Node) -> bool {
    if key == "bounds"@ {
        spec_bounds_ok(value)
    } else if key == "views"@ {
        spec_views_ok(value)
    } else if key == "buttons"@ {
        spec_buttons_ok(value)
    } else if key == "outlines"@ {
        spec_outlines_ok(value)
    } else {
        false
    }
}

/// Whether a document tree is a layout description the format accepts:
/// a mapping with no repeated names, every field known and well-formed,
/// and the required fields present.  `from_node` accepts exactly these.
pub open spec fn spec_doc_ok(n: Node) -> bool {
    n matches Node::Mapping(entries) && {
        &&& distinct_seqs(spec_entry_keys(entries@))
        &&& forall|i: int|
            0 <= i < entries@.len() ==> spec_top_value_ok(
                (#[trigger] entries@[i]).0@,
                entries@[i].1,
            )
        &&& spec_has_key(entries@, "bounds"@)
        &&& spec_has_key(entries@, "views"@)
        &&& spec_has_key(entries@, "outlines"@)
    }
}

/// Reads the `bounds` mapping: exactly the four coordinate fields.
#[verifier::loop_isolation(false)]
fn parse_bounds(node: &Node) -> (r: Result<Bounds, YamlError>)
    ensures
        r is Ok <==> spec_bounds_ok(*node),
        r matches Ok(b) ==> b.wf(),
{
    proof {
        reveal_strlit("x");
        reveal_strlit("y");
        reveal_strlit("width");
        reveal_strlit("height");
        assert(("x"@).len() == 1 && ("y"@).len() == 1 && ("width"@).len() == 5 && (
        "height"@).len() == 6);
        assert(("x"@)[0] == 'x' && ("y"@)[0] == 'y');
    }
    let entries = match node {
        Node::Mapping(entries) => entries,
        _ => {
            return Err(YamlError::BadType("bounds".to_owned()));
        },
    };
    match check_distinct_keys(entries) {
        Some(k) => {
            return Err(YamlError::DuplicateKey(k));
        },
        None => {},
    }
    let mut x: Option<i64> = None;
    let mut y: Option<i64> = None;
    let mut width: Option<i64> = None;
    let mut height: Option<i64> = None;
    let mut i: usize = 0;
    while i < entries.len()
        invariant
            i <= entries@.len(),
            forall|k: int|
                0 <= k < i ==> spec_bounds_key_ok((#[trigger] entries@[k]).0@) && spec_coord_ok(
                    entries@[k].1,
                ),
            x matches Some(v) ==> -COORD_LIMIT <= v <= COORD_LIMIT,
            y matches Some(v) ==> -COORD_LIMIT <= v <= COORD_LIMIT,
            width matches Some(v) ==> -COORD_LIMIT <= v <= COORD_LIMIT,
            height matches Some(v) ==> -COORD_LIMIT <= v <= COORD_LIMIT,
            x is Some <==> exists|k: int| 0 <= k < i && (#[trigger] entries@[k]).0@ == "x"@,
            y is Some <==> exists|k: int| 0 <= k < i && (#[trigger] entries@[k]).0@ == "y"@,
            width is Some <==> exists|k: int|
                0 <= k < i && (#[trigger] entries@[k]).0@ == "width"@,
            height is Some <==> exists|k: int|
                0 <= k < i && (#[trigger] entries@[k]).0@ == "height"@,
        decreases entries@.len() - i,
    {
        let key = &entries[i].0;
        if str_eq(key, "x") {
            match parse_coord(&entries[i].1, "x") {
                Ok(v) => {
                    x = Some(v);
                },
                Err(e) => {
                    return Err(e);
                },
            }
        } else if str_eq(key, "y") {
            match parse_coord(&entries[i].1, "y") {
                Ok(v) => {
                    y = Some(v);
                },
                Err(e) => {
                    return Err(e);
                },
            }
        } else if str_eq(key, "width") {
            match parse_coord(&entries[i].1, "width") {
                Ok(v) => {
                    width = Some(v);
                },
                Err(e) => {
                    return Err(e);
                },
            }
        } else if str_eq(key, "height") {
            match parse_coord(&entries[i].1, "height") {
                Ok(v) => {
                    height = Some(v);
                },
                Err(e) => {
                    return Err(e);
                },
            }
        } else {
            return Err(YamlError::UnknownField(key.clone()));
        }
        i += 1;
    }
    let x = match x {
        Some(v) => v,
        None => {
            return Err(YamlError::MissingField("x".to_owned()));
        },
    };
    let y = match y {
        Some(v) => v,
        None => {
            return Err(YamlError::MissingField("y".to_owned()));
        },
    };
    let width = match width {
        Some(v) => v,
        None => {
            return Err(YamlError::MissingField("width".to_owned()));
        },
    };
    let height = match height {
        Some(v) => v,
        None => {
            return Err(YamlError::MissingField("height".to_owned()));
        },
    };
    Ok(Bounds { x, y, width, height })
}

/// Reads a string node; succeeds exactly on strings.
fn parse_str(node: &Node, field: &str) -> (r: Result<String, YamlError>)
    ensures
        r is Ok <==> *node is Str,
        r matches Ok(s) ==> (node matches Node::Str(t) && s@ == t@),
{
    match node {
        Node::Str(s) => Ok(s.clone()),
        _ => Err(YamlError::BadType(field.to_owned())),
    }
}

/// Reads the `views` mapping: each view a sequence of row strings.
/// Succeeds exactly on the views mappings the format accepts.
#[verifier::loop_isolation(false)]
fn parse_views(node: &Node) -> (r: Result<Vec<(String, Vec<String>)>, YamlError>)
    ensures
        r is Ok <==> spec_views_ok(*node),
        r matches Ok(v) ==> distinct_seqs(v@.map(|i: int, p: (String, Vec<String>)| p.0@)),
{
    let entries = match node {
        Node::Mapping(entries) => entries,
        _ => {
            return Err(YamlError::BadType("views".to_owned()));
        },
    };
    match check_distinct_keys(entries) {
        Some(k) => {
            return Err(YamlError::DuplicateKey(k));
        },
        None => {},
    }
    let mut out: Vec<(String, Vec<String>)> = Vec::new();
    let mut i: usize = 0;
    while i < entries.len()
        invariant
            i <= entries@.len(),
            out@.len() == i,
            forall|k: int| 0 <= k < i ==> (#[trigger] out@[k]).0@ == entries@[k].0@,
            forall|k: int| 0 <= k < i ==> spec_view_rows_ok((#[trigger] entries@[k]).1),
        decreases entries@.len() - i,
    {
        let rows_node = match &entries[i].1 {
            Node::Sequence(rows) => rows,
            _ => {
                return Err(YamlError::BadType(entries[i].0.clone()));
            },
        };
        let mut rows: Vec<String> = Vec::new();
        let mut j: usize = 0;
        while j < rows_node.len()
            invariant
                j <= rows_node@.len(),
                forall|jj: int| 0 <= jj < j ==> (#[trigger] rows_node@[jj]) is Str,
            decreases rows_node@.len() - j,
        {
            match parse_str(&rows_node[j], "views") {
                Ok(row) => rows.push(row),
                Err(e) => {
                    proof {
                        assert(!spec_view_rows_ok(entries@[i as int].1));
                    }
                    return Err(e);
                },
            }
            j += 1;
        }
        proof {
            assert(spec_view_rows_ok(entries@[i as int].1));
        }
        out.push((entries[i].0.clone(), rows));
        i += 1;
    }
    proof {
        let keys = out@.map(|i: int, p: (String, Vec<String>)| p.0@);
        assert forall|a: int, b: int| 0 <= a < b < keys.len() implies keys[a] != keys[b] by {
            assert(keys[a] == out@[a].0@ && keys[b] == out@[b].0@);
            assert(spec_entry_keys(entries@)[a] == entries@[a].0@);
            assert(spec_entry_keys(entries@)[b] == entries@[b].0@);
        }
    }
    Ok(out)
}

/// Reads a declarative `action` value: a plain tag, or a single-entry
/// mapping carrying the action's fields.  Succeeds exactly on the action
/// nodes the format accepts.
#[verifier::loop_isolation(false)]
fn parse_action(node: &Node, button: &String) -> (r: Result<Action, YamlError>)
    ensures
        r is Ok <==> spec_action_node_ok(*node),
{
    proof {
        reveal_strlit("lock_view");
        reveal_strlit("unlock_view");
        reveal_strlit("set_view");
        reveal_strlit("locking");
        reveal_strlit("show_prefs");
        assert(("lock_view"@).len() == 9 && ("unlock_view"@).len() == 11);
        assert(("set_view"@).len() == 8 && ("locking"@).len() == 7 && ("show_prefs"@).len()
            == 10);
    }
    match node {
        Node::Str(tag) => {
            if str_eq(tag, "show_prefs") {
                Ok(Action::ShowPrefs)
            } else {
                Err(YamlError::UnknownField(tag.clone()))
            }
        },
        Node::Mapping(entries) => {
            if entries.len() != 1 {
                return Err(YamlError::BadType("action".to_owned()));
            }
            let key = &entries[0].0;
            if str_eq(key, "set_view") {
                match parse_str(&entries[0].1, "set_view") {
                    Ok(target) => Ok(Action::SetView(target)),
                    Err(e) => Err(e),
                }
            } else if str_eq(key, "locking") {
                let fields = match &entries[0].1 {
                    Node::Mapping(fields) => fields,
                    _ => {
                        return Err(YamlError::BadType("locking".to_owned()));
                    },
                };
                match check_distinct_keys(fields) {
                    Some(k) => {
                        return Err(YamlError::DuplicateKey(k));
                    },
                    None => {},
                }
                let mut lock_view: Option<String> = None;
                let mut unlock_view: Option<String> = None;
                let mut i: usize = 0;
                while i < fields.len()
                    invariant
                        i <= fields@.len(),
                        forall|k: int|
                            0 <= k < i ==> ((#[trigger] fields@[k]).0@ == "lock_view"@
                                || fields@[k].0@ == "unlock_view"@) && fields@[k].1 is Str,
                        lock_view is Some <==> exists|k: int|
                            0 <= k < i && (#[trigger] fields@[k]).0@ == "lock_view"@,
                        unlock_view is Some <==> exists|k: int|
                            0 <= k < i && (#[trigger] fields@[k]).0@ == "unlock_view"@,
                    decreases fields@.len() - i,
                {
                    let fkey = &fields[i].0;
                    if str_eq(fkey, "lock_view") {
                        match parse_str(&fields[i].1, "lock_view") {
                            Ok(v) => {
                                lock_view = Some(v);
                            },
                            Err(e) => {
                                return Err(e);
                            },
                        }
                    } else if str_eq(fkey, "unlock_view") {
                        match parse_str(&fields[i].1, "unlock_view") {
                            Ok(v) => {
                                unlock_view = Some(v);
                            },
                            Err(e) => {
                                return Err(e);
                            },
                        }
                    } else {
                        return Err(YamlError::UnknownField(fkey.clone()));
                    }
                    i += 1;
                }
                match (lock_view, unlock_view) {
                    (Some(lock_view), Some(unlock_view)) => Ok(
                        Action::Locking { lock_view, unlock_view },
                    ),
                    (None, _) => Err(YamlError::MissingField("lock_view".to_owned())),
                    (_, None) => Err(YamlError::MissingField("unlock_view".to_owned())),
                }
            } else {
                Err(YamlError::UnknownField(key.clone()))
            }
        },
        _ => Err(YamlError::BadType(button.clone())),
    }
}

/// Reads the `buttons` mapping of per-button metadata.  Succeeds exactly
/// on the buttons mappings the format accepts.
#[verifier::loop_isolation(false)]
fn parse_buttons(node: &Node) -> (r: Result<Vec<(String, ButtonMeta)>, YamlError>)
    ensures
        r is Ok <==> spec_buttons_ok(*node),
        r matches Ok(v) ==> distinct_seqs(v@.map(|i: int, p: (String, ButtonMeta)| p.0@)),
{
    proof {
        reveal_strlit("action");
        reveal_strlit("outline");
        reveal_strlit("keysym");
        reveal_strlit("label");
        reveal_strlit("icon");
        assert(("action"@).len() == 6 && ("outline"@).len() == 7 && ("keysym"@).len() == 6 && (
        "label"@).len() == 5 && ("icon"@).len() == 4);
        assert(("action"@)[0] == 'a' && ("keysym"@)[0] == 'k');
    }
    let entries = match node {
        Node::Mapping(entries) => entries,
        _ => {
            return Err(YamlError::BadType("buttons".to_owned()));
        },
    };
    match check_distinct_keys(entries) {
        Some(k) => {
            return Err(YamlError::DuplicateKey(k));
        },
        None => {},
    }
    let mut out: Vec<(String, ButtonMeta)> = Vec::new();
    let mut i: usize = 0;
    while i < entries.len()
        invariant
            i <= entries@.len(),
            out@.len() == i,
            forall|k: int| 0 <= k < i ==> (#[trigger] out@[k]).0@ == entries@[k].0@,
            forall|k: int| 0 <= k < i ==> spec_button_meta_ok((#[trigger] entries@[k]).1),
        decreases entries@.len() - i,
    {
        let fields = match &entries[i].1 {
            Node::Mapping(fields) => fields,
            _ => {
                return Err(YamlError::BadType(entries[i].0.clone()));
            },
        };
        match check_distinct_keys(fields) {
            Some(k) => {
                return Err(YamlError::DuplicateKey(k));
            },
            None => {},
        }
        let mut meta = ButtonMeta::default();
        let mut j: usize = 0;
        while j < fields.len()
            invariant
                j <= fields@.len(),
                forall|jj: int|
                    0 <= jj < j ==> spec_meta_field_ok(
                        (#[trigger] fields@[jj]).0@,
                        fields@[jj].1,
                    ),
            decreases fields@.len() - j,
        {
            let fkey = &fields[j].0;
            if str_eq(fkey, "action") {
                match parse_action(&fields[j].1, &entries[i].0) {
                    Ok(a) => {
                        meta.action = Some(a);
                    },
                    Err(e) => {
                        proof {
                            assert(!spec_button_meta_ok(entries@[i as int].1));
                        }
                        return Err(e);
                    },
                }
            } else if str_eq(fkey, "outline") {
                match parse_str(&fields[j].1, "outline") {
                    Ok(s) => {
                        meta.outline = Some(s);
                    },
                    Err(e) => {
                        proof {
                            assert(!spec_button_meta_ok(entries@[i as int].1));
                        }
                        return Err(e);
                    },
                }
            } else if str_eq(fkey, "keysym") {
                match parse_str(&fields[j].1, "keysym") {
                    Ok(s) => {
                        meta.keysym = Some(s);
                    },
                    Err(e) => {
                        proof {
                            assert(!spec_button_meta_ok(entries@[i as int].1));
                        }
                        return Err(e);
                    },
                }
            } else if str_eq(fkey, "label") {
                match parse_str(&fields[j].1, "label") {
                    Ok(s) => {
                        meta.label = Some(s);
                    },
                    Err(e) => {
                        proof {
                            assert(!spec_button_meta_ok(entries@[i as int].1));
                        }
                        return Err(e);
                    },
                }
            } else if str_eq(fkey, "icon") {
                match parse_str(&fields[j].1, "icon") {
                    Ok(s) => {
                        meta.icon = Some(s);
                    },
                    Err(e) => {
                        proof {
                            assert(!spec_button_meta_ok(entries@[i as int].1));
                        }
                        return Err(e);
                    },
                }
            } else {
                proof {
                    assert(!spec_meta_field_ok(fields@[j as int].0@, fields@[j as int].1));
                    assert(!spec_button_meta_ok(entries@[i as int].1));
                }
                return Err(YamlError::UnknownField(fkey.clone()));
            }
            j += 1;
        }
        proof {
            assert(spec_button_meta_ok(entries@[i as int].1));
        }
        out.push((entries[i].0.clone(), meta));
        i += 1;
    }
    proof {
        let keys = out@.map(|i: int, p: (String, ButtonMeta)| p.0@);
        assert forall|a: int, b: int| 0 <= a < b < keys.len() implies keys[a] != keys[b] by {
            assert(keys[a] == out@[a].0@ && keys[b] == out@[b].0@);
            assert(spec_entry_keys(entries@)[a] == entries@[a].0@);
            assert(spec_entry_keys(entries@)[b] == entries@[b].0@);
        }
    }
    Ok(out)
}

/// Reads the `outlines` mapping: each outline exactly a `bounds` field.
/// Succeeds exactly on the outlines mappings the format accepts.
#[verifier::loop_isolation(false)]
fn parse_outlines(node: &Node) -> (r: Result<Vec<(String, Outline)>, YamlError>)
    ensures
        r is Ok <==> spec_outlines_ok(*node),
        r matches Ok(v) ==> {
            &&& distinct_seqs(v@.map(|i: int, p: (String, Outline)| p.0@))
            &&& forall|i: int| 0 <= i < v@.len() ==> (#[trigger] v@[i]).1.bounds.wf()
        },
{
    let entries = match node {
        Node::Mapping(entries) => entries,
        _ => {
            return Err(YamlError::BadType("outlines".to_owned()));
        },
    };
    match check_distinct_keys(entries) {
        Some(k) => {
            return Err(YamlError::DuplicateKey(k));
        },
        None => {},
    }
    let mut out: Vec<(String, Outline)> = Vec::new();
    let mut i: usize = 0;
    while i < entries.len()
        invariant
            i <= entries@.len(),
            out@.len() == i,
            forall|k: int| 0 <= k < i ==> (#[trigger] out@[k]).0@ == entries@[k].0@,
            forall|k: int| 0 <= k < i ==> (#[trigger] out@[k]).1.bounds.wf(),
            forall|k: int| 0 <= k < i ==> spec_outline_node_ok((#[trigger] entries@[k]).1),
        decreases entries@.len() - i,
    {
        let fields = match &entries[i].1 {
            Node::Mapping(fields) => fields,
            _ => {
                return Err(YamlError::BadType(entries[i].0.clone()));
            },
        };
        if fields.len() != 1 {
            return Err(YamlError::BadType(entries[i].0.clone()));
        }
        if !str_eq(&fields[0].0, "bounds") {
            return Err(YamlError::UnknownField(fields[0].0.clone()));
        }
        let bounds = match parse_bounds(&fields[0].1) {
            Ok(b) => b,
            Err(e) => {
                proof {
                    assert(!spec_outline_node_ok(entries@[i as int].1));
                }
                return Err(e);
            },
        };
        out.push((entries[i].0.clone(), Outline { bounds }));
        i += 1;
    }
    proof {
        let keys = out@.map(|i: int, p: (String, Outline)| p.0@);
        assert forall|a: int, b: int| 0 <= a < b < keys.len() implies keys[a] != keys[b] by {
            assert(keys[a] == out@[a].0@ && keys[b] == out@[b].0@);
            assert(spec_entry_keys(entries@)[a] == entries@[a].0@);
            assert(spec_entry_keys(entries@)[b] == entries@[b].0@);
        }
    }
    Ok(out)
}

impl Layout {
    /// Checks a parsed document tree against the layout format, accepting
    /// exactly the documents `spec_doc_ok` describes.  A field name the
    /// format does not know, anywhere in the document, rejects the whole
    /// document.
    #[verifier::loop_isolation(false)]
    pub fn from_node(node: &Node) -> (r: Result<Layout, YamlError>)
        ensures
            r is Ok <==> spec_doc_ok(*node),
            r matches Ok(doc) ==> doc.wf(),
    {
        proof {
            reveal_strlit("bounds");
            reveal_strlit("views");
            reveal_strlit("buttons");
            reveal_strlit("outlines");
            assert(("bounds"@).len() == 6 && ("views"@).len() == 5 && ("buttons"@).len() == 7 && (
            "outlines"@).len() == 8);
            assert(("bounds"@)[0] == 'b' && ("buttons"@)[0] == 'b' && ("bounds"@)[1] == 'o' && (
            "buttons"@)[1] == 'u');
        }
        let entries = match node {
            Node::Mapping(entries) => entries,
            _ => {
                return Err(YamlError::BadType("document".to_owned()));
            },
        };
        match check_distinct_keys(entries) {
            Some(k) => {
                return Err(YamlError::DuplicateKey(k));
            },
            None => {},
        }
        let mut bounds: Option<Bounds> = None;
        let mut views: Option<Vec<(String, Vec<String>)>> = None;
        let mut buttons: Option<Vec<(String, ButtonMeta)>> = None;
        let mut outlines: Option<Vec<(String, Outline)>> = None;
        let mut i: usize = 0;
        while i < entries.len()
            invariant
                i <= entries@.len(),
                forall|k: int|
                    0 <= k < i ==> spec_top_value_ok(
                        (#[trigger] entries@[k]).0@,
                        entries@[k].1,
                    ),
                bounds matches Some(b) ==> b.wf(),
                views matches Some(v) ==> distinct_seqs(
                    v@.map(|i: int, p: (String, Vec<String>)| p.0@),
                ),
                buttons matches Some(v) ==> distinct_seqs(
                    v@.map(|i: int, p: (String, ButtonMeta)| p.0@),
                ),
                outlines matches Some(v) ==> {
                    &&& distinct_seqs(v@.map(|i: int, p: (String, Outline)| p.0@))
                    &&& forall|k: int| 0 <= k < v@.len() ==> (#[trigger] v@[k]).1.bounds.wf()
                },
                bounds is Some <==> exists|k: int|
                    0 <= k < i && (#[trigger] entries@[k]).0@ == "bounds"@,
                views is Some <==> exists|k: int|
                    0 <= k < i && (#[trigger] entries@[k]).0@ == "views"@,
                outlines is Some <==> exists|k: int|
                    0 <= k < i && (#[trigger] entries@[k]).0@ == "outlines"@,
            decreases entries@.len() - i,
        {
            let key = &entries[i].0;
            if str_eq(key, "bounds") {
                match parse_bounds(&entries[i].1) {
                    Ok(b) => {
                        bounds = Some(b);
                    },
                    Err(e) => {
                        proof {
                            assert(!spec_top_value_ok(
                                entries@[i as int].0@,
                                entries@[i as int].1,
                            ));
                        }
                        return Err(e);
                    },
                }
            } else if str_eq(key, "views") {
                match parse_views(&entries[i].1) {
                    Ok(v) => {
                        views = Some(v);
                    },
                    Err(e) => {
                        proof {
                            assert(!spec_top_value_ok(
                                entries@[i as int].0@,
                                entries@[i as int].1,
                            ));
                        }
                        return Err(e);
                    },
                }
            } else if str_eq(key, "buttons") {
                match parse_buttons(&entries[i].1) {
                    Ok(v) => {
                        buttons = Some(v);
                    },
                    Err(e) => {
                        proof {
                            assert(!spec_top_value_ok(
                                entries@[i as int].0@,
                                entries@[i as int].1,
                            ));
                        }
                        return Err(e);
                    },
                }
            } else if str_eq(key, "outlines") {
                match parse_outlines(&entries[i].1) {
                    Ok(v) => {
                        outlines = Some(v);
                    },
                    Err(e) => {
                        proof {
                            assert(!spec_top_value_ok(
                                entries@[i as int].0@,
                                entries@[i as int].1,
                            ));
                        }
                        return Err(e);
                    },
                }
            } else {
                proof {
                    assert(!spec_top_value_ok(entries@[i as int].0@, entries@[i as int].1));
                }
                return Err(YamlError::UnknownField(key.clone()));
            }
            i += 1;
        }
        let bounds = match bounds {
            Some(b) => b,
            None => {
                return Err(YamlError::MissingField("bounds".to_owned()));
            },
        };
        let views = match views {
            Some(v) => v,
            None => {
                return Err(YamlError::MissingField("views".to_owned()));
            },
        };
        let buttons = match buttons {
            Some(v) => v,
            None => Vec::new(),
        };
        let outlines = match outlines {
            Some(v) => v,
            None => {
                return Err(YamlError::MissingField("outlines".to_owned()));
            },
        };
        proof {
            if buttons@.len() == 0 {
                assert(buttons@.map(|i: int, p: (String, ButtonMeta)| p.0@).len() == 0);
            }
            assert(spec_doc_ok(*node));
        }
        Ok(Layout { bounds, views, buttons, outlines })
    }

    /// Loads a bundled layout document by name.  Fails with the missing
    /// resource condition exactly when no document of that name is
    /// bundled; for bundled names, acceptance of the parsed tree is
    /// decided by `from_node`.
    pub fn from_resource(name: &str) -> (r: Result<Layout, LoadError>)
        ensures
            r matches Err(e) && e is MissingResource <==> name@ != "us"@ && name@ != "terminal"@
                && name@ != "emoji"@,
            r matches Ok(doc) ==> doc.wf(),
    {
        let text = match crate::resources::get_keyboard(name) {
            Some(text) => text,
            None => {
                return Err(LoadError::MissingResource);
            },
        };
        match Layout::parse(text) {
            Ok(doc) => Ok(doc),
            Err(Error::Yaml(e)) => Err(LoadError::BadResource(e)),
            Err(e) => Err(LoadError::BadData(e)),
        }
    }

    /// Parses declarative text into a checked document.  The outside
    /// parser turns the text into a tree; whether that tree is accepted
    /// is decided exactly by `from_node`.
    pub fn parse(text: &str) -> (r: Result<Layout, Error>)
        ensures
            r matches Ok(doc) ==> doc.wf(),
            r matches Err(e) ==> e is Yaml,
    {
        match crate::yaml::parse_yaml(text) {
            Ok(node) => match Layout::from_node(&node) {
                Ok(doc) => Ok(doc),
                Err(e) => Err(Error::Yaml(e)),
            },
            Err(e) => Err(Error::Yaml(e)),
        }
    }
}


// --- Splitting rows into button ids ---
/// The characters that separate button ids within a row string.
pub open spec fn spec_is_ws(c: char) -> bool {
    c == ' ' || c == '\t' || c == '\n' || c == '\r' || c == '\u{c}'
}

/// The length of the leading run of non-separator characters.
pub open spec fn spec_token_len(s: Seq<char>) -> nat
    decreases s.len(),
{
    if s.len() == 0 || spec_is_ws(s[0]) {
        0
    } else {
        1 + spec_token_len(s.drop_first())
    }
}

pub proof fn lemma_token_len_le(s: Seq<char>)
    ensures
        spec_token_len(s) <= s.len(),
        s.len() > 0 && !spec_is_ws(s[0]) ==> spec_token_len(s) >= 1,
    decreases s.len(),
{
    if s.len() > 0 && !spec_is_ws(s[0]) {
        lemma_token_len_le(s.drop_first());
    }
}

/// The whitespace-separated tokens of a row string, in order.
pub open spec fn spec_split_ws(s: Seq<char>) -> Seq<Seq<char>>
    decreases s.len(),
    via spec_split_ws_decreases
{
    if s.len() == 0 {
        Seq::empty()
    } else if spec_is_ws(s[0]) {
        spec_split_ws(s.drop_first())
    } else {
        seq![s.take(spec_token_len(s) as int)] + spec_split_ws(s.skip(spec_token_len(s) as int))
    }
}

#[via_fn]
proof fn spec_split_ws_decreases(s: Seq<char>) {
    lemma_token_len_le(s);
}

/// Tells a separator character.
fn is_ws(c: char) -> (r: bool)
    ensures
        r == spec_is_ws(c),
{
    c == ' ' || c == '\t' || c == '\n' || c == '\r' || c == '\u{c}'
}

/// Measures the leading run of non-separator characters.
fn token_len(s: &str) -> (r: usize)
    ensures
        r == spec_token_len(s@),
    decreases s@.len(),
{
    let n = s.unicode_len();
    if n == 0 {
        return 0;
    }
    if is_ws(s.get_char(0)) {
        return 0;
    }
    let rest = s.substring_char(1, n);
    proof {
        assert(rest@ =~= s@.drop_first());
        lemma_token_len_le(rest@);
    }
    1 + token_len(rest)
}

/// Splits a row string into its whitespace-separated button ids.
pub fn split_ws(s: &str) -> (r: Vec<String>)
    ensures
        r@.map_values(|t: String| t@) == spec_split_ws(s@),
    decreases s@.len(),
{
    let n = s.unicode_len();
    if n == 0 {
        let r: Vec<String> = Vec::new();
        proof {
            assert(r@.map_values(|t: String| t@) =~= spec_split_ws(s@));
        }
        return r;
    }
    if is_ws(s.get_char(0)) {
        let rest = s.substring_char(1, n);
        proof {
            assert(rest@ =~= s@.drop_first());
        }
        return split_ws(rest);
    }
    let t = token_len(s);
    proof {
        lemma_token_len_le(s@);
    }
    let tok = s.substring_char(0, t).to_owned();
    let rest = s.substring_char(t, n);
    proof {
        assert(rest@ =~= s@.skip(t as int));
        assert(tok@ =~= s@.take(spec_token_len(s@) as int));
    }
    let more = split_ws(rest);
    let mut out: Vec<String> = Vec::new();
    out.push(tok);
    let mut i: usize = 0;
    while i < more.len()
        invariant
            i <= more@.len(),
            out@.len() == i + 1,
            out@[0]@ == s@.take(spec_token_len(s@) as int),
            forall|k: int| 1 <= k < i + 1 ==> (#[trigger] out@[k])@ == more@[k - 1]@,
        decreases more@.len() - i,
    {
        out.push(more[i].clone());
        i += 1;
    }
    proof {
        assert(out@.map_values(|t2: String| t2@) =~= seq![s@.take(spec_token_len(s@) as int)]
            + more@.map_values(|t2: String| t2@));
    }
    out
}

// --- Naming unrecognized code points ---
/// The hexadecimal digit `d` as an uppercase character, for `d < 16`.
pub open spec fn spec_hex_digit(d: nat) -> char {
    if d < 10 {
        crate::keyboard::digit_char(d)
    } else if d == 10 {
        'A'
    } else if d == 11 {
        'B'
    } else if d == 12 {
        'C'
    } else if d == 13 {
        'D'
    } else if d == 14 {
        'E'
    } else {
        'F'
    }
}

/// The uppercase hexadecimal rendering of `n`, most significant first.
pub open spec fn spec_hex_str(n: nat) -> Seq<char>
    decreases n,
{
    if n < 16 {
        seq![spec_hex_digit(n)]
    } else {
        spec_hex_str(n / 16).push(spec_hex_digit(n % 16))
    }
}

/// The placeholder symbol name of an unrecognized code point: `U` and the
/// code point in uppercase hexadecimal, zero-padded to four digits.
pub open spec fn spec_codepoint_label(c: char) -> Seq<char> {
    let n = c as nat;
    if n < 16 {
        "U000"@ + spec_hex_str(n)
    } else if n < 256 {
        "U00"@ + spec_hex_str(n)
    } else if n < 4096 {
        "U0"@ + spec_hex_str(n)
    } else {
        "U"@ + spec_hex_str(n)
    }
}

/// Renders one hexadecimal digit.
fn hex_digit_str(d: u32) -> (r: &'static str)
    requires
        d < 16,
    ensures
        r@ == seq![spec_hex_digit(d as nat)],
{
    proof {
        reveal_strlit("A");
        reveal_strlit("B");
        reveal_strlit("C");
        reveal_strlit("D");
        reveal_strlit("E");
        reveal_strlit("F");
    }
    if d < 10 {
        crate::keyboard::digit_str(d)
    } else {
        match d {
            10 => "A",
            11 => "B",
            12 => "C",
            13 => "D",
            14 => "E",
            _ => "F",
        }
    }
}

/// Renders `n` in uppercase hexadecimal.
fn hex_string(n: u32) -> (s: String)
    ensures
        s@ == spec_hex_str(n as nat),
    decreases n,
{
    if n < 16 {
        hex_digit_str(n).to_owned()
    } else {
        let mut s = hex_string(n / 16);
        s.append(hex_digit_str(n % 16));
        proof {
            assert(n / 16 < n) by (nonlinear_arith)
                requires
                    n >= 16,
            ;
        }
        s
    }
}

/// Renders the placeholder symbol name of an unrecognized code point.
pub fn codepoint_label(c: char) -> (s: String)
    ensures
        s@ == spec_codepoint_label(c),
{
    let n = c as u32;
    let mut s = if n < 16 {
        "U000".to_owned()
    } else if n < 256 {
        "U00".to_owned()
    } else if n < 4096 {
        "U0".to_owned()
    } else {
        "U".to_owned()
    };
    let h = hex_string(n);
    s.append(h.as_str());
    s
}


// --- Resolving per-button actions ---
/// The metadata attached to a button id, if any: the first entry wins.
pub open spec fn spec_meta_of(buttons: Seq<(String, ButtonMeta)>, name: Seq<char>) -> Option<
    ButtonMeta,
>
    decreases buttons.len(),
{
    if buttons.len() == 0 {
        None
    } else if buttons[0].0@ == name {
        Some(buttons[0].1)
    } else {
        spec_meta_of(buttons.drop_first(), name)
    }
}

/// The names of the declared views, in order.
pub open spec fn spec_view_names_of(views: Seq<(String, Vec<String>)>) -> Seq<Seq<char>> {
    views.map(|i: int, p: (String, Vec<String>)| p.0@)
}

/// A referenced view name, or the default view name when no view carries
/// it.
pub open spec fn spec_filtered_view(names: Seq<Seq<char>>, target: Seq<char>) -> Seq<char> {
    if names.contains(target) {
        target
    } else {
        DEFAULT_VIEW_NAME@
    }
}

/// The symbol a single code point resolves to: itself if recognized, else
/// its placeholder label.
pub open spec fn spec_codepoint_sym(c: char, symbols: SymbolSet) -> Seq<char> {
    if symbols.spec_contains(seq![c]) {
        seq![c]
    } else {
        spec_codepoint_label(c)
    }
}

/// The keysym names a button id submits, decided by its metadata, the
/// recognized symbols, and the id itself.  Empty for non-submitting
/// actions.
pub open spec fn spec_keysyms_of(
    meta: Option<ButtonMeta>,
    name: Seq<char>,
    symbols: SymbolSet,
) -> Seq<Seq<char>> {
    let action_meta = match meta {
        Some(m) => m.action,
        None => None,
    };
    let keysym_meta = match meta {
        Some(m) => m.keysym,
        None => None,
    };
    match action_meta {
        Some(_) => Seq::empty(),
        None => match keysym_meta {
            Some(ks) => seq![
                if symbols.spec_contains(ks@) {
                    ks@
                } else {
                    "space"@
                },
            ],
            None => {
                if symbols.spec_contains(name) {
                    seq![name]
                } else if name.len() == 0 {
                    seq!["space"@]
                } else {
                    Seq::new(name.len(), |i: int| spec_codepoint_sym(name[i], symbols))
                }
            },
        },
    }
}

/// What `create_action` must return: a one-to-one mapping of declarative
/// actions, with unresolved view references replaced by the default view
/// name, and otherwise a `Submit` of exactly the keysyms the id resolves
/// to.
pub open spec fn spec_action_matches(
    meta: Option<ButtonMeta>,
    name: Seq<char>,
    names: Seq<Seq<char>>,
    symbols: SymbolSet,
    a: crate::action::Action,
) -> bool {
    let action_meta = match meta {
        Some(m) => m.action,
        None => None,
    };
    match action_meta {
        Some(Action::SetView(v)) => a matches crate::action::Action::SetLevel(t) && t@
            == spec_filtered_view(names, v@),
        Some(Action::Locking { lock_view, unlock_view }) => a matches crate::action::Action::LockLevel {
            lock,
            unlock,
        } && lock@ == spec_filtered_view(names, lock_view@) && unlock@ == spec_filtered_view(
            names,
            unlock_view@,
        ),
        Some(Action::ShowPrefs) => a is ShowPreferences,
        None => a matches crate::action::Action::Submit { text, keys } && text is None
            && keys@.map_values(|k: crate::action::KeySym| k.0@) == spec_keysyms_of(
            meta,
            name,
            symbols,
        ),
    }
}

/// How many warnings resolving a button's action logs.
pub open spec fn spec_action_warnings(
    meta: Option<ButtonMeta>,
    name: Seq<char>,
    names: Seq<Seq<char>>,
    symbols: SymbolSet,
) -> int {
    let action_meta = match meta {
        Some(m) => m.action,
        None => None,
    };
    let keysym_meta = match meta {
        Some(m) => m.keysym,
        None => None,
    };
    match action_meta {
        Some(Action::SetView(v)) => if names.contains(v@) {
            0
        } else {
            1
        },
        Some(Action::Locking { lock_view, unlock_view }) => (if names.contains(lock_view@) {
            0int
        } else {
            1int
        }) + (if names.contains(unlock_view@) {
            0int
        } else {
            1int
        }),
        Some(Action::ShowPrefs) => 0,
        None => match keysym_meta {
            Some(ks) => if symbols.spec_contains(ks@) {
                0
            } else {
                1
            },
            None => if !symbols.spec_contains(name) && name.len() == 0 {
                1
            } else {
                0
            },
        },
    }
}

/// Looks a button id up in the metadata map.
fn meta_of<'a>(buttons: &'a Vec<(String, ButtonMeta)>, name: &String) -> (r: Option<
    &'a ButtonMeta,
>)
    ensures
        match r {
            Some(m) => spec_meta_of(buttons@, name@) == Some(*m),
            None => spec_meta_of(buttons@, name@) is None,
        },
{
    let mut i: usize = 0;
    proof {
        assert(buttons@.skip(0) =~= buttons@);
    }
    while i < buttons.len()
        invariant
            i <= buttons@.len(),
            spec_meta_of(buttons@, name@) == spec_meta_of(buttons@.skip(i as int), name@),
        decreases buttons@.len() - i,
    {
        proof {
            assert(buttons@.skip(i as int)[0] == buttons@[i as int]);
            assert(buttons@.skip(i as int).drop_first() =~= buttons@.skip(i + 1));
        }
        if buttons[i].0.eq(name) {
            return Some(&buttons[i].1);
        }
        i += 1;
    }
    None
}

/// Resolves a referenced view name, warning and substituting the default
/// view name when no view carries it.
fn filter_view_name(
    button_name: &String,
    view_name: String,
    view_names: &Vec<String>,
    warnings: &mut Vec<Warning>,
) -> (r: String)
    ensures
        r@ == spec_filtered_view(
            view_names@.map(|i: int, n: String| n@),
            view_name@,
        ),
        view_names@.map(|i: int, n: String| n@).contains(view_name@) ==> final(warnings)@ == old(
            warnings,
        )@,
        !view_names@.map(|i: int, n: String| n@).contains(view_name@) ==> final(warnings)@.len()
            == old(warnings)@.len() + 1 && (final(warnings)@.last() matches Warning::MissingView {
            button,
            view,
        } && button@ == button_name@ && view@ == view_name@),
{
    let ghost names = view_names@.map(|i: int, n: String| n@);
    let mut i: usize = 0;
    while i < view_names.len()
        invariant
            i <= view_names@.len(),
            names == view_names@.map(|i: int, n: String| n@),
            forall|j: int| 0 <= j < i ==> (#[trigger] names[j]) != view_name@,
        decreases view_names@.len() - i,
    {
        if view_names[i].eq(&view_name) {
            proof {
                assert(names[i as int] == view_name@);
            }
            return view_name;
        }
        i += 1;
    }
    proof {
        assert(!names.contains(view_name@));
    }
    warnings.push(
        Warning::MissingView { button: button_name.clone(), view: view_name },
    );
    "base".to_owned()
}

/// Resolves the action of one button id, warning about and recovering
/// from unresolved view references, unrecognized explicit keysyms, and
/// ids without code points.
pub fn create_action(
    button_info: &Vec<(String, ButtonMeta)>,
    name: &String,
    view_names: &Vec<String>,
    symbols: &SymbolSet,
) -> (r: (crate::action::Action, Vec<Warning>))
    ensures
        spec_action_matches(
            spec_meta_of(button_info@, name@),
            name@,
            view_names@.map(|i: int, n: String| n@),
            *symbols,
            r.0,
        ),
        r.1@.len() == spec_action_warnings(
            spec_meta_of(button_info@, name@),
            name@,
            view_names@.map(|i: int, n: String| n@),
            *symbols,
        ),
{
    let mut warnings: Vec<Warning> = Vec::new();
    let ghost meta_spec = spec_meta_of(button_info@, name@);
    let meta = meta_of(button_info, name);

    let action_meta: Option<&Action> = match meta {
        Some(m) => match &m.action {
            Some(a) => Some(a),
            None => None,
        },
        None => None,
    };
    match action_meta {
        Some(Action::SetView(v)) => {
            let target = filter_view_name(name, v.clone(), view_names, &mut warnings);
            return (crate::action::Action::SetLevel(target), warnings);
        },
        Some(Action::Locking { lock_view, unlock_view }) => {
            let lock = filter_view_name(name, lock_view.clone(), view_names, &mut warnings);
            let unlock = filter_view_name(name, unlock_view.clone(), view_names, &mut warnings);
            return (crate::action::Action::LockLevel { lock, unlock }, warnings);
        },
        Some(Action::ShowPrefs) => {
            return (crate::action::Action::ShowPreferences, warnings);
        },
        None => {},
    }
    let keysym_meta: Option<&String> = match meta {
        Some(m) => match &m.keysym {
            Some(k) => Some(k),
            None => None,
        },
        None => None,
    };
    let keys: Vec<crate::action::KeySym> = match keysym_meta {
        Some(ks) => {
            let sym = if symbols.contains(ks) {
                ks.clone()
            } else {
                warnings.push(
                    Warning::InvalidKeysym { button: name.clone(), keysym: ks.clone() },
                );
                "space".to_owned()
            };
            let mut keys: Vec<crate::action::KeySym> = Vec::new();
            keys.push(crate::action::KeySym(sym));
            keys
        },
        None => {
            if symbols.contains(name) {
                let mut keys: Vec<crate::action::KeySym> = Vec::new();
                keys.push(crate::action::KeySym(name.clone()));
                keys
            } else {
                let n = name.as_str().unicode_len();
                if n == 0 {
                    warnings.push(Warning::EmptyButtonId { button: name.clone() });
                    let mut keys: Vec<crate::action::KeySym> = Vec::new();
                    keys.push(crate::action::KeySym("space".to_owned()));
                    keys
                } else {
                    let mut keys: Vec<crate::action::KeySym> = Vec::new();
                    let mut i: usize = 0;
                    while i < n
                        invariant
                            i <= n,
                            n == name@.len(),
                            keys@.len() == i,
                            forall|k: int|
                                0 <= k < i ==> (#[trigger] keys@[k]).0@ == spec_codepoint_sym(
                                    name@[k],
                                    *symbols,
                                ),
                        decreases n - i,
                    {
                        let cp = name.as_str().substring_char(i, i + 1).to_owned();
                        proof {
                            assert(cp@ =~= seq![name@[i as int]]);
                        }
                        if symbols.contains(&cp) {
                            keys.push(crate::action::KeySym(cp));
                        } else {
                            let c = name.as_str().get_char(i);
                            proof {
                                assert(seq![c] =~= cp@);
                            }
                            keys.push(crate::action::KeySym(codepoint_label(c)));
                        }
                        i += 1;
                    }
                    keys
                }
            }
        },
    };
    proof {
        assert(keys@.map_values(|k: crate::action::KeySym| k.0@) =~= spec_keysyms_of(
            meta_spec,
            name@,
            *symbols,
        ));
    }
    (crate::action::Action::Submit { text: None, keys }, warnings)
}


// --- Building buttons ---
/// The outline bound to a name, if any: the first entry wins.
pub open spec fn spec_outline_of(outlines: Seq<(String, Outline)>, name: Seq<char>) -> Option<
    Outline,
>
    decreases outlines.len(),
{
    if outlines.len() == 0 {
        None
    } else if outlines[0].0@ == name {
        Some(outlines[0].1)
    } else {
        spec_outline_of(outlines.drop_first(), name)
    }
}

/// The outline name a button resolves to: the declared one if it exists,
/// the default otherwise.
pub open spec fn spec_outline_name_of(
    meta: Option<ButtonMeta>,
    outlines: Seq<(String, Outline)>,
) -> Seq<char> {
    let outline_meta = match meta {
        Some(m) => m.outline,
        None => None,
    };
    match outline_meta {
        Some(o) => if spec_outline_of(outlines, o@) is Some {
            o@
        } else {
            "default"@
        },
        None => "default"@,
    }
}

/// The unit-size bound used when no default outline exists, in
/// thousandths of a unit.
pub open spec fn spec_unit_bounds() -> Bounds {
    Bounds { x: 0, y: 0, width: 1000, height: 1000 }
}

/// What `create_button` must return: the label from explicit text, else
/// the icon, else the id; the declared outline when it exists, else the
/// default outline, else a unit-size bound.
pub open spec fn spec_button_matches(
    meta: Option<ButtonMeta>,
    outlines: Seq<(String, Outline)>,
    name: Seq<char>,
    state: int,
    b: crate::layout::Button,
) -> bool {
    let label_meta = match meta {
        Some(m) => m.label,
        None => None,
    };
    let icon_meta = match meta {
        Some(m) => m.icon,
        None => None,
    };
    let outline_name = spec_outline_name_of(meta, outlines);
    &&& b.name@ == name
    &&& match label_meta {
        Some(l) => b.label matches crate::layout::Label::Text(t) && t@ == l@,
        None => match icon_meta {
            Some(ic) => b.label matches crate::layout::Label::IconName(t) && t@ == ic@,
            None => b.label matches crate::layout::Label::Text(t) && t@ == name,
        },
    }
    &&& b.outline_name@ == outline_name
    &&& b.bounds == (match spec_outline_of(outlines, outline_name) {
        Some(o) => o.bounds,
        None => spec_unit_bounds(),
    })
    &&& b.state == state
}

/// Looks an outline name up.
fn outline_of<'a>(outlines: &'a Vec<(String, Outline)>, name: &String) -> (r: Option<
    &'a Outline,
>)
    ensures
        match r {
            Some(o) => spec_outline_of(outlines@, name@) == Some(*o),
            None => spec_outline_of(outlines@, name@) is None,
        },
{
    let mut i: usize = 0;
    proof {
        assert(outlines@.skip(0) =~= outlines@);
    }
    while i < outlines.len()
        invariant
            i <= outlines@.len(),
            spec_outline_of(outlines@, name@) == spec_outline_of(outlines@.skip(i as int), name@),
        decreases outlines@.len() - i,
    {
        proof {
            assert(outlines@.skip(i as int)[0] == outlines@[i as int]);
            assert(outlines@.skip(i as int).drop_first() =~= outlines@.skip(i + 1));
        }
        if outlines[i].0.eq(name) {
            return Some(&outlines[i].1);
        }
        i += 1;
    }
    None
}

/// Builds the display record of one button: its label, outline bounds and
/// shared key-state index, warning about and recovering from unknown or
/// missing outlines.
pub fn create_button(
    button_info: &Vec<(String, ButtonMeta)>,
    outlines: &Vec<(String, Outline)>,
    name: &String,
    state: usize,
) -> (r: (crate::layout::Button, Vec<Warning>))
    ensures
        spec_button_matches(
            spec_meta_of(button_info@, name@),
            outlines@,
            name@,
            state as int,
            r.0,
        ),
        ({
            let meta = spec_meta_of(button_info@, name@);
            let outline_meta = match meta {
                Some(m) => m.outline,
                None => None,
            };
            let missing = outline_meta matches Some(o) && spec_outline_of(outlines@, o@) is None;
            let nodefault = spec_outline_of(
                outlines@,
                spec_outline_name_of(meta, outlines@),
            ) is None;
            &&& r.1@.len() == (if missing {
                1int
            } else {
                0int
            }) + (if nodefault {
                1int
            } else {
                0int
            })
            &&& missing ==> (outline_meta matches Some(o) && (r.1@[0]
                matches Warning::MissingOutline { button, outline } && button@ == name@ && outline@
                == o@))
            &&& nodefault ==> (r.1@.last() matches Warning::NoDefaultOutline { button } && button@
                == name@)
        }),
{
    let mut warnings: Vec<Warning> = Vec::new();
    let meta = meta_of(button_info, name);

    let label = match meta {
        Some(m) => match &m.label {
            Some(l) => crate::layout::Label::Text(l.clone()),
            None => match &m.icon {
                Some(ic) => crate::layout::Label::IconName(ic.clone()),
                None => crate::layout::Label::Text(name.clone()),
            },
        },
        None => crate::layout::Label::Text(name.clone()),
    };

    let outline_name: String = match meta {
        Some(m) => match &m.outline {
            Some(o) => {
                match outline_of(outlines, o) {
                    Some(_) => o.clone(),
                    None => {
                        warnings.push(
                            Warning::MissingOutline { button: name.clone(), outline: o.clone() },
                        );
                        "default".to_owned()
                    },
                }
            },
            None => "default".to_owned(),
        },
        None => "default".to_owned(),
    };

    let bounds = match outline_of(outlines, &outline_name) {
        Some(o) => o.bounds,
        None => {
            warnings.push(Warning::NoDefaultOutline { button: name.clone() });
            crate::layout::Bounds { x: 0, y: 0, width: 1000, height: 1000 }
        },
    };

    (crate::layout::Button { name: name.clone(), label, bounds, outline_name, state }, warnings)
}


// --- The build pipeline ---
/// The tokens of the first `n` rows, in order.
pub open spec fn spec_row_tokens(rows: Seq<String>, n: int) -> Seq<Seq<char>>
    decreases n,
{
    if n <= 0 {
        Seq::empty()
    } else {
        spec_row_tokens(rows, n - 1) + spec_split_ws(rows[n - 1]@)
    }
}

/// Every button id referenced by the first `n` views, in order.
pub open spec fn spec_doc_button_names(views: Seq<(String, Vec<String>)>, n: int) -> Seq<
    Seq<char>,
>
    decreases n,
{
    if n <= 0 {
        Seq::empty()
    } else {
        spec_doc_button_names(views, n - 1) + spec_row_tokens(
            views[n - 1].1@,
            views[n - 1].1@.len() as int,
        )
    }
}

/// The submit keysym names of the first `n` distinct button ids, in order.
pub open spec fn spec_submit_names(
    buttons: Seq<(String, ButtonMeta)>,
    symbols: SymbolSet,
    dn: Seq<Seq<char>>,
    n: int,
) -> Seq<Seq<char>>
    decreases n,
{
    if n <= 0 {
        Seq::empty()
    } else {
        spec_submit_names(buttons, symbols, dn, n - 1) + spec_keysyms_of(
            spec_meta_of(buttons, dn[n - 1]),
            dn[n - 1],
            symbols,
        )
    }
}

/// Whether some view holds more rows, or some row more button ids, than a
/// layout can carry.
pub open spec fn spec_oversized(views: Seq<(String, Vec<String>)>) -> bool {
    exists|vi: int|
        0 <= vi < views.len() && ((#[trigger] views[vi]).1@.len() > MAX_ROWS_PER_VIEW || exists|
            ri: int,
        |
            0 <= ri < views[vi].1@.len() && spec_split_ws(
                (#[trigger] views[vi].1@[ri])@,
            ).len() > MAX_BUTTONS_PER_ROW)
}

/// A token of a row stands among the row tokens.
pub proof fn lemma_row_tokens_contains(rows: Seq<String>, n: int, ri: int, bi: int)
    requires
        0 <= ri < n <= rows.len(),
        0 <= bi < spec_split_ws(rows[ri]@).len(),
    ensures
        spec_row_tokens(rows, n).contains(spec_split_ws(rows[ri]@)[bi]),
    decreases n,
{
    if ri == n - 1 {
        let prefix = spec_row_tokens(rows, n - 1);
        assert(spec_row_tokens(rows, n)[prefix.len() + bi] == spec_split_ws(rows[ri]@)[bi]);
    } else {
        lemma_row_tokens_contains(rows, n - 1, ri, bi);
        let m = choose|m: int|
            0 <= m < spec_row_tokens(rows, n - 1).len() && (#[trigger] spec_row_tokens(
                rows,
                n - 1,
            )[m]) == spec_split_ws(rows[ri]@)[bi];
        assert(spec_row_tokens(rows, n)[m] == spec_split_ws(rows[ri]@)[bi]);
    }
}

/// A token of a view's row stands among the document's button ids.
pub proof fn lemma_doc_names_contains(
    views: Seq<(String, Vec<String>)>,
    n: int,
    vi: int,
    ri: int,
    bi: int,
)
    requires
        0 <= vi < n <= views.len(),
        0 <= ri < views[vi].1@.len(),
        0 <= bi < spec_split_ws(views[vi].1@[ri]@).len(),
    ensures
        spec_doc_button_names(views, n).contains(spec_split_ws(views[vi].1@[ri]@)[bi]),
    decreases n,
{
    let tok = spec_split_ws(views[vi].1@[ri]@)[bi];
    if vi == n - 1 {
        lemma_row_tokens_contains(views[vi].1@, views[vi].1@.len() as int, ri, bi);
        let prefix = spec_doc_button_names(views, n - 1);
        let m = choose|m: int|
            0 <= m < spec_row_tokens(views[vi].1@, views[vi].1@.len() as int).len() && (
            #[trigger] spec_row_tokens(views[vi].1@, views[vi].1@.len() as int)[m]) == tok;
        assert(spec_doc_button_names(views, n)[prefix.len() + m] == tok);
    } else {
        lemma_doc_names_contains(views, n - 1, vi, ri, bi);
        let m = choose|m: int|
            0 <= m < spec_doc_button_names(views, n - 1).len() && (#[trigger] spec_doc_button_names(
                views,
                n - 1,
            )[m]) == tok;
        assert(spec_doc_button_names(views, n)[m] == tok);
    }
}

/// Finds where a name stands in a list of distinct names.
fn index_of_name(names: &Vec<String>, name: &String) -> (r: Option<usize>)
    ensures
        match r {
            Some(i) => i < names@.len() && names@[i as int]@ == name@,
            None => !names@.map(|i: int, n: String| n@).contains(name@),
        },
{
    let mut i: usize = 0;
    while i < names.len()
        invariant
            i <= names@.len(),
            forall|j: int| 0 <= j < i ==> (#[trigger] names@[j])@ != name@,
        decreases names@.len() - i,
    {
        if names[i].eq(name) {
            return Some(i);
        }
        i += 1;
    }
    proof {
        let mapped = names@.map(|i: int, n: String| n@);
        assert forall|j: int| 0 <= j < mapped.len() implies #[trigger] mapped[j] != name@ by {
            assert(mapped[j] == names@[j]@);
        }
    }
    None
}

/// Where a keysym name stands in the keycode table.  Meaningful when the
/// table holds the name; with distinct names the position is unique.
pub open spec fn spec_code_index(table: Seq<Seq<char>>, x: Seq<char>) -> int {
    choose|idx: int| 0 <= idx < table.len() && table[idx] == x
}

pub proof fn lemma_code_index_unique(table: Seq<Seq<char>>, x: Seq<char>, i: int)
    requires
        distinct_seqs(table),
        0 <= i < table.len(),
        table[i] == x,
    ensures
        spec_code_index(table, x) == i,
{
    assert(exists|idx: int| 0 <= idx < table.len() && #[trigger] table[idx] == x) by {
        assert(table[i] == x);
    }
    let j = spec_code_index(table, x);
    assert(0 <= j < table.len() && table[j] == x);
}

/// Every view reference of a resolved action names an existing view:
/// directly where the declared target exists, and through the default
/// view name otherwise, as long as a view carries the default name.
pub proof fn lemma_actions_resolve(
    meta: Option<ButtonMeta>,
    name: Seq<char>,
    names: Seq<Seq<char>>,
    symbols: SymbolSet,
    a: crate::action::Action,
)
    requires
        spec_action_matches(meta, name, names, symbols, a),
        names.contains(DEFAULT_VIEW_NAME@),
    ensures
        crate::layout::spec_action_targets_ok(a, names),
{
}

/// A button id with Unicode scalar values, no metadata directing
/// otherwise, and no whole-id symbol match submits exactly one keysym
/// per scalar value of the id.
pub proof fn lemma_codepoint_submission(
    meta: Option<ButtonMeta>,
    name: Seq<char>,
    symbols: SymbolSet,
)
    requires
        match meta {
            Some(m) => m.action is None && m.keysym is None,
            None => true,
        },
        !symbols.spec_contains(name),
        name.len() > 0,
    ensures
        spec_keysyms_of(meta, name, symbols).len() == name.len(),
{
}

/// Every keysym of the list stands in the table.
pub open spec fn spec_all_contained(table: Seq<Seq<char>>, ksyms: Seq<Seq<char>>) -> bool {
    forall|ci: int| 0 <= ci < ksyms.len() ==> table.contains(#[trigger] ksyms[ci])
}

/// The keycodes a keysym list resolves to against the table.
pub open spec fn spec_codes_for(table: Seq<Seq<char>>, ksyms: Seq<Seq<char>>) -> Seq<u32> {
    Seq::new(
        ksyms.len(),
        |ci: int| (KEYCODE_BOTTOM + spec_code_index(table, ksyms[ci])) as u32,
    )
}

/// The distinct keysym names used across all `Submit` actions stand in
/// one-to-one correspondence with the assigned keycodes.  The table holds
/// every submitted name exactly once, and since position `i` is assigned
/// the code `KEYCODE_BOTTOM + i`, distinct names get distinct codes from
/// one contiguous range: no collisions and no gaps.
pub proof fn lemma_keycode_assignment_bijective(subs: Seq<Seq<char>>)
    ensures
        distinct_seqs(dedup_first(subs)),
        forall|x: Seq<char>| dedup_first(subs).contains(x) <==> subs.contains(x),
{
    crate::keyboard::lemma_dedup_first_distinct(subs);
}

impl Layout {
    /// Compiles the document: resolves every referenced button id to an
    /// action and a shared key state, derives the global keycode table
    /// from all submitted keysyms, renders the keymap text, and assembles
    /// the views.  The returned warnings list what was recovered from.
    ///
    /// Besides a failing keymap rendering, two conditions are rejected
    /// here rather than discovered later: a document without the default
    /// view, which the runtime could only fail on at its first use, and a
    /// document beyond the size limits, which the placement arithmetic
    /// could not carry.  The caller recovers by trying the next candidate
    /// source.
    #[verifier::loop_isolation(false)]
    #[verifier::rlimit(100)]
    pub fn build(self, symbols: &SymbolSet) -> (r: (
        Result<crate::layout::LayoutData, FormattingError>,
        Vec<Warning>,
    ))
        requires
            self.wf(),
        ensures
            ({
                let names = spec_view_names_of(self.views@);
                let all = spec_doc_button_names(self.views@, self.views@.len() as int);
                let dn = dedup_first(all);
                let subs = spec_submit_names(self.buttons@, *symbols, dn, dn.len() as int);
                let table = dedup_first(subs);
                match r.0 {
                    Err(FormattingError::MissingBaseView) => !names.contains(DEFAULT_VIEW_NAME@),
                    Err(FormattingError::OversizedView) => names.contains(DEFAULT_VIEW_NAME@)
                        && spec_oversized(self.views@),
                    Err(FormattingError::TooManyKeysyms) => names.contains(DEFAULT_VIEW_NAME@)
                        && !spec_oversized(self.views@) && table.len() + KEYCODE_BOTTOM
                        > KEYCODE_MAX + 1,
                    Ok(data) => {
                        &&& names.contains(DEFAULT_VIEW_NAME@)
                        &&& !spec_oversized(self.views@)
                        &&& table.len() + KEYCODE_BOTTOM <= KEYCODE_MAX + 1
                        &&& data.wf()
                        &&& data.keymap_str@ == crate::keyboard::keymap_text(table)
                        &&& data.key_states@.len() == dn.len()
                        &&& (forall|k: int|
                            0 <= k < dn.len() ==> {
                                let s = #[trigger] data.key_states@[k];
                                &&& s.pressed is Released
                                &&& !s.locked
                                &&& spec_action_matches(
                                    spec_meta_of(self.buttons@, dn[k]),
                                    dn[k],
                                    names,
                                    *symbols,
                                    s.action,
                                )
                                &&& s.keycodes@.len() == spec_keysyms_of(
                                    spec_meta_of(self.buttons@, dn[k]),
                                    dn[k],
                                    *symbols,
                                ).len()
                            })
                        &&& (forall|k: int|
                            0 <= k < dn.len() ==> spec_all_contained(
                                table,
                                spec_keysyms_of(
                                    spec_meta_of(self.buttons@, dn[k]),
                                    dn[k],
                                    *symbols,
                                ),
                            ) && (#[trigger] data.key_states@[k]).keycodes@ == spec_codes_for(
                                table,
                                spec_keysyms_of(
                                    spec_meta_of(self.buttons@, dn[k]),
                                    dn[k],
                                    *symbols,
                                ),
                            ))
                        &&& spec_names_of(data.views@) == names
                        &&& data.views@.len() == self.views@.len()
                        &&& (forall|vi: int|
                            0 <= vi < data.views@.len() ==> {
                                let v = (#[trigger] data.views@[vi]).1;
                                &&& v.bounds == self.bounds
                                &&& v.rows@.len() == self.views@[vi].1@.len()
                                &&& (forall|ri: int|
                                    0 <= ri < v.rows@.len() ==> {
                                        let row = #[trigger] v.rows@[ri];
                                        let toks = spec_split_ws(self.views@[vi].1@[ri]@);
                                        &&& row.angle == 0
                                        &&& row.bounds is None
                                        &&& row.buttons@.len() == toks.len()
                                        &&& (forall|bi: int|
                                            0 <= bi < row.buttons@.len() ==> {
                                                let b = #[trigger] row.buttons@[bi];
                                                &&& spec_button_matches(
                                                    spec_meta_of(self.buttons@, toks[bi]),
                                                    self.outlines@,
                                                    toks[bi],
                                                    b.state as int,
                                                    b,
                                                )
                                                &&& b.state < dn.len()
                                                &&& dn[b.state as int] == toks[bi]
                                            })
                                    })
                            })
                    },
                }
            }),
    {
        let ghost names = spec_view_names_of(self.views@);
        let ghost all_spec = spec_doc_button_names(self.views@, self.views@.len() as int);
        let ghost dn_spec = dedup_first(all_spec);
        let mut warnings: Vec<Warning> = Vec::new();

        // The default view must exist: unresolved view references fall
        // back to it, and the runtime starts there.
        let mut view_names: Vec<String> = Vec::new();
        let mut vi: usize = 0;
        while vi < self.views.len()
            invariant
                vi <= self.views@.len(),
                names == spec_view_names_of(self.views@),
                view_names@.len() == vi,
                forall|k: int| 0 <= k < vi ==> (#[trigger] view_names@[k])@ == names[k],
            decreases self.views@.len() - vi,
        {
            view_names.push(self.views[vi].0.clone());
            vi += 1;
        }
        proof {
            assert(view_names@.map(|i: int, n: String| n@) =~= names);
        }
        let mut base_found = false;
        let mut vi: usize = 0;
        while vi < view_names.len()
            invariant
                vi <= view_names@.len(),
                view_names@.map(|i: int, n: String| n@) == names,
                base_found ==> names.contains(DEFAULT_VIEW_NAME@),
                !base_found ==> forall|k: int| 0 <= k < vi ==> (#[trigger] names[k])
                    != DEFAULT_VIEW_NAME@,
            decreases view_names@.len() - vi,
        {
            if str_eq(&view_names[vi], "base") {
                base_found = true;
                proof {
                    assert(names[vi as int] == DEFAULT_VIEW_NAME@);
                }
            }
            vi += 1;
        }
        if !base_found {
            return (Err(FormattingError::MissingBaseView), warnings);
        }

        // Collect every referenced button id, rejecting oversized views.
        let mut all_names: Vec<String> = Vec::new();
        let mut vi: usize = 0;
        while vi < self.views.len()
            invariant
                vi <= self.views@.len(),
                names == spec_view_names_of(self.views@),
                names.contains(DEFAULT_VIEW_NAME@),
                all_names@.map(|i: int, n: String| n@) == spec_doc_button_names(
                    self.views@,
                    vi as int,
                ),
                forall|k: int|
                    0 <= k < vi ==> (#[trigger] self.views@[k]).1@.len() <= MAX_ROWS_PER_VIEW
                        && forall|ri: int|
                        0 <= ri < self.views@[k].1@.len() ==> spec_split_ws(
                            (#[trigger] self.views@[k].1@[ri])@,
                        ).len() <= MAX_BUTTONS_PER_ROW,
            decreases self.views@.len() - vi,
        {
            let rows = &self.views[vi].1;
            if rows.len() > MAX_ROWS_PER_VIEW {
                proof {
                    assert(spec_oversized(self.views@));
                }
                return (Err(FormattingError::OversizedView), warnings);
            }
            let mut ri: usize = 0;
            while ri < rows.len()
                invariant
                    0 <= vi < self.views@.len(),
                    self.views@[vi as int].1 == *rows,
                    ri <= rows@.len(),
                    rows@.len() <= MAX_ROWS_PER_VIEW,
                    all_names@.map(|i: int, n: String| n@) == spec_doc_button_names(
                        self.views@,
                        vi as int,
                    ) + spec_row_tokens(rows@, ri as int),
                    forall|k: int|
                        0 <= k < ri ==> spec_split_ws((#[trigger] rows@[k])@).len()
                            <= MAX_BUTTONS_PER_ROW,
                decreases rows@.len() - ri,
            {
                let mut toks = split_ws(rows[ri].as_str());
                if toks.len() > MAX_BUTTONS_PER_ROW {
                    proof {
                        assert(spec_oversized(self.views@));
                    }
                    return (Err(FormattingError::OversizedView), warnings);
                }
                let ghost before = all_names@;
                let ghost toks_pre = toks@;
                all_names.append(&mut toks);
                proof {
                    assert(all_names@ == before + toks_pre);
                    assert(toks_pre.map_values(|t2: String| t2@) == spec_split_ws(
                        rows@[ri as int]@,
                    ));
                    assert(spec_row_tokens(rows@, ri + 1) == spec_row_tokens(rows@, ri as int)
                        + spec_split_ws(rows@[ri as int]@));
                    let lhs = all_names@.map(|i: int, n: String| n@);
                    let rhs = spec_doc_button_names(self.views@, vi as int) + spec_row_tokens(
                        rows@,
                        ri + 1,
                    );
                    assert(before.map(|i: int, n: String| n@).len() == before.len());
                    assert(lhs.len() == rhs.len());
                    assert forall|ii: int| 0 <= ii < lhs.len() implies #[trigger] lhs[ii]
                        == rhs[ii] by {
                        assert(lhs[ii] == all_names@[ii]@);
                        if ii < before.len() {
                            assert(all_names@[ii] == before[ii]);
                            assert(before.map(|i: int, n: String| n@)[ii] == before[ii]@);
                        } else {
                            assert(all_names@[ii] == toks_pre[ii - before.len()]);
                            assert(toks_pre.map_values(|t2: String| t2@)[ii - before.len()]
                                == toks_pre[ii - before.len()]@);
                        }
                    }
                    assert(all_names@.map(|i: int, n: String| n@) =~= spec_doc_button_names(
                        self.views@,
                        vi as int,
                    ) + spec_row_tokens(rows@, ri + 1));
                }
                ri += 1;
            }
            proof {
                assert(spec_doc_button_names(self.views@, vi + 1) =~= spec_doc_button_names(
                    self.views@,
                    vi as int,
                ) + spec_row_tokens(rows@, rows@.len() as int));
            }
            vi += 1;
        }
        proof {
            assert(!spec_oversized(self.views@));
        }

        // Deduplicate, keeping first appearances: one key state per id.
        let mut distinct: Vec<String> = Vec::new();
        let mut i: usize = 0;
        while i < all_names.len()
            invariant
                i <= all_names@.len(),
                all_names@.map(|i2: int, n: String| n@) == all_spec,
                distinct@.map(|i2: int, n: String| n@) == dedup_first(all_spec.take(i as int)),
            decreases all_names@.len() - i,
        {
            let ghost prefix = all_spec.take(i as int);
            let mut found = false;
            let mut j: usize = 0;
            while j < distinct.len() && !found
                invariant
                    j <= distinct@.len(),
                    i < all_names@.len(),
                    all_names@.map(|i2: int, n: String| n@) == all_spec,
                    found ==> distinct@.map(|i2: int, n: String| n@).contains(
                        all_spec[i as int],
                    ),
                    !found ==> forall|k: int| 0 <= k < j ==> (#[trigger] distinct@[k])@
                        != all_spec[i as int],
                decreases distinct@.len() - j,
            {
                if distinct[j].eq(&all_names[i]) {
                    found = true;
                    proof {
                        assert(distinct@.map(|i2: int, n: String| n@)[j as int] == all_spec[
                            i as int]);
                    }
                }
                j += 1;
            }
            proof {
                assert(all_spec.take(i + 1).drop_last() =~= prefix);
                assert(all_spec.take(i + 1).last() == all_spec[i as int]);
                if !found {
                    let mapped = distinct@.map(|i2: int, n: String| n@);
                    assert forall|k: int| 0 <= k < mapped.len() implies #[trigger] mapped[k]
                        != all_spec[i as int] by {
                        assert(mapped[k] == distinct@[k]@);
                    }
                }
            }
            if !found {
                let ghost old_distinct = distinct@;
                all_names_push_clone(&mut distinct, &all_names, i);
                proof {
                    assert(distinct@.map(|i2: int, n: String| n@) =~= old_distinct.map(
                        |i2: int, n: String| n@,
                    ).push(all_spec[i as int]));
                }
            } else {
                proof {
                    assert(distinct@.map(|i2: int, n: String| n@) =~= dedup_first(
                        all_spec.take(i + 1),
                    ));
                }
            }
            i += 1;
        }
        proof {
            assert(all_spec.take(all_names@.len() as int) =~= all_spec);
        }

        // Resolve each distinct id's action and collect every submitted
        // keysym name, in order.
        let ghost subs_spec = spec_submit_names(
            self.buttons@,
            *symbols,
            dn_spec,
            dn_spec.len() as int,
        );
        let mut actions: Vec<crate::action::Action> = Vec::new();
        let mut submit_names: Vec<String> = Vec::new();
        let mut k: usize = 0;
        while k < distinct.len()
            invariant
                k <= distinct@.len(),
                distinct@.map(|i2: int, n: String| n@) == dn_spec,
                names == spec_view_names_of(self.views@),
                view_names@.map(|i: int, n: String| n@) == names,
                actions@.len() == k,
                forall|m: int|
                    0 <= m < k ==> spec_action_matches(
                        spec_meta_of(self.buttons@, dn_spec[m]),
                        dn_spec[m],
                        names,
                        *symbols,
                        #[trigger] actions@[m],
                    ),
                submit_names@.map(|i2: int, n: String| n@) == spec_submit_names(
                    self.buttons@,
                    *symbols,
                    dn_spec,
                    k as int,
                ),
            decreases distinct@.len() - k,
        {
            let (action, mut w) = create_action(&self.buttons, &distinct[k], &view_names, symbols);
            warnings.append(&mut w);
            proof {
                assert(distinct@[k as int]@ == dn_spec[k as int]);
            }
            let ghost subs_before = submit_names@;
            match &action {
                crate::action::Action::Submit { text: _, keys } => {
                    let mut ci: usize = 0;
                    while ci < keys.len()
                        invariant
                            ci <= keys@.len(),
                            submit_names@.map(|i2: int, n: String| n@) == subs_before.map(
                                |i2: int, n: String| n@,
                            ) + keys@.map_values(|ks: crate::action::KeySym| ks.0@).take(
                                ci as int,
                            ),
                        decreases keys@.len() - ci,
                    {
                        let ghost pre = submit_names@;
                        submit_names.push(keys[ci].0.clone());
                        proof {
                            let kmap = keys@.map_values(|ks: crate::action::KeySym| ks.0@);
                            assert(kmap[ci as int] == keys@[ci as int].0@);
                            assert(kmap.take(ci + 1) =~= kmap.take(ci as int).push(
                                kmap[ci as int],
                            ));
                            assert(submit_names@ == pre.push(submit_names@.last()));
                            assert(submit_names@.last()@ == keys@[ci as int].0@);
                            let lhs = submit_names@.map(|i2: int, n: String| n@);
                            let rhs = subs_before.map(|i2: int, n: String| n@) + kmap.take(
                                ci + 1,
                            );
                            assert(pre.map(|i2: int, n: String| n@).len() == pre.len());
                            assert(subs_before.map(|i2: int, n: String| n@).len()
                                == subs_before.len());
                            assert(kmap.len() == keys@.len());
                            assert(kmap.take(ci as int).len() == ci as int);
                            assert(kmap.take(ci + 1).len() == ci + 1);
                            assert(pre.len() == subs_before.len() + ci);
                            assert(lhs.len() == submit_names@.len());
                            assert(lhs.len() == rhs.len());
                            assert forall|ii: int| 0 <= ii < lhs.len() implies #[trigger] lhs[ii]
                                == rhs[ii] by {
                                assert(lhs[ii] == submit_names@[ii]@);
                                if ii < pre.len() {
                                    assert(submit_names@[ii] == pre[ii]);
                                    assert(pre.map(|i2: int, n: String| n@)[ii] == pre[ii]@);
                                } else {
                                }
                            }
                            assert(submit_names@.map(|i2: int, n: String| n@) =~= subs_before.map(
                                |i2: int, n: String| n@,
                            ) + kmap.take(ci + 1));
                        }
                        ci += 1;
                    }
                    proof {
                        assert(keys@.map_values(|ks: crate::action::KeySym| ks.0@).take(
                            keys@.len() as int,
                        ) =~= keys@.map_values(|ks: crate::action::KeySym| ks.0@));
                    }
                },
                _ => {
                    proof {
                        assert(spec_keysyms_of(
                            spec_meta_of(self.buttons@, dn_spec[k as int]),
                            dn_spec[k as int],
                            *symbols,
                        ) =~= Seq::<Seq<char>>::empty());
                        assert(submit_names@.map(|i2: int, n: String| n@) =~= subs_before.map(
                            |i2: int, n: String| n@,
                        ) + Seq::<Seq<char>>::empty());
                    }
                },
            }
            proof {
                assert(submit_names@.map(|i2: int, n: String| n@) =~= spec_submit_names(
                    self.buttons@,
                    *symbols,
                    dn_spec,
                    k + 1,
                ));
            }
            actions.push(action);
            k += 1;
        }

        // Assign codes and render the keymap.
        let table = crate::keyboard::generate_keycodes(&submit_names);
        let keymap_str = match crate::keyboard::generate_keymap(&table) {
            Ok(s) => s,
            Err(e) => {
                proof {
                    assert(table.names@.map(|i2: int, n: String| n@) == dedup_first(subs_spec));
                }
                return (Err(e), warnings);
            },
        };

        // Resolve each action's keycodes against the table and build the
        // shared key states.
        let ghost table_spec = dedup_first(subs_spec);
        let ghost actions_spec = actions@;
        proof {
            assert(table.names@.map(|i2: int, n: String| n@) == table_spec);
            crate::keyboard::lemma_dedup_first_distinct(subs_spec);
        }
        let mut key_states: Vec<crate::keyboard::KeyState> = Vec::new();
        let mut k: usize = 0;
        while k < distinct.len()
            invariant
                k <= actions_spec.len(),
                actions@ == actions_spec.skip(k as int),
                actions_spec.len() == dn_spec.len(),
                distinct@.map(|i2: int, n: String| n@) == dn_spec,
                table.names@.map(|i2: int, n: String| n@) == table_spec,
                table_spec == dedup_first(subs_spec),
                distinct_seqs(table_spec),
                subs_spec == spec_submit_names(
                    self.buttons@,
                    *symbols,
                    dn_spec,
                    dn_spec.len() as int,
                ),
                table.names@.len() + crate::keyboard::KEYCODE_BOTTOM <= crate::keyboard::KEYCODE_MAX
                    + 1,
                names == spec_view_names_of(self.views@),
                forall|m: int|
                    0 <= m < dn_spec.len() ==> spec_action_matches(
                        spec_meta_of(self.buttons@, dn_spec[m]),
                        dn_spec[m],
                        names,
                        *symbols,
                        #[trigger] actions_spec[m],
                    ),
                key_states@.len() == k,
                forall|m: int|
                    0 <= m < k ==> {
                        let s = #[trigger] key_states@[m];
                        &&& s.pressed is Released
                        &&& !s.locked
                        &&& s.action == actions_spec[m]
                        &&& s.keycodes@.len() == spec_keysyms_of(
                            spec_meta_of(self.buttons@, dn_spec[m]),
                            dn_spec[m],
                            *symbols,
                        ).len()
                    },
                forall|m: int|
                    0 <= m < k ==> spec_all_contained(
                        table_spec,
                        spec_keysyms_of(
                            spec_meta_of(self.buttons@, dn_spec[m]),
                            dn_spec[m],
                            *symbols,
                        ),
                    ) && (#[trigger] key_states@[m]).keycodes@ == spec_codes_for(
                        table_spec,
                        spec_keysyms_of(
                            spec_meta_of(self.buttons@, dn_spec[m]),
                            dn_spec[m],
                            *symbols,
                        ),
                    ),
            decreases actions_spec.len() - k,
        {
            let ghost ksyms = spec_keysyms_of(
                spec_meta_of(self.buttons@, dn_spec[k as int]),
                dn_spec[k as int],
                *symbols,
            );
            proof {
                assert forall|ci: int| 0 <= ci < ksyms.len() implies table_spec.contains(
                    #[trigger] ksyms[ci],
                ) by {
                    lemma_submit_names_contains(
                        self.buttons@,
                        *symbols,
                        dn_spec,
                        dn_spec.len() as int,
                        k as int,
                        ci,
                    );
                    crate::keyboard::lemma_dedup_first_distinct(subs_spec);
                }
                assert(spec_all_contained(table_spec, ksyms));
            }
            let action = actions.remove(0);
            proof {
                assert(action == actions_spec[k as int]);
                assert(actions@ =~= actions_spec.skip(k + 1));
                assert(spec_action_matches(
                    spec_meta_of(self.buttons@, dn_spec[k as int]),
                    dn_spec[k as int],
                    names,
                    *symbols,
                    action,
                ));
            }
            let keycodes: Vec<u32> = match &action {
                crate::action::Action::Submit { text: _, keys } => {
                    proof {
                        assert(keys@.map_values(|ks2: crate::action::KeySym| ks2.0@) == ksyms);
                    }
                    let mut codes: Vec<u32> = Vec::new();
                    let mut ci: usize = 0;
                    while ci < keys.len()
                        invariant
                            ci <= keys@.len(),
                            keys@.map_values(|ks2: crate::action::KeySym| ks2.0@) == ksyms,
                            table.names@.map(|i2: int, n: String| n@) == table_spec,
                            table_spec == dedup_first(subs_spec),
                            0 <= k < dn_spec.len(),
                            subs_spec == spec_submit_names(
                                self.buttons@,
                                *symbols,
                                dn_spec,
                                dn_spec.len() as int,
                            ),
                            ksyms == spec_keysyms_of(
                                spec_meta_of(self.buttons@, dn_spec[k as int]),
                                dn_spec[k as int],
                                *symbols,
                            ),
                            table.names@.len() + crate::keyboard::KEYCODE_BOTTOM
                                <= crate::keyboard::KEYCODE_MAX + 1,
                            codes@.len() == ci,
                            distinct_seqs(table_spec),
                            spec_all_contained(table_spec, ksyms),
                            forall|m: int|
                                0 <= m < ci ==> (#[trigger] codes@[m]) == spec_codes_for(
                                    table_spec,
                                    ksyms,
                                )[m],
                        decreases keys@.len() - ci,
                    {
                        proof {
                            lemma_submit_names_contains(
                                self.buttons@,
                                *symbols,
                                dn_spec,
                                dn_spec.len() as int,
                                k as int,
                                ci as int,
                            );
                            crate::keyboard::lemma_dedup_first_distinct(subs_spec);
                            assert(keys@.map_values(|ks2: crate::action::KeySym| ks2.0@)[ci as int]
                                == keys@[ci as int].0@);
                        }
                        let ghost pre_codes = codes@;
                        match table.get(&keys[ci].0) {
                            Some(c) => {
                                codes.push(c);
                                proof {
                                    let widx = choose|widx: int|
                                        0 <= widx < table.names@.len() && (#[trigger] table.names@[
                                        widx])@ == keys@[ci as int].0@ && c == table.spec_code_at(
                                            widx,
                                        );
                                    assert(table_spec[widx] == table.names@[widx]@);
                                    assert(table_spec[widx] == ksyms[ci as int]);
                                    assert(table_spec.contains(ksyms[ci as int]));
                                    lemma_code_index_unique(table_spec, ksyms[ci as int], widx);
                                    assert(codes@[ci as int] == spec_codes_for(
                                        table_spec,
                                        ksyms,
                                    )[ci as int]);
                                    assert forall|m: int| 0 <= m < ci + 1 implies (
                                    #[trigger] codes@[m]) == spec_codes_for(table_spec, ksyms)[m] by {
                                        if m < ci {
                                            assert(codes@[m] == pre_codes[m]);
                                        }
                                    }
                                }
                            },
                            None => {
                                proof {
                                    assert(subs_spec.contains(ksyms[ci as int]));
                                    assert(table_spec.contains(ksyms[ci as int]));
                                    let w = choose|w: int|
                                        0 <= w < table_spec.len() && table_spec[w] == ksyms[
                                        ci as int];
                                    assert(table.names@[w]@ == ksyms[ci as int]);
                                    assert(table.spec_contains(keys@[ci as int].0@));
                                    assert(false);
                                }
                                codes.push(0);
                            },
                        }
                        ci += 1;
                    }
                    proof {
                        assert(codes@.len() == keys@.len());
                        assert(keys@.map_values(|ks2: crate::action::KeySym| ks2.0@).len()
                            == keys@.len());
                        assert(ksyms.len() == keys@.len());
                        assert(codes@ =~= spec_codes_for(table_spec, ksyms));
                    }
                    codes
                },
                _ => {
                    let empty_codes: Vec<u32> = Vec::new();
                    proof {
                        assert(ksyms =~= Seq::<Seq<char>>::empty());
                        assert(empty_codes@ =~= spec_codes_for(table_spec, ksyms));
                    }
                    empty_codes
                },
            };
            let ghost pre_ks = key_states@;
            let ghost pushed_codes = keycodes@;
            key_states.push(
                crate::keyboard::KeyState {
                    pressed: crate::keyboard::PressType::Released,
                    locked: false,
                    keycodes,
                    action,
                },
            );
            proof {
                assert(key_states@[k as int].keycodes@ == pushed_codes);
                assert(key_states@[k as int].action == actions_spec[k as int]);
                assert forall|m: int| 0 <= m < k + 1 implies key_states@[m]
                    == (if m < k {
                    pre_ks[m]
                } else {
                    key_states@[k as int]
                }) by {
                    if m < k {
                        assert(key_states@[m] == pre_ks[m]);
                    }
                }
                assert(key_states@[k as int].keycodes@ == spec_codes_for(table_spec, ksyms));
            }
            k += 1;
        }
        proof {
            assert(actions_spec.skip(actions_spec.len() as int) =~= Seq::<
                crate::action::Action,
            >::empty());
        }

        // Assemble the views, wiring each button to its shared key state.
        let mut out_views: Vec<(String, crate::layout::View)> = Vec::new();
        let mut vi: usize = 0;
        while vi < self.views.len()
            invariant
                vi <= self.views@.len(),
                names == spec_view_names_of(self.views@),
                all_names@.map(|i2: int, n: String| n@) == all_spec,
                all_spec == spec_doc_button_names(self.views@, self.views@.len() as int),
                distinct@.map(|i2: int, n: String| n@) == dn_spec,
                dn_spec == dedup_first(all_spec),
                key_states@.len() == dn_spec.len(),
                forall|k2: int|
                    0 <= k2 < self.views@.len() ==> (#[trigger] self.views@[k2]).1@.len()
                        <= MAX_ROWS_PER_VIEW,
                out_views@.len() == vi,
                forall|k2: int|
                    0 <= k2 < vi ==> ((#[trigger] out_views@[k2]).0)@ == self.views@[k2].0@,
                forall|k2: int|
                    0 <= k2 < vi ==> {
                        let v = (#[trigger] out_views@[k2]).1;
                        &&& v.bounds == self.bounds
                        &&& v.rows@.len() == self.views@[k2].1@.len()
                        &&& (forall|ri: int|
                            0 <= ri < v.rows@.len() ==> {
                                let row = #[trigger] v.rows@[ri];
                                let toks = spec_split_ws(self.views@[k2].1@[ri]@);
                                &&& row.angle == 0
                                &&& row.bounds is None
                                &&& row.buttons@.len() == toks.len()
                                &&& (forall|bi: int|
                                    0 <= bi < row.buttons@.len() ==> {
                                        let b = #[trigger] row.buttons@[bi];
                                        &&& spec_button_matches(
                                            spec_meta_of(self.buttons@, toks[bi]),
                                            self.outlines@,
                                            toks[bi],
                                            b.state as int,
                                            b,
                                        )
                                        &&& b.state < dn_spec.len()
                                        &&& dn_spec[b.state as int] == toks[bi]
                                    })
                            })
                    },
            decreases self.views@.len() - vi,
        {
            let rows_src = &self.views[vi].1;
            let mut rows: Vec<crate::layout::Row> = Vec::new();
            let mut ri: usize = 0;
            while ri < rows_src.len()
                invariant
                    0 <= vi < self.views@.len(),
                    self.views@[vi as int].1 == *rows_src,
                    ri <= rows_src@.len(),
                    names == spec_view_names_of(self.views@),
                    all_names@.map(|i2: int, n: String| n@) == all_spec,
                    all_spec == spec_doc_button_names(self.views@, self.views@.len() as int),
                    distinct@.map(|i2: int, n: String| n@) == dn_spec,
                    dn_spec == dedup_first(all_spec),
                    key_states@.len() == dn_spec.len(),
                    rows@.len() == ri,
                    forall|r2: int|
                        0 <= r2 < ri ==> {
                            let row = #[trigger] rows@[r2];
                            let toks = spec_split_ws(self.views@[vi as int].1@[r2]@);
                            &&& row.angle == 0
                            &&& row.bounds is None
                            &&& row.buttons@.len() == toks.len()
                            &&& (forall|bi: int|
                                0 <= bi < row.buttons@.len() ==> {
                                    let b = #[trigger] row.buttons@[bi];
                                    &&& spec_button_matches(
                                        spec_meta_of(self.buttons@, toks[bi]),
                                        self.outlines@,
                                        toks[bi],
                                        b.state as int,
                                        b,
                                    )
                                    &&& b.state < dn_spec.len()
                                    &&& dn_spec[b.state as int] == toks[bi]
                                })
                        },
                decreases rows_src@.len() - ri,
            {
                let toks = split_ws(rows_src[ri].as_str());
                let ghost toks_spec = spec_split_ws(self.views@[vi as int].1@[ri as int]@);
                let mut buttons: Vec<crate::layout::Button> = Vec::new();
                let mut bi: usize = 0;
                while bi < toks.len()
                    invariant
                        0 <= vi < self.views@.len(),
                        0 <= ri < self.views@[vi as int].1@.len(),
                        bi <= toks@.len(),
                        toks@.map_values(|t2: String| t2@) == toks_spec,
                        toks_spec == spec_split_ws(self.views@[vi as int].1@[ri as int]@),
                        names == spec_view_names_of(self.views@),
                        all_names@.map(|i2: int, n: String| n@) == all_spec,
                        all_spec == spec_doc_button_names(self.views@, self.views@.len() as int),
                        distinct@.map(|i2: int, n: String| n@) == dn_spec,
                        dn_spec == dedup_first(all_spec),
                        key_states@.len() == dn_spec.len(),
                        buttons@.len() == bi,
                        forall|b2: int|
                            0 <= b2 < bi ==> {
                                let b = #[trigger] buttons@[b2];
                                &&& spec_button_matches(
                                    spec_meta_of(self.buttons@, toks_spec[b2]),
                                    self.outlines@,
                                    toks_spec[b2],
                                    b.state as int,
                                    b,
                                )
                                &&& b.state < dn_spec.len()
                                &&& dn_spec[b.state as int] == toks_spec[b2]
                            },
                    decreases toks@.len() - bi,
                {
                    proof {
                        assert(toks@[bi as int]@ == toks_spec[bi as int]);
                        lemma_doc_names_contains(
                            self.views@,
                            self.views@.len() as int,
                            vi as int,
                            ri as int,
                            bi as int,
                        );
                        crate::keyboard::lemma_dedup_first_distinct(all_spec);
                        assert(dn_spec.contains(toks_spec[bi as int]));
                    }
                    let idx = match index_of_name(&distinct, &toks[bi]) {
                        Some(idx) => idx,
                        None => {
                            proof {
                                let w = choose|w: int|
                                    0 <= w < dn_spec.len() && dn_spec[w] == toks_spec[bi as int];
                                assert(distinct@.map(|i2: int, n: String| n@)[w] == toks_spec[
                                    bi as int]);
                                assert(distinct@.map(|i2: int, n: String| n@).contains(
                                    toks_spec[bi as int],
                                ));
                                assert(false);
                            }
                            0
                        },
                    };
                    proof {
                        assert(distinct@[idx as int]@ == dn_spec[idx as int]);
                    }
                    let (button, mut wb) = create_button(
                        &self.buttons,
                        &self.outlines,
                        &toks[bi],
                        idx,
                    );
                    warnings.append(&mut wb);
                    buttons.push(button);
                    bi += 1;
                }
                rows.push(crate::layout::Row { buttons, angle: 0, bounds: None });
                ri += 1;
            }
            let view = crate::layout::View { bounds: self.bounds, rows };
            out_views.push((self.views[vi].0.clone(), view));
            vi += 1;
        }

        // Assemble the compiled layout and establish its invariant.
        let ghost ks_snapshot = key_states@;
        let data = crate::layout::LayoutData { views: out_views, keymap_str, key_states };
        proof {
            assert(data.key_states@ == ks_snapshot);
            assert(spec_names_of(data.views@) =~= names);
            assert(crate::keyboard::distinct_seqs(names));
            assert(names.contains(DEFAULT_VIEW_NAME@));
            assert forall|i2: int|
                0 <= i2 < data.views@.len() implies (#[trigger] data.views@[i2]).1.wf(
                data.key_states@.len(),
            ) && data.views@[i2].1.wf_geometry() by {
                let v = data.views@[i2].1;
                assert(v.bounds.wf());
                assert(self.views@[i2].1@.len() <= MAX_ROWS_PER_VIEW);
                assert forall|ri: int|
                    0 <= ri < v.rows@.len() implies (#[trigger] v.rows@[ri]).wf(
                    data.key_states@.len(),
                ) && v.rows@[ri].wf_geometry() by {
                    let row = v.rows@[ri];
                    let toks = spec_split_ws(self.views@[i2].1@[ri]@);
                    assert(spec_split_ws((self.views@[i2].1@[ri])@).len()
                        <= MAX_BUTTONS_PER_ROW);
                    assert forall|bi: int|
                        0 <= bi < row.buttons@.len() implies (#[trigger] row.buttons@[bi]).wf(
                        data.key_states@.len(),
                    ) && row.buttons@[bi].bounds.wf() by {
                        let b = row.buttons@[bi];
                        assert(spec_button_matches(
                            spec_meta_of(self.buttons@, toks[bi]),
                            self.outlines@,
                            toks[bi],
                            b.state as int,
                            b,
                        ));
                        lemma_outline_of_wf(
                            self.outlines@,
                            spec_outline_name_of(
                                spec_meta_of(self.buttons@, toks[bi]),
                                self.outlines@,
                            ),
                        );
                    }
                }
            }
            assert forall|k2: int|
                0 <= k2 < data.key_states@.len() implies crate::layout::spec_key_state_wf(
                #[trigger] data.key_states@[k2],
                spec_names_of(data.views@),
            ) by {
                let s = data.key_states@[k2];
                assert(ks_snapshot[k2] == s);
                assert(spec_action_matches(
                    spec_meta_of(self.buttons@, dn_spec[k2]),
                    dn_spec[k2],
                    names,
                    *symbols,
                    s.action,
                ));
                assert forall|ci: int|
                    0 <= ci < s.keycodes@.len() implies crate::keyboard::KEYCODE_BOTTOM <= (
                #[trigger] s.keycodes@[ci]) <= crate::keyboard::KEYCODE_MAX by {
                    let ks2 = spec_keysyms_of(
                        spec_meta_of(self.buttons@, dn_spec[k2]),
                        dn_spec[k2],
                        *symbols,
                    );
                    assert(ks_snapshot[k2] == s);
                    assert(s.keycodes@ == spec_codes_for(table_spec, ks2));
                    assert(spec_all_contained(table_spec, ks2));
                    let x = ks2[ci];
                    assert(table_spec.contains(x));
                    let w = choose|w: int|
                        0 <= w < table_spec.len() && #[trigger] table_spec[w] == x;
                    lemma_code_index_unique(table_spec, x, w);
                    assert(s.keycodes@[ci] == (crate::keyboard::KEYCODE_BOTTOM + w) as u32);
                }
                match s.action {
                    crate::action::Action::SetLevel(t) => {
                        assert(names.contains(t@));
                    },
                    crate::action::Action::LockLevel { lock, unlock } => {
                        assert(names.contains(lock@) && names.contains(unlock@));
                    },
                    _ => {},
                }
                assert(crate::layout::spec_action_targets_ok(
                    s.action,
                    spec_names_of(data.views@),
                ));
            }
            assert(data.wf());
        }
        (Ok(data), warnings)
    }
}

/// An outline the lookup returns has well-formed bounds whenever every
/// outline in the list does.
pub proof fn lemma_outline_of_wf(outlines: Seq<(String, Outline)>, name: Seq<char>)
    requires
        forall|i: int| 0 <= i < outlines.len() ==> (#[trigger] outlines[i]).1.bounds.wf(),
    ensures
        spec_outline_of(outlines, name) matches Some(o) ==> o.bounds.wf(),
    decreases outlines.len(),
{
    if outlines.len() > 0 && outlines[0].0@ != name {
        assert(forall|i: int|
            0 <= i < outlines.drop_first().len() ==> (#[trigger] outlines.drop_first()[i]).1.bounds.wf());
        lemma_outline_of_wf(outlines.drop_first(), name);
    }
}

/// Pushes a clone of `src[i]` onto `dst`.
fn all_names_push_clone(dst: &mut Vec<String>, src: &Vec<String>, i: usize)
    requires
        i < src@.len(),
    ensures
        final(dst)@.len() == old(dst)@.len() + 1,
        forall|k: int| 0 <= k < old(dst)@.len() ==> final(dst)@[k] == old(dst)@[k],
        final(dst)@.last()@ == src@[i as int]@,
{
    dst.push(src[i].clone());
}

/// A keysym of a submitting id stands among all submitted keysym names.
pub proof fn lemma_submit_names_contains(
    buttons: Seq<(String, ButtonMeta)>,
    symbols: SymbolSet,
    dn: Seq<Seq<char>>,
    n: int,
    k: int,
    ci: int,
)
    requires
        0 <= k < n <= dn.len(),
        0 <= ci < spec_keysyms_of(spec_meta_of(buttons, dn[k]), dn[k], symbols).len(),
    ensures
        spec_submit_names(buttons, symbols, dn, n).contains(
            spec_keysyms_of(spec_meta_of(buttons, dn[k]), dn[k], symbols)[ci],
        ),
    decreases n,
{
    let x = spec_keysyms_of(spec_meta_of(buttons, dn[k]), dn[k], symbols)[ci];
    if k == n - 1 {
        let prefix = spec_submit_names(buttons, symbols, dn, n - 1);
        assert(spec_submit_names(buttons, symbols, dn, n)[prefix.len() + ci] == x);
    } else {
        lemma_submit_names_contains(buttons, symbols, dn, n - 1, k, ci);
        let m = choose|m: int|
            0 <= m < spec_submit_names(buttons, symbols, dn, n - 1).len() && (
            #[trigger] spec_submit_names(buttons, symbols, dn, n - 1)[m]) == x;
        assert(spec_submit_names(buttons, symbols, dn, n)[m] == x);
    }
}

} // verus!
