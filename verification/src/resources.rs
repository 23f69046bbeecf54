//! Bundled resources: builtin layout documents and translations of the
//! layout identifier strings.

use vstd::prelude::*;
use vstd::view::View as _;

use vstd::string::StrSliceExecFns;

use crate::data::spec_is_ws;

verus! {

/// The builtin fallback layout document.
pub const KEYBOARD_US: &'static str = "bounds: { x: 0, y: 0, width: 10, height: 4 }\nviews:\n  base:\n    - \"q w e r t y u i o p\"\n    - \"a s d f g h j k l\"\n    - \"shift z x c v b n m\"\n    - \"preferences . space_bar\"\n  upper:\n    - \"Q W E R T Y U I O P\"\n    - \"A S D F G H J K L\"\n    - \"shift Z X C V B N M\"\n    - \"preferences . space_bar\"\nbuttons:\n  shift:\n    action:\n      locking: { lock_view: upper, unlock_view: base }\n    label: \"Shift\"\n  preferences:\n    action: show_prefs\n    icon: \"keyboard-settings\"\n  space_bar:\n    keysym: \"space\"\n    label: \" \"\noutlines:\n  default: { bounds: { x: 0, y: 0, width: 1, height: 1 } }\n";

/// The builtin terminal overlay document.
pub const KEYBOARD_TERMINAL: &'static str = "bounds: { x: 0, y: 0, width: 10, height: 2 }\nviews:\n  base:\n    - \"Tab - _ = .\"\n    - \": ; ( ) ~\"\noutlines:\n  default: { bounds: { x: 0, y: 0, width: 2, height: 1 } }\n";

/// The builtin emoji overlay document.
pub const KEYBOARD_EMOJI: &'static str = "bounds: { x: 0, y: 0, width: 10, height: 1 }\nviews:\n  base:\n    - \"\u{1F600} \u{1F44D} \u{2764}\"\noutlines:\n  default: { bounds: { x: 0, y: 0, width: 3, height: 1 } }\n";

/// The names every builtin layout relies on being recognized.
pub fn builtin_symbol_names() -> (r: Vec<String>)
    ensures
        r@.len() == 2,
        r@[0]@ == "space"@,
        r@[1]@ == "Tab"@,
{
    let mut names: Vec<String> = Vec::new();
    names.push("space".to_owned());
    names.push("Tab".to_owned());
    names
}

/// Returns the builtin layout document of that name, if one is bundled.
pub fn get_keyboard(needle: &str) -> (r: Option<&'static str>)
    ensures
        needle@ == "us"@ ==> (r matches Some(t) && t@ == KEYBOARD_US@),
        needle@ == "terminal"@ ==> (r matches Some(t) && t@ == KEYBOARD_TERMINAL@),
        needle@ == "emoji"@ ==> (r matches Some(t) && t@ == KEYBOARD_EMOJI@),
        needle@ != "us"@ && needle@ != "terminal"@ && needle@ != "emoji"@ ==> r is None,
{
    proof {
        reveal_strlit("us");
        reveal_strlit("terminal");
        reveal_strlit("emoji");
        assert(("us"@).len() == 2);
        assert(("terminal"@).len() == 8);
        assert(("emoji"@).len() == 5);
    }
    let name = needle.to_owned();
    if crate::data::str_eq(&name, "us") {
        proof {
            assert(needle@ != "terminal"@);
            assert(needle@ != "emoji"@);
        }
        Some(KEYBOARD_US)
    } else if crate::data::str_eq(&name, "terminal") {
        proof {
            assert(needle@ != "us"@);
            assert(needle@ != "emoji"@);
        }
        Some(KEYBOARD_TERMINAL)
    } else if crate::data::str_eq(&name, "emoji") {
        proof {
            assert(needle@ != "us"@);
            assert(needle@ != "terminal"@);
        }
        Some(KEYBOARD_EMOJI)
    } else {
        None
    }
}

/// The names of the bundled overlay layouts.
pub fn get_overlays() -> (r: Vec<&'static str>)
    ensures
        r@.len() == 2,
        r@[0]@ == "emoji"@,
        r@[1]@ == "terminal"@,
{
    let mut out: Vec<&'static str> = Vec::new();
    out.push("emoji");
    out.push("terminal");
    out
}

/// A human translation of a layout identifier.
#[derive(Debug, Clone, Copy)]
pub struct Translation<'a>(pub &'a str);

impl<'a> PartialEq for Translation<'a> {
    fn eq(&self, other: &Translation<'a>) -> (r: bool) {
        self.0.to_owned().eq(&other.0.to_owned())
    }
}

impl<'a> vstd::std_specs::cmp::PartialEqSpecImpl for Translation<'a> {
    open spec fn obeys_eq_spec() -> bool {
        true
    }

    open spec fn eq_spec(&self, other: &Translation<'a>) -> bool {
        self.0@ == other.0@
    }
}

/// The length of the run of separator characters starting at `i`.
pub open spec fn spec_ws_run(s: Seq<char>, i: int) -> int
    decreases s.len() - i,
{
    if i < 0 || i >= s.len() || !spec_is_ws(s[i]) {
        0
    } else {
        1 + spec_ws_run(s, i + 1)
    }
}

/// The first position of a space at or after `i`, or the length.
pub open spec fn spec_find_space(s: Seq<char>, i: int) -> int
    decreases s.len() - i,
{
    if i < 0 || i >= s.len() {
        s.len() as int
    } else if s[i] == ' ' {
        i
    } else {
        spec_find_space(s, i + 1)
    }
}

/// Whether a line is blank or a comment: its first non-separator
/// character, if any, is a hash.
pub open spec fn spec_is_comment(s: Seq<char>) -> bool {
    let lead = spec_ws_run(s, 0);
    lead < s.len() && s[lead] == '#'
}

/// Reads one line of a translation table: `None` for comments and for
/// lines without a space; otherwise the name before the first space, and
/// the rest of the line, trimmed of trailing separators, as translation.
#[verifier::loop_isolation(false)]
pub fn parse_line<'a>(line: &'a str) -> (r: Option<(&'a str, Translation<'a>)>)
    ensures
        ({
            let s = line@;
            let lead = spec_ws_run(s, 0);
            let d = spec_find_space(s, 0);
            if spec_is_comment(s) || d >= s.len() {
                r is None
            } else {
                r matches Some(p) && p.0@ == s.take(d) && {
                    let rest = s.skip(d + 1);
                    let cut = spec_trimmed_len(rest);
                    p.1.0@ == rest.take(cut).skip(spec_ws_run(rest.take(cut), 0))
                }
            }
        }),
{
    let n = line.unicode_len();
    let ghost s = line@;
    proof {
        lemma_ws_run_nonneg(s, 0);
    }
    // Leading separators, to recognize comments.
    let mut lead: usize = 0;
    while lead < n && is_ws_char(line.get_char(lead))
        invariant
            lead <= n,
            forall|j: int| 0 <= j < lead ==> spec_is_ws(#[trigger] s[j]),
            spec_ws_run(s, 0) >= lead,
        decreases n - lead,
    {
        proof {
            lemma_ws_run_step(s, 0, lead as int);
        }
        lead += 1;
    }
    proof {
        lemma_ws_run_value(s, 0, lead as int);
    }
    if lead < n && line.get_char(lead) == '#' {
        return None;
    }
    // The first space splits name from translation.
    let mut d: usize = 0;
    while d < n && line.get_char(d) != ' '
        invariant
            d <= n,
            spec_find_space(s, 0) == spec_find_space(s, d as int),
            forall|j: int| 0 <= j < d ==> s[j] != ' ',
        decreases n - d,
    {
        d += 1;
    }
    proof {
        assert(spec_find_space(s, 0) == d as int || (d == n && spec_find_space(s, d as int)
            == s.len()));
    }
    if d >= n {
        return None;
    }
    let name = line.substring_char(0, d);
    // The translation: the rest, trimmed of separators on both sides.
    let rest = line.substring_char(d + 1, n);
    let tr = trim_ws(rest);
    Some((name, Translation(tr)))
}

/// Tells a separator character.
fn is_ws_char(c: char) -> (r: bool)
    ensures
        r == spec_is_ws(c),
{
    c == ' ' || c == '\t' || c == '\n' || c == '\r' || c == '\u{c}'
}

/// The length of `s` without its trailing separators.
pub open spec fn spec_trimmed_len(s: Seq<char>) -> int
    decreases s.len(),
{
    if s.len() == 0 {
        0
    } else if spec_is_ws(s.last()) {
        spec_trimmed_len(s.drop_last())
    } else {
        s.len() as int
    }
}

/// Trims separator characters from both ends.
#[verifier::loop_isolation(false)]
fn trim_ws<'a>(s: &'a str) -> (r: &'a str)
    ensures
        ({
            let cut = spec_trimmed_len(s@);
            r@ == s@.take(cut).skip(spec_ws_run(s@.take(cut), 0))
        }),
{
    let n = s.unicode_len();
    proof {
        assert(s@.take(n as int) =~= s@);
    }
    let mut end: usize = n;
    while end > 0 && is_ws_char(s.get_char(end - 1))
        invariant
            end <= n,
            spec_trimmed_len(s@) == spec_trimmed_len(s@.take(end as int)),
        decreases end,
    {
        proof {
            assert(s@.take(end as int).drop_last() =~= s@.take(end - 1));
            assert(s@.take(end as int).last() == s@[end - 1]);
        }
        end -= 1;
    }
    proof {
        if end > 0 {
            assert(s@.take(end as int).last() == s@[end - 1]);
        }
        assert(spec_trimmed_len(s@.take(end as int)) == end as int);
        assert(spec_trimmed_len(s@) == end as int);
    }
    let ghost cut_seq = s@.take(end as int);
    proof {
        lemma_ws_run_nonneg(cut_seq, 0);
    }
    let mut start: usize = 0;
    while start < end && is_ws_char(s.get_char(start))
        invariant
            start <= end,
            end <= n,
            forall|j: int| 0 <= j < start ==> spec_is_ws(#[trigger] cut_seq[j]),
            spec_ws_run(cut_seq, 0) >= start,
        decreases end - start,
    {
        proof {
            lemma_ws_run_step(cut_seq, 0, start as int);
        }
        start += 1;
    }
    proof {
        lemma_ws_run_value(cut_seq, 0, start as int);
        assert(s@.subrange(start as int, end as int) =~= cut_seq.skip(
            spec_ws_run(cut_seq, 0),
        ));
    }
    s.substring_char(start, end)
}

/// The run length is never negative.
proof fn lemma_ws_run_nonneg(s: Seq<char>, i: int)
    ensures
        spec_ws_run(s, i) >= 0,
    decreases s.len() - i,
{
    if 0 <= i < s.len() && spec_is_ws(s[i]) {
        lemma_ws_run_nonneg(s, i + 1);
    }
}

/// A run of separators at least `k` long continues one further when the
/// next character is a separator.
proof fn lemma_ws_run_step(s: Seq<char>, i: int, k: int)
    requires
        i >= 0,
        k >= 0,
        i + k < s.len(),
        forall|j: int| i <= j < i + k ==> spec_is_ws(#[trigger] s[j]),
        spec_is_ws(s[i + k]),
    ensures
        spec_ws_run(s, i) >= k + 1,
    decreases k,
{
    lemma_ws_run_nonneg(s, i + 1);
    if k > 0 {
        lemma_ws_run_step(s, i + 1, k - 1);
    }
}

/// A run of exactly `k` separators, followed by a non-separator or the
/// end, is what the run length comes to.
proof fn lemma_ws_run_value(s: Seq<char>, i: int, k: int)
    requires
        i >= 0,
        k >= 0,
        i + k <= s.len(),
        forall|j: int| i <= j < i + k ==> spec_is_ws(#[trigger] s[j]),
        i + k < s.len() ==> !spec_is_ws(s[i + k]),
    ensures
        spec_ws_run(s, i) == k,
    decreases k,
{
    if k > 0 {
        lemma_ws_run_value(s, i + 1, k - 1);
    }
}

/// The layout-name translations bundled for a user language, if any.
pub fn get_layout_names(lang: &str) -> (r: Option<std::collections::HashMap<
    &'static str,
    Translation<'static>,
>>)
    ensures
        lang@ == "en-US"@ ==> r is Some,
        lang@ != "en-US"@ ==> r is None,
{
    proof {
        reveal_strlit("en-US");
    }
    let lang_owned = lang.to_owned();
    if crate::data::str_eq(&lang_owned, "en-US") {
        Some(make_mapping("us English (US)\nterminal Terminal\nemoji Emoji\n"))
    } else {
        None
    }
}

/// Builds the name-to-translation mapping from a translation table text:
/// one entry per line that `parse_line` accepts.
pub fn make_mapping(data: &str) -> (r: std::collections::HashMap<&str, Translation<'_>>) {
    let mut map: std::collections::HashMap<&str, Translation<'_>> =
        std::collections::HashMap::new();
    let n = data.unicode_len();
    let mut start: usize = 0;
    let mut i: usize = 0;
    while i < n
        invariant
            start <= i,
            i <= n,
            n == data@.len(),
        decreases n - i,
    {
        if data.get_char(i) == '\n' {
            let line = data.substring_char(start, i);
            match parse_line(line) {
                Some((name, tr)) => {
                    map.insert(name, tr);
                },
                None => {},
            }
            start = i + 1;
        }
        i += 1;
    }
    let line = data.substring_char(start, n);
    match parse_line(line) {
        Some((name, tr)) => {
            map.insert(name, tr);
        },
        None => {},
    }
    map
}

} // verus!
