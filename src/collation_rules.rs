//! Tailoring rules in CLDR collation rule syntax, and their parser.
use vstd::prelude::*;
use std::ops::RangeInclusive;
use vstd::string::StrSliceExecFns;
use crate::text::{
    all_hex, char_from_u32, chars_of, hex_digit, hex_digit_value, hex_value, is_scalar,
    is_white_space, read_hex, string_of, white_space,
};

verus! {

broadcast use vstd::string::group_string_axioms;

/// A collation type and its parsed tailoring.
#[derive(Eq, PartialEq, Debug)]
pub struct Collation {
    pub kind: String,
    pub rules: CollationRules,
}

/// A parsed tailoring: its settings, in source order (repeated names kept),
/// and its rules. Neither is applied to a table here.
#[derive(Eq, PartialEq, Debug)]
pub struct CollationRules {
    pub settings: Vec<(String, String)>,
    pub rules: Vec<Rule>,
}

/// One rule of a tailoring.
#[derive(Eq, PartialEq, Debug)]
pub enum Rule {
    SetContext { before: Option<u8>, sequence: String },
    Equal { sequence: String },
    MultiEqual { multisequence: Vec<SequenceElement> },
    Increment {
        level: u8,
        prefix: Option<String>,
        extension: Option<String>,
        sequence: String,
    },
    MultiIncrement { level: u8, multisequence: Vec<SequenceElement> },
}

/// One item of a multisequence: an inclusive range or a single character.
#[derive(PartialEq, Eq, Debug)]
pub enum SequenceElement {
    Range(RangeInclusive<char>),
    Char(char),
}

/// A failed parse, with the offset (in characters) of the input where it
/// stopped.
#[derive(PartialEq, Eq, Clone, Copy, Debug)]
pub struct ParseError {
    pub position: usize,
}

// ---------------------------------------------------------------------------
// Mathematical model of parsed rules
/// The model of a [`SequenceElement`].
pub enum ElementView {
    Range(char, char),
    Char(char),
}

/// The model of a [`Rule`]: strings become character sequences.
pub enum RuleView {
    SetContext { before: Option<u8>, sequence: Seq<char> },
    Equal { sequence: Seq<char> },
    MultiEqual { multisequence: Seq<ElementView> },
    Increment {
        level: u8,
        prefix: Option<Seq<char>>,
        extension: Option<Seq<char>>,
        sequence: Seq<char>,
    },
    MultiIncrement { level: u8, multisequence: Seq<ElementView> },
}

/// The model of [`CollationRules`].
pub struct CollationRulesView {
    pub settings: Seq<(Seq<char>, Seq<char>)>,
    pub rules: Seq<RuleView>,
}

impl View for SequenceElement {
    type V = ElementView;

    open spec fn view(&self) -> ElementView {
        match self {
            SequenceElement::Range(r) => ElementView::Range(r@.start, r@.end),
            SequenceElement::Char(c) => ElementView::Char(*c),
        }
    }
}

pub open spec fn string_opt_view(o: Option<String>) -> Option<Seq<char>> {
    match o {
        Some(s) => Some(s@),
        None => None,
    }
}

pub open spec fn elements_view(v: Seq<SequenceElement>) -> Seq<ElementView> {
    v.map_values(|e: SequenceElement| e@)
}

proof fn lemma_elements_view_push(v: Seq<SequenceElement>, e: SequenceElement)
    ensures
        elements_view(v.push(e)) == elements_view(v).push(e@),
{
    let a = elements_view(v.push(e));
    let b = elements_view(v).push(e@);
    assert(a.len() == b.len());
    assert forall|k: int| 0 <= k < a.len() implies a[k] == b[k] by {
        if k < v.len() {
            assert(v.push(e)[k] == v[k]);
        } else {
            assert(v.push(e)[k] == e);
        }
    }
    assert(a =~= b);
}

impl View for Rule {
    type V = RuleView;

    open spec fn view(&self) -> RuleView {
        match self {
            Rule::SetContext { before, sequence } => RuleView::SetContext {
                before: *before,
                sequence: sequence@,
            },
            Rule::Equal { sequence } => RuleView::Equal { sequence: sequence@ },
            Rule::MultiEqual { multisequence } => RuleView::MultiEqual {
                multisequence: elements_view(multisequence@),
            },
            Rule::Increment { level, prefix, extension, sequence } => RuleView::Increment {
                level: *level,
                prefix: string_opt_view(*prefix),
                extension: string_opt_view(*extension),
                sequence: sequence@,
            },
            Rule::MultiIncrement { level, multisequence } => RuleView::MultiIncrement {
                level: *level,
                multisequence: elements_view(multisequence@),
            },
        }
    }
}

pub open spec fn rules_view(v: Seq<Rule>) -> Seq<RuleView> {
    v.map_values(|r: Rule| r@)
}

pub open spec fn settings_view(v: Seq<(String, String)>) -> Seq<(Seq<char>, Seq<char>)> {
    v.map_values(|p: (String, String)| (p.0@, p.1@))
}

impl View for CollationRules {
    type V = CollationRulesView;

    open spec fn view(&self) -> CollationRulesView {
        CollationRulesView { settings: settings_view(self.settings@), rules: rules_view(self.rules@) }
    }
}

// ---------------------------------------------------------------------------
// The grammar, as functions from an input and a start offset to what is read
// there and the offset after it.
/// Reserved characters: white space and the ASCII punctuation ranges
/// U+0021..U+002F, U+003A..U+0040, U+005B..U+0060 and U+007B..U+007E.
pub open spec fn is_reserved(c: char) -> bool {
    let v = c as u32;
    ||| is_white_space(c)
    ||| 0x21 <= v <= 0x2F
    ||| 0x3A <= v <= 0x40
    ||| 0x5B <= v <= 0x60
    ||| 0x7B <= v <= 0x7E
}

/// The white space that may stand between tokens: space, tab, CR, LF.
pub open spec fn is_multispace(c: char) -> bool {
    c == ' ' || c == '\t' || c == '\r' || c == '\n'
}

pub open spec fn spaces_end(s: Seq<char>, i: int) -> int
    decreases s.len() - i,
{
    if 0 <= i < s.len() && is_multispace(s[i]) {
        spaces_end(s, i + 1)
    } else {
        i
    }
}

/// End of the text of a line comment: the first CR or LF at or after `i`.
pub open spec fn line_text_end(s: Seq<char>, i: int) -> int
    decreases s.len() - i,
{
    if 0 <= i < s.len() && s[i] != '\r' && s[i] != '\n' {
        line_text_end(s, i + 1)
    } else {
        i
    }
}

/// A line comment `# ...` with its line ending (LF or CR LF) at `i`.
pub open spec fn line_comment(s: Seq<char>, i: int) -> Option<int> {
    if 0 <= i < s.len() && s[i] == '#' {
        let j = line_text_end(s, i + 1);
        if j < s.len() && s[j] == '\n' {
            Some(j + 1)
        } else if j + 1 < s.len() && s[j] == '\r' && s[j + 1] == '\n' {
            Some(j + 2)
        } else {
            None
        }
    } else {
        None
    }
}

/// End of the white space at `i`, which may hold one line comment.
pub open spec fn ws_end(s: Seq<char>, i: int) -> int {
    let j = spaces_end(s, i);
    match line_comment(s, j) {
        Some(k) => spaces_end(s, k),
        None => j,
    }
}

/// `n` hexadecimal digits at `i` that spell a Unicode scalar value.
pub open spec fn hex_char(s: Seq<char>, i: int, n: int) -> Option<(char, int)> {
    if 0 <= i && i + n <= s.len() && all_hex(s, i, i + n) && is_scalar(
        hex_value(s, i, i + n) as int,
    ) {
        Some((hex_value(s, i, i + n) as char, i + n))
    } else {
        None
    }
}

/// The character that a backslash followed by `x` stands for, for every `x`
/// but `u` and `U`.
pub open spec fn escape_target(x: char) -> char {
    if x == 'a' {
        '\x07'
    } else if x == 'b' {
        '\x08'
    } else if x == 't' {
        '\t'
    } else if x == 'n' {
        '\n'
    } else if x == 'v' {
        '\x0B'
    } else if x == 'f' {
        '\x0C'
    } else if x == 'r' {
        '\r'
    } else if x == 'e' {
        '\x1B'
    } else {
        // `"`, `'`, `?`, `\` and every other character stand for themselves
        x
    }
}

/// An escape at `i`: `\uHHHH`, `\UHHHHHHHH`, or a backslash and one character.
pub open spec fn escape(s: Seq<char>, i: int) -> Option<(char, int)> {
    if 0 <= i && i + 1 < s.len() && s[i] == '\\' {
        if s[i + 1] == 'U' {
            hex_char(s, i + 2, 8)
        } else if s[i + 1] == 'u' {
            hex_char(s, i + 2, 4)
        } else {
            Some((escape_target(s[i + 1]), i + 2))
        }
    } else {
        None
    }
}

/// The characters inside a quoted span, from `i` up to the first character
/// that is neither literal nor a valid escape.
pub open spec fn quoted_items(s: Seq<char>, i: int) -> (Seq<char>, int)
    decreases s.len() - i,
{
    if 0 <= i < s.len() && s[i] != '\\' && s[i] != '\'' {
        let r = quoted_items(s, i + 1);
        (seq![s[i]] + r.0, r.1)
    } else {
        match escape(s, i) {
            Some((c, j)) => if i < j <= s.len() {
                let r = quoted_items(s, j);
                (seq![c] + r.0, r.1)
            } else {
                (Seq::empty(), i)
            },
            None => (Seq::empty(), i),
        }
    }
}

/// A non-empty quoted span `'...'` at `i`.
pub open spec fn quoted(s: Seq<char>, i: int) -> Option<(Seq<char>, int)> {
    if 0 <= i < s.len() && s[i] == '\'' {
        let r = quoted_items(s, i + 1);
        if r.1 > i + 1 && r.1 < s.len() && s[r.1] == '\'' {
            Some((r.0, r.1 + 1))
        } else {
            None
        }
    } else {
        None
    }
}

/// Unreserved characters and quoted spans from `i` on, concatenated.
pub open spec fn sequence_items(s: Seq<char>, i: int) -> (Seq<char>, int)
    decreases s.len() - i,
{
    if 0 <= i < s.len() && !is_reserved(s[i]) {
        let r = sequence_items(s, i + 1);
        (seq![s[i]] + r.0, r.1)
    } else {
        match quoted(s, i) {
            Some((q, j)) => if i < j <= s.len() {
                let r = sequence_items(s, j);
                (q + r.0, r.1)
            } else {
                (Seq::empty(), i)
            },
            None => (Seq::empty(), i),
        }
    }
}

/// A sequence at `i`: at least one unreserved character or quoted span.
pub open spec fn sequence_at(s: Seq<char>, i: int) -> Option<(Seq<char>, int)> {
    let r = sequence_items(s, i);
    if r.1 > i {
        Some(r)
    } else {
        None
    }
}

/// One item of a multisequence at `i`: `c1-c2` or a single unreserved character.
pub open spec fn multi_item(s: Seq<char>, i: int) -> Option<(ElementView, int)> {
    if 0 <= i && i + 2 < s.len() && !is_reserved(s[i]) && s[i + 1] == '-' && !is_reserved(
        s[i + 2],
    ) {
        Some((ElementView::Range(s[i], s[i + 2]), i + 3))
    } else if 0 <= i < s.len() && !is_reserved(s[i]) {
        Some((ElementView::Char(s[i]), i + 1))
    } else {
        None
    }
}

pub open spec fn multi_items(s: Seq<char>, i: int) -> (Seq<ElementView>, int)
    decreases s.len() - i,
{
    match multi_item(s, i) {
        Some((e, j)) => if i < j <= s.len() {
            let r = multi_items(s, j);
            (seq![e] + r.0, r.1)
        } else {
            (Seq::empty(), i)
        },
        None => (Seq::empty(), i),
    }
}

/// A non-empty multisequence at `i`.
pub open spec fn multisequence_at(s: Seq<char>, i: int) -> Option<(Seq<ElementView>, int)> {
    let r = multi_items(s, i);
    if r.0.len() > 0 {
        Some(r)
    } else {
        None
    }
}

/// The number of `<` at `i`, counting no further than four.
pub open spec fn level_run(s: Seq<char>, i: int, n: int) -> int
    decreases 4 - n,
{
    if 0 <= n < 4 && 0 <= i + n < s.len() && s[i + n] == '<' {
        level_run(s, i, n + 1)
    } else {
        n
    }
}

pub open spec fn level_at(s: Seq<char>, i: int) -> int {
    level_run(s, i, 0)
}

/// `<`, `<<`, `<<<` or `<<<<` and `*`, then a multisequence.
pub open spec fn multi_increment_at(s: Seq<char>, i: int) -> Option<(RuleView, int)> {
    let n = level_at(s, i);
    if n >= 1 && i + n < s.len() && s[i + n] == '*' {
        match multisequence_at(s, ws_end(s, i + n + 1)) {
            Some((m, j)) => Some((RuleView::MultiIncrement { level: n as u8, multisequence: m }, j)),
            None => None,
        }
    } else {
        None
    }
}

/// The optional part `mark sequence` of an increment that follows offset `i`.
pub open spec fn marked_sequence(s: Seq<char>, i: int, mark: char) -> (Option<Seq<char>>, int) {
    let j = ws_end(s, i);
    if 0 <= j < s.len() && s[j] == mark {
        match sequence_at(s, ws_end(s, j + 1)) {
            Some((q, k)) => (Some(q), k),
            None => (None, i),
        }
    } else {
        (None, i)
    }
}

/// `<` to `<<<<`, a sequence, then optionally `| prefix` and `/ extension`.
pub open spec fn increment_at(s: Seq<char>, i: int) -> Option<(RuleView, int)> {
    let n = level_at(s, i);
    if n >= 1 {
        match sequence_at(s, ws_end(s, i + n)) {
            Some((q, j)) => {
                let p = marked_sequence(s, j, '|');
                let e = marked_sequence(s, p.1, '/');
                Some(
                    (
                        RuleView::Increment {
                            level: n as u8,
                            prefix: p.0,
                            extension: e.0,
                            sequence: q,
                        },
                        e.1,
                    ),
                )
            },
            None => None,
        }
    } else {
        None
    }
}

/// `[before N]` at `i`, with N one of 1, 2, 3.
pub open spec fn before_at(s: Seq<char>, i: int) -> Option<(u8, int)> {
    if 0 <= i && i + 7 <= s.len() && s[i] == '[' && s[i + 1] == 'b' && s[i + 2] == 'e' && s[i
        + 3] == 'f' && s[i + 4] == 'o' && s[i + 5] == 'r' && s[i + 6] == 'e' {
        let j = spaces_end(s, i + 7);
        if j > i + 7 && j + 1 < s.len() && '1' <= s[j] <= '3' && s[j + 1] == ']' {
            Some(((s[j] as u32 - '0' as u32) as u8, j + 2))
        } else {
            None
        }
    } else {
        None
    }
}

/// `&`, an optional `[before N]`, then a sequence.
pub open spec fn set_context_at(s: Seq<char>, i: int) -> Option<(RuleView, int)> {
    if 0 <= i < s.len() && s[i] == '&' {
        let p = ws_end(s, i + 1);
        let b: (Option<u8>, int) = match before_at(s, p) {
            Some((n, j)) => (Some(n), ws_end(s, j)),
            None => (None, p),
        };
        match sequence_at(s, b.1) {
            Some((q, k)) => Some((RuleView::SetContext { before: b.0, sequence: q }, k)),
            None => None,
        }
    } else {
        None
    }
}

/// `=*` then a multisequence.
pub open spec fn multi_equal_at(s: Seq<char>, i: int) -> Option<(RuleView, int)> {
    if 0 <= i && i + 1 < s.len() && s[i] == '=' && s[i + 1] == '*' {
        match multisequence_at(s, ws_end(s, i + 2)) {
            Some((m, j)) => Some((RuleView::MultiEqual { multisequence: m }, j)),
            None => None,
        }
    } else {
        None
    }
}

/// `=` then a sequence.
pub open spec fn equal_at(s: Seq<char>, i: int) -> Option<(RuleView, int)> {
    if 0 <= i < s.len() && s[i] == '=' {
        match sequence_at(s, ws_end(s, i + 1)) {
            Some((q, j)) => Some((RuleView::Equal { sequence: q }, j)),
            None => None,
        }
    } else {
        None
    }
}

/// The first of the rule forms that reads a rule at `i`.
pub open spec fn rule_form_at(s: Seq<char>, i: int) -> Option<(RuleView, int)> {
    if multi_increment_at(s, i) is Some {
        multi_increment_at(s, i)
    } else if increment_at(s, i) is Some {
        increment_at(s, i)
    } else if multi_equal_at(s, i) is Some {
        multi_equal_at(s, i)
    } else if equal_at(s, i) is Some {
        equal_at(s, i)
    } else {
        set_context_at(s, i)
    }
}

/// A rule after white space at `i`.
pub open spec fn rule_at(s: Seq<char>, i: int) -> Option<(RuleView, int)> {
    rule_form_at(s, ws_end(s, i))
}

/// As many rules as can be read from `i` on.
pub open spec fn rules_at(s: Seq<char>, i: int) -> (Seq<RuleView>, int)
    decreases s.len() - i,
{
    match rule_at(s, i) {
        Some((r, j)) => if i < j <= s.len() {
            let t = rules_at(s, j);
            (seq![r] + t.0, t.1)
        } else {
            (Seq::empty(), i)
        },
        None => (Seq::empty(), i),
    }
}

/// ASCII letters, digits and `-`.
pub open spec fn is_ident_char(c: char) -> bool {
    ('a' <= c <= 'z') || ('A' <= c <= 'Z') || ('0' <= c <= '9') || c == '-'
}

pub open spec fn ident_end(s: Seq<char>, i: int) -> int
    decreases s.len() - i,
{
    if 0 <= i < s.len() && is_ident_char(s[i]) {
        ident_end(s, i + 1)
    } else {
        i
    }
}

pub open spec fn blanks_end(s: Seq<char>, i: int) -> int
    decreases s.len() - i,
{
    if 0 <= i < s.len() && (s[i] == ' ' || s[i] == '\t') {
        blanks_end(s, i + 1)
    } else {
        i
    }
}

/// `[name value]` at `i`.
pub open spec fn setting_at(s: Seq<char>, i: int) -> Option<((Seq<char>, Seq<char>), int)> {
    if 0 <= i < s.len() && s[i] == '[' {
        let a = ident_end(s, i + 1);
        let b = blanks_end(s, a);
        let c = ident_end(s, b);
        if a > i + 1 && b > a && c > b && c < s.len() && s[c] == ']' {
            Some(((s.subrange(i + 1, a), s.subrange(b, c)), c + 1))
        } else {
            None
        }
    } else {
        None
    }
}

/// Settings from `i` on, with white space between them.
pub open spec fn settings_at(s: Seq<char>, i: int) -> (Seq<(Seq<char>, Seq<char>)>, int)
    decreases s.len() - i,
{
    match setting_at(s, i) {
        Some((kv, j)) => {
            let p = ws_end(s, j);
            if i < p <= s.len() && setting_at(s, p) is Some {
                let t = settings_at(s, p);
                (seq![kv] + t.0, t.1)
            } else {
                (seq![kv], j)
            }
        },
        None => (Seq::empty(), i),
    }
}

/// A whole tailoring: settings, then rules, with white space around them,
/// and nothing else. `Err` holds the offset of the first character not read.
pub open spec fn tailoring(s: Seq<char>) -> Result<CollationRulesView, int> {
    let p0 = ws_end(s, 0);
    let st = settings_at(s, p0);
    let rs = rules_at(s, ws_end(s, st.1));
    let end = ws_end(s, rs.1);
    if end == s.len() {
        Ok(CollationRulesView { settings: st.0, rules: rs.0 })
    } else {
        Err(end)
    }
}

// ---------------------------------------------------------------------------
// The parser
/// Whether `c` is reserved: it then needs quoting inside a sequence.
pub fn is_reserved_char(c: char) -> (r: bool)
    ensures
        r == is_reserved(c),
{
    let v = c as u32;
    white_space(c) || (0x21 <= v && v <= 0x2F) || (0x3A <= v && v <= 0x40) || (0x5B <= v && v
        <= 0x60) || (0x7B <= v && v <= 0x7E)
}

fn is_multispace_char(c: char) -> (r: bool)
    ensures
        r == is_multispace(c),
{
    c == ' ' || c == '\t' || c == '\r' || c == '\n'
}

fn skip_spaces(s: &Vec<char>, i: usize) -> (r: usize)
    requires
        i <= s.len(),
    ensures
        r == spaces_end(s@, i as int),
        i <= r <= s.len(),
{
    let mut j = i;
    while j < s.len() && is_multispace_char(s[j])
        invariant
            i <= j <= s.len(),
            spaces_end(s@, j as int) == spaces_end(s@, i as int),
        decreases s.len() - j,
    {
        j = j + 1;
    }
    j
}

/// Reads white space that may hold one line comment `# ...` and its line ending.
pub fn comment(s: &Vec<char>, i: usize) -> (r: usize)
    requires
        i <= s.len(),
    ensures
        r == ws_end(s@, i as int),
        i <= r <= s.len(),
{
    let j = skip_spaces(s, i);
    if j < s.len() && s[j] == '#' {
        let mut k = j + 1;
        while k < s.len() && s[k] != '\r' && s[k] != '\n'
            invariant
                j < k <= s.len(),
                line_text_end(s@, k as int) == line_text_end(s@, j + 1),
            decreases s.len() - k,
        {
            k = k + 1;
        }
        if k < s.len() && s[k] == '\n' {
            return skip_spaces(s, k + 1);
        } else if s.len() - k > 1 && s[k] == '\r' && s[k + 1] == '\n' {
            return skip_spaces(s, k + 2);
        }
    }
    j
}

/// Reads `n` hexadecimal digits at `i` as the character with that value.
pub fn hex_digits(s: &Vec<char>, i: usize, n: usize) -> (r: Option<(char, usize)>)
    requires
        i <= s.len(),
    ensures
        match r {
            Some((c, j)) => hex_char(s@, i as int, n as int) == Some((c, j as int)),
            None => hex_char(s@, i as int, n as int) is None,
        },
{
    if n > s.len() - i {
        return None;
    }
    let end = i + n;
    let mut k = i;
    while k < end
        invariant
            i <= k <= end <= s.len(),
            end == i + n,
            all_hex(s@, i as int, k as int),
        decreases end - k,
    {
        if hex_digit(s[k]).is_none() {
            assert(hex_digit_value(s@[k as int]) is None);
            assert(!all_hex(s@, i as int, end as int));
            return None;
        }
        k = k + 1;
    }
    match read_hex(s, i, end, 0x10FFFF) {
        Some(v) => match char_from_u32(v) {
            Some(c) => {
                assert(c == hex_value(s@, i as int, end as int) as char);
                Some((c, end))
            },
            None => None,
        },
        None => None,
    }
}

/// Reads an escape at `i`: `\uHHHH`, `\UHHHHHHHH`, or a backslash and one
/// character.
pub fn read_escape(s: &Vec<char>, i: usize) -> (r: Option<(char, usize)>)
    requires
        i <= s.len(),
    ensures
        match r {
            Some((c, j)) => escape(s@, i as int) == Some((c, j as int)),
            None => escape(s@, i as int) is None,
        },
{
    if i < s.len() && s.len() - i > 1 && s[i] == '\\' {
        let x = s[i + 1];
        if x == 'U' {
            hex_digits(s, i + 2, 8)
        } else if x == 'u' {
            hex_digits(s, i + 2, 4)
        } else {
            let c = if x == 'a' {
                '\x07'
            } else if x == 'b' {
                '\x08'
            } else if x == 't' {
                '\t'
            } else if x == 'n' {
                '\n'
            } else if x == 'v' {
                '\x0B'
            } else if x == 'f' {
                '\x0C'
            } else if x == 'r' {
                '\r'
            } else if x == 'e' {
                '\x1B'
            } else {
                x
            };
            Some((c, i + 2))
        }
    } else {
        None
    }
}

/// Reads a non-empty quoted span `'...'` at `i`; inside it every character
/// but `\` and `'` stands for itself, and `\` starts an escape.
pub fn read_quoted(s: &Vec<char>, i: usize) -> (r: Option<(Vec<char>, usize)>)
    requires
        i <= s.len(),
    ensures
        match r {
            Some((v, j)) => quoted(s@, i as int) == Some((v@, j as int)),
            None => quoted(s@, i as int) is None,
        },
{
    if !(i < s.len() && s[i] == '\'') {
        return None;
    }
    let mut out: Vec<char> = Vec::new();
    let mut j = i + 1;
    loop
        invariant
            i < j <= s.len(),
            out@ + quoted_items(s@, j as int).0 == quoted_items(s@, i + 1).0,
            quoted_items(s@, j as int).1 == quoted_items(s@, i + 1).1,
        ensures
            i < j <= s.len(),
            out@ == quoted_items(s@, i + 1).0,
            j == quoted_items(s@, i + 1).1,
        decreases s.len() - j,
    {
        if j < s.len() && s[j] != '\\' && s[j] != '\'' {
            assert(out@.push(s@[j as int]) + quoted_items(s@, j + 1).0 =~= out@ + quoted_items(
                s@,
                j as int,
            ).0);
            out.push(s[j]);
            j = j + 1;
        } else {
            match read_escape(s, j) {
                Some((c, k)) => {
                    assert(out@.push(c) + quoted_items(s@, k as int).0 =~= out@ + quoted_items(
                        s@,
                        j as int,
                    ).0);
                    out.push(c);
                    j = k;
                },
                None => {
                    assert(out@ =~= out@ + quoted_items(s@, j as int).0);
                    break ;
                },
            }
        }
    }
    if j > i + 1 && j < s.len() && s[j] == '\'' {
        Some((out, j + 1))
    } else {
        None
    }
}

/// Reads a sequence at `i`: unreserved characters and quoted spans, at least
/// one of them, concatenated.
pub fn read_sequence(s: &Vec<char>, i: usize) -> (r: Option<(Vec<char>, usize)>)
    requires
        i <= s.len(),
    ensures
        match r {
            Some((v, j)) => sequence_at(s@, i as int) == Some((v@, j as int)),
            None => sequence_at(s@, i as int) is None,
        },
        r matches Some((v, j)) ==> i < j <= s.len(),
{
    let mut out: Vec<char> = Vec::new();
    let mut j = i;
    loop
        invariant
            i <= j <= s.len(),
            out@ + sequence_items(s@, j as int).0 == sequence_items(s@, i as int).0,
            sequence_items(s@, j as int).1 == sequence_items(s@, i as int).1,
            j > i || out@.len() == 0,
        ensures
            i <= j <= s.len(),
            out@ == sequence_items(s@, i as int).0,
            j == sequence_items(s@, i as int).1,
            j > i || out@.len() == 0,
        decreases s.len() - j,
    {
        if j < s.len() && !is_reserved_char(s[j]) {
            assert(out@.push(s@[j as int]) + sequence_items(s@, j + 1).0 =~= out@
                + sequence_items(s@, j as int).0);
            out.push(s[j]);
            j = j + 1;
        } else {
            match read_quoted(s, j) {
                Some((q, k)) => {
                    assert((out@ + q@) + sequence_items(s@, k as int).0 =~= out@ + sequence_items(
                        s@,
                        j as int,
                    ).0);
                    let mut q = q;
                    out.append(&mut q);
                    j = k;
                },
                None => {
                    assert(out@ =~= out@ + sequence_items(s@, j as int).0);
                    break ;
                },
            }
        }
    }
    if j > i {
        Some((out, j))
    } else {
        None
    }
}

/// Reads a non-empty multisequence at `i`: single unreserved characters and
/// inclusive ranges `c1-c2`, with no quoting.
pub fn multisequence(s: &Vec<char>, i: usize) -> (r: Option<(Vec<SequenceElement>, usize)>)
    requires
        i <= s.len(),
    ensures
        match r {
            Some((v, j)) => multisequence_at(s@, i as int) == Some((elements_view(v@), j as int)),
            None => multisequence_at(s@, i as int) is None,
        },
        r matches Some((v, j)) ==> i < j <= s.len(),
{
    let mut out: Vec<SequenceElement> = Vec::new();
    let mut j = i;
    loop
        invariant
            i <= j <= s.len(),
            elements_view(out@) + multi_items(s@, j as int).0 == multi_items(s@, i as int).0,
            multi_items(s@, j as int).1 == multi_items(s@, i as int).1,
            j >= i + out@.len(),
        ensures
            j >= i + out@.len(),
            i <= j <= s.len(),
            elements_view(out@) == multi_items(s@, i as int).0,
            j == multi_items(s@, i as int).1,
        decreases s.len() - j,
    {
        if j < s.len() && !is_reserved_char(s[j]) {
            let e = if s.len() - j > 2 && s[j + 1] == '-' && !is_reserved_char(s[j + 2]) {
                let e = SequenceElement::Range(RangeInclusive::new(s[j], s[j + 2]));
                j = j + 3;
                e
            } else {
                let e = SequenceElement::Char(s[j]);
                j = j + 1;
                e
            };
            let ghost old_out = out@;
            let ghost ev = e@;
            out.push(e);
            assert(out@ == old_out.push(e));
            proof {
                lemma_elements_view_push(old_out, e);
            }
            assert(elements_view(out@) + multi_items(s@, j as int).0 =~= multi_items(
                s@,
                i as int,
            ).0);
        } else {
            assert(elements_view(out@) =~= elements_view(out@) + multi_items(s@, j as int).0);
            break ;
        }
    }
    if out.len() > 0 {
        Some((out, j))
    } else {
        None
    }
}

/// Counts the `<` at `i`, up to four.
fn level(s: &Vec<char>, i: usize) -> (r: usize)
    requires
        i <= s.len(),
    ensures
        r == level_at(s@, i as int),
        r <= 4,
        i + r <= s.len(),
{
    let mut n: usize = 0;
    while n < 4 && s.len() - i > n && s[i + n] == '<'
        invariant
            n <= 4,
            i + n <= s.len(),
            level_run(s@, i as int, n as int) == level_at(s@, i as int),
        decreases 4 - n,
    {
        n = n + 1;
    }
    n
}

/// Reads `<`..`<<<<` and `*`, then a multisequence, at `i`.
pub fn multi_increment(s: &Vec<char>, i: usize) -> (r: Option<(Rule, usize)>)
    requires
        i <= s.len(),
    ensures
        match r {
            Some((rule, j)) => multi_increment_at(s@, i as int) == Some((rule@, j as int)),
            None => multi_increment_at(s@, i as int) is None,
        },
        r matches Some((x, j)) ==> i < j <= s.len(),
{
    let n = level(s, i);
    if n >= 1 && i + n < s.len() && s[i + n] == '*' {
        let p = comment(s, i + n + 1);
        match multisequence(s, p) {
            Some((m, j)) => Some((Rule::MultiIncrement { level: n as u8, multisequence: m }, j)),
            None => None,
        }
    } else {
        None
    }
}

/// Reads the optional `mark sequence` part of an increment after offset `i`;
/// when it is absent the offset stays `i`.
fn marked(s: &Vec<char>, i: usize, mark: char) -> (r: (Option<String>, usize))
    requires
        i <= s.len(),
    ensures
        (string_opt_view(r.0), r.1 as int) == marked_sequence(s@, i as int, mark),
        i <= r.1 <= s.len(),
{
    let j = comment(s, i);
    if j < s.len() && s[j] == mark {
        let p = comment(s, j + 1);
        match read_sequence(s, p) {
            Some((q, k)) => (Some(string_of(q.as_slice())), k),
            None => (None, i),
        }
    } else {
        (None, i)
    }
}

/// Reads `<`..`<<<<`, a sequence, then an optional `| prefix` and an optional
/// `/ extension`, at `i`.
pub fn increment(s: &Vec<char>, i: usize) -> (r: Option<(Rule, usize)>)
    requires
        i <= s.len(),
    ensures
        match r {
            Some((rule, j)) => increment_at(s@, i as int) == Some((rule@, j as int)),
            None => increment_at(s@, i as int) is None,
        },
        r matches Some((x, j)) ==> i < j <= s.len(),
{
    let n = level(s, i);
    if n == 0 {
        return None;
    }
    let p = comment(s, i + n);
    match read_sequence(s, p) {
        Some((q, j)) => {
            let (prefix, k) = marked(s, j, '|');
            let (extension, m) = marked(s, k, '/');
            let sequence = string_of(q.as_slice());
            Some((Rule::Increment { level: n as u8, prefix, extension, sequence }, m))
        },
        None => None,
    }
}

/// Reads `[before N]` at `i`, with N one of 1, 2 and 3.
pub fn read_before(s: &Vec<char>, i: usize) -> (r: Option<(u8, usize)>)
    requires
        i <= s.len(),
    ensures
        match r {
            Some((n, j)) => before_at(s@, i as int) == Some((n, j as int)),
            None => before_at(s@, i as int) is None,
        },
{
    if s.len() - i >= 7 && s[i] == '[' && s[i + 1] == 'b' && s[i + 2] == 'e' && s[i + 3] == 'f'
        && s[i + 4] == 'o' && s[i + 5] == 'r' && s[i + 6] == 'e' {
        let j = skip_spaces(s, i + 7);
        if j > i + 7 && s.len() - j > 1 && '1' <= s[j] && s[j] <= '3' && s[j + 1] == ']' {
            Some(((s[j] as u32 - '0' as u32) as u8, j + 2))
        } else {
            None
        }
    } else {
        None
    }
}

/// Reads `&`, an optional `[before N]`, then a sequence, at `i`.
pub fn set_context(s: &Vec<char>, i: usize) -> (r: Option<(Rule, usize)>)
    requires
        i <= s.len(),
    ensures
        match r {
            Some((rule, j)) => set_context_at(s@, i as int) == Some((rule@, j as int)),
            None => set_context_at(s@, i as int) is None,
        },
        r matches Some((x, j)) ==> i < j <= s.len(),
{
    if !(i < s.len() && s[i] == '&') {
        return None;
    }
    let p = comment(s, i + 1);
    let (before, q) = match read_before(s, p) {
        Some((n, j)) => (Some(n), comment(s, j)),
        None => (None, p),
    };
    match read_sequence(s, q) {
        Some((v, k)) => Some((Rule::SetContext { before, sequence: string_of(v.as_slice()) }, k)),
        None => None,
    }
}

/// Reads `=*` then a multisequence at `i`.
pub fn multi_equal(s: &Vec<char>, i: usize) -> (r: Option<(Rule, usize)>)
    requires
        i <= s.len(),
    ensures
        match r {
            Some((rule, j)) => multi_equal_at(s@, i as int) == Some((rule@, j as int)),
            None => multi_equal_at(s@, i as int) is None,
        },
        r matches Some((x, j)) ==> i < j <= s.len(),
{
    if s.len() - i > 1 && s[i] == '=' && s[i + 1] == '*' {
        let p = comment(s, i + 2);
        match multisequence(s, p) {
            Some((m, j)) => Some((Rule::MultiEqual { multisequence: m }, j)),
            None => None,
        }
    } else {
        None
    }
}

/// Reads `=` then a sequence at `i`.
pub fn equal(s: &Vec<char>, i: usize) -> (r: Option<(Rule, usize)>)
    requires
        i <= s.len(),
    ensures
        match r {
            Some((rule, j)) => equal_at(s@, i as int) == Some((rule@, j as int)),
            None => equal_at(s@, i as int) is None,
        },
        r matches Some((x, j)) ==> i < j <= s.len(),
{
    if i < s.len() && s[i] == '=' {
        let p = comment(s, i + 1);
        match read_sequence(s, p) {
            Some((v, j)) => Some((Rule::Equal { sequence: string_of(v.as_slice()) }, j)),
            None => None,
        }
    } else {
        None
    }
}

/// Reads one rule after white space at `i`, trying the forms in a fixed order:
/// `<*` before `<`, and `=*` before `=`.
pub fn read_rule(s: &Vec<char>, i: usize) -> (r: Option<(Rule, usize)>)
    requires
        i <= s.len(),
    ensures
        match r {
            Some((rule, j)) => rule_at(s@, i as int) == Some((rule@, j as int)),
            None => rule_at(s@, i as int) is None,
        },
        r matches Some((x, j)) ==> i < j <= s.len(),
{
    let p = comment(s, i);
    if let Some(r) = multi_increment(s, p) {
        return Some(r);
    }
    if let Some(r) = increment(s, p) {
        return Some(r);
    }
    if let Some(r) = multi_equal(s, p) {
        return Some(r);
    }
    if let Some(r) = equal(s, p) {
        return Some(r);
    }
    set_context(s, p)
}

/// Reads as many rules as follow `i`.
pub fn read_rules(s: &Vec<char>, i: usize) -> (r: (Vec<Rule>, usize))
    requires
        i <= s.len(),
    ensures
        (rules_view(r.0@), r.1 as int) == rules_at(s@, i as int),
        i <= r.1 <= s.len(),
{
    let mut out: Vec<Rule> = Vec::new();
    let mut j = i;
    loop
        invariant
            i <= j <= s.len(),
            rules_view(out@) + rules_at(s@, j as int).0 == rules_at(s@, i as int).0,
            rules_at(s@, j as int).1 == rules_at(s@, i as int).1,
        ensures
            i <= j <= s.len(),
            rules_view(out@) == rules_at(s@, i as int).0,
            j == rules_at(s@, i as int).1,
        decreases s.len() - j,
    {
        match read_rule(s, j) {
            Some((rule, k)) => {
                if k > j && k <= s.len() {
                    let ghost old_out = out@;
                    out.push(rule);
                    proof {
                        lemma_rules_view_push(old_out, rule);
                    }
                    assert(rules_view(out@) + rules_at(s@, k as int).0 =~= rules_view(old_out)
                        + rules_at(s@, j as int).0);
                    j = k;
                } else {
                    assert(rules_view(out@) =~= rules_view(out@) + rules_at(s@, j as int).0);
                    break ;
                }
            },
            None => {
                assert(rules_view(out@) =~= rules_view(out@) + rules_at(s@, j as int).0);
                break ;
            },
        }
    }
    (out, j)
}

proof fn lemma_rules_view_push(v: Seq<Rule>, e: Rule)
    ensures
        rules_view(v.push(e)) == rules_view(v).push(e@),
{
    let a = rules_view(v.push(e));
    let b = rules_view(v).push(e@);
    assert forall|k: int| 0 <= k < a.len() implies a[k] == b[k] by {
        if k < v.len() {
            assert(v.push(e)[k] == v[k]);
        } else {
            assert(v.push(e)[k] == e);
        }
    }
    assert(a =~= b);
}

fn is_ident_char_exec(c: char) -> (r: bool)
    ensures
        r == is_ident_char(c),
{
    ('a' <= c && c <= 'z') || ('A' <= c && c <= 'Z') || ('0' <= c && c <= '9') || c == '-'
}

/// Reads an identifier (ASCII letters, digits and `-`) at `i`; returns its end.
pub fn identifier(s: &Vec<char>, i: usize) -> (r: usize)
    requires
        i <= s.len(),
    ensures
        r == ident_end(s@, i as int),
        i <= r <= s.len(),
{
    let mut j = i;
    while j < s.len() && is_ident_char_exec(s[j])
        invariant
            i <= j <= s.len(),
            ident_end(s@, j as int) == ident_end(s@, i as int),
        decreases s.len() - j,
    {
        j = j + 1;
    }
    j
}

fn skip_blanks(s: &Vec<char>, i: usize) -> (r: usize)
    requires
        i <= s.len(),
    ensures
        r == blanks_end(s@, i as int),
        i <= r <= s.len(),
{
    let mut j = i;
    while j < s.len() && (s[j] == ' ' || s[j] == '\t')
        invariant
            i <= j <= s.len(),
            blanks_end(s@, j as int) == blanks_end(s@, i as int),
        decreases s.len() - j,
    {
        j = j + 1;
    }
    j
}

/// Reads a setting `[name value]` at `i`.
pub fn setting(s: &Vec<char>, i: usize) -> (r: Option<((String, String), usize)>)
    requires
        i <= s.len(),
    ensures
        match r {
            Some((kv, j)) => setting_at(s@, i as int) == Some(((kv.0@, kv.1@), j as int)),
            None => setting_at(s@, i as int) is None,
        },
        r matches Some((kv, j)) ==> i < j <= s.len(),
{
    if !(i < s.len() && s[i] == '[') {
        return None;
    }
    let a = identifier(s, i + 1);
    let b = skip_blanks(s, a);
    let c = identifier(s, b);
    if a > i + 1 && b > a && c > b && c < s.len() && s[c] == ']' {
        let name = string_of(vstd::slice::slice_subrange(s.as_slice(), i + 1, a));
        let value = string_of(vstd::slice::slice_subrange(s.as_slice(), b, c));
        Some(((name, value), c + 1))
    } else {
        None
    }
}

/// Reads the settings from `i` on, with white space between them.
pub fn settings(s: &Vec<char>, i: usize) -> (r: (Vec<(String, String)>, usize))
    requires
        i <= s.len(),
    ensures
        (settings_view(r.0@), r.1 as int) == settings_at(s@, i as int),
        i <= r.1 <= s.len(),
{
    let mut out: Vec<(String, String)> = Vec::new();
    let mut cur = i;
    if setting(s, i).is_none() {
        return (out, i);
    }
    loop
        invariant
            i <= cur <= s.len(),
            setting_at(s@, cur as int) is Some,
            settings_view(out@) + settings_at(s@, cur as int).0 == settings_at(s@, i as int).0,
            settings_at(s@, cur as int).1 == settings_at(s@, i as int).1,
        decreases s.len() - cur,
    {
        let (kv, j) = match setting(s, cur) {
            Some(x) => x,
            None => {
                return (out, cur);
            },
        };
        let p = comment(s, j);
        let ghost old_out = out@;
        let ghost kvv = (kv.0@, kv.1@);
        out.push(kv);
        assert(settings_view(out@) =~= settings_view(old_out).push(kvv));
        if p > cur && setting(s, p).is_some() {
            assert(settings_view(out@) + settings_at(s@, p as int).0 =~= settings_view(old_out)
                + settings_at(s@, cur as int).0);
            cur = p;
        } else {
            assert(settings_view(out@) =~= settings_view(old_out) + settings_at(
                s@,
                cur as int,
            ).0);
            return (out, j);
        }
    }
}

/// Parses a whole tailoring: settings, then rules, with white space (and line
/// comments) around them. It fails unless all of the text is read, and the
/// error then holds the offset of the first character that was not.
pub fn cldr(i: &str) -> (r: Result<CollationRules, ParseError>)
    ensures
        match r {
            Ok(c) => tailoring(i@) == Ok::<CollationRulesView, int>(c@),
            Err(e) => tailoring(i@) == Err::<CollationRulesView, int>(e.position as int),
        },
{
    let s = chars_of(i);
    let p0 = comment(&s, 0);
    let (settings, p1) = settings(&s, p0);
    let p2 = comment(&s, p1);
    let (rules, p3) = read_rules(&s, p2);
    let end = comment(&s, p3);
    if end == s.len() {
        Ok(CollationRules { settings, rules })
    } else {
        Err(ParseError { position: end })
    }
}

impl ParseError {
    /// What is left of `input` from where the parse stopped.
    pub fn remaining<'a>(&self, input: &'a str) -> (r: &'a str)
        ensures
            self.position <= input@.len() ==> r@ == input@.subrange(
                self.position as int,
                input@.len() as int,
            ),
            self.position > input@.len() ==> r@.len() == 0,
    {
        let n = input.unicode_len();
        let p = if self.position <= n {
            self.position
        } else {
            n
        };
        input.substring_char(p, n)
    }
}

/// What is left of `i` after its first `j` characters.
fn rest_after<'a>(i: &'a str, j: usize) -> (r: &'a str)
    requires
        j <= i@.len(),
    ensures
        r@ == i@.subrange(j as int, i@.len() as int),
{
    let n = i.unicode_len();
    i.substring_char(j, n)
}

/// Parses an escape at the start of `i`: `\uHHHH`, `\UHHHHHHHH`, or a
/// backslash and one character. Returns what is left and the character.
pub fn escaped_char(i: &str) -> (r: Result<(&str, char), ParseError>)
    ensures
        match r {
            Ok((rest, c)) => escape(i@, 0) matches Some((c2, j)) && c == c2 && rest@ == i@.subrange(
                j,
                i@.len() as int,
            ),
            Err(e) => escape(i@, 0) is None && e.position == 0,
        },
{
    let s = chars_of(i);
    match read_escape(&s, 0) {
        Some((c, j)) => Ok((rest_after(i, j), c)),
        None => Err(ParseError { position: 0 }),
    }
}

/// Parses a non-empty quoted span `'...'` at the start of `i`. Returns what is
/// left and the characters that the span stands for.
pub fn quoted_chars(i: &str) -> (r: Result<(&str, String), ParseError>)
    ensures
        match r {
            Ok((rest, v)) => quoted(i@, 0) matches Some((v2, j)) && v@ == v2 && rest@ == i@.subrange(
                j,
                i@.len() as int,
            ),
            Err(e) => quoted(i@, 0) is None && e.position == 0,
        },
{
    let s = chars_of(i);
    match read_quoted(&s, 0) {
        Some((v, j)) => Ok((rest_after(i, j), string_of(v.as_slice()))),
        None => Err(ParseError { position: 0 }),
    }
}

/// Parses a sequence at the start of `i`. Returns what is left and the
/// characters of the sequence, quotes and escapes resolved.
pub fn sequence(i: &str) -> (r: Result<(&str, String), ParseError>)
    ensures
        match r {
            Ok((rest, v)) => sequence_at(i@, 0) matches Some((v2, j)) && v@ == v2 && rest@
                == i@.subrange(j, i@.len() as int),
            Err(e) => sequence_at(i@, 0) is None && e.position == 0,
        },
{
    let s = chars_of(i);
    match read_sequence(&s, 0) {
        Some((v, j)) => Ok((rest_after(i, j), string_of(v.as_slice()))),
        None => Err(ParseError { position: 0 }),
    }
}

/// Parses `[before N]` at the start of `i`. Returns what is left and N.
pub fn before(i: &str) -> (r: Result<(&str, u8), ParseError>)
    ensures
        match r {
            Ok((rest, n)) => before_at(i@, 0) matches Some((n2, j)) && n == n2 && rest@
                == i@.subrange(j, i@.len() as int),
            Err(e) => before_at(i@, 0) is None && e.position == 0,
        },
{
    let s = chars_of(i);
    match read_before(&s, 0) {
        Some((n, j)) => Ok((rest_after(i, j), n)),
        None => Err(ParseError { position: 0 }),
    }
}

/// Parses one rule, after white space, at the start of `i`. Returns what is
/// left and the rule; an error holds the offset where the rule was sought.
pub fn rule(i: &str) -> (r: Result<(&str, Rule), ParseError>)
    ensures
        match r {
            Ok((rest, x)) => rule_at(i@, 0) matches Some((x2, j)) && x@ == x2 && rest@
                == i@.subrange(j, i@.len() as int),
            Err(e) => rule_at(i@, 0) is None && e.position == ws_end(i@, 0),
        },
{
    let s = chars_of(i);
    match read_rule(&s, 0) {
        Some((x, j)) => Ok((rest_after(i, j), x)),
        None => Err(ParseError { position: comment(&s, 0) }),
    }
}

/// Parses as many rules as start `i`; this never fails. Returns what is left
/// and the rules.
pub fn rules(i: &str) -> (r: Result<(&str, Vec<Rule>), ParseError>)
    ensures
        r matches Ok((rest, v)) && rules_view(v@) == rules_at(i@, 0).0 && rest@ == i@.subrange(
            rules_at(i@, 0).1,
            i@.len() as int,
        ),
{
    let s = chars_of(i);
    let (v, j) = read_rules(&s, 0);
    Ok((rest_after(i, j), v))
}

// ---------------------------------------------------------------------------
// Laws
/// At any offset at most one rule form reads a rule, so the order in which the
/// forms are tried does not change what is read: whichever form succeeds is
/// what the rule parser returns.
pub proof fn lemma_rule_forms_exclusive(s: Seq<char>, i: int)
    ensures
        multi_increment_at(s, i) is Some ==> rule_form_at(s, i) == multi_increment_at(s, i),
        increment_at(s, i) is Some ==> rule_form_at(s, i) == increment_at(s, i),
        multi_equal_at(s, i) is Some ==> rule_form_at(s, i) == multi_equal_at(s, i),
        equal_at(s, i) is Some ==> rule_form_at(s, i) == equal_at(s, i),
        set_context_at(s, i) is Some ==> rule_form_at(s, i) == set_context_at(s, i),
{
    let n = level_at(s, i);
    if multi_increment_at(s, i) is Some {
        // after the `<` run stands `*`, which no sequence can start with
        let k = i + n;
        assert(s[k] == '*');
        assert(spaces_end(s, k) == k);
        assert(line_comment(s, k) is None);
        assert(ws_end(s, k) == k);
        assert(quoted(s, k) is None);
        assert(sequence_items(s, k).1 == k);
        assert(increment_at(s, i) is None);
    }
    if multi_equal_at(s, i) is Some {
        let k = i + 1;
        assert(s[k] == '*');
        assert(spaces_end(s, k) == k);
        assert(line_comment(s, k) is None);
        assert(ws_end(s, k) == k);
        assert(quoted(s, k) is None);
        assert(sequence_items(s, k).1 == k);
        assert(equal_at(s, i) is None);
    }
    if increment_at(s, i) is Some || multi_increment_at(s, i) is Some {
        assert(level_run(s, i, 0) >= 1);
        assert(s[i] == '<');
    }
}

/// A backslash and any character but `u` or `U`, in quotes, reads as a
/// sequence of the one character that the escape stands for.
pub proof fn lemma_escape_round_trip(x: char)
    requires
        x != 'u',
        x != 'U',
    ensures
        sequence_at(seq!['\'', '\\', x, '\''], 0) == Some((seq![escape_target(x)], 4int)),
{
    let s = seq!['\'', '\\', x, '\''];
    assert(escape(s, 1) == Some((escape_target(x), 3int)));
    assert(escape(s, 3) is None);
    assert(quoted_items(s, 3) == (Seq::<char>::empty(), 3int));
    assert(quoted_items(s, 1).0 =~= seq![escape_target(x)]);
    assert(quoted(s, 0) == Some((seq![escape_target(x)], 4int)));
    assert(sequence_items(s, 4) == (Seq::<char>::empty(), 4int));
    assert(sequence_items(s, 0).0 =~= seq![escape_target(x)]);
}

/// 16 to the power `n`.
pub open spec fn pow16(n: nat) -> nat
    decreases n,
{
    if n == 0 {
        1
    } else {
        16 * pow16((n - 1) as nat)
    }
}

/// The lower-case hexadecimal digit for `d < 16`.
pub open spec fn hex_digit_char(d: nat) -> char {
    if d < 10 {
        (48 + d) as char
    } else {
        (87 + d) as char
    }
}

/// `v` written with `n` hexadecimal digits, most significant first.
pub open spec fn hex_spelling(v: nat, n: nat) -> Seq<char>
    decreases n,
{
    if n == 0 {
        Seq::empty()
    } else {
        hex_spelling(v / 16, (n - 1) as nat).push(hex_digit_char(v % 16))
    }
}

proof fn lemma_hex_digit_char(d: nat)
    requires
        d < 16,
    ensures
        hex_digit_value(hex_digit_char(d)) == Some(d),
{
}

proof fn lemma_hex_spelling_len(v: nat, n: nat)
    ensures
        hex_spelling(v, n).len() == n,
    decreases n,
{
    if n > 0 {
        lemma_hex_spelling_len(v / 16, (n - 1) as nat);
    }
}

proof fn lemma_hex_spelling(s: Seq<char>, a: int, v: nat, n: nat)
    requires
        0 <= a,
        a + n <= s.len(),
        s.subrange(a, a + n) == hex_spelling(v, n),
        v < pow16(n),
    ensures
        all_hex(s, a, a + n),
        hex_value(s, a, a + n) == v,
    decreases n,
{
    if n > 0 {
        let m = (n - 1) as nat;
        let p = pow16(m);
        assert(v / 16 < p) by (nonlinear_arith)
            requires
                v < 16 * p,
        ;
        lemma_hex_spelling_len(v / 16, m);
        assert(hex_spelling(v, n) == hex_spelling(v / 16, m).push(hex_digit_char(v % 16)));
        assert(hex_spelling(v, n).drop_last() =~= hex_spelling(v / 16, m));
        assert(s.subrange(a, a + m) =~= hex_spelling(v, n).drop_last());
        lemma_hex_spelling(s, a, v / 16, m);
        assert(s[a + m] == s.subrange(a, a + n)[m as int]);
        lemma_hex_digit_char(v % 16);
        assert(v == (v / 16) * 16 + v % 16) by (nonlinear_arith);
        assert forall|k: int| a <= k < a + n implies #[trigger] hex_digit_value(
            s[k],
        ) is Some by {
            if k < a + m {
                assert(all_hex(s, a, a + m));
            }
        }
    }
}

/// `\u` and the four hexadecimal digits of any character below U+10000, in
/// quotes, read as a sequence of that one character.
pub proof fn lemma_escape_u_round_trip(c: char)
    requires
        (c as int) < 0x10000,
    ensures
        sequence_at(seq!['\'', '\\', 'u'] + hex_spelling(c as nat, 4) + seq!['\''], 0) == Some(
            (seq![c], 8int),
        ),
{
    let s = seq!['\'', '\\', 'u'] + hex_spelling(c as nat, 4) + seq!['\''];
    reveal_with_fuel(pow16, 5);
    assert(pow16(4) == 0x10000);
    lemma_hex_spelling_len(c as nat, 4);
    assert(s.subrange(3, 7) =~= hex_spelling(c as nat, 4));
    lemma_hex_spelling(s, 3, c as nat, 4);
    assert(escape(s, 1) == Some((c, 7int)));
    assert(escape(s, 7) is None);
    assert(quoted_items(s, 7) == (Seq::<char>::empty(), 7int));
    assert(quoted_items(s, 1).0 =~= seq![c]);
    assert(quoted(s, 0) == Some((seq![c], 8int)));
    assert(sequence_items(s, 8) == (Seq::<char>::empty(), 8int));
    assert(sequence_items(s, 0).0 =~= seq![c]);
}

/// `\U` and the eight hexadecimal digits of any character, in quotes, read
/// as a sequence of that one character.
pub proof fn lemma_escape_big_u_round_trip(c: char)
    ensures
        sequence_at(seq!['\'', '\\', 'U'] + hex_spelling(c as nat, 8) + seq!['\''], 0) == Some(
            (seq![c], 12int),
        ),
{
    let s = seq!['\'', '\\', 'U'] + hex_spelling(c as nat, 8) + seq!['\''];
    reveal_with_fuel(pow16, 9);
    assert(pow16(8) == 0x100000000);
    lemma_hex_spelling_len(c as nat, 8);
    assert(s.subrange(3, 11) =~= hex_spelling(c as nat, 8));
    lemma_hex_spelling(s, 3, c as nat, 8);
    assert(escape(s, 1) == Some((c, 11int)));
    assert(escape(s, 11) is None);
    assert(quoted_items(s, 11) == (Seq::<char>::empty(), 11int));
    assert(quoted_items(s, 1).0 =~= seq![c]);
    assert(quoted(s, 0) == Some((seq![c], 12int)));
    assert(sequence_items(s, 12) == (Seq::<char>::empty(), 12int));
    assert(sequence_items(s, 0).0 =~= seq![c]);
}

} // verus!
