//! The text format of the Default Unicode Collation Element Table.
//!
//! A data row reads `HEX (' ' HEX)* ; [.PPPP.SSSS.TTTT]... # comment`, with
//! `*` in place of `.` for a variable element. Blank lines, `#` comment lines
//! and the `@version` and `@implicitweights` directives are skipped; implicit
//! weights are not interpreted.
use vstd::prelude::*;
use crate::CollationElement;
use crate::collation_rules::ParseError;
use crate::text::{
    all_hex, char_from_u32, chars_of, hex_digit, hex_run_end, hex_value, is_scalar,
    lemma_hex_run_end, read_hex,
};

verus! {

/// End of a run of spaces and tabs.
pub open spec fn blank_end(s: Seq<char>, i: int) -> int
    decreases s.len() - i,
{
    if 0 <= i < s.len() && (s[i] == ' ' || s[i] == '\t') {
        blank_end(s, i + 1)
    } else {
        i
    }
}

/// End of a run of spaces.
pub open spec fn space_end(s: Seq<char>, i: int) -> int
    decreases s.len() - i,
{
    if 0 <= i < s.len() && s[i] == ' ' {
        space_end(s, i + 1)
    } else {
        i
    }
}

/// The first line feed at or after `i`, or the end of the text.
pub open spec fn line_end(s: Seq<char>, i: int) -> int
    decreases s.len() - i,
{
    if 0 <= i < s.len() && s[i] != '\n' {
        line_end(s, i + 1)
    } else {
        i
    }
}

/// A code point written in hexadecimal at `i`.
pub open spec fn code_point_at(s: Seq<char>, i: int) -> Option<(char, int)> {
    let j = hex_run_end(s, i);
    if j > i && is_scalar(hex_value(s, i, j) as int) {
        Some((hex_value(s, i, j) as char, j))
    } else {
        None
    }
}

/// Further code points, each after one space.
pub open spec fn code_points_tail(s: Seq<char>, i: int) -> (Seq<char>, int)
    decreases s.len() - i,
{
    if 0 <= i < s.len() && s[i] == ' ' {
        match code_point_at(s, i + 1) {
            Some((c, j)) => if i < j <= s.len() {
                let r = code_points_tail(s, j);
                (seq![c] + r.0, r.1)
            } else {
                (Seq::empty(), i)
            },
            None => (Seq::empty(), i),
        }
    } else {
        (Seq::empty(), i)
    }
}

/// The space-separated code points that start a row: the key.
pub open spec fn element_at(s: Seq<char>, i: int) -> Option<(Seq<char>, int)> {
    match code_point_at(s, i) {
        Some((c, j)) => {
            let r = code_points_tail(s, j);
            Some((seq![c] + r.0, r.1))
        },
        None => None,
    }
}

/// `;` with optional blanks around it.
pub open spec fn sep_at(s: Seq<char>, i: int) -> Option<int> {
    let j = blank_end(s, i);
    if 0 <= j < s.len() && s[j] == ';' {
        Some(blank_end(s, j + 1))
    } else {
        None
    }
}

/// A weight: hexadecimal digits whose value fits in 16 bits.
pub open spec fn weight_at(s: Seq<char>, i: int) -> Option<(u16, int)> {
    let j = hex_run_end(s, i);
    if j > i && hex_value(s, i, j) <= 0xFFFF {
        Some((hex_value(s, i, j) as u16, j))
    } else {
        None
    }
}

/// Further weights, each after a `.`.
pub open spec fn weights_tail(s: Seq<char>, i: int) -> (Seq<u16>, int)
    decreases s.len() - i,
{
    if 0 <= i < s.len() && s[i] == '.' {
        match weight_at(s, i + 1) {
            Some((w, j)) => if i < j <= s.len() {
                let r = weights_tail(s, j);
                (seq![w] + r.0, r.1)
            } else {
                (Seq::empty(), i)
            },
            None => (Seq::empty(), i),
        }
    } else {
        (Seq::empty(), i)
    }
}

/// A bracket `[` flag weight (`.` weight)* `]` with exactly three weights,
/// the flag `*` for a variable element and `.` otherwise.
pub open spec fn sortkey_at(s: Seq<char>, i: int) -> Option<(CollationElement, int)> {
    if 0 <= i && i + 1 < s.len() && s[i] == '[' && (s[i + 1] == '*' || s[i + 1] == '.') {
        match weight_at(s, i + 2) {
            Some((w, j)) => {
                let t = weights_tail(s, j);
                let ws = seq![w] + t.0;
                let k = t.1;
                if 0 <= k < s.len() && s[k] == ']' && ws.len() == 3 {
                    Some(
                        (
                            CollationElement {
                                variable: s[i + 1] == '*',
                                primary: ws[0],
                                secondary: ws[1],
                                tertiary: ws[2],
                            },
                            k + 1,
                        ),
                    )
                } else {
                    None
                }
            },
            None => None,
        }
    } else {
        None
    }
}

/// Sort-key brackets, one after another.
pub open spec fn sortkeys_at(s: Seq<char>, i: int) -> (Seq<CollationElement>, int)
    decreases s.len() - i,
{
    match sortkey_at(s, i) {
        Some((e, j)) => if i < j <= s.len() {
            let r = sortkeys_at(s, j);
            (seq![e] + r.0, r.1)
        } else {
            (Seq::empty(), i)
        },
        None => (Seq::empty(), i),
    }
}

/// A data row at `i`: key, `;`, at least one bracket, spaces, and a comment
/// of at least one character up to the line feed, which ends the row.
pub open spec fn row_at(s: Seq<char>, i: int) -> Option<((Seq<char>, Seq<CollationElement>), int)> {
    match element_at(s, i) {
        Some((key, j)) => match sep_at(s, j) {
            Some(p) => {
                let ks = sortkeys_at(s, p);
                let q = space_end(s, ks.1);
                let e = line_end(s, q + 1);
                if ks.0.len() > 0 && 0 <= q < s.len() && s[q] == '#' && e > q + 1 && e < s.len() {
                    Some(((key, ks.0), e + 1))
                } else {
                    None
                }
            },
            None => None,
        },
        None => None,
    }
}

/// Whether the text at `i` starts with `tag`.
pub open spec fn has_tag(s: Seq<char>, i: int, tag: Seq<char>) -> bool {
    0 <= i && i + tag.len() <= s.len() && s.subrange(i, i + tag.len()) == tag
}

/// A directive line `tag` + at least one character + line feed.
pub open spec fn directive_at(s: Seq<char>, i: int, tag: Seq<char>) -> Option<int> {
    if has_tag(s, i, tag) {
        let e = line_end(s, i + tag.len());
        if e > i + tag.len() && e < s.len() {
            Some(e + 1)
        } else {
            None
        }
    } else {
        None
    }
}

pub open spec fn version_tag() -> Seq<char> {
    seq!['@', 'v', 'e', 'r', 's', 'i', 'o', 'n']
}

pub open spec fn implicit_weights_tag() -> Seq<char> {
    seq!['@', 'i', 'm', 'p', 'l', 'i', 'c', 'i', 't', 'w', 'e', 'i', 'g', 'h', 't', 's']
}

/// One line at `i`: an empty line, a comment line, a directive, or a row
/// (the only kind that yields an entry).
pub open spec fn line_at(s: Seq<char>, i: int) -> Option<
    (Option<(Seq<char>, Seq<CollationElement>)>, int),
> {
    let b = blank_end(s, i);
    let c = line_end(s, b + 1);
    if 0 <= i < s.len() && s[i] == '\n' {
        Some((None, i + 1))
    } else if 0 <= b < s.len() && s[b] == '#' && c < s.len() {
        Some((None, c + 1))
    } else if directive_at(s, i, version_tag()) is Some {
        Some((None, directive_at(s, i, version_tag())->0))
    } else if directive_at(s, i, implicit_weights_tag()) is Some {
        Some((None, directive_at(s, i, implicit_weights_tag())->0))
    } else {
        match row_at(s, i) {
            Some((r, j)) => Some((Some(r), j)),
            None => None,
        }
    }
}

/// The entries of the lines from `i` on, up to the first line that is none
/// of the accepted kinds.
pub open spec fn lines_at(s: Seq<char>, i: int) -> (Seq<(Seq<char>, Seq<CollationElement>)>, int)
    decreases s.len() - i,
{
    match line_at(s, i) {
        Some((r, j)) => if i < j <= s.len() {
            let t = lines_at(s, j);
            (
                match r {
                    Some(e) => seq![e] + t.0,
                    None => t.0,
                },
                t.1,
            )
        } else {
            (Seq::empty(), i)
        },
        None => (Seq::empty(), i),
    }
}

/// A whole table text: at least one line, and nothing but accepted lines.
/// `Err` holds the offset of the first line that is not accepted.
pub open spec fn table_text(s: Seq<char>) -> Result<Seq<(Seq<char>, Seq<CollationElement>)>, int> {
    let r = lines_at(s, 0);
    if r.1 == s.len() && s.len() > 0 {
        Ok(r.0)
    } else {
        Err(r.1)
    }
}

// ---------------------------------------------------------------------------
// The parser
fn skip_blanks(s: &Vec<char>, i: usize) -> (r: usize)
    requires
        i <= s.len(),
    ensures
        r == blank_end(s@, i as int),
        i <= r <= s.len(),
{
    let mut j = i;
    while j < s.len() && (s[j] == ' ' || s[j] == '\t')
        invariant
            i <= j <= s.len(),
            blank_end(s@, j as int) == blank_end(s@, i as int),
        decreases s.len() - j,
    {
        j = j + 1;
    }
    j
}

fn skip_spaces(s: &Vec<char>, i: usize) -> (r: usize)
    requires
        i <= s.len(),
    ensures
        r == space_end(s@, i as int),
        i <= r <= s.len(),
{
    let mut j = i;
    while j < s.len() && s[j] == ' '
        invariant
            i <= j <= s.len(),
            space_end(s@, j as int) == space_end(s@, i as int),
        decreases s.len() - j,
    {
        j = j + 1;
    }
    j
}

fn find_line_end(s: &Vec<char>, i: usize) -> (r: usize)
    requires
        i <= s.len(),
    ensures
        r == line_end(s@, i as int),
        i <= r <= s.len(),
{
    let mut j = i;
    while j < s.len() && s[j] != '\n'
        invariant
            i <= j <= s.len(),
            line_end(s@, j as int) == line_end(s@, i as int),
        decreases s.len() - j,
    {
        j = j + 1;
    }
    j
}

fn hex_run(s: &Vec<char>, i: usize) -> (r: usize)
    requires
        i <= s.len(),
    ensures
        r == hex_run_end(s@, i as int),
        i <= r <= s.len(),
        all_hex(s@, i as int, r as int),
{
    proof {
        lemma_hex_run_end(s@, i as int);
    }
    let mut j = i;
    while j < s.len() && hex_digit(s[j]).is_some()
        invariant
            i <= j <= s.len(),
            hex_run_end(s@, j as int) == hex_run_end(s@, i as int),
        decreases s.len() - j,
    {
        j = j + 1;
    }
    j
}

/// Reads a code point written in hexadecimal at `i`.
pub fn code_point(s: &Vec<char>, i: usize) -> (r: Option<(char, usize)>)
    requires
        i <= s.len(),
    ensures
        match r {
            Some((c, j)) => code_point_at(s@, i as int) == Some((c, j as int)),
            None => code_point_at(s@, i as int) is None,
        },
        r matches Some((c, j)) ==> i < j <= s.len(),
{
    let j = hex_run(s, i);
    if j == i {
        return None;
    }
    match read_hex(s, i, j, 0x10FFFF) {
        Some(v) => match char_from_u32(v) {
            Some(c) => Some((c, j)),
            None => None,
        },
        None => None,
    }
}

/// Reads the space-separated code points that start a row.
pub fn element(s: &Vec<char>, i: usize) -> (r: Option<(Vec<char>, usize)>)
    requires
        i <= s.len(),
    ensures
        match r {
            Some((v, j)) => element_at(s@, i as int) == Some((v@, j as int)),
            None => element_at(s@, i as int) is None,
        },
        r matches Some((v, j)) ==> i < j <= s.len(),
{
    let (c, mut j) = match code_point(s, i) {
        Some(x) => x,
        None => {
            return None;
        },
    };
    let mut out: Vec<char> = Vec::new();
    out.push(c);
    let ghost start = j;
    loop
        invariant
            i < start <= j <= s.len(),
            out@.len() >= 1,
            out@[0] == c,
            out@.subrange(1, out@.len() as int) + code_points_tail(s@, j as int).0
                == code_points_tail(s@, start as int).0,
            code_points_tail(s@, j as int).1 == code_points_tail(s@, start as int).1,
        ensures
            i < start <= j <= s.len(),
            out@.len() >= 1,
            out@[0] == c,
            out@.subrange(1, out@.len() as int) == code_points_tail(s@, start as int).0,
            j == code_points_tail(s@, start as int).1,
        decreases s.len() - j,
    {
        if j < s.len() && s[j] == ' ' {
            match code_point(s, j + 1) {
                Some((d, k)) => {
                    let ghost old_out = out@;
                    out.push(d);
                    assert(out@.subrange(1, out@.len() as int) =~= old_out.subrange(
                        1,
                        old_out.len() as int,
                    ).push(d));
                    assert(out@.subrange(1, out@.len() as int) + code_points_tail(s@, k as int).0
                        =~= old_out.subrange(1, old_out.len() as int) + code_points_tail(
                        s@,
                        j as int,
                    ).0);
                    j = k;
                },
                None => {
                    assert(code_points_tail(s@, j as int).0 =~= Seq::<char>::empty());
                    assert(out@.subrange(1, out@.len() as int) =~= out@.subrange(
                        1,
                        out@.len() as int,
                    ) + code_points_tail(s@, j as int).0);
                    break ;
                },
            }
        } else {
            assert(out@.subrange(1, out@.len() as int) =~= out@.subrange(1, out@.len() as int)
                + code_points_tail(s@, j as int).0);
            break ;
        }
    }
    assert(out@ =~= seq![c] + out@.subrange(1, out@.len() as int));
    Some((out, j))
}

/// Reads `;` with optional blanks around it.
pub fn sep(s: &Vec<char>, i: usize) -> (r: Option<usize>)
    requires
        i <= s.len(),
    ensures
        match r {
            Some(j) => sep_at(s@, i as int) == Some(j as int),
            None => sep_at(s@, i as int) is None,
        },
        r matches Some(j) ==> i < j <= s.len(),
{
    let j = skip_blanks(s, i);
    if j < s.len() && s[j] == ';' {
        Some(skip_blanks(s, j + 1))
    } else {
        None
    }
}

/// Reads a 16-bit weight in hexadecimal at `i`.
pub fn hex(s: &Vec<char>, i: usize) -> (r: Option<(u16, usize)>)
    requires
        i <= s.len(),
    ensures
        match r {
            Some((w, j)) => weight_at(s@, i as int) == Some((w, j as int)),
            None => weight_at(s@, i as int) is None,
        },
        r matches Some((w, j)) ==> i < j <= s.len(),
{
    let j = hex_run(s, i);
    if j == i {
        return None;
    }
    match read_hex(s, i, j, 0xFFFF) {
        Some(v) => Some((v as u16, j)),
        None => None,
    }
}

/// Reads a bracket `[.PPPP.SSSS.TTTT]` (or with `*`) at `i`.
pub fn sortkey(s: &Vec<char>, i: usize) -> (r: Option<(CollationElement, usize)>)
    requires
        i <= s.len(),
    ensures
        match r {
            Some((e, j)) => sortkey_at(s@, i as int) == Some((e, j as int)),
            None => sortkey_at(s@, i as int) is None,
        },
        r matches Some((e, j)) ==> i < j <= s.len(),
{
    if !(s.len() - i > 1 && s[i] == '[' && (s[i + 1] == '*' || s[i + 1] == '.')) {
        return None;
    }
    let variable = s[i + 1] == '*';
    let (w0, j) = match hex(s, i + 2) {
        Some(x) => x,
        None => {
            return None;
        },
    };
    let mut ws: Vec<u16> = Vec::new();
    ws.push(w0);
    let mut k = j;
    loop
        invariant
            i + 2 < j <= k <= s.len(),
            ws@.len() >= 1,
            ws@[0] == w0,
            ws@.subrange(1, ws@.len() as int) + weights_tail(s@, k as int).0 == weights_tail(
                s@,
                j as int,
            ).0,
            weights_tail(s@, k as int).1 == weights_tail(s@, j as int).1,
        ensures
            i + 2 < j <= k <= s.len(),
            ws@.len() >= 1,
            ws@[0] == w0,
            ws@.subrange(1, ws@.len() as int) == weights_tail(s@, j as int).0,
            k == weights_tail(s@, j as int).1,
        decreases s.len() - k,
    {
        if k < s.len() && s[k] == '.' {
            match hex(s, k + 1) {
                Some((w, m)) => {
                    let ghost old_ws = ws@;
                    ws.push(w);
                    assert(ws@.subrange(1, ws@.len() as int) =~= old_ws.subrange(
                        1,
                        old_ws.len() as int,
                    ).push(w));
                    assert(ws@.subrange(1, ws@.len() as int) + weights_tail(s@, m as int).0
                        =~= old_ws.subrange(1, old_ws.len() as int) + weights_tail(
                        s@,
                        k as int,
                    ).0);
                    k = m;
                },
                None => {
                    assert(ws@.subrange(1, ws@.len() as int) =~= ws@.subrange(1, ws@.len() as int)
                        + weights_tail(s@, k as int).0);
                    break ;
                },
            }
        } else {
            assert(ws@.subrange(1, ws@.len() as int) =~= ws@.subrange(1, ws@.len() as int)
                + weights_tail(s@, k as int).0);
            break ;
        }
    }
    assert(ws@ =~= seq![w0] + ws@.subrange(1, ws@.len() as int));
    if k < s.len() && s[k] == ']' && ws.len() == 3 {
        Some(
            (
                CollationElement {
                    variable,
                    primary: ws[0],
                    secondary: ws[1],
                    tertiary: ws[2],
                },
                k + 1,
            ),
        )
    } else {
        None
    }
}

/// Reads the sort-key brackets that follow one another from `i`.
fn sortkeys(s: &Vec<char>, i: usize) -> (r: (Vec<CollationElement>, usize))
    requires
        i <= s.len(),
    ensures
        (r.0@, r.1 as int) == sortkeys_at(s@, i as int),
        i <= r.1 <= s.len(),
{
    let mut out: Vec<CollationElement> = Vec::new();
    let mut j = i;
    loop
        invariant
            i <= j <= s.len(),
            out@ + sortkeys_at(s@, j as int).0 == sortkeys_at(s@, i as int).0,
            sortkeys_at(s@, j as int).1 == sortkeys_at(s@, i as int).1,
        ensures
            i <= j <= s.len(),
            out@ == sortkeys_at(s@, i as int).0,
            j == sortkeys_at(s@, i as int).1,
        decreases s.len() - j,
    {
        match sortkey(s, j) {
            Some((e, k)) => {
                assert(out@.push(e) + sortkeys_at(s@, k as int).0 =~= out@ + sortkeys_at(
                    s@,
                    j as int,
                ).0);
                out.push(e);
                j = k;
            },
            None => {
                assert(out@ =~= out@ + sortkeys_at(s@, j as int).0);
                break ;
            },
        }
    }
    (out, j)
}

/// Reads a data row at `i`: its key and its collation elements.
pub fn row(s: &Vec<char>, i: usize) -> (r: Option<((Vec<char>, Vec<CollationElement>), usize)>)
    requires
        i <= s.len(),
    ensures
        match r {
            Some((e, j)) => row_at(s@, i as int) == Some(((e.0@, e.1@), j as int)),
            None => row_at(s@, i as int) is None,
        },
        r matches Some((e, j)) ==> i < j <= s.len(),
{
    let (key, j) = match element(s, i) {
        Some(x) => x,
        None => {
            return None;
        },
    };
    let p = match sep(s, j) {
        Some(p) => p,
        None => {
            return None;
        },
    };
    let (elements, k) = sortkeys(s, p);
    let q = skip_spaces(s, k);
    if elements.len() > 0 && q < s.len() && s[q] == '#' {
        let e = find_line_end(s, q + 1);
        if e > q + 1 && e < s.len() {
            return Some(((key, elements), e + 1));
        }
    }
    None
}

/// Whether the text at `i` starts with `@version`.
fn at_version(s: &Vec<char>, i: usize) -> (r: bool)
    requires
        i <= s.len(),
    ensures
        r == has_tag(s@, i as int, version_tag()),
{
    let r = s.len() - i >= 8 && s[i] == '@' && s[i + 1] == 'v' && s[i + 2] == 'e' && s[i + 3]
        == 'r' && s[i + 4] == 's' && s[i + 5] == 'i' && s[i + 6] == 'o' && s[i + 7] == 'n';
    proof {
        if s@.len() - i >= 8 {
            assert(r == (s@.subrange(i as int, i + 8) =~= version_tag()));
        }
    }
    r
}

/// Whether the text at `i` starts with `@implicitweights`.
fn at_implicit_weights(s: &Vec<char>, i: usize) -> (r: bool)
    requires
        i <= s.len(),
    ensures
        r == has_tag(s@, i as int, implicit_weights_tag()),
{
    let r = s.len() - i >= 16 && s[i] == '@' && s[i + 1] == 'i' && s[i + 2] == 'm' && s[i + 3]
        == 'p' && s[i + 4] == 'l' && s[i + 5] == 'i' && s[i + 6] == 'c' && s[i + 7] == 'i' && s[i
        + 8] == 't' && s[i + 9] == 'w' && s[i + 10] == 'e' && s[i + 11] == 'i' && s[i + 12] == 'g'
        && s[i + 13] == 'h' && s[i + 14] == 't' && s[i + 15] == 's';
    proof {
        if s@.len() - i >= 16 {
            assert(r == (s@.subrange(i as int, i + 16) =~= implicit_weights_tag()));
        }
    }
    r
}

/// Reads one line at `i`; a data row yields its entry.
fn line(s: &Vec<char>, i: usize) -> (r: Option<
    (Option<(Vec<char>, Vec<CollationElement>)>, usize),
>)
    requires
        i <= s.len(),
    ensures
        match r {
            Some((Some(e), j)) => line_at(s@, i as int) == Some(
                (Some((e.0@, e.1@)), j as int),
            ),
            Some((None, j)) => line_at(s@, i as int) == Some(
                (None::<(Seq<char>, Seq<CollationElement>)>, j as int),
            ),
            None => line_at(s@, i as int) is None,
        },
        r matches Some((e, j)) ==> i < j <= s.len(),
{
    let b = skip_blanks(s, i);
    if i < s.len() && s[i] == '\n' {
        return Some((None, i + 1));
    }
    if b < s.len() && s[b] == '#' {
        let c = find_line_end(s, b + 1);
        if c < s.len() {
            return Some((None, c + 1));
        }
    }
    if at_version(s, i) {
        let e = find_line_end(s, i + 8);
        if e > i + 8 && e < s.len() {
            return Some((None, e + 1));
        }
    }
    if at_implicit_weights(s, i) {
        let e = find_line_end(s, i + 16);
        if e > i + 16 && e < s.len() {
            return Some((None, e + 1));
        }
    }
    match row(s, i) {
        Some((e, j)) => Some((Some(e), j)),
        None => None,
    }
}

/// Parses a whole table text into its entries, in order of appearance. It
/// fails unless the text holds at least one line and only accepted lines; the
/// error then holds the offset (in characters) of the first line that is not.
pub fn table(i: &str) -> (r: Result<Vec<(Vec<char>, Vec<CollationElement>)>, ParseError>)
    ensures
        match r {
            Ok(rows) => table_text(i@) == Ok::<_, int>(crate::rows_view(rows@)),
            Err(e) => table_text(i@) == Err::<Seq<(Seq<char>, Seq<CollationElement>)>, _>(
                e.position as int,
            ),
        },
{
    let s = chars_of(i);
    let mut out: Vec<(Vec<char>, Vec<CollationElement>)> = Vec::new();
    let mut j: usize = 0;
    loop
        invariant
            j <= s.len(),
            crate::rows_view(out@) + lines_at(s@, j as int).0 == lines_at(s@, 0).0,
            lines_at(s@, j as int).1 == lines_at(s@, 0).1,
        ensures
            j <= s.len(),
            crate::rows_view(out@) == lines_at(s@, 0).0,
            j == lines_at(s@, 0).1,
        decreases s.len() - j,
    {
        match line(&s, j) {
            Some((Some(e), k)) => {
                let ghost old_out = out@;
                let ghost ev = (e.0@, e.1@);
                out.push(e);
                proof {
                    crate::lemma_rows_view_push(old_out, e);
                }
                assert(crate::rows_view(out@) + lines_at(s@, k as int).0 =~= crate::rows_view(
                    old_out,
                ) + lines_at(s@, j as int).0);
                j = k;
            },
            Some((None, k)) => {
                j = k;
            },
            None => {
                assert(crate::rows_view(out@) =~= crate::rows_view(out@) + lines_at(
                    s@,
                    j as int,
                ).0);
                break ;
            },
        }
    }
    if j == s.len() && s.len() > 0 {
        Ok(out)
    } else {
        Err(ParseError { position: j })
    }
}

} // verus!
