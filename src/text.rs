//! Character-level helpers shared by the parsers.
use vstd::prelude::*;

verus! {

broadcast use vstd::string::group_string_axioms;

/// The characters of `s`, in order.
pub fn chars_of(s: &str) -> (r: Vec<char>)
    ensures
        r@ == s@,
{
    let mut r: Vec<char> = Vec::new();
    for c in it: s.chars()
        invariant
            r@ == it.seq().take(it.index() as int),
    {
        r.push(c);
    }
    r
}

/// Relies on `FromIterator<char> for String`: the string holds exactly the
/// given characters, in order.
#[verifier::external_body]
pub(crate) fn string_of(v: &[char]) -> (r: String)
    ensures
        r@ == v@,
{
    v.iter().collect()
}

/// Whether `v` is a Unicode scalar value: at most U+10FFFF and not a surrogate.
pub open spec fn is_scalar(v: int) -> bool {
    0 <= v <= 0x10FFFF && !(0xD800 <= v <= 0xDFFF)
}

/// Relies on `char::from_u32`: `Some` exactly when `v` is a Unicode scalar
/// value, and then the character with that value.
#[verifier::external_body]
pub(crate) fn char_from_u32(v: u32) -> (r: Option<char>)
    ensures
        r is Some <==> is_scalar(v as int),
        r matches Some(c) ==> c == v as char,
{
    char::from_u32(v)
}

/// The Unicode `White_Space` property.
pub open spec fn is_white_space(c: char) -> bool {
    let v = c as u32;
    ||| 0x09 <= v <= 0x0D
    ||| v == 0x20
    ||| v == 0x85
    ||| v == 0xA0
    ||| v == 0x1680
    ||| 0x2000 <= v <= 0x200A
    ||| v == 0x2028
    ||| v == 0x2029
    ||| v == 0x202F
    ||| v == 0x205F
    ||| v == 0x3000
}

/// Executable form of [`is_white_space`].
pub fn white_space(c: char) -> (r: bool)
    ensures
        r == is_white_space(c),
{
    let v = c as u32;
    (0x09 <= v && v <= 0x0D) || v == 0x20 || v == 0x85 || v == 0xA0 || v == 0x1680 || (0x2000
        <= v && v <= 0x200A) || v == 0x2028 || v == 0x2029 || v == 0x202F || v == 0x205F || v
        == 0x3000
}

/// The value of an ASCII hexadecimal digit, or `None` for any other character.
pub open spec fn hex_digit_value(c: char) -> Option<nat> {
    if '0' <= c <= '9' {
        Some((c as u32 - '0' as u32) as nat)
    } else if 'a' <= c <= 'f' {
        Some((c as u32 - 'a' as u32 + 10) as nat)
    } else if 'A' <= c <= 'F' {
        Some((c as u32 - 'A' as u32 + 10) as nat)
    } else {
        None
    }
}

/// Executable form of [`hex_digit_value`].
pub fn hex_digit(c: char) -> (r: Option<u32>)
    ensures
        r is Some <==> hex_digit_value(c) is Some,
        r matches Some(d) ==> d == hex_digit_value(c)->0 && d < 16,
{
    if '0' <= c && c <= '9' {
        Some(c as u32 - '0' as u32)
    } else if 'a' <= c && c <= 'f' {
        Some(c as u32 - 'a' as u32 + 10)
    } else if 'A' <= c && c <= 'F' {
        Some(c as u32 - 'A' as u32 + 10)
    } else {
        None
    }
}

/// Whether every character of `s[i..j]` is a hexadecimal digit.
pub open spec fn all_hex(s: Seq<char>, i: int, j: int) -> bool {
    forall|k: int| i <= k < j ==> #[trigger] hex_digit_value(s[k]) is Some
}

/// The number that the hexadecimal digits `s[i..j]` spell, most significant first.
pub open spec fn hex_value(s: Seq<char>, i: int, j: int) -> nat
    decreases j - i,
{
    if j <= i {
        0
    } else {
        hex_value(s, i, j - 1) * 16 + match hex_digit_value(s[j - 1]) {
            Some(d) => d,
            None => 0,
        }
    }
}

/// End of the run of hexadecimal digits that starts at `i`.
pub open spec fn hex_run_end(s: Seq<char>, i: int) -> int
    decreases s.len() - i,
{
    if 0 <= i < s.len() && hex_digit_value(s[i]) is Some {
        hex_run_end(s, i + 1)
    } else {
        i
    }
}

pub proof fn lemma_hex_run_end(s: Seq<char>, i: int)
    requires
        0 <= i <= s.len(),
    ensures
        i <= hex_run_end(s, i) <= s.len(),
        all_hex(s, i, hex_run_end(s, i)),
        hex_run_end(s, i) < s.len() ==> hex_digit_value(s[hex_run_end(s, i)]) is None,
    decreases s.len() - i,
{
    if i < s.len() && hex_digit_value(s[i]) is Some {
        lemma_hex_run_end(s, i + 1);
    }
}

/// Reads the hexadecimal digits `s[i..j]` as a number no larger than `bound`;
/// `None` when the number is larger.
pub fn read_hex(s: &Vec<char>, i: usize, j: usize, bound: u32) -> (r: Option<u32>)
    requires
        i <= j <= s.len(),
        all_hex(s@, i as int, j as int),
    ensures
        r is Some <==> hex_value(s@, i as int, j as int) <= bound,
        r matches Some(v) ==> v == hex_value(s@, i as int, j as int),
{
    let mut v: u32 = 0;
    let mut k: usize = i;
    while k < j
        invariant
            i <= k <= j <= s.len(),
            all_hex(s@, i as int, j as int),
            v == hex_value(s@, i as int, k as int),
            v <= bound,
        decreases j - k,
    {
        assert(hex_digit_value(s@[k as int]) is Some);
        let d = match hex_digit(s[k]) {
            Some(d) => d,
            None => 0,
        };
        proof {
            lemma_hex_value_monotone(s@, i as int, k as int + 1, j as int);
        }
        let w: u64 = v as u64 * 16 + d as u64;
        if w > bound as u64 {
            return None;
        }
        v = w as u32;
        k = k + 1;
    }
    Some(v)
}

/// Extending a run of hexadecimal digits never makes its value smaller.
pub proof fn lemma_hex_value_monotone(s: Seq<char>, i: int, k: int, j: int)
    requires
        i <= k <= j,
    ensures
        hex_value(s, i, k) <= hex_value(s, i, j),
    decreases j - k,
{
    if k < j {
        lemma_hex_value_monotone(s, i, k, j - 1);
    }
}

} // verus!
