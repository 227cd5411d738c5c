//! A JSON reader and writer for the wire protocol, specified character by
//! character over `Seq<char>`.  The reader is a recursive-descent parser
//! whose executable functions mirror total spec functions one to one; the
//! writer's output is pinned down by spec functions of the same shape.
//!
//! Only what the protocol needs is here: objects of flat fields, strings
//! with the standard escapes, unsigned integers, booleans, null, and a
//! skipper for arbitrary values in fields the hub does not read.

use vstd::prelude::*;

verus! {

/// JSON insignificant whitespace.
pub open spec fn is_jws(c: char) -> bool {
    c == ' ' || c == '\t' || c == '\n' || c == '\r'
}

/// First position at or after `i` holding no whitespace.  The definition
/// never moves backwards, so recursive parsers can measure progress by it.
pub open spec fn spec_ws(s: Seq<char>, i: int) -> int
    decreases s.len() - i,
{
    if 0 <= i < s.len() && is_jws(s[i]) {
        let r = spec_ws(s, i + 1);
        if r >= i + 1 {
            r
        } else {
            i + 1
        }
    } else {
        i
    }
}

pub proof fn lemma_ws_bounds(s: Seq<char>, i: int)
    requires
        0 <= i <= s.len(),
    ensures
        i <= spec_ws(s, i) <= s.len(),
        spec_ws(s, i) < s.len() ==> !is_jws(s[spec_ws(s, i)]),
    decreases s.len() - i,
{
    if i < s.len() && is_jws(s[i]) {
        lemma_ws_bounds(s, i + 1);
    }
}

/// Advance past whitespace.
pub fn ws_to(v: &Vec<char>, i: usize) -> (r: usize)
    requires
        i <= v.len(),
    ensures
        r == spec_ws(v@, i as int),
        i <= r <= v.len(),
    decreases v.len() - i,
{
    if i < v.len() {
        let c = v[i];
        if c == ' ' || c == '\t' || c == '\n' || c == '\r' {
            let r = ws_to(v, i + 1);
            return r;
        }
    }
    i
}

/// The value of a hexadecimal digit.
pub open spec fn hex_val(c: char) -> Option<u32> {
    let u = c as u32;
    if '0' as u32 <= u && u <= '9' as u32 {
        Some((u - 48) as u32)
    } else if 'a' as u32 <= u && u <= 'f' as u32 {
        Some((u - 87) as u32)
    } else if 'A' as u32 <= u && u <= 'F' as u32 {
        Some((u - 55) as u32)
    } else {
        None
    }
}

pub fn hex_val_of(c: char) -> (r: Option<u32>)
    ensures
        r == hex_val(c),
{
    let u = c as u32;
    if 48 <= u && u <= 57 {
        Some(u - 48)
    } else if 97 <= u && u <= 102 {
        Some(u - 87)
    } else if 65 <= u && u <= 70 {
        Some(u - 55)
    } else {
        None
    }
}

/// A Unicode scalar value: what `char` can hold.
pub open spec fn valid_scalar(u: u32) -> bool {
    u < 0xD800 || (0xE000 <= u && u <= 0x10FFFF)
}

/// Relies on `char::from_u32` (std): `Some` exactly for Unicode scalar
/// values, returning the character with that code.
#[verifier::external_body]
pub fn char_from_u32(u: u32) -> (r: Option<char>)
    ensures
        r == (if valid_scalar(u) {
            Some(u as char)
        } else {
            None::<char>
        }),
{
    char::from_u32(u)
}

/// What a single named escape stands for.
pub open spec fn unesc_named(c: char) -> Option<char> {
    if c == '"' {
        Some('"')
    } else if c == '\\' {
        Some('\\')
    } else if c == '/' {
        Some('/')
    } else if c == 'b' {
        Some('\u{8}')
    } else if c == 'f' {
        Some('\u{c}')
    } else if c == 'n' {
        Some('\n')
    } else if c == 'r' {
        Some('\r')
    } else if c == 't' {
        Some('\t')
    } else {
        None
    }
}

pub fn unesc_named_of(c: char) -> (r: Option<char>)
    ensures
        r == unesc_named(c),
{
    if c == '"' {
        Some('"')
    } else if c == '\\' {
        Some('\\')
    } else if c == '/' {
        Some('/')
    } else if c == 'b' {
        Some('\u{8}')
    } else if c == 'f' {
        Some('\u{c}')
    } else if c == 'n' {
        Some('\n')
    } else if c == 'r' {
        Some('\r')
    } else if c == 't' {
        Some('\t')
    } else {
        None
    }
}

/// The four hex digits starting at `i`, as a code unit.
pub open spec fn hex4(s: Seq<char>, i: int) -> Option<u32> {
    if i + 4 <= s.len() && hex_val(s[i]) is Some && hex_val(s[i + 1]) is Some && hex_val(
        s[i + 2],
    ) is Some && hex_val(s[i + 3]) is Some {
        Some(
            (hex_val(s[i])->Some_0 * 0x1000 + hex_val(s[i + 1])->Some_0 * 0x100 + hex_val(
                s[i + 2],
            )->Some_0 * 0x10 + hex_val(s[i + 3])->Some_0) as u32,
        )
    } else {
        None
    }
}

pub fn hex4_of(v: &Vec<char>, i: usize) -> (r: Option<u32>)
    ensures
        r == hex4(v@, i as int),
{
    if v.len() >= 4 && i <= v.len() - 4 {
        if let (Some(a), Some(b), Some(c), Some(d)) = (
            hex_val_of(v[i]),
            hex_val_of(v[i + 1]),
            hex_val_of(v[i + 2]),
            hex_val_of(v[i + 3]),
        ) {
            return Some(a * 0x1000 + b * 0x100 + c * 0x10 + d);
        }
        return None;
    }
    None
}

/// The body of a JSON string, read from just after the opening quote:
/// the decoded content and the position just after the closing quote.
/// Raw control characters and bad escapes are rejected; `\uXXXX` escapes
/// cover the basic plane directly and other planes as surrogate pairs.
pub open spec fn spec_str_body(s: Seq<char>, i: int) -> Option<(Seq<char>, int)>
    decreases s.len() - i,
{
    if !(0 <= i < s.len()) {
        None
    } else if s[i] == '"' {
        Some((Seq::empty(), i + 1))
    } else if s[i] == '\\' {
        if i + 1 < s.len() {
            let e = s[i + 1];
            if e == 'u' {
                match hex4(s, i + 2) {
                    None => None,
                    Some(code) => if 0xD800 <= code && code < 0xDC00 {
                        // high surrogate: a low surrogate escape must follow
                        if i + 12 <= s.len() && s[i + 6] == '\\' && s[i + 7] == 'u' {
                            match hex4(s, i + 8) {
                                None => None,
                                Some(lo) => if 0xDC00 <= lo && lo < 0xE000 {
                                    let cp = 0x10000 + (code - 0xD800) * 0x400 + (lo - 0xDC00);
                                    match spec_str_body(s, i + 12) {
                                        Some((rest, j)) => Some(
                                            (seq![(cp as u32) as char].add(rest), j),
                                        ),
                                        None => None,
                                    }
                                } else {
                                    None
                                },
                            }
                        } else {
                            None
                        }
                    } else if 0xDC00 <= code && code < 0xE000 {
                        None
                    } else {
                        match spec_str_body(s, i + 6) {
                            Some((rest, j)) => Some((seq![code as char].add(rest), j)),
                            None => None,
                        }
                    },
                }
            } else {
                match unesc_named(e) {
                    None => None,
                    Some(c) => match spec_str_body(s, i + 2) {
                        Some((rest, j)) => Some((seq![c].add(rest), j)),
                        None => None,
                    },
                }
            }
        } else {
            None
        }
    } else if (s[i] as u32) < 0x20 {
        None
    } else {
        match spec_str_body(s, i + 1) {
            Some((rest, j)) => Some((seq![s[i]].add(rest), j)),
            None => None,
        }
    }
}

pub proof fn lemma_str_body_bounds(s: Seq<char>, i: int)
    ensures
        spec_str_body(s, i) matches Some(r) ==> i < r.1 <= s.len(),
    decreases s.len() - i,
{
    if 0 <= i < s.len() {
        if s[i] == '\\' && i + 1 < s.len() && s[i + 1] == 'u' {
            if hex4(s, i + 2) is Some {
                lemma_str_body_bounds(s, i + 6);
                if i + 12 <= s.len() {
                    lemma_str_body_bounds(s, i + 12);
                }
            }
        } else if s[i] == '\\' && i + 1 < s.len() {
            lemma_str_body_bounds(s, i + 2);
        } else {
            lemma_str_body_bounds(s, i + 1);
        }
    }
}

/// Read a string body; mirrors [`spec_str_body`].
pub fn str_body(v: &Vec<char>, i: usize) -> (r: Option<(Vec<char>, usize)>)
    ensures
        match r {
            Some(p) => spec_str_body(v@, i as int) == Some((p.0@, p.1 as int)) && i < p.1
                <= v.len(),
            None => spec_str_body(v@, i as int) is None,
        },
    decreases v.len() - i,
{
    if !(i < v.len()) {
        return None;
    }
    let c = v[i];
    if c == '"' {
        let empty: Vec<char> = Vec::new();
        return Some((empty, i + 1));
    }
    if c == '\\' {
        if i + 1 < v.len() {
            let e = v[i + 1];
            if e == 'u' {
                match hex4_of(v, i + 2) {
                    None => None,
                    Some(code) => {
                        if 0xD800 <= code && code < 0xDC00 {
                            if v.len() >= 12 && i <= v.len() - 12 && v[i + 6] == '\\' && v[i + 7] == 'u' {
                                match hex4_of(v, i + 8) {
                                    None => None,
                                    Some(lo) => {
                                        if 0xDC00 <= lo && lo < 0xE000 {
                                            let cp: u32 = 0x10000 + (code - 0xD800) * 0x400 + (lo
                                                - 0xDC00);
                                            let ch = match char_from_u32(cp) {
                                                Some(ch) => ch,
                                                None => {
                                                    return None;
                                                },
                                            };
                                            match str_body(v, i + 12) {
                                                Some(p) => {
                                                    let (mut rest, j) = p;
                                                    rest.insert(0, ch);
                                                    proof {
                                                        assert(rest@ =~= seq![(cp as u32) as char]
                                                            .add(rest@.drop_first()));
                                                    }
                                                    Some((rest, j))
                                                },
                                                None => None,
                                            }
                                        } else {
                                            None
                                        }
                                    },
                                }
                            } else {
                                None
                            }
                        } else if 0xDC00 <= code && code < 0xE000 {
                            None
                        } else {
                            let ch = match char_from_u32(code) {
                                Some(ch) => ch,
                                None => {
                                    return None;
                                },
                            };
                            match str_body(v, i + 6) {
                                Some(p) => {
                                    let (mut rest, j) = p;
                                    rest.insert(0, ch);
                                    proof {
                                        assert(rest@ =~= seq![code as char].add(
                                            rest@.drop_first(),
                                        ));
                                    }
                                    Some((rest, j))
                                },
                                None => None,
                            }
                        }
                    },
                }
            } else {
                match unesc_named_of(e) {
                    None => None,
                    Some(u) => match str_body(v, i + 2) {
                        Some(p) => {
                            let (mut rest, j) = p;
                            rest.insert(0, u);
                            proof {
                                assert(rest@ =~= seq![u].add(rest@.drop_first()));
                            }
                            Some((rest, j))
                        },
                        None => None,
                    },
                }
            }
        } else {
            None
        }
    } else if (c as u32) < 0x20 {
        None
    } else {
        match str_body(v, i + 1) {
            Some(p) => {
                let (mut rest, j) = p;
                rest.insert(0, c);
                proof {
                    assert(rest@ =~= seq![c].add(rest@.drop_first()));
                }
                Some((rest, j))
            },
            None => None,
        }
    }
}

/// A decimal digit.
pub open spec fn is_digit(c: char) -> bool {
    '0' as u32 <= c as u32 && c as u32 <= '9' as u32
}

pub fn is_digit_of(c: char) -> (r: bool)
    ensures
        r == is_digit(c),
{
    let u = c as u32;
    48 <= u && u <= 57
}

/// First position at or after `i` holding no decimal digit.
pub open spec fn spec_digits_end(s: Seq<char>, i: int) -> int
    decreases s.len() - i,
{
    if 0 <= i < s.len() && is_digit(s[i]) {
        let r = spec_digits_end(s, i + 1);
        if r >= i + 1 {
            r
        } else {
            i + 1
        }
    } else {
        i
    }
}

pub proof fn lemma_digits_end_bounds(s: Seq<char>, i: int)
    requires
        0 <= i <= s.len(),
    ensures
        i <= spec_digits_end(s, i) <= s.len(),
        forall|j: int| i <= j < spec_digits_end(s, i) ==> is_digit(s[j]),
        spec_digits_end(s, i) < s.len() ==> !is_digit(s[spec_digits_end(s, i)]),
    decreases s.len() - i,
{
    if i < s.len() && is_digit(s[i]) {
        lemma_digits_end_bounds(s, i + 1);
    }
}

pub fn digits_end(v: &Vec<char>, i: usize) -> (r: usize)
    requires
        i <= v.len(),
    ensures
        r == spec_digits_end(v@, i as int),
        i <= r <= v.len(),
    decreases v.len() - i,
{
    if i < v.len() && is_digit_of(v[i]) {
        digits_end(v, i + 1)
    } else {
        i
    }
}

/// End of the JSON number starting at `i`, if the text there is a
/// well-formed number: optional minus, integer part, optional fraction,
/// optional exponent.
pub open spec fn spec_number_end(s: Seq<char>, i: int) -> Option<int> {
    if !(0 <= i <= s.len()) {
        None
    } else {
        let st = if i < s.len() && s[i] == '-' {
            i + 1
        } else {
            i
        };
        if st < s.len() && is_digit(s[st]) {
            let d1 = spec_digits_end(s, st);
            let d2 = if d1 < s.len() && s[d1] == '.' {
                if d1 + 1 < s.len() && is_digit(s[d1 + 1]) {
                    spec_digits_end(s, d1 + 1)
                } else {
                    -1
                }
            } else {
                d1
            };
            if d2 < 0 {
                None
            } else {
                let d3 = if d2 < s.len() && (s[d2] == 'e' || s[d2] == 'E') {
                    let e1 = if d2 + 1 < s.len() && (s[d2 + 1] == '+' || s[d2 + 1] == '-') {
                        d2 + 2
                    } else {
                        d2 + 1
                    };
                    if e1 < s.len() && is_digit(s[e1]) {
                        spec_digits_end(s, e1)
                    } else {
                        -1
                    }
                } else {
                    d2
                };
                if d3 < 0 {
                    None
                } else {
                    Some(d3)
                }
            }
        } else {
            None
        }
    }
}

pub fn number_end(v: &Vec<char>, i: usize) -> (r: Option<usize>)
    requires
        i <= v.len(),
    ensures
        match r {
            Some(j) => spec_number_end(v@, i as int) == Some(j as int) && i < j <= v.len(),
            None => spec_number_end(v@, i as int) is None,
        },
{
    let st = if i < v.len() && v[i] == '-' {
        i + 1
    } else {
        i
    };
    proof {
        lemma_digits_end_bounds(v@, st as int);
    }
    if st < v.len() && is_digit_of(v[st]) {
        let d1 = digits_end(v, st);
        let d2_opt: Option<usize> = if d1 < v.len() && v[d1] == '.' {
            if d1 + 1 < v.len() && is_digit_of(v[d1 + 1]) {
                proof {
                    lemma_digits_end_bounds(v@, d1 + 1 as int);
                }
                Some(digits_end(v, d1 + 1))
            } else {
                None
            }
        } else {
            Some(d1)
        };
        let d2 = match d2_opt {
            Some(d2) => d2,
            None => {
                return None;
            },
        };
        if d2 < v.len() && (v[d2] == 'e' || v[d2] == 'E') {
            let e1 = if d2 + 1 < v.len() && (v[d2 + 1] == '+' || v[d2 + 1] == '-') {
                d2 + 2
            } else {
                d2 + 1
            };
            if e1 < v.len() && is_digit_of(v[e1]) {
                proof {
                    lemma_digits_end_bounds(v@, e1 as int);
                }
                Some(digits_end(v, e1))
            } else {
                None
            }
        } else {
            Some(d2)
        }
    } else {
        None
    }
}

/// The numeric value of a digit run, as unbounded arithmetic.
pub open spec fn digits_val(s: Seq<char>) -> nat
    decreases s.len(),
{
    if s.len() == 0 {
        0
    } else {
        digits_val(s.drop_last()) * 10 + (s.last() as u32 - 48) as nat
    }
}

/// The integer a number lexeme denotes, when it is a plain unsigned
/// integer that fits in `u64`; `None` for minus signs, fractions,
/// exponents and overflow.
pub open spec fn spec_int_of_lexeme(s: Seq<char>, i: int, e: int) -> Option<u64> {
    if i < e && spec_digits_end(s, i) == e && digits_val(s.subrange(i, e)) <= u64::MAX {
        Some(digits_val(s.subrange(i, e)) as u64)
    } else {
        None
    }
}

/// Fold a digit run into a `u64`, watching for overflow.
pub fn int_of_lexeme(v: &Vec<char>, i: usize, e: usize) -> (r: Option<u64>)
    requires
        i <= e <= v.len(),
    ensures
        r == spec_int_of_lexeme(v@, i as int, e as int),
{
    proof {
        lemma_digits_end_bounds(v@, i as int);
    }
    if !(i < e && digits_end(v, i) == e) {
        return None;
    }
    let mut acc: u64 = 0;
    let mut k: usize = i;
    proof {
        assert(v@.subrange(i as int, i as int) =~= Seq::<char>::empty());
    }
    while k < e
        invariant
            i <= k <= e <= v.len(),
            spec_digits_end(v@, i as int) == e,
            forall|j: int| i <= j < e ==> is_digit(v@[j]),
            acc == digits_val(v@.subrange(i as int, k as int)),
            digits_val(v@.subrange(i as int, k as int)) <= u64::MAX,
        decreases e - k,
    {
        let d: u64 = (v[k] as u32 - 48) as u64;
        proof {
            assert(v@.subrange(i as int, k + 1 as int).drop_last() =~= v@.subrange(
                i as int,
                k as int,
            ));
            assert(v@.subrange(i as int, k + 1 as int).last() == v@[k as int]);
        }
        if acc > (u64::MAX - d) / 10 {
            proof {
                let full = v@.subrange(i as int, e as int);
                lemma_digits_prefix_le(v@, i as int, k + 1, e as int);
                assert(digits_val(v@.subrange(i as int, k + 1 as int)) > u64::MAX) by {
                    assert(acc * 10 + d > u64::MAX) by (nonlinear_arith)
                        requires
                            acc > (u64::MAX as int - d as int) / 10,
                            d <= 9,
                            acc >= 0,
                    ;
                }
            }
            return None;
        }
        acc = acc * 10 + d;
        k = k + 1;
    }
    proof {
        assert(v@.subrange(i as int, e as int) =~= v@.subrange(i as int, k as int));
    }
    Some(acc)
}

/// Clamp a parser result: positions that do not land in `(min - 1, len]`
/// are refused.  Real parses always do land there; the clamp lets the
/// recursion measure see it.
pub open spec fn adv(r: Option<int>, min: int, len: int) -> Option<int> {
    match r {
        Some(j) => if min <= j <= len {
            Some(j)
        } else {
            None
        },
        None => None,
    }
}

/// Position just after the JSON value starting at (or after whitespace
/// from) `i`; `None` when the text there is not a value.
pub open spec fn spec_skip_value(s: Seq<char>, i: int) -> Option<int>
    decreases s.len() - i, 0int,
{
    if !(0 <= i < s.len()) {
        None
    } else if is_jws(s[i]) {
        spec_skip_value(s, i + 1)
    } else if s[i] == '"' {
        match spec_str_body(s, i + 1) {
            Some(p) => Some(p.1),
            None => None,
        }
    } else if s[i] == '{' {
        spec_skip_obj(s, i + 1, true)
    } else if s[i] == '[' {
        spec_skip_arr(s, i + 1, true)
    } else if s[i] == '-' || is_digit(s[i]) {
        spec_number_end(s, i)
    } else if s[i] == 't' {
        if i + 4 <= s.len() && s[i + 1] == 'r' && s[i + 2] == 'u' && s[i + 3] == 'e' {
            Some(i + 4)
        } else {
            None
        }
    } else if s[i] == 'f' {
        if i + 5 <= s.len() && s[i + 1] == 'a' && s[i + 2] == 'l' && s[i + 3] == 's' && s[i + 4]
            == 'e' {
            Some(i + 5)
        } else {
            None
        }
    } else if s[i] == 'n' {
        if i + 4 <= s.len() && s[i + 1] == 'u' && s[i + 2] == 'l' && s[i + 3] == 'l' {
            Some(i + 4)
        } else {
            None
        }
    } else {
        None
    }
}

/// Inside an object, before a key (or before `}` when nothing has been
/// read yet).
pub open spec fn spec_skip_obj(s: Seq<char>, i: int, first: bool) -> Option<int>
    decreases s.len() - i, 1int,
{
    if !(0 <= i < s.len()) {
        None
    } else if is_jws(s[i]) {
        spec_skip_obj(s, i + 1, first)
    } else if s[i] == '}' && first {
        Some(i + 1)
    } else if s[i] == '"' {
        match spec_str_body(s, i + 1) {
            Some(p) => if i + 2 <= p.1 <= s.len() {
                spec_skip_obj_colon(s, p.1)
            } else {
                None
            },
            None => None,
        }
    } else {
        None
    }
}

/// Inside an object, between a key and its `:`.
pub open spec fn spec_skip_obj_colon(s: Seq<char>, i: int) -> Option<int>
    decreases s.len() - i, 1int,
{
    if !(0 <= i < s.len()) {
        None
    } else if is_jws(s[i]) {
        spec_skip_obj_colon(s, i + 1)
    } else if s[i] == ':' {
        match adv(spec_skip_value(s, i + 1), i + 2, s.len() as int) {
            Some(e) => spec_skip_obj_comma(s, e),
            None => None,
        }
    } else {
        None
    }
}

/// Inside an object, after a member's value.
pub open spec fn spec_skip_obj_comma(s: Seq<char>, i: int) -> Option<int>
    decreases s.len() - i, 1int,
{
    if !(0 <= i < s.len()) {
        None
    } else if is_jws(s[i]) {
        spec_skip_obj_comma(s, i + 1)
    } else if s[i] == ',' {
        spec_skip_obj(s, i + 1, false)
    } else if s[i] == '}' {
        Some(i + 1)
    } else {
        None
    }
}

/// Inside an array, before an element (or before `]` when nothing has
/// been read yet).
pub open spec fn spec_skip_arr(s: Seq<char>, i: int, first: bool) -> Option<int>
    decreases s.len() - i, 1int,
{
    if !(0 <= i < s.len()) {
        None
    } else if is_jws(s[i]) {
        spec_skip_arr(s, i + 1, first)
    } else if s[i] == ']' && first {
        Some(i + 1)
    } else {
        match adv(spec_skip_value(s, i), i + 1, s.len() as int) {
            Some(e) => spec_skip_arr_comma(s, e),
            None => None,
        }
    }
}

/// Inside an array, after an element.
pub open spec fn spec_skip_arr_comma(s: Seq<char>, i: int) -> Option<int>
    decreases s.len() - i, 1int,
{
    if !(0 <= i < s.len()) {
        None
    } else if is_jws(s[i]) {
        spec_skip_arr_comma(s, i + 1)
    } else if s[i] == ',' {
        spec_skip_arr(s, i + 1, false)
    } else if s[i] == ']' {
        Some(i + 1)
    } else {
        None
    }
}

/// Skip one JSON value; mirrors [`spec_skip_value`].
pub fn skip_value(v: &Vec<char>, i: usize) -> (r: Option<usize>)
    ensures
        match r {
            Some(j) => spec_skip_value(v@, i as int) == Some(j as int) && i < j <= v.len(),
            None => spec_skip_value(v@, i as int) is None,
        },
    decreases v.len() - i, 0int,
{
    if !(i < v.len()) {
        return None;
    }
    let c = v[i];
    if c == ' ' || c == '\t' || c == '\n' || c == '\r' {
        skip_value(v, i + 1)
    } else if c == '"' {
        match str_body(v, i + 1) {
            Some(p) => Some(p.1),
            None => None,
        }
    } else if c == '{' {
        skip_obj(v, i + 1, true)
    } else if c == '[' {
        skip_arr(v, i + 1, true)
    } else if c == '-' || is_digit_of(c) {
        number_end(v, i)
    } else if c == 't' {
        if v.len() >= 4 && i <= v.len() - 4 && v[i + 1] == 'r' && v[i + 2] == 'u' && v[i + 3]
            == 'e' {
            Some(i + 4)
        } else {
            None
        }
    } else if c == 'f' {
        if v.len() >= 5 && i <= v.len() - 5 && v[i + 1] == 'a' && v[i + 2] == 'l' && v[i + 3]
            == 's' && v[i + 4] == 'e' {
            Some(i + 5)
        } else {
            None
        }
    } else if c == 'n' {
        if v.len() >= 4 && i <= v.len() - 4 && v[i + 1] == 'u' && v[i + 2] == 'l' && v[i + 3]
            == 'l' {
            Some(i + 4)
        } else {
            None
        }
    } else {
        None
    }
}

pub fn skip_obj(v: &Vec<char>, i: usize, first: bool) -> (r: Option<usize>)
    ensures
        match r {
            Some(j) => spec_skip_obj(v@, i as int, first) == Some(j as int) && i < j <= v.len(),
            None => spec_skip_obj(v@, i as int, first) is None,
        },
    decreases v.len() - i, 1int,
{
    if !(i < v.len()) {
        return None;
    }
    let c = v[i];
    if c == ' ' || c == '\t' || c == '\n' || c == '\r' {
        skip_obj(v, i + 1, first)
    } else if c == '}' && first {
        Some(i + 1)
    } else if c == '"' {
        match str_body(v, i + 1) {
            Some(p) => skip_obj_colon(v, p.1),
            None => None,
        }
    } else {
        None
    }
}

pub fn skip_obj_colon(v: &Vec<char>, i: usize) -> (r: Option<usize>)
    ensures
        match r {
            Some(j) => spec_skip_obj_colon(v@, i as int) == Some(j as int) && i < j <= v.len(),
            None => spec_skip_obj_colon(v@, i as int) is None,
        },
    decreases v.len() - i, 1int,
{
    if !(i < v.len()) {
        return None;
    }
    let c = v[i];
    if c == ' ' || c == '\t' || c == '\n' || c == '\r' {
        skip_obj_colon(v, i + 1)
    } else if c == ':' {
        match skip_value(v, i + 1) {
            Some(e) => skip_obj_comma(v, e),
            None => None,
        }
    } else {
        None
    }
}

pub fn skip_obj_comma(v: &Vec<char>, i: usize) -> (r: Option<usize>)
    ensures
        match r {
            Some(j) => spec_skip_obj_comma(v@, i as int) == Some(j as int) && i < j <= v.len(),
            None => spec_skip_obj_comma(v@, i as int) is None,
        },
    decreases v.len() - i, 1int,
{
    if !(i < v.len()) {
        return None;
    }
    let c = v[i];
    if c == ' ' || c == '\t' || c == '\n' || c == '\r' {
        skip_obj_comma(v, i + 1)
    } else if c == ',' {
        skip_obj(v, i + 1, false)
    } else if c == '}' {
        Some(i + 1)
    } else {
        None
    }
}

pub fn skip_arr(v: &Vec<char>, i: usize, first: bool) -> (r: Option<usize>)
    ensures
        match r {
            Some(j) => spec_skip_arr(v@, i as int, first) == Some(j as int) && i < j <= v.len(),
            None => spec_skip_arr(v@, i as int, first) is None,
        },
    decreases v.len() - i, 1int,
{
    if !(i < v.len()) {
        return None;
    }
    let c = v[i];
    if c == ' ' || c == '\t' || c == '\n' || c == '\r' {
        skip_arr(v, i + 1, first)
    } else if c == ']' && first {
        Some(i + 1)
    } else {
        match skip_value(v, i) {
            Some(e) => skip_arr_comma(v, e),
            None => None,
        }
    }
}

pub fn skip_arr_comma(v: &Vec<char>, i: usize) -> (r: Option<usize>)
    ensures
        match r {
            Some(j) => spec_skip_arr_comma(v@, i as int) == Some(j as int) && i < j <= v.len(),
            None => spec_skip_arr_comma(v@, i as int) is None,
        },
    decreases v.len() - i, 1int,
{
    if !(i < v.len()) {
        return None;
    }
    let c = v[i];
    if c == ' ' || c == '\t' || c == '\n' || c == '\r' {
        skip_arr_comma(v, i + 1)
    } else if c == ',' {
        skip_arr(v, i + 1, false)
    } else if c == ']' {
        Some(i + 1)
    } else {
        None
    }
}

/// A member value, reduced to what the protocol reads: strings, booleans,
/// null, unsigned integers (`None` inside when the numeral is signed,
/// fractional or too large), and the start position of any array or
/// object, to be re-read by a typed parser.
pub enum Prim {
    PStr(String),
    PBool(bool),
    PNull,
    PNum(Option<u64>),
    PSpan(usize),
}

#[verifier::ext_equal]
pub ghost enum PrimV {
    Str(Seq<char>),
    Bool(bool),
    Null,
    Num(Option<u64>),
    Span(int),
}

impl View for Prim {
    type V = PrimV;

    open spec fn view(&self) -> PrimV {
        match self {
            Prim::PStr(s) => PrimV::Str(s@),
            Prim::PBool(b) => PrimV::Bool(*b),
            Prim::PNull => PrimV::Null,
            Prim::PNum(n) => PrimV::Num(*n),
            Prim::PSpan(p) => PrimV::Span(*p as int),
        }
    }
}

impl DeepView for Prim {
    type V = PrimV;

    open spec fn deep_view(&self) -> PrimV {
        self.view()
    }
}

/// One object member: its key and its reduced value.
pub struct Member {
    pub key: String,
    pub val: Prim,
}

#[verifier::ext_equal]
pub ghost struct MemberV {
    pub key: Seq<char>,
    pub val: PrimV,
}

impl View for Member {
    type V = MemberV;

    open spec fn view(&self) -> MemberV {
        MemberV { key: self.key@, val: self.val@ }
    }
}

impl DeepView for Member {
    type V = MemberV;

    open spec fn deep_view(&self) -> MemberV {
        self.view()
    }
}

/// The members of the object whose opening brace stands just before `i`,
/// in textual order, and the position after the closing brace.
pub open spec fn spec_members(s: Seq<char>, i: int, first: bool) -> Option<(Seq<MemberV>, int)>
    decreases s.len() - i, 1int,
{
    if !(0 <= i < s.len()) {
        None
    } else if is_jws(s[i]) {
        spec_members(s, i + 1, first)
    } else if s[i] == '}' && first {
        Some((Seq::empty(), i + 1))
    } else if s[i] == '"' {
        match spec_str_body(s, i + 1) {
            Some(p) => if i + 2 <= p.1 <= s.len() {
                spec_members_colon(s, p.1, p.0)
            } else {
                None
            },
            None => None,
        }
    } else {
        None
    }
}

pub open spec fn spec_members_colon(s: Seq<char>, i: int, key: Seq<char>) -> Option<
    (Seq<MemberV>, int),
>
    decreases s.len() - i, 1int,
{
    if !(0 <= i < s.len()) {
        None
    } else if is_jws(s[i]) {
        spec_members_colon(s, i + 1, key)
    } else if s[i] == ':' {
        spec_members_value(s, i + 1, key)
    } else {
        None
    }
}

/// Classify the value that starts exactly at `i` (no leading whitespace):
/// its reduced form and the position just after it.
pub open spec fn spec_value_prim(s: Seq<char>, i: int) -> Option<(PrimV, int)>
    decreases s.len() - i, 0int,
{
    if !(0 <= i < s.len()) {
        None
    } else if s[i] == '"' {
        match spec_str_body(s, i + 1) {
            Some(p) => Some((PrimV::Str(p.0), p.1)),
            None => None,
        }
    } else if s[i] == '{' {
        match spec_skip_obj(s, i + 1, true) {
            Some(e) => Some((PrimV::Span(i), e)),
            None => None,
        }
    } else if s[i] == '[' {
        match spec_skip_arr(s, i + 1, true) {
            Some(e) => Some((PrimV::Span(i), e)),
            None => None,
        }
    } else if s[i] == '-' || is_digit(s[i]) {
        match spec_number_end(s, i) {
            Some(e) => Some((PrimV::Num(spec_int_of_lexeme(s, i, e)), e)),
            None => None,
        }
    } else if s[i] == 't' {
        if i + 4 <= s.len() && s[i + 1] == 'r' && s[i + 2] == 'u' && s[i + 3] == 'e' {
            Some((PrimV::Bool(true), i + 4))
        } else {
            None
        }
    } else if s[i] == 'f' {
        if i + 5 <= s.len() && s[i + 1] == 'a' && s[i + 2] == 'l' && s[i + 3] == 's' && s[i + 4]
            == 'e' {
            Some((PrimV::Bool(false), i + 5))
        } else {
            None
        }
    } else if s[i] == 'n' {
        if i + 4 <= s.len() && s[i + 1] == 'u' && s[i + 2] == 'l' && s[i + 3] == 'l' {
            Some((PrimV::Null, i + 4))
        } else {
            None
        }
    } else {
        None
    }
}

pub open spec fn spec_members_value(s: Seq<char>, i: int, key: Seq<char>) -> Option<
    (Seq<MemberV>, int),
>
    decreases s.len() - i, 1int,
{
    if !(0 <= i < s.len()) {
        None
    } else if is_jws(s[i]) {
        spec_members_value(s, i + 1, key)
    } else {
        match adv_prim(spec_value_prim(s, i), i + 1, s.len() as int) {
            Some(p) => spec_members_after(s, p.1, key, p.0),
            None => None,
        }
    }
}

/// Clamp a classified value like [`adv`] clamps a position.
pub open spec fn adv_prim(r: Option<(PrimV, int)>, min: int, len: int) -> Option<(PrimV, int)> {
    match r {
        Some(p) => if min <= p.1 <= len {
            Some(p)
        } else {
            None
        },
        None => None,
    }
}

pub open spec fn spec_members_after(s: Seq<char>, i: int, key: Seq<char>, val: PrimV) -> Option<
    (Seq<MemberV>, int),
>
    decreases s.len() - i, 2int,
{
    match spec_members_comma(s, i) {
        Some(p) => Some((seq![MemberV { key, val }].add(p.0), p.1)),
        None => None,
    }
}

pub open spec fn spec_members_comma(s: Seq<char>, i: int) -> Option<(Seq<MemberV>, int)>
    decreases s.len() - i, 1int,
{
    if !(0 <= i < s.len()) {
        None
    } else if is_jws(s[i]) {
        spec_members_comma(s, i + 1)
    } else if s[i] == ',' {
        spec_members(s, i + 1, false)
    } else if s[i] == '}' {
        Some((Seq::empty(), i + 1))
    } else {
        None
    }
}

/// Read the members of an object; mirrors [`spec_members`].
pub fn members(v: &Vec<char>, i: usize, first: bool) -> (r: Option<(Vec<Member>, usize)>)
    ensures
        match r {
            Some(p) => spec_members(v@, i as int, first) == Some((p.0.deep_view(), p.1 as int))
                && i < p.1 <= v.len(),
            None => spec_members(v@, i as int, first) is None,
        },
    decreases v.len() - i, 1int,
{
    if !(i < v.len()) {
        return None;
    }
    let c = v[i];
    if c == ' ' || c == '\t' || c == '\n' || c == '\r' {
        members(v, i + 1, first)
    } else if c == '}' && first {
        let empty: Vec<Member> = Vec::new();
        proof {
            assert(empty.deep_view() =~= Seq::<MemberV>::empty());
        }
        Some((empty, i + 1))
    } else if c == '"' {
        match str_body(v, i + 1) {
            Some(p) => {
                let (key_chars, k) = p;
                let key = crate::text::string_from_chars(&key_chars);
                members_colon(v, k, key, Ghost(key_chars@))
            },
            None => None,
        }
    } else {
        None
    }
}

fn members_colon(v: &Vec<char>, i: usize, key: String, key_chars: Ghost<Seq<char>>) -> (r: Option<
    (Vec<Member>, usize),
>)
    requires
        key@ == key_chars@,
    ensures
        match r {
            Some(p) => spec_members_colon(v@, i as int, key_chars@) == Some(
                (p.0.deep_view(), p.1 as int),
            ) && i < p.1 <= v.len(),
            None => spec_members_colon(v@, i as int, key_chars@) is None,
        },
    decreases v.len() - i, 1int,
{
    if !(i < v.len()) {
        return None;
    }
    let c = v[i];
    if c == ' ' || c == '\t' || c == '\n' || c == '\r' {
        members_colon(v, i + 1, key, key_chars)
    } else if c == ':' {
        members_value(v, i + 1, key, key_chars)
    } else {
        None
    }
}

/// Classify one value; mirrors [`spec_value_prim`].
fn value_prim(v: &Vec<char>, i: usize) -> (r: Option<(Prim, usize)>)
    ensures
        match r {
            Some(p) => spec_value_prim(v@, i as int) == Some((p.0@, p.1 as int)) && i < p.1
                <= v.len(),
            None => spec_value_prim(v@, i as int) is None,
        },
{
    if !(i < v.len()) {
        return None;
    }
    let c = v[i];
    if c == '"' {
        match str_body(v, i + 1) {
            Some(p) => {
                let (content, e) = p;
                let ghost cv = content@;
                let val = Prim::PStr(crate::text::string_from_chars(&content));
                Some((val, e))
            },
            None => None,
        }
    } else if c == '{' {
        match skip_obj(v, i + 1, true) {
            Some(e) => Some((Prim::PSpan(i), e)),
            None => None,
        }
    } else if c == '[' {
        match skip_arr(v, i + 1, true) {
            Some(e) => Some((Prim::PSpan(i), e)),
            None => None,
        }
    } else if c == '-' || is_digit_of(c) {
        match number_end(v, i) {
            Some(e) => {
                let n = int_of_lexeme(v, i, e);
                Some((Prim::PNum(n), e))
            },
            None => None,
        }
    } else if c == 't' {
        if v.len() >= 4 && i <= v.len() - 4 && v[i + 1] == 'r' && v[i + 2] == 'u' && v[i + 3]
            == 'e' {
            Some((Prim::PBool(true), i + 4))
        } else {
            None
        }
    } else if c == 'f' {
        if v.len() >= 5 && i <= v.len() - 5 && v[i + 1] == 'a' && v[i + 2] == 'l' && v[i + 3]
            == 's' && v[i + 4] == 'e' {
            Some((Prim::PBool(false), i + 5))
        } else {
            None
        }
    } else if c == 'n' {
        if v.len() >= 4 && i <= v.len() - 4 && v[i + 1] == 'u' && v[i + 2] == 'l' && v[i + 3]
            == 'l' {
            Some((Prim::PNull, i + 4))
        } else {
            None
        }
    } else {
        None
    }
}

#[verifier::spinoff_prover]
fn members_value(v: &Vec<char>, i: usize, key: String, key_chars: Ghost<Seq<char>>) -> (r: Option<
    (Vec<Member>, usize),
>)
    requires
        key@ == key_chars@,
    ensures
        match r {
            Some(p) => spec_members_value(v@, i as int, key_chars@) == Some(
                (p.0.deep_view(), p.1 as int),
            ) && i < p.1 <= v.len(),
            None => spec_members_value(v@, i as int, key_chars@) is None,
        },
    decreases v.len() - i, 1int,
{
    if !(i < v.len()) {
        return None;
    }
    let c = v[i];
    if c == ' ' || c == '\t' || c == '\n' || c == '\r' {
        members_value(v, i + 1, key, key_chars)
    } else {
        proof {
            assert(!is_jws(v@[i as int]));
        }
        match value_prim(v, i) {
            Some(p) => {
                let (val, e) = p;
                let ghost vv = val@;
                proof {
                    assert(adv_prim(spec_value_prim(v@, i as int), i + 1, v@.len() as int)
                        == Some((vv, e as int)));
                }
                let r2 = members_after(v, e, key, val, key_chars, Ghost(vv));
                proof {
                    assert(spec_members_value(v@, i as int, key_chars@) == spec_members_after(
                        v@,
                        e as int,
                        key_chars@,
                        vv,
                    ));
                }
                r2
            },
            None => {
                proof {
                    assert(spec_members_value(v@, i as int, key_chars@) is None);
                }
                None
            },
        }
    }
}

fn members_after(
    v: &Vec<char>,
    i: usize,
    key: String,
    val: Prim,
    key_chars: Ghost<Seq<char>>,
    val_v: Ghost<PrimV>,
) -> (r: Option<(Vec<Member>, usize)>)
    requires
        key@ == key_chars@,
        val@ == val_v@,
    ensures
        match r {
            Some(p) => spec_members_after(v@, i as int, key_chars@, val_v@) == Some(
                (p.0.deep_view(), p.1 as int),
            ) && i < p.1 <= v.len(),
            None => spec_members_after(v@, i as int, key_chars@, val_v@) is None,
        },
    decreases v.len() - i, 2int,
{
    match members_comma(v, i) {
        Some(p) => {
            let (mut rest, e) = p;
            rest.insert(0, Member { key, val });
            proof {
                assert(rest.deep_view() =~= seq![MemberV { key: key_chars@, val: val_v@ }].add(
                    rest.deep_view().drop_first(),
                ));
            }
            Some((rest, e))
        },
        None => None,
    }
}

fn members_comma(v: &Vec<char>, i: usize) -> (r: Option<(Vec<Member>, usize)>)
    ensures
        match r {
            Some(p) => spec_members_comma(v@, i as int) == Some((p.0.deep_view(), p.1 as int)) && i
                < p.1 <= v.len(),
            None => spec_members_comma(v@, i as int) is None,
        },
    decreases v.len() - i, 1int,
{
    if !(i < v.len()) {
        return None;
    }
    let c = v[i];
    if c == ' ' || c == '\t' || c == '\n' || c == '\r' {
        members_comma(v, i + 1)
    } else if c == ',' {
        members(v, i + 1, false)
    } else if c == '}' {
        let empty: Vec<Member> = Vec::new();
        proof {
            assert(empty.deep_view() =~= Seq::<MemberV>::empty());
        }
        Some((empty, i + 1))
    } else {
        None
    }
}

/// A longer digit run denotes at least as large a value.
pub proof fn lemma_digits_prefix_le(s: Seq<char>, i: int, m: int, e: int)
    requires
        0 <= i <= m <= e <= s.len(),
        forall|j: int| i <= j < e ==> is_digit(s[j]),
    ensures
        digits_val(s.subrange(i, m)) <= digits_val(s.subrange(i, e)),
    decreases e - m,
{
    if m < e {
        lemma_digits_prefix_le(s, i, m + 1, e);
        let a = s.subrange(i, m);
        let b = s.subrange(i, m + 1);
        assert(b.drop_last() =~= a);
        assert(digits_val(b) == digits_val(a) * 10 + (b.last() as u32 - 48)) by {
        }
        assert(digits_val(a) <= digits_val(a) * 10) by (nonlinear_arith)
            requires
                digits_val(a) >= 0,
        ;
    }
}

} // verus!
