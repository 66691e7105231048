//! Parsing the persisted record format back into records. The spec-level
//! parser `p_record` defines which texts are readable and what they mean;
//! the executable parser returns exactly what `p_record` says, and the
//! codec's round-trip law shows that every rendered record is read back
//! unchanged.

use vstd::prelude::*;
use crate::record::{Emoji, EmojiView, ExtraField};
use crate::util::push_char;
use crate::codec::{esc, esc_char, dec, quoted, render_extras, render_rec, hex_digit, lemma_esc_append, lemma_esc_one};

verus! {

/// A decimal digit.
pub open spec fn is_dec_digit(c: char) -> bool {
    c == '0' || c == '1' || c == '2' || c == '3' || c == '4' || c == '5' || c == '6' || c == '7'
        || c == '8' || c == '9'
}

/// The value of a decimal digit.
pub open spec fn dec_val(c: char) -> int {
    if c == '0' {
        0
    } else if c == '1' {
        1
    } else if c == '2' {
        2
    } else if c == '3' {
        3
    } else if c == '4' {
        4
    } else if c == '5' {
        5
    } else if c == '6' {
        6
    } else if c == '7' {
        7
    } else if c == '8' {
        8
    } else {
        9
    }
}

/// A lower-case hexadecimal digit.
pub open spec fn is_hex_low(c: char) -> bool {
    is_dec_digit(c) || c == 'a' || c == 'b' || c == 'c' || c == 'd' || c == 'e' || c == 'f'
}

/// The value of a lower-case hexadecimal digit.
pub open spec fn hex_val(c: char) -> int {
    if is_dec_digit(c) {
        dec_val(c)
    } else if c == 'a' {
        10
    } else if c == 'b' {
        11
    } else if c == 'c' {
        12
    } else if c == 'd' {
        13
    } else if c == 'e' {
        14
    } else {
        15
    }
}

/// The control character with code `v`.
pub open spec fn ctrl_char(v: int) -> char {
    (v as u8) as char
}

/// Expects the exact text `lit` at `i`; yields the position after it.
pub open spec fn p_lit(s: Seq<char>, i: int, lit: Seq<char>) -> Option<int> {
    if 0 <= i && i + lit.len() <= s.len() && s.subrange(i, i + lit.len() as int) == lit {
        Some(i + lit.len() as int)
    } else {
        None
    }
}

/// Expects the character `c` at `i`; yields the position after it.
pub open spec fn p_char(s: Seq<char>, i: int, c: char) -> Option<int> {
    if 0 <= i < s.len() && s[i] == c {
        Some(i + 1)
    } else {
        None
    }
}

/// Prepends one decoded character to a scan's outcome.
pub open spec fn p_cons(c: char, rest: Option<(Seq<char>, int)>) -> Option<(Seq<char>, int)> {
    match rest {
        Some((t, j)) => Some((seq![c] + t, j)),
        None => None,
    }
}

/// Reads an escaped string body from `i` (just past the opening quote)
/// through its closing quote: the canonical escapes `\"`, `\\` and
/// `\u00` plus two lower-case hex digits below 0x20, every other
/// character verbatim. Yields the unescaped text and the position after
/// the closing quote.
pub open spec fn p_string(s: Seq<char>, i: int) -> Option<(Seq<char>, int)>
    decreases s.len() - i when i <= s.len()
{
    if i < 0 || i >= s.len() {
        None
    } else if s[i] == '"' {
        Some((Seq::<char>::empty(), i + 1))
    } else if s[i] == '\\' {
        if i + 1 < s.len() {
            if s[i + 1] == '"' {
                p_cons('"', p_string(s, i + 2))
            } else if s[i + 1] == '\\' {
                p_cons('\\', p_string(s, i + 2))
            } else if s[i + 1] == 'u' {
                if i + 5 < s.len() && s[i + 2] == '0' && s[i + 3] == '0' && (s[i + 4] == '0' || s[i
                    + 4] == '1') && is_hex_low(s[i + 5]) {
                    p_cons(
                        ctrl_char(hex_val(s[i + 4]) * 16 + hex_val(s[i + 5])),
                        p_string(s, i + 6),
                    )
                } else {
                    None
                }
            } else {
                None
            }
        } else {
            None
        }
    } else if (s[i] as u32) < 32 {
        None
    } else {
        p_cons(s[i], p_string(s, i + 1))
    }
}

/// The maximal run of decimal digits from `i`, and the position after it.
pub open spec fn p_digits(s: Seq<char>, i: int) -> (Seq<char>, int)
    decreases s.len() - i when i <= s.len()
{
    if 0 <= i < s.len() && is_dec_digit(s[i]) {
        let (t, j) = p_digits(s, i + 1);
        (seq![s[i]] + t, j)
    } else {
        (Seq::<char>::empty(), i)
    }
}

/// The number a digit run denotes.
pub open spec fn digits_val(ds: Seq<char>) -> int
    decreases ds.len(),
{
    if ds.len() == 0 {
        0
    } else {
        digits_val(ds.drop_last()) * 10 + dec_val(ds.last())
    }
}

/// Reads a canonical decimal numeral at `i`: at least one digit, no
/// leading zero, value at most `max`.
pub open spec fn p_number(s: Seq<char>, i: int, max: int) -> Option<(int, int)> {
    let (ds, j) = p_digits(s, i);
    if ds.len() == 0 {
        None
    } else if ds.len() > 1 && ds[0] == '0' {
        None
    } else if digits_val(ds) > max {
        None
    } else {
        Some((digits_val(ds), j))
    }
}

/// Reads one raw unmodeled value: everything up to the end of its line,
/// excluding a separating comma that directly precedes the line break.
/// Yields the value and the position of the separator (the comma when one
/// follows, else the line break itself).
pub open spec fn p_vline(s: Seq<char>, i: int) -> Option<(Seq<char>, int)>
    decreases s.len() - i when i <= s.len()
{
    if i < 0 || i >= s.len() {
        None
    } else if s[i] == '\n' {
        Some((Seq::<char>::empty(), i))
    } else if s[i] == ',' && i + 1 < s.len() && s[i + 1] == '\n' {
        Some((Seq::<char>::empty(), i))
    } else {
        p_cons(s[i], p_vline(s, i + 1))
    }
}

/// Positions only move forward through a string scan.
proof fn lemma_p_string_advances(s: Seq<char>, i: int)
    requires
        i <= s.len(),
    ensures
        (match p_string(s, i) {
            Some((t, j)) => i < j <= s.len(),
            None => true,
        }),
    decreases s.len() - i,
{
    if 0 <= i < s.len() {
        if s[i] == '"' {
        } else if s[i] == '\\' {
            if i + 1 < s.len() {
                if s[i + 1] == '"' || s[i + 1] == '\\' {
                    lemma_p_string_advances(s, i + 2);
                } else if s[i + 1] == 'u' {
                    if i + 5 < s.len() {
                        lemma_p_string_advances(s, i + 6);
                    }
                }
            }
        } else {
            lemma_p_string_advances(s, i + 1);
        }
    }
}

/// Positions only move forward through a raw-value scan.
proof fn lemma_p_vline_advances(s: Seq<char>, i: int)
    requires
        i <= s.len(),
    ensures
        (match p_vline(s, i) {
            Some((t, j)) => i <= j <= s.len(),
            None => true,
        }),
    decreases s.len() - i,
{
    if 0 <= i < s.len() {
        if s[i] == '\n' {
        } else if s[i] == ',' && i + 1 < s.len() && s[i + 1] == '\n' {
        } else {
            lemma_p_vline_advances(s, i + 1);
        }
    }
}

/// Reads the unmodeled members from `i`: none when the next character is
/// not a comma; otherwise one indented `"key": value` line per member,
/// each introduced by the comma that ended the line before it.
pub open spec fn p_extras(s: Seq<char>, i: int) -> Option<
    (Seq<(Seq<char>, Seq<char>)>, int),
>
    decreases s.len() - i when 0 <= i <= s.len() via p_extras_dec
{
    if i < 0 || i >= s.len() {
        None
    } else if s[i] != ',' {
        Some((Seq::<(Seq<char>, Seq<char>)>::empty(), i))
    } else {
        match p_lit(s, i, ",\n  "@) {
            Some(i0) => match p_char(s, i0, '"') {
                Some(i1) => match p_string(s, i1) {
                    Some((k, i2)) => match p_lit(s, i2, ": "@) {
                        Some(i3) => match p_vline(s, i3) {
                            Some((v, i4)) => if v.len() > 0 && v.last() == ',' {
                                None
                            } else {
                                match p_extras(s, i4) {
                                    Some((rest, i5)) => Some((seq![(k, v)] + rest, i5)),
                                    None => None,
                                }
                            },
                            None => None,
                        },
                        None => None,
                    },
                    None => None,
                },
                None => None,
            },
            None => None,
        }
    }
}

#[via_fn]
proof fn p_extras_dec(s: Seq<char>, i: int) {
    if 0 <= i < s.len() && s[i] == ',' {
        if let Some(i0) = p_lit(s, i, ",\n  "@) {
            if let Some(i1) = p_char(s, i0, '"') {
                lemma_p_string_advances(s, i1);
                if let Some((k, i2)) = p_string(s, i1) {
                    if let Some(i3) = p_lit(s, i2, ": "@) {
                        lemma_p_vline_advances(s, i3);
                    }
                }
            }
        }
    }
}

/// Reads one whole persisted record, trailing newline included: the seven
/// modeled members in fixed order, then the unmodeled members, then the
/// closing brace, with nothing after it.
pub open spec fn p_record(s: Seq<char>) -> Option<EmojiView> {
    match p_lit(s, 0, "{\n  \"name\": "@) {
        Some(a0) => match p_char(s, a0, '"') {
            Some(b0) => match p_string(s, b0) {
                Some((name, c0)) => match p_lit(s, c0, ",\n  \"is_alias\": "@) {
                    Some(a1) => match p_number(s, a1, 255) {
                        Some((alias_flag, c1)) => match p_lit(s, c1, ",\n  \"alias_for\": "@) {
                            Some(a2) => match p_char(s, a2, '"') {
                                Some(b2) => match p_string(s, b2) {
                                    Some((alias_for, c2)) => match p_lit(
                                        s,
                                        c2,
                                        ",\n  \"url\": "@,
                                    ) {
                                        Some(a3) => match p_char(s, a3, '"') {
                                            Some(b3) => match p_string(s, b3) {
                                                Some((url, c3)) => p_record_tail(
                                                    s,
                                                    c3,
                                                    name,
                                                    alias_flag,
                                                    alias_for,
                                                    url,
                                                ),
                                                None => None,
                                            },
                                            None => None,
                                        },
                                        None => None,
                                    },
                                    None => None,
                                },
                                None => None,
                            },
                            None => None,
                        },
                        None => None,
                    },
                    None => None,
                },
                None => None,
            },
            None => None,
        },
        None => None,
    }
}

/// The back half of `p_record`, from the `created` member on.
pub open spec fn p_record_tail(
    s: Seq<char>,
    i: int,
    name: Seq<char>,
    alias_flag: int,
    alias_for: Seq<char>,
    url: Seq<char>,
) -> Option<EmojiView> {
    match p_lit(s, i, ",\n  \"created\": "@) {
        Some(a4) => match p_number(s, a4, u128::MAX as int) {
            Some((created, c4)) => match p_lit(s, c4, ",\n  \"user_display_name\": "@) {
                Some(a5) => match p_char(s, a5, '"') {
                    Some(b5) => match p_string(s, b5) {
                        Some((display, c5)) => match p_lit(s, c5, ",\n  \"avatar_hash\": "@) {
                            Some(a6) => match p_char(s, a6, '"') {
                                Some(b6) => match p_string(s, b6) {
                                    Some((avatar, c6)) => match p_extras(s, c6) {
                                        Some((xs, c7)) => match p_lit(s, c7, "\n}\n"@) {
                                            Some(end) => if end == s.len() {
                                                Some(
                                                    EmojiView {
                                                        name: name,
                                                        is_alias: alias_flag as u8,
                                                        alias_for: alias_for,
                                                        url: url,
                                                        created: created as u128,
                                                        user_display_name: display,
                                                        avatar_hash: avatar,
                                                        unknown_fields: xs,
                                                    },
                                                )
                                            } else {
                                                None
                                            },
                                            None => None,
                                        },
                                        None => None,
                                    },
                                    None => None,
                                },
                                None => None,
                            },
                            None => None,
                        },
                        None => None,
                    },
                    None => None,
                },
                None => None,
            },
            None => None,
        },
        None => None,
    }
}


/// A raw value read by `p_vline` never contains a line break.
proof fn lemma_p_vline_no_newline(s: Seq<char>, i: int)
    requires
        i <= s.len(),
    ensures
        (match p_vline(s, i) {
            Some((t, j)) => forall|k: int| 0 <= k < t.len() ==> t[k] != '\n',
            None => true,
        }),
    decreases s.len() - i,
{
    if 0 <= i < s.len() {
        if s[i] == '\n' {
        } else if s[i] == ',' && i + 1 < s.len() && s[i + 1] == '\n' {
        } else {
            lemma_p_vline_no_newline(s, i + 1);
        }
    }
}

/// Every unmodeled value read by `p_extras` can stand on one line again.
proof fn lemma_p_extras_values_ok(s: Seq<char>, i: int)
    requires
        0 <= i <= s.len(),
    ensures
        (match p_extras(s, i) {
            Some((xs, j)) => forall|m: int|
                0 <= m < xs.len() ==> crate::record::raw_value_ok(#[trigger] xs[m].1),
            None => true,
        }),
    decreases s.len() - i,
{
    if i < s.len() && s[i] == ',' {
        if let Some(i0) = p_lit(s, i, ",\n  "@) {
            if let Some(i1) = p_char(s, i0, '"') {
                lemma_p_string_advances(s, i1);
                if let Some((k, i2)) = p_string(s, i1) {
                    if let Some(i3) = p_lit(s, i2, ": "@) {
                        lemma_p_vline_advances(s, i3);
                        lemma_p_vline_no_newline(s, i3);
                        if let Some((v, i4)) = p_vline(s, i3) {
                            if !(v.len() > 0 && v.last() == ',') {
                                lemma_p_extras_values_ok(s, i4);
                                if let Some((rest, i5)) = p_extras(s, i4) {
                                    assert forall|m: int|
                                        0 <= m < (seq![(k, v)] + rest).len() implies crate::record::raw_value_ok(
                                        #[trigger] (seq![(k, v)] + rest)[m].1,
                                    ) by {
                                        if m == 0 {
                                            assert((seq![(k, v)] + rest)[0] == (k, v));
                                        } else {
                                            assert((seq![(k, v)] + rest)[m] == rest[m - 1]);
                                        }
                                    }
                                }
                            }
                        }
                    }
                }
            }
        }
    }
}

fn is_dec_digit_of(c: char) -> (r: bool)
    ensures
        r == is_dec_digit(c),
{
    c == '0' || c == '1' || c == '2' || c == '3' || c == '4' || c == '5' || c == '6' || c == '7'
        || c == '8' || c == '9'
}

fn dec_val_of(c: char) -> (r: u8)
    requires
        is_dec_digit(c),
    ensures
        r as int == dec_val(c),
{
    if c == '0' {
        0
    } else if c == '1' {
        1
    } else if c == '2' {
        2
    } else if c == '3' {
        3
    } else if c == '4' {
        4
    } else if c == '5' {
        5
    } else if c == '6' {
        6
    } else if c == '7' {
        7
    } else if c == '8' {
        8
    } else {
        9
    }
}

fn hex_val_of(c: char) -> (r: u8)
    requires
        is_hex_low(c),
    ensures
        r as int == hex_val(c),
{
    if is_dec_digit_of(c) {
        dec_val_of(c)
    } else if c == 'a' {
        10
    } else if c == 'b' {
        11
    } else if c == 'c' {
        12
    } else if c == 'd' {
        13
    } else if c == 'e' {
        14
    } else {
        15
    }
}

/// Matches the exact text `lit` at `i`.
fn eat_lit(v: &Vec<char>, i: usize, lit: &str) -> (r: Option<usize>)
    requires
        i <= v@.len(),
    ensures
        (match r {
            Some(j) => p_lit(v@, i as int, lit@) == Some(j as int) && i <= j <= v@.len(),
            None => p_lit(v@, i as int, lit@) is None,
        }),
{
    let n = lit.unicode_len();
    let vl = v.len();
    if n > vl - i {
        return None;
    }
    let mut k: usize = 0;
    while k < n
        invariant
            n == lit@.len(),
            vl == v@.len(),
            i + n <= vl,
            k <= n,
            forall|m: int| 0 <= m < k ==> v@[i + m] == lit@[m],
        decreases n - k,
    {
        if v[i + k] != lit.get_char(k) {
            proof {
                assert(v@.subrange(i as int, i + n) != lit@) by {
                    if v@.subrange(i as int, i + n) == lit@ {
                        assert(v@.subrange(i as int, i + n)[k as int] == v@[i + k]);
                    }
                }
            }
            return None;
        }
        k = k + 1;
    }
    proof {
        assert(v@.subrange(i as int, i + n) =~= lit@);
    }
    Some(i + n)
}

/// Matches the character `c` at `i`.
fn eat_char(v: &Vec<char>, i: usize, c: char) -> (r: Option<usize>)
    requires
        i <= v@.len(),
    ensures
        (match r {
            Some(j) => p_char(v@, i as int, c) == Some(j as int) && i <= j <= v@.len(),
            None => p_char(v@, i as int, c) is None,
        }),
{
    if i < v.len() && v[i] == c {
        Some(i + 1)
    } else {
        None
    }
}

/// Reads an escaped string body, exactly as `p_string` defines it.
fn parse_string_at(v: &Vec<char>, i: usize) -> (r: Option<(String, usize)>)
    requires
        i <= v@.len(),
    ensures
        (match r {
            Some((t, j)) => p_string(v@, i as int) == Some((t@, j as int)) && i <= j <= v@.len(),
            None => p_string(v@, i as int) is None,
        }),
    decreases v@.len() - i,
{
    if i >= v.len() {
        return None;
    }
    let c = v[i];
    if c == '"' {
        return Some((String::new(), i + 1));
    }
    if c == '\\' {
        if i + 1 >= v.len() {
            return None;
        }
        let d = v[i + 1];
        if d == '"' || d == '\\' {
            match parse_string_at(v, i + 2) {
                Some((t, j)) => {
                    let mut out = String::new();
                    push_char(&mut out, d);
                    out.append(t.as_str());
                    proof {
                        assert(out@ =~= seq![d] + t@);
                    }
                    Some((out, j))
                },
                None => None,
            }
        } else if d == 'u' {
            if v.len() - i > 5 && v[i + 2] == '0' && v[i + 3] == '0' && (v[i + 4] == '0' || v[i + 4]
                == '1') && is_hex_low_of(v[i + 5]) {
                let h1 = hex_val_of(v[i + 4]);
                let h2 = hex_val_of(v[i + 5]);
                let code: u8 = h1 * 16 + h2;
                let decoded: char = code as char;
                match parse_string_at(v, i + 6) {
                    Some((t, j)) => {
                        let mut out = String::new();
                        push_char(&mut out, decoded);
                        out.append(t.as_str());
                        proof {
                            assert(decoded == ctrl_char(
                                hex_val(v@[i + 4]) * 16 + hex_val(v@[i + 5]),
                            ));
                            assert(out@ =~= seq![decoded] + t@);
                        }
                        Some((out, j))
                    },
                    None => None,
                }
            } else {
                None
            }
        } else {
            None
        }
    } else if (c as u32) < 32 {
        None
    } else {
        match parse_string_at(v, i + 1) {
            Some((t, j)) => {
                let mut out = String::new();
                push_char(&mut out, c);
                out.append(t.as_str());
                proof {
                    assert(out@ =~= seq![c] + t@);
                }
                Some((out, j))
            },
            None => None,
        }
    }
}

fn is_hex_low_of(c: char) -> (r: bool)
    ensures
        r == is_hex_low(c),
{
    is_dec_digit_of(c) || c == 'a' || c == 'b' || c == 'c' || c == 'd' || c == 'e' || c == 'f'
}

/// Reads the maximal digit run, exactly as `p_digits` defines it.
fn parse_digits_at(v: &Vec<char>, i: usize) -> (r: (Vec<char>, usize))
    requires
        i <= v@.len(),
    ensures
        p_digits(v@, i as int) == (r.0@, r.1 as int),
        i <= r.1 <= v@.len(),
        forall|k: int| 0 <= k < r.0@.len() ==> is_dec_digit(#[trigger] r.0@[k]),
    decreases v@.len() - i,
{
    if i < v.len() && is_dec_digit_of(v[i]) {
        let c = v[i];
        let (mut t, j) = parse_digits_at(v, i + 1);
        t.insert(0, c);
        proof {
            assert(t@ =~= seq![c] + p_digits(v@, i + 1).0);
        }
        (t, j)
    } else {
        (Vec::new(), i)
    }
}

proof fn lemma_digits_val_nonneg(ds: Seq<char>)
    ensures
        digits_val(ds) >= 0,
    decreases ds.len(),
{
    if ds.len() > 0 {
        lemma_digits_val_nonneg(ds.drop_last());
    }
}

/// A digit run's value only grows as the run extends.
proof fn lemma_digits_val_prefix_le(ds: Seq<char>, k: int)
    requires
        0 <= k <= ds.len(),
    ensures
        digits_val(ds.subrange(0, k)) <= digits_val(ds),
    decreases ds.len(),
{
    if k == ds.len() {
        assert(ds.subrange(0, k) =~= ds);
    } else {
        let dsp = ds.drop_last();
        lemma_digits_val_prefix_le(dsp, k);
        assert(ds.subrange(0, k) =~= dsp.subrange(0, k));
        lemma_digits_val_nonneg(dsp);
    }
}

/// The number a digit run denotes, bounded by `max`.
fn digits_to_val(ds: &Vec<char>, max: u128) -> (r: Option<u128>)
    requires
        forall|k: int| 0 <= k < ds@.len() ==> is_dec_digit(#[trigger] ds@[k]),
    ensures
        (match r {
            Some(x) => digits_val(ds@) == x as int && x <= max,
            None => digits_val(ds@) > max,
        }),
{
    let mut acc: u128 = 0;
    let mut k: usize = 0;
    while k < ds.len()
        invariant
            k <= ds@.len(),
            forall|m: int| 0 <= m < ds@.len() ==> is_dec_digit(#[trigger] ds@[m]),
            acc as int == digits_val(ds@.subrange(0, k as int)),
            acc <= max,
        decreases ds@.len() - k,
    {
        let d = dec_val_of(ds[k]);
        proof {
            assert(ds@.subrange(0, k + 1).drop_last() =~= ds@.subrange(0, k as int));
            assert(ds@.subrange(0, k + 1).last() == ds@[k as int]);
            vstd::arithmetic::div_mod::lemma_fundamental_div_mod(max as int, 10);
        }
        if acc > max / 10 || (acc == max / 10 && d as u128 > max % 10) {
            proof {
                assert(digits_val(ds@.subrange(0, k + 1)) > max);
                lemma_digits_val_prefix_le(ds@, k + 1);
            }
            return None;
        }
        acc = acc * 10 + d as u128;
        k = k + 1;
    }
    proof {
        assert(ds@.subrange(0, ds@.len() as int) =~= ds@);
    }
    Some(acc)
}

/// Reads a canonical numeral, exactly as `p_number` defines it.
fn parse_number_at(v: &Vec<char>, i: usize, max: u128) -> (r: Option<(u128, usize)>)
    requires
        i <= v@.len(),
    ensures
        (match r {
            Some((x, j)) => p_number(v@, i as int, max as int) == Some((x as int, j as int)) && i
                <= j <= v@.len() && x <= max,
            None => p_number(v@, i as int, max as int) is None,
        }),
{
    let (ds, j) = parse_digits_at(v, i);
    if ds.len() == 0 {
        return None;
    }
    if ds.len() > 1 && ds[0] == '0' {
        return None;
    }
    match digits_to_val(&ds, max) {
        Some(x) => Some((x, j)),
        None => None,
    }
}

/// Reads one raw value line, exactly as `p_vline` defines it.
fn parse_vline_at(v: &Vec<char>, i: usize) -> (r: Option<(String, usize)>)
    requires
        i <= v@.len(),
    ensures
        (match r {
            Some((t, j)) => p_vline(v@, i as int) == Some((t@, j as int)) && i <= j <= v@.len(),
            None => p_vline(v@, i as int) is None,
        }),
    decreases v@.len() - i,
{
    if i >= v.len() {
        return None;
    }
    let c = v[i];
    if c == '\n' {
        return Some((String::new(), i));
    }
    if c == ',' && i + 1 < v.len() && v[i + 1] == '\n' {
        return Some((String::new(), i));
    }
    match parse_vline_at(v, i + 1) {
        Some((t, j)) => {
            let mut out = String::new();
            push_char(&mut out, c);
            out.append(t.as_str());
            proof {
                assert(out@ =~= seq![c] + t@);
            }
            Some((out, j))
        },
        None => None,
    }
}

/// Reads the unmodeled members, exactly as `p_extras` defines them.
fn parse_extras_at(v: &Vec<char>, i: usize) -> (r: Option<(Vec<ExtraField>, usize)>)
    requires
        i <= v@.len(),
    ensures
        (match r {
            Some((xs, j)) => p_extras(v@, i as int) == Some(
                (xs@.map_values(|f: ExtraField| f@), j as int),
            ) && i <= j <= v@.len(),
            None => p_extras(v@, i as int) is None,
        }),
    decreases v@.len() - i,
{
    if i >= v.len() {
        return None;
    }
    if v[i] != ',' {
        let out: Vec<ExtraField> = Vec::new();
        proof {
            assert(out@.map_values(|f: ExtraField| f@) =~= Seq::<(Seq<char>, Seq<char>)>::empty());
        }
        return Some((out, i));
    }
    let i0 = match eat_lit(v, i, ",\n  ") {
        Some(x) => x,
        None => {
            return None;
        },
    };
    let i1 = match eat_char(v, i0, '"') {
        Some(x) => x,
        None => {
            return None;
        },
    };
    let (key, i2) = match parse_string_at(v, i1) {
        Some(x) => x,
        None => {
            return None;
        },
    };
    let i3 = match eat_lit(v, i2, ": ") {
        Some(x) => x,
        None => {
            return None;
        },
    };
    let (val, i4) = match parse_vline_at(v, i3) {
        Some(x) => x,
        None => {
            return None;
        },
    };
    let vn = val.as_str().unicode_len();
    if vn > 0 && val.as_str().get_char(vn - 1) == ',' {
        return None;
    }
    proof {
        assert(!(val@.len() > 0 && val@.last() == ','));
        lemma_p_string_advances(v@, i1 as int);
    }
    match parse_extras_at(v, i4) {
        Some((mut rest, i5)) => {
            let ghost rest_view: Seq<(Seq<char>, Seq<char>)> = rest@.map_values(
                |f: ExtraField| f@,
            );
            let first = ExtraField { key, value: val };
            let ghost first_view: (Seq<char>, Seq<char>) = first@;
            rest.insert(0, first);
            proof {
                assert(rest@.map_values(|f: ExtraField| f@) =~= seq![first_view] + rest_view);
            }
            Some((rest, i5))
        },
        None => None,
    }
}

/// Reads one whole persisted record, trailing newline included, exactly
/// as `p_record` defines it. A readable text always yields a well-formed
/// record.
pub fn parse_record(s: &str) -> (r: Option<Emoji>)
    ensures
        (match r {
            Some(e) => p_record(s@) == Some(e@) && e@.wf(),
            None => p_record(s@) is None,
        }),
{
    let v = crate::util::str_to_chars(s);
    let a0 = match eat_lit(&v, 0, "{\n  \"name\": ") {
        Some(x) => x,
        None => {
            return None;
        },
    };
    let b0 = match eat_char(&v, a0, '"') {
        Some(x) => x,
        None => {
            return None;
        },
    };
    let (name, c0) = match parse_string_at(&v, b0) {
        Some(x) => x,
        None => {
            return None;
        },
    };
    let a1 = match eat_lit(&v, c0, ",\n  \"is_alias\": ") {
        Some(x) => x,
        None => {
            return None;
        },
    };
    let (alias_flag, c1) = match parse_number_at(&v, a1, 255) {
        Some(x) => x,
        None => {
            return None;
        },
    };
    let a2 = match eat_lit(&v, c1, ",\n  \"alias_for\": ") {
        Some(x) => x,
        None => {
            return None;
        },
    };
    let b2 = match eat_char(&v, a2, '"') {
        Some(x) => x,
        None => {
            return None;
        },
    };
    let (alias_for, c2) = match parse_string_at(&v, b2) {
        Some(x) => x,
        None => {
            return None;
        },
    };
    let a3 = match eat_lit(&v, c2, ",\n  \"url\": ") {
        Some(x) => x,
        None => {
            return None;
        },
    };
    let b3 = match eat_char(&v, a3, '"') {
        Some(x) => x,
        None => {
            return None;
        },
    };
    let (url, c3) = match parse_string_at(&v, b3) {
        Some(x) => x,
        None => {
            return None;
        },
    };
    let a4 = match eat_lit(&v, c3, ",\n  \"created\": ") {
        Some(x) => x,
        None => {
            return None;
        },
    };
    let (created, c4) = match parse_number_at(&v, a4, u128::MAX) {
        Some(x) => x,
        None => {
            return None;
        },
    };
    let a5 = match eat_lit(&v, c4, ",\n  \"user_display_name\": ") {
        Some(x) => x,
        None => {
            return None;
        },
    };
    let b5 = match eat_char(&v, a5, '"') {
        Some(x) => x,
        None => {
            return None;
        },
    };
    let (display, c5) = match parse_string_at(&v, b5) {
        Some(x) => x,
        None => {
            return None;
        },
    };
    let a6 = match eat_lit(&v, c5, ",\n  \"avatar_hash\": ") {
        Some(x) => x,
        None => {
            return None;
        },
    };
    let b6 = match eat_char(&v, a6, '"') {
        Some(x) => x,
        None => {
            return None;
        },
    };
    let (avatar, c6) = match parse_string_at(&v, b6) {
        Some(x) => x,
        None => {
            return None;
        },
    };
    let (extras, c7) = match parse_extras_at(&v, c6) {
        Some(x) => x,
        None => {
            return None;
        },
    };
    let end = match eat_lit(&v, c7, "\n}\n") {
        Some(x) => x,
        None => {
            return None;
        },
    };
    if end != v.len() {
        proof {
            assert(p_record(s@) is None);
        }
        return None;
    }
    let e = Emoji {
        name,
        is_alias: alias_flag as u8,
        alias_for,
        url,
        created,
        user_display_name: display,
        avatar_hash: avatar,
        unknown_fields: extras,
    };
    proof {
        lemma_p_extras_values_ok(v@, c6 as int);
        assert(e@.wf());
        assert(p_record(s@) == Some(e@)) by {
            assert(p_record_tail(
                s@,
                c3 as int,
                name@,
                alias_flag as int,
                alias_for@,
                url@,
            ) == Some(e@));
        }
    }
    Some(e)
}


/// A control character's code casts back to the character itself.
proof fn lemma_ctrl_char_cast(c: char)
    requires
        (c as u32) < 32,
    ensures
        ctrl_char((c as u32) as int) == c,
{
    broadcast use vstd::utf8::char_u32_cast;

    assert((c as u32) as u8 == c as u32);
}

/// A rendered string body parses back to the text it came from, stopping
/// at its closing quote.
proof fn lemma_p_string_complete(s: Seq<char>, i: int, x: Seq<char>)
    requires
        0 <= i,
        i + esc(x).len() + 1 <= s.len(),
        s.subrange(i, i + esc(x).len() as int) == esc(x),
        s[i + esc(x).len()] == '"',
    ensures
        p_string(s, i) == Some((x, i + esc(x).len() + 1)),
    decreases x.len(),
{
    broadcast use vstd::utf8::char_u32_cast, vstd::utf8::char_is_scalar;

    if x.len() == 0 {
        assert(esc(x).len() == 0);
        assert(s[i] == '"');
    } else {
        let c = x[0];
        let xr = x.subrange(1, x.len() as int);
        assert(x =~= seq![c] + xr);
        lemma_esc_append(seq![c], xr);
        lemma_esc_one(c);
        assert(esc(x) == esc_char(c) + esc(xr));
        let u = esc_char(c).len() as int;
        let er = esc(xr).len() as int;
        let all = esc(x).len() as int;
        assert(all == u + er);
        assert forall|m: int| 0 <= m < all implies #[trigger] s[i + m] == esc(x)[m] by {
            assert(s.subrange(i, i + all)[m] == s[i + m]);
        }
        assert forall|m: int| 0 <= m < u implies #[trigger] esc(x)[m] == esc_char(c)[m] by {
            assert((esc_char(c) + esc(xr))[m] == esc_char(c)[m]);
        }
        assert(s.subrange(i + u, i + u + er) =~= esc(xr)) by {
            assert forall|m: int|
                0 <= m < er implies #[trigger] s.subrange(i + u, i + u + er)[m] == esc(xr)[m] by {
                assert(s.subrange(i + u, i + u + er)[m] == s[i + (u + m)]);
                assert(s[i + (u + m)] == esc(x)[u + m]);
                assert((esc_char(c) + esc(xr))[u + m] == esc(xr)[m]);
            }
        }
        assert(s[i + u + er] == '"') by {
            assert(i + u + er == i + all);
        }
        lemma_p_string_complete(s, i + u, xr);
        assert(s[i + 0] == esc(x)[0]);
        if c == '"' {
            assert(esc_char(c) == seq!['\\', '"']);
            assert(s[i] == '\\') by {
                assert(s[i + 0] == esc(x)[0] && esc(x)[0] == esc_char(c)[0]);
            }
            assert(s[i + 1] == '"') by {
                assert(esc(x)[1] == esc_char(c)[1]);
            }
            assert(p_string(s, i) == p_cons('"', p_string(s, i + 2)));
            assert(seq![c] + xr =~= x);
        } else if c == '\\' {
            assert(esc_char(c) == seq!['\\', '\\']);
            assert(s[i] == '\\') by {
                assert(s[i + 0] == esc(x)[0] && esc(x)[0] == esc_char(c)[0]);
            }
            assert(s[i + 1] == '\\') by {
                assert(esc(x)[1] == esc_char(c)[1]);
            }
            assert(p_string(s, i) == p_cons('\\', p_string(s, i + 2)));
            assert(seq![c] + xr =~= x);
        } else if (c as u32) < 32 {
            let cv = (c as u32) as int;
            let h1 = hex_digit(cv / 16);
            let h2 = hex_digit(cv % 16);
            assert(esc_char(c) == seq!['\\', 'u', '0', '0', h1, h2]);
            assert(s[i] == '\\') by {
                assert(s[i + 0] == esc(x)[0] && esc(x)[0] == esc_char(c)[0]);
            }
            assert(s[i + 1] == 'u' && s[i + 2] == '0' && s[i + 3] == '0') by {
                assert(esc(x)[1] == esc_char(c)[1]);
                assert(esc(x)[2] == esc_char(c)[2]);
                assert(esc(x)[3] == esc_char(c)[3]);
            }
            assert(s[i + 4] == h1 && s[i + 5] == h2) by {
                assert(esc(x)[4] == esc_char(c)[4]);
                assert(esc(x)[5] == esc_char(c)[5]);
            }
            vstd::arithmetic::div_mod::lemma_fundamental_div_mod(cv, 16);
            assert(0 <= cv / 16 < 2);
            assert(0 <= cv % 16 < 16);
            assert(h1 == '0' || h1 == '1');
            assert(is_hex_low(h2));
            assert(hex_val(h1) == cv / 16);
            assert(hex_val(h2) == cv % 16);
            lemma_ctrl_char_cast(c);
            assert(ctrl_char(hex_val(s[i + 4]) * 16 + hex_val(s[i + 5])) == c) by {
                assert(hex_val(s[i + 4]) * 16 + hex_val(s[i + 5]) == cv);
            }
            assert(p_string(s, i) == p_cons(c, p_string(s, i + 6)));
            assert(seq![c] + xr =~= x);
        } else {
            assert(esc_char(c) == seq![c]);
            assert(s[i] == c) by {
                assert(s[i + 0] == esc(x)[0] && esc(x)[0] == esc_char(c)[0]);
            }
            assert(p_string(s, i) == p_cons(c, p_string(s, i + 1)));
            assert(seq![c] + xr =~= x);
        }
    }
}

/// The canonical numeral of `n`: never empty, all digits, a leading zero
/// exactly for zero itself.
proof fn lemma_dec_props(n: nat)
    ensures
        dec(n).len() >= 1,
        forall|k: int| 0 <= k < dec(n).len() ==> is_dec_digit(#[trigger] dec(n)[k]),
        dec(n)[0] == '0' <==> n == 0,
    decreases n,
{
    if n < 10 {
    } else {
        lemma_dec_props(n / 10);
        assert(dec(n) == dec(n / 10) + seq![crate::codec::dec_digit((n % 10) as int)]);
        assert(dec(n)[0] == dec(n / 10)[0]);
        assert(n / 10 > 0);
    }
}

/// The canonical numeral denotes its own number.
proof fn lemma_digits_val_dec(n: nat)
    ensures
        digits_val(dec(n)) == n,
    decreases n,
{
    if n < 10 {
        let d = crate::codec::dec_digit(n as int);
        assert(dec(n) == seq![d]);
        assert(dec(n).drop_last() =~= Seq::<char>::empty());
        assert(dec(n).last() == d);
        assert(digits_val(Seq::<char>::empty()) == 0);
        assert(dec_val(d) == n as int);
    } else {
        lemma_digits_val_dec(n / 10);
        let d = crate::codec::dec_digit((n % 10) as int);
        assert(dec(n) == dec(n / 10) + seq![d]);
        assert(dec(n).drop_last() =~= dec(n / 10));
        assert(dec(n).last() == d);
        assert(dec_val(d) == n % 10);
        vstd::arithmetic::div_mod::lemma_fundamental_div_mod(n as int, 10);
    }
}

/// A digit run standing before a non-digit parses back whole.
proof fn lemma_p_digits_complete(s: Seq<char>, i: int, ds: Seq<char>)
    requires
        0 <= i,
        i + ds.len() <= s.len(),
        forall|k: int| 0 <= k < ds.len() ==> is_dec_digit(#[trigger] ds[k]),
        s.subrange(i, i + ds.len() as int) == ds,
        i + ds.len() == s.len() || !is_dec_digit(s[i + ds.len()]),
    ensures
        p_digits(s, i) == (ds, i + ds.len() as int),
    decreases ds.len(),
{
    if ds.len() == 0 {
    } else {
        assert(s[i] == ds[0]);
        let dr = ds.subrange(1, ds.len() as int);
        assert(s.subrange(i + 1, i + 1 + dr.len() as int) =~= dr) by {
            assert(forall|m: int|
                0 <= m < dr.len() ==> #[trigger] s.subrange(i + 1, i + 1 + dr.len() as int)[m]
                    == s[i + 1 + m]);
            assert(forall|m: int| 0 <= m < dr.len() ==> s[i + 1 + m] == #[trigger] dr[m]);
        }
        lemma_p_digits_complete(s, i + 1, dr);
        assert(seq![s[i]] + dr =~= ds);
    }
}

/// A rendered numeral of a number within range parses back to it.
proof fn lemma_p_number_complete(s: Seq<char>, i: int, n: nat, max: int)
    requires
        0 <= i,
        i + dec(n).len() <= s.len(),
        s.subrange(i, i + dec(n).len() as int) == dec(n),
        i + dec(n).len() == s.len() || !is_dec_digit(s[i + dec(n).len()]),
        n <= max,
    ensures
        p_number(s, i, max) == Some((n as int, i + dec(n).len() as int)),
{
    lemma_dec_props(n);
    lemma_digits_val_dec(n);
    lemma_p_digits_complete(s, i, dec(n));
    if dec(n).len() > 1 {
        assert(n != 0);
        assert(dec(n)[0] != '0');
    }
}

/// A raw value standing before its line end parses back whole.
proof fn lemma_p_vline_complete(s: Seq<char>, i: int, x: Seq<char>)
    requires
        0 <= i,
        crate::record::raw_value_ok(x),
        i + x.len() < s.len(),
        s.subrange(i, i + x.len() as int) == x,
        s[i + x.len()] == '\n' || (s[i + x.len()] == ',' && i + x.len() + 1 < s.len() && s[i
            + x.len() + 1] == '\n'),
    ensures
        p_vline(s, i) == Some((x, i + x.len() as int)),
    decreases x.len(),
{
    if x.len() == 0 {
    } else {
        let c = x[0];
        assert(s[i] == c);
        assert(c != '\n');
        let xr = x.subrange(1, x.len() as int);
        assert(!(s[i] == ',' && i + 1 < s.len() && s[i + 1] == '\n')) by {
            if c == ',' {
                if x.len() == 1 {
                    assert(x.last() == ',');
                } else {
                    assert(s[i + 1] == x[1]);
                    assert(x[1] != '\n');
                }
            }
        }
        assert(crate::record::raw_value_ok(xr)) by {
            assert(forall|k: int| 0 <= k < xr.len() ==> #[trigger] xr[k] == x[k + 1]);
            if xr.len() > 0 {
                assert(xr.last() == x.last());
            }
        }
        assert(s.subrange(i + 1, i + 1 + xr.len() as int) =~= xr) by {
            assert(forall|m: int|
                0 <= m < xr.len() ==> #[trigger] s.subrange(i + 1, i + 1 + xr.len() as int)[m]
                    == s[i + 1 + m]);
        }
        lemma_p_vline_complete(s, i + 1, xr);
        assert(p_vline(s, i) == p_cons(c, p_vline(s, i + 1)));
        assert(seq![c] + xr =~= x);
    }
}


/// Splitting a known slice of `s` at a concatenation boundary.
proof fn l_slice_of_concat(a: Seq<char>, b: Seq<char>, s: Seq<char>, i: int)
    requires
        0 <= i,
        i + (a + b).len() <= s.len(),
        s.subrange(i, i + (a + b).len() as int) == a + b,
    ensures
        s.subrange(i, i + a.len() as int) == a,
        s.subrange(i + a.len(), i + (a + b).len() as int) == b,
{
    assert(s.subrange(i, i + a.len() as int) =~= a) by {
        assert forall|m: int|
            0 <= m < a.len() implies #[trigger] s.subrange(i, i + a.len() as int)[m] == a[m] by {
            assert(s.subrange(i, i + a.len() as int)[m] == s[i + m]);
            assert(s.subrange(i, i + (a + b).len() as int)[m] == s[i + m]);
            assert((a + b)[m] == a[m]);
        }
    }
    assert(s.subrange(i + a.len(), i + (a + b).len() as int) =~= b) by {
        assert forall|m: int|
            0 <= m < b.len() implies #[trigger] s.subrange(
            i + a.len(),
            i + (a + b).len() as int,
        )[m] == b[m] by {
            assert(s.subrange(i + a.len(), i + (a + b).len() as int)[m] == s[i + a.len() + m]);
            assert(s.subrange(i, i + (a + b).len() as int)[a.len() + m] == s[i + a.len() + m]);
            assert((a + b)[a.len() + m] == b[m]);
        }
    }
}

/// A character standing alone in a known one-character slice.
proof fn l_char_of_slice(c: char, s: Seq<char>, i: int)
    requires
        0 <= i,
        i + 1 <= s.len(),
        s.subrange(i, i + 1) == seq![c],
    ensures
        s[i] == c,
{
    assert(s.subrange(i, i + 1)[0] == s[i]);
}

/// Rendered unmodeled members, standing before the line break of the
/// closing brace, parse back whole.
proof fn lemma_p_extras_complete(s: Seq<char>, i: int, xs: Seq<(Seq<char>, Seq<char>)>)
    requires
        0 <= i,
        forall|m: int| 0 <= m < xs.len() ==> crate::record::raw_value_ok(#[trigger] xs[m].1),
        i + render_extras(xs).len() < s.len(),
        s.subrange(i, i + render_extras(xs).len() as int) == render_extras(xs),
        s[i + render_extras(xs).len()] == '\n',
    ensures
        p_extras(s, i) == Some((xs, i + render_extras(xs).len() as int)),
    decreases xs.len(),
{
    reveal_strlit(",\n  ");
    reveal_strlit(": ");
    let rx = render_extras(xs);
    let e = i + rx.len() as int;
    if xs.len() == 0 {
        assert(rx.len() == 0);
        assert(s[i] == '\n');
    } else {
        let k = xs[0].0;
        let val = xs[0].1;
        let xr = xs.subrange(1, xs.len() as int);
        let ra = render_extras(xr);
        assert(rx == ",\n  "@ + quoted(k) + ": "@ + val + ra);
        let r5 = val + ra;
        let r4 = ": "@ + r5;
        let r3 = seq!['"'] + r4;
        let r2 = esc(k) + r3;
        let r1 = seq!['"'] + r2;
        let r0 = ",\n  "@ + r1;
        assert(rx =~= r0);
        assert(",\n  "@.len() == 4);
        let i0 = i + 4;
        let i1 = i0 + 1;
        let iq = i1 + esc(k).len() as int;
        let i2 = iq + 1;
        let i3 = i2 + 2;
        let i4 = i3 + val.len() as int;
        assert(e == i4 + ra.len());
        assert(s.subrange(i, e) == r0);
        l_slice_of_concat(",\n  "@, r1, s, i);
        l_slice_of_concat(seq!['"'], r2, s, i0);
        l_slice_of_concat(esc(k), r3, s, i1);
        l_slice_of_concat(seq!['"'], r4, s, iq);
        l_slice_of_concat(": "@, r5, s, i2);
        l_slice_of_concat(val, ra, s, i3);
        // the opening comma selects the member branch
        assert(s[i] == ',') by {
            assert(s.subrange(i, i0)[0] == s[i]);
            assert((",\n  "@)[0] == ',');
        }
        assert(p_lit(s, i, ",\n  "@) == Some(i0));
        l_char_of_slice('"', s, i0);
        assert(p_char(s, i0, '"') == Some(i1));
        l_char_of_slice('"', s, iq);
        lemma_p_string_complete(s, i1, k);
        assert(p_string(s, i1) == Some((k, i2)));
        assert(p_lit(s, i2, ": "@) == Some(i3));
        // the value runs to its separator: the next member's comma, or the
        // closing brace's line break
        if xr.len() == 0 {
            assert(ra.len() == 0);
            assert(s[i4] == '\n');
        } else {
            assert(ra == ",\n  "@ + quoted(xr[0].0) + ": "@ + xr[0].1 + render_extras(
                xr.subrange(1, xr.len() as int),
            ));
            assert(ra.len() >= 4);
            assert(s[i4] == ',' && s[i4 + 1] == '\n') by {
                assert(s.subrange(i4, e)[0] == s[i4]);
                assert(s.subrange(i4, e)[1] == s[i4 + 1]);
                assert(ra[0] == (",\n  "@)[0]);
                assert(ra[1] == (",\n  "@)[1]);
            }
        }
        lemma_p_vline_complete(s, i3, val);
        assert(p_vline(s, i3) == Some((val, i4)));
        assert(!(val.len() > 0 && val.last() == ','));
        assert(forall|m: int|
            0 <= m < xr.len() ==> crate::record::raw_value_ok(#[trigger] xr[m].1));
        lemma_p_extras_complete(s, i4, xr);
        assert(p_extras(s, i4) == Some((xr, e)));
        assert(seq![(k, val)] + xr =~= xs);
        assert(p_extras(s, i) == Some((xs, e)));
    }
}

/// Cumulative offsets of the pieces of a rendered record.
spec fn rt_p(v: EmojiView, k: int) -> int
    decreases k,
{
    if k <= 0 {
        0
    } else if k == 1 {
        rt_p(v, 0) + "{\n  \"name\": "@.len() as int
    } else if k == 2 {
        rt_p(v, 1) + quoted(v.name).len() as int
    } else if k == 3 {
        rt_p(v, 2) + ",\n  \"is_alias\": "@.len() as int
    } else if k == 4 {
        rt_p(v, 3) + dec(v.is_alias as nat).len() as int
    } else if k == 5 {
        rt_p(v, 4) + ",\n  \"alias_for\": "@.len() as int
    } else if k == 6 {
        rt_p(v, 5) + quoted(v.alias_for).len() as int
    } else if k == 7 {
        rt_p(v, 6) + ",\n  \"url\": "@.len() as int
    } else if k == 8 {
        rt_p(v, 7) + quoted(v.url).len() as int
    } else if k == 9 {
        rt_p(v, 8) + ",\n  \"created\": "@.len() as int
    } else if k == 10 {
        rt_p(v, 9) + dec(v.created as nat).len() as int
    } else if k == 11 {
        rt_p(v, 10) + ",\n  \"user_display_name\": "@.len() as int
    } else if k == 12 {
        rt_p(v, 11) + quoted(v.user_display_name).len() as int
    } else if k == 13 {
        rt_p(v, 12) + ",\n  \"avatar_hash\": "@.len() as int
    } else if k == 14 {
        rt_p(v, 13) + quoted(v.avatar_hash).len() as int
    } else if k == 15 {
        rt_p(v, 14) + render_extras(v.unknown_fields).len() as int
    } else if k == 16 {
        rt_p(v, 15) + "\n}"@.len() as int
    } else if k == 17 {
        rt_p(v, 16) + seq!['\n'].len() as int
    } else {
        rt_p(v, 17)
    }
}

/// A rendered, newline-terminated record decomposes into its pieces.
#[verifier::rlimit(100)]
proof fn lemma_rt_slices(v: EmojiView)
    ensures
        render_rec(v).push('\n').len() == rt_p(v, 17),
        render_rec(v).push('\n').subrange(rt_p(v, 0), rt_p(v, 1)) == "{\n  \"name\": "@,
        render_rec(v).push('\n').subrange(rt_p(v, 1), rt_p(v, 2)) == quoted(v.name),
        render_rec(v).push('\n').subrange(rt_p(v, 2), rt_p(v, 3)) == ",\n  \"is_alias\": "@,
        render_rec(v).push('\n').subrange(rt_p(v, 3), rt_p(v, 4)) == dec(v.is_alias as nat),
        render_rec(v).push('\n').subrange(rt_p(v, 4), rt_p(v, 5)) == ",\n  \"alias_for\": "@,
        render_rec(v).push('\n').subrange(rt_p(v, 5), rt_p(v, 6)) == quoted(v.alias_for),
        render_rec(v).push('\n').subrange(rt_p(v, 6), rt_p(v, 7)) == ",\n  \"url\": "@,
        render_rec(v).push('\n').subrange(rt_p(v, 7), rt_p(v, 8)) == quoted(v.url),
        render_rec(v).push('\n').subrange(rt_p(v, 8), rt_p(v, 9)) == ",\n  \"created\": "@,
        render_rec(v).push('\n').subrange(rt_p(v, 9), rt_p(v, 10)) == dec(v.created as nat),
        render_rec(v).push('\n').subrange(rt_p(v, 10), rt_p(v, 11)) == ",\n  \"user_display_name\": "@,
        render_rec(v).push('\n').subrange(rt_p(v, 11), rt_p(v, 12)) == quoted(v.user_display_name),
        render_rec(v).push('\n').subrange(rt_p(v, 12), rt_p(v, 13)) == ",\n  \"avatar_hash\": "@,
        render_rec(v).push('\n').subrange(rt_p(v, 13), rt_p(v, 14)) == quoted(v.avatar_hash),
        render_rec(v).push('\n').subrange(rt_p(v, 14), rt_p(v, 15)) == render_extras(v.unknown_fields),
        render_rec(v).push('\n').subrange(rt_p(v, 15), rt_p(v, 16)) == "\n}"@,
        render_rec(v).push('\n').subrange(rt_p(v, 16), rt_p(v, 17)) == seq!['\n'],
{
    let s = render_rec(v).push('\n');
    let l1 = "{\n  \"name\": "@;
    let t2 = quoted(v.name);
    let l2 = ",\n  \"is_alias\": "@;
    let d1 = dec(v.is_alias as nat);
    let l3 = ",\n  \"alias_for\": "@;
    let t6 = quoted(v.alias_for);
    let l4 = ",\n  \"url\": "@;
    let t8 = quoted(v.url);
    let l5 = ",\n  \"created\": "@;
    let d2 = dec(v.created as nat);
    let l6 = ",\n  \"user_display_name\": "@;
    let t12 = quoted(v.user_display_name);
    let l7 = ",\n  \"avatar_hash\": "@;
    let t14 = quoted(v.avatar_hash);
    let x1 = render_extras(v.unknown_fields);
    let l8 = "\n}"@;
    let nl = seq!['\n'];
    let g1 = l1;
    let g2 = g1 + t2;
    let g3 = g2 + l2;
    let g4 = g3 + d1;
    let g5 = g4 + l3;
    let g6 = g5 + t6;
    let g7 = g6 + l4;
    let g8 = g7 + t8;
    let g9 = g8 + l5;
    let g10 = g9 + d2;
    let g11 = g10 + l6;
    let g12 = g11 + t12;
    let g13 = g12 + l7;
    let g14 = g13 + t14;
    let g15 = g14 + x1;
    let g16 = g15 + l8;
    assert(render_rec(v) == g16);
    assert(s =~= g16 + nl);
    let p0: int = 0;
    let p1 = p0 + l1.len() as int;
    let p2 = p1 + t2.len() as int;
    let p3 = p2 + l2.len() as int;
    let p4 = p3 + d1.len() as int;
    let p5 = p4 + l3.len() as int;
    let p6 = p5 + t6.len() as int;
    let p7 = p6 + l4.len() as int;
    let p8 = p7 + t8.len() as int;
    let p9 = p8 + l5.len() as int;
    let p10 = p9 + d2.len() as int;
    let p11 = p10 + l6.len() as int;
    let p12 = p11 + t12.len() as int;
    let p13 = p12 + l7.len() as int;
    let p14 = p13 + t14.len() as int;
    let p15 = p14 + x1.len() as int;
    let p16 = p15 + l8.len() as int;
    let p17 = p16 + nl.len() as int;
    assert(rt_p(v, 0) == 0);
    assert(rt_p(v, 1) == rt_p(v, 0) + "{\n  \"name\": "@.len() as int);
    assert(rt_p(v, 2) == rt_p(v, 1) + quoted(v.name).len() as int);
    assert(rt_p(v, 3) == rt_p(v, 2) + ",\n  \"is_alias\": "@.len() as int);
    assert(rt_p(v, 4) == rt_p(v, 3) + dec(v.is_alias as nat).len() as int);
    assert(rt_p(v, 5) == rt_p(v, 4) + ",\n  \"alias_for\": "@.len() as int);
    assert(rt_p(v, 6) == rt_p(v, 5) + quoted(v.alias_for).len() as int);
    assert(rt_p(v, 7) == rt_p(v, 6) + ",\n  \"url\": "@.len() as int);
    assert(rt_p(v, 8) == rt_p(v, 7) + quoted(v.url).len() as int);
    assert(rt_p(v, 9) == rt_p(v, 8) + ",\n  \"created\": "@.len() as int);
    assert(rt_p(v, 10) == rt_p(v, 9) + dec(v.created as nat).len() as int);
    assert(rt_p(v, 11) == rt_p(v, 10) + ",\n  \"user_display_name\": "@.len() as int);
    assert(rt_p(v, 12) == rt_p(v, 11) + quoted(v.user_display_name).len() as int);
    assert(rt_p(v, 13) == rt_p(v, 12) + ",\n  \"avatar_hash\": "@.len() as int);
    assert(rt_p(v, 14) == rt_p(v, 13) + quoted(v.avatar_hash).len() as int);
    assert(rt_p(v, 15) == rt_p(v, 14) + render_extras(v.unknown_fields).len() as int);
    assert(rt_p(v, 16) == rt_p(v, 15) + "\n}"@.len() as int);
    assert(rt_p(v, 17) == rt_p(v, 16) + seq!['\n'].len() as int);
    assert(p1 == rt_p(v, 1));
    assert(p2 == rt_p(v, 2));
    assert(p3 == rt_p(v, 3));
    assert(p4 == rt_p(v, 4));
    assert(p5 == rt_p(v, 5));
    assert(p6 == rt_p(v, 6));
    assert(p7 == rt_p(v, 7));
    assert(p8 == rt_p(v, 8));
    assert(p9 == rt_p(v, 9));
    assert(p10 == rt_p(v, 10));
    assert(p11 == rt_p(v, 11));
    assert(p12 == rt_p(v, 12));
    assert(p13 == rt_p(v, 13));
    assert(p14 == rt_p(v, 14));
    assert(p15 == rt_p(v, 15));
    assert(p16 == rt_p(v, 16));
    assert(p17 == rt_p(v, 17));
    assert(p17 == s.len());
    assert(s.subrange(0, s.len() as int) =~= s);
    assert(s.subrange(0, p17) == g16 + nl);
    l_slice_of_concat(g16, nl, s, 0);
    assert(s.subrange(0, p16) == g15 + l8);
    l_slice_of_concat(g15, l8, s, 0);
    assert(s.subrange(0, p15) == g14 + x1);
    l_slice_of_concat(g14, x1, s, 0);
    assert(s.subrange(0, p14) == g13 + t14);
    l_slice_of_concat(g13, t14, s, 0);
    assert(s.subrange(0, p13) == g12 + l7);
    l_slice_of_concat(g12, l7, s, 0);
    assert(s.subrange(0, p12) == g11 + t12);
    l_slice_of_concat(g11, t12, s, 0);
    assert(s.subrange(0, p11) == g10 + l6);
    l_slice_of_concat(g10, l6, s, 0);
    assert(s.subrange(0, p10) == g9 + d2);
    l_slice_of_concat(g9, d2, s, 0);
    assert(s.subrange(0, p9) == g8 + l5);
    l_slice_of_concat(g8, l5, s, 0);
    assert(s.subrange(0, p8) == g7 + t8);
    l_slice_of_concat(g7, t8, s, 0);
    assert(s.subrange(0, p7) == g6 + l4);
    l_slice_of_concat(g6, l4, s, 0);
    assert(s.subrange(0, p6) == g5 + t6);
    l_slice_of_concat(g5, t6, s, 0);
    assert(s.subrange(0, p5) == g4 + l3);
    l_slice_of_concat(g4, l3, s, 0);
    assert(s.subrange(0, p4) == g3 + d1);
    l_slice_of_concat(g3, d1, s, 0);
    assert(s.subrange(0, p3) == g2 + l2);
    l_slice_of_concat(g2, l2, s, 0);
    assert(s.subrange(0, p2) == g1 + t2);
    l_slice_of_concat(g1, t2, s, 0);
    assert(s.subrange(p0, p1) == l1);
}

/// Parsing a decomposed rendered text, back half: from `created` on.
#[verifier::rlimit(100)]
proof fn lemma_rt_apply_tail(s: Seq<char>, v: EmojiView)
    requires
        v.wf(),
        s.len() == rt_p(v, 17),
        s.subrange(rt_p(v, 0), rt_p(v, 1)) == "{\n  \"name\": "@,
        s.subrange(rt_p(v, 1), rt_p(v, 2)) == quoted(v.name),
        s.subrange(rt_p(v, 2), rt_p(v, 3)) == ",\n  \"is_alias\": "@,
        s.subrange(rt_p(v, 3), rt_p(v, 4)) == dec(v.is_alias as nat),
        s.subrange(rt_p(v, 4), rt_p(v, 5)) == ",\n  \"alias_for\": "@,
        s.subrange(rt_p(v, 5), rt_p(v, 6)) == quoted(v.alias_for),
        s.subrange(rt_p(v, 6), rt_p(v, 7)) == ",\n  \"url\": "@,
        s.subrange(rt_p(v, 7), rt_p(v, 8)) == quoted(v.url),
        s.subrange(rt_p(v, 8), rt_p(v, 9)) == ",\n  \"created\": "@,
        s.subrange(rt_p(v, 9), rt_p(v, 10)) == dec(v.created as nat),
        s.subrange(rt_p(v, 10), rt_p(v, 11)) == ",\n  \"user_display_name\": "@,
        s.subrange(rt_p(v, 11), rt_p(v, 12)) == quoted(v.user_display_name),
        s.subrange(rt_p(v, 12), rt_p(v, 13)) == ",\n  \"avatar_hash\": "@,
        s.subrange(rt_p(v, 13), rt_p(v, 14)) == quoted(v.avatar_hash),
        s.subrange(rt_p(v, 14), rt_p(v, 15)) == render_extras(v.unknown_fields),
        s.subrange(rt_p(v, 15), rt_p(v, 16)) == "\n}"@,
        s.subrange(rt_p(v, 16), rt_p(v, 17)) == seq!['\n'],
    ensures
        p_record_tail(s, rt_p(v, 8), v.name, v.is_alias as int, v.alias_for, v.url) == Some(v),
{
    assert(rt_p(v, 0) == 0);
    assert(rt_p(v, 1) == rt_p(v, 0) + "{\n  \"name\": "@.len() as int);
    assert(rt_p(v, 2) == rt_p(v, 1) + quoted(v.name).len() as int);
    assert(rt_p(v, 3) == rt_p(v, 2) + ",\n  \"is_alias\": "@.len() as int);
    assert(rt_p(v, 4) == rt_p(v, 3) + dec(v.is_alias as nat).len() as int);
    assert(rt_p(v, 5) == rt_p(v, 4) + ",\n  \"alias_for\": "@.len() as int);
    assert(rt_p(v, 6) == rt_p(v, 5) + quoted(v.alias_for).len() as int);
    assert(rt_p(v, 7) == rt_p(v, 6) + ",\n  \"url\": "@.len() as int);
    assert(rt_p(v, 8) == rt_p(v, 7) + quoted(v.url).len() as int);
    assert(rt_p(v, 9) == rt_p(v, 8) + ",\n  \"created\": "@.len() as int);
    assert(rt_p(v, 10) == rt_p(v, 9) + dec(v.created as nat).len() as int);
    assert(rt_p(v, 11) == rt_p(v, 10) + ",\n  \"user_display_name\": "@.len() as int);
    assert(rt_p(v, 12) == rt_p(v, 11) + quoted(v.user_display_name).len() as int);
    assert(rt_p(v, 13) == rt_p(v, 12) + ",\n  \"avatar_hash\": "@.len() as int);
    assert(rt_p(v, 14) == rt_p(v, 13) + quoted(v.avatar_hash).len() as int);
    assert(rt_p(v, 15) == rt_p(v, 14) + render_extras(v.unknown_fields).len() as int);
    assert(rt_p(v, 16) == rt_p(v, 15) + "\n}"@.len() as int);
    assert(rt_p(v, 17) == rt_p(v, 16) + seq!['\n'].len() as int);
    let p0 = rt_p(v, 0);
    let p1 = rt_p(v, 1);
    let p2 = rt_p(v, 2);
    let p3 = rt_p(v, 3);
    let p4 = rt_p(v, 4);
    let p5 = rt_p(v, 5);
    let p6 = rt_p(v, 6);
    let p7 = rt_p(v, 7);
    let p8 = rt_p(v, 8);
    let p9 = rt_p(v, 9);
    let p10 = rt_p(v, 10);
    let p11 = rt_p(v, 11);
    let p12 = rt_p(v, 12);
    let p13 = rt_p(v, 13);
    let p14 = rt_p(v, 14);
    let p15 = rt_p(v, 15);
    let p16 = rt_p(v, 16);
    let p17 = rt_p(v, 17);
    let l1 = "{\n  \"name\": "@;
    let t2 = quoted(v.name);
    let l2 = ",\n  \"is_alias\": "@;
    let d1 = dec(v.is_alias as nat);
    let l3 = ",\n  \"alias_for\": "@;
    let t6 = quoted(v.alias_for);
    let l4 = ",\n  \"url\": "@;
    let t8 = quoted(v.url);
    let l5 = ",\n  \"created\": "@;
    let d2 = dec(v.created as nat);
    let l6 = ",\n  \"user_display_name\": "@;
    let t12 = quoted(v.user_display_name);
    let l7 = ",\n  \"avatar_hash\": "@;
    let t14 = quoted(v.avatar_hash);
    let x1 = render_extras(v.unknown_fields);
    let l8 = "\n}"@;
    let nl = seq!['\n'];
    reveal_strlit(",\n  \"user_display_name\": ");
    reveal_strlit("\n}");
    reveal_strlit("\n}\n");
    assert(!is_dec_digit(','));
    assert(p_lit(s, p8, l5) == Some(p9));
    assert(s[p10] == ',') by {
        assert(s.subrange(p10, p11)[0] == s[p10]);
        assert(l6[0] == ',');
    }
    lemma_p_number_complete(s, p9, v.created as nat, u128::MAX as int);
    assert(p_number(s, p9, u128::MAX as int) == Some((v.created as int, p10)));
    assert(p_lit(s, p10, l6) == Some(p11));
    assert(s.subrange(p11, p12) == (seq!['"'] + esc(v.user_display_name)) + seq!['"']);
    l_slice_of_concat(seq!['"'] + esc(v.user_display_name), seq!['"'], s, p11);
    l_slice_of_concat(seq!['"'], esc(v.user_display_name), s, p11);
    l_char_of_slice('"', s, p11);
    assert(p_char(s, p11, '"') == Some(p11 + 1));
    l_char_of_slice('"', s, p11 + 1 + esc(v.user_display_name).len());
    lemma_p_string_complete(s, p11 + 1, v.user_display_name);
    assert(p12 == p11 + 1 + esc(v.user_display_name).len() + 1);
    assert(p_string(s, p11 + 1) == Some((v.user_display_name, p12)));

    assert(p_lit(s, p12, l7) == Some(p13));
    assert(s.subrange(p13, p14) == (seq!['"'] + esc(v.avatar_hash)) + seq!['"']);
    l_slice_of_concat(seq!['"'] + esc(v.avatar_hash), seq!['"'], s, p13);
    l_slice_of_concat(seq!['"'], esc(v.avatar_hash), s, p13);
    l_char_of_slice('"', s, p13);
    assert(p_char(s, p13, '"') == Some(p13 + 1));
    l_char_of_slice('"', s, p13 + 1 + esc(v.avatar_hash).len());
    lemma_p_string_complete(s, p13 + 1, v.avatar_hash);
    assert(p14 == p13 + 1 + esc(v.avatar_hash).len() + 1);
    assert(p_string(s, p13 + 1) == Some((v.avatar_hash, p14)));

    assert(s[p15] == '\n') by {
        assert(s.subrange(p15, p16)[0] == s[p15]);
        assert(l8[0] == '\n');
    }
    lemma_p_extras_complete(s, p14, v.unknown_fields);
    assert(p_extras(s, p14) == Some((v.unknown_fields, p15)));
    assert(s[p15 + 1] == '}') by {
        assert(s.subrange(p15, p16)[1] == s[p15 + 1]);
        assert(l8[1] == '}');
    }
    l_char_of_slice('\n', s, p16);
    assert(s.subrange(p15, p15 + 3) =~= "\n}\n"@) by {
        assert(s.subrange(p15, p15 + 3)[0] == s[p15]);
        assert(s.subrange(p15, p15 + 3)[1] == s[p15 + 1]);
        assert(s.subrange(p15, p15 + 3)[2] == s[p16]);
    }
    assert(p_lit(s, p15, "\n}\n"@) == Some(p17));
    assert(p17 == s.len());
    assert(p_record_tail(s, p8, v.name, v.is_alias as int, v.alias_for, v.url) == Some(v)) by {
        let got = EmojiView {
            name: v.name,
            is_alias: (v.is_alias as int) as u8,
            alias_for: v.alias_for,
            url: v.url,
            created: (v.created as int) as u128,
            user_display_name: v.user_display_name,
            avatar_hash: v.avatar_hash,
            unknown_fields: v.unknown_fields,
        };
        assert(got =~= v);
    }
}

/// Parsing a decomposed rendered text, front half: the first four
/// members, handing the rest to `p_record_tail`.
#[verifier::rlimit(100)]
proof fn lemma_rt_apply_front(s: Seq<char>, v: EmojiView)
    requires
        v.wf(),
        s.len() == rt_p(v, 17),
        s.subrange(rt_p(v, 0), rt_p(v, 1)) == "{\n  \"name\": "@,
        s.subrange(rt_p(v, 1), rt_p(v, 2)) == quoted(v.name),
        s.subrange(rt_p(v, 2), rt_p(v, 3)) == ",\n  \"is_alias\": "@,
        s.subrange(rt_p(v, 3), rt_p(v, 4)) == dec(v.is_alias as nat),
        s.subrange(rt_p(v, 4), rt_p(v, 5)) == ",\n  \"alias_for\": "@,
        s.subrange(rt_p(v, 5), rt_p(v, 6)) == quoted(v.alias_for),
        s.subrange(rt_p(v, 6), rt_p(v, 7)) == ",\n  \"url\": "@,
        s.subrange(rt_p(v, 7), rt_p(v, 8)) == quoted(v.url),
    ensures
        p_record(s) == p_record_tail(s, rt_p(v, 8), v.name, v.is_alias as int, v.alias_for, v.url),
{
    assert(rt_p(v, 0) == 0);
    assert(rt_p(v, 1) == rt_p(v, 0) + "{\n  \"name\": "@.len() as int);
    assert(rt_p(v, 2) == rt_p(v, 1) + quoted(v.name).len() as int);
    assert(rt_p(v, 3) == rt_p(v, 2) + ",\n  \"is_alias\": "@.len() as int);
    assert(rt_p(v, 4) == rt_p(v, 3) + dec(v.is_alias as nat).len() as int);
    assert(rt_p(v, 5) == rt_p(v, 4) + ",\n  \"alias_for\": "@.len() as int);
    assert(rt_p(v, 6) == rt_p(v, 5) + quoted(v.alias_for).len() as int);
    assert(rt_p(v, 7) == rt_p(v, 6) + ",\n  \"url\": "@.len() as int);
    assert(rt_p(v, 8) == rt_p(v, 7) + quoted(v.url).len() as int);
    assert(rt_p(v, 9) == rt_p(v, 8) + ",\n  \"created\": "@.len() as int);
    assert(rt_p(v, 10) == rt_p(v, 9) + dec(v.created as nat).len() as int);
    assert(rt_p(v, 11) == rt_p(v, 10) + ",\n  \"user_display_name\": "@.len() as int);
    assert(rt_p(v, 12) == rt_p(v, 11) + quoted(v.user_display_name).len() as int);
    assert(rt_p(v, 13) == rt_p(v, 12) + ",\n  \"avatar_hash\": "@.len() as int);
    assert(rt_p(v, 14) == rt_p(v, 13) + quoted(v.avatar_hash).len() as int);
    assert(rt_p(v, 15) == rt_p(v, 14) + render_extras(v.unknown_fields).len() as int);
    assert(rt_p(v, 16) == rt_p(v, 15) + "\n}"@.len() as int);
    assert(rt_p(v, 17) == rt_p(v, 16) + seq!['\n'].len() as int);
    let p0 = rt_p(v, 0);
    let p1 = rt_p(v, 1);
    let p2 = rt_p(v, 2);
    let p3 = rt_p(v, 3);
    let p4 = rt_p(v, 4);
    let p5 = rt_p(v, 5);
    let p6 = rt_p(v, 6);
    let p7 = rt_p(v, 7);
    let p8 = rt_p(v, 8);
    let l1 = "{\n  \"name\": "@;
    let t2 = quoted(v.name);
    let l2 = ",\n  \"is_alias\": "@;
    let d1 = dec(v.is_alias as nat);
    let l3 = ",\n  \"alias_for\": "@;
    let t6 = quoted(v.alias_for);
    let l4 = ",\n  \"url\": "@;
    let t8 = quoted(v.url);
    reveal_strlit(",\n  \"alias_for\": ");
    assert(!is_dec_digit(','));
    assert(p_lit(s, p0, l1) == Some(p1));
    assert(s.subrange(p1, p2) == (seq!['"'] + esc(v.name)) + seq!['"']);
    l_slice_of_concat(seq!['"'] + esc(v.name), seq!['"'], s, p1);
    l_slice_of_concat(seq!['"'], esc(v.name), s, p1);
    l_char_of_slice('"', s, p1);
    assert(p_char(s, p1, '"') == Some(p1 + 1));
    l_char_of_slice('"', s, p1 + 1 + esc(v.name).len());
    lemma_p_string_complete(s, p1 + 1, v.name);
    assert(p2 == p1 + 1 + esc(v.name).len() + 1);
    assert(p_string(s, p1 + 1) == Some((v.name, p2)));

    assert(p_lit(s, p2, l2) == Some(p3));
    assert(s[p4] == ',') by {
        assert(s.subrange(p4, p5)[0] == s[p4]);
        assert(l3[0] == ',');
    }
    lemma_p_number_complete(s, p3, v.is_alias as nat, 255);
    assert(p_number(s, p3, 255) == Some((v.is_alias as int, p4)));
    assert(p_lit(s, p4, l3) == Some(p5));
    assert(s.subrange(p5, p6) == (seq!['"'] + esc(v.alias_for)) + seq!['"']);
    l_slice_of_concat(seq!['"'] + esc(v.alias_for), seq!['"'], s, p5);
    l_slice_of_concat(seq!['"'], esc(v.alias_for), s, p5);
    l_char_of_slice('"', s, p5);
    assert(p_char(s, p5, '"') == Some(p5 + 1));
    l_char_of_slice('"', s, p5 + 1 + esc(v.alias_for).len());
    lemma_p_string_complete(s, p5 + 1, v.alias_for);
    assert(p6 == p5 + 1 + esc(v.alias_for).len() + 1);
    assert(p_string(s, p5 + 1) == Some((v.alias_for, p6)));

    assert(p_lit(s, p6, l4) == Some(p7));
    assert(s.subrange(p7, p8) == (seq!['"'] + esc(v.url)) + seq!['"']);
    l_slice_of_concat(seq!['"'] + esc(v.url), seq!['"'], s, p7);
    l_slice_of_concat(seq!['"'], esc(v.url), s, p7);
    l_char_of_slice('"', s, p7);
    assert(p_char(s, p7, '"') == Some(p7 + 1));
    l_char_of_slice('"', s, p7 + 1 + esc(v.url).len());
    lemma_p_string_complete(s, p7 + 1, v.url);
    assert(p8 == p7 + 1 + esc(v.url).len() + 1);
    assert(p_string(s, p7 + 1) == Some((v.url, p8)));

    assert(p_record(s) == p_record_tail(s, p8, v.name, v.is_alias as int, v.alias_for, v.url));
}

/// The round-trip law: a well-formed record, rendered to its persisted
/// form and newline-terminated as the sink leaves it, parses back to the
/// very record it came from.
pub proof fn lemma_render_parse_round_trip(v: EmojiView)
    requires
        v.wf(),
    ensures
        p_record(render_rec(v).push('\n')) == Some(v),
{
    lemma_rt_slices(v);
    lemma_rt_apply_front(render_rec(v).push('\n'), v);
    lemma_rt_apply_tail(render_rec(v).push('\n'), v);
}

} // verus!
