//! The persisted record format: one pretty-printed JSON object per record,
//! modeled fields first, unmodeled members after them verbatim, one member
//! per line. `render_rec` is the format's definition; the executable
//! renderer and parser are proved against it, and a rendered record parses
//! back to the very record it came from.

use vstd::prelude::*;
use crate::record::{Emoji, EmojiView, ExtraField};
use crate::util::push_char;

verus! {

/// The lower-case hexadecimal digit for `n`.
pub open spec fn hex_digit(n: int) -> char {
    if n == 0 {
        '0'
    } else if n == 1 {
        '1'
    } else if n == 2 {
        '2'
    } else if n == 3 {
        '3'
    } else if n == 4 {
        '4'
    } else if n == 5 {
        '5'
    } else if n == 6 {
        '6'
    } else if n == 7 {
        '7'
    } else if n == 8 {
        '8'
    } else if n == 9 {
        '9'
    } else if n == 10 {
        'a'
    } else if n == 11 {
        'b'
    } else if n == 12 {
        'c'
    } else if n == 13 {
        'd'
    } else if n == 14 {
        'e'
    } else {
        'f'
    }
}

/// The decimal digit for `n`.
pub open spec fn dec_digit(n: int) -> char {
    hex_digit(if 0 <= n < 10 {
        n
    } else {
        0
    })
}

/// How one character appears inside a JSON string: quote and backslash
/// escaped, control characters as `\u00` plus two hex digits, everything
/// else verbatim.
pub open spec fn esc_char(c: char) -> Seq<char> {
    if c == '"' {
        seq!['\\', '"']
    } else if c == '\\' {
        seq!['\\', '\\']
    } else if (c as u32) < 32 {
        seq!['\\', 'u', '0', '0', hex_digit((c as u32) as int / 16), hex_digit(
            (c as u32) as int % 16,
        )]
    } else {
        seq![c]
    }
}

/// A whole text escaped, character by character.
pub open spec fn esc(s: Seq<char>) -> Seq<char>
    decreases s.len(),
{
    if s.len() == 0 {
        Seq::<char>::empty()
    } else {
        esc_char(s[0]) + esc(s.subrange(1, s.len() as int))
    }
}

/// An escaped text between its quotes.
pub open spec fn quoted(s: Seq<char>) -> Seq<char> {
    seq!['"'] + esc(s) + seq!['"']
}

/// The canonical decimal numeral of `n`: no sign, no leading zero.
pub open spec fn dec(n: nat) -> Seq<char>
    decreases n,
{
    if n < 10 {
        seq![dec_digit(n as int)]
    } else {
        dec(n / 10) + seq![dec_digit((n % 10) as int)]
    }
}

/// The unmodeled members, one line each: a comma ends the previous line,
/// then the indented quoted key, a colon, and the raw value verbatim.
pub open spec fn render_extras(xs: Seq<(Seq<char>, Seq<char>)>) -> Seq<char>
    decreases xs.len(),
{
    if xs.len() == 0 {
        Seq::<char>::empty()
    } else {
        ",\n  "@ + quoted(xs[0].0) + ": "@ + xs[0].1 + render_extras(
            xs.subrange(1, xs.len() as int),
        )
    }
}

/// The persisted form of one record, without the trailing newline the
/// sink appends: the seven modeled members in fixed order, then the
/// unmodeled members in their stored order.
pub open spec fn render_rec(v: EmojiView) -> Seq<char> {
    "{\n  \"name\": "@ + quoted(v.name) + ",\n  \"is_alias\": "@ + dec(v.is_alias as nat)
        + ",\n  \"alias_for\": "@ + quoted(v.alias_for) + ",\n  \"url\": "@ + quoted(v.url)
        + ",\n  \"created\": "@ + dec(v.created as nat) + ",\n  \"user_display_name\": "@ + quoted(
        v.user_display_name,
    ) + ",\n  \"avatar_hash\": "@ + quoted(v.avatar_hash) + render_extras(v.unknown_fields)
        + "\n}"@
}

/// Escaping distributes over concatenation.
pub proof fn lemma_esc_append(a: Seq<char>, b: Seq<char>)
    ensures
        esc(a + b) == esc(a) + esc(b),
    decreases a.len(),
{
    broadcast use vstd::seq_lib::group_seq_lib_default;

    if a.len() == 0 {
        assert(a + b =~= b);
    } else {
        assert((a + b)[0] == a[0]);
        assert((a + b).subrange(1, (a + b).len() as int) =~= a.subrange(1, a.len() as int) + b);
        lemma_esc_append(a.subrange(1, a.len() as int), b);
        assert(esc(a + b) =~= esc(a) + esc(b));
    }
}

/// Escaping one character is that character's escape.
pub proof fn lemma_esc_one(c: char)
    ensures
        esc(seq![c]) == esc_char(c),
{
    broadcast use vstd::seq_lib::group_seq_lib_default;

    let tail = seq![c].subrange(1, 1);
    assert(tail =~= Seq::<char>::empty());
    assert(seq![c][0] == c);
    assert(esc(tail) == Seq::<char>::empty());
    assert(esc_char(c) + Seq::<char>::empty() =~= esc_char(c));
}

fn dec_char_of(d: u32) -> (r: char)
    requires
        d < 10,
    ensures
        r == dec_digit(d as int),
{
    hex_char_of(d)
}

fn hex_char_of(d: u32) -> (r: char)
    requires
        d < 16,
    ensures
        r == hex_digit(d as int),
{
    if d == 0 {
        '0'
    } else if d == 1 {
        '1'
    } else if d == 2 {
        '2'
    } else if d == 3 {
        '3'
    } else if d == 4 {
        '4'
    } else if d == 5 {
        '5'
    } else if d == 6 {
        '6'
    } else if d == 7 {
        '7'
    } else if d == 8 {
        '8'
    } else if d == 9 {
        '9'
    } else if d == 10 {
        'a'
    } else if d == 11 {
        'b'
    } else if d == 12 {
        'c'
    } else if d == 13 {
        'd'
    } else if d == 14 {
        'e'
    } else {
        'f'
    }
}

/// Appends the escape of one character.
fn append_escaped_char(out: &mut String, c: char)
    ensures
        final(out)@ == old(out)@ + esc_char(c),
{
    if c == '"' {
        out.append("\\\"");
        proof {
            reveal_strlit("\\\"");
            assert(final(out)@ =~= old(out)@ + esc_char(c));
        }
    } else if c == '\\' {
        out.append("\\\\");
        proof {
            reveal_strlit("\\\\");
            assert(final(out)@ =~= old(out)@ + esc_char(c));
        }
    } else if (c as u32) < 32 {
        out.append("\\u00");
        let v: u32 = c as u32;
        push_char(out, hex_char_of(v / 16));
        push_char(out, hex_char_of(v % 16));
        proof {
            reveal_strlit("\\u00");
            assert(final(out)@ =~= old(out)@ + esc_char(c));
        }
    } else {
        push_char(out, c);
        proof {
            assert(final(out)@ =~= old(out)@ + esc_char(c));
        }
    }
}

/// Appends the escape of a whole text.
fn append_escaped(out: &mut String, s: &str)
    ensures
        final(out)@ == old(out)@ + esc(s@),
{
    let n = s.unicode_len();
    let mut i: usize = 0;
    while i < n
        invariant
            n == s@.len(),
            i <= n,
            out@ == old(out)@ + esc(s@.subrange(0, i as int)),
        decreases n - i,
    {
        append_escaped_char(out, s.get_char(i));
        proof {
            assert(s@.subrange(0, i + 1) =~= s@.subrange(0, i as int) + seq![s@[i as int]]);
            lemma_esc_append(s@.subrange(0, i as int), seq![s@[i as int]]);
            lemma_esc_one(s@[i as int]);
            assert(out@ =~= old(out)@ + esc(s@.subrange(0, i + 1)));
        }
        i = i + 1;
    }
    proof {
        assert(s@.subrange(0, n as int) =~= s@);
    }
}

/// Appends the canonical decimal numeral of `n`.
fn append_dec(out: &mut String, n: u128)
    ensures
        final(out)@ == old(out)@ + dec(n as nat),
    decreases n,
{
    if n < 10 {
        push_char(out, dec_char_of(n as u32));
    } else {
        append_dec(out, n / 10);
        push_char(out, dec_char_of((n % 10) as u32));
        proof {
            assert(final(out)@ =~= old(out)@ + dec(n as nat));
        }
    }
}

/// A record that cannot be rendered; carries the record's name so the
/// failure can be reported and the run continue.
#[derive(Debug)]
pub struct SerializeError {
    pub name: String,
}

/// True when the text can stand verbatim on one line of the persisted
/// form.
fn raw_value_fits(v: &str) -> (r: bool)
    ensures
        r == crate::record::raw_value_ok(v@),
{
    let n = v.unicode_len();
    if n > 0 && v.get_char(n - 1) == ',' {
        return false;
    }
    let mut i: usize = 0;
    while i < n
        invariant
            n == v@.len(),
            i <= n,
            n == 0 || v@.last() != ',',
            forall|j: int| 0 <= j < i ==> v@[j] != '\n',
        decreases n - i,
    {
        if v.get_char(i) == '\n' {
            return false;
        }
        i = i + 1;
    }
    true
}

/// Renders one record to its persisted form. Fails — and reports the
/// record by name — exactly when some unmodeled value cannot stand on one
/// line, the one way a record can be unrenderable.
pub fn render_record(e: &Emoji) -> (r: Result<String, SerializeError>)
    ensures
        (match r {
            Ok(s) => e@.wf() && s@ == render_rec(e@),
            Err(err) => !e@.wf() && err.name@ == e@.name,
        }),
{
    let ghost xs: Seq<(Seq<char>, Seq<char>)> = e@.unknown_fields;
    let mut k: usize = 0;
    while k < e.unknown_fields.len()
        invariant
            k <= e.unknown_fields@.len(),
            xs == e@.unknown_fields,
            forall|j: int| 0 <= j < k ==> crate::record::raw_value_ok(#[trigger] xs[j].1),
        decreases e.unknown_fields@.len() - k,
    {
        if !raw_value_fits(e.unknown_fields[k].value.as_str()) {
            proof {
                assert(xs[k as int].1 == e.unknown_fields@[k as int].value@);
                assert(!e@.wf());
            }
            return Err(SerializeError { name: e.name.clone() });
        }
        proof {
            assert(xs[k as int].1 == e.unknown_fields@[k as int].value@);
        }
        k = k + 1;
    }
    assert(e@.wf());
    let mut out = String::from_str("{\n  \"name\": ");
    out.append("\"");
    append_escaped(&mut out, e.name.as_str());
    out.append("\"");
    out.append(",\n  \"is_alias\": ");
    append_dec(&mut out, e.is_alias as u128);
    out.append(",\n  \"alias_for\": ");
    out.append("\"");
    append_escaped(&mut out, e.alias_for.as_str());
    out.append("\"");
    out.append(",\n  \"url\": ");
    out.append("\"");
    append_escaped(&mut out, e.url.as_str());
    out.append("\"");
    out.append(",\n  \"created\": ");
    append_dec(&mut out, e.created);
    out.append(",\n  \"user_display_name\": ");
    out.append("\"");
    append_escaped(&mut out, e.user_display_name.as_str());
    out.append("\"");
    out.append(",\n  \"avatar_hash\": ");
    out.append("\"");
    append_escaped(&mut out, e.avatar_hash.as_str());
    out.append("\"");
    let ghost head: Seq<char> = out@;
    let mut i: usize = 0;
    while i < e.unknown_fields.len()
        invariant
            i <= e.unknown_fields@.len(),
            xs == e@.unknown_fields,
            out@ == head + render_extras(xs.subrange(0, i as int)),
        decreases e.unknown_fields@.len() - i,
    {
        out.append(",\n  ");
        out.append("\"");
        append_escaped(&mut out, e.unknown_fields[i].key.as_str());
        out.append("\"");
        out.append(": ");
        out.append(e.unknown_fields[i].value.as_str());
        proof {
            assert(xs.subrange(0, i + 1) =~= xs.subrange(0, i as int) + seq![xs[i as int]]);
            lemma_render_extras_append(xs.subrange(0, i as int), seq![xs[i as int]]);
            lemma_render_extras_one(xs[i as int]);
            assert(xs[i as int].0 == e.unknown_fields@[i as int].key@);
            assert(xs[i as int].1 == e.unknown_fields@[i as int].value@);
            reveal_strlit("\"");
            assert(out@ =~= head + render_extras(xs.subrange(0, i + 1)));
        }
        i = i + 1;
    }
    out.append("\n}");
    proof {
        assert(xs.subrange(0, xs.len() as int) =~= xs);
        reveal_strlit("\"");
        assert(out@ =~= render_rec(e@));
    }
    Ok(out)
}

/// Rendering the unmodeled members distributes over concatenation.
proof fn lemma_render_extras_append(a: Seq<(Seq<char>, Seq<char>)>, b: Seq<(Seq<char>, Seq<char>)>)
    ensures
        render_extras(a + b) == render_extras(a) + render_extras(b),
    decreases a.len(),
{
    broadcast use vstd::seq_lib::group_seq_lib_default;

    if a.len() == 0 {
        assert(a + b =~= b);
    } else {
        assert((a + b)[0] == a[0]);
        assert((a + b).subrange(1, (a + b).len() as int) =~= a.subrange(1, a.len() as int) + b);
        lemma_render_extras_append(a.subrange(1, a.len() as int), b);
        assert(render_extras(a + b) =~= render_extras(a) + render_extras(b));
    }
}

/// One unmodeled member's line.
proof fn lemma_render_extras_one(x: (Seq<char>, Seq<char>))
    ensures
        render_extras(seq![x]) == ",\n  "@ + quoted(x.0) + ": "@ + x.1,
{
    broadcast use vstd::seq_lib::group_seq_lib_default;

    let tail = seq![x].subrange(1, 1);
    assert(tail =~= Seq::<(Seq<char>, Seq<char>)>::empty());
    assert(seq![x][0] == x);
    assert(render_extras(tail) == Seq::<char>::empty());
    assert((",\n  "@ + quoted(x.0) + ": "@ + x.1) + Seq::<char>::empty() =~= ",\n  "@ + quoted(x.0)
        + ": "@ + x.1);
}

} // verus!
