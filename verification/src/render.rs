//! JSON text of a value, as the compact serializer writes it: no spaces,
//! members in order, strings quoted with `"`, `\`, `\b`, `\f`, `\n`, `\r`,
//! `\t` escaped and other control characters as `\u00xx`.
use vstd::prelude::*;

use crate::json::{JsonNumber, JsonV, JsonValue, NumV, entries_view, items_view, lemma_array_view, lemma_object_view};
use crate::json_read::{lemma_render_reads_back, read_json, well_formed};
use crate::text::{append_str, chars_of, dec, push_char, push_decimal};

verus! {

/// A lower-case hexadecimal digit.
pub open spec fn hex_digit(n: int) -> char {
    if n < 10 {
        (('0' as int) + n) as char
    } else {
        (('a' as int) + n - 10) as char
    }
}

/// How one character of a string is written.
pub open spec fn escape_char(c: char) -> Seq<char> {
    if c == '"' {
        seq!['\\', '"']
    } else if c == '\\' {
        seq!['\\', '\\']
    } else if c == '\u{8}' {
        seq!['\\', 'b']
    } else if c == '\t' {
        seq!['\\', 't']
    } else if c == '\n' {
        seq!['\\', 'n']
    } else if c == '\u{c}' {
        seq!['\\', 'f']
    } else if c == '\r' {
        seq!['\\', 'r']
    } else if (c as u32) < 0x20 {
        seq!['\\', 'u', '0', '0', hex_digit(((c as u32) / 16) as int), hex_digit(((c as u32) % 16) as int)]
    } else {
        seq![c]
    }
}

/// The characters of a string, each written as `escape_char` says.
pub open spec fn escaped(s: Seq<char>) -> Seq<char>
    decreases s.len(),
{
    if s.len() == 0 {
        Seq::empty()
    } else {
        escaped(s.drop_last()) + escape_char(s.last())
    }
}

/// A JSON string literal.
pub open spec fn quoted(s: Seq<char>) -> Seq<char> {
    seq!['"'] + escaped(s) + seq!['"']
}

/// The text of a number.
pub open spec fn number_text(n: NumV) -> Seq<char> {
    match n {
        NumV::PosInt(u) => dec(u as nat),
        NumV::NegInt(i) => if i < 0 {
            seq!['-'] + dec((-i) as nat)
        } else {
            dec(i as nat)
        },
        NumV::Float(s) => s,
    }
}

/// The compact JSON text of a value.
pub open spec fn json_text(v: JsonV) -> Seq<char>
    decreases v,
{
    match v {
        JsonV::Null => seq!['n', 'u', 'l', 'l'],
        JsonV::Bool(b) => if b {
            seq!['t', 'r', 'u', 'e']
        } else {
            seq!['f', 'a', 'l', 's', 'e']
        },
        JsonV::Number(n) => number_text(n),
        JsonV::Str(s) => quoted(s),
        JsonV::Array(items) => seq!['['] + items_text(items) + seq![']'],
        JsonV::Object(members) => seq!['{'] + members_text(members) + seq!['}'],
    }
}

/// Array items, separated by commas.
pub open spec fn items_text(items: Seq<JsonV>) -> Seq<char>
    decreases items,
{
    if items.len() == 0 {
        Seq::empty()
    } else if items.len() == 1 {
        json_text(items[0])
    } else {
        items_text(items.subrange(0, items.len() - 1)) + seq![','] + json_text(items[items.len() - 1])
    }
}

/// Object members `"key":value`, separated by commas.
pub open spec fn members_text(members: Seq<(Seq<char>, JsonV)>) -> Seq<char>
    decreases members,
{
    if members.len() == 0 {
        Seq::empty()
    } else if members.len() == 1 {
        quoted(members[0].0) + seq![':'] + json_text(members[0].1)
    } else {
        members_text(members.subrange(0, members.len() - 1)) + seq![','] + quoted(members[members.len() - 1].0)
            + seq![':'] + json_text(members[members.len() - 1].1)
    }
}

fn hex_exec(n: u32) -> (c: char)
    requires
        n < 16,
    ensures
        c == hex_digit(n as int),
{
    if n < 10 {
        assert(('0' as u32) + n < 0xD800);
        (('0' as u32) + n) as u8 as char
    } else {
        assert(('a' as u32) + n - 10 < 0xD800);
        (('a' as u32) + n - 10) as u8 as char
    }
}

/// Appends a JSON string literal.
pub fn push_quoted(out: &mut String, s: &str)
    ensures
        final(out)@ == old(out)@ + quoted(s@),
{
    let cs = chars_of(s);
    push_char(out, '"');
    let ghost start = out@;
    let mut i: usize = 0;
    while i < cs.len()
        invariant
            cs@ == s@,
            i <= cs@.len(),
            out@ == start + escaped(cs@.take(i as int)),
        decreases cs@.len() - i,
    {
        let c = cs[i];
        assert(cs@.take(i + 1).drop_last() =~= cs@.take(i as int));
        assert(cs@.take(i + 1).last() == c);
        let ghost before = out@;
        if c == '"' {
            push_char(out, '\\');
            push_char(out, '"');
        } else if c == '\\' {
            push_char(out, '\\');
            push_char(out, '\\');
        } else if c == '\u{8}' {
            push_char(out, '\\');
            push_char(out, 'b');
        } else if c == '\t' {
            push_char(out, '\\');
            push_char(out, 't');
        } else if c == '\n' {
            push_char(out, '\\');
            push_char(out, 'n');
        } else if c == '\u{c}' {
            push_char(out, '\\');
            push_char(out, 'f');
        } else if c == '\r' {
            push_char(out, '\\');
            push_char(out, 'r');
        } else if (c as u32) < 0x20 {
            push_char(out, '\\');
            push_char(out, 'u');
            push_char(out, '0');
            push_char(out, '0');
            push_char(out, hex_exec((c as u32) / 16));
            push_char(out, hex_exec((c as u32) % 16));
        } else {
            push_char(out, c);
        }
        assert(out@ =~= before + escape_char(c));
        assert(out@ =~= start + escaped(cs@.take(i + 1)));
        i = i + 1;
    }
    assert(cs@.take(i as int) =~= s@);
    push_char(out, '"');
    assert(out@ =~= old(out)@ + quoted(s@));
}

/// Appends the compact JSON text of a value.
#[verifier::loop_isolation(false)]
pub fn push_json(out: &mut String, v: &JsonValue)
    ensures
        final(out)@ == old(out)@ + json_text(v.jv()),
    decreases v,
{
    match v {
        JsonValue::Null => {
            append_str(out, "null");
            proof {
                reveal_strlit("null");
            }
            assert(out@ =~= old(out)@ + json_text(v.jv()));
        },
        JsonValue::Bool(b) => {
            if *b {
                append_str(out, "true");
                proof {
                    reveal_strlit("true");
                }
            } else {
                append_str(out, "false");
                proof {
                    reveal_strlit("false");
                }
            }
            assert(out@ =~= old(out)@ + json_text(v.jv()));
        },
        JsonValue::Number(n) => {
            match n {
                JsonNumber::PosInt(u) => {
                    push_decimal(out, *u as u128);
                },
                JsonNumber::NegInt(i) => {
                    if *i < 0 {
                        push_char(out, '-');
                        let m: u64 = ((-(*i + 1)) as u64) + 1;
                        assert(m == -i);
                        push_decimal(out, m as u128);
                    } else {
                        push_decimal(out, *i as u128);
                    }
                },
                JsonNumber::Float(s) => {
                    append_str(out, s.as_str());
                },
            }
            assert(out@ =~= old(out)@ + json_text(v.jv()));
        },
        JsonValue::String(s) => {
            push_quoted(out, s.as_str());
        },
        JsonValue::Array(items) => {
            proof {
                lemma_array_view(*items);
            }
            let ghost iv = items_view(items@);
            push_char(out, '[');
            let ghost start = out@;
            let mut i: usize = 0;
            while i < items.len()
                invariant
                    iv == items_view(items@),
                    i <= items@.len(),
                    out@ == start + items_text(iv.take(i as int)),
                decreases items@.len() - i,
            {
                proof {
                    broadcast use vstd::std_specs::vec::axiom_vec_index_decreases;

                    assert(decreases_to!(*items => items[i as int]));
                    assert(decreases_to!(*v => v->Array_0));
                }
                let ghost t = iv.take(i + 1);
                assert(t.subrange(0, t.len() - 1) =~= iv.take(i as int));
                assert(t[t.len() - 1] == items@[i as int].jv());
                if i > 0 {
                    push_char(out, ',');
                } else {
                    assert(iv.take(0) =~= Seq::<JsonV>::empty());
                }
                push_json(out, &items[i]);
                assert(out@ =~= start + items_text(iv.take(i + 1)));
                i = i + 1;
            }
            assert(iv.take(i as int) =~= iv);
            push_char(out, ']');
            assert(out@ =~= old(out)@ + json_text(v.jv()));
        },
        JsonValue::Object(members) => {
            proof {
                lemma_object_view(*members);
            }
            let ghost mv = entries_view(members@);
            push_char(out, '{');
            let ghost start = out@;
            let mut i: usize = 0;
            while i < members.len()
                invariant
                    mv == entries_view(members@),
                    i <= members@.len(),
                    out@ == start + members_text(mv.take(i as int)),
                decreases members@.len() - i,
            {
                proof {
                    broadcast use vstd::std_specs::vec::axiom_vec_index_decreases;

                    assert(decreases_to!(*members => members[i as int]));
                    assert(decreases_to!(*v => v->Object_0));
                }
                let ghost t = mv.take(i + 1);
                assert(t.subrange(0, t.len() - 1) =~= mv.take(i as int));
                assert(t[t.len() - 1] == (members@[i as int].0@, members@[i as int].1.jv()));
                if i > 0 {
                    push_char(out, ',');
                } else {
                    assert(mv.take(0) =~= Seq::<(Seq<char>, JsonV)>::empty());
                }
                push_quoted(out, members[i].0.as_str());
                push_char(out, ':');
                push_json(out, &members[i].1);
                assert(out@ =~= start + members_text(mv.take(i + 1)));
                i = i + 1;
            }
            assert(mv.take(i as int) =~= mv);
            push_char(out, '}');
            assert(out@ =~= old(out)@ + json_text(v.jv()));
        },
    }
}

/// The compact JSON text of a value.
pub fn render_json(v: &JsonValue) -> (r: String)
    ensures
        r@ == json_text(v.jv()),
        well_formed(v.jv()) ==> read_json(r@) == Some(v.jv()),
{
    let mut out = String::new();
    push_json(&mut out, v);
    assert(out@ =~= json_text(v.jv()));
    proof {
        if well_formed(v.jv()) {
            lemma_render_reads_back(v.jv(), Seq::empty());
        }
    }
    out
}

/// Law: an empty object is written `{}`; a one-member object is written as
/// `{`, the key as a JSON string, `:`, the value's text and `}`; and adding a
/// member to a non-empty object inserts `,` and that member's `"key":value`
/// just before the closing brace, so an object of n members has exactly n - 1
/// commas between its members.
pub proof fn lemma_object_text(m: Seq<(Seq<char>, JsonV)>, key: Seq<char>, val: JsonV)
    ensures
        json_text(JsonV::Object(Seq::empty())) == seq!['{', '}'],
        m.len() == 0 ==> json_text(JsonV::Object(m.push((key, val)))) == seq!['{'] + json_text(JsonV::Str(key))
            + seq![':'] + json_text(val) + seq!['}'],
        m.len() > 0 ==> json_text(JsonV::Object(m.push((key, val)))) == json_text(JsonV::Object(m)).drop_last()
            + seq![','] + json_text(JsonV::Str(key)) + seq![':'] + json_text(val) + seq!['}'],
{
    let n = m.push((key, val));
    assert(json_text(JsonV::Object(Seq::empty())) =~= seq!['{', '}']);
    if m.len() == 0 {
        assert(n[0] == (key, val));
        assert(json_text(JsonV::Object(n)) =~= seq!['{'] + json_text(JsonV::Str(key)) + seq![':'] + json_text(val)
            + seq!['}']);
    } else {
        assert(n.subrange(0, n.len() - 1) =~= m);
        assert(n[n.len() - 1] == (key, val));
        let body = members_text(m);
        assert((seq!['{'] + body + seq!['}']).drop_last() =~= seq!['{'] + body);
        assert(json_text(JsonV::Object(n)) =~= json_text(JsonV::Object(m)).drop_last() + seq![','] + json_text(
            JsonV::Str(key),
        ) + seq![':'] + json_text(val) + seq!['}']);
    }
}

/// Law: an empty array is written `[]`; a one-item array is written as `[`,
/// the item's text and `]`; and adding an item to a non-empty array inserts
/// `,` and that item's text just before the closing bracket.
pub proof fn lemma_array_text(items: Seq<JsonV>, item: JsonV)
    ensures
        json_text(JsonV::Array(Seq::empty())) == seq!['[', ']'],
        items.len() == 0 ==> json_text(JsonV::Array(items.push(item))) == seq!['['] + json_text(item) + seq![']'],
        items.len() > 0 ==> json_text(JsonV::Array(items.push(item))) == json_text(JsonV::Array(items)).drop_last()
            + seq![','] + json_text(item) + seq![']'],
{
    let n = items.push(item);
    assert(json_text(JsonV::Array(Seq::empty())) =~= seq!['[', ']']);
    if items.len() == 0 {
        assert(n[0] == item);
        assert(json_text(JsonV::Array(n)) =~= seq!['['] + json_text(item) + seq![']']);
    } else {
        assert(n.subrange(0, n.len() - 1) =~= items);
        assert(n[n.len() - 1] == item);
        let body = items_text(items);
        assert((seq!['['] + body + seq![']']).drop_last() =~= seq!['['] + body);
        assert(json_text(JsonV::Array(n)) =~= json_text(JsonV::Array(items)).drop_last() + seq![','] + json_text(item)
            + seq![']']);
    }
}

/// Law: strings are escaped character by character.
pub proof fn lemma_escaped_concat(a: Seq<char>, b: Seq<char>)
    ensures
        escaped(a + b) == escaped(a) + escaped(b),
    decreases b.len(),
{
    if b.len() == 0 {
        assert(a + b =~= a);
        assert(escaped(a) + escaped(b) =~= escaped(a));
    } else {
        lemma_escaped_concat(a, b.drop_last());
        assert((a + b).drop_last() =~= a + b.drop_last());
        assert((a + b).last() == b.last());
        assert(escaped(a + b) =~= escaped(a) + escaped(b));
    }
}

} // verus!
