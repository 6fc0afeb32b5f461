//! Reading compact JSON text (no whitespace between tokens) back into a
//! value, and the law that the rendered text of a value reads back as it.
use vstd::prelude::*;

use crate::json::{JsonV, NumV};
use crate::render::{
    escape_char, escaped, hex_digit, items_text, json_text, lemma_escaped_concat, members_text, number_text, quoted,
};
use crate::text::{dec, lemma_dec_digits, lemma_dec_injective};

verus! {

/// The value of a hexadecimal digit (either case); 0 for another character.
pub open spec fn hex_value(c: char) -> int {
    if '0' <= c && c <= '9' {
        (c as u32) - ('0' as u32)
    } else if 'a' <= c && c <= 'f' {
        (c as u32) - ('a' as u32) + 10
    } else if 'A' <= c && c <= 'F' {
        (c as u32) - ('A' as u32) + 10
    } else {
        0
    }
}

/// The character that a two-character escape `\e` stands for (`\"`,
/// `\\` and `\/` stand for the character itself).
pub open spec fn unescape_char(e: char) -> char {
    if e == 'b' {
        '\u{8}'
    } else if e == 't' {
        '\t'
    } else if e == 'n' {
        '\n'
    } else if e == 'f' {
        '\u{c}'
    } else if e == 'r' {
        '\r'
    } else {
        e
    }
}

/// A character that may stand in a number.
pub open spec fn is_num_char(c: char) -> bool {
    ('0' <= c && c <= '9') || c == '-' || c == '+' || c == '.' || c == 'e' || c == 'E'
}

/// A hexadecimal digit, in either case.
pub open spec fn is_hex_char(c: char) -> bool {
    ('0' <= c && c <= '9') || ('a' <= c && c <= 'f') || ('A' <= c && c <= 'F')
}

/// The characters that may follow `\` in a string, other than `u`.
pub open spec fn is_short_escape(e: char) -> bool {
    e == '"' || e == '\\' || e == '/' || e == 'b' || e == 'f' || e == 'n' || e == 'r' || e == 't'
}

/// The length of the run of number characters that `t` starts with.
pub open spec fn num_len(t: Seq<char>) -> nat
    decreases t.len(),
{
    if t.len() > 0 && is_num_char(t[0]) {
        1 + num_len(t.skip(1))
    } else {
        0
    }
}

/// The number that a run of number characters stands for: the decimal text
/// of a `u64` is a non-negative integer, `-` before the decimal text of a
/// number in 1 ..= 2^63 a negative one, and any other run is kept as the text
/// of a float.
pub open spec fn lexeme_number(s: Seq<char>) -> NumV {
    if exists|n: nat| dec(n) == s && n <= u64::MAX {
        NumV::PosInt((choose|n: nat| dec(n) == s && n <= u64::MAX) as u64)
    } else if s.len() > 0 && s[0] == '-' && exists|n: nat| dec(n) == s.skip(1) && 0 < n <= 0x8000_0000_0000_0000 {
        NumV::NegInt((-(choose|n: nat| dec(n) == s.skip(1) && 0 < n <= 0x8000_0000_0000_0000)) as i64)
    } else {
        NumV::Float(s)
    }
}

/// Reads the rest of a string literal, after its opening quote: the
/// characters it stands for and how many characters were read, the closing
/// quote included. A raw control character, an unknown escape or a missing
/// closing quote is an error.
pub open spec fn read_string(t: Seq<char>) -> Option<(Seq<char>, nat)>
    decreases t.len(),
{
    if t.len() == 0 {
        None
    } else if t[0] == '"' {
        Some((Seq::empty(), 1))
    } else if (t[0] as u32) < 0x20 {
        None
    } else if t[0] == '\\' {
        if t.len() < 2 {
            None
        } else if t[1] == 'u' {
            if t.len() >= 6 && is_hex_char(t[2]) && is_hex_char(t[3]) && is_hex_char(t[4]) && is_hex_char(t[5]) {
                match read_string(t.skip(6)) {
                    Some((s, k)) => Some((
                        seq![
                            ((hex_value(t[2]) * 4096 + hex_value(t[3]) * 256 + hex_value(t[4]) * 16 + hex_value(
                                t[5],
                            )) as char),
                        ] + s,
                        k + 6,
                    )),
                    None => None,
                }
            } else {
                None
            }
        } else if is_short_escape(t[1]) {
            match read_string(t.skip(2)) {
                Some((s, k)) => Some((seq![unescape_char(t[1])] + s, k + 2)),
                None => None,
            }
        } else {
            None
        }
    } else {
        match read_string(t.skip(1)) {
            Some((s, k)) => Some((seq![t[0]] + s, k + 1)),
            None => None,
        }
    }
}

/// Reads one value at the start of `t`: the value and how many characters
/// it took.
pub open spec fn read_value(t: Seq<char>) -> Option<(JsonV, nat)>
    decreases t.len(), 1int,
{
    if t.len() == 0 {
        None
    } else if t[0] == 'n' {
        if t.len() >= 4 && t.take(4) == seq!['n', 'u', 'l', 'l'] {
            Some((JsonV::Null, 4))
        } else {
            None
        }
    } else if t[0] == 't' {
        if t.len() >= 4 && t.take(4) == seq!['t', 'r', 'u', 'e'] {
            Some((JsonV::Bool(true), 4))
        } else {
            None
        }
    } else if t[0] == 'f' {
        if t.len() >= 5 && t.take(5) == seq!['f', 'a', 'l', 's', 'e'] {
            Some((JsonV::Bool(false), 5))
        } else {
            None
        }
    } else if t[0] == '"' {
        match read_string(t.skip(1)) {
            Some((s, k)) => Some((JsonV::Str(s), k + 1)),
            None => None,
        }
    } else if t[0] == '[' {
        if t.len() >= 2 && t[1] == ']' {
            Some((JsonV::Array(Seq::empty()), 2))
        } else {
            match read_items(t.skip(1)) {
                Some((items, k)) => Some((JsonV::Array(items), k + 1)),
                None => None,
            }
        }
    } else if t[0] == '{' {
        if t.len() >= 2 && t[1] == '}' {
            Some((JsonV::Object(Seq::empty()), 2))
        } else {
            match read_members(t.skip(1)) {
                Some((members, k)) => Some((JsonV::Object(members), k + 1)),
                None => None,
            }
        }
    } else if num_len(t) > 0 {
        Some((JsonV::Number(lexeme_number(t.take(num_len(t) as int))), num_len(t)))
    } else {
        None
    }
}

/// Reads the items of a non-empty array, after its `[`, through its `]`.
pub open spec fn read_items(t: Seq<char>) -> Option<(Seq<JsonV>, nat)>
    decreases t.len(), 2int,
{
    match read_value(t) {
        Some((v, k)) => if k < t.len() && t[k as int] == ']' {
            Some((seq![v], k + 1))
        } else if k < t.len() && t[k as int] == ',' {
            match read_items(t.skip(k + 1int)) {
                Some((rest, j)) => Some((seq![v] + rest, k + 1 + j)),
                None => None,
            }
        } else {
            None
        },
        None => None,
    }
}

/// Reads the members of a non-empty object, after its `{`, through its `}`.
pub open spec fn read_members(t: Seq<char>) -> Option<(Seq<(Seq<char>, JsonV)>, nat)>
    decreases t.len(), 2int,
{
    if t.len() > 0 && t[0] == '"' {
        match read_string(t.skip(1)) {
            Some((key, a)) => if a + 1 < t.len() && t[a + 1int] == ':' {
                match read_value(t.skip(a + 2int)) {
                    Some((v, k)) => {
                        let e: int = a + 2int + k;
                        if e < t.len() && t[e] == '}' {
                            Some((seq![(key, v)], (e + 1) as nat))
                        } else if e < t.len() && t[e] == ',' {
                            match read_members(t.skip(e + 1)) {
                                Some((rest, j)) => Some((seq![(key, v)] + rest, (e + 1 + j) as nat)),
                                None => None,
                            }
                        } else {
                            None
                        }
                    },
                    None => None,
                }
            } else {
                None
            },
            None => None,
        }
    } else {
        None
    }
}

/// The value that a whole text stands for, if it is one value.
pub open spec fn read_json(t: Seq<char>) -> Option<JsonV> {
    match read_value(t) {
        Some((v, k)) => if k == t.len() {
            Some(v)
        } else {
            None
        },
        None => None,
    }
}

proof fn lemma_hex_digit(n: int)
    requires
        0 <= n < 16,
    ensures
        hex_value(hex_digit(n)) == n,
        is_hex_char(hex_digit(n)),
{
}

proof fn lemma_read_escape_char(c: char, r: Seq<char>)
    ensures
        read_string(escape_char(c) + r) == match read_string(r) {
            Some((x, k)) => Some((seq![c] + x, k + escape_char(c).len())),
            None => None,
        },
{
    let t = escape_char(c) + r;
    if c != '"' && c != '\\' && c != '\u{8}' && c != '\t' && c != '\n' && c != '\u{c}' && c != '\r' && (c as u32) < 0x20 {
        let x: u32 = c as u32;
        lemma_hex_digit((x / 16) as int);
        lemma_hex_digit((x % 16) as int);
        assert(hex_value('0') == 0);
        assert(is_hex_char('0'));
        assert(t.len() >= 6);
        assert(t[0] == '\\' && t[1] == 'u' && t[2] == '0' && t[3] == '0');
        assert(t[4] == hex_digit((x / 16) as int) && t[5] == hex_digit((x % 16) as int));
        assert(t.skip(6) =~= r);
        assert(((((x / 16) * 16 + x % 16) as int) as char) == c);
    } else if escape_char(c).len() == 2 {
        assert(t[0] == '\\' && t[1] == escape_char(c)[1]);
        assert(is_short_escape(t[1]));
        assert(unescape_char(t[1]) == c);
        assert(t.skip(2) =~= r);
    } else {
        assert(t[0] == c);
        assert(t.skip(1) =~= r);
    }
}

proof fn lemma_escaped_first(c: char, s: Seq<char>)
    ensures
        escaped(seq![c] + s) == escape_char(c) + escaped(s),
{
    lemma_escaped_concat(seq![c], s);
    assert(seq![c].drop_last() =~= Seq::<char>::empty());
    assert(seq![c].last() == c);
    assert(escaped(Seq::<char>::empty()) == Seq::<char>::empty());
    assert(escaped(seq![c]) == escaped(seq![c].drop_last()) + escape_char(c));
    assert(escaped(seq![c]) =~= escape_char(c));
}

/// The body of the string literal for `s`, its closing quote and whatever
/// follows read back as `s`.
proof fn lemma_read_string(s: Seq<char>, rest: Seq<char>)
    ensures
        read_string(escaped(s) + seq!['"'] + rest) == Some((s, escaped(s).len() + 1)),
    decreases s.len(),
{
    if s.len() == 0 {
        assert(escaped(s) == Seq::<char>::empty());
        let t = escaped(s) + seq!['"'] + rest;
        assert(t[0] == '"');
        assert(s =~= Seq::<char>::empty());
    } else {
        let c = s[0];
        let tail = s.skip(1);
        assert(s =~= seq![c] + tail);
        lemma_escaped_first(c, tail);
        lemma_read_string(tail, rest);
        lemma_read_escape_char(c, escaped(tail) + seq!['"'] + rest);
        assert(escaped(s) + seq!['"'] + rest =~= escape_char(c) + (escaped(tail) + seq!['"'] + rest));
        assert(seq![c] + tail =~= s);
    }
}

/// The text of a float as the serializer writes it: number characters only,
/// with a `.` or an exponent.
pub open spec fn float_text_ok(s: Seq<char>) -> bool {
    &&& s.len() > 0
    &&& forall|i: int| 0 <= i < s.len() ==> is_num_char(#[trigger] s[i])
    &&& exists|i: int| 0 <= i < s.len() && (s[i] == '.' || s[i] == 'e' || s[i] == 'E')
}

/// A number as the parser makes it: a negative integer is below zero, and a
/// float's text is that of a float.
pub open spec fn number_ok(n: NumV) -> bool {
    match n {
        NumV::PosInt(_) => true,
        NumV::NegInt(i) => i < 0,
        NumV::Float(s) => float_text_ok(s),
    }
}

/// Every number inside the value is as the parser makes it.
pub open spec fn well_formed(v: JsonV) -> bool
    decreases v,
{
    match v {
        JsonV::Number(n) => number_ok(n),
        JsonV::Array(items) => forall|i: int| 0 <= i < items.len() ==> well_formed(#[trigger] items[i]),
        JsonV::Object(members) => forall|i: int| 0 <= i < members.len() ==> well_formed(#[trigger] members[i].1),
        _ => true,
    }
}

/// What may follow a value: nothing, or a character that cannot continue a
/// number.
pub open spec fn ends_token(rest: Seq<char>) -> bool {
    rest.len() == 0 || !is_num_char(rest[0])
}

proof fn lemma_num_len(s: Seq<char>, rest: Seq<char>)
    requires
        forall|i: int| 0 <= i < s.len() ==> is_num_char(#[trigger] s[i]),
        ends_token(rest),
    ensures
        num_len(s + rest) == s.len(),
    decreases s.len(),
{
    if s.len() == 0 {
        assert(s + rest =~= rest);
    } else {
        let tail = s.skip(1);
        assert forall|i: int| 0 <= i < tail.len() implies is_num_char(#[trigger] tail[i]) by {
            assert(tail[i] == s[i + 1]);
        }
        lemma_num_len(tail, rest);
        assert((s + rest).skip(1) =~= tail + rest);
        assert((s + rest)[0] == s[0]);
    }
}

proof fn lemma_read_number(n: NumV, rest: Seq<char>)
    requires
        number_ok(n),
        ends_token(rest),
    ensures
        read_value(number_text(n) + rest) == Some((JsonV::Number(n), number_text(n).len())),
{
    let s = number_text(n);
    let t = s + rest;
    match n {
        NumV::PosInt(u) => {
            lemma_dec_digits(u as nat);
            assert(s == dec(u as nat));
            assert(s.len() > 0);
            assert(forall|i: int| 0 <= i < s.len() ==> is_num_char(#[trigger] s[i]));
            lemma_num_len(s, rest);
            assert(t[0] == s[0]);
            assert(t.take(s.len() as int) =~= s);
            assert(dec(u as nat) == s && u as nat <= u64::MAX);
            let m = choose|m: nat| dec(m) == s && m <= u64::MAX;
            lemma_dec_injective(m, u as nat);
        },
        NumV::NegInt(i) => {
            let a: nat = (-i) as nat;
            lemma_dec_digits(a);
            assert(s == seq!['-'] + dec(a));
            assert forall|j: int| 0 <= j < s.len() implies is_num_char(#[trigger] s[j]) by {
                if j > 0 {
                    assert(s[j] == dec(a)[j - 1]);
                }
            }
            lemma_num_len(s, rest);
            assert(t[0] == '-');
            assert(t.take(s.len() as int) =~= s);
            if exists|m: nat| dec(m) == s && m <= u64::MAX {
                let m = choose|m: nat| dec(m) == s && m <= u64::MAX;
                lemma_dec_digits(m);
                assert(dec(m)[0] == '-');
            }
            assert(s.skip(1) =~= dec(a));
            assert(dec(a) == s.skip(1) && 0 < a <= 0x8000_0000_0000_0000);
            let m = choose|m: nat| dec(m) == s.skip(1) && 0 < m <= 0x8000_0000_0000_0000;
            lemma_dec_injective(m, a);
        },
        NumV::Float(f) => {
            assert(s == f);
            lemma_num_len(s, rest);
            assert(t[0] == s[0]);
            assert(is_num_char(s[0]));
            assert(t.take(s.len() as int) =~= s);
            let j = choose|j: int| 0 <= j < s.len() && (s[j] == '.' || s[j] == 'e' || s[j] == 'E');
            if exists|m: nat| dec(m) == s && m <= u64::MAX {
                let m = choose|m: nat| dec(m) == s && m <= u64::MAX;
                lemma_dec_digits(m);
                assert(dec(m)[j] == s[j]);
            }
            if s.len() > 0 && s[0] == '-' && exists|m: nat| dec(m) == s.skip(1) && 0 < m <= 0x8000_0000_0000_0000 {
                let m = choose|m: nat| dec(m) == s.skip(1) && 0 < m <= 0x8000_0000_0000_0000;
                lemma_dec_digits(m);
                assert(j > 0);
                assert(dec(m)[j - 1] == s[j]);
            }
        },
    }
}

proof fn lemma_items_front(s: Seq<JsonV>)
    requires
        s.len() >= 2,
    ensures
        items_text(s) == json_text(s[0]) + seq![','] + items_text(s.skip(1)),
    decreases s.len(),
{
    let init = s.subrange(0, s.len() - 1);
    let tail = s.skip(1);
    assert(tail.subrange(0, tail.len() - 1) =~= init.skip(1));
    assert(tail[tail.len() - 1] == s[s.len() - 1]);
    if s.len() == 2 {
        assert(init.len() == 1 && init[0] == s[0]);
        assert(tail.len() == 1 && tail[0] == s[1]);
        assert(items_text(s) =~= json_text(s[0]) + seq![','] + items_text(tail));
    } else {
        lemma_items_front(init);
        assert(init[0] == s[0]);
        assert(items_text(s) == items_text(init) + seq![','] + json_text(s[s.len() - 1]));
        assert(items_text(tail) == items_text(tail.subrange(0, tail.len() - 1)) + seq![','] + json_text(
            tail[tail.len() - 1],
        ));
        assert(items_text(s) =~= json_text(s[0]) + seq![','] + items_text(tail));
    }
}

proof fn lemma_members_front(s: Seq<(Seq<char>, JsonV)>)
    requires
        s.len() >= 2,
    ensures
        members_text(s) == quoted(s[0].0) + seq![':'] + json_text(s[0].1) + seq![','] + members_text(s.skip(1)),
    decreases s.len(),
{
    let init = s.subrange(0, s.len() - 1);
    let tail = s.skip(1);
    assert(tail.subrange(0, tail.len() - 1) =~= init.skip(1));
    assert(tail[tail.len() - 1] == s[s.len() - 1]);
    if s.len() == 2 {
        assert(init.len() == 1 && init[0] == s[0]);
        assert(tail.len() == 1 && tail[0] == s[1]);
        assert(members_text(s) =~= quoted(s[0].0) + seq![':'] + json_text(s[0].1) + seq![','] + members_text(tail));
    } else {
        lemma_members_front(init);
        assert(init[0] == s[0]);
        assert(members_text(s) == members_text(init) + seq![','] + quoted(s[s.len() - 1].0) + seq![':'] + json_text(
            s[s.len() - 1].1,
        ));
        assert(members_text(tail) == members_text(tail.subrange(0, tail.len() - 1)) + seq![','] + quoted(
            tail[tail.len() - 1].0,
        ) + seq![':'] + json_text(tail[tail.len() - 1].1));
        assert(members_text(s) =~= quoted(s[0].0) + seq![':'] + json_text(s[0].1) + seq![','] + members_text(tail));
    }
}

proof fn lemma_first_char(v: JsonV)
    requires
        well_formed(v),
    ensures
        json_text(v).len() > 0,
        json_text(v)[0] != ']',
        json_text(v)[0] != '}',
{
    match v {
        JsonV::Number(n) => {
            match n {
                NumV::PosInt(u) => {
                    lemma_dec_digits(u as nat);
                },
                NumV::NegInt(i) => {},
                NumV::Float(s) => {
                    assert(is_num_char(s[0]));
                },
            }
        },
        _ => {},
    }
}

proof fn lemma_read_value(v: JsonV, rest: Seq<char>)
    requires
        well_formed(v),
        ends_token(rest),
    ensures
        read_value(json_text(v) + rest) == Some((v, json_text(v).len())),
    decreases v, 2int,
{
    let t = json_text(v) + rest;
    match v {
        JsonV::Null => {
            assert(json_text(v) == seq!['n', 'u', 'l', 'l']);
            assert(t[0] == 'n');
            assert(t.take(4) =~= seq!['n', 'u', 'l', 'l']);
        },
        JsonV::Bool(b) => {
            if b {
                assert(t[0] == 't');
                assert(t.take(4) =~= seq!['t', 'r', 'u', 'e']);
            } else {
                assert(t[0] == 'f');
                assert(t.take(5) =~= seq!['f', 'a', 'l', 's', 'e']);
            }
        },
        JsonV::Number(n) => {
            lemma_read_number(n, rest);
            assert(read_value(t) == Some((v, json_text(v).len())));
        },
        JsonV::Str(s) => {
            assert(t[0] == '"');
            assert(t.skip(1) =~= escaped(s) + seq!['"'] + rest);
            lemma_read_string(s, rest);
            assert(read_value(t) == Some((v, json_text(v).len())));
        },
        JsonV::Array(items) => {
            lemma_read_array(v, rest);
        },
        JsonV::Object(members) => {
            lemma_read_object(v, rest);
        },
    }
}

#[verifier::rlimit(30)]
proof fn lemma_read_array(v: JsonV, rest: Seq<char>)
    requires
        v is Array,
        well_formed(v),
        ends_token(rest),
    ensures
        read_value(json_text(v) + rest) == Some((v, json_text(v).len())),
    decreases v, 1int,
{
    let t = json_text(v) + rest;
    let items = v->Array_0;
    if items.len() == 0 {
        assert(items =~= Seq::<JsonV>::empty());
        assert(items_text(items) == Seq::<char>::empty());
        assert(json_text(v) =~= seq!['[', ']']);
        assert(t[0] == '[' && t[1] == ']');
        assert(read_value(t) == Some((v, json_text(v).len())));
    } else {
        assert forall|k: int| 0 <= k < items.len() implies well_formed(#[trigger] items[k]) by {}
        lemma_first_char(items[0]);
        if items.len() == 1 {
            assert(items_text(items) == json_text(items[0]));
        } else {
            lemma_items_front(items);
        }
        assert(t[1] == items_text(items)[0]);
        assert(items.skip(0) =~= items);
        assert(t.skip(1) =~= items_text(items.skip(0)) + seq![']'] + rest);
        lemma_read_items(items, 0, rest);
        assert(t[0] == '[');
        assert(t.len() >= 2 && t[1] != ']');
        assert(read_items(t.skip(1)) == Some((items, items_text(items).len() + 1)));
        assert(json_text(v).len() == items_text(items).len() + 2);
        assert(read_value(t) == Some((v, json_text(v).len())));
    }
}

#[verifier::rlimit(30)]
proof fn lemma_read_object(v: JsonV, rest: Seq<char>)
    requires
        v is Object,
        well_formed(v),
        ends_token(rest),
    ensures
        read_value(json_text(v) + rest) == Some((v, json_text(v).len())),
    decreases v, 1int,
{
    let t = json_text(v) + rest;
    let members = v->Object_0;
    if members.len() == 0 {
        assert(members =~= Seq::<(Seq<char>, JsonV)>::empty());
        assert(members_text(members) == Seq::<char>::empty());
        assert(json_text(v) =~= seq!['{', '}']);
        assert(t[0] == '{' && t[1] == '}');
        assert(read_value(t) == Some((v, json_text(v).len())));
    } else {
        if members.len() == 1 {
            assert(members_text(members) == quoted(members[0].0) + seq![':'] + json_text(members[0].1));
        } else {
            lemma_members_front(members);
        }
        assert(t[1] == '"');
        assert(members.skip(0) =~= members);
        assert(t.skip(1) =~= members_text(members.skip(0)) + seq!['}'] + rest);
        lemma_read_members(members, 0, rest);
        assert(t[0] == '{');
        assert(t.len() >= 2 && t[1] != '}');
        assert(read_members(t.skip(1)) == Some((members, members_text(members).len() + 1)));
        assert(json_text(v).len() == members_text(members).len() + 2);
        assert(read_value(t) == Some((v, json_text(v).len())));
    }
}

#[verifier::rlimit(30)]
proof fn lemma_read_items(items: Seq<JsonV>, i: int, rest: Seq<char>)
    requires
        0 <= i < items.len(),
        forall|k: int| 0 <= k < items.len() ==> well_formed(#[trigger] items[k]),
    ensures
        read_items(items_text(items.skip(i)) + seq![']'] + rest) == Some(
            (items.skip(i), items_text(items.skip(i)).len() + 1),
        ),
    decreases items, items.len() - i,
{
    let s = items.skip(i);
    let x = items[i];
    assert(s[0] == x);
    let l: int = json_text(x).len() as int;
    if s.len() == 1 {
        assert(items_text(s) == json_text(x));
        let t = items_text(s) + seq![']'] + rest;
        assert(t =~= json_text(x) + (seq![']'] + rest));
        lemma_read_value(x, seq![']'] + rest);
        assert(t[l] == ']');
        assert(seq![x] =~= s);
    } else {
        lemma_items_front(s);
        let after = items_text(items.skip(i + 1)) + seq![']'] + rest;
        assert(s.skip(1) =~= items.skip(i + 1));
        let t = items_text(s) + seq![']'] + rest;
        assert(t =~= json_text(x) + (seq![','] + after));
        lemma_read_value(x, seq![','] + after);
        assert(t[l] == ',');
        assert(t.skip(l + 1) =~= after);
        lemma_read_items(items, i + 1, rest);
        assert(seq![x] + items.skip(i + 1) =~= s);
    }
}

#[verifier::rlimit(50)]
proof fn lemma_read_members(members: Seq<(Seq<char>, JsonV)>, i: int, rest: Seq<char>)
    requires
        0 <= i < members.len(),
        forall|k: int| 0 <= k < members.len() ==> well_formed(#[trigger] members[k].1),
    ensures
        read_members(members_text(members.skip(i)) + seq!['}'] + rest) == Some(
            (members.skip(i), members_text(members.skip(i)).len() + 1),
        ),
    decreases members, members.len() - i,
{
    let s = members.skip(i);
    let x = members[i];
    assert(s[0] == x);
    let after = if s.len() == 1 {
        seq!['}'] + rest
    } else {
        seq![','] + members_text(members.skip(i + 1)) + seq!['}'] + rest
    };
    if s.len() == 1 {
        assert(members_text(s) == quoted(x.0) + seq![':'] + json_text(x.1));
    } else {
        lemma_members_front(s);
        assert(s.skip(1) =~= members.skip(i + 1));
    }
    let t = members_text(s) + seq!['}'] + rest;
    let a: int = escaped(x.0).len() + 1int;
    let l: int = json_text(x.1).len() as int;
    assert(t =~= seq!['"'] + escaped(x.0) + seq!['"'] + (seq![':'] + json_text(x.1) + after));
    assert(t[0] == '"');
    assert(t.skip(1) =~= escaped(x.0) + seq!['"'] + (seq![':'] + json_text(x.1) + after));
    lemma_read_string(x.0, seq![':'] + json_text(x.1) + after);
    assert(t[a + 1] == ':');
    assert(t.skip(a + 2) =~= json_text(x.1) + after);
    assert(well_formed(members[i].1));
    lemma_read_value(x.1, after);
    let e = a + 2 + l;
    if s.len() == 1 {
        assert(t[e] == '}');
        assert(seq![x] =~= s);
    } else {
        assert(t[e] == ',');
        assert(t.skip(e + 1) =~= members_text(members.skip(i + 1)) + seq!['}'] + rest);
        lemma_read_members(members, i + 1, rest);
        assert(seq![x] + members.skip(i + 1) =~= s);
    }
}

/// Law: the rendered text of every value whose numbers are as the parser
/// makes them reads back as that value, and so does that text followed by
/// anything that cannot continue a number (such as the `,`, `]` or `}` that
/// follows a member or an item).
pub proof fn lemma_render_reads_back(v: JsonV, rest: Seq<char>)
    requires
        well_formed(v),
        ends_token(rest),
    ensures
        read_json(json_text(v)) == Some(v),
        read_value(json_text(v) + rest) == Some((v, json_text(v).len())),
{
    lemma_read_value(v, rest);
    lemma_read_value(v, Seq::empty());
    assert(json_text(v) + Seq::<char>::empty() =~= json_text(v));
}

} // verus!
