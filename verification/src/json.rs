use vstd::prelude::*;

verus! {

/// A JSON number, as `serde_json` keeps it: a non-negative integer, a negative integer, or a
/// floating-point number, which is carried here by its JSON text.
#[derive(Debug)]
pub enum JsonNumber {
    PosInt(u64),
    NegInt(i64),
    Float(String),
}

/// A JSON value. Objects keep their members as a list of key/value pairs.
#[derive(Debug)]
pub enum JsonValue {
    Null,
    Bool(bool),
    Number(JsonNumber),
    Str(String),
    Array(Vec<JsonValue>),
    Object(Vec<(String, JsonValue)>),
}

} // verus!

use crate::text::{append, decimal, push_char, push_decimal, signed_decimal};

verus! {

/// The lower-case hexadecimal digit for `n < 16`.
pub open spec fn hex_char(n: nat) -> char {
    if n == 0 { '0' } else if n == 1 { '1' } else if n == 2 { '2' } else if n == 3 { '3' }
    else if n == 4 { '4' } else if n == 5 { '5' } else if n == 6 { '6' } else if n == 7 { '7' }
    else if n == 8 { '8' } else if n == 9 { '9' } else if n == 10 { 'a' } else if n == 11 { 'b' }
    else if n == 12 { 'c' } else if n == 13 { 'd' } else if n == 14 { 'e' } else { 'f' }
}

/// How `serde_json` writes one character inside a JSON string: `"` and `\` and the
/// control characters below U+0020 are escaped (`\b \t \n \f \r` by name, the others
/// as `\u00XX`); every other character stands for itself.
pub open spec fn escape_char(c: char) -> Seq<char> {
    if c == '"' {
        seq!['\\', '"']
    } else if c == '\\' {
        seq!['\\', '\\']
    } else if c == '\u{08}' {
        seq!['\\', 'b']
    } else if c == '\t' {
        seq!['\\', 't']
    } else if c == '\n' {
        seq!['\\', 'n']
    } else if c == '\u{0C}' {
        seq!['\\', 'f']
    } else if c == '\r' {
        seq!['\\', 'r']
    } else if (c as nat) < 0x20 {
        seq!['\\', 'u', '0', '0', hex_char((c as nat) / 16), hex_char((c as nat) % 16)]
    } else {
        seq![c]
    }
}

/// The escaped characters of a text.
pub open spec fn escape_text(s: Seq<char>) -> Seq<char>
    decreases s.len(),
{
    if s.len() == 0 {
        Seq::empty()
    } else {
        escape_text(s.drop_last()) + escape_char(s.last())
    }
}

/// A text written as a JSON string literal.
pub open spec fn json_str(s: Seq<char>) -> Seq<char> {
    seq!['"'] + escape_text(s) + seq!['"']
}

fn hex_digit_char(n: u32) -> (c: char)
    requires
        n < 16,
    ensures
        c == hex_char(n as nat),
{
    if n == 0 { '0' } else if n == 1 { '1' } else if n == 2 { '2' } else if n == 3 { '3' }
    else if n == 4 { '4' } else if n == 5 { '5' } else if n == 6 { '6' } else if n == 7 { '7' }
    else if n == 8 { '8' } else if n == 9 { '9' } else if n == 10 { 'a' } else if n == 11 { 'b' }
    else if n == 12 { 'c' } else if n == 13 { 'd' } else if n == 14 { 'e' } else { 'f' }
}

/// Appends the escaped form of `c`.
fn push_escaped(s: &mut String, c: char)
    ensures
        final(s)@ == old(s)@ + escape_char(c),
{
    let ghost s0 = s@;
    if c == '"' {
        push_char(s, '\\');
        push_char(s, '"');
    } else if c == '\\' {
        push_char(s, '\\');
        push_char(s, '\\');
    } else if c == '\u{08}' {
        push_char(s, '\\');
        push_char(s, 'b');
    } else if c == '\t' {
        push_char(s, '\\');
        push_char(s, 't');
    } else if c == '\n' {
        push_char(s, '\\');
        push_char(s, 'n');
    } else if c == '\u{0C}' {
        push_char(s, '\\');
        push_char(s, 'f');
    } else if c == '\r' {
        push_char(s, '\\');
        push_char(s, 'r');
    } else if (c as u32) < 0x20 {
        let n = c as u32;
        push_char(s, '\\');
        push_char(s, 'u');
        push_char(s, '0');
        push_char(s, '0');
        push_char(s, hex_digit_char(n / 16));
        push_char(s, hex_digit_char(n % 16));
    } else {
        push_char(s, c);
    }
    assert(s@ =~= s0 + escape_char(c));
}

/// Appends `t` written as a JSON string literal.
pub fn push_json_str(s: &mut String, t: &str)
    ensures
        final(s)@ == old(s)@ + json_str(t@),
{
    let ghost s0 = s@;
    let tc = crate::text::chars_of(t);
    push_char(s, '"');
    let mut i: usize = 0;
    while i < tc.len()
        invariant
            i <= tc@.len(),
            tc@ == t@,
            s@ == s0 + seq!['"'] + escape_text(tc@.take(i as int)),
        decreases tc@.len() - i,
    {
        push_escaped(s, tc[i]);
        assert(tc@.take(i + 1).drop_last() =~= tc@.take(i as int));
        i = i + 1;
    }
    assert(tc@.take(i as int) =~= t@);
    push_char(s, '"');
    assert(s@ =~= s0 + json_str(t@));
}

/// `t` written as a JSON string literal.
pub fn json_string(t: &str) -> (r: String)
    ensures
        r@ == json_str(t@),
{
    let mut s = String::new();
    push_json_str(&mut s, t);
    assert(Seq::<char>::empty() + json_str(t@) =~= json_str(t@));
    s
}


/// The JSON text of a number: integers in decimal, floats as they were written.
pub open spec fn number_text(n: JsonNumber) -> Seq<char> {
    match n {
        JsonNumber::PosInt(u) => decimal(u as nat),
        JsonNumber::NegInt(i) => signed_decimal(i as int),
        JsonNumber::Float(t) => t@,
    }
}

/// The compact JSON text of a value, as `serde_json` writes it: no spaces, object members
/// in the order in which the value keeps them.
pub open spec fn json_text(v: JsonValue) -> Seq<char>
    decreases v, 0nat,
{
    match v {
        JsonValue::Null => "null"@,
        JsonValue::Bool(b) => if b { "true"@ } else { "false"@ },
        JsonValue::Number(n) => number_text(n),
        JsonValue::Str(s) => json_str(s@),
        JsonValue::Array(items) => "["@ + items_text(items@, items@.len() as nat) + "]"@,
        JsonValue::Object(ms) => "{"@ + members_text(ms@, ms@.len() as nat) + "}"@,
    }
}

/// The texts of the first `n` items, joined with commas.
pub open spec fn items_text(items: Seq<JsonValue>, n: nat) -> Seq<char>
    decreases items, n,
{
    if n == 0 || n > items.len() {
        Seq::empty()
    } else if n == 1 {
        json_text(items[0])
    } else {
        items_text(items, (n - 1) as nat) + ","@ + json_text(items[n - 1])
    }
}

/// The texts of the first `n` members, `"key":value`, joined with commas.
pub open spec fn members_text(ms: Seq<(String, JsonValue)>, n: nat) -> Seq<char>
    decreases ms, n,
{
    if n == 0 || n > ms.len() {
        Seq::empty()
    } else if n == 1 {
        json_str(ms[0].0@) + ":"@ + json_text(ms[0].1)
    } else {
        members_text(ms, (n - 1) as nat) + ","@ + json_str(ms[n - 1].0@) + ":"@ + json_text(ms[n - 1].1)
    }
}


/// The number of UTF-8 bytes of a text, as `str::len` reports it.
pub open spec fn byte_len(s: Seq<char>) -> nat {
    (vstd::utf8::encode_utf8(s).len() as usize) as nat
}

/// Commas between `n` items.
pub open spec fn commas(n: nat) -> nat {
    if n > 1 { (n - 1) as nat } else { 0 }
}

/// A quick estimate of the size in bytes of a value's JSON text, without writing it:
/// exact but for escapes in strings, which it leaves out.
pub open spec fn estimate(v: JsonValue) -> nat
    decreases v, 0nat,
{
    match v {
        JsonValue::Null => 4,
        JsonValue::Bool(b) => if b { 4 } else { 5 },
        JsonValue::Number(n) => byte_len(number_text(n)),
        JsonValue::Str(s) => byte_len(s@) + 2,
        JsonValue::Array(items) => 2 + items_estimate(items@, items@.len() as nat) + commas(items@.len()),
        JsonValue::Object(ms) => 2 + members_estimate(ms@, ms@.len() as nat) + commas(ms@.len()),
    }
}

/// The estimates of the first `n` items, added up.
pub open spec fn items_estimate(items: Seq<JsonValue>, n: nat) -> nat
    decreases items, n,
{
    if n == 0 || n > items.len() {
        0
    } else {
        items_estimate(items, (n - 1) as nat) + estimate(items[n - 1])
    }
}

/// The estimates of the first `n` members, `"key":value`, added up.
pub open spec fn members_estimate(ms: Seq<(String, JsonValue)>, n: nat) -> nat
    decreases ms, n,
{
    if n == 0 || n > ms.len() {
        0
    } else {
        members_estimate(ms, (n - 1) as nat) + byte_len(ms[n - 1].0@) + 3 + estimate(ms[n - 1].1)
    }
}

/// `n` capped at the largest `usize`.
pub open spec fn cap(n: nat) -> usize {
    if n <= usize::MAX { n as usize } else { usize::MAX }
}

/// Appends the JSON text of a number.
pub fn push_number(s: &mut String, n: &JsonNumber)
    ensures
        final(s)@ == old(s)@ + number_text(*n),
{
    match n {
        JsonNumber::PosInt(u) => push_decimal(s, *u),
        JsonNumber::NegInt(i) => {
            let t = crate::text::i64_to_string(*i);
            append(s, t.as_str());
        },
        JsonNumber::Float(t) => append(s, t.as_str()),
    }
}

/// Appends the compact JSON text of a value.
pub fn push_json(s: &mut String, v: &JsonValue)
    ensures
        final(s)@ == old(s)@ + json_text(*v),
    decreases v,
{
    let ghost s0 = s@;
    match v {
        JsonValue::Null => append(s, "null"),
        JsonValue::Bool(b) => {
            if *b {
                append(s, "true")
            } else {
                append(s, "false")
            }
        },
        JsonValue::Number(n) => push_number(s, n),
        JsonValue::Str(t) => push_json_str(s, t.as_str()),
        JsonValue::Array(items) => {
            append(s, "[");
            let ghost p = s@;
            let mut i: usize = 0;
            while i < items.len()
                invariant
                    i <= items@.len(),
                    *v == JsonValue::Array(*items),
                    s@ == p + items_text(items@, i as nat),
                decreases items@.len() - i,
            {
                if i > 0 {
                    append(s, ",");
                }
                proof {
                    vstd::std_specs::vec::axiom_vec_index_decreases(*items, i as int);
                    assert(decreases_to!(*v => (*v)->Array_0));
                }
                push_json(s, &items[i]);
                proof {
                    assert(s@ =~= p + items_text(items@, (i + 1) as nat));
                }
                i = i + 1;
            }
            append(s, "]");
        },
        JsonValue::Object(ms) => {
            append(s, "{");
            let ghost p = s@;
            let mut i: usize = 0;
            while i < ms.len()
                invariant
                    i <= ms@.len(),
                    *v == JsonValue::Object(*ms),
                    s@ == p + members_text(ms@, i as nat),
                decreases ms@.len() - i,
            {
                if i > 0 {
                    append(s, ",");
                }
                push_json_str(s, ms[i].0.as_str());
                append(s, ":");
                proof {
                    vstd::std_specs::vec::axiom_vec_index_decreases(*ms, i as int);
                    assert(decreases_to!(*v => (*v)->Object_0));
                    assert(decreases_to!(ms[i as int] => ms[i as int].1));
                }
                push_json(s, &ms[i].1);
                proof {
                    assert(s@ =~= p + members_text(ms@, (i + 1) as nat));
                }
                i = i + 1;
            }
            append(s, "}");
        },
    }
    assert(s@ =~= s0 + json_text(*v));
}

/// The compact JSON text of a value.
pub fn to_json_text(v: &JsonValue) -> (r: String)
    ensures
        r@ == json_text(*v),
{
    let mut s = String::new();
    push_json(&mut s, v);
    assert(Seq::<char>::empty() + json_text(*v) =~= json_text(*v));
    s
}

/// The size estimate of a value's JSON text, capped at the largest `usize`.
pub fn estimate_json_size(v: &JsonValue) -> (r: usize)
    ensures
        r == cap(estimate(*v)),
    decreases v,
{
    match v {
        JsonValue::Null => 4,
        JsonValue::Bool(b) => if *b { 4 } else { 5 },
        JsonValue::Number(n) => {
            let mut t = String::new();
            push_number(&mut t, n);
            assert(Seq::<char>::empty() + number_text(*n) =~= number_text(*n));
            t.as_str().len()
        },
        JsonValue::Str(t) => t.as_str().len().saturating_add(2),
        JsonValue::Array(items) => {
            let mut total: usize = 2;
            let mut i: usize = 0;
            while i < items.len()
                invariant
                    i <= items@.len(),
                    *v == JsonValue::Array(*items),
                    total == cap(2 + items_estimate(items@, i as nat)),
                decreases items@.len() - i,
            {
                proof {
                    vstd::std_specs::vec::axiom_vec_index_decreases(*items, i as int);
                    assert(decreases_to!(*v => (*v)->Array_0));
                }
                let e = estimate_json_size(&items[i]);
                total = total.saturating_add(e);
                i = i + 1;
            }
            let c: usize = if items.len() > 1 { items.len() - 1 } else { 0 };
            total.saturating_add(c)
        },
        JsonValue::Object(ms) => {
            let mut total: usize = 2;
            let mut i: usize = 0;
            while i < ms.len()
                invariant
                    i <= ms@.len(),
                    *v == JsonValue::Object(*ms),
                    total == cap(2 + members_estimate(ms@, i as nat)),
                decreases ms@.len() - i,
            {
                let k = ms[i].0.as_str().len();
                proof {
                    vstd::std_specs::vec::axiom_vec_index_decreases(*ms, i as int);
                    assert(decreases_to!(*v => (*v)->Object_0));
                    assert(decreases_to!(ms[i as int] => ms[i as int].1));
                }
                let e = estimate_json_size(&ms[i].1);
                total = total.saturating_add(k).saturating_add(3).saturating_add(e);
                i = i + 1;
            }
            let c: usize = if ms.len() > 1 { ms.len() - 1 } else { 0 };
            total.saturating_add(c)
        },
    }
}


/// The value of the first member named `k`, as `serde_json`'s `get` finds the one member
/// of that name.
pub open spec fn field(ms: Seq<(String, JsonValue)>, k: Seq<char>) -> Option<JsonValue>
    decreases ms.len(),
{
    if ms.len() == 0 {
        None
    } else if ms[0].0@ == k {
        Some(ms[0].1)
    } else {
        field(ms.drop_first(), k)
    }
}

/// The text of the member named `k` when it is a string.
pub open spec fn str_field(ms: Seq<(String, JsonValue)>, k: Seq<char>) -> Option<Seq<char>> {
    match field(ms, k) {
        Some(JsonValue::Str(s)) => Some(s@),
        _ => None,
    }
}

/// The member named `k` of a value that is an object.
pub open spec fn value_field(v: JsonValue, k: Seq<char>) -> Option<JsonValue> {
    match v {
        JsonValue::Object(ms) => field(ms@, k),
        _ => None,
    }
}

/// An identifier taken from a JSON value: a string as it is, an integer that fits in
/// `i64` in decimal (`as_str`, else `as_i64` and `to_string`).
pub open spec fn id_text(v: JsonValue) -> Option<Seq<char>> {
    match v {
        JsonValue::Str(s) => Some(s@),
        JsonValue::Number(JsonNumber::PosInt(u)) => if u <= i64::MAX { Some(decimal(u as nat)) } else { None },
        JsonValue::Number(JsonNumber::NegInt(i)) => Some(signed_decimal(i as int)),
        _ => None,
    }
}

/// The value of the first member named `k`.
pub fn get_field<'a>(ms: &'a Vec<(String, JsonValue)>, k: &str) -> (r: Option<&'a JsonValue>)
    ensures
        match r {
            Some(v) => field(ms@, k@) == Some(*v),
            None => field(ms@, k@) is None,
        },
{
    let mut i: usize = 0;
    assert(ms@.skip(0) =~= ms@);
    while i < ms.len()
        invariant
            i <= ms@.len(),
            field(ms@, k@) == field(ms@.skip(i as int), k@),
        decreases ms@.len() - i,
    {
        assert(ms@.skip(i as int)[0] == ms@[i as int]);
        if crate::text::str_eq(ms[i].0.as_str(), k) {
            return Some(&ms[i].1);
        }
        assert(ms@.skip(i as int).drop_first() =~= ms@.skip(i + 1));
        i = i + 1;
    }
    None
}

/// The text of the member named `k` when it is a string.
pub fn get_str_field<'a>(ms: &'a Vec<(String, JsonValue)>, k: &str) -> (r: Option<&'a String>)
    ensures
        match r {
            Some(s) => str_field(ms@, k@) == Some(s@),
            None => str_field(ms@, k@) is None,
        },
{
    match get_field(ms, k) {
        Some(JsonValue::Str(s)) => Some(s),
        _ => None,
    }
}

/// The member named `k` of a value that is an object.
pub fn get_value_field<'a>(v: &'a JsonValue, k: &str) -> (r: Option<&'a JsonValue>)
    ensures
        match r {
            Some(x) => value_field(*v, k@) == Some(*x),
            None => value_field(*v, k@) is None,
        },
{
    match v {
        JsonValue::Object(ms) => get_field(ms, k),
        _ => None,
    }
}

/// An identifier taken from a JSON value, as text.
pub fn id_string(v: &JsonValue) -> (r: Option<String>)
    ensures
        match r {
            Some(s) => id_text(*v) == Some(s@),
            None => id_text(*v) is None,
        },
{
    match v {
        JsonValue::Str(s) => Some(s.clone()),
        JsonValue::Number(JsonNumber::PosInt(u)) => {
            if *u <= 9223372036854775807u64 {
                Some(crate::text::u64_to_string(*u))
            } else {
                None
            }
        },
        JsonValue::Number(JsonNumber::NegInt(i)) => Some(crate::text::i64_to_string(*i)),
        _ => None,
    }
}


proof fn lemma_escape_char_printable(c: char)
    ensures
        forall|j: int| 0 <= j < escape_char(c).len() ==> (#[trigger] escape_char(c)[j]) as int >= 0x20,
{
    let e = escape_char(c);
    if c == '"' || c == '\\' || c == '\u{08}' || c == '\t' || c == '\n' || c == '\u{0C}' || c == '\r' {
        assert(e.len() == 2);
        assert(e[0] == '\\');
        assert(e[1] as int >= 0x20);
    } else if (c as int) < 0x20 {
        let h1 = hex_char((c as int / 16) as nat);
        let h2 = hex_char((c as int % 16) as nat);
        assert(h1 as int >= 0x30 && h2 as int >= 0x30);
        assert(e.len() == 6);
        assert(e[0] == '\\' && e[1] == 'u' && e[2] == '0' && e[3] == '0');
        assert(e[4] == h1 && e[5] == h2);
    } else {
        assert(e.len() == 1 && e[0] == c);
    }
}

/// Written as a JSON string, a text keeps no raw control character: every character of
/// its escaped form is at least U+0020.
pub proof fn law_escaped_text_has_no_control_chars(s: Seq<char>)
    ensures
        forall|i: int| 0 <= i < escape_text(s).len() ==> (#[trigger] escape_text(s)[i]) as int >= 0x20,
    decreases s.len(),
{
    if s.len() > 0 {
        law_escaped_text_has_no_control_chars(s.drop_last());
        let p = escape_text(s.drop_last());
        let e = escape_char(s.last());
        let c = s.last();
        lemma_escape_char_printable(c);
        assert forall|i: int| 0 <= i < escape_text(s).len() implies (#[trigger] escape_text(s)[i]) as int >= 0x20 by {
            if i < p.len() {
                assert(escape_text(s)[i] == p[i]);
            } else {
                assert(escape_text(s)[i] == e[i - p.len()]);
            }
        }
    }
}

} // verus!

verus! {

/// A JSON number as plain values.
pub enum NumberView {
    PosInt(u64),
    NegInt(i64),
    Float(Seq<char>),
}

/// A JSON value as plain values; objects keep their members in order.
pub enum JsonView {
    Null,
    Bool(bool),
    Number(NumberView),
    Str(Seq<char>),
    Array(Seq<JsonView>),
    Object(Seq<(Seq<char>, JsonView)>),
}

pub open spec fn number_view(n: JsonNumber) -> NumberView {
    match n {
        JsonNumber::PosInt(u) => NumberView::PosInt(u),
        JsonNumber::NegInt(i) => NumberView::NegInt(i),
        JsonNumber::Float(t) => NumberView::Float(t@),
    }
}

/// A value as plain values.
pub open spec fn jview(v: JsonValue) -> JsonView
    decreases v, 0nat,
{
    match v {
        JsonValue::Null => JsonView::Null,
        JsonValue::Bool(b) => JsonView::Bool(b),
        JsonValue::Number(n) => JsonView::Number(number_view(n)),
        JsonValue::Str(s) => JsonView::Str(s@),
        JsonValue::Array(items) => JsonView::Array(items_view(items@, items@.len() as nat)),
        JsonValue::Object(ms) => JsonView::Object(members_view(ms@, ms@.len() as nat)),
    }
}

/// The first `n` items as plain values.
pub open spec fn items_view(items: Seq<JsonValue>, n: nat) -> Seq<JsonView>
    decreases items, n,
{
    if n == 0 || n > items.len() {
        Seq::empty()
    } else {
        items_view(items, (n - 1) as nat).push(jview(items[n - 1]))
    }
}

/// The first `n` members as plain values.
pub open spec fn members_view(ms: Seq<(String, JsonValue)>, n: nat) -> Seq<(Seq<char>, JsonView)>
    decreases ms, n,
{
    if n == 0 || n > ms.len() {
        Seq::empty()
    } else {
        members_view(ms, (n - 1) as nat).push((ms[n - 1].0@, jview(ms[n - 1].1)))
    }
}

/// The members of an object as plain values.
pub open spec fn object_view(ms: Seq<(String, JsonValue)>) -> Seq<(Seq<char>, JsonView)> {
    members_view(ms, ms.len() as nat)
}

/// The members' view holds each member's view at its place.
pub proof fn lemma_members_view(ms: Seq<(String, JsonValue)>, n: nat)
    requires
        n <= ms.len(),
    ensures
        members_view(ms, n).len() == n,
        forall|i: int| 0 <= i < n ==> #[trigger] members_view(ms, n)[i] == (ms[i].0@, jview(ms[i].1)),
    decreases n,
{
    if n > 0 {
        lemma_members_view(ms, (n - 1) as nat);
    }
}

/// The view of an object's members is the list of its members' views.
pub proof fn lemma_object_view(ms: Seq<(String, JsonValue)>)
    ensures
        object_view(ms) == Seq::new(ms.len(), |i: int| (ms[i].0@, jview(ms[i].1))),
{
    lemma_members_view(ms, ms.len() as nat);
    assert(object_view(ms) =~= Seq::new(ms.len(), |i: int| (ms[i].0@, jview(ms[i].1))));
}

} // verus!
