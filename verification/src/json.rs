//! The engine's model of JSON values.
//!
//! Response bodies are handed to the library as [`JsonValue`] trees built
//! from plain values; non-integral numbers carry their literal text.
//! This module renders values back to JSON text (used when a nested
//! value lands in a text column) and walks the configured `data_path`
//! down to the page's record array.

use vstd::prelude::*;
use crate::errors::ApitapError;
use crate::strutil::{i64_to_chars, int_chars, push_chars, str_to_chars};

verus! {

/// A JSON value. A number is an `Int` when it is integral, otherwise a
/// `Float` carrying the number's literal text.
#[derive(Debug)]
#[verifier::ext_equal]
pub enum JsonValue {
    Null,
    Bool(bool),
    Int(i64),
    Float(String),
    Str(String),
    Array(Vec<JsonValue>),
    Object(Vec<(String, JsonValue)>),
}

impl JsonValue {
    /// Scalar values: everything but arrays and objects.
    pub open spec fn is_scalar(&self) -> bool {
        !(self is Array) && !(self is Object)
    }
}

/// The character for one hexadecimal digit.
pub open spec fn hex_char(d: nat) -> char {
    if d < 10 {
        crate::strutil::dchar(d)
    } else if d == 10 {
        'a'
    } else if d == 11 {
        'b'
    } else if d == 12 {
        'c'
    } else if d == 13 {
        'd'
    } else if d == 14 {
        'e'
    } else {
        'f'
    }
}

/// The escape of one character inside a JSON string literal: the short
/// escapes for quote, backslash, newline, return and tab, a `\u00XX`
/// escape for every other control character, and the character itself
/// otherwise.
pub open spec fn esc_char(c: char) -> Seq<char> {
    if c == '"' {
        seq!['\\', '"']
    } else if c == '\\' {
        seq!['\\', '\\']
    } else if c == '\n' {
        seq!['\\', 'n']
    } else if c == '\r' {
        seq!['\\', 'r']
    } else if c == '\t' {
        seq!['\\', 't']
    } else if (c as u32) < 32 {
        seq!['\\', 'u', '0', '0'] + seq![hex_char((c as u32 / 16) as nat)] + seq![hex_char(
            (c as u32 % 16) as nat,
        )]
    } else {
        seq![c]
    }
}

/// The character for one hexadecimal digit.
fn hex_char_exec(d: u8) -> (r: char)
    requires
        d < 16,
    ensures
        r == hex_char(d as nat),
{
    if d < 10 {
        crate::strutil::digit_char(d)
    } else {
        match d {
            10 => 'a',
            11 => 'b',
            12 => 'c',
            13 => 'd',
            14 => 'e',
            _ => 'f',
        }
    }
}

/// The escaped body of a JSON string literal.
pub open spec fn esc_chars(s: Seq<char>) -> Seq<char>
    decreases s.len(),
{
    if s.len() == 0 {
        Seq::empty()
    } else {
        esc_char(s[0]) + esc_chars(s.skip(1))
    }
}

/// A JSON string literal: quotes around the escaped body.
pub open spec fn quote_json(s: Seq<char>) -> Seq<char> {
    seq!['"'] + esc_chars(s) + seq!['"']
}

/// The JSON text of a value.
pub open spec fn json_text(v: JsonValue) -> Seq<char>
    decreases v, 0int,
{
    match v {
        JsonValue::Null => "null"@,
        JsonValue::Bool(b) => if b {
            "true"@
        } else {
            "false"@
        },
        JsonValue::Int(n) => int_chars(n as int),
        JsonValue::Float(s) => s@,
        JsonValue::Str(s) => quote_json(s@),
        JsonValue::Array(items) => seq!['['] + json_items_text(items@, 0) + seq![']'],
        JsonValue::Object(fields) => seq!['{'] + json_fields_text(fields@, 0) + seq!['}'],
    }
}

/// The comma-joined JSON text of array elements from `i` on.
pub open spec fn json_items_text(items: Seq<JsonValue>, i: int) -> Seq<char>
    decreases items, items.len() - i,
    when 0 <= i
{
    if i >= items.len() {
        Seq::empty()
    } else if i + 1 == items.len() {
        json_text(items[i])
    } else {
        json_text(items[i]) + seq![','] + json_items_text(items, i + 1)
    }
}

/// The comma-joined JSON text of object members from `i` on.
pub open spec fn json_fields_text(fields: Seq<(String, JsonValue)>, i: int) -> Seq<char>
    decreases fields, fields.len() - i,
    when 0 <= i
{
    if i >= fields.len() {
        Seq::empty()
    } else if i + 1 == fields.len() {
        quote_json(fields[i].0@) + seq![':'] + json_text(fields[i].1)
    } else {
        quote_json(fields[i].0@) + seq![':'] + json_text(fields[i].1) + seq![',']
            + json_fields_text(fields, i + 1)
    }
}

/// Append the escaped body of a JSON string literal.
fn push_escaped(out: &mut Vec<char>, s: &Vec<char>)
    ensures
        final(out)@ == old(out)@ + esc_chars(s@),
{
    let ghost o0 = out@;
    let mut i: usize = 0;
    proof {
        assert(s@.skip(0) =~= s@);
    }
    while i < s.len()
        invariant
            i <= s@.len(),
            out@ + esc_chars(s@.skip(i as int)) == o0 + esc_chars(s@),
        decreases s@.len() - i,
    {
        let ghost pre = out@;
        let c = s[i];
        proof {
            assert(s@.skip(i as int)[0] == s@[i as int]);
            assert(s@.skip(i as int).skip(1) =~= s@.skip(i as int + 1));
        }
        if c == '"' {
            out.push('\\');
            out.push('"');
        } else if c == '\\' {
            out.push('\\');
            out.push('\\');
        } else if c == '\n' {
            out.push('\\');
            out.push('n');
        } else if c == '\r' {
            out.push('\\');
            out.push('r');
        } else if c == '\t' {
            out.push('\\');
            out.push('t');
        } else if (c as u32) < 32 {
            out.push('\\');
            out.push('u');
            out.push('0');
            out.push('0');
            out.push(hex_char_exec((c as u32 / 16) as u8));
            out.push(hex_char_exec((c as u32 % 16) as u8));
        } else {
            out.push(c);
        }
        i = i + 1;
        proof {
            assert(out@ =~= pre + esc_char(s@[i - 1]));
            assert((pre + esc_char(s@[i - 1])) + esc_chars(s@.skip(i as int)) =~= pre + (esc_char(
                s@[i - 1],
            ) + esc_chars(s@.skip(i as int))));
        }
    }
    proof {
        assert(esc_chars(s@.skip(i as int)) =~= Seq::<char>::empty());
        assert(out@ + Seq::<char>::empty() =~= out@);
    }
}

/// Append the JSON text of a value.
fn push_json(out: &mut Vec<char>, v: &JsonValue)
    ensures
        final(out)@ == old(out)@ + json_text(*v),
    decreases *v, 0int,
{
    match v {
        JsonValue::Null => {
            let lit = str_to_chars("null");
            push_chars(out, &lit);
        },
        JsonValue::Bool(b) => {
            let lit = if *b {
                str_to_chars("true")
            } else {
                str_to_chars("false")
            };
            push_chars(out, &lit);
        },
        JsonValue::Int(n) => {
            let digits = i64_to_chars(*n);
            push_chars(out, &digits);
        },
        JsonValue::Float(s) => {
            let cs = str_to_chars(s.as_str());
            push_chars(out, &cs);
        },
        JsonValue::Str(s) => {
            let cs = str_to_chars(s.as_str());
            out.push('"');
            push_escaped(out, &cs);
            out.push('"');
            proof {
                assert(old(out)@ + (seq!['"'] + esc_chars(cs@)) + seq!['"'] =~= old(out)@
                    + quote_json(cs@));
            }
        },
        JsonValue::Array(items) => {
            out.push('[');
            push_json_items(out, items);
            out.push(']');
            proof {
                assert(old(out)@ + (seq!['['] + json_items_text(items@, 0)) + seq![']'] =~= old(
                    out,
                )@ + (seq!['['] + json_items_text(items@, 0) + seq![']']));
            }
        },
        JsonValue::Object(fields) => {
            out.push('{');
            push_json_fields(out, fields);
            out.push('}');
            proof {
                assert(old(out)@ + (seq!['{'] + json_fields_text(fields@, 0)) + seq!['}'] =~= old(
                    out,
                )@ + (seq!['{'] + json_fields_text(fields@, 0) + seq!['}']));
            }
        },
    }
}

/// Append the comma-joined JSON text of array elements.
fn push_json_items(out: &mut Vec<char>, items: &Vec<JsonValue>)
    ensures
        final(out)@ == old(out)@ + json_items_text(items@, 0),
    decreases *items, 0int,
{
    let ghost o0 = out@;
    let mut i: usize = 0;
    while i < items.len()
        invariant
            i <= items@.len(),
            out@ + json_items_text(items@, i as int) == o0 + json_items_text(items@, 0),
        decreases items@.len() - i,
    {
        let ghost pre = out@;
        push_json(out, &items[i]);
        if i + 1 < items.len() {
            out.push(',');
            proof {
                assert(out@ =~= pre + (json_text(items@[i as int]) + seq![',']));
                assert((pre + (json_text(items@[i as int]) + seq![','])) + json_items_text(
                    items@,
                    i as int + 1,
                ) =~= pre + (json_text(items@[i as int]) + seq![','] + json_items_text(
                    items@,
                    i as int + 1,
                )));
            }
        } else {
            proof {
                assert(json_items_text(items@, i as int) == json_text(items@[i as int]));
            }
        }
        i = i + 1;
    }
    proof {
        assert(json_items_text(items@, i as int) =~= Seq::<char>::empty());
        assert(out@ + Seq::<char>::empty() =~= out@);
        assert(o0 + json_items_text(items@, 0) =~= out@);
    }
}

/// Append the comma-joined JSON text of object members.
fn push_json_fields(out: &mut Vec<char>, fields: &Vec<(String, JsonValue)>)
    ensures
        final(out)@ == old(out)@ + json_fields_text(fields@, 0),
    decreases *fields, 0int,
{
    let ghost o0 = out@;
    let mut i: usize = 0;
    while i < fields.len()
        invariant
            i <= fields@.len(),
            out@ + json_fields_text(fields@, i as int) == o0 + json_fields_text(fields@, 0),
        decreases fields@.len() - i,
    {
        let ghost pre = out@;
        let key = str_to_chars(fields[i].0.as_str());
        out.push('"');
        push_escaped(out, &key);
        out.push('"');
        out.push(':');
        proof {
            assert(out@ =~= pre + (quote_json(fields@[i as int].0@) + seq![':']));
        }
        let ghost mid = out@;
        push_json(out, &fields[i].1);
        if i + 1 < fields.len() {
            out.push(',');
            proof {
                assert(out@ =~= pre + (quote_json(fields@[i as int].0@) + seq![':'] + json_text(
                    fields@[i as int].1,
                ) + seq![',']));
                assert((pre + (quote_json(fields@[i as int].0@) + seq![':'] + json_text(
                    fields@[i as int].1,
                ) + seq![','])) + json_fields_text(fields@, i as int + 1) =~= pre + (quote_json(
                    fields@[i as int].0@,
                ) + seq![':'] + json_text(fields@[i as int].1) + seq![','] + json_fields_text(
                    fields@,
                    i as int + 1,
                )));
            }
        } else {
            proof {
                assert(out@ =~= pre + (quote_json(fields@[i as int].0@) + seq![':'] + json_text(
                    fields@[i as int].1,
                )));
            }
        }
        i = i + 1;
    }
    proof {
        assert(json_fields_text(fields@, i as int) =~= Seq::<char>::empty());
        assert(out@ + Seq::<char>::empty() =~= out@);
        assert(o0 + json_fields_text(fields@, 0) =~= out@);
    }
}

/// The JSON text of a value, as a string.
pub fn json_to_string(v: &JsonValue) -> (r: String)
    ensures
        r@ == json_text(*v),
{
    let mut out: Vec<char> = Vec::new();
    push_json(&mut out, v);
    crate::strutil::chars_to_string(&out)
}

/// Equality on scalar values. Arrays and objects never compare equal.
pub fn scalar_eq(a: &JsonValue, b: &JsonValue) -> (r: bool)
    ensures
        r == scalar_eq_spec(*a, *b),
{
    match (a, b) {
        (JsonValue::Null, JsonValue::Null) => true,
        (JsonValue::Bool(x), JsonValue::Bool(y)) => x == y,
        (JsonValue::Int(x), JsonValue::Int(y)) => x == y,
        (JsonValue::Float(x), JsonValue::Float(y)) => x.eq(y),
        (JsonValue::Str(x), JsonValue::Str(y)) => x.eq(y),
        _ => false,
    }
}

/// Two scalars of the same shape with the same contents.
pub open spec fn scalar_eq_spec(a: JsonValue, b: JsonValue) -> bool {
    match (a, b) {
        (JsonValue::Null, JsonValue::Null) => true,
        (JsonValue::Bool(x), JsonValue::Bool(y)) => x == y,
        (JsonValue::Int(x), JsonValue::Int(y)) => x == y,
        (JsonValue::Float(x), JsonValue::Float(y)) => x@ == y@,
        (JsonValue::Str(x), JsonValue::Str(y)) => x@ == y@,
        _ => false,
    }
}

/// Split a dotted path into its components.
pub open spec fn path_parts(p: Seq<char>) -> Seq<Seq<char>>
    decreases p.len(),
{
    if p.len() == 0 {
        seq![Seq::empty()]
    } else if p[0] == '.' {
        seq![Seq::<char>::empty()] + path_parts(p.skip(1))
    } else {
        let rest = path_parts(p.skip(1));
        seq![seq![p[0]] + rest[0]] + rest.skip(1)
    }
}

pub proof fn lemma_path_parts_nonempty(p: Seq<char>)
    ensures
        path_parts(p).len() >= 1,
    decreases p.len(),
{
    if p.len() > 0 {
        lemma_path_parts_nonempty(p.skip(1));
    }
}

/// The first member of an object with the given key.
pub open spec fn obj_get(fields: Seq<(String, JsonValue)>, key: Seq<char>) -> Option<JsonValue>
    decreases fields.len(),
{
    if fields.len() == 0 {
        None
    } else if fields[0].0@ == key {
        Some(fields[0].1)
    } else {
        obj_get(fields.skip(1), key)
    }
}

/// Walk the value down the path components from `i` on. `None` when a
/// component is missing or a non-object is entered.
pub open spec fn walk_path(v: JsonValue, parts: Seq<Seq<char>>, i: int) -> Option<JsonValue>
    decreases parts.len() - i,
    when 0 <= i
{
    if i >= parts.len() {
        Some(v)
    } else {
        match v {
            JsonValue::Object(fields) => match obj_get(fields@, parts[i]) {
                Some(next) => walk_path(next, parts, i + 1),
                None => None,
            },
            _ => None,
        }
    }
}

/// What a page's record extraction yields: the records, or an error when
/// the resolved value is not an array.
pub open spec fn extract_records_spec(body: JsonValue, path: Option<Seq<char>>) -> Result<
    Seq<JsonValue>,
    (),
> {
    match path {
        Some(p) => match walk_path(body, path_parts(p), 0) {
            Some(JsonValue::Array(items)) => Ok(items@),
            Some(_) => Err(()),
            None => Ok(Seq::empty()),
        },
        None => match body {
            JsonValue::Array(items) => Ok(items@),
            _ => Err(()),
        },
    }
}

/// Find the first member with the given key and take it out.
fn take_field(fields: &mut Vec<(String, JsonValue)>, key: &Vec<char>) -> (r: Option<JsonValue>)
    ensures
        r == obj_get(old(fields)@, key@),
{
    let key_s = crate::strutil::chars_to_string(key);
    let mut k: usize = 0;
    proof {
        assert(fields@.skip(0) =~= fields@);
    }
    while k < fields.len()
        invariant
            k <= fields@.len(),
            fields@ == old(fields)@,
            obj_get(fields@, key_s@) == obj_get(fields@.skip(k as int), key_s@),
            key_s@ == key@,
        decreases fields@.len() - k,
    {
        proof {
            assert(fields@.skip(k as int)[0] == fields@[k as int]);
            assert(fields@.skip(k as int).skip(1) =~= fields@.skip(k as int + 1));
        }
        if fields[k].0.eq(&key_s) {
            let pair = fields.remove(k);
            return Some(pair.1);
        }
        k = k + 1;
    }
    proof {
        assert(fields@.skip(k as int).len() == 0);
    }
    None
}

/// The views of a vector of character vectors.
pub open spec fn views_of(parts: Seq<Vec<char>>) -> Seq<Seq<char>> {
    parts.map_values(|q: Vec<char>| q@)
}

/// Split a dotted path into components.
fn split_path(p: &Vec<char>) -> (r: Vec<Vec<char>>)
    ensures
        views_of(r@) == path_parts(p@),
        r@.len() >= 1,
{
    let mut parts: Vec<Vec<char>> = Vec::new();
    let mut cur: Vec<char> = Vec::new();
    let mut i: usize = 0;
    proof {
        lemma_path_parts_partial_eq(p@);
        assert(views_of(parts@) =~= Seq::<Seq<char>>::empty());
        assert(Seq::<Seq<char>>::empty() + path_parts_partial(p@, 0, Seq::empty()) =~= path_parts(
            p@,
        ));
    }
    while i < p.len()
        invariant
            i <= p@.len(),
            path_parts(p@) == views_of(parts@) + path_parts_partial(p@, i as int, cur@),
        decreases p@.len() - i,
    {
        let ghost parts0 = views_of(parts@);
        let ghost cur0 = cur@;
        if p[i] == '.' {
            parts.push(cur);
            cur = Vec::new();
            proof {
                assert(views_of(parts@) =~= parts0.push(cur0));
                lemma_partial_dot(p@, i as int, cur0);
                assert(parts0.push(cur0) + path_parts_partial(p@, i as int + 1, Seq::empty())
                    =~= parts0 + path_parts_partial(p@, i as int, cur0));
            }
        } else {
            cur.push(p[i]);
            proof {
                lemma_partial_char(p@, i as int, cur0);
            }
        }
        i = i + 1;
    }
    let ghost parts0 = views_of(parts@);
    let ghost cur0 = cur@;
    parts.push(cur);
    proof {
        lemma_path_parts_nonempty(p@);
        assert(views_of(parts@) =~= parts0.push(cur0));
        assert(path_parts_partial(p@, i as int, cur0) == seq![cur0]);
        assert(parts0.push(cur0) =~= parts0 + seq![cur0]);
    }
    parts
}

/// The parts of the remainder of `p` from `i`, with `acc` the component
/// built so far.
pub open spec fn path_parts_partial(p: Seq<char>, i: int, acc: Seq<char>) -> Seq<Seq<char>>
    decreases p.len() - i,
    when 0 <= i <= p.len()
{
    if i >= p.len() {
        seq![acc]
    } else if p[i] == '.' {
        seq![acc] + path_parts_partial(p, i + 1, Seq::empty())
    } else {
        path_parts_partial(p, i + 1, acc.push(p[i]))
    }
}

proof fn lemma_partial_dot(p: Seq<char>, i: int, acc: Seq<char>)
    requires
        0 <= i < p.len(),
        p[i] == '.',
    ensures
        path_parts_partial(p, i, acc) == seq![acc] + path_parts_partial(p, i + 1, Seq::empty()),
{
}

proof fn lemma_partial_char(p: Seq<char>, i: int, acc: Seq<char>)
    requires
        0 <= i < p.len(),
        p[i] != '.',
    ensures
        path_parts_partial(p, i, acc) == path_parts_partial(p, i + 1, acc.push(p[i])),
{
}

/// `path_parts` and its accumulator form agree.
proof fn lemma_path_parts_partial_eq(p: Seq<char>)
    ensures
        path_parts(p) == path_parts_partial(p, 0, Seq::empty()),
{
    lemma_ppp(p, 0, Seq::empty());
    lemma_path_parts_nonempty(p);
    assert(p.skip(0) =~= p);
    assert(Seq::<char>::empty() + path_parts(p)[0] =~= path_parts(p)[0]);
    assert(seq![path_parts(p)[0]] + path_parts(p).skip(1) =~= path_parts(p));
}

/// `path_parts_partial` prepends the accumulator to the first component
/// of the suffix's parts.
proof fn lemma_ppp(p: Seq<char>, i: int, acc: Seq<char>)
    requires
        0 <= i <= p.len(),
    ensures
        path_parts_partial(p, i, acc) == seq![acc + path_parts(p.skip(i))[0]] + path_parts(
            p.skip(i),
        ).skip(1),
    decreases p.len() - i,
{
    lemma_path_parts_nonempty(p.skip(i));
    if i >= p.len() {
        assert(p.skip(i) =~= Seq::<char>::empty());
        assert(path_parts(p.skip(i)) == seq![Seq::<char>::empty()]);
        assert(acc + Seq::<char>::empty() =~= acc);
        assert(seq![acc] + path_parts(p.skip(i)).skip(1) =~= seq![acc]);
    } else {
        assert(p.skip(i)[0] == p[i]);
        assert(p.skip(i).skip(1) =~= p.skip(i + 1));
        lemma_path_parts_nonempty(p.skip(i + 1));
        if p[i] == '.' {
            lemma_ppp(p, i + 1, Seq::empty());
            assert(path_parts(p.skip(i)) == seq![Seq::<char>::empty()] + path_parts(p.skip(i + 1)));
            assert(Seq::<char>::empty() + path_parts(p.skip(i + 1))[0] =~= path_parts(
                p.skip(i + 1),
            )[0]);
            assert((seq![Seq::<char>::empty()] + path_parts(p.skip(i + 1))).skip(1) =~= path_parts(
                p.skip(i + 1),
            ));
            assert(acc + path_parts(p.skip(i))[0] =~= acc);
            assert(seq![acc] + path_parts_partial(p, i + 1, Seq::empty()) =~= seq![acc
                + path_parts(p.skip(i))[0]] + path_parts(p.skip(i)).skip(1));
        } else {
            lemma_ppp(p, i + 1, acc.push(p[i]));
            let rest = path_parts(p.skip(i + 1));
            assert(path_parts(p.skip(i)) == seq![seq![p[i]] + rest[0]] + rest.skip(1));
            assert(path_parts(p.skip(i))[0] == seq![p[i]] + rest[0]);
            assert(acc.push(p[i]) + rest[0] =~= acc + (seq![p[i]] + rest[0]));
            assert(path_parts(p.skip(i)).skip(1) =~= rest.skip(1));
        }
    }
}

/// The view of an optional dotted path.
pub open spec fn path_view(data_path: &Option<String>) -> Option<Seq<char>> {
    match data_path {
        Some(p) => Some(p@),
        None => None,
    }
}

/// Extract the record array of one response body.
///
/// With a `data_path`, the body is walked down the dotted components;
/// the resolved value must be an array, and a missing path yields an
/// empty page. Without a path, the body itself must be an array.
pub fn extract_records(body: JsonValue, data_path: &Option<String>) -> (r: Result<
    Vec<JsonValue>,
    ApitapError,
>)
    ensures
        match r {
            Ok(v) => extract_records_spec(body, path_view(data_path)) == Ok::<
                Seq<JsonValue>,
                (),
            >(v@),
            Err(e) => extract_records_spec(body, path_view(data_path)) is Err && e
                is PipelineError,
        },
{
    match data_path {
        Some(p) => {
            let pc = str_to_chars(p.as_str());
            let parts = split_path(&pc);
            let ghost gbody = body;
            let mut cur = body;
            let mut i: usize = 0;
            while i < parts.len()
                invariant
                    i <= parts@.len(),
                    views_of(parts@) == path_parts(pc@),
                    pc@ == p@,
                    gbody == body,
                    path_view(data_path) == Some(pc@),
                    walk_path(gbody, path_parts(pc@), 0) == walk_path(
                        cur,
                        path_parts(pc@),
                        i as int,
                    ),
                decreases parts@.len() - i,
            {
                let ghost cur0 = cur;
                let ghost gi = i as int;
                match cur {
                    JsonValue::Object(mut fields) => {
                        let ghost gfields = fields@;
                        proof {
                            assert(views_of(parts@)[gi] == parts@[gi]@);
                            assert(walk_path(cur0, path_parts(pc@), gi) == (
                            match obj_get(gfields, path_parts(pc@)[gi]) {
                                Some(next) => walk_path(next, path_parts(pc@), gi + 1),
                                None => None,
                            }));
                        }
                        match take_field(&mut fields, &parts[i]) {
                            Some(next) => {
                                proof {
                                    assert(obj_get(gfields, path_parts(pc@)[gi]) == Some(next));
                                }
                                cur = next;
                            },
                            None => {
                                proof {
                                    assert(obj_get(gfields, path_parts(pc@)[gi]) is None);
                                    assert(walk_path(gbody, path_parts(pc@), 0) is None);
                                    assert(extract_records_spec(gbody, Some(pc@)) == Ok::<
                                        Seq<JsonValue>,
                                        (),
                                    >(Seq::empty()));
                                }
                                return Ok(Vec::new());
                            },
                        }
                    },
                    _ => {
                        proof {
                            assert(walk_path(gbody, path_parts(pc@), 0) is None);
                            assert(extract_records_spec(gbody, Some(pc@)) == Ok::<
                                Seq<JsonValue>,
                                (),
                            >(Seq::empty()));
                        }
                        return Ok(Vec::new());
                    },
                }
                i = i + 1;
            }
            match cur {
                JsonValue::Array(items) => Ok(items),
                _ => Err(
                    ApitapError::PipelineError(
                        String::from_str("data_path did not resolve to an array"),
                    ),
                ),
            }
        },
        None => match body {
            JsonValue::Array(items) => Ok(items),
            _ => Err(
                ApitapError::PipelineError(String::from_str("response root is not an array")),
            ),
        },
    }
}

} // verus!
