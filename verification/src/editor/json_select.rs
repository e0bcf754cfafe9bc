//! Selecting a part of a JSON document by a simple path such as `.foo[2].bar`.
use crate::order::str_eq;
use crate::text::{decimal, decimal_string, to_chars, from_chars};
use vstd::prelude::*;

verus! {

broadcast use vstd::string::group_string_axioms;

/// A JSON value as `serde_json` parses it: numbers as they are written back, objects as
/// their entries (each key once).
pub enum JsonValue {
    Null,
    Bool(bool),
    Number(String),
    Str(String),
    Array(Vec<JsonValue>),
    Object(Vec<(String, JsonValue)>),
}

/// The plain value of a JSON value.
pub enum JsonValueView {
    Null,
    Bool(bool),
    Number(Seq<char>),
    Str(Seq<char>),
    Array(Seq<JsonValueView>),
    Object(Seq<(Seq<char>, JsonValueView)>),
}

/// The plain value of a JSON value.
pub open spec fn json_view(v: JsonValue) -> JsonValueView
    decreases v, 1nat,
{
    match v {
        JsonValue::Null => JsonValueView::Null,
        JsonValue::Bool(b) => JsonValueView::Bool(b),
        JsonValue::Number(n) => JsonValueView::Number(n@),
        JsonValue::Str(s) => JsonValueView::Str(s@),
        JsonValue::Array(a) => JsonValueView::Array(json_views(a@)),
        JsonValue::Object(es) => JsonValueView::Object(entries_view(es@)),
    }
}

/// The plain values of JSON values.
pub open spec fn json_views(vs: Seq<JsonValue>) -> Seq<JsonValueView>
    decreases vs, 0nat,
{
    if vs.len() == 0 {
        Seq::empty()
    } else {
        json_views(vs.drop_last()).push(json_view(vs.last()))
    }
}

/// The plain values of the entries of an object.
pub open spec fn entries_view(es: Seq<(String, JsonValue)>) -> Seq<(Seq<char>, JsonValueView)>
    decreases es, 0nat,
{
    if es.len() == 0 {
        Seq::empty()
    } else {
        entries_view(es.drop_last()).push((es.last().0@, json_view(es.last().1)))
    }
}

impl View for JsonValue {
    type V = JsonValueView;

    open spec fn view(&self) -> JsonValueView {
        json_view(*self)
    }
}

proof fn lemma_json_views_index(vs: Seq<JsonValue>, i: int)
    requires
        0 <= i < vs.len(),
    ensures
        json_views(vs).len() == vs.len(),
        json_views(vs)[i] == json_view(vs[i]),
    decreases vs.len(),
{
    lemma_json_views_len(vs);
    if i < vs.len() - 1 {
        lemma_json_views_index(vs.drop_last(), i);
    }
}

proof fn lemma_json_views_len(vs: Seq<JsonValue>)
    ensures
        json_views(vs).len() == vs.len(),
    decreases vs.len(),
{
    if vs.len() > 0 {
        lemma_json_views_len(vs.drop_last());
    }
}

proof fn lemma_entries_view_index(es: Seq<(String, JsonValue)>, i: int)
    requires
        0 <= i < es.len(),
    ensures
        entries_view(es).len() == es.len(),
        entries_view(es)[i] == (es[i].0@, json_view(es[i].1)),
    decreases es.len(),
{
    lemma_entries_view_len(es);
    if i < es.len() - 1 {
        lemma_entries_view_index(es.drop_last(), i);
    }
}

proof fn lemma_entries_view_len(es: Seq<(String, JsonValue)>)
    ensures
        entries_view(es).len() == es.len(),
    decreases es.len(),
{
    if es.len() > 0 {
        lemma_entries_view_len(es.drop_last());
    }
}

/// What `serde_json::from_str` parses `json` into, where it is JSON.
pub uninterp spec fn parsed_json(json: Seq<char>) -> Option<JsonValueView>;

/// The message of `serde_json` where `json` is no JSON.
pub uninterp spec fn json_parse_message(json: Seq<char>) -> Seq<char>;

/// What `serde_json::to_string` writes of a value (compact).
pub uninterp spec fn json_written(v: JsonValueView) -> Seq<char>;

/// `serde_json`'s `Value`, carried through the conversions.
#[verifier::external_type_specification]
#[verifier::external_body]
pub struct ExJsonValue(serde_json::Value);

/// `serde_json::Value` as a `JsonValue`: each variant to its own, numbers by their
/// `Display`, the entries of an object in the order of its map.
#[verifier::external_body]
fn value_to_json(v: &serde_json::Value) -> JsonValue {
    match v {
        serde_json::Value::Null => JsonValue::Null,
        serde_json::Value::Bool(b) => JsonValue::Bool(*b),
        serde_json::Value::Number(n) => JsonValue::Number(n.to_string()),
        serde_json::Value::String(s) => JsonValue::Str(s.clone()),
        serde_json::Value::Array(a) => JsonValue::Array(a.iter().map(value_to_json).collect()),
        serde_json::Value::Object(m) => JsonValue::Object(m.iter().map(|(k, x)| (k.clone(), value_to_json(x))).collect()),
    }
}

/// A `JsonValue` back as `serde_json::Value`, each variant to its own (a number from its
/// written form, which `serde_json::Number` parses back as it was).
#[verifier::external_body]
fn json_to_value(v: &JsonValue) -> serde_json::Value {
    match v {
        JsonValue::Null => serde_json::Value::Null,
        JsonValue::Bool(b) => serde_json::Value::Bool(*b),
        JsonValue::Number(n) => n.parse::<serde_json::Number>().map_or(serde_json::Value::Null, serde_json::Value::Number),
        JsonValue::Str(s) => serde_json::Value::String(s.clone()),
        JsonValue::Array(a) => serde_json::Value::Array(a.iter().map(json_to_value).collect()),
        JsonValue::Object(es) => serde_json::Value::Object(es.iter().map(|(k, x)| (k.clone(), json_to_value(x))).collect()),
    }
}

/// JSON that `serde_json` refuses, with its message.
#[derive(Debug)]
pub struct JsonParseError {
    pub message: String,
}

/// `serde_json::from_str` into a `Value`, taken as a `JsonValue`.
#[verifier::external_body]
fn parse_json(json: &str) -> (r: Result<JsonValue, JsonParseError>)
    ensures
        r is Ok <==> parsed_json(json@) is Some,
        r matches Ok(v) ==> parsed_json(json@) == Some(v@),
        r matches Err(e) ==> e.message@ == json_parse_message(json@),
{
    match serde_json::from_str::<serde_json::Value>(json) {
        Ok(v) => Ok(value_to_json(&v)),
        Err(e) => Err(JsonParseError { message: e.to_string() }),
    }
}

/// `serde_json::to_string` of the value; it writes every `Value`.
#[verifier::external_body]
fn json_to_string(v: &JsonValue) -> (r: String)
    ensures
        r@ == json_written(v@),
{
    serde_json::to_string(&json_to_value(v)).unwrap_or_default()
}

/// A character that separates the parts of a selector.
pub open spec fn is_selector_separator(c: char) -> bool {
    c == '.' || c == '[' || c == ']'
}

/// The non-empty parts of `s` after the partial part `cur`, split at `.`, `[` and `]`.
pub open spec fn parts_after(s: Seq<char>, cur: Seq<char>) -> Seq<Seq<char>>
    decreases s.len(),
{
    let done = if cur.len() == 0 {
        Seq::<Seq<char>>::empty()
    } else {
        seq![cur]
    };
    if s.len() == 0 {
        done
    } else if is_selector_separator(s[0]) {
        done + parts_after(s.drop_first(), Seq::empty())
    } else {
        parts_after(s.drop_first(), cur.push(s[0]))
    }
}

/// The parts of a selector: `selector.split(['.', '[', ']'])` without the empty ones.
pub open spec fn selector_parts(s: Seq<char>) -> Seq<Seq<char>> {
    parts_after(s, Seq::empty())
}

/// The number that `usize::from_str` reads in the ASCII digits `s`.
pub open spec fn digits_value(s: Seq<char>) -> nat
    decreases s.len(),
{
    if s.len() == 0 {
        0
    } else {
        digits_value(s.drop_last()) * 10 + ((s.last() as u32) - ('0' as u32)) as nat
    }
}

/// Every character is an ASCII digit.
pub open spec fn all_digits(s: Seq<char>) -> bool {
    forall|i: int| 0 <= i < s.len() ==> '0' <= #[trigger] s[i] && s[i] <= '9'
}

/// What `part.parse::<usize>()` gives: digits, after an optional `+`, at least one, and a
/// value that fits.
pub open spec fn parsed_index(part: Seq<char>) -> Option<nat> {
    let digits = if part.len() > 0 && part[0] == '+' {
        part.drop_first()
    } else {
        part
    };
    if digits.len() > 0 && all_digits(digits) && digits_value(digits) <= usize::MAX {
        Some(digits_value(digits))
    } else {
        None
    }
}

/// The value of the first entry with key `k`, if any.
pub open spec fn entry_value(es: Seq<(Seq<char>, JsonValueView)>, k: Seq<char>) -> Option<JsonValueView>
    decreases es.len(),
{
    if es.len() == 0 {
        None
    } else if es[0].0 == k {
        Some(es[0].1)
    } else {
        entry_value(es.drop_first(), k)
    }
}

/// Why a selection fails.
#[derive(Debug)]
pub enum JsonSelectError {
    /// The input is no JSON; the message of `serde_json`.
    Parse(String),
    Null,
    Bool,
    Number,
    Str,
    /// The part can not index an array.
    NotAnIndex(String),
    /// The index is past the end of an array of the given length.
    OutOfBounds { index: usize, len: usize },
    /// No entry of the object has the key.
    MissingKey(String),
}

/// The plain value of a selection error.
pub enum JsonSelectErrorView {
    Parse(Seq<char>),
    Null,
    Bool,
    Number,
    Str,
    NotAnIndex(Seq<char>),
    OutOfBounds { index: nat, len: nat },
    MissingKey(Seq<char>),
}

impl View for JsonSelectError {
    type V = JsonSelectErrorView;

    open spec fn view(&self) -> JsonSelectErrorView {
        match self {
            JsonSelectError::Parse(m) => JsonSelectErrorView::Parse(m@),
            JsonSelectError::Null => JsonSelectErrorView::Null,
            JsonSelectError::Bool => JsonSelectErrorView::Bool,
            JsonSelectError::Number => JsonSelectErrorView::Number,
            JsonSelectError::Str => JsonSelectErrorView::Str,
            JsonSelectError::NotAnIndex(p) => JsonSelectErrorView::NotAnIndex(p@),
            JsonSelectError::OutOfBounds { index, len } => JsonSelectErrorView::OutOfBounds {
                index: *index as nat,
                len: *len as nat,
            },
            JsonSelectError::MissingKey(k) => JsonSelectErrorView::MissingKey(k@),
        }
    }
}

/// The message that reports a selection error.
pub open spec fn select_error_text(e: JsonSelectErrorView) -> Seq<char> {
    match e {
        JsonSelectErrorView::Parse(m) => m,
        JsonSelectErrorView::Null => "can not select into a null value"@,
        JsonSelectErrorView::Bool => "can not select into a bool value"@,
        JsonSelectErrorView::Number => "can not select into a numeric value"@,
        JsonSelectErrorView::Str => "can not select into a string value"@,
        JsonSelectErrorView::NotAnIndex(p) => "selector ("@ + p + ") can not be used to index an array"@,
        JsonSelectErrorView::OutOfBounds { index, len } => "selector (index "@ + decimal(index)
            + ") selected out of bounds in an array of length "@ + decimal(len),
        JsonSelectErrorView::MissingKey(k) => "selector ("@ + k + ") tried to select a non existing key in object"@,
    }
}

impl JsonSelectError {
    /// The message that reports the error.
    pub fn message(&self) -> (r: String)
        ensures
            r@ == select_error_text(self@),
    {
        match self {
            JsonSelectError::Parse(m) => m.clone(),
            JsonSelectError::Null => "can not select into a null value".to_string(),
            JsonSelectError::Bool => "can not select into a bool value".to_string(),
            JsonSelectError::Number => "can not select into a numeric value".to_string(),
            JsonSelectError::Str => "can not select into a string value".to_string(),
            JsonSelectError::NotAnIndex(p) => {
                let mut m = "selector (".to_string();
                m.append(p.as_str());
                m.append(") can not be used to index an array");
                m
            },
            JsonSelectError::OutOfBounds { index, len } => {
                let mut m = "selector (index ".to_string();
                let i = decimal_string(*index);
                m.append(i.as_str());
                m.append(") selected out of bounds in an array of length ");
                let l = decimal_string(*len);
                m.append(l.as_str());
                m
            },
            JsonSelectError::MissingKey(k) => {
                let mut m = "selector (".to_string();
                m.append(k.as_str());
                m.append(") tried to select a non existing key in object");
                m
            },
        }
    }
}

/// The walk of a selection: each part steps into the value, an index into an array, a key
/// into an object; other values can not be stepped into.
pub open spec fn walk(v: JsonValueView, parts: Seq<Seq<char>>) -> Result<JsonValueView, JsonSelectErrorView>
    decreases parts.len(),
{
    if parts.len() == 0 {
        Ok(v)
    } else {
        let part = parts[0];
        match v {
            JsonValueView::Null => Err(JsonSelectErrorView::Null),
            JsonValueView::Bool(_) => Err(JsonSelectErrorView::Bool),
            JsonValueView::Number(_) => Err(JsonSelectErrorView::Number),
            JsonValueView::Str(_) => Err(JsonSelectErrorView::Str),
            JsonValueView::Array(a) => match parsed_index(part) {
                None => Err(JsonSelectErrorView::NotAnIndex(part)),
                Some(i) => if i < a.len() {
                    walk(a[i as int], parts.drop_first())
                } else {
                    Err(JsonSelectErrorView::OutOfBounds { index: i, len: a.len() })
                },
            },
            JsonValueView::Object(es) => match entry_value(es, part) {
                Some(x) => walk(x, parts.drop_first()),
                None => Err(JsonSelectErrorView::MissingKey(part)),
            },
        }
    }
}

/// The parts of a selector.
pub fn split_selector(selector: &str) -> (r: Vec<Vec<char>>)
    ensures
        r@.map_values(|p: Vec<char>| p@) == selector_parts(selector@),
{
    let s = to_chars(selector);
    let mut parts: Vec<Vec<char>> = Vec::new();
    let mut cur: Vec<char> = Vec::new();
    let mut i: usize = 0;
    assert(s@.skip(0) == s@);
    while i < s.len()
        invariant
            i <= s@.len(),
            s@ == selector@,
            parts@.map_values(|p: Vec<char>| p@) + parts_after(s@.skip(i as int), cur@) == selector_parts(
                selector@,
            ),
        decreases s@.len() - i,
    {
        let ghost pv = parts@.map_values(|p: Vec<char>| p@);
        assert(s@.skip(i as int)[0] == s@[i as int]);
        assert(s@.skip(i as int).drop_first() == s@.skip(i + 1));
        let c = s[i];
        if c == '.' || c == '[' || c == ']' {
            if cur.len() > 0 {
                let ghost cv = cur@;
                parts.push(cur);
                assert(parts@.map_values(|p: Vec<char>| p@) =~= pv.push(cv));
                assert(pv.push(cv) + parts_after(s@.skip(i + 1), Seq::empty()) =~= pv + (seq![cv]
                    + parts_after(s@.skip(i + 1), Seq::empty())));
                cur = Vec::new();
            } else {
                assert(Seq::<Seq<char>>::empty() + parts_after(s@.skip(i + 1), Seq::empty()) =~= parts_after(
                    s@.skip(i + 1),
                    Seq::empty(),
                ));
                cur = Vec::new();
            }
        } else {
            cur.push(c);
        }
        i += 1;
    }
    let ghost pv = parts@.map_values(|p: Vec<char>| p@);
    if cur.len() > 0 {
        let ghost cv = cur@;
        parts.push(cur);
        assert(parts@.map_values(|p: Vec<char>| p@) =~= pv.push(cv));
        assert(pv + seq![cv] =~= pv.push(cv));
    } else {
        assert(pv + Seq::<Seq<char>>::empty() =~= pv);
    }
    parts
}

/// `part.parse::<usize>()`.
pub fn parse_index(part: &[char]) -> (r: Option<usize>)
    ensures
        match parsed_index(part@) {
            Some(n) => r == Some(n as usize),
            None => r is None,
        },
{
    let start: usize = if part.len() > 0 && part[0] == '+' {
        1
    } else {
        0
    };
    let ghost digits = part@.skip(start as int);
    assert(start == 1 ==> digits == part@.drop_first());
    assert(start == 0 ==> digits == part@);
    assert(parsed_index(part@) == (if digits.len() > 0 && all_digits(digits) && digits_value(digits)
        <= usize::MAX {
        Some(digits_value(digits))
    } else {
        None
    }));
    if start >= part.len() {
        return None;
    }
    let mut value: usize = 0;
    let mut i: usize = start;
    while i < part.len()
        invariant
            start <= i <= part@.len(),
            digits == part@.skip(start as int),
            digits.len() > 0,
            parsed_index(part@) == (if digits.len() > 0 && all_digits(digits) && digits_value(digits)
                <= usize::MAX {
                Some(digits_value(digits))
            } else {
                None
            }),
            all_digits(part@.subrange(start as int, i as int)),
            value == digits_value(part@.subrange(start as int, i as int)),
        decreases part@.len() - i,
    {
        let c = part[i];
        assert(part@.subrange(start as int, i + 1).drop_last() == part@.subrange(start as int, i as int));
        assert(part@.subrange(start as int, i + 1).last() == c);
        if !('0' <= c && c <= '9') {
            proof {
                assert(digits[i - start] == c);
                assert(!all_digits(digits));
            }
            return None;
        }
        let d = ((c as u32) - ('0' as u32)) as usize;
        assert(all_digits(part@.subrange(start as int, i + 1))) by {
            assert forall|k: int| 0 <= k < i + 1 - start implies '0' <= #[trigger] part@.subrange(start as int, i + 1)[k]
                && part@.subrange(start as int, i + 1)[k] <= '9' by {
                if k < i - start {
                    assert(part@.subrange(start as int, i + 1)[k] == part@.subrange(start as int, i as int)[k]);
                }
            }
        }
        match value.checked_mul(10) {
            Some(m) => match m.checked_add(d) {
                Some(n) => {
                    value = n;
                },
                None => {
                    proof {
                        assert(digits.take(i + 1 - start) == part@.subrange(start as int, i + 1));
                        if all_digits(digits) {
                            lemma_digits_prefix_bound(digits, i + 1 - start);
                        }
                    }
                    return None;
                },
            },
            None => {
                proof {
                    assert(digits.take(i + 1 - start) == part@.subrange(start as int, i + 1));
                    if all_digits(digits) {
                        lemma_digits_prefix_bound(digits, i + 1 - start);
                    }
                }
                return None;
            },
        }
        i += 1;
    }
    assert(part@.subrange(start as int, part@.len() as int) == digits);
    Some(value)
}

/// The value of digits is at least the value of any prefix of them.
proof fn lemma_digits_prefix_bound(s: Seq<char>, n: int)
    requires
        0 <= n <= s.len(),
        all_digits(s),
    ensures
        digits_value(s.take(n)) <= digits_value(s),
    decreases s.len(),
{
    if n < s.len() {
        assert(s.drop_last().take(n) == s.take(n));
        assert(all_digits(s.drop_last())) by {
            assert forall|k: int| 0 <= k < s.drop_last().len() implies '0' <= #[trigger] s.drop_last()[k]
                && s.drop_last()[k] <= '9' by {
                assert(s.drop_last()[k] == s[k]);
            }
        }
        lemma_digits_prefix_bound(s.drop_last(), n);
    } else {
        assert(s.take(n) == s);
    }
}

/// The part of `v` that `selector` selects.
pub fn select_value<'a>(v: &'a JsonValue, selector: &str) -> (r: Result<&'a JsonValue, JsonSelectError>)
    ensures
        match (r, walk(v@, selector_parts(selector@))) {
            (Ok(x), Ok(y)) => x@ == y,
            (Err(e), Err(f)) => e@ == f,
            _ => false,
        },
{
    let parts = split_selector(selector);
    let ghost pv = parts@.map_values(|p: Vec<char>| p@);
    let mut current: &JsonValue = v;
    let mut k: usize = 0;
    assert(pv.skip(0) == pv);
    while k < parts.len()
        invariant
            k <= parts@.len(),
            pv == parts@.map_values(|p: Vec<char>| p@),
            pv == selector_parts(selector@),
            walk(v@, pv) == walk(current@, pv.skip(k as int)),
        decreases parts@.len() - k,
    {
        let part = &parts[k];
        assert(pv.skip(k as int)[0] == part@);
        assert(pv.skip(k as int).drop_first() == pv.skip(k + 1));
        match current {
            JsonValue::Null => {
                return Err(JsonSelectError::Null);
            },
            JsonValue::Bool(_) => {
                return Err(JsonSelectError::Bool);
            },
            JsonValue::Number(_) => {
                return Err(JsonSelectError::Number);
            },
            JsonValue::Str(_) => {
                return Err(JsonSelectError::Str);
            },
            JsonValue::Array(a) => {
                match parse_index(part.as_slice()) {
                    None => {
                        return Err(JsonSelectError::NotAnIndex(from_chars(part.as_slice())));
                    },
                    Some(i) => {
                        proof {
                            lemma_json_views_len(a@);
                        }
                        if i < a.len() {
                            proof {
                                lemma_json_views_index(a@, i as int);
                            }
                            current = &a[i];
                        } else {
                            return Err(JsonSelectError::OutOfBounds { index: i, len: a.len() });
                        }
                    },
                }
            },
            JsonValue::Object(es) => {
                let ghost ev = entries_view(es@);
                proof {
                    lemma_entries_view_len(es@);
                }
                let mut j: usize = 0;
                assert(ev.skip(0) == ev);
                while j < es.len() && !str_eq(es[j].0.as_str(), from_chars(part.as_slice()).as_str())
                    invariant
                        j <= es@.len(),
                        ev == entries_view(es@),
                        ev.len() == es@.len(),
                        entry_value(ev, part@) == entry_value(ev.skip(j as int), part@),
                    decreases es@.len() - j,
                {
                    proof {
                        lemma_entries_view_index(es@, j as int);
                    }
                    assert(ev.skip(j as int)[0] == ev[j as int]);
                    assert(ev.skip(j as int).drop_first() == ev.skip(j + 1));
                    j += 1;
                }
                if j < es.len() {
                    proof {
                        lemma_entries_view_index(es@, j as int);
                        assert(ev.skip(j as int)[0] == ev[j as int]);
                    }
                    current = &es[j].1;
                } else {
                    assert(ev.skip(j as int) =~= Seq::<(Seq<char>, JsonValueView)>::empty());
                    return Err(JsonSelectError::MissingKey(from_chars(part.as_slice())));
                }
            },
        }
        k += 1;
    }
    assert(pv.skip(k as int) =~= Seq::<Seq<char>>::empty());
    Ok(current)
}

/// What selecting gives: the selected part written as compact JSON, or why it fails.
pub open spec fn selected_json(json: Seq<char>, selector: Seq<char>) -> Result<Seq<char>, JsonSelectErrorView> {
    match parsed_json(json) {
        None => Err(JsonSelectErrorView::Parse(json_parse_message(json))),
        Some(v) => match walk(v, selector_parts(selector)) {
            Ok(x) => Ok(json_written(x)),
            Err(e) => Err(e),
        },
    }
}

/// The part of the JSON document that the selector selects, written as compact JSON.
pub fn select(json: &str, selector: &str) -> (r: Result<String, JsonSelectError>)
    ensures
        match (r, selected_json(json@, selector@)) {
            (Ok(s), Ok(t)) => s@ == t,
            (Err(e), Err(f)) => e@ == f,
            _ => false,
        },
{
    let value = match parse_json(json) {
        Ok(v) => v,
        Err(e) => {
            return Err(JsonSelectError::Parse(e.message));
        },
    };
    match select_value(&value, selector) {
        Ok(x) => Ok(json_to_string(x)),
        Err(e) => Err(e),
    }
}

} // verus!
