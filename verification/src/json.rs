//! JSON values as the library builds and reads them: request bodies for the
//! model providers and the chunks they stream back. Numbers are kept as
//! their JSON text; objects keep their members in order.

use vstd::prelude::*;
use crate::json_text::{json_quote, json_quoted};
use crate::text::{dec, push_char, push_dec, push_str, str_eq, to_chars};

verus! {

/// A JSON value.
#[derive(Debug)]
pub enum JsonValue {
    Null,
    Bool(bool),
    /// A number, as its JSON text.
    Number(String),
    Str(String),
    Array(Vec<JsonValue>),
    /// An object's members, in order.
    Object(Vec<(String, JsonValue)>),
}

/// A JSON value as mathematical text and sequences.
pub enum JsonView {
    Null,
    Bool(bool),
    Number(Seq<char>),
    Str(Seq<char>),
    Array(Seq<JsonView>),
    Object(Seq<(Seq<char>, JsonView)>),
}

/// The view of a JSON value.
pub open spec fn jview(j: JsonValue) -> JsonView
    decreases j,
{
    match j {
        JsonValue::Null => JsonView::Null,
        JsonValue::Bool(b) => JsonView::Bool(b),
        JsonValue::Number(n) => JsonView::Number(n@),
        JsonValue::Str(s) => JsonView::Str(s@),
        JsonValue::Array(v) => JsonView::Array(jview_items(v@)),
        JsonValue::Object(m) => JsonView::Object(jview_members(m@)),
    }
}

/// The views of a list of JSON values.
pub open spec fn jview_items(s: Seq<JsonValue>) -> Seq<JsonView>
    decreases s,
{
    if s.len() == 0 {
        Seq::empty()
    } else {
        jview_items(s.drop_last()).push(jview(s.last()))
    }
}

/// The views of a list of object members.
pub open spec fn jview_members(s: Seq<(String, JsonValue)>) -> Seq<(Seq<char>, JsonView)>
    decreases s,
{
    if s.len() == 0 {
        Seq::empty()
    } else {
        jview_members(s.drop_last()).push((s.last().0@, jview(s.last().1)))
    }
}

pub proof fn lemma_jview_items(s: Seq<JsonValue>)
    ensures
        jview_items(s).len() == s.len(),
        forall|i: int| 0 <= i < s.len() ==> #[trigger] jview_items(s)[i] == jview(s[i]),
    decreases s.len(),
{
    if s.len() > 0 {
        lemma_jview_items(s.drop_last());
    }
}

pub proof fn lemma_jview_members(s: Seq<(String, JsonValue)>)
    ensures
        jview_members(s).len() == s.len(),
        forall|i: int| 0 <= i < s.len() ==> #[trigger] jview_members(s)[i] == (s[i].0@, jview(s[i].1)),
    decreases s.len(),
{
    if s.len() > 0 {
        lemma_jview_members(s.drop_last());
    }
}

pub proof fn lemma_jview_items_push(s: Seq<JsonValue>, x: JsonValue)
    ensures
        jview_items(s.push(x)) == jview_items(s).push(jview(x)),
{
    assert(s.push(x).drop_last() =~= s);
}

pub proof fn lemma_jview_members_push(s: Seq<(String, JsonValue)>, x: (String, JsonValue))
    ensures
        jview_members(s.push(x)) == jview_members(s).push((x.0@, jview(x.1))),
{
    assert(s.push(x).drop_last() =~= s);
}

pub proof fn lemma_jview_items_add(a: Seq<JsonValue>, b: Seq<JsonValue>)
    ensures
        jview_items(a + b) == jview_items(a) + jview_items(b),
    decreases b.len(),
{
    if b.len() == 0 {
        assert(a + b =~= a);
        assert(jview_items(a) + jview_items(b) =~= jview_items(a));
    } else {
        lemma_jview_items_add(a, b.drop_last());
        assert((a + b).drop_last() =~= a + b.drop_last());
        assert(jview_items(a) + jview_items(b) =~= (jview_items(a) + jview_items(b.drop_last())).push(jview(b.last())));
    }
}

/// The value of the first member named `key`, when `j` is an object that
/// has one.
pub open spec fn jget(j: JsonView, key: Seq<char>) -> Option<JsonView> {
    match j {
        JsonView::Object(m) => member_value(m, key),
        _ => None,
    }
}

/// The value of the first member named `key`.
pub open spec fn member_value(m: Seq<(Seq<char>, JsonView)>, key: Seq<char>) -> Option<JsonView>
    decreases m.len(),
{
    if m.len() == 0 {
        None
    } else if m[0].0 == key {
        Some(m[0].1)
    } else {
        member_value(m.drop_first(), key)
    }
}

/// The text of a string value.
pub open spec fn jstr_of(j: Option<JsonView>) -> Option<Seq<char>> {
    match j {
        Some(JsonView::Str(s)) => Some(s),
        _ => None,
    }
}

/// The value of a decimal numeral, when it is one.
pub open spec fn decimal_value(t: Seq<char>) -> Option<nat>
    decreases t.len(),
{
    if t.len() == 0 {
        None
    } else if !('0' <= t.last() && t.last() <= '9') {
        None
    } else if t.len() == 1 {
        Some((t.last() as nat - '0' as nat) as nat)
    } else {
        match decimal_value(t.drop_last()) {
            Some(v) => Some((v * 10 + (t.last() as nat - '0' as nat)) as nat),
            None => None,
        }
    }
}

/// A number's value as an unsigned 64-bit integer: when its text is a
/// decimal numeral whose value fits.
pub open spec fn number_u64(t: Seq<char>) -> Option<u64> {
    match decimal_value(t) {
        Some(v) => if v <= u64::MAX { Some(v as u64) } else { None },
        None => None,
    }
}

/// The unsigned integer a value holds, if any.
pub open spec fn ju64_of(j: Option<JsonView>) -> Option<u64> {
    match j {
        Some(JsonView::Number(t)) => number_u64(t),
        _ => None,
    }
}

/// The boolean a value holds, if any.
pub open spec fn jbool_of(j: Option<JsonView>) -> Option<bool> {
    match j {
        Some(JsonView::Bool(b)) => Some(b),
        _ => None,
    }
}

/// An object built from `(name, value)` members.
pub open spec fn jobj(m: Seq<(Seq<char>, JsonView)>) -> JsonView {
    JsonView::Object(m)
}

/// A string value.
pub open spec fn js(s: Seq<char>) -> JsonView {
    JsonView::Str(s)
}

impl JsonValue {
    /// A string value.
    pub fn string(s: &str) -> (j: JsonValue)
        ensures
            jview(j) == JsonView::Str(s@),
    {
        JsonValue::Str(s.to_string())
    }

    /// A copy of the value.
    pub fn duplicate(&self) -> (r: JsonValue)
        ensures
            jview(r) == jview(*self),
        decreases self,
    {
        match self {
            JsonValue::Null => JsonValue::Null,
            JsonValue::Bool(b) => JsonValue::Bool(*b),
            JsonValue::Number(n) => JsonValue::Number(n.clone()),
            JsonValue::Str(s) => JsonValue::Str(s.clone()),
            JsonValue::Array(v) => {
                let mut r: Vec<JsonValue> = Vec::new();
                let mut i: usize = 0;
                while i < v.len()
                    invariant
                        i <= v.len(),
                        *self == JsonValue::Array(*v),
                        jview_items(r@) == jview_items(v@.subrange(0, i as int)),
                    decreases v.len() - i,
                {
                    proof {
                        assert(decreases_to!(*self => (*self)->Array_0));
                        assert(decreases_to!(*v => v@));
                        assert(decreases_to!(v@ => v@[i as int]));
                    }
                    let x = v[i].duplicate();
                    proof {
                        lemma_jview_items_push(r@, x);
                        assert(v@.subrange(0, i + 1) =~= v@.subrange(0, i as int).push(v@[i as int]));
                        lemma_jview_items_push(v@.subrange(0, i as int), v@[i as int]);
                    }
                    r.push(x);
                    i = i + 1;
                }
                assert(v@.subrange(0, v.len() as int) =~= v@);
                JsonValue::Array(r)
            },
            JsonValue::Object(m) => {
                let mut r: Vec<(String, JsonValue)> = Vec::new();
                let mut i: usize = 0;
                while i < m.len()
                    invariant
                        i <= m.len(),
                        *self == JsonValue::Object(*m),
                        jview_members(r@) == jview_members(m@.subrange(0, i as int)),
                    decreases m.len() - i,
                {
                    proof {
                        assert(decreases_to!(*self => (*self)->Object_0));
                        assert(decreases_to!(*m => m@));
                        assert(decreases_to!(m@ => m@[i as int]));
                        assert(decreases_to!(m@[i as int] => m@[i as int].1));
                    }
                    let x = (m[i].0.clone(), m[i].1.duplicate());
                    proof {
                        lemma_jview_members_push(r@, x);
                        assert(m@.subrange(0, i + 1) =~= m@.subrange(0, i as int).push(m@[i as int]));
                        lemma_jview_members_push(m@.subrange(0, i as int), m@[i as int]);
                    }
                    r.push(x);
                    i = i + 1;
                }
                assert(m@.subrange(0, m.len() as int) =~= m@);
                JsonValue::Object(r)
            },
        }
    }

    /// The value of the member `key`, when this is an object that has one.
    pub fn get(&self, key: &str) -> (r: Option<&JsonValue>)
        ensures
            match r {
                Some(v) => jget(jview(*self), key@) == Some(jview(*v)),
                None => jget(jview(*self), key@) is None,
            },
    {
        match self {
            JsonValue::Object(m) => {
                proof { lemma_jview_members(m@); }
                let ghost mv = jview_members(m@);
                assert(mv.subrange(0, mv.len() as int) =~= mv);
                let mut i: usize = 0;
                while i < m.len()
                    invariant
                        i <= m.len(),
                        *self == JsonValue::Object(*m),
                        mv == jview_members(m@),
                        mv.len() == m@.len(),
                        forall|k: int| 0 <= k < m@.len() ==> #[trigger] mv[k] == (m@[k].0@, jview(m@[k].1)),
                        member_value(mv, key@) == member_value(mv.subrange(i as int, mv.len() as int), key@),
                    decreases m.len() - i,
                {
                    let ghost rest = mv.subrange(i as int, mv.len() as int);
                    assert(rest[0] == mv[i as int]);
                    if str_eq(m[i].0.as_str(), key) {
                        assert(mv[i as int] == (m@[i as int].0@, jview(m@[i as int].1)));
                        assert(member_value(rest, key@) == Some(rest[0].1));
                        return Some(&m[i].1);
                    }
                    assert(rest.drop_first() =~= mv.subrange(i + 1, mv.len() as int));
                    i = i + 1;
                }
                None
            },
            _ => None,
        }
    }

    /// The text of a string value.
    pub fn as_str(&self) -> (r: Option<&str>)
        ensures
            match r {
                Some(s) => jview(*self) == JsonView::Str(s@),
                None => !(jview(*self) is Str),
            },
    {
        match self {
            JsonValue::Str(s) => Some(s.as_str()),
            _ => None,
        }
    }

    /// The boolean of a boolean value.
    pub fn as_bool(&self) -> (r: Option<bool>)
        ensures
            r == jbool_of(Some(jview(*self))),
    {
        match self {
            JsonValue::Bool(b) => Some(*b),
            _ => None,
        }
    }

    /// The items of an array value.
    pub fn as_array(&self) -> (r: Option<&Vec<JsonValue>>)
        ensures
            match r {
                Some(v) => jview(*self) == JsonView::Array(jview_items(v@)),
                None => !(jview(*self) is Array),
            },
    {
        match self {
            JsonValue::Array(v) => Some(v),
            _ => None,
        }
    }

    /// The value of a number whose text is a decimal numeral that fits in
    /// 64 bits.
    pub fn as_u64(&self) -> (r: Option<u64>)
        ensures
            r == ju64_of(Some(jview(*self))),
    {
        match self {
            JsonValue::Number(t) => parse_u64(t.as_str()),
            _ => None,
        }
    }
}

/// The value of a decimal numeral that fits in 64 bits.
pub fn parse_u64(t: &str) -> (r: Option<u64>)
    ensures
        r == number_u64(t@),
{
    let cs = to_chars(t);
    if cs.len() == 0 {
        return None;
    }
    let mut v: u64 = 0;
    let mut i: usize = 0;
    while i < cs.len()
        invariant
            0 <= i <= cs.len(),
            cs@ == t@,
            cs.len() > 0,
            i == 0 ==> v == 0,
            i > 0 ==> decimal_value(cs@.subrange(0, i as int)) == Some(v as nat),
            forall|k: int| 0 < k <= i ==> #[trigger] decimal_value(cs@.subrange(0, k)) is Some,
        decreases cs.len() - i,
    {
        let c = cs[i];
        let ghost sub = cs@.subrange(0, i + 1);
        assert(sub.drop_last() =~= cs@.subrange(0, i as int));
        assert(sub.last() == c);
        if !('0' <= c && c <= '9') {
            proof { lemma_decimal_prefix_none(cs@, i + 1); }
            return None;
        }
        let d: u64 = ((c as u32) - ('0' as u32)) as u64;
        assert(d as nat == c as nat - '0' as nat);
        assert(decimal_value(sub) == Some((v * 10 + d) as nat));
        if v > (u64::MAX - d) / 10 {
            proof {
                assert(v * 10 + d > u64::MAX) by (nonlinear_arith)
                    requires v > (u64::MAX - d) / 10, d <= 9;
                lemma_decimal_grows(cs@, i + 1);
            }
            return None;
        }
        proof {
            assert(v * 10 + d <= u64::MAX) by (nonlinear_arith)
                requires v <= (u64::MAX - d) / 10, d <= 9;
        }
        v = v * 10 + d;
        i = i + 1;
    }
    assert(cs@.subrange(0, cs.len() as int) =~= cs@);
    Some(v)
}

/// A prefix that is not a numeral makes the whole text no numeral.
proof fn lemma_decimal_prefix_none(t: Seq<char>, k: int)
    requires
        0 < k <= t.len(),
        decimal_value(t.subrange(0, k)) is None,
    ensures
        decimal_value(t) is None,
    decreases t.len() - k,
{
    if k < t.len() {
        let s = t.subrange(0, k + 1);
        assert(s.drop_last() =~= t.subrange(0, k));
        lemma_decimal_prefix_none(t, k + 1);
    } else {
        assert(t.subrange(0, k) =~= t);
    }
}

/// A numeral's value is at least the value of any of its prefixes.
proof fn lemma_decimal_grows(t: Seq<char>, k: int)
    requires
        0 < k <= t.len(),
        decimal_value(t.subrange(0, k)) is Some,
    ensures
        decimal_value(t) is Some ==> decimal_value(t).unwrap() >= decimal_value(t.subrange(0, k)).unwrap(),
    decreases t.len() - k,
{
    if k < t.len() {
        let s = t.subrange(0, k + 1);
        assert(s.drop_last() =~= t.subrange(0, k));
        if decimal_value(s) is Some {
            lemma_decimal_grows(t, k + 1);
        } else {
            lemma_decimal_prefix_none(t, k + 1);
        }
    } else {
        assert(t.subrange(0, k) =~= t);
    }
}

// ---------------------------------------------------------------------
// JSON text
// ---------------------------------------------------------------------

/// The compact JSON text of a value: members and items in order, separated
/// by commas, with no spaces.
pub open spec fn jtext(j: JsonView) -> Seq<char>
    decreases j,
{
    match j {
        JsonView::Null => "null"@,
        JsonView::Bool(b) => if b { "true"@ } else { "false"@ },
        JsonView::Number(t) => t,
        JsonView::Str(s) => json_quoted(s),
        JsonView::Array(items) => seq!['['] + jtext_items(items) + seq![']'],
        JsonView::Object(m) => seq!['{'] + jtext_members(m) + seq!['}'],
    }
}

/// The texts of items, separated by commas.
pub open spec fn jtext_items(s: Seq<JsonView>) -> Seq<char>
    decreases s,
{
    if s.len() == 0 {
        Seq::empty()
    } else if s.len() == 1 {
        jtext(s[0])
    } else {
        jtext_items(s.drop_last()) + seq![','] + jtext(s.last())
    }
}

/// The texts of members, `"name":value`, separated by commas.
pub open spec fn jtext_members(s: Seq<(Seq<char>, JsonView)>) -> Seq<char>
    decreases s,
{
    if s.len() == 0 {
        Seq::empty()
    } else if s.len() == 1 {
        json_quoted(s[0].0) + seq![':'] + jtext(s[0].1)
    } else {
        jtext_members(s.drop_last()) + seq![','] + json_quoted(s.last().0) + seq![':'] + jtext(s.last().1)
    }
}

impl JsonValue {
    /// Appends the compact JSON text of the value.
    pub fn write_text(&self, out: &mut String)
        ensures
            final(out)@ == old(out)@ + jtext(jview(*self)),
        decreases self,
    {
        match self {
            JsonValue::Null => {
                proof { reveal_strlit("null"); }
                push_str(out, "null");
            },
            JsonValue::Bool(b) => {
                proof { reveal_strlit("true"); reveal_strlit("false"); }
                if *b { push_str(out, "true"); } else { push_str(out, "false"); }
            },
            JsonValue::Number(t) => push_str(out, t.as_str()),
            JsonValue::Str(s) => {
                let q = json_quote(s.as_str());
                push_str(out, q.as_str());
            },
            JsonValue::Array(v) => {
                push_char(out, '[');
                let ghost start = out@;
                proof { lemma_jview_items(v@); }
                let mut i: usize = 0;
                while i < v.len()
                    invariant
                        i <= v.len(),
                        *self == JsonValue::Array(*v),
                        jview_items(v@).len() == v@.len(),
                        forall|k: int| 0 <= k < v@.len() ==> #[trigger] jview_items(v@)[k] == jview(v@[k]),
                        out@ == start + jtext_items(jview_items(v@).subrange(0, i as int)),
                    decreases v.len() - i,
                {
                    proof {
                        assert(decreases_to!(*self => (*self)->Array_0));
                        assert(decreases_to!(*v => v@));
                        assert(decreases_to!(v@ => v@[i as int]));
                    }
                    let ghost items = jview_items(v@);
                    let ghost sub1 = items.subrange(0, i + 1);
                    assert(sub1.drop_last() =~= items.subrange(0, i as int));
                    if i > 0 {
                        push_char(out, ',');
                    }
                    v[i].write_text(out);
                    proof {
                        if i == 0 {
                            assert(sub1.len() == 1 && sub1[0] == jview(v@[0]));
                        }
                        assert(out@ =~= start + jtext_items(sub1));
                    }
                    i = i + 1;
                }
                proof { assert(jview_items(v@).subrange(0, v.len() as int) =~= jview_items(v@)); }
                push_char(out, ']');
            },
            JsonValue::Object(m) => {
                push_char(out, '{');
                let ghost start = out@;
                proof { lemma_jview_members(m@); }
                let mut i: usize = 0;
                while i < m.len()
                    invariant
                        i <= m.len(),
                        *self == JsonValue::Object(*m),
                        jview_members(m@).len() == m@.len(),
                        forall|k: int| 0 <= k < m@.len() ==> #[trigger] jview_members(m@)[k] == (m@[k].0@, jview(m@[k].1)),
                        out@ == start + jtext_members(jview_members(m@).subrange(0, i as int)),
                    decreases m.len() - i,
                {
                    proof {
                        assert(decreases_to!(*self => (*self)->Object_0));
                        assert(decreases_to!(*m => m@));
                        assert(decreases_to!(m@ => m@[i as int]));
                        assert(decreases_to!(m@[i as int] => m@[i as int].1));
                    }
                    let ghost ms = jview_members(m@);
                    let ghost sub1 = ms.subrange(0, i + 1);
                    assert(sub1.drop_last() =~= ms.subrange(0, i as int));
                    if i > 0 {
                        push_char(out, ',');
                    }
                    let q = json_quote(m[i].0.as_str());
                    push_str(out, q.as_str());
                    push_char(out, ':');
                    m[i].1.write_text(out);
                    proof {
                        if i == 0 {
                            assert(sub1.len() == 1 && sub1[0] == (m@[0].0@, jview(m@[0].1)));
                        }
                        assert(out@ =~= start + jtext_members(sub1));
                    }
                    i = i + 1;
                }
                proof { assert(jview_members(m@).subrange(0, m.len() as int) =~= jview_members(m@)); }
                push_char(out, '}');
            },
        }
    }

    /// The compact JSON text of the value.
    pub fn to_text(&self) -> (s: String)
        ensures
            s@ == jtext(jview(*self)),
    {
        let mut s = String::new();
        self.write_text(&mut s);
        s
    }

    /// A number value for `n`.
    pub fn number(n: u64) -> (j: JsonValue)
        ensures
            jview(j) == JsonView::Number(dec(n as nat)),
    {
        let mut t = String::new();
        push_dec(&mut t, n);
        JsonValue::Number(t)
    }
}

} // verus!
