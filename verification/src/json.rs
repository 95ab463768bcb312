//! A JSON document model and read access to it.
use vstd::prelude::*;
use crate::text::{append_chars, chars_of, chars_of_string, decimal, decimal_chars, string_of};

verus! {

/// A JSON value as the command-line tool reads and writes it.
pub enum Json {
    Null,
    Bool(bool),
    /// A non-negative integer.
    UInt(u64),
    /// A negative integer.
    NegInt(i64),
    /// A number with a fraction or an exponent, kept as the text `serde_json` writes for it.
    Float(String),
    Str(String),
    Arr(Vec<Json>),
    Obj(Vec<(String, Json)>),
}

/// The mathematical value of a [`Json`] document.
pub enum JsonV {
    Null,
    Bool(bool),
    UInt(u64),
    NegInt(i64),
    Float(Seq<char>),
    Str(Seq<char>),
    Arr(Seq<JsonV>),
    Obj(Seq<(Seq<char>, JsonV)>),
}

impl Json {
    /// The plain value of the document.
    pub open spec fn jv(self) -> JsonV
        decreases self,
    {
        match self {
            Json::Null => JsonV::Null,
            Json::Bool(b) => JsonV::Bool(b),
            Json::UInt(n) => JsonV::UInt(n),
            Json::NegInt(n) => JsonV::NegInt(n),
            Json::Float(t) => JsonV::Float(t@),
            Json::Str(s) => JsonV::Str(s@),
            Json::Arr(v) => JsonV::Arr(
                Seq::new(
                    v@.len(),
                    |i: int|
                        if 0 <= i < v@.len() {
                            proof {
                                assert(decreases_to!(v => v@));
                                assert(decreases_to!(v@ => v@[i]));
                            }
                            v@[i].jv()
                        } else {
                            JsonV::Null
                        },
                ),
            ),
            Json::Obj(v) => JsonV::Obj(
                Seq::new(
                    v@.len(),
                    |i: int|
                        if 0 <= i < v@.len() {
                            proof {
                                assert(decreases_to!(v => v@));
                                assert(decreases_to!(v@ => v@[i]));
                                assert(decreases_to!(v@[i] => v@[i].1));
                            }
                            (v@[i].0@, v@[i].1.jv())
                        } else {
                            (Seq::empty(), JsonV::Null)
                        },
                ),
            ),
        }
    }
}


/// The value stored under `key` in an object's entries (the first such entry).
pub open spec fn lookup(es: Seq<(Seq<char>, JsonV)>, key: Seq<char>) -> Option<JsonV>
    decreases es.len(),
{
    if es.len() == 0 {
        None
    } else if es[0].0 == key {
        Some(es[0].1)
    } else {
        lookup(es.drop_first(), key)
    }
}

/// The order of `String` keys: lexicographic by code point (the UTF-8 byte order).
pub open spec fn key_lt(a: Seq<char>, b: Seq<char>) -> bool
    decreases a.len(),
{
    if a.len() == 0 {
        b.len() > 0
    } else if b.len() == 0 {
        false
    } else if a[0] != b[0] {
        a[0] < b[0]
    } else {
        key_lt(a.drop_first(), b.drop_first())
    }
}

/// `serde_json::Map::insert` on entries kept in key order: replaces the value
/// of an existing key, or inserts the entry before the first greater key.
pub open spec fn set_entry(es: Seq<(Seq<char>, JsonV)>, key: Seq<char>, value: JsonV) -> Seq<
    (Seq<char>, JsonV),
>
    decreases es.len(),
{
    if es.len() == 0 {
        seq![(key, value)]
    } else if es[0].0 == key {
        es.update(0, (key, value))
    } else if key_lt(key, es[0].0) {
        seq![(key, value)] + es
    } else {
        seq![es[0]] + set_entry(es.drop_first(), key, value)
    }
}

/// The entries of an object, by their values.
pub open spec fn entries_view(es: Seq<(String, Json)>) -> Seq<(Seq<char>, JsonV)> {
    Seq::new(es.len(), |i: int| (es[i].0@, es[i].1.jv()))
}

/// The items of an array, by their values.
pub open spec fn items_view(v: Seq<Json>) -> Seq<JsonV> {
    Seq::new(v.len(), |i: int| v[i].jv())
}

pub proof fn lemma_obj_view(es: Vec<(String, Json)>)
    ensures
        Json::Obj(es).jv() == JsonV::Obj(entries_view(es@)),
{
    if let JsonV::Obj(a) = Json::Obj(es).jv() {
        assert(a =~= entries_view(es@));
    }
}

pub proof fn lemma_arr_view(v: Vec<Json>)
    ensures
        Json::Arr(v).jv() == JsonV::Arr(items_view(v@)),
{
    if let JsonV::Arr(a) = Json::Arr(v).jv() {
        assert(a =~= items_view(v@));
    }
}

/// Whether `a` comes before `b` in key order.
pub fn key_less(a: &[char], b: &[char]) -> (r: bool)
    ensures
        r == key_lt(a@, b@),
{
    let mut i: usize = 0;
    assert(a@.skip(0) =~= a@);
    assert(b@.skip(0) =~= b@);
    while i < a.len() && i < b.len() && a[i] == b[i]
        invariant
            i <= a.len(),
            i <= b.len(),
            key_lt(a@, b@) == key_lt(a@.skip(i as int), b@.skip(i as int)),
        decreases a.len() - i,
    {
        assert(a@.skip(i as int).drop_first() =~= a@.skip(i + 1));
        assert(b@.skip(i as int).drop_first() =~= b@.skip(i + 1));
        i = i + 1;
    }
    if i == a.len() {
        i < b.len()
    } else if i == b.len() {
        false
    } else {
        assert(a@.skip(i as int)[0] == a@[i as int]);
        assert(b@.skip(i as int)[0] == b@[i as int]);
        a[i] < b[i]
    }
}

/// `serde_json::Map::insert` on entries kept in key order; see [`set_entry`].
#[verifier::loop_isolation(false)]
#[verifier::spinoff_prover]
#[verifier::rlimit(40)]
pub fn insert_entry(es: &mut Vec<(String, Json)>, key: &[char], value: Json)
    ensures
        entries_view(final(es)@) == set_entry(entries_view(old(es)@), key@, value.jv()),
{
    let ghost ev = entries_view(es@);
    let ghost vv = value.jv();
    let mut i: usize = 0;
    assert(ev.take(0) + ev.skip(0) =~= ev);
    assert(Seq::<(Seq<char>, JsonV)>::empty() + set_entry(ev.skip(0), key@, vv) =~= set_entry(ev, key@, vv));
    while i < es.len()
        invariant
            i <= es.len(),
            es@ == old(es)@,
            ev == entries_view(es@),
            set_entry(ev, key@, vv) == ev.take(i as int) + set_entry(ev.skip(i as int), key@, vv),
        decreases es.len() - i,
    {
        let k = chars_of_string(&es[i].0);
        let ghost t = ev.skip(i as int);
        assert(t[0] == ev[i as int]);
        if same_chars(k.as_slice(), key) {
            es.set(i, (string_of(key), value));
            proof {
                assert(t.update(0, (key@, vv)) =~= seq![(key@, vv)] + t.drop_first());
                assert(entries_view(es@) =~= ev.take(i as int) + t.update(0, (key@, vv)));
            }
            return;
        }
        if key_less(key, k.as_slice()) {
            es.insert(i, (string_of(key), value));
            proof {
                assert(entries_view(es@) =~= ev.take(i as int) + (seq![(key@, vv)] + t));
            }
            return;
        }
        proof {
            assert(t.drop_first() =~= ev.skip(i + 1));
            assert(ev.take(i + 1) =~= ev.take(i as int) + seq![t[0]]);
        }
        i = i + 1;
    }
    es.push((string_of(key), value));
    proof {
        assert(ev.skip(i as int) =~= Seq::<(Seq<char>, JsonV)>::empty());
        assert(ev.take(i as int) =~= ev);
        assert(entries_view(es@) =~= ev + seq![(key@, vv)]);
    }
}

/// [`insert_entry`] with a key given as a string slice.
pub fn insert_str(es: &mut Vec<(String, Json)>, key: &str, value: Json)
    ensures
        entries_view(final(es)@) == set_entry(entries_view(old(es)@), key@, value.jv()),
{
    let k = chars_of(key);
    insert_entry(es, k.as_slice(), value);
}

/// The value of `key` among object entries; see [`lookup`].
pub fn lookup_entry<'a>(es: &'a Vec<(String, Json)>, key: &[char]) -> (r: Option<&'a Json>)
    ensures
        r matches Some(x) ==> lookup(entries_view(es@), key@) == Some(x.jv()),
        r is None ==> lookup(entries_view(es@), key@) is None,
{
    let ghost ev = entries_view(es@);
    assert(ev.skip(0) =~= ev);
    let mut i: usize = 0;
    while i < es.len()
        invariant
            i <= es.len(),
            ev == entries_view(es@),
            lookup(ev, key@) == lookup(ev.skip(i as int), key@),
        decreases es.len() - i,
    {
        let kc = chars_of_string(&es[i].0);
        assert(ev.skip(i as int).drop_first() =~= ev.skip(i + 1));
        assert(ev.skip(i as int)[0] == ev[i as int]);
        if same_chars(kc.as_slice(), key) {
            return Some(&es[i].1);
        }
        i = i + 1;
    }
    None
}

/// `serde_json::Map::remove`: drops the entry of `key`.
pub open spec fn remove_entry(es: Seq<(Seq<char>, JsonV)>, key: Seq<char>) -> Seq<
    (Seq<char>, JsonV),
>
    decreases es.len(),
{
    if es.len() == 0 {
        es
    } else if es[0].0 == key {
        remove_entry(es.drop_first(), key)
    } else {
        seq![es[0]] + remove_entry(es.drop_first(), key)
    }
}

impl JsonV {
    /// `Value::get` with a string key.
    pub open spec fn get(self, key: Seq<char>) -> Option<JsonV> {
        match self {
            JsonV::Obj(es) => lookup(es, key),
            _ => None,
        }
    }

    /// `Value::as_str`.
    pub open spec fn as_str(self) -> Option<Seq<char>> {
        match self {
            JsonV::Str(s) => Some(s),
            _ => None,
        }
    }

    /// `Value::as_u64`.
    pub open spec fn as_u64(self) -> Option<u64> {
        match self {
            JsonV::UInt(n) => Some(n),
            _ => None,
        }
    }

    /// `Value::as_i64`.
    pub open spec fn as_i64(self) -> Option<i64> {
        match self {
            JsonV::UInt(n) => if n <= i64::MAX {
                Some(n as i64)
            } else {
                None
            },
            JsonV::NegInt(n) => Some(n),
            _ => None,
        }
    }

    /// `Value::as_bool`.
    pub open spec fn as_bool(self) -> Option<bool> {
        match self {
            JsonV::Bool(b) => Some(b),
            _ => None,
        }
    }

    /// `Value::as_array`.
    pub open spec fn as_arr(self) -> Option<Seq<JsonV>> {
        match self {
            JsonV::Arr(v) => Some(v),
            _ => None,
        }
    }

    /// `Value::as_object`.
    pub open spec fn as_obj(self) -> Option<Seq<(Seq<char>, JsonV)>> {
        match self {
            JsonV::Obj(es) => Some(es),
            _ => None,
        }
    }

    /// `value.get(key).and_then(Value::as_str)`.
    pub open spec fn get_str(self, key: Seq<char>) -> Option<Seq<char>> {
        match self.get(key) {
            Some(v) => v.as_str(),
            None => None,
        }
    }
}

/// The two string slices are equal.
pub fn str_eq(a: &str, b: &str) -> (r: bool)
    ensures
        r == (a@ == b@),
{
    let ca = chars_of(a);
    let cb = chars_of(b);
    same_chars(ca.as_slice(), cb.as_slice())
}

/// The characters of two slices are equal.
pub fn same_chars(a: &[char], b: &[char]) -> (r: bool)
    ensures
        r == (a@ == b@),
{
    if a.len() != b.len() {
        return false;
    }
    let mut i: usize = 0;
    while i < a.len()
        invariant
            a.len() == b.len(),
            i <= a.len(),
            forall|j: int| 0 <= j < i ==> a@[j] == b@[j],
        decreases a.len() - i,
    {
        if a[i] != b[i] {
            return false;
        }
        i = i + 1;
    }
    assert(a@ =~= b@);
    true
}

impl Json {
    /// A string value made of the given characters.
    pub fn from_chars(s: &[char]) -> (r: Json)
        ensures
            r.jv() == JsonV::Str(s@),
    {
        Json::Str(string_of(s))
    }

    /// A string value copied from a string slice.
    pub fn from_str(s: &str) -> (r: Json)
        ensures
            r.jv() == JsonV::Str(s@),
    {
        Json::Str(s.to_owned())
    }

    /// A deep copy.
    #[verifier::loop_isolation(false)]
    pub fn duplicate(&self) -> (r: Json)
        ensures
            r.jv() == self.jv(),
        decreases self,
    {
        match self {
            Json::Null => Json::Null,
            Json::Bool(b) => Json::Bool(*b),
            Json::UInt(n) => Json::UInt(*n),
            Json::NegInt(n) => Json::NegInt(*n),
            Json::Float(t) => Json::Float(t.clone()),
            Json::Str(s) => Json::Str(s.clone()),
            Json::Arr(v) => {
                let mut out: Vec<Json> = Vec::new();
                let mut i: usize = 0;
                while i < v.len()
                    invariant
                        i <= v.len(),
                        out@.len() == i,
                        forall|j: int| 0 <= j < i ==> (#[trigger] out@[j]).jv() == v@[j].jv(),
                    decreases v.len() - i,
                {
                    proof {
                        assert(decreases_to!(v => v@));
                        assert(decreases_to!(v@ => v@[i as int]));
                    }
                    out.push(v[i].duplicate());
                    i = i + 1;
                }
                let r = Json::Arr(out);
                assert(r.jv() == self.jv()) by {
                    if let JsonV::Arr(a) = r.jv() {
                        if let JsonV::Arr(b) = self.jv() {
                            assert(a =~= b);
                        }
                    }
                }
                r
            },
            Json::Obj(v) => {
                let mut out: Vec<(String, Json)> = Vec::new();
                let mut i: usize = 0;
                while i < v.len()
                    invariant
                        i <= v.len(),
                        out@.len() == i,
                        forall|j: int|
                            0 <= j < i ==> (#[trigger] out@[j]).0@ == v@[j].0@ && out@[j].1.jv()
                                == v@[j].1.jv(),
                    decreases v.len() - i,
                {
                    proof {
                        assert(decreases_to!(v => v@));
                        assert(decreases_to!(v@ => v@[i as int]));
                        assert(decreases_to!(v@[i as int] => v@[i as int].1));
                    }
                    let value = v[i].1.duplicate();
                    out.push((v[i].0.clone(), value));
                    i = i + 1;
                }
                let r = Json::Obj(out);
                assert(r.jv() == self.jv()) by {
                    if let JsonV::Obj(a) = r.jv() {
                        if let JsonV::Obj(b) = self.jv() {
                            assert(a =~= b);
                        }
                    }
                }
                r
            },
        }
    }

    /// `Value::get` with a string key.
    pub fn get<'a>(&'a self, key: &str) -> (r: Option<&'a Json>)
        ensures
            r matches Some(x) ==> self.jv().get(key@) == Some(x.jv()),
            r is None ==> self.jv().get(key@) is None,
    {
        let k = chars_of(key);
        self.get_chars(k.as_slice())
    }

    /// `Value::get` with a key given by its characters.
    pub fn get_chars<'a>(&'a self, key: &[char]) -> (r: Option<&'a Json>)
        ensures
            r matches Some(x) ==> self.jv().get(key@) == Some(x.jv()),
            r is None ==> self.jv().get(key@) is None,
    {
        match self {
            Json::Obj(es) => {
                let ghost ev = Seq::new(es@.len(), |i: int| (es@[i].0@, es@[i].1.jv()));
                assert(self.jv() == JsonV::Obj(ev)) by {
                    if let JsonV::Obj(a) = self.jv() {
                        assert(a =~= ev);
                    }
                }
                assert(ev.skip(0) =~= ev);
                let mut i: usize = 0;
                while i < es.len()
                    invariant
                        i <= es.len(),
                        ev.len() == es@.len(),
                        forall|j: int| 0 <= j < es@.len() ==> #[trigger] ev[j] == (es@[j].0@, es@[j].1.jv()),
                        lookup(ev, key@) == lookup(ev.skip(i as int), key@),
                        self.jv() == JsonV::Obj(ev),
                    decreases es.len() - i,
                {
                    let kc = chars_of_string(&es[i].0);
                    assert(ev.skip(i as int).drop_first() =~= ev.skip(i + 1));
                    assert(ev.skip(i as int)[0] == ev[i as int]);
                    if same_chars(kc.as_slice(), key) {
                        assert(ev[i as int] == (es@[i as int].0@, es@[i as int].1.jv()));
                        assert(lookup(ev.skip(i as int), key@) == Some(es@[i as int].1.jv()));
                        return Some(&es[i].1);
                    }
                    i = i + 1;
                }
                None
            },
            _ => None,
        }
    }

    /// `Value::as_str`.
    pub fn as_str(&self) -> (r: Option<&String>)
        ensures
            r matches Some(s) ==> self.jv().as_str() == Some(s@),
            r is None ==> self.jv().as_str() is None,
    {
        match self {
            Json::Str(s) => Some(s),
            _ => None,
        }
    }

    /// `Value::as_u64`.
    pub fn as_u64(&self) -> (r: Option<u64>)
        ensures
            r == self.jv().as_u64(),
    {
        match self {
            Json::UInt(n) => Some(*n),
            _ => None,
        }
    }

    /// `Value::as_i64`.
    pub fn as_i64(&self) -> (r: Option<i64>)
        ensures
            r == self.jv().as_i64(),
    {
        match self {
            Json::UInt(n) => if *n <= 0x7fff_ffff_ffff_ffff {
                Some(*n as i64)
            } else {
                None
            },
            Json::NegInt(n) => Some(*n),
            _ => None,
        }
    }

    /// `Value::as_bool`.
    pub fn as_bool(&self) -> (r: Option<bool>)
        ensures
            r == self.jv().as_bool(),
    {
        match self {
            Json::Bool(b) => Some(*b),
            _ => None,
        }
    }

    /// `Value::as_array`.
    pub fn as_array(&self) -> (r: Option<&Vec<Json>>)
        ensures
            r matches Some(v) ==> self.jv().as_arr() == Some(Seq::new(v@.len(), |i: int| v@[i].jv())),
            r is None ==> self.jv().as_arr() is None,
    {
        match self {
            Json::Arr(v) => {
                assert(self.jv().as_arr() == Some(Seq::new(v@.len(), |i: int| v@[i].jv()))) by {
                    if let JsonV::Arr(a) = self.jv() {
                        assert(a =~= Seq::new(v@.len(), |i: int| v@[i].jv()));
                    }
                }
                Some(v)
            },
            _ => None,
        }
    }

    /// `Value::is_null`.
    pub fn is_null(&self) -> (r: bool)
        ensures
            r == (self.jv() == JsonV::Null),
    {
        match self {
            Json::Null => true,
            _ => false,
        }
    }
}

/// A lowercase hexadecimal digit.
pub open spec fn hex_digit(d: nat) -> char {
    if d < 10 {
        crate::text::digit_char(d)
    } else if d == 10 {
        'a'
    } else if d == 11 {
        'b'
    } else if d == 12 {
        'c'
    } else if d == 13 {
        'd'
    } else if d == 14 {
        'e'
    } else {
        'f'
    }
}

/// How `serde_json` writes one character inside a string literal.
pub open spec fn escape_char(c: char) -> Seq<char> {
    if c == '"' {
        seq!['\\', '"']
    } else if c == '\\' {
        seq!['\\', '\\']
    } else if c == '\u{8}' {
        seq!['\\', 'b']
    } else if c == '\u{c}' {
        seq!['\\', 'f']
    } else if c == '\n' {
        seq!['\\', 'n']
    } else if c == '\r' {
        seq!['\\', 'r']
    } else if c == '\t' {
        seq!['\\', 't']
    } else if c <= '\u{1f}' {
        seq!['\\', 'u', '0', '0', hex_digit(((c as u32) / 16) as nat), hex_digit(((c as u32) % 16) as nat)]
    } else {
        seq![c]
    }
}

/// The escaped body of a string literal.
pub open spec fn escape_str(s: Seq<char>) -> Seq<char>
    decreases s.len(),
{
    if s.len() == 0 {
        s
    } else {
        escape_str(s.drop_last()) + escape_char(s.last())
    }
}

/// A JSON string literal.
pub open spec fn quote(s: Seq<char>) -> Seq<char> {
    seq!['"'] + escape_str(s) + seq!['"']
}

/// The compact text `serde_json::to_string` writes for a value.
pub open spec fn json_text(v: JsonV) -> Seq<char>
    decreases v,
{
    match v {
        JsonV::Null => seq!['n', 'u', 'l', 'l'],
        JsonV::Bool(b) => if b {
            seq!['t', 'r', 'u', 'e']
        } else {
            seq!['f', 'a', 'l', 's', 'e']
        },
        JsonV::UInt(n) => decimal(n as nat),
        JsonV::NegInt(n) => crate::text::signed_decimal(n as int),
        JsonV::Float(t) => t,
        JsonV::Str(s) => quote(s),
        JsonV::Arr(items) => seq!['['] + items_text(items) + seq![']'],
        JsonV::Obj(es) => seq!['{'] + entries_text(es) + seq!['}'],
    }
}

/// The items of an array, written and separated by commas.
pub open spec fn items_text(items: Seq<JsonV>) -> Seq<char>
    decreases items,
{
    if items.len() == 0 {
        Seq::empty()
    } else if items.len() == 1 {
        json_text(items[0])
    } else {
        items_text(items.drop_last()) + seq![','] + json_text(items.last())
    }
}

/// The entries of an object, written as `"key":value` and separated by commas.
pub open spec fn entries_text(es: Seq<(Seq<char>, JsonV)>) -> Seq<char>
    decreases es,
{
    if es.len() == 0 {
        Seq::empty()
    } else if es.len() == 1 {
        quote(es[0].0) + seq![':'] + json_text(es[0].1)
    } else {
        entries_text(es.drop_last()) + seq![','] + quote(es.last().0) + seq![':'] + json_text(
            es.last().1,
        )
    }
}

/// `serde_json::to_string` of a string: the JSON string literal of `s`,
/// which is [`quote`] of it. Writing a string to a `String` does not fail.
#[verifier::external_body]
fn serde_quote(s: &str) -> (r: String)
    ensures
        r@ == quote(s@),
{
    match serde_json::to_string(s) {
        Ok(text) => text,
        Err(error) => error.to_string(),
    }
}

/// Appends the JSON string literal of `s`.
pub fn write_quoted(s: &[char], out: &mut Vec<char>)
    ensures
        final(out)@ == old(out)@ + quote(s@),
{
    let text = string_of(s);
    let quoted = serde_quote(text.as_str());
    append_chars(out, chars_of(quoted.as_str()).as_slice());
}

/// Appends the compact JSON text of a value.
#[verifier::loop_isolation(false)]
pub fn write_json(v: &Json, out: &mut Vec<char>)
    ensures
        final(out)@ == old(out)@ + json_text(v.jv()),
    decreases v,
{
    let ghost start = out@;
    match v {
        Json::Null => {
            out.push('n');
            out.push('u');
            out.push('l');
            out.push('l');
            assert(out@ =~= start + json_text(v.jv()));
        },
        Json::Bool(b) => {
            if *b {
                out.push('t');
                out.push('r');
                out.push('u');
                out.push('e');
            } else {
                out.push('f');
                out.push('a');
                out.push('l');
                out.push('s');
                out.push('e');
            }
            assert(out@ =~= start + json_text(v.jv()));
        },
        Json::UInt(n) => {
            append_chars(out, decimal_chars(*n).as_slice());
        },
        Json::NegInt(n) => {
            append_chars(out, crate::text::signed_decimal_chars(*n).as_slice());
        },
        Json::Float(t) => {
            append_chars(out, chars_of(t.as_str()).as_slice());
        },
        Json::Str(s) => {
            write_quoted(chars_of(s.as_str()).as_slice(), out);
        },
        Json::Arr(items) => {
            proof {
                lemma_arr_view(*items);
            }
            out.push('[');
            write_items(items, out);
            out.push(']');
            assert(out@ =~= start + json_text(v.jv()));
        },
        Json::Obj(es) => {
            proof {
                lemma_obj_view(*es);
            }
            out.push('{');
            write_entries(es, out);
            out.push('}');
            assert(out@ =~= start + json_text(v.jv()));
        },
    }
}

#[verifier::loop_isolation(false)]
fn write_items(items: &Vec<Json>, out: &mut Vec<char>)
    ensures
        final(out)@ == old(out)@ + items_text(items_view(items@)),
    decreases items,
{
    let ghost start = out@;
    let ghost iv = items_view(items@);
    let mut i: usize = 0;
    assert(iv.take(0) =~= Seq::<JsonV>::empty());
    assert(out@ =~= start + items_text(iv.take(0)));
    while i < items.len()
        invariant
            i <= items.len(),
            out@ == start + items_text(iv.take(i as int)),
        decreases items.len() - i,
    {
        proof {
            assert(decreases_to!(items => items@));
            assert(decreases_to!(items@ => items@[i as int]));
        }
        let ghost t = iv.take(i + 1);
        assert(t.drop_last() =~= iv.take(i as int));
        assert(t.last() == items@[i as int].jv());
        if i > 0 {
            out.push(',');
        }
        write_json(&items[i], out);
        i = i + 1;
        assert(out@ =~= start + items_text(iv.take(i as int)));
    }
    assert(iv.take(items.len() as int) =~= iv);
}

#[verifier::loop_isolation(false)]
fn write_entries(es: &Vec<(String, Json)>, out: &mut Vec<char>)
    ensures
        final(out)@ == old(out)@ + entries_text(entries_view(es@)),
    decreases es,
{
    let ghost start = out@;
    let ghost ev = entries_view(es@);
    let mut i: usize = 0;
    assert(ev.take(0) =~= Seq::<(Seq<char>, JsonV)>::empty());
    assert(out@ =~= start + entries_text(ev.take(0)));
    while i < es.len()
        invariant
            i <= es.len(),
            out@ == start + entries_text(ev.take(i as int)),
        decreases es.len() - i,
    {
        proof {
            assert(decreases_to!(es => es@));
            assert(decreases_to!(es@ => es@[i as int]));
            assert(decreases_to!(es@[i as int] => es@[i as int].1));
        }
        let ghost t = ev.take(i + 1);
        assert(t.drop_last() =~= ev.take(i as int));
        assert(t.last() == (es@[i as int].0@, es@[i as int].1.jv()));
        if i > 0 {
            out.push(',');
        }
        write_quoted(chars_of(es[i].0.as_str()).as_slice(), out);
        out.push(':');
        write_json(&es[i].1, out);
        i = i + 1;
        assert(out@ =~= start + entries_text(ev.take(i as int)));
    }
    assert(ev.take(es.len() as int) =~= ev);
}

/// `serde_json::to_string` of a value.
pub fn to_json_string(v: &Json) -> (r: String)
    ensures
        r@ == json_text(v.jv()),
{
    let mut out: Vec<char> = Vec::new();
    write_json(v, &mut out);
    assert(out@ =~= json_text(v.jv()));
    string_of(out.as_slice())
}

/// `serde_json::Map::remove` of every entry under `key`; see [`remove_entry`].
pub fn remove_key(es: &mut Vec<(String, Json)>, key: &str)
    ensures
        entries_view(final(es)@) == remove_entry(entries_view(old(es)@), key@),
{
    let k = chars_of(key);
    let ghost ev = entries_view(es@);
    let mut i: usize = 0;
    let ghost mut j: int = 0;
    assert(ev.skip(0) =~= ev);
    assert(entries_view(es@).take(0) + remove_entry(ev.skip(0), key@) =~= remove_entry(ev, key@));
    assert(entries_view(es@).skip(0) =~= ev.skip(0));
    while i < es.len()
        invariant
            0 <= i <= es@.len(),
            0 <= j <= ev.len(),
            ev == entries_view(old(es)@),
            entries_view(es@).skip(i as int) == ev.skip(j),
            entries_view(es@).take(i as int) + remove_entry(ev.skip(j), key@) == remove_entry(ev, key@),
            k@ == key@,
        decreases es.len() - i,
    {
        let ghost t = ev.skip(j);
        let ghost cur = entries_view(es@);
        assert(cur.skip(i as int)[0] == cur[i as int]);
        assert(t.drop_first() =~= ev.skip(j + 1));
        let ek = chars_of(es[i].0.as_str());
        if same_chars(ek.as_slice(), k.as_slice()) {
            es.remove(i);
            proof {
                let nv = entries_view(es@);
                assert(nv.take(i as int) =~= cur.take(i as int));
                assert(nv.skip(i as int) =~= cur.skip(i + 1));
                assert(cur.skip(i + 1) =~= cur.skip(i as int).drop_first());
                j = j + 1;
            }
        } else {
            proof {
                assert(cur.take(i + 1) =~= cur.take(i as int) + seq![cur[i as int]]);
                assert(cur.skip(i + 1) =~= cur.skip(i as int).drop_first());
                j = j + 1;
            }
            i = i + 1;
        }
    }
    proof {
        let cur = entries_view(es@);
        assert(cur.skip(i as int) =~= Seq::<(Seq<char>, JsonV)>::empty());
        assert(ev.skip(j).len() == 0);
        assert(cur.take(i as int) =~= cur);
    }
}

/// `serde_json::Value`, carried through unread.
#[verifier::external_type_specification]
#[verifier::external_body]
pub struct ExJsonValue(serde_json::Value);

/// What `serde_json` makes of `text`: the document it parses, or the text
/// of the error it reports.
pub uninterp spec fn parsed_json(text: Seq<char>) -> Result<JsonV, Seq<char>>;

/// The document parsed from `text`, if it is one.
pub open spec fn json_doc(text: Seq<char>) -> Option<JsonV> {
    match parsed_json(text) {
        Ok(v) => Some(v),
        Err(_) => None,
    }
}

/// Turns a `serde_json::Value` into a [`Json`] variant by variant: integers
/// that fit `u64` become [`Json::UInt`], other integers [`Json::NegInt`],
/// other numbers their text; object entries keep the map's (key) order.
#[verifier::external_body]
fn json_from_value(v: serde_json::Value) -> Json {
    match v {
        serde_json::Value::Null => Json::Null,
        serde_json::Value::Bool(b) => Json::Bool(b),
        serde_json::Value::Number(n) => match (n.as_u64(), n.as_i64()) {
            (Some(u), _) => Json::UInt(u),
            (None, Some(i)) => Json::NegInt(i),
            _ => Json::Float(n.to_string()),
        },
        serde_json::Value::String(s) => Json::Str(s),
        serde_json::Value::Array(a) => Json::Arr(a.into_iter().map(json_from_value).collect()),
        serde_json::Value::Object(o) => Json::Obj(o.into_iter().map(|(k, x)| (k, json_from_value(x))).collect()),
    }
}

/// `serde_json::from_str::<serde_json::Value>(text)`, the document taken as a
/// [`Json`] and the error as its text. Which texts parse, to what, and the
/// error reported otherwise, are the named [`parsed_json`].
#[verifier::external_body]
fn serde_parse(text: &str) -> (r: Result<Json, String>)
    ensures
        r matches Ok(j) ==> (parsed_json(text@) matches Ok(v) && v == j.jv()),
        r matches Err(e) ==> (parsed_json(text@) matches Err(m) && m == e@),
{
    match serde_json::from_str::<serde_json::Value>(text) {
        Ok(v) => Ok(json_from_value(v)),
        Err(error) => Err(error.to_string()),
    }
}

/// The JSON document `text` holds, or the text of the parse error; see
/// [`parsed_json`].
pub fn parse_json(text: &str) -> (r: Result<Json, String>)
    ensures
        r matches Ok(j) ==> (parsed_json(text@) matches Ok(v) && v == j.jv()),
        r matches Err(e) ==> (parsed_json(text@) matches Err(m) && m == e@),
{
    serde_parse(text)
}

/// The document parsed from `text`, if it is one; see [`json_doc`].
pub fn parse_json_doc(text: &str) -> (r: Option<Json>)
    ensures
        r matches Some(j) ==> json_doc(text@) == Some(j.jv()),
        r is None ==> json_doc(text@) is None,
{
    match parse_json(text) {
        Ok(j) => Some(j),
        Err(_) => None,
    }
}

/// A copy of object entries.
pub fn copy_entries(es: &Vec<(String, Json)>) -> (r: Vec<(String, Json)>)
    ensures
        entries_view(r@) == entries_view(es@),
{
    let ghost ev = entries_view(es@);
    let mut out: Vec<(String, Json)> = Vec::new();
    let mut i: usize = 0;
    while i < es.len()
        invariant
            i <= es.len(),
            ev == entries_view(es@),
            entries_view(out@) == ev.take(i as int),
        decreases es.len() - i,
    {
        let ghost before = entries_view(out@);
        out.push((es[i].0.clone(), es[i].1.duplicate()));
        assert(entries_view(out@) =~= before.push(ev[i as int]));
        assert(ev.take(i + 1) =~= ev.take(i as int).push(ev[i as int]));
        i = i + 1;
    }
    assert(ev.take(es.len() as int) =~= ev);
    out
}

} // verus!
