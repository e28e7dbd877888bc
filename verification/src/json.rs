//! JSON values, and their text by way of `serde_json`.
use vstd::prelude::*;
use vstd::string::{StrSliceExecFns, StringExecFns};

use crate::text::{
    digit, digit_char, digits, digits_spell, digits_value, push_digits, text_len,
};

verus! {

/// `serde_json::Number`: a JSON number. The library carries fractions in it.
#[verifier::external_type_specification]
#[verifier::external_body]
pub struct ExNumber(serde_json::Number);

/// `serde_json::Value`: a parsed JSON text.
#[verifier::external_type_specification]
#[verifier::external_body]
pub struct ExValue(serde_json::Value);

/// `serde_json::Error`: why a text is no JSON.
#[verifier::external_type_specification]
#[verifier::external_body]
pub struct ExError(serde_json::Error);

/// A JSON value.
#[derive(Debug, PartialEq, Eq)]
pub enum Json {
    Null,
    Bool(bool),
    /// A whole number from 0 on.
    Uint(u64),
    /// A whole number below 0.
    Int(i64),
    /// Any other number.
    Real(serde_json::Number),
    Str(String),
    Arr(Vec<Json>),
    /// The members in order.
    Obj(Vec<(String, Json)>),
}

/// A JSON value, mathematically.
pub enum JsonModel {
    Null,
    Bool(bool),
    Uint(u64),
    Int(i64),
    Real(serde_json::Number),
    Str(Seq<char>),
    Arr(Seq<JsonModel>),
    Obj(Seq<(Seq<char>, JsonModel)>),
}

/// The models of a sequence of values.
pub open spec fn json_models(v: Seq<Json>) -> Seq<JsonModel> {
    Seq::new(v.len(), |i: int| v[i].model())
}

/// The models of the members of an object.
pub open spec fn member_models(v: Seq<(String, Json)>) -> Seq<(Seq<char>, JsonModel)> {
    Seq::new(v.len(), |i: int| (v[i].0@, v[i].1.model()))
}

impl Json {
    pub closed spec fn model(&self) -> JsonModel
        decreases self,
    {
        match self {
            Json::Null => JsonModel::Null,
            Json::Bool(b) => JsonModel::Bool(*b),
            Json::Uint(n) => JsonModel::Uint(*n),
            Json::Int(n) => JsonModel::Int(*n),
            Json::Real(n) => JsonModel::Real(*n),
            Json::Str(s) => JsonModel::Str(s@),
            Json::Arr(v) => JsonModel::Arr(
                Seq::new(
                    v@.len(),
                    |i: int|
                        if 0 <= i < v@.len() {
                            v@[i].model()
                        } else {
                            JsonModel::Null
                        },
                ),
            ),
            Json::Obj(v) => JsonModel::Obj(
                Seq::new(
                    v@.len(),
                    |i: int|
                        if 0 <= i < v@.len() {
                            (v@[i].0@, v@[i].1.model())
                        } else {
                            (Seq::empty(), JsonModel::Null)
                        },
                ),
            ),
        }
    }

    /// What the model of a value is, by its kind.
    pub proof fn model_of_kind(&self)
        ensures
            match self {
                Json::Null => self.model() == JsonModel::Null,
                Json::Bool(b) => self.model() == JsonModel::Bool(*b),
                Json::Uint(n) => self.model() == JsonModel::Uint(*n),
                Json::Int(n) => self.model() == JsonModel::Int(*n),
                Json::Real(n) => self.model() == JsonModel::Real(*n),
                Json::Str(s) => self.model() == JsonModel::Str(s@),
                Json::Arr(v) => self.model() == JsonModel::Arr(json_models(v@)),
                Json::Obj(v) => self.model() == JsonModel::Obj(member_models(v@)),
            },
    {
        match self {
            Json::Arr(v) => {
                assert(self.model()->Arr_0 =~= json_models(v@));
            },
            Json::Obj(v) => {
                assert(self.model()->Obj_0 =~= member_models(v@));
            },
            _ => {},
        }
    }
}

/// What `as_u64` returns for a `serde_json::Number`.
pub uninterp spec fn number_u64(n: serde_json::Number) -> Option<u64>;

/// What `as_i64` returns for a `serde_json::Number`.
pub uninterp spec fn number_i64(n: serde_json::Number) -> Option<i64>;

/// `serde_json::Number::as_u64`: the number, if it is whole, not negative and fits.
pub assume_specification[ serde_json::Number::as_u64 ](n: &serde_json::Number) -> (r: Option<u64>)
    ensures
        r == number_u64(*n),
;

/// `serde_json::Number::as_i64`: the number, if it is whole and fits. One that `as_u64` does not
/// return is negative then.
pub assume_specification[ serde_json::Number::as_i64 ](n: &serde_json::Number) -> (r: Option<i64>)
    ensures
        r == number_i64(*n),
        number_u64(*n) is None && r is Some ==> r->Some_0 < 0,
;

/// Whether a number is neither of the whole kinds.
pub open spec fn number_is_real(n: serde_json::Number) -> bool {
    number_u64(n) is None && number_i64(n) is None
}

/// The value that a number is.
pub open spec fn number_json(n: serde_json::Number) -> JsonModel {
    match (number_u64(n), number_i64(n)) {
        (Some(u), _) => JsonModel::Uint(u),
        (None, Some(i)) => JsonModel::Int(i),
        (None, None) => JsonModel::Real(n),
    }
}

/// The text that `serde_json` writes for a number.
pub uninterp spec fn number_text(n: serde_json::Number) -> Seq<char>;

/// The value that a `serde_json::Value` holds.
pub uninterp spec fn value_json(v: serde_json::Value) -> JsonModel;

/// The value that `serde_json` reads out of a text, `None` where the text is no JSON.
pub uninterp spec fn parsed(text: Seq<char>) -> Option<JsonModel>;

/// The compact text that `serde_json` writes for a value.
pub uninterp spec fn rendered(j: JsonModel) -> Seq<char>;

/// The key that `serde_json` keeps for raw values. An object that begins with it is not read as an
/// object.
pub open spec fn raw_key() -> Seq<char> {
    "$serde_json::private::RawValue"@
}

/// Whether the first of some members has the key that is kept for raw values.
pub open spec fn begins_raw(m: Seq<(Seq<char>, JsonModel)>) -> bool {
    m.len() > 0 && m[0].0 == raw_key()
}

/// A short key is not the one that is kept for raw values.
pub proof fn short_keys_are_free(m: Seq<(Seq<char>, JsonModel)>)
    requires
        m.len() > 0 ==> m[0].0.len() <= 10,
    ensures
        !begins_raw(m),
{
    reveal_strlit("$serde_json::private::RawValue");
}

/// Whether a fraction is read back from its text as it is.
pub open spec fn number_reads_back(n: serde_json::Number) -> bool {
    parsed(number_text(n)) == Some(JsonModel::Real(n))
}

impl JsonModel {
    /// The form that a parsed text has: numbers are in the kind they belong to, and no object
    /// has a member twice.
    pub open spec fn canonical(self) -> bool
        decreases self,
    {
        match self {
            JsonModel::Int(n) => n < 0,
            JsonModel::Real(n) => number_is_real(n),
            JsonModel::Arr(s) => forall|i: int| #![trigger s[i]] 0 <= i < s.len() ==> s[i].canonical(),
            JsonModel::Obj(m) => {
                &&& forall|i: int| #![trigger m[i]] 0 <= i < m.len() ==> m[i].1.canonical()
                &&& forall|i: int, j: int|
                    #![trigger m[i], m[j]]
                    0 <= i < j < m.len() ==> m[i].0 != m[j].0
            },
            _ => true,
        }
    }

    /// The text of the value can be read back: each fraction in it is read back from its own text,
    /// no object begins with the key that is kept for raw values, and the arrays and objects are
    /// nested at most `depth` deep.
    pub open spec fn safe_within(self, depth: nat) -> bool
        decreases self,
    {
        match self {
            JsonModel::Real(n) => number_reads_back(n),
            JsonModel::Arr(s) => depth > 0 && forall|i: int|
                #![trigger s[i]]
                0 <= i < s.len() ==> s[i].safe_within((depth - 1) as nat),
            JsonModel::Obj(m) => depth > 0 && !begins_raw(m) && forall|i: int|
                #![trigger m[i]]
                0 <= i < m.len() ==> m[i].1.safe_within((depth - 1) as nat),
            _ => true,
        }
    }
}

/// The nesting from which on `serde_json` no longer reads a text.
pub const DEPTH_LIMIT: u8 = 127;

/// The value that a number is.
fn from_number(n: &serde_json::Number) -> (r: Json)
    ensures
        r.model() == number_json(*n),
        is_number(r.model()),
{
    let r = match (n.as_u64(), n.as_i64()) {
        (Some(u), _) => Json::Uint(u),
        (None, Some(i)) => Json::Int(i),
        (None, None) => Json::Real(copy_number(n)),
    };
    proof {
        r.model_of_kind();
    }
    r
}

/// Copies a `serde_json::Value` node by node. A `Map` never holds a key twice.
#[verifier::external_body]
fn from_value(v: &serde_json::Value) -> (r: Json)
    ensures
        r.model() == value_json(*v),
        r.model().canonical(),
{
    match v {
        serde_json::Value::Null => Json::Null,
        serde_json::Value::Bool(b) => Json::Bool(*b),
        serde_json::Value::Number(n) => from_number(n),
        serde_json::Value::String(s) => Json::Str(s.clone()),
        serde_json::Value::Array(a) => Json::Arr(a.iter().map(from_value).collect()),
        serde_json::Value::Object(o) => Json::Obj(
            o.iter().map(|(k, v)| (k.clone(), from_value(v))).collect(),
        ),
    }
}

/// Copies a value into a `serde_json::Value` node by node. With the `preserve_order` feature
/// a `Map` keeps its members in the order they came in.
#[verifier::external_body]
fn to_value(j: &Json) -> (r: serde_json::Value)
    requires
        j.model().canonical(),
    ensures
        value_json(r) == j.model(),
{
    match j {
        Json::Null => serde_json::Value::Null,
        Json::Bool(b) => serde_json::Value::Bool(*b),
        Json::Uint(n) => serde_json::Value::from(*n),
        Json::Int(n) => serde_json::Value::from(*n),
        Json::Real(n) => serde_json::Value::Number(n.clone()),
        Json::Str(s) => serde_json::Value::String(s.clone()),
        Json::Arr(a) => serde_json::Value::Array(a.iter().map(to_value).collect()),
        Json::Obj(o) => serde_json::Value::Object(
            o.iter().map(|(k, v)| (k.clone(), to_value(v))).collect(),
        ),
    }
}

/// Calls `serde_json::from_str`. The result depends on the text alone. A number with six digits
/// behind the point is read, and as one that is not of the whole kinds. All its digits fit the
/// fraction of a double, so the number is the double nearest to the text, and its own text, the
/// shortest that stands for it, is read as the same double again.
#[verifier::external_body]
fn parse_value(text: &str) -> (r: Result<serde_json::Value, serde_json::Error>)
    ensures
        r is Ok <==> parsed(text@) is Some,
        r is Ok ==> parsed(text@) == Some(value_json(r->Ok_0)),
        forall|ones: nat, millionths: nat|
            #![trigger fraction_text(ones, millionths)]
            ones <= u32::MAX && millionths < 1_000_000 && text@ == fraction_text(ones, millionths)
                ==> r is Ok && value_json(r->Ok_0) is Real && number_reads_back(
                value_json(r->Ok_0)->Real_0,
            ),
{
    serde_json::from_str(text)
}

/// The `Display` of a `serde_json::Value`, which writes the compact form. The text depends on
/// the value alone, and reading it gives the value back. Left out of that are fractions that are
/// read back rounded, objects that begin with the key that `serde_json` keeps for raw values, which
/// are read as what that key holds, and a nesting that is not read at all. Numbers are written as
/// they are by themselves.
#[verifier::external_body]
fn render_value(v: &serde_json::Value) -> (r: String)
    ensures
        r@ == rendered(value_json(*v)),
        value_json(*v).safe_within(DEPTH_LIMIT as nat) ==> parsed(r@) == Some(value_json(*v)),
{
    format!("{v}")
}

/// The `Display` of `serde_json::Number`. The text depends on the number alone.
#[verifier::external_body]
fn write_number(n: &serde_json::Number) -> (r: String)
    ensures
        r@ == number_text(*n),
{
    format!("{n}")
}

/// The `Clone` of `serde_json::Number`.
#[verifier::external_body]
fn copy_number(n: &serde_json::Number) -> (r: serde_json::Number)
    ensures
        r == *n,
{
    n.clone()
}

/// Reads a JSON text.
pub fn parse(text: &str) -> (r: Option<Json>)
    ensures
        r is Some <==> parsed(text@) is Some,
        r is Some ==> parsed(text@) == Some((r->Some_0).model()) && (r->Some_0).model().canonical(),
{
    match parse_value(text) {
        Ok(v) => Some(from_value(&v)),
        Err(_) => None,
    }
}

/// Writes a value as compact JSON text.
pub fn render(j: &Json) -> (r: String)
    requires
        j.model().canonical(),
    ensures
        r@ == rendered(j.model()),
        j.model().safe_within(DEPTH_LIMIT as nat) ==> parsed(r@) == Some(j.model()),
{
    let v = to_value(j);
    render_value(&v)
}

/// A number in a frame that need not be whole, kept as it stands in JSON.
#[derive(Debug, PartialEq, Eq)]
pub struct Extent {
    value: Json,
}

impl Extent {
    #[verifier::type_invariant]
    spec fn is_number(self) -> bool {
        is_number(self.value.model())
    }
}

/// Whether a value is a number.
pub open spec fn is_number(j: JsonModel) -> bool {
    (j is Uint || j is Int || j is Real) && j.canonical()
}

impl View for Extent {
    type V = JsonModel;

    closed spec fn view(&self) -> JsonModel {
        self.value.model()
    }
}

/// The text of a number without a fraction that is zero.
pub open spec fn trimmed(t: Seq<char>) -> Seq<char> {
    if t == "-0.0"@ {
        "0"@
    } else if t.len() >= 2 && t[t.len() - 2] == '.' && t.last() == '0' {
        t.take(t.len() - 2)
    } else {
        t
    }
}

/// A number as text. Whether a whole number is written with a fraction makes no difference.
pub open spec fn size_text(j: JsonModel) -> Seq<char> {
    match j {
        JsonModel::Uint(n) => digits(n as nat),
        JsonModel::Int(n) => "-"@ + digits(-(n as int) as nat),
        JsonModel::Real(n) => trimmed(number_text(n)),
        _ => Seq::empty(),
    }
}

/// Whether two numbers are the same.
pub open spec fn same_extent(a: JsonModel, b: JsonModel) -> bool {
    size_text(a) == size_text(b)
}

/// The six digits of a number of millionths.
pub open spec fn six_digits(n: nat) -> Seq<char> {
    seq![
        digit(n / 100_000 % 10),
        digit(n / 10_000 % 10),
        digit(n / 1_000 % 10),
        digit(n / 100 % 10),
        digit(n / 10 % 10),
        digit(n % 10),
    ]
}

/// A number of ones and millionths as text.
pub open spec fn fraction_text(ones: nat, millionths: nat) -> Seq<char> {
    digits(ones) + "."@ + six_digits(millionths)
}

/// How many cells some pixels take: the quotient, to the millionth, and one at least.
pub open spec fn cells_drawn(px: u32, cell: u16) -> JsonModel {
    let ones = px as int / cell as int;
    let rest = px as int % cell as int;
    if px <= cell {
        JsonModel::Uint(1)
    } else if rest == 0 {
        JsonModel::Uint(ones as u64)
    } else {
        parsed(fraction_text(ones as nat, (rest * 1_000_000 / cell as int) as nat))->Some_0
    }
}

fn push_six_digits(out: &mut String, n: u32)
    requires
        n < 1_000_000,
    ensures
        final(out)@ == old(out)@ + six_digits(n as nat),
{
    out.push(digit_char((n / 100_000 % 10) as u64));
    out.push(digit_char((n / 10_000 % 10) as u64));
    out.push(digit_char((n / 1_000 % 10) as u64));
    out.push(digit_char((n / 100 % 10) as u64));
    out.push(digit_char((n / 10 % 10) as u64));
    out.push(digit_char((n % 10) as u64));
    proof {
        assert(out@ =~= old(out)@ + six_digits(n as nat));
    }
}

fn trim_number(t: String) -> (r: String)
    ensures
        r@ == trimmed(t@),
{
    let mut zero: String = String::new();
    zero.append("-0.0");
    proof {
        assert(zero@ =~= "-0.0"@);
    }
    let mut r: String = String::new();
    if t == zero {
        r.append("0");
        proof {
            assert(r@ =~= "0"@);
        }
        return r;
    }
    let n: usize = text_len(&t);
    if n < 2 || t.as_str().get_char(n - 2) != '.' || t.as_str().get_char(n - 1) != '0' {
        return t;
    }
    for i in 0..n - 2
        invariant
            n == t@.len(),
            n >= 2,
            r@ =~= t@.take(i as int),
    {
        r.push(t.as_str().get_char(i));
    }
    r
}

impl Extent {
    /// A number in JSON form.
    pub fn new(n: &serde_json::Number) -> (r: Extent)
        ensures
            r@ == number_json(*n),
            is_number(r@),
    {
        Extent { value: from_number(n) }
    }

    /// A whole number.
    pub fn whole(n: u64) -> (r: Extent)
        ensures
            r@ == JsonModel::Uint(n),
    {
        let value = Json::Uint(n);
        proof {
            value.model_of_kind();
        }
        Extent { value }
    }

    /// The number that a JSON value is.
    pub fn read(j: &Json) -> (r: Option<Extent>)
        requires
            j.model().canonical(),
        ensures
            r is Some <==> is_number(j.model()),
            r is Some ==> (r->Some_0)@ == j.model(),
    {
        proof {
            j.model_of_kind();
        }
        let value = match j {
            Json::Uint(n) => Json::Uint(*n),
            Json::Int(n) => Json::Int(*n),
            Json::Real(n) => Json::Real(copy_number(n)),
            _ => {
                return None;
            },
        };
        proof {
            value.model_of_kind();
        }
        Some(Extent { value })
    }

    /// The number as a JSON value.
    pub fn to_json(&self) -> (r: Json)
        ensures
            r.model() == self@,
            is_number(self@),
    {
        proof {
            use_type_invariant(self);
            self.value.model_of_kind();
        }
        let r = match &self.value {
            Json::Uint(n) => Json::Uint(*n),
            Json::Int(n) => Json::Int(*n),
            Json::Real(n) => Json::Real(copy_number(n)),
            _ => Json::Null,
        };
        proof {
            r.model_of_kind();
        }
        r
    }

    pub fn copy(&self) -> (r: Extent)
        ensures
            r@ == self@,
    {
        let value = self.to_json();
        Extent { value }
    }

    /// How many cells some pixels take.
    pub fn of_pixels(px: u32, cell: u16) -> (r: Extent)
        requires
            cell > 0,
        ensures
            r@ == cells_drawn(px, cell),
            is_number(r@),
            px > cell && px as int % cell as int != 0 ==> r@ is Real,
            r@.safe_within(0),
    {
        if px <= cell as u32 {
            return Extent::whole(1);
        }
        let ones: u32 = px / cell as u32;
        let rest: u64 = (px % cell as u32) as u64;
        if rest == 0 {
            return Extent::whole(ones as u64);
        }
        let scaled: u64 = rest * 1_000_000;
        let millionths: u64 = scaled / cell as u64;
        proof {
            assert((scaled as int) / (cell as int) < 1_000_000) by (nonlinear_arith)
                requires
                    scaled == rest * 1_000_000,
                    rest < cell,
                    cell > 0,
            ;
        }
        let mut text: String = String::new();
        push_digits(&mut text, ones as u64);
        text.append(".");
        push_six_digits(&mut text, millionths as u32);
        proof {
            assert(text@ =~= fraction_text(ones as nat, millionths as nat));
        }
        match parse_value(text.as_str()) {
            Ok(v) => Extent { value: from_value(&v) },
            Err(_) => Extent::whole(ones as u64),
        }
    }

    /// The number as text.
    fn text(&self) -> (r: String)
        ensures
            r@ == size_text(self@),
    {
        proof {
            use_type_invariant(self);
            self.value.model_of_kind();
        }
        let mut r: String = String::new();
        match &self.value {
            Json::Uint(n) => {
                push_digits(&mut r, *n);
            },
            Json::Int(n) => {
                r.append("-");
                push_digits(&mut r, (-(*n + 1)) as u64 + 1);
            },
            Json::Real(n) => {
                return trim_number(write_number(n));
            },
            _ => {},
        }
        proof {
            assert(r@ =~= size_text(self@));
        }
        r
    }

    /// Whether two numbers are the same.
    pub fn same(&self, other: &Extent) -> (r: bool)
        ensures
            r == same_extent(self@, other@),
    {
        self.text() == other.text()
    }
}

// Members under one-letter keys.

/// The members of an object with one-letter keys.
pub open spec fn members(fields: Seq<(char, JsonModel)>) -> Seq<(Seq<char>, JsonModel)> {
    Seq::new(fields.len(), |i: int| (seq![fields[i].0], fields[i].1))
}

/// An object with one-letter keys.
pub open spec fn object(fields: Seq<(char, JsonModel)>) -> JsonModel {
    JsonModel::Obj(members(fields))
}

/// One member more, if it is to be there.
#[verifier::opaque]
pub open spec fn with_field(
    fields: Seq<(char, JsonModel)>,
    key: char,
    present: bool,
    value: JsonModel,
) -> Seq<(char, JsonModel)> {
    if present {
        fields.push((key, value))
    } else {
        fields
    }
}

/// The value of a member of an object, by its one-letter key.
pub open spec fn member(m: Seq<(Seq<char>, JsonModel)>, key: char) -> Option<JsonModel>
    decreases m.len(),
{
    if m.len() == 0 {
        None
    } else if m.last().0 == seq![key] {
        Some(m.last().1)
    } else {
        member(m.drop_last(), key)
    }
}

/// The value of a member among fields.
#[verifier::opaque]
pub open spec fn field(fields: Seq<(char, JsonModel)>, key: char) -> Option<JsonModel> {
    member(members(fields), key)
}

/// A field that was just added is found, and the others as before.
pub broadcast proof fn field_of_with_field(
    fields: Seq<(char, JsonModel)>,
    k: char,
    present: bool,
    value: JsonModel,
    key: char,
)
    ensures
        #[trigger] field(with_field(fields, k, present, value), key) == if present && k == key {
            Some(value)
        } else {
            field(fields, key)
        },
{
    reveal(with_field);
    reveal(field);
    if present {
        let m = members(fields.push((k, value)));
        assert(m.drop_last() =~= members(fields));
        assert(m.last().0 == seq![k]);
        assert(seq![k][0] == k && seq![key][0] == key);
    }
}

pub broadcast proof fn field_of_none(key: char)
    ensures
        #[trigger] field(Seq::empty(), key) is None,
{
    reveal(field);
}

/// The members of an object of fields are the fields.
pub proof fn member_of_object(fields: Seq<(char, JsonModel)>, key: char)
    ensures
        member(object(fields)->Obj_0, key) == field(fields, key),
{
    reveal(field);
}

/// A field that is not there changes nothing.
pub proof fn without_field(fields: Seq<(char, JsonModel)>, key: char, value: JsonModel)
    ensures
        with_field(fields, key, false, value) == fields,
{
    reveal(with_field);
}

/// No key stands twice among the fields, and every value is canonical.
#[verifier::opaque]
pub open spec fn good_fields(fields: Seq<(char, JsonModel)>) -> bool {
    &&& forall|i: int, j: int|
        #![trigger fields[i], fields[j]]
        0 <= i < j < fields.len() ==> fields[i].0 != fields[j].0
    &&& forall|i: int|
        #![trigger fields[i]]
        0 <= i < fields.len() ==> fields[i].1.canonical()
}

/// Every value among the fields can be read back, and is nested at most `depth` deep.
#[verifier::opaque]
pub open spec fn safe_fields(fields: Seq<(char, JsonModel)>, depth: nat) -> bool {
    forall|i: int|
        #![trigger fields[i]]
        0 <= i < fields.len() ==> fields[i].1.safe_within(depth)
}

/// No fields are good, and can be read back.
pub proof fn no_fields_are_good(depth: nat)
    ensures
        good_fields(Seq::empty()),
        safe_fields(Seq::empty(), depth),
{
    reveal(good_fields);
    reveal(safe_fields);
}

/// A field whose key is new keeps the fields good.
pub proof fn good_with_field(
    fields: Seq<(char, JsonModel)>,
    key: char,
    present: bool,
    value: JsonModel,
)
    requires
        good_fields(fields),
        field(fields, key) is None,
        present ==> value.canonical(),
    ensures
        good_fields(with_field(fields, key, present, value)),
{
    reveal(good_fields);
    reveal(with_field);
    if present {
        absent_key(fields, key);
    }
}

/// Fields that can be read back take another one.
pub proof fn safe_with_field(
    fields: Seq<(char, JsonModel)>,
    depth: nat,
    key: char,
    present: bool,
    value: JsonModel,
)
    requires
        safe_fields(fields, depth),
        present ==> value.safe_within(depth),
    ensures
        safe_fields(with_field(fields, key, present, value), depth),
{
    reveal(safe_fields);
    reveal(with_field);
}

/// An object of good fields is canonical.
pub proof fn good_object(fields: Seq<(char, JsonModel)>)
    requires
        good_fields(fields),
    ensures
        object(fields).canonical(),
{
    reveal(good_fields);
    let m = members(fields);
    assert forall|i: int, j: int|
        #![trigger m[i], m[j]]
        0 <= i < j < m.len() implies m[i].0 != m[j].0 by {
        assert(m[i].0[0] == fields[i].0);
        assert(m[j].0[0] == fields[j].0);
    }
    assert forall|i: int| #![trigger m[i]] 0 <= i < m.len() implies m[i].1.canonical() by {
        assert(m[i].1 == fields[i].1);
    }
}

/// An object of fields that can be read back can be read back, one level deeper.
pub proof fn safe_object(fields: Seq<(char, JsonModel)>, depth: nat)
    requires
        safe_fields(fields, depth),
    ensures
        object(fields).safe_within(depth + 1),
{
    reveal(safe_fields);
    let m = members(fields);
    short_keys_are_free(m);
    assert forall|i: int| #![trigger m[i]] 0 <= i < m.len() implies m[i].1.safe_within(
        depth,
    ) by {
        assert(m[i].1 == fields[i].1);
    }
}

proof fn absent_key(fields: Seq<(char, JsonModel)>, key: char)
    requires
        field(fields, key) is None,
    ensures
        forall|i: int| #![trigger fields[i]] 0 <= i < fields.len() ==> fields[i].0 != key,
    decreases fields.len(),
{
    reveal(field);
    if fields.len() > 0 {
        let m = members(fields);
        assert(m.drop_last() =~= members(fields.drop_last()));
        assert(m.last().0 == seq![fields.last().0]);
        absent_key(fields.drop_last(), key);
        assert forall|i: int| #![trigger fields[i]] 0 <= i < fields.len() implies fields[i].0
            != key by {
            if i < fields.len() - 1 {
                assert(fields.drop_last()[i] == fields[i]);
            } else {
                assert(fields.last() == fields[i]);
                if fields[i].0 == key {
                    assert(m.last().0 =~= seq![key]);
                }
            }
        }
    }
}

/// Fields being collected for an object.
pub struct Fields {
    items: Vec<(String, Json)>,
    keys: Ghost<Seq<char>>,
}

impl View for Fields {
    type V = Seq<(char, JsonModel)>;

    closed spec fn view(&self) -> Seq<(char, JsonModel)> {
        Seq::new(self.items@.len(), |i: int| (self.keys@[i], self.items@[i].1.model()))
    }
}

impl Fields {
    #[verifier::type_invariant]
    spec fn keyed(self) -> bool {
        &&& self.keys@.len() == self.items@.len()
        &&& forall|i: int|
            0 <= i < self.items@.len() ==> (#[trigger] self.items@[i]).0@ == seq![self.keys@[i]]
    }

    pub fn new() -> (r: Fields)
        ensures
            r@ == Seq::<(char, JsonModel)>::empty(),
    {
        let r = Fields { items: Vec::new(), keys: Ghost(Seq::empty()) };
        proof {
            assert(r@ =~= Seq::<(char, JsonModel)>::empty());
        }
        r
    }

    /// Adds a member.
    pub fn add_field(self, key: char, value: Json) -> (r: Fields)
        ensures
            r@ == with_field(self@, key, true, value.model()),
    {
        proof {
            reveal(with_field);
            use_type_invariant(&self);
        }
        let ghost before = self@;
        let mut items = self.items;
        let mut k: String = String::new();
        k.push(key);
        proof {
            assert(k@ =~= seq![key]);
        }
        let ghost model = value.model();
        items.push((k, value));
        let r = Fields { items, keys: Ghost(self.keys@.push(key)) };
        proof {
            assert(r@ =~= before.push((key, model)));
        }
        r
    }

    /// The object.
    pub fn into_object(self) -> (r: Json)
        ensures
            r.model() == object(self@),
    {
        proof {
            use_type_invariant(&self);
        }
        let ghost before = self@;
        let r = Json::Obj(self.items);
        proof {
            r.model_of_kind();
            assert(r.model()->Obj_0 =~= members(before));
        }
        r
    }
}

impl Json {
    /// The member of an object under a one-letter key.
    pub fn get(&self, key: char) -> (r: Option<&Json>)
        ensures
            self.model() is Obj ==> (r is Some <==> member(self.model()->Obj_0, key) is Some),
            self.model() is Obj && r is Some ==> (r->Some_0).model() == member(
                self.model()->Obj_0,
                key,
            )->Some_0,
            !(self.model() is Obj) ==> r is None,
            self.model().canonical() && r is Some ==> (r->Some_0).model().canonical(),
    {
        proof {
            self.model_of_kind();
        }
        match self {
            Json::Obj(v) => {
                let ghost m = self.model()->Obj_0;
                let mut k: String = String::new();
                k.push(key);
                proof {
                    assert(k@ =~= seq![key]);
                    assert(m.take(v@.len() as int) =~= m);
                }
                let mut i: usize = v.len();
                while i > 0
                    invariant
                        i <= v@.len(),
                        m == member_models(v@),
                        self.model() == JsonModel::Obj(m),
                        k@ == seq![key],
                        member(m, key) == member(m.take(i as int), key),
                    decreases i,
                {
                    i = i - 1;
                    proof {
                        assert(m.take(i + 1).drop_last() =~= m.take(i as int));
                        assert(m.take(i + 1).last() == m[i as int]);
                    }
                    if v[i].0 == k {
                        proof {
                            assert(m[i as int].1 == v@[i as int].1.model());
                        }
                        return Some(&v[i].1);
                    }
                }
                None
            },
            _ => None,
        }
    }

    /// The number, if this is a whole one from 0 on.
    pub fn as_uint(&self) -> (r: Option<u64>)
        ensures
            r is Some <==> self.model() is Uint,
            r is Some ==> self.model() == JsonModel::Uint(r->Some_0),
    {
        proof {
            self.model_of_kind();
        }
        match self {
            Json::Uint(n) => Some(*n),
            _ => None,
        }
    }

    pub fn is_null(&self) -> (r: bool)
        ensures
            r == (self.model() is Null),
    {
        proof {
            self.model_of_kind();
        }
        matches!(self, Json::Null)
    }

    /// A number.
    pub fn uint(n: u64) -> (r: Json)
        ensures
            r.model() == JsonModel::Uint(n),
    {
        let r = Json::Uint(n);
        proof {
            r.model_of_kind();
        }
        r
    }

    /// A number below 0.
    pub fn negative(n: i64) -> (r: Json)
        ensures
            r.model() == JsonModel::Int(n),
    {
        let r = Json::Int(n);
        proof {
            r.model_of_kind();
        }
        r
    }

    /// A string.
    pub fn string(s: String) -> (r: Json)
        ensures
            r.model() == JsonModel::Str(s@),
    {
        let r = Json::Str(s);
        proof {
            r.model_of_kind();
        }
        r
    }

    pub fn null() -> (r: Json)
        ensures
            r.model() == JsonModel::Null,
    {
        let r = Json::Null;
        proof {
            r.model_of_kind();
        }
        r
    }

    /// An array.
    pub fn array(v: Vec<Json>) -> (r: Json)
        ensures
            r.model() == JsonModel::Arr(json_models(v@)),
    {
        let r = Json::Arr(v);
        proof {
            r.model_of_kind();
        }
        r
    }

    /// The items, if this is an array.
    pub fn as_array(&self) -> (r: Option<&Vec<Json>>)
        ensures
            r is Some <==> self.model() is Arr,
            r is Some ==> self.model() == JsonModel::Arr(json_models((r->Some_0)@)),
    {
        proof {
            self.model_of_kind();
        }
        match self {
            Json::Arr(v) => Some(v),
            _ => None,
        }
    }

    /// The text, if this is a string.
    pub fn as_string(&self) -> (r: Option<&String>)
        ensures
            r is Some <==> self.model() is Str,
            r is Some ==> self.model() == JsonModel::Str((r->Some_0)@),
    {
        proof {
            self.model_of_kind();
        }
        match self {
            Json::Str(s) => Some(s),
            _ => None,
        }
    }

    /// The members, if this is an object.
    pub fn as_object(&self) -> (r: Option<&Vec<(String, Json)>>)
        ensures
            r is Some <==> self.model() is Obj,
            r is Some ==> self.model() == JsonModel::Obj(member_models((r->Some_0)@)),
    {
        proof {
            self.model_of_kind();
        }
        match self {
            Json::Obj(v) => Some(v),
            _ => None,
        }
    }
}

// Sizes in cells.

/// Pixels take their quotient in cells, and one at least: a whole number where it is one, else the
/// ones, a point and six digits, which are the largest number of millionths that is not too many.
pub proof fn pixels_are_cells(px: u32, cell: u16, k: u64)
    requires
        cell > 0,
    ensures
        px <= cell ==> cells_drawn(px, cell) == JsonModel::Uint(1),
        k >= 1 && px == k * cell ==> cells_drawn(px, cell) == JsonModel::Uint(k),
        px > cell && (forall|n: u64| px != #[trigger] (n * cell)) ==> exists|ones: nat, m: nat|
            {
                &&& cells_drawn(px, cell) == parsed(#[trigger] fraction_text(ones, m))->Some_0
                &&& m < 1_000_000
                &&& (ones * 1_000_000 + m) * cell <= px * 1_000_000 < (ones * 1_000_000 + m + 1)
                    * cell
            },
{
    let ones = px as int / cell as int;
    let rest = px as int % cell as int;
    assert(px == ones * cell + rest && 0 <= rest < cell && 0 <= ones <= px) by (nonlinear_arith)
        requires
            ones == px as int / cell as int,
            rest == px as int % cell as int,
            cell > 0,
            px >= 0,
    ;
    if k >= 1 && px == k * cell {
        assert(ones == k && rest == 0) by (nonlinear_arith)
            requires
                px == ones * cell + rest,
                px == k * cell,
                0 <= rest < cell,
        ;
        assert(px <= cell ==> k == 1) by (nonlinear_arith)
            requires
                px == k * cell,
                k >= 1,
                cell > 0,
        ;
    }
    if px > cell && (forall|n: u64| px != #[trigger] (n * cell)) {
        assert(px != (ones as u64) * cell);
        assert(rest != 0);
        let m = rest * 1_000_000 / cell as int;
        assert(m * cell <= rest * 1_000_000 < (m + 1) * cell && 0 <= m < 1_000_000) by (
            nonlinear_arith)
            requires
                m == rest * 1_000_000 / cell as int,
                0 <= rest < cell,
        ;
        assert((ones * 1_000_000 + m) * cell <= px * 1_000_000 < (ones * 1_000_000 + m + 1) * cell)
            by (nonlinear_arith)
            requires
                px == ones * cell + rest,
                m * cell <= rest * 1_000_000 < (m + 1) * cell,
        ;
        assert(cells_drawn(px, cell) == parsed(fraction_text(ones as nat, m as nat))->Some_0);
    }
}

proof fn one_digit_more(s: Seq<char>, k: nat)
    requires
        k < 10,
    ensures
        digits_value(s.push(digit(k))) == digits_value(s) * 10 + k,
{
    assert(s.push(digit(k)).drop_last() =~= s);
    assert(s.push(digit(k)).last() == digit(k));
}

/// Six digits spell a number of millionths, with zeros before it.
pub proof fn six_digits_spell(n: nat)
    requires
        n < 1_000_000,
    ensures
        six_digits(n).len() == 6,
        digits_value(six_digits(n)) == n,
{
    let (a, b, c) = (n / 100_000, n / 10_000, n / 1_000);
    let (d, e) = (n / 100, n / 10);
    let none = Seq::<char>::empty();
    let s1 = none.push(digit(a % 10));
    let s2 = s1.push(digit(b % 10));
    let s3 = s2.push(digit(c % 10));
    let s4 = s3.push(digit(d % 10));
    let s5 = s4.push(digit(e % 10));
    one_digit_more(none, a % 10);
    one_digit_more(s1, b % 10);
    one_digit_more(s2, c % 10);
    one_digit_more(s3, d % 10);
    one_digit_more(s4, e % 10);
    one_digit_more(s5, n % 10);
    assert(six_digits(n) =~= s5.push(digit(n % 10)));
    assert(digits_value(s1) == a);
    assert(digits_value(s2) == b);
    assert(digits_value(s3) == c);
    assert(digits_value(s4) == d);
    assert(digits_value(s5) == e);
}

/// Whole sizes are the same where they are equal.
pub proof fn whole_sizes_are_equal(a: u64, b: u64)
    ensures
        same_extent(JsonModel::Uint(a), JsonModel::Uint(b)) <==> a == b,
{
    digits_spell(a as nat);
    digits_spell(b as nat);
}

/// A fraction of zero is left out of a number's text, and nothing else is.
pub proof fn zero_fractions_are_left_out(t: Seq<char>)
    ensures
        t.len() >= 1 && t[0] != '-' ==> trimmed(t + seq!['.', '0']) == t,
        t.len() >= 2 && t[t.len() - 2] != '.' ==> trimmed(t) == t,
        t.len() >= 1 && t.last() != '0' ==> trimmed(t) == t,
        t.len() == 1 ==> trimmed(t) == t,
{
    reveal_strlit("-0.0");
    let s = t + seq!['.', '0'];
    if t.len() >= 1 {
        assert(s[0] == t[0]);
        assert(s.take(s.len() - 2) =~= t);
        assert("-0.0"@[0] == '-');
    }
    if t == "-0.0"@ {
        assert(t[2] == '.');
    }
}

} // verus!
