//! Records: named values as they come out of a demo's export.
use vstd::prelude::*;
use crate::floating::{integer, natural, Double};
use crate::number::{
    i64_text, int_of, int_text, law_written_numbers_read_back, parse_i64, ranged,
};
use crate::text::{same_text, views};

verus! {

/// A single value. `Natural` is for numbers above the range of `Int`, `Decimal`
/// for those with a fraction.
#[derive(Debug)]
pub enum Scalar<T> {
    Null,
    Bool(bool),
    Int(i64),
    Natural(u64),
    Decimal(Double),
    Text(T),
}

/// The value of a field: one value, a list of values, or named values of its own.
/// Of two with one name the first counts, and their order does not.
#[derive(Debug)]
pub enum Value {
    One(Scalar<String>),
    Many(Vec<Value>),
    Nested(Vec<Field>),
}

/// A named value.
#[derive(Debug)]
pub struct Field {
    pub name: String,
    pub value: Value,
}

/// Named values. Of two fields with one name the first counts.
#[derive(Debug)]
pub struct Record {
    pub fields: Vec<Field>,
}

/// What a value holds.
pub enum ValueModel {
    One(Scalar<Seq<char>>),
    Many(Seq<ValueModel>),
    Nested(Map<Seq<char>, ValueModel>),
}

/// What a record holds.
pub type RecordModel = Seq<(Seq<char>, ValueModel)>;

impl Scalar<String> {
    /// What the value holds.
    pub open spec fn model(&self) -> Scalar<Seq<char>> {
        match *self {
            Scalar::Null => Scalar::Null,
            Scalar::Bool(b) => Scalar::Bool(b),
            Scalar::Int(v) => Scalar::Int(v),
            Scalar::Natural(v) => Scalar::Natural(v),
            Scalar::Decimal(v) => Scalar::Decimal(v),
            Scalar::Text(t) => Scalar::Text(t@),
        }
    }

    /// A copy.
    pub fn copy(&self) -> (out: Scalar<String>)
        ensures
            out == *self,
    {
        match self {
            Scalar::Null => Scalar::Null,
            Scalar::Bool(b) => Scalar::Bool(*b),
            Scalar::Int(v) => Scalar::Int(*v),
            Scalar::Natural(v) => Scalar::Natural(*v),
            Scalar::Decimal(v) => Scalar::Decimal(*v),
            Scalar::Text(t) => Scalar::Text(t.clone()),
        }
    }

    /// Whether two values hold the same.
    pub fn same(&self, other: &Scalar<String>) -> (r: bool)
        ensures
            r == (self.model() == other.model()),
    {
        match (self, other) {
            (Scalar::Null, Scalar::Null) => true,
            (Scalar::Bool(a), Scalar::Bool(b)) => *a == *b,
            (Scalar::Int(a), Scalar::Int(b)) => *a == *b,
            (Scalar::Natural(a), Scalar::Natural(b)) => *a == *b,
            (Scalar::Decimal(a), Scalar::Decimal(b)) => *a == *b,
            (Scalar::Text(a), Scalar::Text(b)) => same_text(a.as_str(), b.as_str()),
            _ => false,
        }
    }
}

/// What a list of values holds.
pub open spec fn value_models(list: Seq<Value>) -> Seq<ValueModel>
    decreases list,
{
    if list.len() == 0 {
        Seq::empty()
    } else {
        value_models(list.drop_last()).push(list.last().model())
    }
}

/// What named values hold, by their names.
pub open spec fn field_models(fields: Seq<Field>) -> Map<Seq<char>, ValueModel>
    decreases fields,
{
    if fields.len() == 0 {
        Map::empty()
    } else {
        field_models(fields.skip(1)).insert(fields[0].name@, fields[0].value.model())
    }
}

/// A list holds what each of its values holds.
pub proof fn lemma_value_models(list: Seq<Value>)
    ensures
        value_models(list).len() == list.len(),
        forall|i: int|
            0 <= i < list.len() ==> #[trigger] value_models(list)[i] == list[i].model(),
    decreases list.len(),
{
    if list.len() > 0 {
        let rest = list.drop_last();
        lemma_value_models(rest);
        assert forall|i: int| 0 <= i < list.len() implies #[trigger] value_models(list)[i]
            == list[i].model() by {
            if i < rest.len() {
                assert(value_models(rest)[i] == rest[i].model());
            }
        }
    }
}

/// Whether a name is that of one of some fields, and the first with it is at a
/// place.
pub open spec fn first_named(fields: Seq<Field>, name: Seq<char>, at: int) -> bool {
    &&& 0 <= at < fields.len()
    &&& fields[at].name@ == name
    &&& forall|k: int| 0 <= k < at ==> (#[trigger] fields[k]).name@ != name
}

/// Whether no field has a name.
pub open spec fn unnamed(fields: Seq<Field>, name: Seq<char>) -> bool {
    forall|k: int| 0 <= k < fields.len() ==> (#[trigger] fields[k]).name@ != name
}

proof fn lemma_field_found(fields: Seq<Field>, name: Seq<char>, at: int)
    requires
        first_named(fields, name, at),
    ensures
        field_models(fields).dom().contains(name),
        field_models(fields)[name] == fields[at].value.model(),
    decreases fields.len(),
{
    if at > 0 {
        let rest = fields.skip(1);
        assert forall|k: int| 0 <= k < at - 1 implies (#[trigger] rest[k]).name@ != name by {
            assert(fields[k + 1].name@ != name);
        }
        assert(fields[0].name@ != name);
        lemma_field_found(rest, name, at - 1);
    }
}

proof fn lemma_field_missing(fields: Seq<Field>, name: Seq<char>)
    requires
        unnamed(fields, name),
    ensures
        !field_models(fields).dom().contains(name),
    decreases fields.len(),
{
    if fields.len() > 0 {
        let rest = fields.skip(1);
        assert forall|k: int| 0 <= k < rest.len() implies (#[trigger] rest[k]).name@ != name by {
            assert(fields[k + 1].name@ != name);
        }
        lemma_field_missing(rest, name);
        assert(fields[0].name@ != name);
    }
}

proof fn lemma_field_known(fields: Seq<Field>, name: Seq<char>) -> (at: int)
    requires
        field_models(fields).dom().contains(name),
    ensures
        first_named(fields, name, at),
    decreases fields.len(),
{
    if fields[0].name@ == name {
        0
    } else {
        let rest = fields.skip(1);
        let at = lemma_field_known(rest, name) + 1;
        assert forall|k: int| 0 <= k < at implies (#[trigger] fields[k]).name@ != name by {
            if k > 0 {
                assert(rest[k - 1].name@ != name);
            }
        }
        at
    }
}

fn find_field(fields: &Vec<Field>, name: &str) -> (out: Option<usize>)
    ensures
        match out {
            Some(at) => first_named(fields@, name@, at as int),
            None => unnamed(fields@, name@),
        },
{
    let mut i: usize = 0;
    while i < fields.len()
        invariant
            i <= fields.len(),
            forall|k: int| 0 <= k < i ==> (#[trigger] fields@[k]).name@ != name@,
        decreases fields.len() - i,
    {
        if same_text(fields[i].name.as_str(), name) {
            return Some(i);
        }
        i += 1;
    }
    None
}

fn copy_values(list: &Vec<Value>) -> (out: Vec<Value>)
    ensures
        value_models(out@) == value_models(list@),
    decreases list,
{
    let mut out: Vec<Value> = Vec::new();
    let mut i: usize = 0;
    while i < list.len()
        invariant
            i <= list.len(),
            value_models(out@) == value_models(list@.take(i as int)),
        decreases list.len() - i,
    {
        let value = list[i].copy();
        let ghost before = out@;
        out.push(value);
        proof {
            assert(out@.drop_last() =~= before);
            assert(list@.take(i + 1).drop_last() =~= list@.take(i as int));
        }
        i += 1;
    }
    assert(list@.take(list.len() as int) =~= list@);
    out
}

fn copy_fields(fields: &Vec<Field>) -> (out: Vec<Field>)
    ensures
        field_models(out@) == field_models(fields@),
    decreases fields,
{
    let mut out: Vec<Field> = Vec::new();
    let mut i: usize = 0;
    while i < fields.len()
        invariant
            i <= fields.len(),
            out.len() == i,
            forall|k: int|
                0 <= k < i ==> (#[trigger] out@[k]).name@ == fields@[k].name@ && out@[k].value.model()
                    == fields@[k].value.model(),
        decreases fields.len() - i,
    {
        out.push(Field { name: fields[i].name.clone(), value: fields[i].value.copy() });
        i += 1;
    }
    proof {
        lemma_same_fields(out@, fields@);
    }
    out
}

proof fn lemma_same_fields(a: Seq<Field>, b: Seq<Field>)
    requires
        a.len() == b.len(),
        forall|k: int|
            0 <= k < a.len() ==> (#[trigger] a[k]).name@ == b[k].name@ && a[k].value.model()
                == b[k].value.model(),
    ensures
        field_models(a) == field_models(b),
    decreases a.len(),
{
    if a.len() > 0 {
        let (x, y) = (a.skip(1), b.skip(1));
        assert forall|k: int| 0 <= k < x.len() implies (#[trigger] x[k]).name@ == y[k].name@
            && x[k].value.model() == y[k].value.model() by {
            assert(a[k + 1].name@ == b[k + 1].name@);
        }
        lemma_same_fields(x, y);
        assert(a[0].name@ == b[0].name@);
    }
}

fn same_values(a: &Vec<Value>, b: &Vec<Value>) -> (r: bool)
    ensures
        r == (value_models(a@) == value_models(b@)),
    decreases a,
{
    proof {
        lemma_value_models(a@);
        lemma_value_models(b@);
    }
    if a.len() != b.len() {
        return false;
    }
    let mut i: usize = 0;
    while i < a.len()
        invariant
            i <= a.len() == b.len(),
            value_models(a@).len() == a.len(),
            value_models(b@).len() == b.len(),
            forall|j: int| 0 <= j < a.len() ==> #[trigger] value_models(a@)[j] == a@[j].model(),
            forall|j: int| 0 <= j < b.len() ==> #[trigger] value_models(b@)[j] == b@[j].model(),
            forall|j: int| 0 <= j < i ==> value_models(a@)[j] == value_models(b@)[j],
        decreases a.len() - i,
    {
        if !a[i].same(&b[i]) {
            assert(value_models(a@)[i as int] != value_models(b@)[i as int]);
            return false;
        }
        i += 1;
    }
    assert(value_models(a@) =~= value_models(b@));
    true
}

fn same_fields(a: &Vec<Field>, b: &Vec<Field>) -> (r: bool)
    ensures
        r == (field_models(a@) == field_models(b@)),
    decreases a,
{
    let ghost (x, y) = (field_models(a@), field_models(b@));
    let mut i: usize = 0;
    while i < a.len()
        invariant
            i <= a.len(),
            x == field_models(a@),
            y == field_models(b@),
            forall|name: Seq<char>, at: int|
                first_named(a@, name, at) && at < i ==> y.dom().contains(name) && y[name]
                    == #[trigger] a@[at].value.model() && #[trigger] first_named(a@, name, at),
        decreases a.len() - i,
    {
        let first = find_field(a, a[i].name.as_str());
        if first == Some(i) {
            let ghost name = a@[i as int].name@;
            proof {
                lemma_field_found(a@, name, i as int);
            }
            match find_field(b, a[i].name.as_str()) {
                None => {
                    proof {
                        lemma_field_missing(b@, name);
                    }
                    return false;
                },
                Some(at) => {
                    proof {
                        lemma_field_found(b@, name, at as int);
                    }
                    if !a[i].value.same(&b[at].value) {
                        assert(x[name] != y[name]);
                        return false;
                    }
                },
            }
        }
        i += 1;
    }
    let mut k: usize = 0;
    while k < b.len()
        invariant
            k <= b.len(),
            x == field_models(a@),
            y == field_models(b@),
            forall|j: int| 0 <= j < k ==> x.dom().contains((#[trigger] b@[j]).name@),
        decreases b.len() - k,
    {
        match find_field(a, b[k].name.as_str()) {
            None => {
                proof {
                    lemma_field_missing(a@, b@[k as int].name@);
                    lemma_named(b@, k as int);
                }
                return false;
            },
            Some(at) => {
                proof {
                    lemma_field_found(a@, b@[k as int].name@, at as int);
                }
            },
        }
        k += 1;
    }
    proof {
        assert forall|name: Seq<char>| #[trigger] x.dom().contains(name) implies y.dom().contains(
            name,
        ) && x[name] == y[name] by {
            let at = lemma_field_known(a@, name);
            lemma_field_found(a@, name, at);
            assert(first_named(a@, name, at));
            assert(y[name] == a@[at].value.model());
        }
        assert forall|name: Seq<char>| #[trigger] y.dom().contains(name) implies x.dom().contains(
            name,
        ) by {
            let at = lemma_field_known(b@, name);
            assert(b@[at].name@ == name);
        }
        assert(x.dom() =~= y.dom());
        assert(x =~= y);
    }
    true
}

proof fn lemma_named(fields: Seq<Field>, at: int)
    requires
        0 <= at < fields.len(),
    ensures
        field_models(fields).dom().contains(fields[at].name@),
    decreases fields.len(),
{
    if at > 0 {
        lemma_named(fields.skip(1), at - 1);
    }
}

impl Value {
    /// What the value holds.
    pub open spec fn model(&self) -> ValueModel
        decreases *self,
    {
        match *self {
            Value::One(s) => ValueModel::One(s.model()),
            Value::Many(list) => ValueModel::Many(value_models(list@)),
            Value::Nested(fields) => ValueModel::Nested(field_models(fields@)),
        }
    }

    /// A copy.
    pub fn copy(&self) -> (out: Value)
        ensures
            out.model() == self.model(),
        decreases *self,
    {
        match self {
            Value::One(s) => Value::One(s.copy()),
            Value::Many(list) => Value::Many(copy_values(list)),
            Value::Nested(fields) => Value::Nested(copy_fields(fields)),
        }
    }

    /// Whether two values hold the same.
    pub fn same(&self, other: &Value) -> (r: bool)
        ensures
            r == (self.model() == other.model()),
        decreases *self,
    {
        match (self, other) {
            (Value::One(a), Value::One(b)) => a.same(b),
            (Value::Many(a), Value::Many(b)) => same_values(a, b),
            (Value::Nested(a), Value::Nested(b)) => same_fields(a, b),
            _ => false,
        }
    }
}

// ---------------------------------------------------------------------------
// Reading values
// ---------------------------------------------------------------------------

/// A truth value, where the value is one.
pub open spec fn bool_of(value: Option<ValueModel>) -> Option<bool> {
    match value {
        Some(ValueModel::One(Scalar::Bool(b))) => Some(b),
        _ => None,
    }
}

/// A whole number, where the value is one in range.
pub open spec fn whole_of(value: Option<ValueModel>) -> Option<i64> {
    match value {
        Some(ValueModel::One(Scalar::Int(v))) => Some(v),
        _ => None,
    }
}

/// A text, where the value is one.
pub open spec fn text_of(value: Option<ValueModel>) -> Option<Seq<char>> {
    match value {
        Some(ValueModel::One(Scalar::Text(t))) => Some(t),
        _ => None,
    }
}

/// The number that a value stands for: a whole number, wrapped where it is above
/// the signed range, or a text that is one.
pub open spec fn integer_of(value: Option<ValueModel>) -> Option<int> {
    match value {
        Some(ValueModel::One(Scalar::Int(v))) => Some(v as int),
        Some(ValueModel::One(Scalar::Natural(v))) => Some(wrapped(v)),
        Some(ValueModel::One(Scalar::Text(t))) => ranged(
            int_of(t),
            i64::MIN as int,
            i64::MAX as int,
        ),
        _ => None,
    }
}

/// An unsigned number read as a signed one.
pub open spec fn wrapped(v: u64) -> int {
    if v <= i64::MAX {
        v as int
    } else {
        v as int - 0x1_0000_0000_0000_0000
    }
}

/// The text that a value stands for: a text, or a whole number in decimal.
pub open spec fn shown_of(value: Option<ValueModel>) -> Option<Seq<char>> {
    match value {
        Some(ValueModel::One(Scalar::Text(t))) => Some(t),
        Some(ValueModel::One(Scalar::Int(v))) => Some(int_text(v as int)),
        _ => None,
    }
}

/// The value of a number.
pub open spec fn scalar_number(value: Scalar<Seq<char>>) -> Option<int> {
    match value {
        Scalar::Int(v) => Some(integer(v as int)),
        Scalar::Natural(v) => Some(natural(v as nat) as int),
        Scalar::Decimal(v) => Some(v.value()),
        _ => None,
    }
}

/// The value of a number, where the value is one.
pub open spec fn number_of(value: Option<ValueModel>) -> Option<int> {
    match value {
        Some(ValueModel::One(s)) => scalar_number(s),
        _ => None,
    }
}

/// The value of a number; zero for anything else.
pub open spec fn number_or_zero(value: ValueModel) -> int {
    match number_of(Some(value)) {
        Some(v) => v,
        None => 0,
    }
}

/// The values of the first three numbers of a list, where it has three values.
pub open spec fn vector_of(value: Option<ValueModel>) -> Option<(int, int, int)> {
    match value {
        Some(ValueModel::Many(list)) => if list.len() >= 3 {
            Some((number_or_zero(list[0]), number_or_zero(list[1]), number_or_zero(list[2])))
        } else {
            None
        },
        _ => None,
    }
}

/// The value of a field of a record.
pub open spec fn lookup(record: RecordModel, name: Seq<char>) -> Option<ValueModel>
    decreases record.len(),
{
    if record.len() == 0 {
        None
    } else if record[0].0 == name {
        Some(record[0].1)
    } else {
        lookup(record.skip(1), name)
    }
}

fn unsigned_wrapped(v: u64) -> (out: i64)
    ensures
        out == wrapped(v),
{
    if v <= 0x7fff_ffff_ffff_ffff {
        v as i64
    } else {
        (v - 0x8000_0000_0000_0000) as i64 - 0x7fff_ffff_ffff_ffff - 1
    }
}

fn read_number(value: &Scalar<String>) -> (out: Option<Double>)
    ensures
        match out {
            Some(v) => scalar_number(value.model()) == Some(v.value()),
            None => scalar_number(value.model()) is None,
        },
{
    match value {
        Scalar::Int(v) => Some(Double::integer(*v)),
        Scalar::Natural(v) => Some(Double::natural(*v)),
        Scalar::Decimal(v) => Some(*v),
        _ => None,
    }
}

fn read_number_or_zero(value: &Value) -> (out: Double)
    ensures
        out.value() == number_or_zero(value.model()),
{
    if let Value::One(scalar) = value {
        if let Some(v) = read_number(scalar) {
            return v;
        }
    }
    Double::zero()
}

impl Record {
    /// What the record holds.
    pub open spec fn model(&self) -> RecordModel {
        Seq::new(
            self.fields.len() as nat,
            |i: int| (self.fields[i].name@, self.fields[i].value.model()),
        )
    }

    /// A record without fields.
    pub fn new() -> (out: Record)
        ensures
            out.model() == RecordModel::empty(),
    {
        let out = Record { fields: Vec::new() };
        assert(out.model() =~= RecordModel::empty());
        out
    }

    /// Whether the record has no fields.
    pub fn is_empty(&self) -> (r: bool)
        ensures
            r == (self.model().len() == 0),
    {
        self.fields.len() == 0
    }

    /// The value of a field.
    pub fn get(&self, name: &str) -> (out: Option<&Value>)
        ensures
            match out {
                Some(v) => lookup(self.model(), name@) == Some(v.model()),
                None => lookup(self.model(), name@) is None,
            },
    {
        let mut i: usize = 0;
        assert(self.model().skip(0) =~= self.model());
        while i < self.fields.len()
            invariant
                i <= self.fields.len(),
                lookup(self.model(), name@) == lookup(self.model().skip(i as int), name@),
            decreases self.fields.len() - i,
        {
            assert(self.model().skip(i as int)[0] == self.model()[i as int]);
            if same_text(self.fields[i].name.as_str(), name) {
                return Some(&self.fields[i].value);
            }
            assert(self.model().skip(i as int).skip(1) =~= self.model().skip(i + 1));
            i += 1;
        }
        None
    }

    /// The truth value of a field.
    pub fn flag(&self, name: &str) -> (out: Option<bool>)
        ensures
            out == bool_of(lookup(self.model(), name@)),
    {
        match self.get(name) {
            Some(Value::One(Scalar::Bool(b))) => Some(*b),
            _ => None,
        }
    }

    /// Whether a field is there and true.
    pub fn is_set(&self, name: &str) -> (out: bool)
        ensures
            out == (bool_of(lookup(self.model(), name@)) == Some(true)),
    {
        match self.get(name) {
            Some(Value::One(Scalar::Bool(b))) => *b,
            _ => false,
        }
    }

    /// The whole number of a field.
    pub fn whole(&self, name: &str) -> (out: Option<i64>)
        ensures
            out == whole_of(lookup(self.model(), name@)),
    {
        match self.get(name) {
            Some(Value::One(Scalar::Int(v))) => Some(*v),
            _ => None,
        }
    }

    /// The number that a field stands for.
    pub fn integer(&self, name: &str) -> (out: Option<i64>)
        ensures
            match out {
                Some(v) => integer_of(lookup(self.model(), name@)) == Some(v as int),
                None => integer_of(lookup(self.model(), name@)) is None,
            },
    {
        match self.get(name) {
            Some(Value::One(Scalar::Int(v))) => Some(*v),
            Some(Value::One(Scalar::Natural(v))) => Some(unsigned_wrapped(*v)),
            Some(Value::One(Scalar::Text(t))) => parse_i64(t.as_str()),
            _ => None,
        }
    }

    /// The text of a field.
    pub fn string(&self, name: &str) -> (out: Option<&String>)
        ensures
            match out {
                Some(t) => text_of(lookup(self.model(), name@)) == Some(t@),
                None => text_of(lookup(self.model(), name@)) is None,
            },
    {
        match self.get(name) {
            Some(Value::One(Scalar::Text(t))) => Some(t),
            _ => None,
        }
    }

    /// The text that a field stands for.
    pub fn shown(&self, name: &str) -> (out: Option<String>)
        ensures
            match out {
                Some(t) => shown_of(lookup(self.model(), name@)) == Some(t@),
                None => shown_of(lookup(self.model(), name@)) is None,
            },
    {
        match self.get(name) {
            Some(Value::One(Scalar::Text(t))) => Some(t.clone()),
            Some(Value::One(Scalar::Int(v))) => Some(i64_text(*v)),
            _ => None,
        }
    }

    /// The number of a field.
    pub fn number(&self, name: &str) -> (out: Option<Double>)
        ensures
            match out {
                Some(v) => number_of(lookup(self.model(), name@)) == Some(v.value()),
                None => number_of(lookup(self.model(), name@)) is None,
            },
    {
        match self.get(name) {
            Some(Value::One(s)) => read_number(s),
            _ => None,
        }
    }

    /// The first three numbers of a field.
    pub fn vector(&self, name: &str) -> (out: Option<(Double, Double, Double)>)
        ensures
            match out {
                Some(v) => vector_of(lookup(self.model(), name@)) == Some(
                    (v.0.value(), v.1.value(), v.2.value()),
                ),
                None => vector_of(lookup(self.model(), name@)) is None,
            },
    {
        match self.get(name) {
            Some(Value::Many(list)) => {
                proof {
                    lemma_value_models(list@);
                }
                if list.len() < 3 {
                    return None;
                }
                proof {
                    assert(value_models(list@)[0] == list@[0].model());
                    assert(value_models(list@)[1] == list@[1].model());
                    assert(value_models(list@)[2] == list@[2].model());
                }
                Some(
                    (
                        read_number_or_zero(&list[0]),
                        read_number_or_zero(&list[1]),
                        read_number_or_zero(&list[2]),
                    ),
                )
            },
            _ => None,
        }
    }

    /// A copy.
    pub fn copy(&self) -> (out: Record)
        ensures
            out.model() == self.model(),
    {
        let mut fields: Vec<Field> = Vec::new();
        let mut i: usize = 0;
        while i < self.fields.len()
            invariant
                i <= self.fields.len(),
                fields.len() == i,
                forall|j: int|
                    0 <= j < i ==> (#[trigger] fields[j]).name@ == self.fields[j].name@
                        && fields[j].value.model() == self.fields[j].value.model(),
            decreases self.fields.len() - i,
        {
            fields.push(
                Field { name: self.fields[i].name.clone(), value: self.fields[i].value.copy() },
            );
            i += 1;
        }
        let out = Record { fields };
        assert(out.model() =~= self.model());
        out
    }

    /// Whether two records hold the same fields in the same order.
    pub fn same(&self, other: &Record) -> (r: bool)
        ensures
            r == (self.model() == other.model()),
    {
        if self.fields.len() != other.fields.len() {
            assert(self.model().len() != other.model().len());
            return false;
        }
        let mut i: usize = 0;
        while i < self.fields.len()
            invariant
                i <= self.fields.len() == other.fields.len(),
                forall|j: int| 0 <= j < i ==> self.model()[j] == other.model()[j],
            decreases self.fields.len() - i,
        {
            if !same_text(self.fields[i].name.as_str(), other.fields[i].name.as_str())
                || !self.fields[i].value.same(&other.fields[i].value) {
                assert(self.model()[i as int] != other.model()[i as int]);
                return false;
            }
            i += 1;
        }
        assert(self.model() =~= other.model());
        true
    }
}

// ---------------------------------------------------------------------------
// Changing records
// ---------------------------------------------------------------------------

/// A record with one field set: in its place where it is there, at the end where
/// it is not.
pub open spec fn with_field(record: RecordModel, name: Seq<char>, value: ValueModel) -> RecordModel
    decreases record.len(),
{
    if record.len() == 0 {
        seq![(name, value)]
    } else if record[0].0 == name {
        seq![(name, value)] + record.skip(1)
    } else {
        seq![record[0]] + with_field(record.skip(1), name, value)
    }
}

/// Setting a field sets that field and no other.
pub proof fn law_with_field(record: RecordModel, name: Seq<char>, value: ValueModel, other: Seq<char>)
    ensures
        lookup(with_field(record, name, value), other) == (if other == name {
            Some(value)
        } else {
            lookup(record, other)
        }),
    decreases record.len(),
{
    reveal_with_fuel(lookup, 3);
    let out = with_field(record, name, value);
    if record.len() == 0 {
        assert(out.skip(1) =~= RecordModel::empty());
    } else if record[0].0 == name {
        assert(out.skip(1) =~= record.skip(1));
    } else {
        assert(out.skip(1) =~= with_field(record.skip(1), name, value));
        law_with_field(record.skip(1), name, value, other);
    }
}

/// A record with the fields of another set, one after the other.
pub open spec fn merged(record: RecordModel, update: RecordModel) -> RecordModel
    decreases update.len(),
{
    if update.len() == 0 {
        record
    } else {
        with_field(merged(record, update.drop_last()), update.last().0, update.last().1)
    }
}

/// The fields of a record that have one of the given names, in the order of the
/// names.
pub open spec fn selected(record: RecordModel, names: Seq<Seq<char>>) -> RecordModel
    decreases names.len(),
{
    if names.len() == 0 {
        RecordModel::empty()
    } else {
        let before = selected(record, names.drop_last());
        match lookup(record, names.last()) {
            Some(value) => before.push((names.last(), value)),
            None => before,
        }
    }
}

impl Record {
    /// Sets a field.
    pub fn set(&mut self, name: &str, value: Value)
        ensures
            final(self).model() == with_field(old(self).model(), name@, value.model()),
    {
        let ghost before = self.model();
        let mut i: usize = 0;
        assert(before.skip(0) =~= before);
        assert(before.take(0) + with_field(before, name@, value.model()) =~= with_field(
            before,
            name@,
            value.model(),
        ));
        while i < self.fields.len()
            invariant
                i <= self.fields.len(),
                before == self.model(),
                *self == *old(self),
                with_field(before, name@, value.model()) == before.take(i as int) + with_field(
                    before.skip(i as int),
                    name@,
                    value.model(),
                ),
            decreases self.fields.len() - i,
        {
            assert(before.skip(i as int)[0] == before[i as int]);
            assert(before.skip(i as int).skip(1) =~= before.skip(i + 1));
            if same_text(self.fields[i].name.as_str(), name) {
                let field = Field { name: name.to_owned(), value };
                self.fields.set(i, field);
                proof {
                    assert(self.model() =~= before.update(i as int, (name@, value.model())));
                    assert(self.model() =~= before.take(i as int) + (seq![(name@, value.model())]
                        + before.skip(i + 1)));
                }
                return;
            }
            proof {
                let rest = with_field(before.skip(i + 1), name@, value.model());
                assert(before.take(i as int) + (seq![before[i as int]] + rest) =~= before.take(
                    i + 1,
                ) + rest);
            }
            i += 1;
        }
        let field = Field { name: name.to_owned(), value };
        self.fields.push(field);
        proof {
            assert(before.skip(i as int) =~= RecordModel::empty());
            assert(self.model() =~= before + seq![(name@, value.model())]);
            assert(before.take(i as int) =~= before);
        }
    }

    /// Sets the fields of another record.
    pub fn merge(&mut self, update: &Record)
        ensures
            final(self).model() == merged(old(self).model(), update.model()),
    {
        let mut i: usize = 0;
        assert(update.model().take(0) =~= RecordModel::empty());
        while i < update.fields.len()
            invariant
                i <= update.fields.len(),
                self.model() == merged(old(self).model(), update.model().take(i as int)),
            decreases update.fields.len() - i,
        {
            proof {
                let next = update.model().take(i + 1);
                assert(next.drop_last() =~= update.model().take(i as int));
                assert(next.last() == update.model()[i as int]);
            }
            self.set(update.fields[i].name.as_str(), update.fields[i].value.copy());
            i += 1;
        }
        assert(update.model().take(update.fields.len() as int) =~= update.model());
    }

    /// The fields with one of the given names, in the order of the names.
    pub fn select(&self, names: &Vec<String>) -> (out: Record)
        ensures
            out.model() == selected(self.model(), views(names@)),
    {
        let mut out = Record::new();
        let mut i: usize = 0;
        let ghost wanted = views(names@);
        assert(wanted.take(0) =~= Seq::empty());
        while i < names.len()
            invariant
                i <= names.len(),
                wanted == views(names@),
                out.model() == selected(self.model(), wanted.take(i as int)),
            decreases names.len() - i,
        {
            proof {
                assert(wanted.take(i + 1).drop_last() =~= wanted.take(i as int));
                assert(wanted.take(i + 1).last() == names@[i as int]@);
            }
            if let Some(value) = self.get(names[i].as_str()) {
                let ghost before = out.model();
                let field = Field { name: names[i].clone(), value: value.copy() };
                out.fields.push(field);
                assert(out.model() =~= before.push((field.name@, field.value.model())));
            }
            i += 1;
        }
        assert(wanted.take(names.len() as int) =~= wanted);
        out
    }
}

/// A whole number.
pub fn int_value(v: i64) -> (out: Value)
    ensures
        out.model() == ValueModel::One(Scalar::Int(v)),
{
    Value::One(Scalar::Int(v))
}

/// What a report tells replaces what was known, and what it does not tell stays.
pub proof fn law_updates_replace_what_was_known(
    record: RecordModel,
    update: RecordModel,
    name: Seq<char>,
)
    ensures
        (forall|i: int| 0 <= i < update.len() ==> (#[trigger] update[i]).0 != name) ==> lookup(
            merged(record, update),
            name,
        ) == lookup(record, name),
        forall|k: int|
            #![trigger update[k]]
            0 <= k < update.len() && update[k].0 == name && (forall|i: int|
                k < i < update.len() ==> (#[trigger] update[i]).0 != name) ==> lookup(
                merged(record, update),
                name,
            ) == Some(update[k].1),
    decreases update.len(),
{
    if update.len() > 0 {
        let rest = update.drop_last();
        let last = update.len() - 1;
        law_updates_replace_what_was_known(record, rest, name);
        law_with_field(merged(record, rest), update.last().0, update.last().1, name);
        assert(update[last] == update.last());
        assert forall|i: int| 0 <= i < last implies #[trigger] update[i] == rest[i] by {
        }
        assert forall|k: int|
            #![trigger update[k]]
            0 <= k < update.len() && update[k].0 == name && (forall|i: int|
                k < i < update.len() ==> (#[trigger] update[i]).0 != name) implies lookup(
            merged(record, update),
            name,
        ) == Some(update[k].1) by {
            if k < last {
                assert(rest[k].0 == name);
                assert forall|i: int| k < i < rest.len() implies (#[trigger] rest[i]).0 != name by {
                    assert(update[i].0 != name);
                }
            }
        }
        if forall|i: int| 0 <= i < update.len() ==> (#[trigger] update[i]).0 != name {
            assert forall|i: int| 0 <= i < rest.len() implies (#[trigger] rest[i]).0 != name by {
                assert(update[i].0 != name);
            }
        }
    }
}

proof fn lemma_lookup_push(record: RecordModel, field: (Seq<char>, ValueModel), name: Seq<char>)
    ensures
        lookup(record.push(field), name) == (match lookup(record, name) {
            Some(value) => Some(value),
            None => if field.0 == name {
                Some(field.1)
            } else {
                None
            },
        }),
    decreases record.len(),
{
    reveal_with_fuel(lookup, 3);
    let out = record.push(field);
    if record.len() == 0 {
        assert(out.skip(1) =~= RecordModel::empty());
    } else {
        assert(out.skip(1) =~= record.skip(1).push(field));
        lemma_lookup_push(record.skip(1), field, name);
    }
}

/// Of a record the chosen fields are kept as they are, and no others.
pub proof fn law_chosen_fields_are_kept(
    record: RecordModel,
    names: Seq<Seq<char>>,
    name: Seq<char>,
)
    ensures
        lookup(selected(record, names), name) == (if names.contains(name) {
            lookup(record, name)
        } else {
            None
        }),
    decreases names.len(),
{
    if names.len() > 0 {
        let rest = names.drop_last();
        law_chosen_fields_are_kept(record, rest, name);
        assert(names[names.len() - 1] == names.last());
        if rest.contains(name) {
            let k = choose|k: int| 0 <= k < rest.len() && rest[k] == name;
            assert(names[k] == name);
        }
        if names.contains(name) && names.last() != name {
            let k = choose|k: int| 0 <= k < names.len() && names[k] == name;
            assert(rest[k] == name);
        }
        if let Some(value) = lookup(record, names.last()) {
            lemma_lookup_push(selected(record, rest), (names.last(), value), name);
        }
    }
}

/// A number is read from a number or from a text that holds one; one above the range of
/// signed numbers wraps.
pub proof fn law_numbers_are_read(v: i64, n: u64)
    ensures
        integer_of(Some(ValueModel::One(Scalar::Int(v)))) == Some(v as int),
        integer_of(Some(ValueModel::One(Scalar::Text(int_text(v as int))))) == Some(v as int),
        shown_of(Some(ValueModel::One(Scalar::Int(v)))) == Some(int_text(v as int)),
        n <= i64::MAX ==> integer_of(Some(ValueModel::One(Scalar::Natural(n)))) == Some(n as int),
        n > i64::MAX ==> integer_of(Some(ValueModel::One(Scalar::Natural(n)))) == Some(
            n - 0x1_0000_0000_0000_0000,
        ),
{
    law_written_numbers_read_back(v as int);
}

} // verus!
