use vstd::prelude::*;

verus! {

/// The sign bit of an IEEE-754 binary64 encoding.
pub const SIGN_BIT: u64 = 0x8000_0000_0000_0000u64;

/// The exponent bits of an IEEE-754 binary64 encoding.
pub const EXPONENT_MASK: u64 = 0x7ff0_0000_0000_0000u64;

/// The fraction bits of an IEEE-754 binary64 encoding.
pub const FRACTION_MASK: u64 = 0x000f_ffff_ffff_ffffu64;

/// Every bit but the sign of an IEEE-754 binary64 encoding.
pub const MAGNITUDE_MASK: u64 = 0x7fff_ffff_ffff_ffffu64;

/// Whether the binary64 encoding `bits` is a NaN.
pub open spec fn real_is_nan(bits: u64) -> bool {
    (bits & EXPONENT_MASK) == EXPONENT_MASK && (bits & FRACTION_MASK) != 0
}

/// Whether the binary64 encoding `bits` is +0.0 or -0.0.
pub open spec fn real_is_zero(bits: u64) -> bool {
    (bits & MAGNITUDE_MASK) == 0
}

/// IEEE-754 equality of two binary64 encodings: no NaN equals anything,
/// the two zeros are equal, and otherwise equal numbers have equal bits.
pub open spec fn real_eq(a: u64, b: u64) -> bool {
    !real_is_nan(a) && !real_is_nan(b) && (a == b || (real_is_zero(a) && real_is_zero(b)))
}

/// IEEE-754 negation: the sign bit flips, whatever the number is.
pub open spec fn real_neg(bits: u64) -> u64 {
    bits ^ SIGN_BIT
}

/// A REAL (LREAL) value, held as the bits of its IEEE-754 binary64 encoding.
#[derive(Debug, Clone, Copy, PartialEq, Eq, Structural)]
pub struct Real {
    pub bits: u64,
}

impl Real {
    /// The REAL whose binary64 encoding is `bits`.
    pub fn from_bits(bits: u64) -> (r: Real)
        ensures
            r.bits == bits,
    {
        Real { bits }
    }

    /// The binary64 encoding of this REAL.
    pub fn to_bits(self) -> (b: u64)
        ensures
            b == self.bits,
    {
        self.bits
    }

    /// Whether this REAL is a NaN.
    pub fn is_nan(self) -> (b: bool)
        ensures
            b == real_is_nan(self.bits),
    {
        (self.bits & EXPONENT_MASK) == EXPONENT_MASK && (self.bits & FRACTION_MASK) != 0
    }

    /// Whether this REAL is +0.0 or -0.0.
    pub fn is_zero(self) -> (b: bool)
        ensures
            b == real_is_zero(self.bits),
    {
        (self.bits & MAGNITUDE_MASK) == 0
    }

    /// IEEE-754 equality (`==` on `f64`).
    pub fn equals(self, other: Real) -> (b: bool)
        ensures
            b == real_eq(self.bits, other.bits),
    {
        !self.is_nan() && !other.is_nan() && (self.bits == other.bits || (self.is_zero()
            && other.is_zero()))
    }

    /// IEEE-754 negation (`-x` on `f64`).
    pub fn negate(self) -> (r: Real)
        ensures
            r.bits == real_neg(self.bits),
    {
        Real { bits: self.bits ^ SIGN_BIT }
    }
}

/// The mathematical model of a [`Value`].
pub enum ValueModel {
    Bool(bool),
    Int(i64),
    Real(u64),
    Str(Seq<char>),
    Struct(Seq<(Seq<char>, ValueModel)>),
}

/// Runtime value that can be stored in a variable.
#[derive(Debug, PartialEq)]
pub enum Value {
    Bool(bool),
    Int(i64),
    Real(Real),
    String(String),
    /// A structured value: its fields, by name, in order.
    Struct(Vec<(String, Value)>),
}

impl View for Value {
    type V = ValueModel;

    open spec fn view(&self) -> ValueModel {
        value_view(*self)
    }
}

/// The model of a value.
pub open spec fn value_view(v: Value) -> ValueModel
    decreases v,
{
    match v {
        Value::Bool(b) => ValueModel::Bool(b),
        Value::Int(i) => ValueModel::Int(i),
        Value::Real(r) => ValueModel::Real(r.bits),
        Value::String(s) => ValueModel::Str(s@),
        Value::Struct(fields) => {
            proof {
                assert(decreases_to!(v => fields));
                assert(decreases_to!(fields => fields@));
            }
            ValueModel::Struct(fields_view(fields@))
        },
    }
}

/// The models of a list of named values.
pub open spec fn fields_view(fields: Seq<(String, Value)>) -> Seq<(Seq<char>, ValueModel)>
    decreases fields,
{
    if fields.len() == 0 {
        Seq::empty()
    } else {
        let n = (fields.len() - 1) as int;
        proof {
            assert(decreases_to!(fields => fields.subrange(0, n)));
            assert(decreases_to!(fields => fields[n]));
            assert(decreases_to!(fields[n] => fields[n].1));
        }
        fields_view(fields.subrange(0, n)).push((fields[n].0@, value_view(fields[n].1)))
    }
}

/// The name of a value's type, as error messages show it.
pub open spec fn type_name_of(v: ValueModel) -> Seq<char> {
    match v {
        ValueModel::Bool(_) => "BOOL"@,
        ValueModel::Int(_) => "INT"@,
        ValueModel::Real(_) => "REAL"@,
        ValueModel::Str(_) => "STRING"@,
        ValueModel::Struct(_) => "STRUCT"@,
    }
}

/// The value of the first field named `name` at position `i` or later.
pub open spec fn lookup_from<V>(fields: Seq<(Seq<char>, V)>, name: Seq<char>, i: nat) -> Option<V>
    decreases fields.len() - i,
{
    if i >= fields.len() {
        None
    } else if fields[i as int].0 == name {
        Some(fields[i as int].1)
    } else {
        lookup_from(fields, name, i + 1)
    }
}

/// The value of the first entry named `name`: how a field of a structured
/// value, or a variable of an environment, is found.
pub open spec fn lookup<V>(fields: Seq<(Seq<char>, V)>, name: Seq<char>) -> Option<V> {
    lookup_from(fields, name, 0)
}

/// Whether no name occurs twice among the entries: as in a map from names.
pub open spec fn names_unique<V>(fields: Seq<(Seq<char>, V)>) -> bool {
    forall|a: int, b: int|
        0 <= a < b < fields.len() ==> #[trigger] fields[a].0 != #[trigger] fields[b].0
}

/// Where names occur once, the first entry of a name is its only one: lookup gives
/// what a map from names to values would.
pub proof fn lemma_unique_lookup<V>(fields: Seq<(Seq<char>, V)>, name: Seq<char>, i: int)
    requires
        names_unique(fields),
        0 <= i < fields.len(),
        fields[i].0 == name,
    ensures
        lookup(fields, name) == Some(fields[i].1),
{
    lemma_unique_lookup_from(fields, name, i, 0);
}

proof fn lemma_unique_lookup_from<V>(fields: Seq<(Seq<char>, V)>, name: Seq<char>, i: int, j: nat)
    requires
        names_unique(fields),
        j <= i < fields.len(),
        fields[i].0 == name,
    ensures
        lookup_from(fields, name, j) == Some(fields[i].1),
    decreases i - j,
{
    if j < i {
        assert(fields[j as int].0 != fields[i].0);
        lemma_unique_lookup_from(fields, name, i, j + 1);
    }
}

/// Equality of values (`=`): equal variants with equal contents; REALs compare
/// as IEEE-754 numbers; structured values compare as maps from names to values.
pub open spec fn value_eq(a: ValueModel, b: ValueModel) -> bool
    decreases a, 0nat,
{
    match a {
        ValueModel::Bool(x) => b == ValueModel::Bool(x),
        ValueModel::Int(x) => b == ValueModel::Int(x),
        ValueModel::Real(x) => match b {
            ValueModel::Real(y) => real_eq(x, y),
            _ => false,
        },
        ValueModel::Str(x) => b == ValueModel::Str(x),
        ValueModel::Struct(fa) => match b {
            ValueModel::Struct(fb) => fa.len() == fb.len() && fields_match(fa, fb, 0),
            _ => false,
        },
    }
}

/// Every field of `fa` from position `i` on has an equal field of the same name in `fb`.
pub open spec fn fields_match(
    fa: Seq<(Seq<char>, ValueModel)>,
    fb: Seq<(Seq<char>, ValueModel)>,
    i: nat,
) -> bool
    decreases fa, fa.len() - i,
{
    if i >= fa.len() {
        true
    } else {
        proof {
            assert(decreases_to!(fa => fa[i as int]));
        }
        match lookup(fb, fa[i as int].0) {
            Some(v) => value_eq(fa[i as int].1, v) && fields_match(fa, fb, i + 1),
            None => false,
        }
    }
}

/// The model of a list of named values, entry by entry.
pub proof fn lemma_fields_view(fields: Seq<(String, Value)>)
    ensures
        fields_view(fields).len() == fields.len(),
        forall|i: int|
            0 <= i < fields.len() ==> #[trigger] fields_view(fields)[i] == (fields[i].0@, fields[i].1@),
    decreases fields.len(),
{
    if fields.len() > 0 {
        let n = (fields.len() - 1) as int;
        lemma_fields_view(fields.subrange(0, n));
    }
}

/// The numeric payload of a value: what arithmetic and ordering read.
#[derive(Debug, Clone, Copy)]
pub enum Number {
    Int(i64),
    Real(Real),
}

/// The model of a [`Number`].
pub enum NumberModel {
    Int(i64),
    Real(u64),
}

impl View for Number {
    type V = NumberModel;

    open spec fn view(&self) -> NumberModel {
        match self {
            Number::Int(i) => NumberModel::Int(*i),
            Number::Real(r) => NumberModel::Real(r.bits),
        }
    }
}

/// The number a value stands for, if it is an INT or a REAL.
pub open spec fn number_of(v: ValueModel) -> Option<NumberModel> {
    match v {
        ValueModel::Int(i) => Some(NumberModel::Int(i)),
        ValueModel::Real(r) => Some(NumberModel::Real(r)),
        _ => None,
    }
}

/// Whether a number is zero (`0`, `+0.0` or `-0.0`).
pub open spec fn number_is_zero(n: NumberModel) -> bool {
    match n {
        NumberModel::Int(i) => i == 0,
        NumberModel::Real(r) => real_is_zero(r),
    }
}

impl Number {
    /// Whether this number is zero, as the divisor test of `/` sees it.
    pub fn is_zero(&self) -> (b: bool)
        ensures
            b == number_is_zero(self@),
    {
        match self {
            Number::Int(i) => *i == 0,
            Number::Real(r) => r.is_zero(),
        }
    }
}

impl Value {
    /// The value itself, copied field by field.
    pub fn duplicate(&self) -> (r: Value)
        ensures
            r@ == self@,
        decreases self,
    {
        match self {
            Value::Bool(b) => Value::Bool(*b),
            Value::Int(i) => Value::Int(*i),
            Value::Real(r) => Value::Real(*r),
            Value::String(s) => Value::String(s.clone()),
            Value::Struct(fields) => {
                let mut out: Vec<(String, Value)> = Vec::new();
                let mut i: usize = 0;
                while i < fields.len()
                    invariant
                        *self == Value::Struct(*fields),
                        i <= fields.len(),
                        out@.len() == i,
                        forall|j: int|
                            0 <= j < i ==> #[trigger] out@[j].0@ == fields@[j].0@ && out@[j].1@
                                == fields@[j].1@,
                    decreases fields.len() - i,
                {
                    proof {
                        let fs = (*self)->Struct_0;
                        assert(decreases_to!(*self => (*self)->Struct_0));
                        assert(decreases_to!(fs => fs@));
                        assert(decreases_to!(fs@ => fs@[i as int]));
                        assert(decreases_to!(fs@[i as int] => fs@[i as int].1));
                    }
                    let name = fields[i].0.clone();
                    let v = fields[i].1.duplicate();
                    out.push((name, v));
                    i = i + 1;
                }
                let r = Value::Struct(out);
                proof {
                    lemma_fields_view(out@);
                    lemma_fields_view(fields@);
                    assert(fields_view(out@) =~= fields_view(fields@));
                }
                r
            },
        }
    }

    /// The boolean this value holds, if it is a BOOL.
    pub fn as_bool(&self) -> (r: Option<bool>)
        ensures
            r == (match self@ {
                ValueModel::Bool(b) => Some(b),
                _ => None,
            }),
    {
        match self {
            Value::Bool(b) => Some(*b),
            _ => None,
        }
    }

    /// The integer this value holds, if it is an INT.
    pub fn as_int(&self) -> (r: Option<i64>)
        ensures
            r == (match self@ {
                ValueModel::Int(i) => Some(i),
                _ => None,
            }),
    {
        match self {
            Value::Int(i) => Some(*i),
            _ => None,
        }
    }

    /// The number this value holds, if it is an INT or a REAL.
    pub fn as_number(&self) -> (r: Option<Number>)
        ensures
            match r {
                Some(n) => number_of(self@) == Some(n@),
                None => number_of(self@) is None,
            },
    {
        match self {
            Value::Int(i) => Some(Number::Int(*i)),
            Value::Real(r) => Some(Number::Real(*r)),
            _ => None,
        }
    }

    /// The text this value holds, if it is a STRING.
    pub fn as_string(&self) -> (r: Option<&str>)
        ensures
            match r {
                Some(s) => self@ == ValueModel::Str(s@),
                None => !(self@ is Str),
            },
    {
        match self {
            Value::String(s) => Some(s.as_str()),
            _ => None,
        }
    }

    /// The name of this value's type.
    pub fn type_label(&self) -> (s: &'static str)
        ensures
            s@ == type_name_of(self@),
    {
        match self {
            Value::Bool(_) => "BOOL",
            Value::Int(_) => "INT",
            Value::Real(_) => "REAL",
            Value::String(_) => "STRING",
            Value::Struct(_) => "STRUCT",
        }
    }
}

/// Finds the value of the first field named `name`.
pub fn find_field<'a>(fields: &'a Vec<(String, Value)>, name: &String) -> (r: Option<&'a Value>)
    ensures
        match r {
            Some(v) => lookup(fields_view(fields@), name@) == Some(v@),
            None => lookup(fields_view(fields@), name@) is None,
        },
{
    proof {
        lemma_fields_view(fields@);
    }
    let ghost model = fields_view(fields@);
    let mut i: usize = 0;
    while i < fields.len()
        invariant
            i <= fields.len(),
            model == fields_view(fields@),
            model.len() == fields@.len(),
            forall|j: int| 0 <= j < fields@.len() ==> #[trigger] model[j] == (fields@[j].0@, fields@[j].1@),
            lookup(model, name@) == lookup_from(model, name@, i as nat),
        decreases fields.len() - i,
    {
        if fields[i].0 == *name {
            return Some(&fields[i].1);
        }
        i = i + 1;
    }
    None
}

/// Whether two lists of named values have equal lengths and match field by field.
fn fields_equal(fa: &Vec<(String, Value)>, fb: &Vec<(String, Value)>) -> (b: bool)
    ensures
        b == (fa@.len() == fb@.len() && fields_match(fields_view(fa@), fields_view(fb@), 0)),
    decreases *fa, 1nat,
{
    proof {
        lemma_fields_view(fa@);
        lemma_fields_view(fb@);
    }
    if fa.len() != fb.len() {
        return false;
    }
    let ghost ma = fields_view(fa@);
    let ghost mb = fields_view(fb@);
    let mut i: usize = 0;
    while i < fa.len()
        invariant
            i <= fa@.len(),
            fa@.len() == fb@.len(),
            ma == fields_view(fa@),
            mb == fields_view(fb@),
            ma.len() == fa@.len(),
            forall|j: int| 0 <= j < fa@.len() ==> #[trigger] ma[j] == (fa@[j].0@, fa@[j].1@),
            fields_match(ma, mb, 0) == fields_match(ma, mb, i as nat),
        decreases fa@.len() - i,
    {
        let found = find_field(fb, &fa[i].0);
        match found {
            Some(v) => {
                proof {
                    assert(decreases_to!(*fa => fa@));
                    assert(decreases_to!(fa@ => fa@[i as int]));
                    assert(decreases_to!(fa@[i as int] => fa@[i as int].1));
                }
                if !values_equal(&fa[i].1, v) {
                    return false;
                }
            },
            None => {
                return false;
            },
        }
        i = i + 1;
    }
    true
}

/// Equality of values, as `=` compares them.
pub fn values_equal(a: &Value, b: &Value) -> (r: bool)
    ensures
        r == value_eq(a@, b@),
    decreases *a, 0nat,
{
    match (a, b) {
        (Value::Bool(x), Value::Bool(y)) => *x == *y,
        (Value::Int(x), Value::Int(y)) => *x == *y,
        (Value::Real(x), Value::Real(y)) => x.equals(*y),
        (Value::String(x), Value::String(y)) => *x == *y,
        (Value::Struct(fa), Value::Struct(fb)) => {
            proof {
                assert(decreases_to!(*a => (*a)->Struct_0));
                lemma_fields_view(fa@);
                lemma_fields_view(fb@);
            }
            fields_equal(fa, fb)
        },
        _ => false,
    }
}

/// The mathematical model of a list of variables: names and the models of their values.
pub open spec fn variables_view(vars: Seq<(String, Variable)>) -> Seq<(Seq<char>, ValueModel)> {
    Seq::new(vars.len(), |i: int| (vars[i].0@, vars[i].1@))
}

/// Typed variable with value.
#[derive(Debug, PartialEq)]
pub struct Variable {
    value: Value,
}

impl View for Variable {
    type V = ValueModel;

    closed spec fn view(&self) -> ValueModel {
        value_view(self.value)
    }
}

impl Variable {
    /// A BOOL variable.
    pub fn bool(b: bool) -> (v: Self)
        ensures
            v@ == ValueModel::Bool(b),
    {
        Variable { value: Value::Bool(b) }
    }

    /// An INT variable.
    pub fn integer(i: i64) -> (v: Self)
        ensures
            v@ == ValueModel::Int(i),
    {
        Variable { value: Value::Int(i) }
    }

    /// A REAL variable.
    pub fn from_real(r: Real) -> (v: Self)
        ensures
            v@ == ValueModel::Real(r.bits),
    {
        Variable { value: Value::Real(r) }
    }

    /// A STRING variable.
    pub fn string(s: &str) -> (v: Self)
        ensures
            v@ == ValueModel::Str(s@),
    {
        Variable { value: Value::String(String::from_str(s)) }
    }

    /// A structured variable with the given fields.
    pub fn structure(fields: Vec<(String, Value)>) -> (v: Self)
        ensures
            v@ == ValueModel::Struct(fields_view(fields@)),
    {
        Variable { value: Value::Struct(fields) }
    }

    /// A variable holding `value`.
    pub fn from_value(value: Value) -> (v: Self)
        ensures
            v@ == value@,
    {
        Variable { value }
    }

    /// The value of this variable.
    pub fn value(&self) -> (v: &Value)
        ensures
            v@ == self@,
    {
        &self.value
    }

    /// The value of this variable, taken out of it.
    pub fn into_value(self) -> (v: Value)
        ensures
            v@ == self@,
    {
        self.value
    }
}

impl From<Value> for Variable {
    fn from(value: Value) -> (v: Self) {
        Variable { value }
    }
}

impl vstd::std_specs::convert::FromSpecImpl<Value> for Variable {
    open spec fn obeys_from_spec() -> bool {
        true
    }

    closed spec fn from_spec(v: Value) -> Self {
        Variable { value: v }
    }
}

impl From<bool> for Variable {
    fn from(b: bool) -> (v: Self) {
        Variable { value: Value::Bool(b) }
    }
}

impl vstd::std_specs::convert::FromSpecImpl<bool> for Variable {
    open spec fn obeys_from_spec() -> bool {
        true
    }

    closed spec fn from_spec(v: bool) -> Self {
        Variable { value: Value::Bool(v) }
    }
}

impl From<i64> for Variable {
    fn from(i: i64) -> (v: Self) {
        Variable { value: Value::Int(i) }
    }
}

impl vstd::std_specs::convert::FromSpecImpl<i64> for Variable {
    open spec fn obeys_from_spec() -> bool {
        true
    }

    closed spec fn from_spec(v: i64) -> Self {
        Variable { value: Value::Int(v) }
    }
}

impl From<Real> for Variable {
    fn from(r: Real) -> (v: Self) {
        Variable { value: Value::Real(r) }
    }
}

impl vstd::std_specs::convert::FromSpecImpl<Real> for Variable {
    open spec fn obeys_from_spec() -> bool {
        true
    }

    closed spec fn from_spec(v: Real) -> Self {
        Variable { value: Value::Real(v) }
    }
}

impl From<String> for Variable {
    fn from(s: String) -> (v: Self) {
        Variable { value: Value::String(s) }
    }
}

impl vstd::std_specs::convert::FromSpecImpl<String> for Variable {
    open spec fn obeys_from_spec() -> bool {
        true
    }

    closed spec fn from_spec(v: String) -> Self {
        Variable { value: Value::String(v) }
    }
}

/// A variable made by `from` holds what it was made from.
pub proof fn lemma_variable_from(b: bool, i: i64, r: Real, text: String, value: Value)
    ensures
        <Variable as vstd::std_specs::convert::FromSpec<String>>::from_spec(text)@ == ValueModel::Str(text@),
        <Variable as vstd::std_specs::convert::FromSpec<bool>>::from_spec(b)@ == ValueModel::Bool(b),
        <Variable as vstd::std_specs::convert::FromSpec<i64>>::from_spec(i)@ == ValueModel::Int(i),
        <Variable as vstd::std_specs::convert::FromSpec<Real>>::from_spec(r)@ == ValueModel::Real(r.bits),
        <Variable as vstd::std_specs::convert::FromSpec<Value>>::from_spec(value)@ == value@,
{
}

/// Finds the first variable named `name`.
pub fn find_variable<'a>(vars: &'a Vec<(String, Variable)>, name: &String) -> (r: Option<&'a Variable>)
    ensures
        match r {
            Some(v) => lookup(variables_view(vars@), name@) == Some(v@),
            None => lookup(variables_view(vars@), name@) is None,
        },
{
    let ghost model = variables_view(vars@);
    let mut i: usize = 0;
    while i < vars.len()
        invariant
            i <= vars.len(),
            model == variables_view(vars@),
            lookup(model, name@) == lookup_from(model, name@, i as nat),
        decreases vars.len() - i,
    {
        if vars[i].0 == *name {
            return Some(&vars[i].1);
        }
        i = i + 1;
    }
    None
}

/// The names of a list of named values.
pub open spec fn field_names(fs: Seq<(Seq<char>, ValueModel)>) -> Seq<Seq<char>> {
    fs.map_values(|p: (Seq<char>, ValueModel)| p.0)
}

/// A value whose structured parts, at every depth, name each field once: as a map
/// from names to values holds them.
pub open spec fn well_formed_value(v: ValueModel) -> bool
    decreases v, 0nat,
{
    match v {
        ValueModel::Struct(fs) => field_names(fs).no_duplicates() && fields_well_formed(fs, 0),
        _ => true,
    }
}

/// Every field value of `fs` from position `i` on is well formed.
pub open spec fn fields_well_formed(fs: Seq<(Seq<char>, ValueModel)>, i: nat) -> bool
    decreases fs, fs.len() - i,
{
    if i >= fs.len() {
        true
    } else {
        proof {
            assert(decreases_to!(fs => fs[i as int]));
        }
        well_formed_value(fs[i as int].1) && fields_well_formed(fs, i + 1)
    }
}

proof fn lemma_fields_match_all(fa: Seq<(Seq<char>, ValueModel)>, fb: Seq<(Seq<char>, ValueModel)>, i: nat)
    ensures
        fields_match(fa, fb, i) <==> forall|j: int|
            i <= j < fa.len() ==> (#[trigger] lookup(fb, fa[j].0) matches Some(v) && value_eq(
                fa[j].1,
                v,
            )),
    decreases fa.len() - i,
{
    if i < fa.len() {
        lemma_fields_match_all(fa, fb, i + 1);
    }
}

proof fn lemma_fields_well_formed_all(fs: Seq<(Seq<char>, ValueModel)>, i: nat)
    ensures
        fields_well_formed(fs, i) <==> forall|j: int| i <= j < fs.len() ==> well_formed_value(
            #[trigger] fs[j].1,
        ),
    decreases fs.len() - i,
{
    if i < fs.len() {
        lemma_fields_well_formed_all(fs, i + 1);
    }
}

proof fn lemma_lookup_from_unique<V>(fs: Seq<(Seq<char>, V)>, i: nat, j: nat)
    requires
        fs.map_values(|p: (Seq<char>, V)| p.0).no_duplicates(),
        i <= j < fs.len(),
    ensures
        lookup_from(fs, fs[j as int].0, i) == Some(fs[j as int].1),
    decreases j - i,
{
    let names = fs.map_values(|p: (Seq<char>, V)| p.0);
    if i < j {
        assert(names[i as int] != names[j as int]);
        lemma_lookup_from_unique(fs, i + 1, j);
    }
}

proof fn lemma_lookup_from_found<V>(fs: Seq<(Seq<char>, V)>, name: Seq<char>, i: nat)
    ensures
        lookup_from(fs, name, i) is Some ==> exists|j: int| i <= j < fs.len() && #[trigger] fs[j].0 == name,
        lookup_from(fs, name, i) is None ==> forall|j: int| i <= j < fs.len() ==> #[trigger] fs[j].0 != name,
    decreases fs.len() - i,
{
    if i < fs.len() && fs[i as int].0 != name {
        lemma_lookup_from_found(fs, name, i + 1);
    }
}

/// One direction of the symmetry of `=`.
proof fn lemma_value_eq_flip(a: ValueModel, b: ValueModel)
    requires
        well_formed_value(a),
        well_formed_value(b),
        value_eq(a, b),
    ensures
        value_eq(b, a),
    decreases a,
{
    match (a, b) {
        (ValueModel::Struct(fa), ValueModel::Struct(fb)) => {
            let na = field_names(fa);
            let nb = field_names(fb);
            lemma_fields_match_all(fa, fb, 0);
            lemma_fields_match_all(fb, fa, 0);
            lemma_fields_well_formed_all(fa, 0);
            lemma_fields_well_formed_all(fb, 0);
            // every name of fa is a name of fb, and both name as many fields
            assert(na.to_set().subset_of(nb.to_set())) by {
                assert forall|k: Seq<char>| na.to_set().contains(k) implies nb.to_set().contains(k) by {
                    let i = choose|i: int| 0 <= i < na.len() && na[i] == k;
                    assert(fa[i].0 == k);
                    assert(lookup(fb, fa[i].0) is Some);
                    lemma_lookup_from_found(fb, k, 0);
                    let j = choose|j: int| 0 <= j < fb.len() && #[trigger] fb[j].0 == k;
                    assert(nb[j] == k);
                }
            }
            na.unique_seq_to_set();
            nb.unique_seq_to_set();
            vstd::set_lib::lemma_subset_equality(na.to_set(), nb.to_set());
            assert forall|j: int| 0 <= j < fb.len() implies (#[trigger] lookup(fa, fb[j].0) matches Some(
                v,
            ) && value_eq(fb[j].1, v)) by {
                let k = fb[j].0;
                assert(nb[j] == k);
                assert(nb.to_set().contains(k));
                assert(na.to_set().contains(k));
                let i = choose|i: int| 0 <= i < na.len() && na[i] == k;
                lemma_lookup_from_unique(fa, 0, i as nat);
                lemma_lookup_from_unique(fb, 0, j as nat);
                assert(lookup(fb, fa[i].0) == Some(fb[j].1));
                assert(decreases_to!(a => fa));
                assert(decreases_to!(fa => fa[i]));
                assert(decreases_to!(fa[i] => fa[i].1));
                lemma_value_eq_flip(fa[i].1, fb[j].1);
            }
        },
        _ => {},
    }
}

/// `=` is symmetric on well-formed values: `a = b` exactly when `b = a`.
pub proof fn lemma_value_eq_symmetric(a: ValueModel, b: ValueModel)
    requires
        well_formed_value(a),
        well_formed_value(b),
    ensures
        value_eq(a, b) == value_eq(b, a),
{
    if value_eq(a, b) {
        lemma_value_eq_flip(a, b);
    }
    if value_eq(b, a) {
        lemma_value_eq_flip(b, a);
    }
}

/// A value that holds no NaN, at any depth.
pub open spec fn nan_free(v: ValueModel) -> bool
    decreases v, 0nat,
{
    match v {
        ValueModel::Real(b) => !real_is_nan(b),
        ValueModel::Struct(fs) => fields_nan_free(fs, 0),
        _ => true,
    }
}

/// Every field value of `fs` from position `i` on holds no NaN.
pub open spec fn fields_nan_free(fs: Seq<(Seq<char>, ValueModel)>, i: nat) -> bool
    decreases fs, fs.len() - i,
{
    if i >= fs.len() {
        true
    } else {
        proof {
            assert(decreases_to!(fs => fs[i as int]));
        }
        nan_free(fs[i as int].1) && fields_nan_free(fs, i + 1)
    }
}

proof fn lemma_fields_nan_free_all(fs: Seq<(Seq<char>, ValueModel)>, i: nat)
    ensures
        fields_nan_free(fs, i) <==> forall|j: int| i <= j < fs.len() ==> nan_free(#[trigger] fs[j].1),
    decreases fs.len() - i,
{
    if i < fs.len() {
        lemma_fields_nan_free_all(fs, i + 1);
    }
}

/// `=` is reflexive on well-formed values that hold no NaN: `a = a`.
pub proof fn lemma_value_eq_reflexive(a: ValueModel)
    requires
        well_formed_value(a),
        nan_free(a),
    ensures
        value_eq(a, a),
    decreases a,
{
    if let ValueModel::Struct(fa) = a {
        lemma_fields_match_all(fa, fa, 0);
        lemma_fields_well_formed_all(fa, 0);
        lemma_fields_nan_free_all(fa, 0);
        assert forall|j: int| 0 <= j < fa.len() implies (#[trigger] lookup(fa, fa[j].0) matches Some(
            v,
        ) && value_eq(fa[j].1, v)) by {
            lemma_lookup_from_unique(fa, 0, j as nat);
            assert(decreases_to!(a => fa));
            assert(decreases_to!(fa => fa[j]));
            assert(decreases_to!(fa[j] => fa[j].1));
            lemma_value_eq_reflexive(fa[j].1);
        }
    }
}

} // verus!
