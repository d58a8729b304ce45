//! What a reporter script hands back, and the tree that it becomes.
use vstd::prelude::*;
use vstd::string::*;

verus! {

/// A value as a reporter script hands it back. A floating-point number is
/// held by the 64 bits of its binary form.
#[derive(Debug)]
pub enum JsValue {
    Undefined,
    Null,
    Bool(bool),
    Int(i32),
    Float(u64),
    String(String),
    Array(Vec<JsValue>),
    Object(Vec<(String, JsValue)>),
    /// Anything else that a script can make.
    Unknown,
}

/// A number of a report: an integer, or a finite floating-point number held
/// by the 64 bits of its binary form.
#[derive(Debug, Clone, Copy, PartialEq, Eq, Structural)]
pub enum Number {
    Int(i32),
    Float(u64),
}

/// A report as a generic tree.
#[derive(Debug)]
pub enum Value {
    Null,
    Bool(bool),
    Number(Number),
    String(String),
    Array(Vec<Value>),
    Object(Vec<(String, Value)>),
}

#[derive(Debug, Clone, Copy, PartialEq, Eq, Structural)]
pub enum ConvertError {
    /// A floating-point number is infinite or not a number.
    InvalidFloat,
    /// A value has no place in a report.
    UnknownValue,
    /// The script handed back something that is not an object.
    NotAnObject,
}

pub enum JsView {
    Undefined,
    Null,
    Bool(bool),
    Int(i32),
    Float(u64),
    String(Seq<char>),
    Array(Seq<JsView>),
    Object(Seq<(Seq<char>, JsView)>),
    Unknown,
}

pub enum ValueView {
    Null,
    Bool(bool),
    Number(Number),
    String(Seq<char>),
    Array(Seq<ValueView>),
    Object(Seq<(Seq<char>, ValueView)>),
}

pub open spec fn js_view(value: JsValue) -> JsView
    decreases value,
{
    match value {
        JsValue::Undefined => JsView::Undefined,
        JsValue::Null => JsView::Null,
        JsValue::Bool(b) => JsView::Bool(b),
        JsValue::Int(i) => JsView::Int(i),
        JsValue::Float(bits) => JsView::Float(bits),
        JsValue::String(s) => JsView::String(s@),
        JsValue::Array(values) => JsView::Array(js_views(values@)),
        JsValue::Object(fields) => JsView::Object(js_fields(fields@)),
        JsValue::Unknown => JsView::Unknown,
    }
}

pub open spec fn js_views(values: Seq<JsValue>) -> Seq<JsView>
    decreases values,
{
    if values.len() == 0 {
        Seq::empty()
    } else {
        js_views(values.drop_last()).push(js_view(values.last()))
    }
}

pub open spec fn js_fields(fields: Seq<(String, JsValue)>) -> Seq<(Seq<char>, JsView)>
    decreases fields,
{
    if fields.len() == 0 {
        Seq::empty()
    } else {
        js_fields(fields.drop_last()).push((fields.last().0@, js_view(fields.last().1)))
    }
}

pub open spec fn value_view(value: Value) -> ValueView
    decreases value,
{
    match value {
        Value::Null => ValueView::Null,
        Value::Bool(b) => ValueView::Bool(b),
        Value::Number(n) => ValueView::Number(n),
        Value::String(s) => ValueView::String(s@),
        Value::Array(values) => ValueView::Array(value_views(values@)),
        Value::Object(fields) => ValueView::Object(value_fields(fields@)),
    }
}

pub open spec fn value_views(values: Seq<Value>) -> Seq<ValueView>
    decreases values,
{
    if values.len() == 0 {
        Seq::empty()
    } else {
        value_views(values.drop_last()).push(value_view(values.last()))
    }
}

pub open spec fn value_fields(fields: Seq<(String, Value)>) -> Seq<(Seq<char>, ValueView)>
    decreases fields,
{
    if fields.len() == 0 {
        Seq::empty()
    } else {
        value_fields(fields.drop_last()).push((fields.last().0@, value_view(fields.last().1)))
    }
}

impl View for JsValue {
    type V = JsView;

    open spec fn view(&self) -> JsView {
        js_view(*self)
    }
}

impl View for Value {
    type V = ValueView;

    open spec fn view(&self) -> ValueView {
        value_view(*self)
    }
}

/// The 64 bits are those of a finite number: the eleven bits of the
/// exponent are not all set.
pub open spec fn is_finite_bits(bits: u64) -> bool {
    (bits >> 52) & 0x7ff != 0x7ff
}

/// The tree that a script's value becomes: what is undefined becomes null,
/// integers and finite floating-point numbers stay as they are, arrays and
/// objects are gone through in their order, and the first value that has no
/// place in a report decides the error.
pub open spec fn converted(value: JsView) -> Result<ValueView, ConvertError>
    decreases value,
{
    match value {
        JsView::Undefined => Ok(ValueView::Null),
        JsView::Null => Ok(ValueView::Null),
        JsView::Bool(b) => Ok(ValueView::Bool(b)),
        JsView::Int(i) => Ok(ValueView::Number(Number::Int(i))),
        JsView::Float(bits) => if is_finite_bits(bits) {
            Ok(ValueView::Number(Number::Float(bits)))
        } else {
            Err(ConvertError::InvalidFloat)
        },
        JsView::String(s) => Ok(ValueView::String(s)),
        JsView::Array(values) => match converted_all(values) {
            Ok(made) => Ok(ValueView::Array(made)),
            Err(e) => Err(e),
        },
        JsView::Object(fields) => match converted_fields(fields) {
            Ok(made) => Ok(ValueView::Object(made)),
            Err(e) => Err(e),
        },
        JsView::Unknown => Err(ConvertError::UnknownValue),
    }
}

pub open spec fn converted_all(values: Seq<JsView>) -> Result<Seq<ValueView>, ConvertError>
    decreases values,
{
    if values.len() == 0 {
        Ok(Seq::empty())
    } else {
        match converted_all(values.drop_last()) {
            Err(e) => Err(e),
            Ok(made) => match converted(values.last()) {
                Err(e) => Err(e),
                Ok(last) => Ok(made.push(last)),
            },
        }
    }
}

pub open spec fn converted_fields(fields: Seq<(Seq<char>, JsView)>) -> Result<
    Seq<(Seq<char>, ValueView)>,
    ConvertError,
>
    decreases fields,
{
    if fields.len() == 0 {
        Ok(Seq::empty())
    } else {
        match converted_fields(fields.drop_last()) {
            Err(e) => Err(e),
            Ok(made) => match converted(fields.last().1) {
                Err(e) => Err(e),
                Ok(last) => Ok(made.push((fields.last().0, last))),
            },
        }
    }
}

/// What a reporter script must hand back: an object, which becomes the
/// report.
pub open spec fn report_of(value: JsView) -> Result<ValueView, ConvertError> {
    match value {
        JsView::Object(_) => converted(value),
        _ => Err(ConvertError::NotAnObject),
    }
}

/// The text that is evaluated for a reporter: the script as the body of a
/// function of `DATA`, called with the parsed context.
pub open spec fn wrapped_source(source: Seq<char>) -> Seq<char> {
    "( function(DATA){"@ + source + "} )( JSON.parse(DATA) )"@
}

pub fn is_finite(bits: u64) -> (finite: bool)
    ensures
        finite == is_finite_bits(bits),
{
    (bits >> 52) & 0x7ff != 0x7ff
}

/// Turns the value of a script into a tree.
pub fn do_convert(value: &JsValue) -> (made: Result<Value, ConvertError>)
    ensures
        match converted(value@) {
            Ok(tree) => made.is_ok() && made.unwrap()@ == tree,
            Err(e) => made == Err::<Value, ConvertError>(e),
        },
    decreases value,
{
    match value {
        JsValue::Undefined => Ok(Value::Null),
        JsValue::Null => Ok(Value::Null),
        JsValue::Bool(b) => Ok(Value::Bool(*b)),
        JsValue::Int(i) => Ok(Value::Number(Number::Int(*i))),
        JsValue::Float(bits) => {
            if is_finite(*bits) {
                Ok(Value::Number(Number::Float(*bits)))
            } else {
                Err(ConvertError::InvalidFloat)
            }
        },
        JsValue::String(s) => Ok(Value::String(s.clone())),
        JsValue::Array(values) => {
            let n = values.len();
            let mut made: Vec<Value> = Vec::new();
            let mut i: usize = 0;
            assert(values@.subrange(0, 0) =~= Seq::<JsValue>::empty());
            while i < n
                invariant
                    n == values@.len(),
                    i <= n,
                    value == JsValue::Array(*values),
                    converted_all(js_views(values@.subrange(0, i as int))) == Ok::<
                        Seq<ValueView>,
                        ConvertError,
                    >(value_views(made@)),
                decreases n - i,
            {
                let ghost done = values@.subrange(0, i as int);
                let ghost next = values@.subrange(0, i + 1);
                let ghost before = made@;
                proof {
                    assert(next.drop_last() =~= done);
                    assert(next.last() == values@[i as int]);
                    assert(js_views(next).drop_last() =~= js_views(done));
                }
                match do_convert(&values[i]) {
                    Err(e) => {
                        proof {
                            lemma_js_views_prefix(values@, i + 1);
                            lemma_converted_all_stays_failed(
                                js_views(values@),
                                i + 1,
                                e,
                                js_views(next),
                            );
                        }
                        return Err(e);
                    },
                    Ok(item) => {
                        made.push(item);
                        proof {
                            assert(made@.drop_last() =~= before);
                        }
                    },
                }
                i += 1;
            }
            assert(values@.subrange(0, n as int) =~= values@);
            Ok(Value::Array(made))
        },
        JsValue::Object(fields) => {
            let n = fields.len();
            let mut made: Vec<(String, Value)> = Vec::new();
            let mut i: usize = 0;
            assert(fields@.subrange(0, 0) =~= Seq::<(String, JsValue)>::empty());
            while i < n
                invariant
                    n == fields@.len(),
                    i <= n,
                    value == JsValue::Object(*fields),
                    converted_fields(js_fields(fields@.subrange(0, i as int))) == Ok::<
                        Seq<(Seq<char>, ValueView)>,
                        ConvertError,
                    >(value_fields(made@)),
                decreases n - i,
            {
                let ghost done = fields@.subrange(0, i as int);
                let ghost next = fields@.subrange(0, i + 1);
                let ghost before = made@;
                proof {
                    assert(next.drop_last() =~= done);
                    assert(next.last() == fields@[i as int]);
                    assert(js_fields(next).drop_last() =~= js_fields(done));
                }
                match do_convert(&fields[i].1) {
                    Err(e) => {
                        proof {
                            lemma_js_fields_prefix(fields@, i + 1);
                            lemma_converted_fields_stays_failed(
                                js_fields(fields@),
                                i + 1,
                                e,
                                js_fields(next),
                            );
                        }
                        return Err(e);
                    },
                    Ok(item) => {
                        made.push((fields[i].0.clone(), item));
                        proof {
                            assert(made@.drop_last() =~= before);
                        }
                    },
                }
                i += 1;
            }
            assert(fields@.subrange(0, n as int) =~= fields@);
            Ok(Value::Object(made))
        },
        JsValue::Unknown => Err(ConvertError::UnknownValue),
    }
}

proof fn lemma_js_views_prefix(values: Seq<JsValue>, k: int)
    requires
        0 <= k <= values.len(),
    ensures
        js_views(values.subrange(0, k)) == js_views(values).subrange(0, k),
        js_views(values).len() == values.len(),
    decreases values.len(),
{
    if values.len() == 0 {
        assert(values.subrange(0, k) =~= values);
        assert(js_views(values).subrange(0, k) =~= js_views(values));
    } else if k == values.len() {
        lemma_js_views_prefix(values.drop_last(), k - 1);
        assert(values.subrange(0, k) =~= values);
        assert(js_views(values).subrange(0, k) =~= js_views(values));
    } else {
        lemma_js_views_prefix(values.drop_last(), k);
        assert(values.drop_last().subrange(0, k) =~= values.subrange(0, k));
        assert(js_views(values.drop_last()).subrange(0, k) =~= js_views(values).subrange(0, k));
    }
}

proof fn lemma_js_fields_prefix(fields: Seq<(String, JsValue)>, k: int)
    requires
        0 <= k <= fields.len(),
    ensures
        js_fields(fields.subrange(0, k)) == js_fields(fields).subrange(0, k),
        js_fields(fields).len() == fields.len(),
    decreases fields.len(),
{
    if fields.len() == 0 {
        assert(fields.subrange(0, k) =~= fields);
        assert(js_fields(fields).subrange(0, k) =~= js_fields(fields));
    } else if k == fields.len() {
        lemma_js_fields_prefix(fields.drop_last(), k - 1);
        assert(fields.subrange(0, k) =~= fields);
        assert(js_fields(fields).subrange(0, k) =~= js_fields(fields));
    } else {
        lemma_js_fields_prefix(fields.drop_last(), k);
        assert(fields.drop_last().subrange(0, k) =~= fields.subrange(0, k));
        assert(js_fields(fields.drop_last()).subrange(0, k) =~= js_fields(fields).subrange(0, k));
    }
}

/// Where the first `k` values cannot be turned into a tree, the whole list
/// cannot, for the same reason.
proof fn lemma_converted_all_stays_failed(
    values: Seq<JsView>,
    k: int,
    e: ConvertError,
    prefix: Seq<JsView>,
)
    requires
        0 <= k <= values.len(),
        prefix == values.subrange(0, k),
        converted_all(prefix) == Err::<Seq<ValueView>, ConvertError>(e),
    ensures
        converted_all(values) == Err::<Seq<ValueView>, ConvertError>(e),
    decreases values.len(),
{
    if k == values.len() {
        assert(values.subrange(0, k) =~= values);
    } else {
        assert(values.drop_last().subrange(0, k) =~= values.subrange(0, k));
        lemma_converted_all_stays_failed(values.drop_last(), k, e, prefix);
    }
}

proof fn lemma_converted_fields_stays_failed(
    fields: Seq<(Seq<char>, JsView)>,
    k: int,
    e: ConvertError,
    prefix: Seq<(Seq<char>, JsView)>,
)
    requires
        0 <= k <= fields.len(),
        prefix == fields.subrange(0, k),
        converted_fields(prefix) == Err::<Seq<(Seq<char>, ValueView)>, ConvertError>(e),
    ensures
        converted_fields(fields) == Err::<Seq<(Seq<char>, ValueView)>, ConvertError>(e),
    decreases fields.len(),
{
    if k == fields.len() {
        assert(fields.subrange(0, k) =~= fields);
    } else {
        assert(fields.drop_last().subrange(0, k) =~= fields.subrange(0, k));
        lemma_converted_fields_stays_failed(fields.drop_last(), k, e, prefix);
    }
}

/// Turns what a reporter script handed back into the report.
pub fn convert_report(value: &JsValue) -> (made: Result<Value, ConvertError>)
    ensures
        match report_of(value@) {
            Ok(tree) => made.is_ok() && made.unwrap()@ == tree,
            Err(e) => made == Err::<Value, ConvertError>(e),
        },
{
    match value {
        JsValue::Object(_) => do_convert(value),
        _ => Err(ConvertError::NotAnObject),
    }
}

/// The text to evaluate for the reporter script `source`.
pub fn wrap_reporter_source(source: &str) -> (wrapped: String)
    ensures
        wrapped@ == wrapped_source(source@),
{
    let mut wrapped = String::from_str("( function(DATA){");
    wrapped.append(source);
    wrapped.append("} )( JSON.parse(DATA) )");
    wrapped
}

impl ConvertError {
    pub open spec fn spec_message(self) -> Seq<char> {
        match self {
            ConvertError::InvalidFloat => "Invalid float number"@,
            ConvertError::UnknownValue => "Unknown value detected"@,
            ConvertError::NotAnObject => "Unknown return value by the reporter script"@,
        }
    }

    /// The error in words.
    pub fn message(&self) -> (text: String)
        ensures
            text@ == self.spec_message(),
    {
        match self {
            ConvertError::InvalidFloat => String::from_str("Invalid float number"),
            ConvertError::UnknownValue => String::from_str("Unknown value detected"),
            ConvertError::NotAnObject => String::from_str(
                "Unknown return value by the reporter script",
            ),
        }
    }
}

} // verus!
