use vstd::prelude::*;
use vstd::string::StringExecFns;

verus! {

/// An input literal of a query, or a reference to a bound variable.
#[derive(Debug)]
pub enum InputValue {
    Null,
    Int(i64),
    String(String),
    Boolean(bool),
    Enum(String),
    Variable(String),
    List(Vec<InputValue>),
    Object(Vec<(String, InputValue)>),
}

/// The variables bound for one execution, by name.
pub type Variables = Vec<(String, InputValue)>;

/// The scalar type of a declared input field.
#[derive(Clone, Copy, Debug, PartialEq, Eq, Structural)]
pub enum ScalarKind {
    Int,
    String,
    Boolean,
}

/// The value a declared input field takes: a scalar of its kind, or null.
#[derive(Clone, Debug, PartialEq, Eq)]
pub enum FieldValue {
    Null,
    Int(i64),
    String(String),
    Boolean(bool),
}

pub enum FieldValueView {
    Null,
    Int(int),
    Str(Seq<char>),
    Bool(bool),
}

impl View for FieldValue {
    type V = FieldValueView;

    open spec fn view(&self) -> FieldValueView {
        match self {
            FieldValue::Null => FieldValueView::Null,
            FieldValue::Int(i) => FieldValueView::Int(*i as int),
            FieldValue::String(s) => FieldValueView::Str(s@),
            FieldValue::Boolean(b) => FieldValueView::Bool(*b),
        }
    }
}

/// A field of an input-object type, with its default if it declares one.
#[derive(Debug)]
pub struct InputField {
    pub name: String,
    pub description: Option<String>,
    pub kind: ScalarKind,
    pub non_null: bool,
    pub default_value: Option<FieldValue>,
}

/// An input-object type: its name, description and fields in declaration order.
#[derive(Debug)]
pub struct InputObjectMeta {
    pub name: String,
    pub description: Option<String>,
    pub fields: Vec<InputField>,
}

/// The value of the first entry named `name`, if any.
pub open spec fn entry_value(entries: Seq<(String, InputValue)>, name: Seq<char>) -> Option<InputValue>
    decreases entries.len(),
{
    if entries.len() == 0 {
        None
    } else if entries[0].0@ == name {
        Some(entries[0].1)
    } else {
        entry_value(entries.drop_first(), name)
    }
}

/// The value supplied for a field: the literal itself, or what its variable is
/// bound to; `None` when nothing is supplied or the variable is unbound.
pub open spec fn supplied_value(
    entries: Seq<(String, InputValue)>,
    vars: Seq<(String, InputValue)>,
    name: Seq<char>,
) -> Option<InputValue> {
    match entry_value(entries, name) {
        Some(InputValue::Variable(v)) => entry_value(vars, v@),
        other => other,
    }
}

/// A supplied value read as a field of the given kind; `None` on a mismatch.
pub open spec fn coerce_scalar(v: InputValue, kind: ScalarKind, non_null: bool) -> Option<FieldValueView> {
    match v {
        InputValue::Null => if non_null {
            None
        } else {
            Some(FieldValueView::Null)
        },
        InputValue::Int(i) => if kind == ScalarKind::Int {
            Some(FieldValueView::Int(i as int))
        } else {
            None
        },
        InputValue::String(s) => if kind == ScalarKind::String {
            Some(FieldValueView::Str(s@))
        } else {
            None
        },
        InputValue::Boolean(b) => if kind == ScalarKind::Boolean {
            Some(FieldValueView::Bool(b))
        } else {
            None
        },
        _ => None,
    }
}

/// The value a field takes: what is supplied for it, else its default, else
/// null when it is nullable; `None` when coercion fails.
pub open spec fn coerce_field(
    f: InputField,
    entries: Seq<(String, InputValue)>,
    vars: Seq<(String, InputValue)>,
) -> Option<FieldValueView> {
    match supplied_value(entries, vars, f.name@) {
        Some(v) => coerce_scalar(v, f.kind, f.non_null),
        None => match f.default_value {
            Some(d) => Some(d@),
            None => if f.non_null {
                None
            } else {
                Some(FieldValueView::Null)
            },
        },
    }
}

fn find_entry<'a>(entries: &'a Vec<(String, InputValue)>, name: &String) -> (r: Option<&'a InputValue>)
    ensures
        r is Some <==> entry_value(entries@, name@) is Some,
        r matches Some(v) ==> entry_value(entries@, name@) == Some(*v),
{
    let mut i: usize = 0;
    proof {
        assert(entries@.skip(0) =~= entries@);
    }
    while i < entries.len()
        invariant
            i <= entries.len(),
            entry_value(entries@.skip(i as int), name@) == entry_value(entries@, name@),
        decreases entries.len() - i,
    {
        proof {
            assert(entries@.skip(i as int).drop_first() =~= entries@.skip(i + 1));
        }
        if entries[i].0.eq(name) {
            return Some(&entries[i].1);
        }
        i = i + 1;
    }
    None
}

fn coerce_field_value(f: &InputField, entries: &Vec<(String, InputValue)>, vars: &Variables) -> (r: Option<FieldValue>)
    ensures
        r is Some <==> coerce_field(*f, entries@, vars@) is Some,
        r matches Some(v) ==> coerce_field(*f, entries@, vars@) == Some(v@),
{
    let supplied = match find_entry(entries, &f.name) {
        Some(InputValue::Variable(v)) => find_entry(vars, v),
        other => other,
    };
    match supplied {
        Some(v) => match v {
            InputValue::Null => if f.non_null {
                None
            } else {
                Some(FieldValue::Null)
            },
            InputValue::Int(i) => if f.kind == ScalarKind::Int {
                Some(FieldValue::Int(*i))
            } else {
                None
            },
            InputValue::String(s) => if f.kind == ScalarKind::String {
                Some(FieldValue::String(s.clone()))
            } else {
                None
            },
            InputValue::Boolean(b) => if f.kind == ScalarKind::Boolean {
                Some(FieldValue::Boolean(*b))
            } else {
                None
            },
            _ => None,
        },
        None => match &f.default_value {
            Some(d) => Some(copy_field_value(d)),
            None => if f.non_null {
                None
            } else {
                Some(FieldValue::Null)
            },
        },
    }
}

fn copy_field_value(v: &FieldValue) -> (r: FieldValue)
    ensures
        r@ == v@,
{
    match v {
        FieldValue::Null => FieldValue::Null,
        FieldValue::Int(i) => FieldValue::Int(*i),
        FieldValue::String(s) => FieldValue::String(s.clone()),
        FieldValue::Boolean(b) => FieldValue::Boolean(*b),
    }
}

/// Whether every field of `fields` coerces.
pub open spec fn all_fields_coerce(
    fields: Seq<InputField>,
    entries: Seq<(String, InputValue)>,
    vars: Seq<(String, InputValue)>,
) -> bool {
    forall|i: int| 0 <= i < fields.len() ==> (#[trigger] coerce_field(fields[i], entries, vars)) is Some
}

/// Whether `value` is an object literal on which every field of `fields` coerces.
pub open spec fn object_coerces(fields: Seq<InputField>, value: InputValue, vars: Seq<(String, InputValue)>) -> bool {
    match value {
        InputValue::Object(entries) => all_fields_coerce(fields, entries@, vars),
        _ => false,
    }
}

impl InputObjectMeta {
    /// Coerces an object literal to this type's fields, in declaration order,
    /// each paired with its name. Fields absent from the literal take their
    /// default; entries that name no field are ignored. `None` when the value
    /// is not an object or a field does not coerce.
    pub fn from_input_value(&self, value: &InputValue, vars: &Variables) -> (r: Option<Vec<(String, FieldValue)>>)
        ensures
            r is Some <==> object_coerces(self.fields@, *value, vars@),
            r matches Some(out) ==> value matches InputValue::Object(entries) && out@.len()
                == self.fields@.len() && forall|i: int|
                0 <= i < out@.len() ==> (#[trigger] out@[i]).0@ == self.fields@[i].name@ && Some(
                    out@[i].1@,
                ) == coerce_field(self.fields@[i], entries@, vars@),
    {
        let entries = match value {
            InputValue::Object(entries) => entries,
            _ => return None,
        };
        proof {
            assert(object_coerces(self.fields@, *value, vars@) == all_fields_coerce(self.fields@, entries@, vars@));
        }
        let mut out: Vec<(String, FieldValue)> = Vec::new();
        let mut i: usize = 0;
        while i < self.fields.len()
            invariant
                object_coerces(self.fields@, *value, vars@) == all_fields_coerce(self.fields@, entries@, vars@),
                *value == InputValue::Object(*entries),
                i <= self.fields.len(),
                out@.len() == i,
                forall|j: int| 0 <= j < i ==> (#[trigger] coerce_field(self.fields@[j], entries@, vars@)) is Some,
                forall|j: int|
                    0 <= j < i ==> (#[trigger] out@[j]).0@ == self.fields@[j].name@ && Some(out@[j].1@)
                        == coerce_field(self.fields@[j], entries@, vars@),
            decreases self.fields.len() - i,
        {
            let f = &self.fields[i];
            match coerce_field_value(f, entries, vars) {
                Some(v) => {
                    out.push((f.name.clone(), v));
                },
                None => {
                    proof {
                        assert(!(coerce_field(self.fields@[i as int], entries@, vars@) is Some));
                        assert(!all_fields_coerce(self.fields@, entries@, vars@));
                    }
                    return None;
                },
            }
            i = i + 1;
        }
        Some(out)
    }
}

pub open spec fn digit_char(d: nat) -> char {
    if d == 0 { '0' } else if d == 1 { '1' } else if d == 2 { '2' } else if d == 3 { '3' }
    else if d == 4 { '4' } else if d == 5 { '5' } else if d == 6 { '6' } else if d == 7 { '7' }
    else if d == 8 { '8' } else { '9' }
}

/// The decimal digits of `n`, most significant first, with no leading zero.
pub open spec fn nat_digits(n: nat) -> Seq<char>
    decreases n,
{
    if n < 10 {
        seq![digit_char(n)]
    } else {
        nat_digits(n / 10).push(digit_char(n % 10))
    }
}

/// The decimal text of an integer, with a leading `-` when it is negative.
pub open spec fn int_text(i: int) -> Seq<char> {
    if i < 0 {
        seq!['-'] + nat_digits((-i) as nat)
    } else {
        nat_digits(i as nat)
    }
}

/// The literal text of a field value, as a query would write it.
pub open spec fn value_text(v: FieldValueView) -> Seq<char> {
    match v {
        FieldValueView::Null => "null"@,
        FieldValueView::Int(i) => int_text(i),
        FieldValueView::Str(s) => seq!['"'] + s + seq!['"'],
        FieldValueView::Bool(b) => if b {
            "true"@
        } else {
            "false"@
        },
    }
}

/// What introspection shows as a field's `defaultValue`: the literal text of
/// its default, or nothing.
pub open spec fn default_text(f: InputField) -> Option<Seq<char>> {
    match f.default_value {
        Some(d) => Some(value_text(d@)),
        None => None,
    }
}

pub open spec fn opt_view(o: Option<String>) -> Option<Seq<char>> {
    match o {
        Some(t) => Some(t@),
        None => None,
    }
}

fn digit_str(d: u64) -> (r: &'static str)
    requires
        d < 10,
    ensures
        r@ == seq![digit_char(d as nat)],
{
    proof {
        reveal_strlit("0");
        reveal_strlit("1");
        reveal_strlit("2");
        reveal_strlit("3");
        reveal_strlit("4");
        reveal_strlit("5");
        reveal_strlit("6");
        reveal_strlit("7");
        reveal_strlit("8");
        reveal_strlit("9");
    }
    match d {
        0 => "0",
        1 => "1",
        2 => "2",
        3 => "3",
        4 => "4",
        5 => "5",
        6 => "6",
        7 => "7",
        8 => "8",
        _ => "9",
    }
}

fn append_digits(s: &mut String, n: u64)
    ensures
        final(s)@ == old(s)@ + nat_digits(n as nat),
    decreases n,
{
    if n >= 10 {
        append_digits(s, n / 10);
        s.append(digit_str(n % 10));
        proof {
            assert(final(s)@ =~= old(s)@ + nat_digits(n as nat));
        }
    } else {
        s.append(digit_str(n));
    }
}

impl FieldValue {
    /// The literal text of this value: `null`, a decimal integer, a quoted
    /// string, `true` or `false`.
    pub fn literal_text(&self) -> (r: String)
        ensures
            r@ == value_text(self@),
    {
        proof {
            reveal_strlit("null");
            reveal_strlit("true");
            reveal_strlit("false");
            reveal_strlit("-");
            reveal_strlit("\"");
        }
        match self {
            FieldValue::Null => String::from_str("null"),
            FieldValue::Int(i) => {
                let mut s = String::new();
                if *i < 0 {
                    s.append("-");
                    let m: u64 = (-(*i as i128)) as u64;
                    append_digits(&mut s, m);
                } else {
                    append_digits(&mut s, *i as u64);
                }
                proof {
                    assert(s@ =~= int_text(*i as int));
                }
                s
            },
            FieldValue::String(v) => {
                let mut s = String::from_str("\"");
                s.append(v.as_str());
                s.append("\"");
                proof {
                    assert(s@ =~= value_text(self@));
                }
                s
            },
            FieldValue::Boolean(b) => if *b {
                String::from_str("true")
            } else {
                String::from_str("false")
            },
        }
    }
}

impl InputObjectMeta {
    /// The `defaultValue` of each input field as introspection shows it, in
    /// declaration order.
    pub fn input_field_defaults(&self) -> (r: Vec<Option<String>>)
        ensures
            r@.len() == self.fields@.len(),
            forall|i: int| 0 <= i < r@.len() ==> opt_view(#[trigger] r@[i]) == default_text(self.fields@[i]),
    {
        let mut out: Vec<Option<String>> = Vec::new();
        let mut i: usize = 0;
        while i < self.fields.len()
            invariant
                i <= self.fields.len(),
                out@.len() == i,
                forall|j: int| 0 <= j < i ==> opt_view(#[trigger] out@[j]) == default_text(self.fields@[j]),
            decreases self.fields.len() - i,
        {
            let t = match &self.fields[i].default_value {
                Some(d) => Some(d.literal_text()),
                None => None,
            };
            out.push(t);
            i = i + 1;
        }
        out
    }

    /// The names of the input fields, in declaration order.
    pub fn input_field_names(&self) -> (r: Vec<String>)
        ensures
            r@.len() == self.fields@.len(),
            forall|i: int| 0 <= i < r@.len() ==> (#[trigger] r@[i])@ == self.fields@[i].name@,
    {
        let mut out: Vec<String> = Vec::new();
        let mut i: usize = 0;
        while i < self.fields.len()
            invariant
                i <= self.fields.len(),
                out@.len() == i,
                forall|j: int| 0 <= j < i ==> (#[trigger] out@[j])@ == self.fields@[j].name@,
            decreases self.fields.len() - i,
        {
            out.push(self.fields[i].name.clone());
            i = i + 1;
        }
        out
    }
}

/// The default shown for an input field is the literal text of its declared
/// default, and depends on that field alone: declaring the same fields in
/// another order shows the same default for each of them.
pub proof fn lemma_default_text_independent_of_order(
    a: Seq<InputField>,
    b: Seq<InputField>,
    i: int,
    j: int,
)
    requires
        0 <= i < a.len(),
        0 <= j < b.len(),
        a[i] == b[j],
    ensures
        default_text(a[i]) == default_text(b[j]),
        a[i].default_value matches Some(d) ==> default_text(a[i]) == Some(value_text(d@)),
{
}

} // verus!
