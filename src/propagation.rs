use vstd::prelude::*;
use crate::value::Value;

verus! {

broadcast use vstd::std_specs::vec::group_vec_axioms;

/// A scalar a resolver produced.
#[derive(Debug)]
pub enum Scalar {
    Int(i64),
    String(String),
    Boolean(bool),
}

/// What resolving one position of the result produced, before null
/// propagation: a failure, a null, a scalar, the fields of an object, or the
/// elements of a list together with whether its elements are non-null.
#[derive(Debug)]
pub enum Outcome {
    Failed,
    Null,
    Leaf(Scalar),
    Object(Vec<ResolvedField>),
    List(Vec<Outcome>, bool),
}

/// A selected field: its response key, whether its declared type is
/// non-null, and what resolving it produced.
#[derive(Debug)]
pub struct ResolvedField {
    pub name: String,
    pub non_null: bool,
    pub outcome: Outcome,
}

/// Whether the position holding `o` ends up null: it failed or is null, or
/// one of its non-null fields ends up null, or one of its elements does in a
/// list whose elements are non-null.
pub open spec fn ends_null(o: Outcome) -> bool
    decreases o, 0nat,
{
    match o {
        Outcome::Failed => true,
        Outcome::Null => true,
        Outcome::Leaf(_) => false,
        Outcome::Object(fs) => fields_null(fs@, fs@.len() as int),
        Outcome::List(items, non_null) => non_null && items_null(items@, items@.len() as int),
    }
}

/// Whether one of the first `n` fields is non-null and ends up null.
pub open spec fn fields_null(fs: Seq<ResolvedField>, n: int) -> bool
    decreases fs, n,
{
    if n <= 0 || n > fs.len() {
        false
    } else {
        fields_null(fs, n - 1) || (fs[n - 1].non_null && ends_null(fs[n - 1].outcome))
    }
}

/// Whether one of the first `n` elements ends up null.
pub open spec fn items_null(items: Seq<Outcome>, n: int) -> bool
    decreases items, n,
{
    if n <= 0 || n > items.len() {
        false
    } else {
        items_null(items, n - 1) || ends_null(items[n - 1])
    }
}

pub open spec fn scalar_is(s: Scalar, v: Value) -> bool {
    match (s, v) {
        (Scalar::Int(a), Value::Int(b)) => a == b,
        (Scalar::String(a), Value::String(b)) => a@ == b@,
        (Scalar::Boolean(a), Value::Boolean(b)) => a == b,
        _ => false,
    }
}

/// Whether `v` is the completed value of `o`, for a position that does not
/// end up null: scalars are kept, and every field or element that ends up
/// null has null in its slot.
pub open spec fn completes(o: Outcome, v: Value) -> bool
    decreases o, 0nat,
{
    match o {
        Outcome::Leaf(s) => scalar_is(s, v),
        Outcome::Object(fs) => match v {
            Value::Object(es) => es@.len() == fs@.len() && fields_complete(fs@, es@, fs@.len() as int),
            _ => false,
        },
        Outcome::List(items, _) => match v {
            Value::List(vs) => vs@.len() == items@.len() && items_complete(items@, vs@, items@.len() as int),
            _ => false,
        },
        _ => false,
    }
}

/// Whether the first `n` entries hold the keys and completed values of the
/// first `n` fields.
pub open spec fn fields_complete(fs: Seq<ResolvedField>, es: Seq<(String, Value)>, n: int) -> bool
    decreases fs, n,
{
    if n <= 0 {
        true
    } else if n > fs.len() || n > es.len() {
        false
    } else {
        fields_complete(fs, es, n - 1) && es[n - 1].0@ == fs[n - 1].name@ && if ends_null(
            fs[n - 1].outcome,
        ) {
            es[n - 1].1 is Null
        } else {
            completes(fs[n - 1].outcome, es[n - 1].1)
        }
    }
}

/// Whether the first `n` values are the completed first `n` elements.
pub open spec fn items_complete(items: Seq<Outcome>, vs: Seq<Value>, n: int) -> bool
    decreases items, n,
{
    if n <= 0 {
        true
    } else if n > items.len() || n > vs.len() {
        false
    } else {
        items_complete(items, vs, n - 1) && if ends_null(items[n - 1]) {
            vs[n - 1] is Null
        } else {
            completes(items[n - 1], vs[n - 1])
        }
    }
}

proof fn lemma_fields_null_grows(fs: Seq<ResolvedField>, m: int, n: int)
    requires
        fields_null(fs, m),
        m <= n <= fs.len(),
    ensures
        fields_null(fs, n),
    decreases n - m,
{
    if m < n {
        lemma_fields_null_grows(fs, m, n - 1);
    }
}

proof fn lemma_items_null_grows(items: Seq<Outcome>, m: int, n: int)
    requires
        items_null(items, m),
        m <= n <= items.len(),
    ensures
        items_null(items, n),
    decreases n - m,
{
    if m < n {
        lemma_items_null_grows(items, m, n - 1);
    }
}

proof fn lemma_fields_complete_push(fs: Seq<ResolvedField>, es: Seq<(String, Value)>, x: (String, Value), n: int)
    requires
        fields_complete(fs, es, n),
        n <= es.len(),
    ensures
        fields_complete(fs, es.push(x), n),
    decreases n,
{
    if n > 0 {
        lemma_fields_complete_push(fs, es, x, n - 1);
        assert(es.push(x)[n - 1] == es[n - 1]);
    }
}

proof fn lemma_items_complete_push(items: Seq<Outcome>, vs: Seq<Value>, x: Value, n: int)
    requires
        items_complete(items, vs, n),
        n <= vs.len(),
    ensures
        items_complete(items, vs.push(x), n),
    decreases n,
{
    if n > 0 {
        lemma_items_complete_push(items, vs, x, n - 1);
        assert(vs.push(x)[n - 1] == vs[n - 1]);
    }
}

fn scalar_value(s: &Scalar) -> (r: Value)
    ensures
        scalar_is(*s, r),
{
    match s {
        Scalar::Int(i) => Value::Int(*i),
        Scalar::String(t) => Value::String(t.clone()),
        Scalar::Boolean(b) => Value::Boolean(*b),
    }
}

/// Completes a resolved position: `None` when it ends up null, so that the
/// caller puts null in its slot if the slot is nullable, or ends up null in
/// turn if it is not.
#[verifier::loop_isolation(false)]
pub fn complete(o: &Outcome) -> (r: Option<Value>)
    ensures
        r is None <==> ends_null(*o),
        r matches Some(v) ==> completes(*o, v),
    decreases o,
{
    match o {
        Outcome::Failed => None,
        Outcome::Null => None,
        Outcome::Leaf(s) => Some(scalar_value(s)),
        Outcome::Object(fs) => {
            let mut es: Vec<(String, Value)> = Vec::new();
            let mut i: usize = 0;
            while i < fs.len()
                invariant
                    i <= fs@.len(),
                    es@.len() == i,
                    !fields_null(fs@, i as int),
                    fields_complete(fs@, es@, i as int),
                decreases fs@.len() - i,
            {
                proof {
                    assert(decreases_to!(*o => fs@[i as int].outcome));
                }
                let f = &fs[i];
                let ghost es0 = es@;
                match complete(&f.outcome) {
                    None => {
                        if f.non_null {
                            proof {
                                lemma_fields_null_grows(fs@, i + 1, fs@.len() as int);
                            }
                            return None;
                        }
                        es.push((f.name.clone(), Value::Null));
                    },
                    Some(v) => {
                        es.push((f.name.clone(), v));
                    },
                }
                proof {
                    lemma_fields_complete_push(fs@, es0, es@[i as int], i as int);
                    assert(es0.push(es@[i as int]) == es@);
                }
                i = i + 1;
            }
            Some(Value::Object(es))
        },
        Outcome::List(items, non_null) => {
            let mut vs: Vec<Value> = Vec::new();
            let mut i: usize = 0;
            while i < items.len()
                invariant
                    i <= items@.len(),
                    vs@.len() == i,
                    *non_null ==> !items_null(items@, i as int),
                    items_complete(items@, vs@, i as int),
                decreases items@.len() - i,
            {
                proof {
                    assert(decreases_to!(*o => items@[i as int]));
                }
                let ghost vs0 = vs@;
                match complete(&items[i]) {
                    None => {
                        if *non_null {
                            proof {
                                lemma_items_null_grows(items@, i + 1, items@.len() as int);
                            }
                            return None;
                        }
                        vs.push(Value::Null);
                    },
                    Some(v) => {
                        vs.push(v);
                    },
                }
                proof {
                    lemma_items_complete_push(items@, vs0, vs@[i as int], i as int);
                    assert(vs0.push(vs@[i as int]) == vs@);
                }
                i = i + 1;
            }
            Some(Value::List(vs))
        },
    }
}

/// The `data` of an execution whose root resolved to `root`: null when the
/// root ends up null, else its completed value.
pub fn complete_root(root: &Outcome) -> (r: Value)
    ensures
        ends_null(*root) ==> r is Null,
        !ends_null(*root) ==> completes(*root, r),
{
    match complete(root) {
        Some(v) => v,
        None => Value::Null,
    }
}

pub open spec fn fields_of(o: Outcome) -> Seq<ResolvedField> {
    match o {
        Outcome::Object(fs) => fs@,
        _ => Seq::empty(),
    }
}

pub open spec fn items_of(o: Outcome) -> Seq<Outcome> {
    match o {
        Outcome::List(items, _) => items@,
        _ => Seq::empty(),
    }
}

pub open spec fn entries_of(v: Value) -> Seq<(String, Value)> {
    match v {
        Value::Object(es) => es@,
        _ => Seq::empty(),
    }
}

pub open spec fn values_of(v: Value) -> Seq<Value> {
    match v {
        Value::List(vs) => vs@,
        _ => Seq::empty(),
    }
}

proof fn lemma_fields_complete_at(fs: Seq<ResolvedField>, es: Seq<(String, Value)>, n: int, k: int)
    requires
        fields_complete(fs, es, n),
        0 <= k < n,
    ensures
        es[k].0@ == fs[k].name@,
        ends_null(fs[k].outcome) ==> es[k].1 is Null,
        !ends_null(fs[k].outcome) ==> completes(fs[k].outcome, es[k].1),
    decreases n,
{
    if k < n - 1 {
        lemma_fields_complete_at(fs, es, n - 1, k);
    }
}

proof fn lemma_items_complete_at(items: Seq<Outcome>, vs: Seq<Value>, n: int, k: int)
    requires
        items_complete(items, vs, n),
        0 <= k < n,
    ensures
        ends_null(items[k]) ==> vs[k] is Null,
        !ends_null(items[k]) ==> completes(items[k], vs[k]),
    decreases n,
{
    if k < n - 1 {
        lemma_items_complete_at(items, vs, n - 1, k);
    }
}

/// When a non-null field of an object ends up null (its resolver failed),
/// the object ends up null too.
pub proof fn lemma_non_null_field_nulls_object(o: Outcome, i: int)
    requires
        o is Object,
        0 <= i < fields_of(o).len(),
        fields_of(o)[i].non_null,
        ends_null(fields_of(o)[i].outcome),
    ensures
        ends_null(o),
{
    lemma_fields_null_grows(fields_of(o), i + 1, fields_of(o).len() as int);
}

/// When a non-null leaf field fails, its parent ends up null. If the parent
/// field is itself non-null the null passes one level further, to the
/// grandparent, and so on up to a nullable field or the root. If the parent
/// is nullable it stops there: the grandparent, once completed, holds null in
/// the parent's slot.
pub proof fn lemma_null_propagation(grand: Outcome, j: int, i: int)
    requires
        grand is Object,
        0 <= j < fields_of(grand).len(),
        fields_of(grand)[j].outcome is Object,
        0 <= i < fields_of(fields_of(grand)[j].outcome).len(),
        fields_of(fields_of(grand)[j].outcome)[i].non_null,
        fields_of(fields_of(grand)[j].outcome)[i].outcome is Failed,
    ensures
        ends_null(fields_of(grand)[j].outcome),
        fields_of(grand)[j].non_null ==> ends_null(grand),
        forall|v: Value| #[trigger] completes(grand, v) ==> v is Object && entries_of(v)[j].1 is Null,
{
    let parent = fields_of(grand)[j];
    lemma_non_null_field_nulls_object(parent.outcome, i);
    if parent.non_null {
        lemma_non_null_field_nulls_object(grand, j);
    }
    assert forall|v: Value| #[trigger] completes(grand, v) implies v is Object && entries_of(v)[j].1 is Null by {
        lemma_fields_complete_at(fields_of(grand), entries_of(v), fields_of(grand).len() as int, j);
    }
}

/// An element of a list that ends up null nulls the whole list when the
/// list's elements are non-null; otherwise only its own slot is null.
pub proof fn lemma_list_element_null(o: Outcome, k: int)
    requires
        o is List,
        0 <= k < items_of(o).len(),
        ends_null(items_of(o)[k]),
    ensures
        (o matches Outcome::List(_, non_null) && non_null) ==> ends_null(o),
        forall|v: Value| #[trigger] completes(o, v) ==> v is List && values_of(v)[k] is Null,
{
    lemma_items_null_grows(items_of(o), k + 1, items_of(o).len() as int);
    assert forall|v: Value| #[trigger] completes(o, v) implies v is List && values_of(v)[k] is Null by {
        lemma_items_complete_at(items_of(o), values_of(v), items_of(o).len() as int, k);
    }
}

} // verus!
