//! Dynamically-typed document values: null, booleans, integers, text,
//! arrays, and nested field mappings, together with their mathematical
//! abstraction and the field operations the store is built on.

use vstd::prelude::*;

verus! {

/// Mathematical abstraction of a document value. A field mapping is kept as
/// a sequence of (name, value) pairs in insertion order; `obj_get` reads the
/// first pair with a given name.
#[verifier::ext_equal]
pub enum ValueView {
    Null,
    Bool(bool),
    Int(int),
    Text(Seq<char>),
    Arr(Seq<ValueView>),
    Obj(Seq<(Seq<char>, ValueView)>),
}

/// A dynamically-typed document value. A document is a `Value::Obj`; its
/// fields are kept in insertion order.
#[derive(Debug, PartialEq)]
pub enum Value {
    Null,
    Bool(bool),
    Int(i64),
    Text(String),
    Arr(Vec<Value>),
    Obj(Vec<(String, Value)>),
}

/// Abstraction of an exec value, defined by structural recursion.
pub open spec fn value_view(v: Value) -> ValueView
    decreases v,
{
    match v {
        Value::Null => ValueView::Null,
        Value::Bool(b) => ValueView::Bool(b),
        Value::Int(i) => ValueView::Int(i as int),
        Value::Text(s) => ValueView::Text(s@),
        Value::Arr(items) => {
            proof {
                assert(decreases_to!(v => v->Arr_0));
                assert(decreases_to!(v->Arr_0 => v->Arr_0@));
            }
            ValueView::Arr(arr_view(items@))
        },
        Value::Obj(fields) => {
            proof {
                assert(decreases_to!(v => v->Obj_0));
                assert(decreases_to!(v->Obj_0 => v->Obj_0@));
            }
            ValueView::Obj(fields_view(fields@))
        },
    }
}

/// Abstraction of a sequence of exec values, element by element.
pub open spec fn arr_view(items: Seq<Value>) -> Seq<ValueView>
    decreases items,
{
    if items.len() == 0 {
        Seq::empty()
    } else {
        seq![value_view(items[0])] + arr_view(items.drop_first())
    }
}

/// Abstraction of a sequence of exec (name, value) pairs, pair by pair.
pub open spec fn fields_view(fields: Seq<(String, Value)>) -> Seq<(Seq<char>, ValueView)>
    decreases fields,
{
    if fields.len() == 0 {
        Seq::empty()
    } else {
        proof {
            assert(decreases_to!(fields[0] => fields[0].1));
        }
        seq![(fields[0].0@, value_view(fields[0].1))] + fields_view(fields.drop_first())
    }
}

impl View for Value {
    type V = ValueView;

    open spec fn view(&self) -> ValueView {
        value_view(*self)
    }
}

/// Length and elements of the abstraction of a value sequence.
pub proof fn lemma_arr_view(items: Seq<Value>)
    ensures
        arr_view(items).len() == items.len(),
        forall|j: int| 0 <= j < items.len() ==> arr_view(items)[j] == value_view(items[j]),
    decreases items,
{
    if items.len() > 0 {
        lemma_arr_view(items.drop_first());
        assert forall|j: int| 0 <= j < items.len() implies arr_view(items)[j] == value_view(
            items[j],
        ) by {
            if j > 0 {
                assert(arr_view(items)[j] == arr_view(items.drop_first())[j - 1]);
                assert(items.drop_first()[j - 1] == items[j]);
            }
        }
    }
}

/// Length and elements of the abstraction of a field-pair sequence.
pub proof fn lemma_fields_view(fields: Seq<(String, Value)>)
    ensures
        fields_view(fields).len() == fields.len(),
        forall|j: int| 0 <= j < fields.len() ==> fields_view(fields)[j] == (
        fields[j].0@,
        value_view(fields[j].1),
        ),
    decreases fields,
{
    if fields.len() > 0 {
        lemma_fields_view(fields.drop_first());
        assert forall|j: int| 0 <= j < fields.len() implies fields_view(fields)[j] == (
        fields[j].0@,
        value_view(fields[j].1),
        ) by {
            if j > 0 {
                assert(fields_view(fields)[j] == fields_view(fields.drop_first())[j - 1]);
                assert(fields.drop_first()[j - 1] == fields[j]);
            }
        }
    }
}

/// First value stored under `name` in an object's field sequence, if any.
pub open spec fn obj_get(fields: Seq<(Seq<char>, ValueView)>, name: Seq<char>) -> Option<ValueView>
    decreases fields.len(),
{
    if fields.len() == 0 {
        None
    } else if fields[0].0 == name {
        Some(fields[0].1)
    } else {
        obj_get(fields.drop_first(), name)
    }
}

/// Field read on a value: only objects have fields.
pub open spec fn vget(v: ValueView, name: Seq<char>) -> Option<ValueView> {
    match v {
        ValueView::Obj(fields) => obj_get(fields, name),
        _ => None,
    }
}

/// Field write on an object's field sequence: the first pair with the given
/// name is replaced in place, and a missing name is appended at the end.
pub open spec fn obj_set(
    fields: Seq<(Seq<char>, ValueView)>,
    name: Seq<char>,
    val: ValueView,
) -> Seq<(Seq<char>, ValueView)>
    decreases fields.len(),
{
    if fields.len() == 0 {
        seq![(name, val)]
    } else if fields[0].0 == name {
        seq![(name, val)] + fields.drop_first()
    } else {
        seq![fields[0]] + obj_set(fields.drop_first(), name, val)
    }
}

/// Field write on a value: writing to null creates a fresh one-field object,
/// as assigning into a null document does.
pub open spec fn vset(v: ValueView, name: Seq<char>, val: ValueView) -> ValueView
    recommends
        v is Obj || v is Null,
{
    match v {
        ValueView::Obj(fields) => ValueView::Obj(obj_set(fields, name, val)),
        _ => ValueView::Obj(seq![(name, val)]),
    }
}

/// Removal of the first pair with the given name, if any.
pub open spec fn obj_remove(
    fields: Seq<(Seq<char>, ValueView)>,
    name: Seq<char>,
) -> Seq<(Seq<char>, ValueView)>
    decreases fields.len(),
{
    if fields.len() == 0 {
        fields
    } else if fields[0].0 == name {
        fields.drop_first()
    } else {
        seq![fields[0]] + obj_remove(fields.drop_first(), name)
    }
}

/// Field removal on a value: only objects change.
pub open spec fn vremove(v: ValueView, name: Seq<char>) -> ValueView {
    match v {
        ValueView::Obj(fields) => ValueView::Obj(obj_remove(fields, name)),
        _ => v,
    }
}

/// `obj_get` finds the pair at the first index whose name matches.
pub proof fn lemma_obj_get_at(fields: Seq<(Seq<char>, ValueView)>, name: Seq<char>, i: int)
    requires
        0 <= i < fields.len(),
        fields[i].0 == name,
        forall|j: int| 0 <= j < i ==> fields[j].0 != name,
    ensures
        obj_get(fields, name) == Some(fields[i].1),
    decreases i,
{
    if i > 0 {
        lemma_obj_get_at(fields.drop_first(), name, i - 1);
    }
}

/// `obj_get` misses when no pair's name matches.
pub proof fn lemma_obj_get_none(fields: Seq<(Seq<char>, ValueView)>, name: Seq<char>)
    requires
        forall|j: int| 0 <= j < fields.len() ==> fields[j].0 != name,
    ensures
        obj_get(fields, name) is None,
    decreases fields.len(),
{
    if fields.len() > 0 {
        lemma_obj_get_none(fields.drop_first(), name);
    }
}

/// `obj_set` updates in place at the first matching index.
pub proof fn lemma_obj_set_at(
    fields: Seq<(Seq<char>, ValueView)>,
    name: Seq<char>,
    val: ValueView,
    i: int,
)
    requires
        0 <= i < fields.len(),
        fields[i].0 == name,
        forall|j: int| 0 <= j < i ==> fields[j].0 != name,
    ensures
        obj_set(fields, name, val) =~= fields.update(i, (name, val)),
    decreases i,
{
    if i > 0 {
        lemma_obj_set_at(fields.drop_first(), name, val, i - 1);
    }
}

/// `obj_set` appends when no pair's name matches.
pub proof fn lemma_obj_set_none(
    fields: Seq<(Seq<char>, ValueView)>,
    name: Seq<char>,
    val: ValueView,
)
    requires
        forall|j: int| 0 <= j < fields.len() ==> fields[j].0 != name,
    ensures
        obj_set(fields, name, val) =~= fields.push((name, val)),
    decreases fields.len(),
{
    if fields.len() > 0 {
        lemma_obj_set_none(fields.drop_first(), name, val);
    }
}

/// Reading after writing on a field sequence: the written field reads back
/// as written, any other field is untouched.
pub proof fn lemma_obj_get_set(
    fields: Seq<(Seq<char>, ValueView)>,
    name: Seq<char>,
    val: ValueView,
    other: Seq<char>,
)
    ensures
        obj_get(obj_set(fields, name, val), other) == if other == name {
            Some(val)
        } else {
            obj_get(fields, other)
        },
    decreases fields.len(),
{
    if fields.len() == 0 {
        let s = seq![(name, val)];
        assert(obj_set(fields, name, val) == s);
        assert(s.len() == 1);
        assert(s[0] == (name, val));
        assert(s.drop_first() =~= Seq::<(Seq<char>, ValueView)>::empty());
        assert(obj_get(s.drop_first(), other) is None);
    } else if fields[0].0 == name {
        let s = seq![(name, val)] + fields.drop_first();
        assert(obj_set(fields, name, val) == s);
        assert(s.len() == fields.len());
        assert(s[0] == (name, val));
        assert(s.drop_first() =~= fields.drop_first());
        assert(obj_get(s, other) == if other == name {
            Some(val)
        } else {
            obj_get(fields.drop_first(), other)
        });
    } else {
        let s = seq![fields[0]] + obj_set(fields.drop_first(), name, val);
        assert(obj_set(fields, name, val) == s);
        assert(s.len() == 1 + obj_set(fields.drop_first(), name, val).len());
        assert(s[0] == fields[0]);
        assert(s.drop_first() =~= obj_set(fields.drop_first(), name, val));
        lemma_obj_get_set(fields.drop_first(), name, val, other);
        assert(obj_get(s, other) == if other == fields[0].0 {
            Some(fields[0].1)
        } else {
            obj_get(obj_set(fields.drop_first(), name, val), other)
        });
    }
}

/// Reading after writing on a value: the written field reads back as
/// written, any other field is untouched.
pub proof fn lemma_vget_vset(v: ValueView, name: Seq<char>, val: ValueView, other: Seq<char>)
    requires
        v is Obj || v is Null,
    ensures
        vget(vset(v, name, val), other) == if other == name {
            Some(val)
        } else {
            vget(v, other)
        },
{
    match v {
        ValueView::Obj(fields) => {
            lemma_obj_get_set(fields, name, val, other);
            assert(vset(v, name, val) == ValueView::Obj(obj_set(fields, name, val)));
            assert(vget(vset(v, name, val), other) == obj_get(obj_set(fields, name, val), other));
        },
        _ => {
            let s = seq![(name, val)];
            assert(vset(v, name, val) == ValueView::Obj(s));
            assert(s.len() == 1);
            assert(s[0] == (name, val));
            assert(s.drop_first() =~= Seq::<(Seq<char>, ValueView)>::empty());
            assert(obj_get(s.drop_first(), other) is None);
        },
    }
}

/// `obj_remove` removes exactly the pair at the first matching index.
pub proof fn lemma_obj_remove_at(fields: Seq<(Seq<char>, ValueView)>, name: Seq<char>, i: int)
    requires
        0 <= i < fields.len(),
        fields[i].0 == name,
        forall|j: int| 0 <= j < i ==> fields[j].0 != name,
    ensures
        obj_remove(fields, name) =~= fields.remove(i),
    decreases i,
{
    if i > 0 {
        lemma_obj_remove_at(fields.drop_first(), name, i - 1);
    }
}

/// `obj_remove` keeps the sequence when no pair's name matches.
pub proof fn lemma_obj_remove_none(fields: Seq<(Seq<char>, ValueView)>, name: Seq<char>)
    requires
        forall|j: int| 0 <= j < fields.len() ==> fields[j].0 != name,
    ensures
        obj_remove(fields, name) =~= fields,
    decreases fields.len(),
{
    if fields.len() > 0 {
        lemma_obj_remove_none(fields.drop_first(), name);
    }
}

/// Character-for-character equality of two string slices.
pub fn str_eq(a: &str, b: &str) -> (r: bool)
    ensures
        r == (a@ == b@),
{
    let la = a.unicode_len();
    let lb = b.unicode_len();
    if la != lb {
        return false;
    }
    let mut i: usize = 0;
    while i < la
        invariant
            i <= la,
            la == a@.len(),
            la == b@.len(),
            forall|j: int| 0 <= j < i ==> a@[j] == b@[j],
        decreases la - i,
    {
        if a.get_char(i) != b.get_char(i) {
            return false;
        }
        i += 1;
    }
    proof {
        assert(a@ =~= b@);
    }
    true
}

/// Deep structural equality of two values, decided against the views.
pub fn value_eq(a: &Value, b: &Value) -> (r: bool)
    ensures
        r == (a@ == b@),
    decreases a,
{
    match (a, b) {
        (Value::Null, Value::Null) => true,
        (Value::Bool(x), Value::Bool(y)) => x == y,
        (Value::Int(x), Value::Int(y)) => x == y,
        (Value::Text(x), Value::Text(y)) => str_eq(x.as_str(), y.as_str()),
        (Value::Arr(xs), Value::Arr(ys)) => {
            proof {
                lemma_arr_view(xs@);
                lemma_arr_view(ys@);
            }
            if xs.len() != ys.len() {
                return false;
            }
            let n = xs.len();
            let mut i: usize = 0;
            while i < n
                invariant
                    i <= n,
                    n == xs@.len(),
                    n == ys@.len(),
                    *a == Value::Arr(*xs),
                    *b == Value::Arr(*ys),
                    forall|j: int| 0 <= j < i ==> xs@[j]@ == ys@[j]@,
                decreases n - i,
            {
                proof {
                    lemma_arr_view(xs@);
                    lemma_arr_view(ys@);
                    assert(decreases_to!(*a => a->Arr_0));
                    assert(decreases_to!(*xs => xs@));
                    assert(decreases_to!(xs@ => xs@[i as int]));
                    assert(decreases_to!(*a => xs@[i as int]));
                    assert(arr_view(xs@)[i as int] == value_view(xs@[i as int]));
                    assert(arr_view(ys@)[i as int] == value_view(ys@[i as int]));
                }
                if !value_eq(&xs[i], &ys[i]) {
                    return false;
                }
                i += 1;
            }
            proof {
                lemma_arr_view(xs@);
                lemma_arr_view(ys@);
                assert(arr_view(xs@) =~= arr_view(ys@));
            }
            true
        },
        (Value::Obj(xs), Value::Obj(ys)) => {
            proof {
                lemma_fields_view(xs@);
                lemma_fields_view(ys@);
            }
            if xs.len() != ys.len() {
                return false;
            }
            let n = xs.len();
            let mut i: usize = 0;
            while i < n
                invariant
                    i <= n,
                    n == xs@.len(),
                    n == ys@.len(),
                    *a == Value::Obj(*xs),
                    *b == Value::Obj(*ys),
                    forall|j: int| 0 <= j < i ==> xs@[j].0@ == ys@[j].0@ && xs@[j].1@ == ys@[j].1@,
                decreases n - i,
            {
                proof {
                    lemma_fields_view(xs@);
                    lemma_fields_view(ys@);
                    assert(decreases_to!(*a => a->Obj_0));
                    assert(decreases_to!(*xs => xs@));
                    assert(decreases_to!(xs@ => xs@[i as int]));
                    assert(decreases_to!(xs@[i as int] => xs@[i as int].1));
                    assert(decreases_to!(*a => xs@[i as int].1));
                    assert(fields_view(xs@)[i as int] == (xs@[i as int].0@, value_view(
                        xs@[i as int].1,
                    )));
                    assert(fields_view(ys@)[i as int] == (ys@[i as int].0@, value_view(
                        ys@[i as int].1,
                    )));
                }
                if !str_eq(xs[i].0.as_str(), ys[i].0.as_str()) {
                    return false;
                }
                if !value_eq(&xs[i].1, &ys[i].1) {
                    return false;
                }
                i += 1;
            }
            proof {
                lemma_fields_view(xs@);
                lemma_fields_view(ys@);
                assert(fields_view(xs@) =~= fields_view(ys@));
            }
            true
        },
        _ => false,
    }
}

/// Index of the first field pair named `name`, scanning in insertion order.
pub fn find_field(fields: &Vec<(String, Value)>, name: &str) -> (r: Option<usize>)
    ensures
        match r {
            Some(i) => i < fields@.len() && fields@[i as int].0@ == name@ && forall|j: int|
                0 <= j < i ==> fields@[j].0@ != name@,
            None => forall|j: int| 0 <= j < fields@.len() ==> fields@[j].0@ != name@,
        },
{
    let n = fields.len();
    let mut i: usize = 0;
    while i < n
        invariant
            i <= n,
            n == fields@.len(),
            forall|j: int| 0 <= j < i ==> fields@[j].0@ != name@,
        decreases n - i,
    {
        if str_eq(fields[i].0.as_str(), name) {
            return Some(i);
        }
        i += 1;
    }
    None
}

/// Read of a top-level field: `Some` exactly when the view has the field.
pub fn get_field<'a>(v: &'a Value, name: &str) -> (r: Option<&'a Value>)
    ensures
        match r {
            Some(x) => vget(v@, name@) == Some(x@),
            None => vget(v@, name@) is None,
        },
{
    match v {
        Value::Obj(fields) => {
            proof {
                lemma_fields_view(fields@);
            }
            match find_field(fields, name) {
                Some(i) => {
                    proof {
                        assert forall|j: int| 0 <= j < i implies fields_view(fields@)[j].0
                            != name@ by {
                            assert(fields_view(fields@)[j] == (fields@[j].0@, value_view(
                                fields@[j].1,
                            )));
                        }
                        assert(fields_view(fields@)[i as int] == (fields@[i as int].0@, value_view(
                            fields@[i as int].1,
                        )));
                        lemma_obj_get_at(fields_view(fields@), name@, i as int);
                    }
                    Some(&fields[i].1)
                },
                None => {
                    proof {
                        assert forall|j: int| 0 <= j < fields_view(fields@).len() implies
                            fields_view(fields@)[j].0 != name@ by {
                            assert(fields_view(fields@)[j] == (fields@[j].0@, value_view(
                                fields@[j].1,
                            )));
                        }
                        lemma_obj_get_none(fields_view(fields@), name@);
                    }
                    None
                },
            }
        },
        _ => None,
    }
}

/// Write of a top-level field: replaces the first pair with that name in
/// place, appends a missing one, and turns a null value into a one-field
/// object.
pub fn set_field(doc: Value, name: &str, val: Value) -> (r: Value)
    requires
        doc@ is Obj || doc@ is Null,
    ensures
        r@ == vset(doc@, name@, val@),
{
    match doc {
        Value::Obj(mut fields) => {
            let ghost orig = fields@;
            proof {
                lemma_fields_view(orig);
            }
            match find_field(&fields, name) {
                Some(i) => {
                    let pair = fields.remove(i);
                    fields.insert(i, (pair.0, val));
                    proof {
                        assert(fields@ =~= orig.update(i as int, (pair.0, val)));
                        lemma_fields_view(fields@);
                        assert forall|j: int| 0 <= j < i implies fields_view(orig)[j].0
                            != name@ by {
                            assert(fields_view(orig)[j] == (orig[j].0@, value_view(orig[j].1)));
                        }
                        assert(fields_view(orig)[i as int] == (orig[i as int].0@, value_view(
                            orig[i as int].1,
                        )));
                        lemma_obj_set_at(fields_view(orig), name@, val@, i as int);
                        assert forall|j: int| 0 <= j < fields@.len() implies fields_view(fields@)[j]
                            == fields_view(orig).update(i as int, (name@, val@))[j] by {
                            assert(fields_view(fields@)[j] == (fields@[j].0@, value_view(
                                fields@[j].1,
                            )));
                            if j != i {
                                assert(fields_view(orig)[j] == (orig[j].0@, value_view(orig[j].1)));
                            }
                        }
                        assert(fields_view(fields@) =~= fields_view(orig).update(
                            i as int,
                            (name@, val@),
                        ));
                    }
                    Value::Obj(fields)
                },
                None => {
                    fields.push((name.to_owned(), val));
                    proof {
                        lemma_fields_view(fields@);
                        assert forall|j: int| 0 <= j < fields_view(orig).len() implies fields_view(
                            orig,
                        )[j].0 != name@ by {
                            assert(fields_view(orig)[j] == (orig[j].0@, value_view(orig[j].1)));
                        }
                        lemma_obj_set_none(fields_view(orig), name@, val@);
                        assert forall|j: int| 0 <= j < fields@.len() implies fields_view(fields@)[j]
                            == fields_view(orig).push((name@, val@))[j] by {
                            assert(fields_view(fields@)[j] == (fields@[j].0@, value_view(
                                fields@[j].1,
                            )));
                            if j < orig.len() {
                                assert(fields_view(orig)[j] == (orig[j].0@, value_view(orig[j].1)));
                            }
                        }
                        assert(fields_view(fields@) =~= fields_view(orig).push((name@, val@)));
                    }
                    Value::Obj(fields)
                },
            }
        },
        Value::Null => {
            let mut fields: Vec<(String, Value)> = Vec::new();
            fields.push((name.to_owned(), val));
            proof {
                lemma_fields_view(fields@);
                assert(fields_view(fields@) =~= seq![(name@, val@)]);
            }
            Value::Obj(fields)
        },
        other => {
            proof {
                assert(false);
            }
            other
        },
    }
}

/// Removal of a top-level field: drops the first pair with that name from
/// an object; any other value is left as it is.
pub fn remove_field(doc: Value, name: &str) -> (r: Value)
    ensures
        r@ == vremove(doc@, name@),
{
    match doc {
        Value::Obj(mut fields) => {
            let ghost orig = fields@;
            proof {
                lemma_fields_view(orig);
            }
            match find_field(&fields, name) {
                Some(i) => {
                    let _removed = fields.remove(i);
                    proof {
                        lemma_fields_view(fields@);
                        assert forall|j: int| 0 <= j < i implies fields_view(orig)[j].0
                            != name@ by {
                            assert(fields_view(orig)[j] == (orig[j].0@, value_view(orig[j].1)));
                        }
                        assert(fields_view(orig)[i as int] == (orig[i as int].0@, value_view(
                            orig[i as int].1,
                        )));
                        lemma_obj_remove_at(fields_view(orig), name@, i as int);
                        assert forall|j: int| 0 <= j < fields@.len() implies fields_view(fields@)[j]
                            == fields_view(orig).remove(i as int)[j] by {
                            assert(fields_view(fields@)[j] == (fields@[j].0@, value_view(
                                fields@[j].1,
                            )));
                            if j < i {
                                assert(fields_view(orig)[j] == (orig[j].0@, value_view(orig[j].1)));
                            } else {
                                assert(fields_view(orig)[j + 1] == (orig[j + 1].0@, value_view(
                                    orig[j + 1].1,
                                )));
                            }
                        }
                        assert(fields_view(fields@) =~= fields_view(orig).remove(i as int));
                    }
                    Value::Obj(fields)
                },
                None => {
                    proof {
                        assert forall|j: int| 0 <= j < fields_view(orig).len() implies fields_view(
                            orig,
                        )[j].0 != name@ by {
                            assert(fields_view(orig)[j] == (orig[j].0@, value_view(orig[j].1)));
                        }
                        lemma_obj_remove_none(fields_view(orig), name@);
                    }
                    Value::Obj(fields)
                },
            }
        },
        other => other,
    }
}

/// A deep copy whose view is the view of the original.
pub fn dup_value(v: &Value) -> (r: Value)
    ensures
        r@ == v@,
    decreases v,
{
    match v {
        Value::Null => Value::Null,
        Value::Bool(b) => Value::Bool(*b),
        Value::Int(i) => Value::Int(*i),
        Value::Text(s) => Value::Text(s.clone()),
        Value::Arr(xs) => {
            let n = xs.len();
            let mut out: Vec<Value> = Vec::new();
            let mut i: usize = 0;
            while i < n
                invariant
                    i <= n,
                    n == xs@.len(),
                    *v == Value::Arr(*xs),
                    out@.len() == i,
                    forall|j: int| 0 <= j < i ==> out@[j]@ == xs@[j]@,
                decreases n - i,
            {
                proof {
                    assert(decreases_to!(*v => v->Arr_0));
                    assert(decreases_to!(*xs => xs@));
                    assert(decreases_to!(xs@ => xs@[i as int]));
                    assert(decreases_to!(*v => xs@[i as int]));
                }
                out.push(dup_value(&xs[i]));
                i += 1;
            }
            proof {
                lemma_arr_view(xs@);
                lemma_arr_view(out@);
                assert(arr_view(out@) =~= arr_view(xs@));
            }
            Value::Arr(out)
        },
        Value::Obj(xs) => {
            let n = xs.len();
            let mut out: Vec<(String, Value)> = Vec::new();
            let mut i: usize = 0;
            while i < n
                invariant
                    i <= n,
                    n == xs@.len(),
                    *v == Value::Obj(*xs),
                    out@.len() == i,
                    forall|j: int| 0 <= j < i ==> out@[j].0@ == xs@[j].0@ && out@[j].1@
                        == xs@[j].1@,
                decreases n - i,
            {
                proof {
                    assert(decreases_to!(*v => v->Obj_0));
                    assert(decreases_to!(*xs => xs@));
                    assert(decreases_to!(xs@ => xs@[i as int]));
                    assert(decreases_to!(xs@[i as int] => xs@[i as int].1));
                    assert(decreases_to!(*v => xs@[i as int].1));
                }
                let key = xs[i].0.clone();
                let val = dup_value(&xs[i].1);
                out.push((key, val));
                i += 1;
            }
            proof {
                lemma_fields_view(xs@);
                lemma_fields_view(out@);
                assert(fields_view(out@) =~= fields_view(xs@));
            }
            Value::Obj(out)
        },
    }
}

} // verus!
