//! The query/join engine: chainable predicate filters held as data,
//! field projection, and equality joins across collections.

use vstd::prelude::*;
use vstd::string::*;
use crate::db::Collection;
use crate::db::DocumentEntry;
use crate::db::EntryView;
use crate::db::assoc_view;
use crate::error::StoreError;
use crate::value::Value;
use crate::value::ValueView;
use crate::value::dup_value;
use crate::value::fields_view;
use crate::value::get_field;
use crate::value::set_field;
use crate::value::str_eq;
use crate::value::value_eq;
use crate::value::vget;

verus! {

/// An equality join registered on a query: augment each matching source
/// document with the fields of the first live target document whose
/// `target_key` field equals the source document's `src_key` field.
pub struct JoinSpec<'a> {
    pub src_key: String,
    pub target_key: String,
    pub target: &'a Collection,
}

/// An immutable-accumulation builder bound to one collection: predicates,
/// a field projection, and joins, applied by `execute`.
pub struct QueryBuilder<'a> {
    pub collection: &'a Collection,
    pub filters: Vec<Filter>,
    pub selected_fields: Vec<String>,
    pub joins: Vec<JoinSpec<'a>>,
}

/// A stored predicate, held as data with its operands. Predicates combine
/// with logical AND in registration order; `Not`, `AllOf` and `AnyOf`
/// compose them into arbitrary boolean shapes.
#[derive(Debug)]
pub enum Filter {
    /// The field is present and deep-equal to the operand.
    Equals(String, Value),
    /// The field is absent or not deep-equal to the operand.
    NotEquals(String, Value),
    GreaterThan(String, i64),
    GreaterOrEqual(String, i64),
    LessThan(String, i64),
    LessOrEqual(String, i64),
    /// The field is present and deep-equal to one of the operands.
    MemberOf(String, Vec<Value>),
    Not(Box<Filter>),
    AllOf(Vec<Filter>),
    AnyOf(Vec<Filter>),
}

/// Whether `doc` satisfies the predicate `f`. The numeric comparisons hold
/// only of integer fields.
pub open spec fn filter_matches(f: Filter, doc: ValueView) -> bool
    decreases f, 0int,
{
    match f {
        Filter::Equals(k, v) => vget(doc, k@) == Some(v@),
        Filter::NotEquals(k, v) => vget(doc, k@) != Some(v@),
        Filter::GreaterThan(k, b) => (match vget(doc, k@) {
            Some(ValueView::Int(x)) => x > b,
            _ => false,
        }),
        Filter::GreaterOrEqual(k, b) => (match vget(doc, k@) {
            Some(ValueView::Int(x)) => x >= b,
            _ => false,
        }),
        Filter::LessThan(k, b) => (match vget(doc, k@) {
            Some(ValueView::Int(x)) => x < b,
            _ => false,
        }),
        Filter::LessOrEqual(k, b) => (match vget(doc, k@) {
            Some(ValueView::Int(x)) => x <= b,
            _ => false,
        }),
        Filter::MemberOf(k, vs) => (match vget(doc, k@) {
            Some(x) => exists|i: int| 0 <= i < vs@.len() && vs@[i]@ == x,
            None => false,
        }),
        Filter::Not(b) => {
            proof {
                assert(decreases_to!(f => f->Not_0));
            }
            !filter_matches(*b, doc)
        },
        Filter::AllOf(fs) => {
            proof {
                assert(decreases_to!(f => f->AllOf_0));
                assert(decreases_to!(f->AllOf_0 => f->AllOf_0@));
            }
            all_match_from(fs@, doc, 0)
        },
        Filter::AnyOf(fs) => {
            proof {
                assert(decreases_to!(f => f->AnyOf_0));
                assert(decreases_to!(f->AnyOf_0 => f->AnyOf_0@));
            }
            any_match_from(fs@, doc, 0)
        },
    }
}

/// Whether `doc` satisfies every predicate from index `i` on.
pub open spec fn all_match_from(fs: Seq<Filter>, doc: ValueView, i: int) -> bool
    decreases fs, fs.len() - i,
{
    if i < 0 || i >= fs.len() {
        true
    } else {
        filter_matches(fs[i], doc) && all_match_from(fs, doc, i + 1)
    }
}

/// Whether `doc` satisfies some predicate from index `i` on.
pub open spec fn any_match_from(fs: Seq<Filter>, doc: ValueView, i: int) -> bool
    decreases fs, fs.len() - i,
{
    if i < 0 || i >= fs.len() {
        false
    } else {
        filter_matches(fs[i], doc) || any_match_from(fs, doc, i + 1)
    }
}

/// Whether `doc` passes the whole registered chain, in registration order.
pub open spec fn matches_all(fs: Seq<Filter>, doc: ValueView) -> bool {
    all_match_from(fs, doc, 0)
}

/// Abstraction of a vector of field names.
pub open spec fn strs_view(s: Seq<String>) -> Seq<Seq<char>> {
    Seq::new(s.len(), |i: int| s[i]@)
}

/// Abstraction of a vector of result documents.
pub open spec fn vals_view(s: Seq<Value>) -> Seq<ValueView> {
    Seq::new(s.len(), |i: int| s[i]@)
}

/// First index at or after `i` of a live stored document whose `key` field
/// equals `v`; the length when there is none. Which document joins is
/// decided by this storage order.
pub open spec fn first_live_match(
    docs: Seq<(Seq<char>, crate::db::EntryView)>,
    key: Seq<char>,
    v: ValueView,
    now: u64,
    i: int,
) -> int
    decreases docs.len() - i,
{
    if i < 0 || i >= docs.len() {
        docs.len() as int
    } else if !crate::db::is_expired(docs[i].1, now) && vget(docs[i].1.value, key) == Some(v) {
        i
    } else {
        first_live_match(docs, key, v, now, i + 1)
    }
}

/// The key a joined field is stored under.
pub open spec fn joined_name(k: Seq<char>) -> Seq<char> {
    "joined_"@ + k
}

/// `doc` augmented with the target document's fields from index `i` on,
/// each under its joined name, restricted to `sel` when `sel` is not empty.
pub open spec fn join_augment(
    doc: ValueView,
    tfields: Seq<(Seq<char>, ValueView)>,
    sel: Seq<Seq<char>>,
    i: int,
) -> ValueView
    decreases tfields.len() - i,
{
    if i < 0 || i >= tfields.len() {
        doc
    } else {
        let doc2 = if sel.len() == 0 || sel.contains(tfields[i].0) {
            crate::value::vset(doc, joined_name(tfields[i].0), tfields[i].1)
        } else {
            doc
        };
        join_augment(doc2, tfields, sel, i + 1)
    }
}

/// `doc` with a null joined field for each selected name from `i` on: what
/// a selection is filled with when no target document matches.
pub open spec fn join_augment_nulls(doc: ValueView, sel: Seq<Seq<char>>, i: int) -> ValueView
    decreases sel.len() - i,
{
    if i < 0 || i >= sel.len() {
        doc
    } else {
        join_augment_nulls(crate::value::vset(doc, joined_name(sel[i]), ValueView::Null), sel, i + 1)
    }
}

/// One registered join applied to one source document: when the source has
/// the join field and some live target document's field equals it, the
/// first such target's fields are copied in under joined names; a source
/// without the field, or without a match, is left as it is (a query-level
/// join carries no field selection, so nothing is null-filled).
pub open spec fn apply_join(j: JoinSpec<'_>, doc: ValueView, now: u64) -> ValueView {
    match vget(doc, j.src_key@) {
        None => doc,
        Some(v) => {
            let t = first_live_match(j.target@.docs, j.target_key@, v, now, 0);
            if t < j.target@.docs.len() {
                match j.target@.docs[t].1.value {
                    ValueView::Obj(tf) => join_augment(doc, tf, Seq::empty(), 0),
                    _ => doc,
                }
            } else {
                doc
            }
        },
    }
}

/// All registered joins applied in registration order, from index `i` on.
pub open spec fn apply_joins(joins: Seq<JoinSpec<'_>>, doc: ValueView, now: u64, i: int) -> ValueView
    decreases joins.len() - i,
{
    if i < 0 || i >= joins.len() {
        doc
    } else {
        apply_joins(joins, apply_join(joins[i], doc, now), now, i + 1)
    }
}

/// The selected fields present on `doc`, from index `i` on, in selection
/// order; missing fields are silently omitted.
pub open spec fn project_fields(sel: Seq<Seq<char>>, doc: ValueView, i: int) -> Seq<
    (Seq<char>, ValueView),
>
    decreases sel.len() - i,
{
    if i < 0 || i >= sel.len() {
        Seq::empty()
    } else {
        match vget(doc, sel[i]) {
            Some(v) => seq![(sel[i], v)] + project_fields(sel, doc, i + 1),
            None => project_fields(sel, doc, i + 1),
        }
    }
}

/// Projection: an empty selection returns the whole document; otherwise a
/// new document holding only the selected fields present on the source.
pub open spec fn project(sel: Seq<Seq<char>>, doc: ValueView) -> ValueView {
    if sel.len() == 0 {
        doc
    } else {
        ValueView::Obj(project_fields(sel, doc, 0))
    }
}

/// Projection with an empty field list returns the full document, whatever
/// the document is.
pub proof fn lemma_project_empty(doc: ValueView)
    ensures
        project(Seq::empty(), doc) == doc,
{
}

/// What `execute` returns: one pass over the stored entries from index `i`
/// on, in storage order; each entry that passes every filter contributes
/// its document, joined and then projected. Expiration is not enforced
/// here: entries not yet evicted by a direct lookup are scanned too.
pub open spec fn query_results(
    docs: Seq<(Seq<char>, crate::db::EntryView)>,
    fs: Seq<Filter>,
    sel: Seq<Seq<char>>,
    joins: Seq<JoinSpec<'_>>,
    now: u64,
    i: int,
) -> Seq<ValueView>
    decreases docs.len() - i,
{
    if i < 0 || i >= docs.len() {
        Seq::empty()
    } else {
        let rest = query_results(docs, fs, sel, joins, now, i + 1);
        if matches_all(fs, docs[i].1.value) {
            seq![project(sel, apply_joins(joins, docs[i].1.value, now, 0))] + rest
        } else {
            rest
        }
    }
}

/// Whether `doc` satisfies the predicate `f`, decided against the views.
pub fn eval_filter(f: &Filter, doc: &Value) -> (r: bool)
    ensures
        r == filter_matches(*f, doc@),
    decreases f,
{
    match f {
        Filter::Equals(k, v) => (match crate::value::get_field(doc, k.as_str()) {
            Some(x) => crate::value::value_eq(x, v),
            None => false,
        }),
        Filter::NotEquals(k, v) => (match crate::value::get_field(doc, k.as_str()) {
            Some(x) => !crate::value::value_eq(x, v),
            None => true,
        }),
        Filter::GreaterThan(k, b) => (match crate::value::get_field(doc, k.as_str()) {
            Some(x) => (match x {
                Value::Int(n) => *n > *b,
                _ => false,
            }),
            None => false,
        }),
        Filter::GreaterOrEqual(k, b) => (match crate::value::get_field(doc, k.as_str()) {
            Some(x) => (match x {
                Value::Int(n) => *n >= *b,
                _ => false,
            }),
            None => false,
        }),
        Filter::LessThan(k, b) => (match crate::value::get_field(doc, k.as_str()) {
            Some(x) => (match x {
                Value::Int(n) => *n < *b,
                _ => false,
            }),
            None => false,
        }),
        Filter::LessOrEqual(k, b) => (match crate::value::get_field(doc, k.as_str()) {
            Some(x) => (match x {
                Value::Int(n) => *n <= *b,
                _ => false,
            }),
            None => false,
        }),
        Filter::MemberOf(k, vs) => (match crate::value::get_field(doc, k.as_str()) {
            Some(x) => {
                let n = vs.len();
                let mut i: usize = 0;
                while i < n
                    invariant
                        i <= n,
                        n == vs@.len(),
                        *f == Filter::MemberOf(*k, *vs),
                        vget(doc@, k@) == Some(x@),
                        forall|j: int| 0 <= j < i ==> vs@[j]@ != x@,
                    decreases n - i,
                {
                    if crate::value::value_eq(&vs[i], x) {
                        return true;
                    }
                    i += 1;
                }
                false
            },
            None => false,
        }),
        Filter::Not(b) => {
            proof {
                assert(decreases_to!(*f => f->Not_0));
            }
            !eval_filter(b, doc)
        },
        Filter::AllOf(fs) => {
            proof {
                assert(decreases_to!(*f => f->AllOf_0));
                assert(decreases_to!(*fs => fs@));
            }
            let n = fs.len();
            let mut i: usize = 0;
            while i < n
                invariant
                    i <= n,
                    n == fs@.len(),
                    *f == Filter::AllOf(*fs),
                    all_match_from(fs@, doc@, 0) == all_match_from(fs@, doc@, i as int),
                decreases n - i,
            {
                proof {
                    assert(decreases_to!(*f => f->AllOf_0));
                    assert(decreases_to!(*fs => fs@));
                    assert(decreases_to!(fs@ => fs@[i as int]));
                    assert(decreases_to!(*f => fs@[i as int]));
                }
                if !eval_filter(&fs[i], doc) {
                    return false;
                }
                i += 1;
            }
            true
        },
        Filter::AnyOf(fs) => {
            proof {
                assert(decreases_to!(*f => f->AnyOf_0));
                assert(decreases_to!(*fs => fs@));
            }
            let n = fs.len();
            let mut i: usize = 0;
            while i < n
                invariant
                    i <= n,
                    n == fs@.len(),
                    *f == Filter::AnyOf(*fs),
                    any_match_from(fs@, doc@, 0) == any_match_from(fs@, doc@, i as int),
                decreases n - i,
            {
                proof {
                    assert(decreases_to!(*f => f->AnyOf_0));
                    assert(decreases_to!(*fs => fs@));
                    assert(decreases_to!(fs@ => fs@[i as int]));
                    assert(decreases_to!(*f => fs@[i as int]));
                }
                if eval_filter(&fs[i], doc) {
                    return true;
                }
                i += 1;
            }
            false
        },
    }
}

/// Whether `doc` passes the whole chain, evaluated in registration order
/// with a short circuit on the first failure.
pub fn eval_all_filters(fs: &Vec<Filter>, doc: &Value) -> (r: bool)
    ensures
        r == matches_all(fs@, doc@),
{
    let n = fs.len();
    let mut i: usize = 0;
    while i < n
        invariant
            i <= n,
            n == fs@.len(),
            all_match_from(fs@, doc@, 0) == all_match_from(fs@, doc@, i as int),
        decreases n - i,
    {
        if !eval_filter(&fs[i], doc) {
            return false;
        }
        i += 1;
    }
    true
}

/// Whether some name in `sel` equals `s`.
fn contains_str(sel: &Vec<String>, s: &str) -> (r: bool)
    ensures
        r == strs_view(sel@).contains(s@),
{
    let n = sel.len();
    let mut i: usize = 0;
    while i < n
        invariant
            i <= n,
            n == sel@.len(),
            forall|j: int| 0 <= j < i ==> sel@[j]@ != s@,
        decreases n - i,
    {
        if str_eq(sel[i].as_str(), s) {
            proof {
                assert(strs_view(sel@)[i as int] == s@);
            }
            return true;
        }
        i += 1;
    }
    proof {
        assert forall|j: int| 0 <= j < strs_view(sel@).len() implies strs_view(sel@)[j] != s@ by {
            assert(strs_view(sel@)[j] == sel@[j]@);
        }
    }
    false
}

/// Copies the target document's fields into `doc` under joined names,
/// restricted to `sel` when `sel` is not empty.
fn join_fields_into(doc: Value, tf: &Vec<(String, Value)>, sel: &Vec<String>) -> (r: Value)
    requires
        doc@ is Obj,
    ensures
        r@ == join_augment(doc@, fields_view(tf@), strs_view(sel@), 0),
        r@ is Obj,
{
    proof {
        crate::value::lemma_fields_view(tf@);
    }
    let ghost fv = fields_view(tf@);
    let ghost selv = strs_view(sel@);
    let ghost doc0 = doc@;
    let mut cur = doc;
    let n = tf.len();
    let mut i: usize = 0;
    while i < n
        invariant
            i <= n,
            n == tf@.len(),
            fv == fields_view(tf@),
            selv == strs_view(sel@),
            fv.len() == n,
            forall|j: int| 0 <= j < n ==> fv[j] == (tf@[j].0@, crate::value::value_view(
                tf@[j].1,
            )),
            cur@ is Obj,
            join_augment(doc0, fv, selv, 0) == join_augment(cur@, fv, selv, i as int),
        decreases n - i,
    {
        proof {
            assert(fv[i as int] == (tf@[i as int].0@, crate::value::value_view(tf@[i as int].1)));
        }
        let selected = if sel.len() == 0 {
            true
        } else {
            contains_str(sel, tf[i].0.as_str())
        };
        if selected {
            let mut nm = "joined_".to_owned();
            nm.append(tf[i].0.as_str());
            proof {
                assert(nm@ == joined_name(fv[i as int].0));
            }
            cur = set_field(cur, nm.as_str(), dup_value(&tf[i].1));
        }
        i += 1;
    }
    cur
}

/// Writes a null joined field for each selected name into `doc`: the shape
/// a selection takes when no target document matches.
fn join_nulls_into(doc: Value, sel: &Vec<String>) -> (r: Value)
    requires
        doc@ is Obj,
    ensures
        r@ == join_augment_nulls(doc@, strs_view(sel@), 0),
        r@ is Obj,
{
    let ghost selv = strs_view(sel@);
    let ghost doc0 = doc@;
    let mut cur = doc;
    let n = sel.len();
    let mut i: usize = 0;
    while i < n
        invariant
            i <= n,
            n == sel@.len(),
            selv == strs_view(sel@),
            selv.len() == n,
            forall|j: int| 0 <= j < n ==> selv[j] == sel@[j]@,
            cur@ is Obj,
            join_augment_nulls(doc0, selv, 0) == join_augment_nulls(cur@, selv, i as int),
        decreases n - i,
    {
        let mut nm = "joined_".to_owned();
        nm.append(sel[i].as_str());
        proof {
            assert(nm@ == joined_name(selv[i as int]));
        }
        cur = set_field(cur, nm.as_str(), Value::Null);
        i += 1;
    }
    cur
}

/// Index of the first live stored document whose `key` field equals `v`,
/// scanning in storage order.
fn find_first_live_match(docs: &Vec<(String, DocumentEntry)>, key: &str, v: &Value, now: u64) -> (r:
    Option<usize>)
    ensures
        match r {
            Some(i) => i as int == first_live_match(assoc_view(docs@), key@, v@, now, 0) && (
            i as int) < docs@.len(),
            None => first_live_match(assoc_view(docs@), key@, v@, now, 0) == docs@.len(),
        },
{
    let ghost dv = assoc_view(docs@);
    let n = docs.len();
    let mut i: usize = 0;
    while i < n
        invariant
            i <= n,
            n == docs@.len(),
            dv == assoc_view(docs@),
            first_live_match(dv, key@, v@, now, 0) == first_live_match(dv, key@, v@, now, i as int),
        decreases n - i,
    {
        proof {
            assert(dv[i as int] == (docs@[i as int].0@, docs@[i as int].1@));
        }
        let live = match docs[i].1.expiration {
            Some(t) => now < t,
            None => true,
        };
        if live {
            match get_field(&docs[i].1.value, key) {
                Some(x) => {
                    if value_eq(x, v) {
                        return Some(i);
                    }
                },
                None => {},
            }
        }
        i += 1;
    }
    None
}

/// One registered join applied to one source document.
fn apply_join_exec(j: &JoinSpec<'_>, doc: Value, now: u64) -> (r: Value)
    requires
        doc@ is Obj,
    ensures
        r@ == apply_join(*j, doc@, now),
        r@ is Obj,
{
    let sv = match get_field(&doc, j.src_key.as_str()) {
        None => {
            return doc;
        },
        Some(x) => dup_value(x),
    };
    match find_first_live_match(&j.target.documents, j.target_key.as_str(), &sv, now) {
        Some(t) => {
            proof {
                assert(j.target@.docs[t as int] == (j.target.documents@[t as int].0@,
                j.target.documents@[t as int].1@));
            }
            match &j.target.documents[t].1.value {
                Value::Obj(tf) => {
                    let empty_sel: Vec<String> = Vec::new();
                    proof {
                        assert(strs_view(empty_sel@) =~= Seq::<Seq<char>>::empty());
                    }
                    join_fields_into(doc, tf, &empty_sel)
                },
                _ => doc,
            }
        },
        None => doc,
    }
}

/// The selected fields present on `doc`, in selection order; the whole
/// document when the selection is empty.
fn project_exec(sel: &Vec<String>, doc: &Value) -> (r: Value)
    ensures
        r@ == project(strs_view(sel@), doc@),
{
    let ghost selv = strs_view(sel@);
    let n = sel.len();
    if n == 0 {
        return dup_value(doc);
    }
    let mut out: Vec<(String, Value)> = Vec::new();
    let mut i: usize = 0;
    while i < n
        invariant
            i <= n,
            n == sel@.len(),
            selv == strs_view(sel@),
            selv.len() == n,
            forall|j: int| 0 <= j < n ==> selv[j] == sel@[j]@,
            project_fields(selv, doc@, 0) == fields_view(out@) + project_fields(
                selv,
                doc@,
                i as int,
            ),
        decreases n - i,
    {
        let ghost out0 = out@;
        match get_field(doc, sel[i].as_str()) {
            Some(v) => {
                out.push((sel[i].clone(), dup_value(v)));
                proof {
                    crate::value::lemma_fields_view(out0);
                    crate::value::lemma_fields_view(out@);
                    assert(fields_view(out@) =~= fields_view(out0).push(
                        (selv[i as int], vget(doc@, selv[i as int])->Some_0),
                    ));
                    assert(fields_view(out0) + project_fields(selv, doc@, i as int) =~= fields_view(
                        out@,
                    ) + project_fields(selv, doc@, i as int + 1));
                }
            },
            None => {},
        }
        i += 1;
    }
    proof {
        assert(project_fields(selv, doc@, n as int) =~= Seq::<(Seq<char>, ValueView)>::empty());
        assert(fields_view(out@) + project_fields(selv, doc@, n as int) =~= fields_view(out@));
        crate::value::lemma_fields_view(out@);
    }
    let r = Value::Obj(out);
    proof {
        assert(r@ == ValueView::Obj(fields_view(r->Obj_0@)));
    }
    r
}

/// First index at or after `i` holding a comma; the length when there is
/// none.
pub open spec fn comma_idx_from(s: Seq<char>, i: int) -> int
    decreases s.len() - i,
{
    if i < 0 || i >= s.len() {
        s.len() as int
    } else if s[i] == ',' {
        i
    } else {
        comma_idx_from(s, i + 1)
    }
}

/// When the first `i` characters are no commas, the comma search is
/// settled from `i` on.
proof fn lemma_comma_idx_skip(s: Seq<char>, i: int)
    requires
        0 <= i <= s.len(),
        forall|j: int| 0 <= j < i ==> s[j] != ',',
    ensures
        comma_idx_from(s, 0) == comma_idx_from(s, i),
    decreases i,
{
    if i > 0 {
        lemma_comma_idx_skip(s, i - 1);
        assert(comma_idx_from(s, i - 1) == comma_idx_from(s, i));
    }
}

/// A comma-separated field list, split at each comma, nothing trimmed: the
/// pieces between commas, in order. A string without commas is one piece.
pub open spec fn split_commas(s: Seq<char>) -> Seq<Seq<char>>
    decreases s.len(),
{
    let k = comma_idx_from(s, 0);
    if 0 <= k < s.len() {
        seq![s.subrange(0, k)] + split_commas(s.subrange(k + 1, s.len() as int))
    } else {
        seq![s]
    }
}

/// The comma-separated pieces of `s`, in order.
fn split_commas_exec(s: &str) -> (r: Vec<String>)
    ensures
        strs_view(r@) == split_commas(s@),
{
    let len = s.unicode_len();
    let mut out: Vec<String> = Vec::new();
    let mut start: usize = 0;
    let mut i: usize = 0;
    proof {
        assert(s@.subrange(0, len as int) =~= s@);
        assert(strs_view(out@) =~= Seq::<Seq<char>>::empty());
        assert(strs_view(out@) + split_commas(s@) =~= split_commas(s@));
    }
    while i < len
        invariant
            start <= i <= len,
            len == s@.len(),
            forall|j: int| start <= j < i ==> s@[j] != ',',
            split_commas(s@) =~= strs_view(out@) + split_commas(
                s@.subrange(start as int, len as int),
            ),
        decreases len - i,
    {
        let c = s.get_char(i);
        if c == ',' {
            let ghost out0 = out@;
            let piece = s.substring_char(start, i).to_owned();
            out.push(piece);
            proof {
                let suf = s@.subrange(start as int, len as int);
                assert forall|j: int| 0 <= j < i - start implies suf[j] != ',' by {
                    assert(suf[j] == s@[start + j]);
                }
                lemma_comma_idx_skip(suf, i - start);
                assert(suf[i - start] == ',');
                assert(comma_idx_from(suf, i - start) == i - start);
                assert(comma_idx_from(suf, 0) == i - start);
                assert(suf.subrange(0, i - start) =~= s@.subrange(start as int, i as int));
                assert(suf.subrange(i - start + 1, suf.len() as int) =~= s@.subrange(
                    i as int + 1,
                    len as int,
                ));
                assert(split_commas(suf) == seq![s@.subrange(start as int, i as int)]
                    + split_commas(s@.subrange(i as int + 1, len as int)));
                assert(strs_view(out@) =~= strs_view(out0).push(piece@));
                assert(strs_view(out0) + split_commas(suf) =~= strs_view(out@) + split_commas(
                    s@.subrange(i as int + 1, len as int),
                ));
            }
            start = i + 1;
        }
        i += 1;
    }
    let ghost out0 = out@;
    let piece = s.substring_char(start, len).to_owned();
    out.push(piece);
    proof {
        let suf = s@.subrange(start as int, len as int);
        assert forall|j: int| 0 <= j < suf.len() implies suf[j] != ',' by {
            assert(suf[j] == s@[start + j]);
        }
        lemma_comma_idx_skip(suf, suf.len() as int);
        assert(comma_idx_from(suf, 0) == suf.len());
        assert(split_commas(suf) == seq![suf]);
        assert(piece@ == suf);
        assert(strs_view(out@) =~= strs_view(out0).push(piece@));
        assert(strs_view(out@) =~= strs_view(out0) + split_commas(suf));
        assert(strs_view(out@) =~= split_commas(s@));
    }
    out
}

/// The characters a field name is trimmed of: spaces and tabs.
pub open spec fn is_space(c: char) -> bool {
    c == ' ' || c == '\t'
}

/// First index at or after `i` holding a non-space character; the length
/// when there is none.
pub open spec fn non_space_from(s: Seq<char>, i: int) -> int
    decreases s.len() - i,
{
    if i < 0 || i >= s.len() {
        s.len() as int
    } else if !is_space(s[i]) {
        i
    } else {
        non_space_from(s, i + 1)
    }
}

/// Last index at or before `i` holding a non-space character; `-1` when
/// there is none.
pub open spec fn non_space_down(s: Seq<char>, i: int) -> int
    decreases i + 1,
{
    if i < 0 || i >= s.len() {
        -1
    } else if !is_space(s[i]) {
        i
    } else {
        non_space_down(s, i - 1)
    }
}

/// `s` with leading and trailing spaces and tabs removed.
pub open spec fn trim_view(s: Seq<char>) -> Seq<char> {
    let a = non_space_from(s, 0);
    if a >= s.len() {
        Seq::empty()
    } else {
        s.subrange(a, non_space_down(s, s.len() - 1) + 1)
    }
}

/// `non_space_from` finds a non-space and skips the spaces before it.
proof fn lemma_non_space_from_props(s: Seq<char>, i: int)
    requires
        0 <= i <= s.len(),
    ensures
        i <= non_space_from(s, i) <= s.len(),
        non_space_from(s, i) < s.len() ==> !is_space(s[non_space_from(s, i)]),
        forall|j: int| i <= j < non_space_from(s, i) ==> is_space(s[j]),
    decreases s.len() - i,
{
    if i < s.len() && is_space(s[i]) {
        lemma_non_space_from_props(s, i + 1);
    }
}

/// Index of the first non-space character; the length when all are spaces.
fn first_non_space(s: &str) -> (r: usize)
    ensures
        r as int == non_space_from(s@, 0),
        r <= s@.len(),
{
    let len = s.unicode_len();
    let mut i: usize = 0;
    while i < len
        invariant
            i <= len,
            len == s@.len(),
            non_space_from(s@, 0) == non_space_from(s@, i as int),
        decreases len - i,
    {
        let c = s.get_char(i);
        if !(c == ' ' || c == '\t') {
            return i;
        }
        i += 1;
    }
    len
}

/// Index of the last non-space character, when some character is not a
/// space.
fn last_non_space(s: &str) -> (r: usize)
    requires
        non_space_from(s@, 0) < s@.len(),
    ensures
        r as int == non_space_down(s@, s@.len() - 1),
        r < s@.len(),
{
    proof {
        lemma_non_space_from_props(s@, 0);
    }
    let len = s.unicode_len();
    let mut b: usize = len - 1;
    loop
        invariant
            b < len,
            len == s@.len(),
            0 <= non_space_from(s@, 0) <= b,
            non_space_from(s@, 0) < s@.len(),
            !is_space(s@[non_space_from(s@, 0)]),
            non_space_down(s@, len - 1) == non_space_down(s@, b as int),
        decreases b,
    {
        let c = s.get_char(b);
        if !(c == ' ' || c == '\t') {
            return b;
        }
        proof {
            assert(non_space_from(s@, 0) < b);
        }
        b -= 1;
    }
}

/// `s` trimmed of leading and trailing spaces and tabs.
fn trim_exec(s: &str) -> (r: String)
    ensures
        r@ == trim_view(s@),
{
    let len = s.unicode_len();
    let a = first_non_space(s);
    if a == len {
        proof {
            assert(trim_view(s@) =~= Seq::<char>::empty());
            reveal_strlit("");
        }
        return "".to_owned();
    }
    let b = last_non_space(s);
    proof {
        lemma_non_space_from_props(s@, 0);
        assert(non_space_down(s@, len - 1) >= non_space_from(s@, 0)) by {
            let nsf = non_space_from(s@, 0);
            if non_space_down(s@, len - 1) < nsf {
                lemma_non_space_down_props(s@, len - 1);
            }
        }
    }
    let r = s.substring_char(a, b + 1).to_owned();
    proof {
        assert(r@ == trim_view(s@));
    }
    r
}

/// `non_space_down` finds a non-space and skips the spaces after it.
proof fn lemma_non_space_down_props(s: Seq<char>, i: int)
    requires
        -1 <= i < s.len(),
    ensures
        -1 <= non_space_down(s, i) <= i,
        non_space_down(s, i) >= 0 ==> !is_space(s[non_space_down(s, i)]),
        forall|j: int| non_space_down(s, i) < j <= i ==> is_space(s[j]),
    decreases i + 1,
{
    if 0 <= i < s.len() && is_space(s[i]) {
        lemma_non_space_down_props(s, i - 1);
    }
}

/// Each piece trimmed.
pub open spec fn trim_all(ps: Seq<Seq<char>>) -> Seq<Seq<char>> {
    Seq::new(ps.len(), |i: int| trim_view(ps[i]))
}

impl<'a> QueryBuilder<'a> {
    /// A query over `collection` with nothing registered yet.
    pub fn new(collection: &'a Collection) -> (r: QueryBuilder<'a>)
        ensures
            r.collection == collection,
            r.filters@.len() == 0,
            r.selected_fields@.len() == 0,
            r.joins@.len() == 0,
    {
        QueryBuilder { collection, filters: Vec::new(), selected_fields: Vec::new(), joins: Vec::new() }
    }

    /// Sets the projected fields; an empty list means the whole document.
    pub fn select(self, fields: Vec<String>) -> (r: QueryBuilder<'a>)
        ensures
            r.collection == self.collection,
            r.filters == self.filters,
            r.selected_fields == fields,
            r.joins == self.joins,
    {
        QueryBuilder { selected_fields: fields, ..self }
    }

    /// Registers an equality predicate on `key`.
    pub fn eq(self, key: &str, value: Value) -> (r: QueryBuilder<'a>)
        ensures
            r.collection == self.collection,
            r.selected_fields == self.selected_fields,
            r.joins == self.joins,
            r.filters@ == self.filters@.push(r.filters@.last()),
            (r.filters@.last() matches Filter::Equals(k, v) && k@ == key@ && v == value),
    {
        let mut filters = self.filters;
        filters.push(Filter::Equals(key.to_owned(), value));
        QueryBuilder { filters, ..self }
    }

    /// Registers an inequality predicate on `key`.
    pub fn neq(self, key: &str, value: Value) -> (r: QueryBuilder<'a>)
        ensures
            r.collection == self.collection,
            r.selected_fields == self.selected_fields,
            r.joins == self.joins,
            r.filters@ == self.filters@.push(r.filters@.last()),
            (r.filters@.last() matches Filter::NotEquals(k, v) && k@ == key@ && v == value),
    {
        let mut filters = self.filters;
        filters.push(Filter::NotEquals(key.to_owned(), value));
        QueryBuilder { filters, ..self }
    }

    /// Registers a strictly-greater-than predicate on an integer field.
    pub fn gt(self, key: &str, value: i64) -> (r: QueryBuilder<'a>)
        ensures
            r.collection == self.collection,
            r.selected_fields == self.selected_fields,
            r.joins == self.joins,
            r.filters@ == self.filters@.push(r.filters@.last()),
            (r.filters@.last() matches Filter::GreaterThan(k, v) && k@ == key@ && v == value),
    {
        let mut filters = self.filters;
        filters.push(Filter::GreaterThan(key.to_owned(), value));
        QueryBuilder { filters, ..self }
    }

    /// Registers a greater-or-equal predicate on an integer field.
    pub fn gte(self, key: &str, value: i64) -> (r: QueryBuilder<'a>)
        ensures
            r.collection == self.collection,
            r.selected_fields == self.selected_fields,
            r.joins == self.joins,
            r.filters@ == self.filters@.push(r.filters@.last()),
            (r.filters@.last() matches Filter::GreaterOrEqual(k, v) && k@ == key@ && v == value),
    {
        let mut filters = self.filters;
        filters.push(Filter::GreaterOrEqual(key.to_owned(), value));
        QueryBuilder { filters, ..self }
    }

    /// Registers a strictly-less-than predicate on an integer field.
    pub fn lt(self, key: &str, value: i64) -> (r: QueryBuilder<'a>)
        ensures
            r.collection == self.collection,
            r.selected_fields == self.selected_fields,
            r.joins == self.joins,
            r.filters@ == self.filters@.push(r.filters@.last()),
            (r.filters@.last() matches Filter::LessThan(k, v) && k@ == key@ && v == value),
    {
        let mut filters = self.filters;
        filters.push(Filter::LessThan(key.to_owned(), value));
        QueryBuilder { filters, ..self }
    }

    /// Registers a less-or-equal predicate on an integer field.
    pub fn lte(self, key: &str, value: i64) -> (r: QueryBuilder<'a>)
        ensures
            r.collection == self.collection,
            r.selected_fields == self.selected_fields,
            r.joins == self.joins,
            r.filters@ == self.filters@.push(r.filters@.last()),
            (r.filters@.last() matches Filter::LessOrEqual(k, v) && k@ == key@ && v == value),
    {
        let mut filters = self.filters;
        filters.push(Filter::LessOrEqual(key.to_owned(), value));
        QueryBuilder { filters, ..self }
    }

    /// Registers a membership predicate on `key`.
    pub fn in_(self, key: &str, values: Vec<Value>) -> (r: QueryBuilder<'a>)
        ensures
            r.collection == self.collection,
            r.selected_fields == self.selected_fields,
            r.joins == self.joins,
            r.filters@ == self.filters@.push(r.filters@.last()),
            (r.filters@.last() matches Filter::MemberOf(k, vs) && k@ == key@ && vs == values),
    {
        let mut filters = self.filters;
        filters.push(Filter::MemberOf(key.to_owned(), values));
        QueryBuilder { filters, ..self }
    }

    /// Registers an arbitrary predicate, such as a `Not`, `AllOf` or
    /// `AnyOf` composition.
    pub fn filter(self, f: Filter) -> (r: QueryBuilder<'a>)
        ensures
            r.collection == self.collection,
            r.selected_fields == self.selected_fields,
            r.joins == self.joins,
            r.filters@ == self.filters@.push(f),
    {
        let mut filters = self.filters;
        filters.push(f);
        QueryBuilder { filters, ..self }
    }

    /// Registers an equality join against `target`: each matching source
    /// document is augmented with the fields of the first live target
    /// document whose `target_key` field equals its `src_key` field.
    pub fn join(self, src_key: &str, target_key: &str, target: &'a Collection) -> (r: QueryBuilder<
        'a,
    >)
        ensures
            r.collection == self.collection,
            r.filters == self.filters,
            r.selected_fields == self.selected_fields,
            r.joins@ == self.joins@.push(r.joins@.last()),
            r.joins@.last().src_key@ == src_key@,
            r.joins@.last().target_key@ == target_key@,
            r.joins@.last().target == target,
    {
        let mut joins = self.joins;
        joins.push(
            JoinSpec {
                src_key: src_key.to_owned(),
                target_key: target_key.to_owned(),
                target,
            },
        );
        QueryBuilder { joins, ..self }
    }

    /// One pass over the collection's entries in storage order: each
    /// document that passes every filter is joined, then projected, then
    /// appended. The computed sequence always comes back as `Ok`.
    pub fn execute(self, now: u64) -> (r: Result<Vec<Value>, StoreError>)
        requires
            self.collection.wf(),
        ensures
            (r matches Ok(out) && vals_view(out@) == query_results(
                self.collection@.docs,
                self.filters@,
                strs_view(self.selected_fields@),
                self.joins@,
                now,
                0,
            )),
    {
        let ghost dv = self.collection@.docs;
        let ghost fsv = self.filters@;
        let ghost selv = strs_view(self.selected_fields@);
        let ghost jsv = self.joins@;
        let mut results: Vec<Value> = Vec::new();
        let n = self.collection.documents.len();
        let mut i: usize = 0;
        proof {
            assert(vals_view(results@) =~= Seq::<ValueView>::empty());
            assert(vals_view(results@) + query_results(dv, fsv, selv, jsv, now, 0) =~= query_results(
                dv,
                fsv,
                selv,
                jsv,
                now,
                0,
            ));
        }
        while i < n
            invariant
                i <= n,
                n == self.collection.documents@.len(),
                dv == self.collection@.docs,
                fsv == self.filters@,
                selv == strs_view(self.selected_fields@),
                jsv == self.joins@,
                self.collection.wf(),
                query_results(dv, fsv, selv, jsv, now, 0) == vals_view(results@) + query_results(
                    dv,
                    fsv,
                    selv,
                    jsv,
                    now,
                    i as int,
                ),
            decreases n - i,
        {
            proof {
                assert(dv[i as int] == (self.collection.documents@[i as int].0@,
                self.collection.documents@[i as int].1@));
            }
            let ghost results0 = results@;
            let entry_val = &self.collection.documents[i].1.value;
            if eval_all_filters(&self.filters, entry_val) {
                let mut combined = dup_value(entry_val);
                let nj = self.joins.len();
                let mut jx: usize = 0;
                while jx < nj
                    invariant
                        jx <= nj,
                        nj == self.joins@.len(),
                        jsv == self.joins@,
                        combined@ is Obj,
                        apply_joins(jsv, dv[i as int].1.value, now, 0) == apply_joins(
                            jsv,
                            combined@,
                            now,
                            jx as int,
                        ),
                        i < n,
                        n == self.collection.documents@.len(),
                        dv == self.collection@.docs,
                        dv[i as int].1.value is Obj,
                        dv[i as int].1 == self.collection.documents@[i as int].1@,
                    decreases nj - jx,
                {
                    combined = apply_join_exec(&self.joins[jx], combined, now);
                    jx += 1;
                }
                let projected = project_exec(&self.selected_fields, &combined);
                results.push(projected);
                proof {
                    assert(vals_view(results@) =~= vals_view(results0).push(projected@));
                    assert(query_results(dv, fsv, selv, jsv, now, i as int) == seq![
                        project(selv, apply_joins(jsv, dv[i as int].1.value, now, 0)),
                    ] + query_results(dv, fsv, selv, jsv, now, i as int + 1));
                    assert(vals_view(results0) + query_results(dv, fsv, selv, jsv, now, i as int)
                        =~= vals_view(results@) + query_results(
                        dv,
                        fsv,
                        selv,
                        jsv,
                        now,
                        i as int + 1,
                    ));
                }
            } else {
                proof {
                    assert(query_results(dv, fsv, selv, jsv, now, i as int) == query_results(
                        dv,
                        fsv,
                        selv,
                        jsv,
                        now,
                        i as int + 1,
                    ));
                }
            }
            i += 1;
        }
        proof {
            assert(query_results(dv, fsv, selv, jsv, now, n as int) =~= Seq::<ValueView>::empty());
            assert(vals_view(results@) + query_results(dv, fsv, selv, jsv, now, n as int)
                =~= vals_view(results@));
        }
        Ok(results)
    }
}

/// A post-join transform, held as data with its operands rather than as a
/// stored function.
#[derive(Debug)]
pub enum Transform {
    /// Writes the field, replacing it in place or appending it.
    SetField(String, Value),
    /// Drops the field, if present.
    RemoveField(String),
}

/// The document `t` makes of `doc`.
pub open spec fn transform_applied(t: Transform, doc: ValueView) -> ValueView {
    match t {
        Transform::SetField(k, v) => crate::value::vset(doc, k@, v@),
        Transform::RemoveField(k) => crate::value::vremove(doc, k@),
    }
}

/// Applies a transform to a joined document.
fn apply_transform(t: &Transform, doc: Value) -> (r: Value)
    requires
        doc@ is Obj,
    ensures
        r@ == transform_applied(*t, doc@),
        r@ is Obj,
{
    match t {
        Transform::SetField(k, v) => set_field(doc, k.as_str(), dup_value(v)),
        Transform::RemoveField(k) => crate::value::remove_field(doc, k.as_str()),
    }
}

/// The document a join-builder run makes of one source document: augmented
/// on a match, null-filled under a selection on a miss, untouched when the
/// source lacks the join field.
pub open spec fn jb_augment(
    doc: ValueView,
    target_docs: Seq<(Seq<char>, EntryView)>,
    src_key: Seq<char>,
    target_key: Seq<char>,
    sel: Seq<Seq<char>>,
    now: u64,
) -> ValueView {
    match vget(doc, src_key) {
        None => doc,
        Some(v) => {
            let t = first_live_match(target_docs, target_key, v, now, 0);
            if t < target_docs.len() {
                match target_docs[t].1.value {
                    ValueView::Obj(tf) => join_augment(doc, tf, sel, 0),
                    _ => doc,
                }
            } else {
                join_augment_nulls(doc, sel, 0)
            }
        },
    }
}

/// What a join-builder run returns: each source document in storage order,
/// joined, kept when it passes every post-join filter.
pub open spec fn join_results(
    src_docs: Seq<(Seq<char>, EntryView)>,
    target_docs: Seq<(Seq<char>, EntryView)>,
    src_key: Seq<char>,
    target_key: Seq<char>,
    sel: Seq<Seq<char>>,
    fs: Seq<Filter>,
    tr: Option<Transform>,
    now: u64,
    i: int,
) -> Seq<ValueView>
    decreases src_docs.len() - i,
{
    if i < 0 || i >= src_docs.len() {
        Seq::empty()
    } else {
        let rest = join_results(src_docs, target_docs, src_key, target_key, sel, fs, tr, now, i + 1);
        let joined = jb_augment(src_docs[i].1.value, target_docs, src_key, target_key, sel, now);
        if matches_all(fs, joined) {
            let kept = match tr {
                Some(t) => transform_applied(t, joined),
                None => joined,
            };
            seq![kept] + rest
        } else {
            rest
        }
    }
}

/// An equality join between two collections: a declared key pair, an
/// optional field selection, and post-join filters.
pub struct JoinBuilder<'a> {
    pub src_collection: &'a Collection,
    pub target_collection: &'a Collection,
    pub src_key: String,
    pub target_key: String,
    pub filters: Vec<Filter>,
    pub selected_fields: Vec<String>,
    pub transform: Option<Transform>,
}

impl<'a> JoinBuilder<'a> {
    /// A join between the two collections with nothing declared yet.
    pub fn new(src_collection: &'a Collection, target_collection: &'a Collection) -> (r:
        JoinBuilder<'a>)
        ensures
            r.src_collection == src_collection,
            r.target_collection == target_collection,
            r.src_key@.len() == 0,
            r.target_key@.len() == 0,
            r.filters@.len() == 0,
            r.selected_fields@.len() == 0,
            r.transform is None,
    {
        proof {
            reveal_strlit("");
        }
        JoinBuilder {
            src_collection,
            target_collection,
            src_key: "".to_owned(),
            target_key: "".to_owned(),
            filters: Vec::new(),
            selected_fields: Vec::new(),
            transform: None,
        }
    }

    /// Sets the joined fields to copy: `"*"` means all, a comma-separated
    /// list names them, trimmed of spaces and tabs.
    pub fn select(self, fields: &str) -> (r: JoinBuilder<'a>)
        ensures
            r.src_collection == self.src_collection,
            r.target_collection == self.target_collection,
            r.src_key == self.src_key,
            r.target_key == self.target_key,
            r.filters == self.filters,
            r.transform == self.transform,
            fields@ == "*"@ ==> r.selected_fields@.len() == 0,
            fields@ != "*"@ ==> strs_view(r.selected_fields@) == trim_all(split_commas(fields@)),
    {
        if str_eq(fields, "*") {
            return JoinBuilder { selected_fields: Vec::new(), ..self };
        }
        let pieces = split_commas_exec(fields);
        let ghost ps = split_commas(fields@);
        let n = pieces.len();
        let mut trimmed: Vec<String> = Vec::new();
        let mut i: usize = 0;
        while i < n
            invariant
                i <= n,
                n == pieces@.len(),
                strs_view(pieces@) == ps,
                trimmed@.len() == i,
                forall|j: int| 0 <= j < i ==> trimmed@[j]@ == trim_view(ps[j]),
            decreases n - i,
        {
            proof {
                assert(strs_view(pieces@)[i as int] == pieces@[i as int]@);
            }
            trimmed.push(trim_exec(pieces[i].as_str()));
            i += 1;
        }
        proof {
            assert(strs_view(trimmed@) =~= trim_all(ps));
        }
        JoinBuilder { selected_fields: trimmed, ..self }
    }

    /// Declares the (source field, target field) equality pair.
    pub fn on(self, src_key: &str, target_key: &str) -> (r: JoinBuilder<'a>)
        ensures
            r.src_collection == self.src_collection,
            r.target_collection == self.target_collection,
            r.src_key@ == src_key@,
            r.target_key@ == target_key@,
            r.filters == self.filters,
            r.selected_fields == self.selected_fields,
            r.transform == self.transform,
    {
        JoinBuilder { src_key: src_key.to_owned(), target_key: target_key.to_owned(), ..self }
    }

    /// Registers a post-join filter; a joined document failing it is
    /// dropped.
    pub fn filter(self, f: Filter) -> (r: JoinBuilder<'a>)
        ensures
            r.src_collection == self.src_collection,
            r.target_collection == self.target_collection,
            r.src_key == self.src_key,
            r.target_key == self.target_key,
            r.filters@ == self.filters@.push(f),
            r.selected_fields == self.selected_fields,
            r.transform == self.transform,
    {
        let mut filters = self.filters;
        filters.push(f);
        JoinBuilder { filters, ..self }
    }

    /// Registers a post-join transform, applied to each kept document.
    pub fn map(self, t: Transform) -> (r: JoinBuilder<'a>)
        ensures
            r.src_collection == self.src_collection,
            r.target_collection == self.target_collection,
            r.src_key == self.src_key,
            r.target_key == self.target_key,
            r.filters == self.filters,
            r.selected_fields == self.selected_fields,
            r.transform == Some(t),
    {
        JoinBuilder { transform: Some(t), ..self }
    }

    /// One pass over the source collection in storage order: each source
    /// document is augmented from the first matching live target document,
    /// then kept when it passes every post-join filter.
    pub fn execute(self, now: u64) -> (r: Vec<Value>)
        requires
            self.src_collection.wf(),
        ensures
            vals_view(r@) == join_results(
                self.src_collection@.docs,
                self.target_collection@.docs,
                self.src_key@,
                self.target_key@,
                strs_view(self.selected_fields@),
                self.filters@,
                self.transform,
                now,
                0,
            ),
    {
        let ghost sv = self.src_collection@.docs;
        let ghost tv = self.target_collection@.docs;
        let ghost skv = self.src_key@;
        let ghost tkv = self.target_key@;
        let ghost selv = strs_view(self.selected_fields@);
        let ghost fsv = self.filters@;
        let ghost trv = self.transform;
        let mut results: Vec<Value> = Vec::new();
        let n = self.src_collection.documents.len();
        let mut i: usize = 0;
        proof {
            assert(vals_view(results@) =~= Seq::<ValueView>::empty());
            assert(vals_view(results@) + join_results(sv, tv, skv, tkv, selv, fsv, trv, now, 0)
                =~= join_results(sv, tv, skv, tkv, selv, fsv, trv, now, 0));
        }
        while i < n
            invariant
                i <= n,
                n == self.src_collection.documents@.len(),
                sv == self.src_collection@.docs,
                tv == self.target_collection@.docs,
                skv == self.src_key@,
                tkv == self.target_key@,
                selv == strs_view(self.selected_fields@),
                fsv == self.filters@,
                trv == self.transform,
                self.src_collection.wf(),
                join_results(sv, tv, skv, tkv, selv, fsv, trv, now, 0) == vals_view(results@)
                    + join_results(sv, tv, skv, tkv, selv, fsv, trv, now, i as int),
            decreases n - i,
        {
            proof {
                assert(sv[i as int] == (self.src_collection.documents@[i as int].0@,
                self.src_collection.documents@[i as int].1@));
            }
            let ghost results0 = results@;
            let src_val = &self.src_collection.documents[i].1.value;
            let mut joined = dup_value(src_val);
            match get_field(src_val, self.src_key.as_str()) {
                None => {},
                Some(x) => {
                    let xval = dup_value(x);
                    match find_first_live_match(
                        &self.target_collection.documents,
                        self.target_key.as_str(),
                        &xval,
                        now,
                    ) {
                        Some(t) => {
                            proof {
                                assert(tv[t as int] == (
                                self.target_collection.documents@[t as int].0@,
                                self.target_collection.documents@[t as int].1@,
                                ));
                            }
                            match &self.target_collection.documents[t].1.value {
                                Value::Obj(tf) => {
                                    joined = join_fields_into(joined, tf, &self.selected_fields);
                                },
                                _ => {},
                            }
                        },
                        None => {
                            joined = join_nulls_into(joined, &self.selected_fields);
                        },
                    }
                },
            }
            proof {
                assert(joined@ == jb_augment(sv[i as int].1.value, tv, skv, tkv, selv, now));
            }
            if eval_all_filters(&self.filters, &joined) {
                let mut kept = joined;
                match &self.transform {
                    Some(t) => {
                        kept = apply_transform(t, kept);
                    },
                    None => {},
                }
                results.push(kept);
                proof {
                    let ghost jv = jb_augment(sv[i as int].1.value, tv, skv, tkv, selv, now);
                    let ghost keptv = match trv {
                        Some(t) => transform_applied(t, jv),
                        None => jv,
                    };
                    assert(vals_view(results@) =~= vals_view(results0).push(keptv));
                    assert(vals_view(results0) + join_results(
                        sv,
                        tv,
                        skv,
                        tkv,
                        selv,
                        fsv,
                        trv,
                        now,
                        i as int,
                    ) =~= vals_view(results@) + join_results(
                        sv,
                        tv,
                        skv,
                        tkv,
                        selv,
                        fsv,
                        trv,
                        now,
                        i as int + 1,
                    ));
                }
            } else {
                proof {
                    assert(join_results(sv, tv, skv, tkv, selv, fsv, trv, now, i as int)
                        == join_results(
                        sv,
                        tv,
                        skv,
                        tkv,
                        selv,
                        fsv,
                        trv,
                        now,
                        i as int + 1,
                    ));
                }
            }
            i += 1;
        }
        proof {
            assert(join_results(sv, tv, skv, tkv, selv, fsv, trv, now, n as int) =~= Seq::<
                ValueView,
            >::empty());
            assert(vals_view(results@) + join_results(
                sv,
                tv,
                skv,
                tkv,
                selv,
                fsv,
                trv,
                now,
                n as int,
            ) =~= vals_view(results@));
        }
        results
    }
}

impl Collection {
    /// A query over this collection. `"*"`, the empty string and a single
    /// space select all fields; anything else is split at commas into
    /// field names, taken as they stand.
    pub fn select(&self, fields: &str) -> (r: QueryBuilder<'_>)
        ensures
            r.collection == self,
            r.filters@.len() == 0,
            r.joins@.len() == 0,
            (fields@ == "*"@ || fields@.len() == 0 || fields@ == " "@)
                ==> r.selected_fields@.len() == 0,
            !(fields@ == "*"@ || fields@.len() == 0 || fields@ == " "@) ==> strs_view(
                r.selected_fields@,
            ) == split_commas(fields@),
    {
        if str_eq(fields, "*") || fields.unicode_len() == 0 || str_eq(fields, " ") {
            QueryBuilder::new(self)
        } else {
            QueryBuilder::new(self).select(split_commas_exec(fields))
        }
    }
}

} // verus!
