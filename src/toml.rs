use toml_edit::{Array, InlineTable, Table, Value};
use vstd::prelude::*;

use crate::model::{distinct_pair_keys, pair_views, views, Task};
use crate::serialize::{
    distinct_keys, task_value, to_value, well_keyed, FieldValue, FieldView,
    TaskValue, ValueView,
};

verus! {

#[verifier::external_type_specification]
#[verifier::external_body]
pub struct ExValue(Value);

#[verifier::external_type_specification]
#[verifier::external_body]
pub struct ExInlineTable(InlineTable);

/// The TOML string value of a text.
pub uninterp spec fn toml_string(s: Seq<char>) -> Value;

/// The TOML array value of a list of texts.
pub uninterp spec fn toml_string_array(v: Seq<Seq<char>>) -> Value;

/// The key-value pairs of a TOML value that is an inline table, in order;
/// `None` for any other value.
pub uninterp spec fn value_entries(v: Value) -> Option<Seq<(Seq<char>, Value)>>;

/// The key-value pairs of an inline table, in order.
pub uninterp spec fn inline_entries(t: InlineTable) -> Seq<(Seq<char>, Value)>;

/// Relies on `Value::from(String)`: a string value made from the text alone.
#[verifier::external_body]
fn toml_str(s: String) -> (r: Value)
    ensures
        r == toml_string(s@),
{
    Value::from(s)
}

/// Relies on `Array::from_iter`: an array value made from the texts alone.
#[verifier::external_body]
fn toml_str_array(v: Vec<String>) -> (r: Value)
    ensures
        r == toml_string_array(views(v@)),
{
    Value::Array(Array::from_iter(v))
}

/// The entries of an inline table of string values made from text pairs.
pub open spec fn string_entries(e: Seq<(Seq<char>, Seq<char>)>) -> Seq<(Seq<char>, Value)> {
    e.map_values(|q: (Seq<char>, Seq<char>)| (q.0, toml_string(q.1)))
}

/// Relies on `InlineTable::from_iter`: starting from an empty table, each pair
/// is inserted in turn with its value converted by `Value::from(String)`, so
/// pairs with distinct keys come out in order.
#[verifier::external_body]
fn toml_str_table(p: Vec<(String, String)>) -> (r: Value)
    requires
        distinct_pair_keys(pair_views(p@)),
    ensures
        value_entries(r) == Some(string_entries(pair_views(p@))),
{
    Value::InlineTable(p.into_iter().collect::<InlineTable>())
}

/// Relies on `Table::into_inline_table`: a new table converts to an empty inline table.
#[verifier::external_body]
fn inline_table_new() -> (r: InlineTable)
    ensures
        inline_entries(r) == Seq::<(Seq<char>, Value)>::empty(),
{
    Table::new().into_inline_table()
}

/// Relies on `InlineTable::insert`: a key not yet present is appended with its value.
#[verifier::external_body]
fn inline_table_insert(t: &mut InlineTable, k: String, v: Value)
    requires
        !inline_entries(*old(t)).map_values(|p: (Seq<char>, Value)| p.0).contains(k@),
    ensures
        inline_entries(*final(t)) == inline_entries(*old(t)).push((k@, v)),
{
    t.insert(k, v);
}

/// A task as a TOML value: a bare string, or an inline table.
pub enum TomlTask {
    Value(Value),
    Table(InlineTable),
}

/// Whether a TOML value is the form of a field.
pub open spec fn field_toml(v: Value, f: FieldView) -> bool {
    match f {
        FieldView::Str(s) => v == toml_string(s),
        FieldView::StrArray(a) => v == toml_string_array(a),
        FieldView::StrTable(e) => value_entries(v) == Some(string_entries(e)),
    }
}

/// Whether a list of TOML entries is the form of a list of fields.
pub open spec fn entries_toml(
    t: Seq<(Seq<char>, Value)>,
    f: Seq<(Seq<char>, FieldView)>,
) -> bool {
    t.len() == f.len() && forall|i: int|
        0 <= i < f.len() ==> (#[trigger] t[i]).0 == f[i].0 && field_toml(t[i].1, f[i].1)
}

/// The TOML form of a configuration value.
pub open spec fn toml_of(v: ValueView, r: TomlTask) -> bool {
    match v {
        ValueView::Str(s) => r == TomlTask::Value(toml_string(s)),
        ValueView::Table(f) => r matches TomlTask::Table(t) && entries_toml(inline_entries(t), f),
    }
}

/// Builds the TOML form of a configuration value whose tables repeat no key.
pub fn to_toml(v: TaskValue) -> (r: TomlTask)
    requires
        well_keyed(v.view()),
    ensures
        toml_of(v.view(), r),
{
    match v {
        TaskValue::Str(s) => TomlTask::Value(toml_str(s)),
        TaskValue::Table(fields) => {
            let ghost f = v.view()->Table_0;
            let mut t = inline_table_new();
            let mut rest = fields;
            let ghost mut i: int = 0;
            proof {
                assert(v.view() == ValueView::Table(f));
                assert(rest@.len() == f.len());
            }
            while rest.len() > 0
                invariant
                    0 <= i <= f.len(),
                    i + rest@.len() == f.len(),
                    distinct_keys(f),
                    forall|j: int|
                        0 <= j < f.len() ==> ((#[trigger] f[j]).1 matches FieldView::StrTable(e)
                            ==> distinct_pair_keys(e)),
                    forall|j: int|
                        0 <= j < rest@.len() ==> (#[trigger] rest@[j]).0@ == f[j + i].0
                            && rest@[j].1.view() == f[j + i].1,
                    entries_toml(inline_entries(t), f.take(i)),
                decreases rest@.len(),
            {
                let ghost before = rest@;
                let (k, fv) = rest.remove(0);
                proof {
                    assert(before[0].1.view() == f[i as int].1);
                    assert(f[i as int].1 matches FieldView::StrTable(e) ==> distinct_pair_keys(e));
                }
                let value = match fv {
                    FieldValue::Str(s) => toml_str(s),
                    FieldValue::StrArray(a) => toml_str_array(a),
                    FieldValue::StrTable(p) => toml_str_table(p),
                };
                proof {
                    assert(before[0].0@ == f[i as int].0);
                    assert(before[0].1.view() == f[i as int].1);
                    assert(field_toml(value, f[i as int].1));
                    let ks = inline_entries(t).map_values(|p: (Seq<char>, Value)| p.0);
                    if ks.contains(k@) {
                        let j = choose|j: int| 0 <= j < ks.len() && ks[j] == k@;
                        assert(ks[j] == inline_entries(t)[j].0);
                        assert(f.take(i)[j] == f[j]);
                        assert(f.map_values(|p: (Seq<char>, FieldView)| p.0)[j] == f.map_values(
                            |p: (Seq<char>, FieldView)| p.0,
                        )[i as int]);
                    }
                    assert forall|j: int| 0 <= j < rest@.len() implies (#[trigger] rest@[j]).0@
                        == f[j + i + 1].0 && rest@[j].1.view() == f[j + i + 1].1 by {
                        assert(rest@[j] == before[j + 1]);
                    }
                }
                let ghost pre = inline_entries(t);
                inline_table_insert(&mut t, k, value);
                proof {
                    assert forall|j: int| 0 <= j < i + 1 implies (#[trigger] inline_entries(t)[j]).0
                        == f.take(i + 1)[j].0 && field_toml(inline_entries(t)[j].1, f.take(i + 1)[j].1) by {
                        if j < i {
                            assert(inline_entries(t)[j] == pre[j]);
                            assert(f.take(i)[j] == f.take(i + 1)[j]);
                        }
                    }
                }
                proof {
                    i = i + 1;
                }
            }
            proof {
                assert(f.take(i) =~= f);
            }
            TomlTask::Table(t)
        },
    }
}

/// The TOML form of a task: its configuration value, built with toml_edit.
pub fn task_to_toml(task: Task) -> (r: TomlTask)
    ensures
        toml_of(task_value(task), r),
{
    to_toml(to_value(task))
}

} // verus!
