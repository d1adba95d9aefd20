//! The weight histogram of the profiler: for each label, in the order in
//! which the labels first ended a region, the weights measured for it. It is
//! kept in an `indexmap::IndexMap`.

use indexmap::IndexMap;
use vstd::prelude::*;

verus! {

/// `indexmap::IndexMap`, a hash map that keeps its entries in the order in
/// which their keys were first inserted.
#[verifier::external_type_specification]
#[verifier::external_body]
#[verifier::reject_recursive_types(K)]
#[verifier::reject_recursive_types(V)]
#[verifier::reject_recursive_types(S)]
pub struct ExIndexMap<K, V, S>(IndexMap<K, V, S>);

/// The rows of a histogram: a label and its weights, oldest label first.
pub type Rows = Seq<(Seq<char>, Seq<usize>)>;

/// What a histogram holds, in its own order.
pub uninterp spec fn histogram_rows(m: IndexMap<String, Vec<usize>>) -> Seq<(Seq<char>, Seq<usize>)>;

/// Whether some row of `rows` carries `label`.
pub open spec fn has_label(rows: Rows, label: Seq<char>) -> bool {
    exists|i: int| 0 <= i < rows.len() && (#[trigger] rows[i]).0 == label
}

/// The index of a row of `rows` that carries `label`. A map holds a key
/// once, so in the rows of a histogram this is the one row of the label.
pub open spec fn row_of(rows: Rows, label: Seq<char>) -> int
    recommends
        has_label(rows, label),
{
    choose|i: int| 0 <= i < rows.len() && (#[trigger] rows[i]).0 == label
}

/// `IndexMap::new` makes a map without entries.
#[verifier::external_body]
pub(crate) fn histogram_new() -> (m: IndexMap<String, Vec<usize>>)
    ensures
        histogram_rows(m) == Seq::<(Seq<char>, Seq<usize>)>::empty(),
{
    IndexMap::new()
}

/// `IndexMap::clone` makes a map with the same rows in the same order.
#[verifier::external_body]
pub(crate) fn histogram_clone(m: &IndexMap<String, Vec<usize>>) -> (r: IndexMap<String, Vec<usize>>)
    ensures
        histogram_rows(r) == histogram_rows(*m),
{
    m.clone()
}

/// `IndexMap::get_mut` lends the weights stored under `label`, if any; what
/// the borrower leaves in them is what the row holds afterwards, and nothing
/// else in the map changes.
#[verifier::external_body]
pub(crate) fn histogram_get_mut<'a>(
    m: &'a mut IndexMap<String, Vec<usize>>,
    label: &String,
) -> (r: Option<&'a mut Vec<usize>>)
    ensures
        match r {
            Some(w) => {
                let i = row_of(histogram_rows(*old(m)), label@);
                &&& has_label(histogram_rows(*old(m)), label@)
                &&& w@ == histogram_rows(*old(m))[i].1
                &&& histogram_rows(*final(m)) == histogram_rows(*old(m)).update(
                    i,
                    (label@, final(w)@),
                )
            },
            None => {
                &&& !has_label(histogram_rows(*old(m)), label@)
                &&& histogram_rows(*final(m)) == histogram_rows(*old(m))
            },
        },
{
    m.get_mut(label)
}

/// `IndexMap::insert` stores `weights` under `label`: in the row that
/// carries the label, which keeps its place, or else in a new last row.
#[verifier::external_body]
pub(crate) fn histogram_insert(
    m: &mut IndexMap<String, Vec<usize>>,
    label: String,
    weights: Vec<usize>,
)
    ensures
        histogram_rows(*final(m)) == if has_label(histogram_rows(*old(m)), label@) {
            histogram_rows(*old(m)).update(
                row_of(histogram_rows(*old(m)), label@),
                (label@, weights@),
            )
        } else {
            histogram_rows(*old(m)).push((label@, weights@))
        },
{
    m.insert(label, weights);
}

/// `IndexMap::len` counts the rows.
#[verifier::external_body]
pub(crate) fn histogram_len(m: &IndexMap<String, Vec<usize>>) -> (n: usize)
    ensures
        n == histogram_rows(*m).len(),
{
    m.len()
}

/// `IndexMap::get_index` gives the row at position `i`, if there is one.
#[verifier::external_body]
pub(crate) fn histogram_get_index(m: &IndexMap<String, Vec<usize>>, i: usize) -> (r: Option<
    (&String, &Vec<usize>),
>)
    ensures
        r is Some == (i < histogram_rows(*m).len()),
        r matches Some(row) ==> row.0@ == histogram_rows(*m)[i as int].0 && row.1@
            == histogram_rows(*m)[i as int].1,
{
    m.get_index(i)
}

/// Whether no two rows of `rows` carry the same label.
pub open spec fn distinct_labels(rows: Rows) -> bool {
    forall|i: int, j: int|
        0 <= i < j < rows.len() ==> (#[trigger] rows[i]).0 != (#[trigger] rows[j]).0
}

/// `rows` after one more weight is measured for `label`: the weight joins
/// the row of the label, or opens a new last row.
pub open spec fn record(rows: Rows, label: Seq<char>, weight: usize) -> Rows {
    if has_label(rows, label) {
        let i = row_of(rows, label);
        rows.update(i, (label, rows[i].1.push(weight)))
    } else {
        rows.push((label, seq![weight]))
    }
}

/// Recording a weight keeps one row per label.
pub proof fn lemma_record_keeps_labels_distinct(rows: Rows, label: Seq<char>, weight: usize)
    requires
        distinct_labels(rows),
    ensures
        distinct_labels(record(rows, label, weight)),
{
    let after = record(rows, label, weight);
    assert forall|i: int, j: int| 0 <= i < j < after.len() implies (#[trigger] after[i]).0 != (
    #[trigger] after[j]).0 by {
        if has_label(rows, label) {
            let k = row_of(rows, label);
            assert(rows[k].0 == label);
            assert(after[i].0 == rows[i].0);
            assert(after[j].0 == rows[j].0);
        } else {
            if j == rows.len() {
                assert(after[i] == rows[i]);
            } else {
                assert(after[i] == rows[i]);
                assert(after[j] == rows[j]);
            }
        }
    }
}

} // verus!
