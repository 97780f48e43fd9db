//! Insertion-ordered maps from `indexmap`, as the evaluation results use them.
use indexmap::IndexMap;
use vstd::prelude::*;

verus! {

#[verifier::external_type_specification]
#[verifier::external_body]
#[verifier::reject_recursive_types(K)]
#[verifier::reject_recursive_types(V)]
#[verifier::reject_recursive_types(S)]
pub struct ExIndexMap<K, V, S>(IndexMap<K, V, S>);

/// Position of the first entry whose key is `k`, or -1.
pub open spec fn find_key<V>(m: Seq<(Seq<char>, V)>, k: Seq<char>) -> int
    decreases m.len(),
{
    if m.len() == 0 {
        -1
    } else {
        let j = find_key(m.drop_last(), k);
        if j >= 0 {
            j
        } else if m.last().0 == k {
            m.len() - 1
        } else {
            -1
        }
    }
}

/// Entries after inserting `(k, v)` into an insertion-ordered map: an existing key keeps
/// its place and takes the new value, a new key goes last.
pub open spec fn ordered_insert<V>(m: Seq<(Seq<char>, V)>, k: Seq<char>, v: V) -> Seq<(Seq<char>, V)> {
    let j = find_key(m, k);
    if j >= 0 {
        m.update(j, (k, v))
    } else {
        m.push((k, v))
    }
}

pub proof fn lemma_find_key_bounds<V>(m: Seq<(Seq<char>, V)>, k: Seq<char>)
    ensures
        -1 <= find_key(m, k) < m.len(),
        find_key(m, k) >= 0 ==> m[find_key(m, k)].0 == k,
        find_key(m, k) < 0 ==> forall|i: int| 0 <= i < m.len() ==> #[trigger] m[i].0 != k,
        find_key(m, k) >= 0 ==> forall|i: int| 0 <= i < find_key(m, k) ==> #[trigger] m[i].0 != k,
    decreases m.len(),
{
    if m.len() > 0 {
        lemma_find_key_bounds(m.drop_last(), k);
        assert forall|i: int| 0 <= i < m.len() - 1 implies #[trigger] m[i] == m.drop_last()[i] by {}
    }
}

/// Entries of a map from metric name to score text, in insertion order.
pub uninterp spec fn metric_entries(m: IndexMap<String, String>) -> Seq<(Seq<char>, Seq<char>)>;

/// Entries of a map from dataset name to its metrics, in insertion order.
pub uninterp spec fn eval_entries(m: IndexMap<String, IndexMap<String, String>>) -> Seq<
    (Seq<char>, Seq<(Seq<char>, Seq<char>)>),
>;

/// Relies on `IndexMap::new`: the map starts empty.
#[verifier::external_body]
pub(crate) fn new_metric_map() -> (r: IndexMap<String, String>)
    ensures
        metric_entries(r) == Seq::<(Seq<char>, Seq<char>)>::empty(),
{
    IndexMap::new()
}

/// Relies on `IndexMap::insert`: an existing key keeps its position and takes the new
/// value; a new key is appended.
#[verifier::external_body]
pub(crate) fn insert_metric(m: &mut IndexMap<String, String>, k: String, v: String)
    ensures
        metric_entries(*final(m)) == ordered_insert(metric_entries(*old(m)), k@, v@),
{
    m.insert(k, v);
}

/// Relies on `IndexMap::new`: the map starts empty.
#[verifier::external_body]
pub(crate) fn new_eval_map() -> (r: IndexMap<String, IndexMap<String, String>>)
    ensures
        eval_entries(r) == Seq::<(Seq<char>, Seq<(Seq<char>, Seq<char>)>)>::empty(),
{
    IndexMap::new()
}

/// Relies on `IndexMap::insert`: an existing key keeps its position and takes the new
/// value; a new key is appended.
#[verifier::external_body]
pub(crate) fn insert_eval(
    m: &mut IndexMap<String, IndexMap<String, String>>,
    k: String,
    v: IndexMap<String, String>,
)
    ensures
        eval_entries(*final(m)) == ordered_insert(eval_entries(*old(m)), k@, metric_entries(v)),
{
    m.insert(k, v);
}

} // verus!
