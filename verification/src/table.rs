use vstd::prelude::*;

verus! {

/// No two rows have the same key.
pub open spec fn keys_distinct<R, K>(rows: Seq<R>, key: spec_fn(R) -> K) -> bool {
    forall|i: int, j: int|
        0 <= i < j < rows.len() ==> key(#[trigger] rows[i]) != key(#[trigger] rows[j])
}

/// Some row has the key `k`.
pub open spec fn has_key<R, K>(rows: Seq<R>, key: spec_fn(R) -> K, k: K) -> bool {
    exists|i: int| 0 <= i < rows.len() && key(#[trigger] rows[i]) == k
}

/// The index of a row with the key `k`, where there is one.
pub open spec fn row_of<R, K>(rows: Seq<R>, key: spec_fn(R) -> K, k: K) -> int {
    choose|i: int| 0 <= i < rows.len() && key(#[trigger] rows[i]) == k
}

/// The rows read as a map: from the key of each row to what `val` makes of the row.
pub open spec fn as_map<R, K, V>(rows: Seq<R>, key: spec_fn(R) -> K, val: spec_fn(R) -> V) -> Map<
    K,
    V,
> {
    Map::new(|k: K| has_key(rows, key, k), |k: K| val(rows[row_of(rows, key, k)]))
}

/// With distinct keys, the map holds under the key of the row `i` what `val` makes
/// of that row.
pub proof fn lemma_row_in_map<R, K, V>(
    rows: Seq<R>,
    key: spec_fn(R) -> K,
    val: spec_fn(R) -> V,
    i: int,
)
    requires
        keys_distinct(rows, key),
        0 <= i < rows.len(),
    ensures
        as_map(rows, key, val).contains_key(key(rows[i])),
        as_map(rows, key, val)[key(rows[i])] == val(rows[i]),
{
    let k = key(rows[i]);
    assert(has_key(rows, key, k));
    let j = row_of(rows, key, k);
    assert(0 <= j < rows.len() && key(rows[j]) == k);
    assert(i == j);
}

/// A key that no row has is not in the map.
pub proof fn lemma_key_not_in_map<R, K, V>(
    rows: Seq<R>,
    key: spec_fn(R) -> K,
    val: spec_fn(R) -> V,
    k: K,
)
    requires
        forall|i: int| 0 <= i < rows.len() ==> key(#[trigger] rows[i]) != k,
    ensures
        !as_map(rows, key, val).contains_key(k),
{
}

/// A new row with a new key is an insertion into the map.
pub proof fn lemma_push_row<R, K, V>(
    rows: Seq<R>,
    key: spec_fn(R) -> K,
    val: spec_fn(R) -> V,
    row: R,
)
    requires
        keys_distinct(rows, key),
        forall|i: int| 0 <= i < rows.len() ==> key(#[trigger] rows[i]) != key(row),
    ensures
        keys_distinct(rows.push(row), key),
        as_map(rows.push(row), key, val) == as_map(rows, key, val).insert(key(row), val(row)),
{
    let more = rows.push(row);
    assert(keys_distinct(more, key)) by {
        assert forall|i: int, j: int| 0 <= i < j < more.len() implies key(#[trigger] more[i])
            != key(#[trigger] more[j]) by {
            if j < rows.len() {
                assert(more[i] == rows[i] && more[j] == rows[j]);
            } else {
                assert(more[i] == rows[i]);
            }
        }
    }
    let before = as_map(rows, key, val);
    let after = as_map(more, key, val);
    assert forall|k: K| after.contains_key(k) <==> #[trigger] before.insert(
        key(row),
        val(row),
    ).contains_key(k) by {
        if has_key(more, key, k) {
            let i = row_of(more, key, k);
            if i < rows.len() {
                assert(key(rows[i]) == k);
            }
        }
        if has_key(rows, key, k) {
            let i = row_of(rows, key, k);
            assert(key(more[i]) == k);
        }
        if k == key(row) {
            assert(key(more[rows.len() as int]) == k);
        }
    }
    assert forall|k: K| after.contains_key(k) implies after[k] == #[trigger] before.insert(
        key(row),
        val(row),
    )[k] by {
        let i = row_of(more, key, k);
        assert(0 <= i < more.len() && key(more[i]) == k);
        lemma_row_in_map(more, key, val, i);
        if i < rows.len() {
            assert(more[i] == rows[i]);
            lemma_row_in_map(rows, key, val, i);
        }
    }
    assert(after =~= before.insert(key(row), val(row)));
}

/// A row that gives way to another with the same key is an insertion into the map.
pub proof fn lemma_update_row<R, K, V>(
    rows: Seq<R>,
    key: spec_fn(R) -> K,
    val: spec_fn(R) -> V,
    i: int,
    row: R,
)
    requires
        keys_distinct(rows, key),
        0 <= i < rows.len(),
        key(row) == key(rows[i]),
    ensures
        keys_distinct(rows.update(i, row), key),
        as_map(rows.update(i, row), key, val) == as_map(rows, key, val).insert(
            key(row),
            val(row),
        ),
{
    let changed = rows.update(i, row);
    assert(keys_distinct(changed, key)) by {
        assert forall|a: int, b: int| 0 <= a < b < changed.len() implies key(
            #[trigger] changed[a],
        ) != key(#[trigger] changed[b]) by {
            assert(key(changed[a]) == key(rows[a]));
            assert(key(changed[b]) == key(rows[b]));
        }
    }
    let before = as_map(rows, key, val);
    let after = as_map(changed, key, val);
    assert forall|k: K| after.contains_key(k) <==> #[trigger] before.insert(
        key(row),
        val(row),
    ).contains_key(k) by {
        if has_key(changed, key, k) {
            let j = row_of(changed, key, k);
            assert(key(rows[j]) == key(changed[j]));
        }
        if has_key(rows, key, k) {
            let j = row_of(rows, key, k);
            assert(key(changed[j]) == key(rows[j]));
        }
        if k == key(row) {
            assert(key(changed[i]) == k);
        }
    }
    assert forall|k: K| after.contains_key(k) implies after[k] == #[trigger] before.insert(
        key(row),
        val(row),
    )[k] by {
        let j = row_of(changed, key, k);
        assert(0 <= j < changed.len() && key(changed[j]) == k);
        lemma_row_in_map(changed, key, val, j);
        if j != i {
            assert(changed[j] == rows[j]);
            lemma_row_in_map(rows, key, val, j);
        }
    }
    assert(after =~= before.insert(key(row), val(row)));
}

} // verus!
