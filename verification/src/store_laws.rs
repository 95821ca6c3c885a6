//! What holds of every scan of a table, and of what is printed of it.
use vstd::prelude::*;

use crate::bytes;
use crate::diff;
use crate::diff_laws;
use crate::error::CtlError;
use crate::keys;
use crate::order_laws;
use crate::range;
use crate::range::CfKind;
use crate::region;
use crate::store;

verus! {

/// The rows of `rows` whose keys do not come before `start` and come before `end`.
pub open spec fn between(
    rows: Seq<(Seq<u8>, Seq<u8>)>,
    start: Seq<u8>,
    end: Seq<u8>,
) -> Seq<(Seq<u8>, Seq<u8>)>
    decreases rows.len(),
{
    if rows.len() == 0 {
        Seq::empty()
    } else if bytes::less(rows[0].0, start) || !bytes::less(rows[0].0, end) {
        between(rows.drop_first(), start, end)
    } else {
        seq![rows[0]] + between(rows.drop_first(), start, end)
    }
}

/// Without its first row a table is still ascending, and the first row comes before all the others.
pub proof fn rest_ascending(rows: Seq<(Seq<u8>, Seq<u8>)>)
    requires
        store::ascending(rows),
        rows.len() > 0,
    ensures
        store::ascending(rows.drop_first()),
        forall|i: int|
            0 <= i < rows.drop_first().len() ==> bytes::less(
                rows[0].0,
                (#[trigger] rows.drop_first()[i]).0,
            ),
{
    let rest = rows.drop_first();
    assert forall|i: int, j: int| 0 <= i < j < rest.len() implies bytes::less(
        #[trigger] rest[i].0,
        #[trigger] rest[j].0,
    ) by {
        assert(rest[i] == rows[i + 1] && rest[j] == rows[j + 1]);
    }
    assert forall|i: int| 0 <= i < rest.len() implies bytes::less(rows[0].0, (#[trigger] rest[i]).0)
        by {
        assert(rest[i] == rows[i + 1]);
    }
}

proof fn between_none(rows: Seq<(Seq<u8>, Seq<u8>)>, start: Seq<u8>, end: Seq<u8>)
    requires
        forall|i: int| 0 <= i < rows.len() ==> !bytes::less((#[trigger] rows[i]).0, end),
    ensures
        between(rows, start, end) == Seq::<(Seq<u8>, Seq<u8>)>::empty(),
    decreases rows.len(),
{
    if rows.len() > 0 {
        let rest = rows.drop_first();
        assert forall|i: int| 0 <= i < rest.len() implies !bytes::less((#[trigger] rest[i]).0, end)
            by {
            assert(rest[i] == rows[i + 1]);
        }
        between_none(rest, start, end);
    }
}

proof fn bounded_is_between(rows: Seq<(Seq<u8>, Seq<u8>)>, start: Seq<u8>, end: Seq<u8>)
    requires
        store::ascending(rows),
        forall|i: int| 0 <= i < rows.len() ==> !bytes::less((#[trigger] rows[i]).0, start),
    ensures
        store::bounded(rows, end) == between(rows, start, end),
    decreases rows.len(),
{
    if rows.len() > 0 {
        let rest = rows.drop_first();
        rest_ascending(rows);
        if bytes::less(rows[0].0, end) {
            assert forall|i: int| 0 <= i < rest.len() implies !bytes::less(
                (#[trigger] rest[i]).0,
                start,
            ) by {
                assert(rest[i] == rows[i + 1]);
            }
            bounded_is_between(rest, start, end);
        } else {
            assert forall|i: int| 0 <= i < rows.len() implies !bytes::less(
                (#[trigger] rows[i]).0,
                end,
            ) by {
                if i > 0 && bytes::less(rows[i].0, end) {
                    bytes::less_transitive(rows[0].0, rows[i].0, end);
                }
            }
            between_none(rows, start, end);
        }
    }
}

/// A scan meets every row of the table between its bounds and no other, in the order of the table.
pub proof fn scan_is_exact(rows: Seq<(Seq<u8>, Seq<u8>)>, start: Seq<u8>, end: Seq<u8>)
    requires
        store::ascending(rows),
    ensures
        store::scanned(rows, start, end) == between(rows, start, end),
    decreases rows.len(),
{
    if rows.len() > 0 && bytes::less(rows[0].0, start) {
        rest_ascending(rows);
        scan_is_exact(rows.drop_first(), start, end);
    } else {
        assert forall|i: int| 0 <= i < rows.len() implies !bytes::less(
            (#[trigger] rows[i]).0,
            start,
        ) by {
            if i > 0 && bytes::less(rows[i].0, start) {
                bytes::less_transitive(rows[0].0, rows[i].0, start);
            }
        }
        bounded_is_between(rows, start, end);
    }
}

/// Between two bounds stand exactly the rows of the table that do not come before the first bound and
/// come before the second.
pub proof fn between_contains(
    rows: Seq<(Seq<u8>, Seq<u8>)>,
    start: Seq<u8>,
    end: Seq<u8>,
    row: (Seq<u8>, Seq<u8>),
)
    ensures
        between(rows, start, end).contains(row) <==> rows.contains(row) && !bytes::less(
            row.0,
            start,
        ) && bytes::less(row.0, end),
    decreases rows.len(),
{
    let met = between(rows, start, end);
    if rows.len() > 0 {
        let rest = rows.drop_first();
        let tail = between(rest, start, end);
        between_contains(rest, start, end, row);
        assert(rows.contains(row) <==> row == rows[0] || rest.contains(row)) by {
            if rows.contains(row) {
                let i = choose|i: int| 0 <= i < rows.len() && rows[i] == row;
                if i > 0 {
                    assert(rest[i - 1] == row);
                }
            }
            if rest.contains(row) {
                let i = choose|i: int| 0 <= i < rest.len() && rest[i] == row;
                assert(rows[i + 1] == row);
            }
            assert(rows[0] == rows[0]);
        }
        if !(bytes::less(rows[0].0, start) || !bytes::less(rows[0].0, end)) {
            assert(met.contains(row) <==> row == rows[0] || tail.contains(row)) by {
                if met.contains(row) {
                    let i = choose|i: int| 0 <= i < met.len() && met[i] == row;
                    if i > 0 {
                        assert(tail[i - 1] == row);
                    }
                }
                if tail.contains(row) {
                    let i = choose|i: int| 0 <= i < tail.len() && tail[i] == row;
                    assert(met[i + 1] == row);
                }
                assert(met[0] == rows[0]);
            }
        }
    }
}

/// The rows between two bounds of a table are in ascending order.
pub proof fn between_ascending(rows: Seq<(Seq<u8>, Seq<u8>)>, start: Seq<u8>, end: Seq<u8>)
    requires
        store::ascending(rows),
    ensures
        store::ascending(between(rows, start, end)),
    decreases rows.len(),
{
    if rows.len() > 0 {
        let rest = rows.drop_first();
        let met = between(rows, start, end);
        let tail = between(rest, start, end);
        rest_ascending(rows);
        between_ascending(rest, start, end);
        if !(bytes::less(rows[0].0, start) || !bytes::less(rows[0].0, end)) {
            assert forall|i: int, j: int| 0 <= i < j < met.len() implies bytes::less(
                #[trigger] met[i].0,
                #[trigger] met[j].0,
            ) by {
                assert(met[j] == tail[j - 1]);
                if i > 0 {
                    assert(met[i] == tail[i - 1]);
                } else {
                    between_contains(rest, start, end, met[j]);
                    assert(tail.contains(tail[j - 1]));
                    let k = choose|k: int| 0 <= k < rest.len() && rest[k] == met[j];
                    assert(bytes::less(rows[0].0, rest[k].0));
                }
            }
        }
    }
}

/// The keys that a scan of a table meets are in ascending order, so that what holds of the
/// comparison of ascending keys holds of the comparison of two stores.
pub proof fn scanned_keys_ascend(rows: Seq<(Seq<u8>, Seq<u8>)>, start: Seq<u8>, end: Seq<u8>)
    requires
        store::ascending(rows),
    ensures
        diff_laws::ascending_keys(diff::row_keys(store::scanned(rows, start, end))),
{
    scan_is_exact(rows, start, end);
    between_ascending(rows, start, end);
    let met = store::scanned(rows, start, end);
    let ks = diff::row_keys(met);
    assert forall|i: int, j: int| 0 <= i < j < ks.len() implies bytes::less(
        #[trigger] ks[i],
        #[trigger] ks[j],
    ) by {
        assert(bytes::less(met[i].0, met[j].0));
    }
}

/// A lookup gives the value of the row with that key, and nothing where there is no such row.
pub proof fn lookup_is_exact(rows: Seq<(Seq<u8>, Seq<u8>)>, key: Seq<u8>, value: Seq<u8>)
    requires
        store::ascending(rows),
    ensures
        store::looked_up(rows, key) == Some(value) <==> rows.contains((key, value)),
    decreases rows.len(),
{
    if rows.len() > 0 {
        let rest = rows.drop_first();
        rest_ascending(rows);
        bytes::less_irreflexive(key);
        assert(rows.contains((key, value)) <==> (key, value) == rows[0] || rest.contains(
            (key, value),
        )) by {
            if rows.contains((key, value)) {
                let i = choose|i: int| 0 <= i < rows.len() && rows[i] == (key, value);
                if i > 0 {
                    assert(rest[i - 1] == (key, value));
                }
            }
            if rest.contains((key, value)) {
                let i = choose|i: int| 0 <= i < rest.len() && rest[i] == (key, value);
                assert(rows[i + 1] == (key, value));
            }
            assert(rows[0] == rows[0]);
        }
        if bytes::less(rows[0].0, key) {
            lookup_is_exact(rest, key, value);
        } else if rest.contains((key, value)) {
            let i = choose|i: int| 0 <= i < rest.len() && rest[i] == (key, value);
            assert(bytes::less(rows[0].0, rest[i].0));
        }
    }
}

/// The rows that the filters let pass, in their order.
pub open spec fn passing(
    rows: Seq<(Seq<u8>, Seq<u8>)>,
    kind: CfKind,
    start_ts: Option<u64>,
    commit_ts: Option<u64>,
) -> Seq<(Seq<u8>, Seq<u8>)>
    decreases rows.len(),
{
    if rows.len() == 0 {
        Seq::empty()
    } else if range::row_selects(kind, rows[0], start_ts, commit_ts) == Ok::<bool, CtlError>(true) {
        seq![rows[0]] + passing(rows.drop_first(), kind, start_ts, commit_ts)
    } else {
        passing(rows.drop_first(), kind, start_ts, commit_ts)
    }
}

/// What is printed of rows one behind the other.
pub open spec fn all_rows_text(rows: Seq<(Seq<u8>, Seq<u8>)>) -> Seq<char>
    decreases rows.len(),
{
    if rows.len() == 0 {
        Seq::empty()
    } else {
        range::row_text(rows[0]) + all_rows_text(rows.drop_first())
    }
}

/// A range print shows the first rows that pass the filters, as many as the limit allows, and all of
/// them where the limit is not reached.
pub proof fn limit_cuts_the_list(
    rows: Seq<(Seq<u8>, Seq<u8>)>,
    kind: CfKind,
    start_ts: Option<u64>,
    commit_ts: Option<u64>,
    limit: nat,
)
    requires
        range::rows_text(rows, kind, start_ts, commit_ts, limit) is Ok,
    ensures
        ({
            let all = passing(rows, kind, start_ts, commit_ts);
            range::rows_text(rows, kind, start_ts, commit_ts, limit) == Ok::<Seq<char>, CtlError>(
                all_rows_text(
                    if limit <= all.len() {
                        all.take(limit as int)
                    } else {
                        all
                    },
                ),
            )
        }),
    decreases rows.len(),
{
    let all = passing(rows, kind, start_ts, commit_ts);
    if limit == 0 {
        assert(all.take(0) =~= Seq::empty());
    } else if rows.len() > 0 {
        let rest = rows.drop_first();
        let tail = passing(rest, kind, start_ts, commit_ts);
        if range::row_selects(kind, rows[0], start_ts, commit_ts) == Ok::<bool, CtlError>(true) {
            limit_cuts_the_list(rest, kind, start_ts, commit_ts, (limit - 1) as nat);
            assert(all.drop_first() =~= tail);
            if limit <= all.len() {
                assert(all.take(limit as int).drop_first() =~= tail.take(limit - 1));
            }
        } else {
            limit_cuts_the_list(rest, kind, start_ts, commit_ts, limit);
        }
    }
}

proof fn region_ids_contain(rows: Seq<(Seq<u8>, Seq<u8>)>, id: u64)
    requires
        region::region_ids(rows) is Ok,
    ensures
        region::region_ids(rows)->Ok_0.contains(id) <==> exists|i: int|
            0 <= i < rows.len() && (#[trigger] rows[i]).0 == keys::region_meta_spec(
                id,
                keys::REGION_STATE_SUFFIX,
            ),
    decreases rows.len(),
{
    let key = keys::region_meta_spec(id, keys::REGION_STATE_SUFFIX);
    if rows.len() > 0 {
        let rest = rows.drop_first();
        let ids = region::region_ids(rows)->Ok_0;
        let tail = region::region_ids(rest)->Ok_0;
        region_ids_contain(rest, id);
        keys::region_meta_key_round_trip(rows[0].0, id, keys::REGION_STATE_SUFFIX);
        let (first, suffix) = keys::region_meta_parsed(rows[0].0)->Ok_0;
        if suffix == keys::REGION_STATE_SUFFIX {
            assert(ids.contains(id) <==> first == id || tail.contains(id)) by {
                assert(ids[0] == first);
                if ids.contains(id) {
                    let i = choose|i: int| 0 <= i < ids.len() && ids[i] == id;
                    if i > 0 {
                        assert(tail[i - 1] == id);
                    }
                }
                if tail.contains(id) {
                    let i = choose|i: int| 0 <= i < tail.len() && tail[i] == id;
                    assert(ids[i + 1] == id);
                }
            }
        }
        if exists|i: int| 0 <= i < rows.len() && (#[trigger] rows[i]).0 == key {
            let i = choose|i: int| 0 <= i < rows.len() && (#[trigger] rows[i]).0 == key;
            if i > 0 {
                assert(rest[i - 1].0 == key);
            }
        }
        if exists|i: int| 0 <= i < rest.len() && (#[trigger] rest[i]).0 == key {
            let i = choose|i: int| 0 <= i < rest.len() && (#[trigger] rest[i]).0 == key;
            assert(rows[i + 1].0 == key);
        }
    }
}

proof fn meta_key_in_range(id: u64, suffix: u8)
    ensures
        !bytes::less(
            keys::region_meta_spec(id, suffix),
            seq![keys::LOCAL_PREFIX, keys::REGION_META_PREFIX],
        ),
        bytes::less(
            keys::region_meta_spec(id, suffix),
            seq![keys::LOCAL_PREFIX, (keys::REGION_META_PREFIX + 1) as u8],
        ),
{
    reveal_with_fuel(bytes::less, 4);
    let key = keys::region_meta_spec(id, suffix);
    let low = seq![keys::LOCAL_PREFIX, keys::REGION_META_PREFIX];
    let high = seq![keys::LOCAL_PREFIX, (keys::REGION_META_PREFIX + 1) as u8];
    assert(key[0] == keys::LOCAL_PREFIX && key[1] == keys::REGION_META_PREFIX);
    assert(key.drop_first()[0] == keys::REGION_META_PREFIX);
    assert(low.drop_first()[0] == keys::REGION_META_PREFIX);
    assert(high.drop_first()[0] == keys::REGION_META_PREFIX + 1);
    assert(low.drop_first().drop_first().len() == 0);
}

/// The regions can be listed exactly where every row of metadata has the layout of one.
pub proof fn listing_needs_well_formed_keys(rows: Seq<(Seq<u8>, Seq<u8>)>)
    ensures
        region::region_ids(rows) is Err <==> exists|i: int|
            0 <= i < rows.len() && keys::region_meta_parsed((#[trigger] rows[i]).0) is Err,
    decreases rows.len(),
{
    if rows.len() > 0 {
        let rest = rows.drop_first();
        listing_needs_well_formed_keys(rest);
        if exists|i: int|
            0 <= i < rest.len() && keys::region_meta_parsed((#[trigger] rest[i]).0) is Err {
            let i = choose|i: int|
                0 <= i < rest.len() && keys::region_meta_parsed((#[trigger] rest[i]).0) is Err;
            assert(rows[i + 1] == rest[i]);
        }
        if exists|i: int|
            0 <= i < rows.len() && keys::region_meta_parsed((#[trigger] rows[i]).0) is Err {
            let i = choose|i: int|
                0 <= i < rows.len() && keys::region_meta_parsed((#[trigger] rows[i]).0) is Err;
            if i > 0 {
                assert(rest[i - 1] == rows[i]);
            }
        }
    }
}

proof fn ids_ascend(rows: Seq<(Seq<u8>, Seq<u8>)>)
    requires
        store::ascending(rows),
        region::region_ids(rows) is Ok,
    ensures
        ascending_ids(region::region_ids(rows)->Ok_0),
    decreases rows.len(),
{
    if rows.len() > 0 {
        let rest = rows.drop_first();
        let ids = region::region_ids(rows)->Ok_0;
        let tail = region::region_ids(rest)->Ok_0;
        let (first, suffix) = keys::region_meta_parsed(rows[0].0)->Ok_0;
        rest_ascending(rows);
        ids_ascend(rest);
        if suffix == keys::REGION_STATE_SUFFIX {
            keys::region_meta_key_round_trip(rows[0].0, first, suffix);
            assert forall|i: int, j: int| 0 <= i < j < ids.len() implies #[trigger] ids[i]
                < #[trigger] ids[j] by {
                assert(ids[j] == tail[j - 1]);
                if i > 0 {
                    assert(ids[i] == tail[i - 1]);
                } else {
                    region_ids_contain(rest, ids[j]);
                    assert(tail.contains(tail[j - 1]));
                    let k = choose|k: int|
                        0 <= k < rest.len() && (#[trigger] rest[k]).0 == keys::region_meta_spec(
                            ids[j],
                            keys::REGION_STATE_SUFFIX,
                        );
                    assert(bytes::less(rows[0].0, rest[k].0));
                    order_laws::region_keys_are_in_order(first, ids[j], suffix);
                }
            }
        }
    }
}

/// Whether the numbers are in ascending order, none of them twice.
pub open spec fn ascending_ids(ids: Seq<u64>) -> bool {
    forall|i: int, j: int| 0 <= i < j < ids.len() ==> #[trigger] ids[i] < #[trigger] ids[j]
}

/// The regions of a store are listed in ascending order, none of them twice.
pub proof fn regions_are_listed_in_order(rows: Seq<(Seq<u8>, Seq<u8>)>)
    requires
        store::ascending(rows),
        region::region_ids(region::meta_rows(rows)) is Ok,
    ensures
        ascending_ids(region::region_ids(region::meta_rows(rows))->Ok_0),
{
    let low = seq![keys::LOCAL_PREFIX, keys::REGION_META_PREFIX];
    let high = seq![keys::LOCAL_PREFIX, (keys::REGION_META_PREFIX + 1) as u8];
    scan_is_exact(rows, low, high);
    between_ascending(rows, low, high);
    ids_ascend(region::meta_rows(rows));
}

/// A store lists a region exactly if a lookup finds the state of that region.
pub proof fn listed_regions_have_a_state(rows: Seq<(Seq<u8>, Seq<u8>)>, id: u64)
    requires
        store::ascending(rows),
        region::region_ids(region::meta_rows(rows)) is Ok,
    ensures
        region::region_ids(region::meta_rows(rows))->Ok_0.contains(id) <==> store::looked_up(
            rows,
            keys::region_meta_spec(id, keys::REGION_STATE_SUFFIX),
        ) is Some,
{
    let key = keys::region_meta_spec(id, keys::REGION_STATE_SUFFIX);
    regions_are_those_with_a_state(rows, id);
    if exists|i: int| 0 <= i < rows.len() && (#[trigger] rows[i]).0 == key {
        let i = choose|i: int| 0 <= i < rows.len() && (#[trigger] rows[i]).0 == key;
        lookup_is_exact(rows, key, rows[i].1);
        assert(rows.contains(rows[i]));
        assert(rows[i] == (key, rows[i].1));
    }
    if let Some(v) = store::looked_up(rows, key) {
        lookup_is_exact(rows, key, v);
        let i = choose|i: int| 0 <= i < rows.len() && rows[i] == (key, v);
        assert(rows[i].0 == key);
    }
}

/// A store lists a region exactly if it holds the state of that region.
pub proof fn regions_are_those_with_a_state(rows: Seq<(Seq<u8>, Seq<u8>)>, id: u64)
    requires
        store::ascending(rows),
        region::region_ids(region::meta_rows(rows)) is Ok,
    ensures
        region::region_ids(region::meta_rows(rows))->Ok_0.contains(id) <==> exists|i: int|
            0 <= i < rows.len() && (#[trigger] rows[i]).0 == keys::region_meta_spec(
                id,
                keys::REGION_STATE_SUFFIX,
            ),
{
    let key = keys::region_meta_spec(id, keys::REGION_STATE_SUFFIX);
    let low = seq![keys::LOCAL_PREFIX, keys::REGION_META_PREFIX];
    let high = seq![keys::LOCAL_PREFIX, (keys::REGION_META_PREFIX + 1) as u8];
    let met = region::meta_rows(rows);
    region_ids_contain(met, id);
    scan_is_exact(rows, low, high);
    meta_key_in_range(id, keys::REGION_STATE_SUFFIX);
    if exists|i: int| 0 <= i < rows.len() && (#[trigger] rows[i]).0 == key {
        let i = choose|i: int| 0 <= i < rows.len() && (#[trigger] rows[i]).0 == key;
        between_contains(rows, low, high, rows[i]);
        assert(rows.contains(rows[i]));
        let j = choose|j: int| 0 <= j < met.len() && met[j] == rows[i];
        assert(met[j].0 == key);
    }
    if exists|i: int| 0 <= i < met.len() && (#[trigger] met[i]).0 == key {
        let i = choose|i: int| 0 <= i < met.len() && (#[trigger] met[i]).0 == key;
        between_contains(rows, low, high, met[i]);
        assert(met.contains(met[i]));
        let j = choose|j: int| 0 <= j < rows.len() && rows[j] == met[i];
        assert(rows[j].0 == key);
    }
}

/// The size of a region in all column families with user data is the sum of its sizes in each.
pub proof fn size_is_sum_of_families(db: store::Db, start: Seq<u8>, end: Seq<u8>)
    ensures
        region::region_len(db, start, end, None)->0 == region::region_len(
            db,
            start,
            end,
            Some(store::CF_DEFAULT@),
        )->0 + region::region_len(db, start, end, Some(store::CF_WRITE@))->0 + region::region_len(
            db,
            start,
            end,
            Some(store::CF_LOCK@),
        )->0,
{
    store::cf_names_differ();
}

/// The report on the sizes of all regions is fixed by the sizes: there is one order in which they can
/// stand in it.
pub proof fn size_report_is_unique(t: Seq<char>, u: Seq<char>, sizes: Seq<(u64, u64)>)
    requires
        region::is_sizes_report(t, sizes),
        region::is_sizes_report(u, sizes),
    ensures
        t == u,
{
    let total = region::total_size(sizes);
    let a = choose|s: Seq<(u64, u64)>|
        #![trigger region::sizes_text(s, total)]
        region::ascending_pairs(s) && s.to_multiset() == sizes.to_multiset() && t
            == region::sizes_text(s, total);
    let b = choose|s: Seq<(u64, u64)>|
        #![trigger region::sizes_text(s, total)]
        region::ascending_pairs(s) && s.to_multiset() == sizes.to_multiset() && u
            == region::sizes_text(s, total);
    let leq = |x: (u64, u64), y: (u64, u64)| region::pair_le(x, y);
    assert(vstd::relations::total_ordering(leq));
    assert(vstd::relations::sorted_by(a, leq));
    assert(vstd::relations::sorted_by(b, leq));
    vstd::seq_lib::lemma_sorted_unique(a, b, leq);
}

} // verus!
