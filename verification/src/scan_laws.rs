//! What a scan of a range prints, in terms of the rows and of the filters.
use vstd::prelude::*;

use crate::bytes;
use crate::error::CtlError;
use crate::escape;
use crate::report_laws;
use crate::range;
use crate::range::CfKind;
use crate::store;
use crate::store::Db;
use crate::store_laws;
use crate::text;
use crate::types;

verus! {

broadcast use vstd::string::group_string_axioms;

/// Whether the value of a row of that kind can be read: a write record where there have to be such, a
/// lock where there have to be those, and anything elsewhere.
pub open spec fn is_readable(kind: CfKind, row: (Seq<u8>, Seq<u8>)) -> bool {
    match kind {
        CfKind::Write => types::write_parsed(row.1) is Ok,
        CfKind::Lock => types::lock_parsed(row.1) is Ok,
        _ => true,
    }
}

/// Without filters every readable row passes, whatever family it is of. What cannot be read is an error
/// with and without filters.
pub proof fn without_filters_every_row_passes(
    kind: CfKind,
    row: (Seq<u8>, Seq<u8>),
    start: Option<u64>,
    commit: Option<u64>,
)
    ensures
        is_readable(kind, row) ==> range::row_selects(kind, row, None, None) == Ok::<
            bool,
            CtlError,
        >(true),
        range::row_selects(kind, row, start, commit) is Ok <==> is_readable(kind, row),
{
}

/// A filter only takes rows away, and a row that passes both filters alone passes them together.
pub proof fn filters_work_together(
    kind: CfKind,
    row: (Seq<u8>, Seq<u8>),
    start: Option<u64>,
    commit: Option<u64>,
)
    requires
        is_readable(kind, row),
    ensures
        ({
            let pass = |s: Option<u64>, c: Option<u64>|
                range::row_selects(kind, row, s, c) == Ok::<bool, CtlError>(true);
            pass(start, commit) == (pass(start, None) && pass(None, commit))
        }),
{
}

/// A version with a timestamp passes a filter by its start exactly if it is that timestamp, whatever
/// the filter by the commit.
pub proof fn plain_version_passes(
    key: Seq<u8>,
    ts: u64,
    value: Seq<u8>,
    start: u64,
    commit: Option<u64>,
)
    ensures
        range::row_selects(CfKind::Default, (types::at_ts(key, ts), value), Some(start), commit)
            == Ok::<bool, CtlError>(ts == start),
{
    types::ts_round_trip(key, ts);
}

/// A lock passes a filter by its start exactly if it has that timestamp, whatever its key and whatever
/// the filter by the commit.
pub proof fn lock_passes(
    key: Seq<u8>,
    lock: types::LockView,
    start: Option<u64>,
    commit: Option<u64>,
)
    requires
        lock.short_value matches Some(v) ==> v.len() <= 255,
        lock.primary.len() <= i64::MAX,
    ensures
        range::row_selects(CfKind::Lock, (key, types::lock_bytes(lock)), start, commit) == Ok::<
            bool,
            CtlError,
        >(start is None || start == Some(lock.ts)),
{
    types::lock_round_trip(lock);
}

/// A write record passes a filter by its start exactly if it started then, and a filter by its commit
/// exactly if its key has that timestamp.
pub proof fn write_record_passes(
    key: Seq<u8>,
    ts: u64,
    write: types::WriteView,
    start: Option<u64>,
    commit: Option<u64>,
)
    requires
        write.short_value matches Some(v) ==> v.len() <= 255,
    ensures
        range::row_selects(
            CfKind::Write,
            (types::at_ts(key, ts), types::write_bytes(write)),
            start,
            commit,
        ) == Ok::<bool, CtlError>(
            (start is None || start == Some(write.start_ts)) && (commit is None || commit == Some(
                ts,
            )),
        ),
{
    types::ts_round_trip(key, ts);
    types::write_round_trip(write);
}

/// A key that is too short for a timestamp passes no filter for one.
pub proof fn keys_without_timestamp_pass_no_filter(
    key: Seq<u8>,
    value: Seq<u8>,
    ts: u64,
    start: Option<u64>,
)
    requires
        key.len() < 8,
    ensures
        range::row_selects(CfKind::Default, (key, value), Some(ts), None) == Ok::<bool, CtlError>(
            false,
        ),
        types::write_parsed(value) is Ok ==> range::row_selects(
            CfKind::Write,
            (key, value),
            start,
            Some(ts),
        ) == Ok::<bool, CtlError>(false),
{
}

/// Rows of any other family pass whatever the filters.
pub proof fn other_rows_pass(row: (Seq<u8>, Seq<u8>), start: Option<u64>, commit: Option<u64>)
    ensures
        range::row_selects(CfKind::Other, row, start, commit) == Ok::<bool, CtlError>(true),
{
}

/// What the rows of a family hold goes by its name.
pub proof fn kinds_go_by_names(name: Seq<char>)
    ensures
        range::kind_of("default"@) == CfKind::Default,
        range::kind_of("lock"@) == CfKind::Lock,
        range::kind_of("write"@) == CfKind::Write,
        name != "default"@ && name != "lock"@ && name != "write"@ ==> range::kind_of(name)
            == CfKind::Other,
{
    store::cf_names_differ();
}

/// What is printed of a row: its key and the length of its value, then its value.
pub open spec fn shown(row: (Seq<u8>, Seq<u8>)) -> Seq<char> {
    "key: "@ + escape::escaped(row.0) + ", value len: "@ + text::decimal(row.1.len()) + "\n"@
        + escape::escaped(row.1) + "\n"@
}

/// What is printed of rows one behind the other.
pub open spec fn all_shown(rows: Seq<(Seq<u8>, Seq<u8>)>) -> Seq<char>
    decreases rows.len(),
{
    if rows.len() == 0 {
        Seq::empty()
    } else {
        shown(rows[0]) + all_shown(rows.drop_first())
    }
}

/// Whether every row can be read.
pub open spec fn all_readable(kind: CfKind, rows: Seq<(Seq<u8>, Seq<u8>)>) -> bool {
    forall|i: int| 0 <= i < rows.len() ==> is_readable(kind, #[trigger] rows[i])
}

proof fn unfiltered_rows(kind: CfKind, rows: Seq<(Seq<u8>, Seq<u8>)>, limit: nat)
    requires
        all_readable(kind, rows),
        limit >= rows.len(),
    ensures
        range::rows_text(rows, kind, None, None, limit) == Ok::<Seq<char>, CtlError>(
            all_shown(rows),
        ),
    decreases rows.len(),
{
    if rows.len() > 0 {
        let rest = rows.drop_first();
        assert forall|i: int| 0 <= i < rest.len() implies is_readable(kind, #[trigger] rest[i]) by {
            assert(rest[i] == rows[i + 1]);
        }
        assert(is_readable(kind, rows[0]));
        unfiltered_rows(kind, rest, (limit - 1) as nat);
        assert(range::row_text(rows[0]) =~= shown(rows[0]));
    }
}

/// A scan without filters whose limit is not reached prints every row between its bounds, in the order
/// of the table, and nothing else.
pub proof fn unfiltered_scan_prints_every_row(
    rows: Seq<(Seq<u8>, Seq<u8>)>,
    kind: CfKind,
    from: Seq<u8>,
    to: Seq<u8>,
    limit: nat,
)
    requires
        store::ascending(rows),
        all_readable(kind, rows),
        limit >= store_laws::between(rows, from, to).len(),
    ensures
        range::range_text(Some(rows), kind, Some(from), Some(to), limit, None, None) == Ok::<
            Seq<char>,
            CtlError,
        >(all_shown(store_laws::between(rows, from, to))),
{
    let met = store_laws::between(rows, from, to);
    store_laws::scan_is_exact(rows, from, to);
    between_readable(kind, rows, from, to);
    unfiltered_rows(kind, met, limit);
}

proof fn between_readable(
    kind: CfKind,
    rows: Seq<(Seq<u8>, Seq<u8>)>,
    from: Seq<u8>,
    to: Seq<u8>,
)
    requires
        all_readable(kind, rows),
    ensures
        all_readable(kind, store_laws::between(rows, from, to)),
    decreases rows.len(),
{
    if rows.len() > 0 {
        let rest = rows.drop_first();
        assert forall|i: int| 0 <= i < rest.len() implies is_readable(kind, #[trigger] rest[i]) by {
            assert(rest[i] == rows[i + 1]);
        }
        assert(is_readable(kind, rows[0]));
        between_readable(kind, rest, from, to);
        let met = store_laws::between(rows, from, to);
        let tail = store_laws::between(rest, from, to);
        assert forall|i: int| 0 <= i < met.len() implies is_readable(kind, #[trigger] met[i]) by {
            if !(bytes::less(rows[0].0, from) || !bytes::less(rows[0].0, to)) {
                if i > 0 {
                    assert(met[i] == tail[i - 1]);
                }
            } else {
                assert(met[i] == tail[i]);
            }
        }
    }
}

/// The rows that pass, each as the filters alone decide on it.
pub open spec fn selected_rows(
    rows: Seq<(Seq<u8>, Seq<u8>)>,
    kind: CfKind,
    start: Option<u64>,
    commit: Option<u64>,
) -> Seq<(Seq<u8>, Seq<u8>)>
    decreases rows.len(),
{
    if rows.len() == 0 {
        Seq::empty()
    } else {
        (if range::row_selects(kind, rows[0], start, commit) == Ok::<bool, CtlError>(true) {
            seq![rows[0]]
        } else {
            Seq::empty()
        }) + selected_rows(rows.drop_first(), kind, start, commit)
    }
}

/// A scan prints the first rows between its bounds that pass the filters, as many as the limit allows,
/// and all of them where there are no more than that.
pub proof fn scan_prints_the_first_rows_that_pass(
    rows: Seq<(Seq<u8>, Seq<u8>)>,
    kind: CfKind,
    from: Seq<u8>,
    to: Seq<u8>,
    limit: nat,
    start: Option<u64>,
    commit: Option<u64>,
)
    requires
        store::ascending(rows),
        all_readable(kind, rows),
    ensures
        ({
            let pass = selected_rows(store_laws::between(rows, from, to), kind, start, commit);
            range::range_text(Some(rows), kind, Some(from), Some(to), limit, start, commit) == Ok::<
                Seq<char>,
                CtlError,
            >(
                all_shown(
                    if limit <= pass.len() {
                        pass.take(limit as int)
                    } else {
                        pass
                    },
                ),
            )
        }),
{
    let met = store_laws::between(rows, from, to);
    store_laws::scan_is_exact(rows, from, to);
    between_readable(kind, rows, from, to);
    first_rows(met, kind, limit, start, commit);
    if limit == 0 {
        let pass = selected_rows(met, kind, start, commit);
        assert(pass.take(0) =~= Seq::empty());
    }
}

proof fn first_rows(
    rows: Seq<(Seq<u8>, Seq<u8>)>,
    kind: CfKind,
    limit: nat,
    start: Option<u64>,
    commit: Option<u64>,
)
    requires
        all_readable(kind, rows),
    ensures
        ({
            let pass = selected_rows(rows, kind, start, commit);
            range::rows_text(rows, kind, start, commit, limit) == Ok::<Seq<char>, CtlError>(
                all_shown(
                    if limit <= pass.len() {
                        pass.take(limit as int)
                    } else {
                        pass
                    },
                ),
            )
        }),
    decreases rows.len(),
{
    let pass = selected_rows(rows, kind, start, commit);
    if limit == 0 {
        assert(pass.take(0) =~= Seq::empty());
    } else if rows.len() > 0 {
        let rest = rows.drop_first();
        assert forall|i: int| 0 <= i < rest.len() implies is_readable(kind, #[trigger] rest[i]) by {
            assert(rest[i] == rows[i + 1]);
        }
        assert(is_readable(kind, rows[0]));
        let tail = selected_rows(rest, kind, start, commit);
        if range::row_selects(kind, rows[0], start, commit) == Ok::<bool, CtlError>(true) {
            first_rows(rest, kind, (limit - 1) as nat, start, commit);
            assert(pass.drop_first() =~= tail);
            assert(range::row_text(rows[0]) =~= shown(rows[0]));
            if limit <= pass.len() {
                assert(pass.take(limit as int).drop_first() =~= tail.take(limit - 1));
            }
        } else {
            first_rows(rest, kind, limit, start, commit);
            assert(pass =~= tail);
        }
    }
}

/// A range without an end reaches up to the byte 255, and one with an end up to the key that is written.
/// Bounds that are not well-formed are refused, and so is a family that is not there, unless nothing is
/// to be printed.
pub proof fn range_bounds_are_as_written(
    rows: Option<Seq<(Seq<u8>, Seq<u8>)>>,
    kind: CfKind,
    key: Seq<u8>,
    limit: nat,
    start: Option<u64>,
    commit: Option<u64>,
)
    ensures
        range::range_end(None) == Some(seq![255u8]),
        range::range_end(Some(escape::escaped(key))) == Some(key),
        range::range_text(rows, kind, None, Some(key), limit, start, commit) == Err::<
            Seq<char>,
            CtlError,
        >(CtlError::BadEscape),
        range::range_text(rows, kind, Some(key), None, limit, start, commit) == Err::<
            Seq<char>,
            CtlError,
        >(CtlError::BadEscape),
        range::range_text(None, kind, Some(key), Some(key), limit, start, commit) == (if limit == 0 {
            Ok::<Seq<char>, CtlError>(Seq::empty())
        } else {
            Err(CtlError::UnknownCf)
        }),
{
    escape::unescape_undoes_escape(key);
}

/// A scan prints of the very family of that name the first rows between the written bounds that pass the
/// filters, as many as the limit allows, and without a limit all that can be counted.
pub proof fn scan_is_of_the_named_family(
    db: Db,
    i: int,
    from: Seq<u8>,
    to: Option<Seq<u8>>,
    limit: Option<u64>,
    start: Option<u64>,
    commit: Option<u64>,
)
    requires
        report_laws::well_ordered(db),
        0 <= i < 4,
        all_readable(
            range::kind_of(report_laws::family(i)),
            store::cf_rows(db, report_laws::family(i))->0,
        ),
    ensures
        ({
            let name = report_laws::family(i);
            let rows = store_laws::between(
                store::cf_rows(db, name)->0,
                from,
                match to {
                    None => seq![255u8],
                    Some(k) => k,
                },
            );
            let pass = selected_rows(rows, range::kind_of(name), start, commit);
            let most = match limit {
                None => u64::MAX as nat,
                Some(n) => n as nat,
            };
            range::range_dump(
                db,
                escape::escaped(from),
                match to {
                    None => None,
                    Some(k) => Some(escape::escaped(k)),
                },
                limit,
                name,
                start,
                commit,
            ) == Ok::<Seq<char>, CtlError>(
                all_shown(
                    if most <= pass.len() {
                        pass.take(most as int)
                    } else {
                        pass
                    },
                ),
            )
        }),
{
    let name = report_laws::family(i);
    let rows = store::cf_rows(db, name)->0;
    let end = match to {
        None => seq![255u8],
        Some(k) => k,
    };
    let most = match limit {
        None => u64::MAX as nat,
        Some(n) => n as nat,
    };
    assert(i == 0 || i == 1 || i == 2 || i == 3);
    report_laws::families_have_their_names(db, name);
    escape::unescape_undoes_escape(from);
    if let Some(k) = to {
        escape::unescape_undoes_escape(k);
    }
    scan_prints_the_first_rows_that_pass(
        rows,
        range::kind_of(name),
        from,
        end,
        most,
        start,
        commit,
    );
}

} // verus!
