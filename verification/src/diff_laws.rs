//! What holds of every comparison of two lists of keys.
use vstd::prelude::*;

use crate::bytes;
use crate::diff;
use crate::diff::{Merge, Side};
use crate::keys;
use crate::store;
use crate::store::Db;

verus! {

/// Whether the keys are in ascending order, none of them twice.
pub open spec fn ascending_keys(s: Seq<Seq<u8>>) -> bool {
    forall|i: int, j: int| 0 <= i < j < s.len() ==> bytes::less(#[trigger] s[i], #[trigger] s[j])
}

/// The keys in a report that the given store alone has, in the order of the report.
pub open spec fn keys_of(side: Side, only: Seq<(Side, Seq<u8>)>) -> Seq<Seq<u8>>
    decreases only.len(),
{
    if only.len() == 0 {
        Seq::empty()
    } else if only[0].0 == side {
        seq![only[0].1] + keys_of(side, only.drop_first())
    } else {
        keys_of(side, only.drop_first())
    }
}

/// The keys of `s` that `t` does not have.
pub open spec fn without(s: Seq<Seq<u8>>, t: Seq<Seq<u8>>) -> Seq<Seq<u8>>
    decreases s.len(),
{
    if s.len() == 0 {
        Seq::empty()
    } else if t.contains(s[0]) {
        without(s.drop_first(), t)
    } else {
        seq![s[0]] + without(s.drop_first(), t)
    }
}

/// The other store.
pub open spec fn other(side: Side) -> Side {
    match side {
        Side::First => Side::Second,
        Side::Second => Side::First,
    }
}

/// A merge with the two stores exchanged.
pub open spec fn exchanged(m: Merge) -> Merge {
    Merge {
        only: Seq::new(m.only.len(), |i: int| (other(m.only[i].0), m.only[i].1)),
        left_first: m.left_second,
        left_second: m.left_first,
    }
}

proof fn rest_ascending(s: Seq<Seq<u8>>)
    requires
        ascending_keys(s),
        s.len() > 0,
    ensures
        ascending_keys(s.drop_first()),
        !s.drop_first().contains(s[0]),
        forall|k: Seq<u8>| bytes::less(k, s[0]) ==> !#[trigger] s.contains(k),
{
    let rest = s.drop_first();
    assert forall|i: int, j: int| 0 <= i < j < rest.len() implies bytes::less(
        #[trigger] rest[i],
        #[trigger] rest[j],
    ) by {
        assert(rest[i] == s[i + 1] && rest[j] == s[j + 1]);
    }
    bytes::less_irreflexive(s[0]);
    if rest.contains(s[0]) {
        let i = choose|i: int| 0 <= i < rest.len() && rest[i] == s[0];
        assert(rest[i] == s[i + 1]);
        assert(bytes::less(s[0], s[i + 1]));
    }
    assert forall|k: Seq<u8>| bytes::less(k, s[0]) implies !#[trigger] s.contains(k) by {
        if s.contains(k) {
            let i = choose|i: int| 0 <= i < s.len() && s[i] == k;
            if i > 0 {
                bytes::less_transitive(k, s[0], s[i]);
                bytes::less_irreflexive(k);
            }
        }
    }
}

proof fn without_rest(s: Seq<Seq<u8>>, t: Seq<Seq<u8>>)
    requires
        t.len() > 0,
        !s.contains(t[0]),
    ensures
        without(s, t) == without(s, t.drop_first()),
    decreases s.len(),
{
    if s.len() > 0 {
        let rest = s.drop_first();
        assert forall|k: Seq<u8>| rest.contains(k) implies s.contains(k) by {
            let i = choose|i: int| 0 <= i < rest.len() && rest[i] == k;
            assert(s[i + 1] == k);
        }
        without_rest(rest, t);
        assert(s.contains(s[0]));
        assert(t.contains(s[0]) <==> t.drop_first().contains(s[0])) by {
            if t.contains(s[0]) {
                let i = choose|i: int| 0 <= i < t.len() && t[i] == s[0];
                assert(t.drop_first()[i - 1] == s[0]);
            }
            if t.drop_first().contains(s[0]) {
                let i = choose|i: int| 0 <= i < t.drop_first().len() && t.drop_first()[i] == s[0];
                assert(t[i + 1] == s[0]);
            }
        }
    }
}

proof fn without_nothing(s: Seq<Seq<u8>>)
    ensures
        without(s, Seq::empty()) == s,
    decreases s.len(),
{
    if s.len() > 0 {
        without_nothing(s.drop_first());
        assert(seq![s[0]] + s.drop_first() =~= s);
    } else {
        assert(s =~= Seq::empty());
    }
}

proof fn first_report(a: Seq<Seq<u8>>, b: Seq<Seq<u8>>)
    requires
        ascending_keys(a),
        ascending_keys(b),
    ensures
        keys_of(Side::First, diff::merged(a, b).only) + diff::merged(a, b).left_first == without(
            a,
            b,
        ),
    decreases a.len() + b.len(),
{
    let m = diff::merged(a, b);
    if a.len() == 0 {
        assert(m.left_first =~= Seq::empty());
        assert(keys_of(Side::First, m.only) + m.left_first =~= Seq::empty());
    } else if b.len() == 0 {
        assert(b =~= Seq::empty());
        without_nothing(a);
        assert(keys_of(Side::First, m.only) + m.left_first =~= a);
    } else {
        rest_ascending(a);
        rest_ascending(b);
        bytes::less_total(a[0], b[0]);
        assert(b.contains(b[0]));
        if a[0] == b[0] {
            first_report(a.drop_first(), b.drop_first());
            without_rest(a.drop_first(), b);
        } else if bytes::less(b[0], a[0]) {
            let n = diff::merged(a, b.drop_first());
            first_report(a, b.drop_first());
            without_rest(a, b);
            assert(m.only.drop_first() =~= n.only);
        } else {
            let n = diff::merged(a.drop_first(), b);
            first_report(a.drop_first(), b);
            assert(m.only.drop_first() =~= n.only);
            assert(keys_of(Side::First, m.only) + m.left_first =~= seq![a[0]] + (keys_of(
                Side::First,
                n.only,
            ) + n.left_first));
        }
    }
}

/// Comparing two stores the other way round gives the same report with the stores exchanged.
pub proof fn diff_is_symmetric(a: Seq<Seq<u8>>, b: Seq<Seq<u8>>)
    ensures
        diff::merged(b, a) == exchanged(diff::merged(a, b)),
        diff::common_head(b, a) == diff::common_head(a, b),
    decreases a.len() + b.len(),
{
    let m = diff::merged(a, b);
    let w = diff::merged(b, a);
    if a.len() == 0 || b.len() == 0 {
        assert(w.only =~= exchanged(m).only);
    } else {
        bytes::less_total(a[0], b[0]);
        bytes::less_irreflexive(a[0]);
        if bytes::less(a[0], b[0]) && bytes::less(b[0], a[0]) {
            bytes::less_transitive(a[0], b[0], a[0]);
        }
        if a[0] == b[0] {
            diff_is_symmetric(a.drop_first(), b.drop_first());
        } else if bytes::less(b[0], a[0]) {
            diff_is_symmetric(a, b.drop_first());
            let n = diff::merged(a, b.drop_first());
            assert(w.only =~= seq![(Side::First, b[0])] + exchanged(n).only);
            assert(w.only =~= exchanged(m).only);
        } else {
            diff_is_symmetric(a.drop_first(), b);
            let n = diff::merged(a.drop_first(), b);
            assert(w.only =~= seq![(Side::Second, a[0])] + exchanged(n).only);
            assert(w.only =~= exchanged(m).only);
        }
    }
}

proof fn exchanged_keys(only: Seq<(Side, Seq<u8>)>)
    ensures
        keys_of(
            Side::First,
            Seq::new(only.len(), |i: int| (other(only[i].0), only[i].1)),
        ) == keys_of(Side::Second, only),
    decreases only.len(),
{
    let w = Seq::new(only.len(), |i: int| (other(only[i].0), only[i].1));
    if only.len() > 0 {
        let rest = only.drop_first();
        exchanged_keys(rest);
        assert(w.drop_first() =~= Seq::new(rest.len(), |i: int| (other(rest[i].0), rest[i].1)));
    }
}

/// Of two stores whose keys are in ascending order, the report lists for each store exactly the
/// keys that the other does not have, each once and in ascending order: first those met while both
/// stores had more keys, then those that were left.
pub proof fn diff_is_complete(a: Seq<Seq<u8>>, b: Seq<Seq<u8>>)
    requires
        ascending_keys(a),
        ascending_keys(b),
    ensures
        keys_of(Side::First, diff::merged(a, b).only) + diff::merged(a, b).left_first == without(
            a,
            b,
        ),
        keys_of(Side::Second, diff::merged(a, b).only) + diff::merged(a, b).left_second == without(
            b,
            a,
        ),
{
    first_report(a, b);
    first_report(b, a);
    diff_is_symmetric(a, b);
    exchanged_keys(diff::merged(a, b).only);
}

/// A report lists no key exactly if both stores have the same keys, and then all of them are
/// counted as the same.
pub proof fn empty_report_means_same_keys(a: Seq<Seq<u8>>, b: Seq<Seq<u8>>)
    ensures
        ({
            let m = diff::merged(a, b);
            &&& (m.only.len() == 0 && m.left_first.len() == 0 && m.left_second.len() == 0) <==> a
                == b
            &&& a == b ==> diff::common_head(a, b) == a.len()
        }),
    decreases a.len() + b.len(),
{
    if a.len() == 0 || b.len() == 0 {
        if a.len() == 0 && b.len() == 0 {
            assert(a =~= b);
        }
    } else if a[0] == b[0] {
        empty_report_means_same_keys(a.drop_first(), b.drop_first());
        assert(a =~= seq![a[0]] + a.drop_first());
        assert(b =~= seq![b[0]] + b.drop_first());
    }
}

/// The counted keys are the longest run at the front that both stores have in common.
pub proof fn common_head_is_longest(a: Seq<Seq<u8>>, b: Seq<Seq<u8>>)
    ensures
        ({
            let n = diff::common_head(a, b) as int;
            &&& n <= a.len() && n <= b.len()
            &&& a.take(n) == b.take(n)
            &&& n < a.len() && n < b.len() ==> a[n] != b[n]
        }),
    decreases a.len(),
{
    let n = diff::common_head(a, b) as int;
    if a.len() > 0 && b.len() > 0 && a[0] == b[0] {
        let (x, y) = (a.drop_first(), b.drop_first());
        common_head_is_longest(x, y);
        assert(a.take(n) =~= seq![a[0]] + x.take(n - 1));
        assert(b.take(n) =~= seq![b[0]] + y.take(n - 1));
    } else {
        assert(a.take(0) =~= b.take(0));
    }
}

/// The keys of a report on two lists in the order of the report: those that were met while both lists
/// had more keys, then those that were left.
pub open spec fn reported(m: Merge) -> Seq<Seq<u8>> {
    Seq::new(m.only.len(), |i: int| m.only[i].1) + m.left_first + m.left_second
}

proof fn reported_front(side: Side, key: Seq<u8>, m: Merge)
    ensures
        reported(diff::preceded(side, key, m)) == seq![key] + reported(m),
{
    assert(reported(diff::preceded(side, key, m)) =~= seq![key] + reported(m));
}

proof fn reported_are_keys(a: Seq<Seq<u8>>, b: Seq<Seq<u8>>, k: Seq<u8>)
    requires
        reported(diff::merged(a, b)).contains(k),
    ensures
        a.contains(k) || b.contains(k),
    decreases a.len() + b.len(),
{
    let r = reported(diff::merged(a, b));
    let i = choose|i: int| 0 <= i < r.len() && r[i] == k;
    if a.len() == 0 {
        assert(r =~= b);
        assert(b[i] == k);
    } else if b.len() == 0 {
        assert(r =~= a);
        assert(a[i] == k);
    } else if a[0] == b[0] {
        reported_are_keys(a.drop_first(), b.drop_first(), k);
        contained_in_whole(a, k);
        contained_in_whole(b, k);
    } else {
        let (side, key, x, y) = if bytes::less(b[0], a[0]) {
            (Side::Second, b[0], a, b.drop_first())
        } else {
            (Side::First, a[0], a.drop_first(), b)
        };
        let n = diff::merged(x, y);
        reported_front(side, key, n);
        if i == 0 {
            assert(a.contains(a[0]) && b.contains(b[0]));
        } else {
            assert(reported(n)[i - 1] == k);
            reported_are_keys(x, y, k);
            contained_in_whole(a, k);
            contained_in_whole(b, k);
        }
    }
}

proof fn contained_in_whole(s: Seq<Seq<u8>>, k: Seq<u8>)
    requires
        s.len() > 0,
    ensures
        s.drop_first().contains(k) ==> s.contains(k),
{
    if s.drop_first().contains(k) {
        let i = choose|i: int| 0 <= i < s.drop_first().len() && s.drop_first()[i] == k;
        assert(s[i + 1] == k);
    }
}

/// A key of an ascending list is its first or comes behind it.
proof fn first_or_behind(s: Seq<Seq<u8>>, k: Seq<u8>)
    requires
        ascending_keys(s),
        s.len() > 0,
        s.contains(k),
    ensures
        k == s[0] || bytes::less(s[0], k),
        s.drop_first().contains(k) ==> bytes::less(s[0], k),
{
    let i = choose|i: int| 0 <= i < s.len() && s[i] == k;
    if s.drop_first().contains(k) {
        let j = choose|j: int| 0 <= j < s.drop_first().len() && s.drop_first()[j] == k;
        assert(bytes::less(s[0], s[j + 1]));
    }
    if i > 0 {
        assert(bytes::less(s[0], s[i]));
    }
}

/// All keys that a report on two ascending lists holds are in ascending order, whichever store has
/// them, none of them twice.
pub proof fn report_is_in_order(a: Seq<Seq<u8>>, b: Seq<Seq<u8>>)
    requires
        ascending_keys(a),
        ascending_keys(b),
    ensures
        ascending_keys(reported(diff::merged(a, b))),
    decreases a.len() + b.len(),
{
    let r = reported(diff::merged(a, b));
    if a.len() == 0 {
        assert(r =~= b);
    } else if b.len() == 0 {
        assert(r =~= a);
    } else {
        rest_ascending(a);
        rest_ascending(b);
        if a[0] == b[0] {
            report_is_in_order(a.drop_first(), b.drop_first());
        } else {
            bytes::less_total(a[0], b[0]);
            let (side, key, x, y) = if bytes::less(b[0], a[0]) {
                (Side::Second, b[0], a, b.drop_first())
            } else {
                (Side::First, a[0], a.drop_first(), b)
            };
            let t = reported(diff::merged(x, y));
            report_is_in_order(x, y);
            reported_front(side, key, diff::merged(x, y));
            assert forall|i: int, j: int| 0 <= i < j < r.len() implies bytes::less(
                #[trigger] r[i],
                #[trigger] r[j],
            ) by {
                assert(r[j] == t[j - 1]);
                if i > 0 {
                    assert(r[i] == t[i - 1]);
                } else {
                    let k = r[j];
                    assert(t.contains(t[j - 1]));
                    reported_are_keys(x, y, k);
                    contained_in_whole(a, k);
                    contained_in_whole(b, k);
                    if a.contains(k) {
                        first_or_behind(a, k);
                    }
                    if b.contains(k) {
                        first_or_behind(b, k);
                    }
                    if side is Second && x.contains(k) && k != a[0] {
                        bytes::less_transitive(b[0], a[0], k);
                    }
                    if side is First && y.contains(k) && k != b[0] {
                        bytes::less_transitive(a[0], b[0], k);
                    }
                }
            }
        }
    }
}

proof fn seek_ignores_values(
    rows: Seq<(Seq<u8>, Seq<u8>)>,
    others: Seq<(Seq<u8>, Seq<u8>)>,
    key: Seq<u8>,
)
    requires
        diff::row_keys(rows) == diff::row_keys(others),
    ensures
        diff::row_keys(store::seeked(rows, key)) == diff::row_keys(store::seeked(others, key)),
    decreases rows.len(),
{
    assert(rows.len() == diff::row_keys(rows).len());
    assert(others.len() == diff::row_keys(others).len());
    if rows.len() > 0 {
        assert(rows[0].0 == diff::row_keys(rows)[0]);
        assert(others[0].0 == diff::row_keys(others)[0]);
        if bytes::less(rows[0].0, key) {
            assert(diff::row_keys(rows.drop_first()) =~= diff::row_keys(rows).drop_first());
            assert(diff::row_keys(others.drop_first()) =~= diff::row_keys(others).drop_first());
            seek_ignores_values(rows.drop_first(), others.drop_first(), key);
        }
    }
}

proof fn bound_ignores_values(
    rows: Seq<(Seq<u8>, Seq<u8>)>,
    others: Seq<(Seq<u8>, Seq<u8>)>,
    end: Seq<u8>,
)
    requires
        diff::row_keys(rows) == diff::row_keys(others),
    ensures
        diff::row_keys(store::bounded(rows, end)) == diff::row_keys(store::bounded(others, end)),
    decreases rows.len(),
{
    assert(rows.len() == diff::row_keys(rows).len());
    assert(others.len() == diff::row_keys(others).len());
    if rows.len() > 0 {
        assert(rows[0].0 == diff::row_keys(rows)[0]);
        assert(others[0].0 == diff::row_keys(others)[0]);
        if bytes::less(rows[0].0, end) {
            let (x, y) = (rows.drop_first(), others.drop_first());
            assert(diff::row_keys(x) =~= diff::row_keys(rows).drop_first());
            assert(diff::row_keys(y) =~= diff::row_keys(others).drop_first());
            bound_ignores_values(x, y, end);
            assert(diff::row_keys(store::bounded(rows, end)) =~= seq![rows[0].0] + diff::row_keys(
                store::bounded(x, end),
            ));
            assert(diff::row_keys(store::bounded(others, end)) =~= seq![others[0].0]
                + diff::row_keys(store::bounded(y, end)));
        }
    }
}

/// What is printed of one column family of two stores depends on the keys alone, not on the values.
pub proof fn family_diff_ignores_values(
    cf: Seq<char>,
    rows1: Seq<(Seq<u8>, Seq<u8>)>,
    rows2: Seq<(Seq<u8>, Seq<u8>)>,
    others1: Seq<(Seq<u8>, Seq<u8>)>,
    others2: Seq<(Seq<u8>, Seq<u8>)>,
    start: Seq<u8>,
    end: Seq<u8>,
)
    requires
        diff::row_keys(rows1) == diff::row_keys(others1),
        diff::row_keys(rows2) == diff::row_keys(others2),
    ensures
        diff::cf_diff(cf, rows1, rows2, start, end) == diff::cf_diff(
            cf,
            others1,
            others2,
            start,
            end,
        ),
{
    seek_ignores_values(rows1, others1, start);
    seek_ignores_values(rows2, others2, start);
    bound_ignores_values(store::seeked(rows1, start), store::seeked(others1, start), end);
    bound_ignores_values(store::seeked(rows2, start), store::seeked(others2, start), end);
}

/// Whether two stores hold the same keys in each column family.
pub open spec fn same_keys(db: Db, other: Db) -> bool {
    &&& diff::row_keys(db.default@) == diff::row_keys(other.default@)
    &&& diff::row_keys(db.lock@) == diff::row_keys(other.lock@)
    &&& diff::row_keys(db.write@) == diff::row_keys(other.write@)
    &&& diff::row_keys(db.raft@) == diff::row_keys(other.raft@)
}

/// What is printed of a region in two stores depends, besides the states of the region, on the keys
/// alone, not on the values.
pub proof fn diff_ignores_values(
    db1: Db,
    db2: Db,
    other1: Db,
    other2: Db,
    header: Seq<char>,
    start_key: Seq<u8>,
    end_key: Seq<u8>,
)
    requires
        same_keys(db1, other1),
        same_keys(db2, other2),
    ensures
        diff::region_diff(db1, db2, header, start_key, end_key) == diff::region_diff(
            other1,
            other2,
            header,
            start_key,
            end_key,
        ),
{
    let start = keys::data_key_spec(start_key);
    let end = keys::data_end_key_spec(end_key);
    family_diff_ignores_values(
        store::CF_DEFAULT@,
        db1.default@,
        db2.default@,
        other1.default@,
        other2.default@,
        start,
        end,
    );
    family_diff_ignores_values(
        store::CF_LOCK@,
        db1.lock@,
        db2.lock@,
        other1.lock@,
        other2.lock@,
        start,
        end,
    );
    family_diff_ignores_values(
        store::CF_WRITE@,
        db1.write@,
        db2.write@,
        other1.write@,
        other2.write@,
        start,
        end,
    );
    family_diff_ignores_values(
        store::CF_RAFT@,
        db1.raft@,
        db2.raft@,
        other1.raft@,
        other2.raft@,
        start,
        end,
    );
}

} // verus!
