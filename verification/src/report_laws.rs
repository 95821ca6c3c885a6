//! What the report on two stores holds, in terms of the rows of the stores.
use vstd::prelude::*;

use crate::bytes;
use crate::diff;
use crate::diff::{Merge, Side};
use crate::diff_laws;
use crate::error::CtlError;
use crate::escape;
use crate::keys;
use crate::region::RegionLocalState;
use crate::store;
use crate::store::Db;
use crate::store_laws;
use crate::text;
use crate::types;

verus! {

broadcast use vstd::string::group_string_axioms;

/// The names of the column families in the order of the report.
pub open spec fn family(i: int) -> Seq<char> {
    if i == 0 {
        "default"@
    } else if i == 1 {
        "lock"@
    } else if i == 2 {
        "write"@
    } else {
        "raft"@
    }
}

/// Whether the rows of every column family are in ascending order.
pub open spec fn well_ordered(db: Db) -> bool {
    &&& store::ascending(db.default@)
    &&& store::ascending(db.lock@)
    &&& store::ascending(db.write@)
    &&& store::ascending(db.raft@)
}

/// Each column family is found under its name, and none under any other name.
pub proof fn families_have_their_names(db: Db, name: Seq<char>)
    ensures
        store::cf_rows(db, "default"@) == Some(db.default@),
        store::cf_rows(db, "lock"@) == Some(db.lock@),
        store::cf_rows(db, "write"@) == Some(db.write@),
        store::cf_rows(db, "raft"@) == Some(db.raft@),
        name != "default"@ && name != "lock"@ && name != "write"@ && name != "raft"@
            ==> store::cf_rows(db, name) is None,
{
    store::cf_names_differ();
}

/// The keys of a column family of a store within the bounds of a region; a region without an end
/// reaches up to the end of the user data.
pub open spec fn keys_within(
    db: Db,
    name: Seq<char>,
    start_key: Seq<u8>,
    end_key: Seq<u8>,
) -> Seq<Seq<u8>> {
    let rows = store_laws::between(
        store::cf_rows(db, name)->0,
        seq![0x7au8] + start_key,
        if end_key.len() == 0 {
            seq![0x7bu8]
        } else {
            seq![0x7au8] + end_key
        },
    );
    Seq::new(rows.len(), |i: int| rows[i].0)
}

/// The line that says that only one store has a key.
pub open spec fn line(side: Side, shown: Seq<char>) -> Seq<char> {
    (match side {
        Side::First => "only db1 has : "@,
        Side::Second => "only db2 has : "@,
    }) + shown + "\n"@
}

/// The lines for keys that were met while both stores had more; a key of a family with versions is
/// followed by its timestamp.
pub open spec fn met_lines(name: Seq<char>, only: Seq<(Side, Seq<u8>)>) -> Seq<char>
    decreases only.len(),
{
    if only.len() == 0 {
        Seq::empty()
    } else {
        line(only[0].0, escape::escaped(only[0].1)) + (if name == "default"@ || name == "write"@ {
            "timestamp: "@ + text::decimal(types::ts_of(only[0].1)->Ok_0 as nat) + "\n"@
        } else {
            Seq::empty()
        }) + met_lines(name, only.drop_first())
    }
}

/// The lines for keys that were left when the other store had ended.
pub open spec fn rest_lines(side: Side, left: Seq<Seq<u8>>) -> Seq<char>
    decreases left.len(),
{
    if left.len() == 0 {
        Seq::empty()
    } else {
        line(side, text::quoted(escape::escaped(left[0]))) + rest_lines(side, left.drop_first())
    }
}

/// The part of a report on the family `name`, where `m` holds what only one store has and `same` keys at
/// the front are shared.
pub open spec fn family_part(name: Seq<char>, m: Merge, same: nat) -> Seq<char> {
    "cf: "@ + name + "\n"@ + met_lines(name, m.only) + "head have "@ + text::decimal(same)
        + " same keys\n"@ + (if m.left_second.len() > 0 && m.left_first.len() == 0 {
        "iter1 invalid but iter2 valid!\n"@
    } else if m.left_first.len() > 0 && m.left_second.len() == 0 {
        "iter2 invalid but iter1 valid!\n"@
    } else {
        Seq::empty()
    }) + rest_lines(Side::First, m.left_first) + rest_lines(Side::Second, m.left_second)
}

/// Whether `m` and `same` are what there is to say of two ascending lists of keys: for each list exactly
/// the keys that the other does not have, all in ascending order, and how many keys at the front are
/// shared.
pub open spec fn tells(m: Merge, same: nat, a: Seq<Seq<u8>>, b: Seq<Seq<u8>>) -> bool {
    &&& diff_laws::keys_of(Side::First, m.only) + m.left_first == diff_laws::without(a, b)
    &&& diff_laws::keys_of(Side::Second, m.only) + m.left_second == diff_laws::without(b, a)
    &&& m.left_first.len() == 0 || m.left_second.len() == 0
    &&& diff_laws::ascending_keys(diff_laws::reported(m))
    &&& same <= a.len() && same <= b.len()
    &&& a.take(same as int) == b.take(same as int)
    &&& same < a.len() && same < b.len() ==> a[same as int] != b[same as int]
}

/// Whether `part` is a right report on the family `name` of two stores.
pub open spec fn reports_family(
    part: Seq<char>,
    name: Seq<char>,
    a: Seq<Seq<u8>>,
    b: Seq<Seq<u8>>,
) -> bool {
    exists|m: Merge, same: nat| #[trigger]
        tells(m, same, a, b) && part == family_part(name, m, same)
}

proof fn met_lines_agree(name: Seq<char>, only: Seq<(Side, Seq<u8>)>)
    requires
        diff::only_texts(only, diff::has_stamps(name)) is Ok,
    ensures
        diff::only_texts(only, diff::has_stamps(name)) == Ok::<Seq<char>, CtlError>(
            met_lines(name, only),
        ),
    decreases only.len(),
{
    if only.len() > 0 {
        met_lines_agree(name, only.drop_first());
        let stamps = diff::has_stamps(name);
        let first = diff::only_text(only[0].0, only[0].1, stamps)->Ok_0;
        assert(first + met_lines(name, only.drop_first()) =~= met_lines(name, only));
    }
}

proof fn rest_lines_agree(side: Side, left: Seq<Seq<u8>>)
    ensures
        diff::left_lines(side, left) == rest_lines(side, left),
    decreases left.len(),
{
    if left.len() > 0 {
        rest_lines_agree(side, left.drop_first());
    }
}

proof fn one_list_ends(a: Seq<Seq<u8>>, b: Seq<Seq<u8>>)
    ensures
        diff::merged(a, b).left_first.len() == 0 || diff::merged(a, b).left_second.len() == 0,
    decreases a.len() + b.len(),
{
    if a.len() > 0 && b.len() > 0 {
        if a[0] == b[0] {
            one_list_ends(a.drop_first(), b.drop_first());
        } else if bytes::less(b[0], a[0]) {
            one_list_ends(a, b.drop_first());
        } else {
            one_list_ends(a.drop_first(), b);
        }
    }
}

proof fn family_is_reported(
    db1: Db,
    db2: Db,
    name: Seq<char>,
    start_key: Seq<u8>,
    end_key: Seq<u8>,
)
    requires
        well_ordered(db1),
        well_ordered(db2),
        store::cf_rows(db1, name) is Some,
        store::cf_rows(db2, name) is Some,
        diff::cf_diff(
            name,
            store::cf_rows(db1, name)->0,
            store::cf_rows(db2, name)->0,
            keys::data_key_spec(start_key),
            keys::data_end_key_spec(end_key),
        ) is Ok,
    ensures
        reports_family(
            diff::cf_diff(
                name,
                store::cf_rows(db1, name)->0,
                store::cf_rows(db2, name)->0,
                keys::data_key_spec(start_key),
                keys::data_end_key_spec(end_key),
            )->Ok_0,
            name,
            keys_within(db1, name, start_key, end_key),
            keys_within(db2, name, start_key, end_key),
        ),
{
    store::cf_names_differ();
    let (rows1, rows2) = (store::cf_rows(db1, name)->0, store::cf_rows(db2, name)->0);
    let (start, end) = (keys::data_key_spec(start_key), keys::data_end_key_spec(end_key));
    let a = diff::row_keys(store::scanned(rows1, start, end));
    let b = diff::row_keys(store::scanned(rows2, start, end));
    let t = diff::cf_diff(name, rows1, rows2, start, end)->Ok_0;
    store_laws::scan_is_exact(rows1, start, end);
    store_laws::scan_is_exact(rows2, start, end);
    store_laws::scanned_keys_ascend(rows1, start, end);
    store_laws::scanned_keys_ascend(rows2, start, end);
    assert(a =~= keys_within(db1, name, start_key, end_key));
    assert(b =~= keys_within(db2, name, start_key, end_key));
    let m = diff::merged(a, b);
    let same = diff::common_head(a, b);
    diff_laws::diff_is_complete(a, b);
    diff_laws::report_is_in_order(a, b);
    diff_laws::common_head_is_longest(a, b);
    one_list_ends(a, b);
    met_lines_agree(name, m.only);
    rest_lines_agree(Side::First, m.left_first);
    rest_lines_agree(Side::Second, m.left_second);
    assert(tells(m, same, a, b));
    assert(t =~= family_part(name, m, same));
}

/// Whether `parts` make up a right report on a region of two stores behind its heading: one part for
/// each column family, on the keys that the two stores have in that very family.
pub open spec fn reports_region(
    report: Seq<char>,
    header: Seq<char>,
    db1: Db,
    db2: Db,
    start_key: Seq<u8>,
    end_key: Seq<u8>,
    parts: Seq<Seq<char>>,
) -> bool {
    &&& parts.len() == 4
    &&& report == header + parts[0] + parts[1] + parts[2] + parts[3]
    &&& forall|i: int|
        0 <= i < 4 ==> reports_family(
            #[trigger] parts[i],
            family(i),
            keys_within(db1, family(i), start_key, end_key),
            keys_within(db2, family(i), start_key, end_key),
        )
}

/// The report on a region of two stores says of each of the four column families, by its name, exactly
/// which keys within the bounds of the region that family has in the one store and not in the other.
pub proof fn every_family_is_compared(
    db1: Db,
    db2: Db,
    header: Seq<char>,
    start_key: Seq<u8>,
    end_key: Seq<u8>,
)
    requires
        well_ordered(db1),
        well_ordered(db2),
        diff::region_diff(db1, db2, header, start_key, end_key) is Ok,
    ensures
        exists|parts: Seq<Seq<char>>| #[trigger]
            reports_region(
                diff::region_diff(db1, db2, header, start_key, end_key)->Ok_0,
                header,
                db1,
                db2,
                start_key,
                end_key,
                parts,
            ),
{
    let (start, end) = (keys::data_key_spec(start_key), keys::data_end_key_spec(end_key));
    let report = diff::region_diff(db1, db2, header, start_key, end_key)->Ok_0;
    families_have_their_names(db1, "raft"@);
    families_have_their_names(db2, "raft"@);
    let part = |i: int|
        diff::cf_diff(
            family(i),
            store::cf_rows(db1, family(i))->0,
            store::cf_rows(db2, family(i))->0,
            start,
            end,
        )->Ok_0;
    let parts = seq![part(0), part(1), part(2), part(3)];
    assert forall|i: int| 0 <= i < 4 implies reports_family(
        #[trigger] parts[i],
        family(i),
        keys_within(db1, family(i), start_key, end_key),
        keys_within(db2, family(i), start_key, end_key),
    ) by {
        assert(i == 0 || i == 1 || i == 2 || i == 3);
        family_is_reported(db1, db2, family(i), start_key, end_key);
    }
    assert(report =~= header + parts[0] + parts[1] + parts[2] + parts[3]);
    assert(reports_region(report, header, db1, db2, start_key, end_key, parts));
}

/// Whether `t` holds `piece` somewhere.
pub open spec fn holds(t: Seq<char>, piece: Seq<char>) -> bool {
    exists|u: Seq<char>, v: Seq<char>| t == #[trigger] (u + piece + v)
}

proof fn held_inside(t: Seq<char>, u: Seq<char>, v: Seq<char>, piece: Seq<char>)
    requires
        holds(t, piece),
    ensures
        holds(u + t + v, piece),
{
    let (x, y) = choose|x: Seq<char>, y: Seq<char>| t == #[trigger] (x + piece + y);
    assert(u + t + v =~= (u + x) + piece + (y + v));
}

/// Whether a text mentions that only one store has a key.
pub open spec fn mentions(t: Seq<char>, side: Side, key: Seq<u8>) -> bool {
    holds(t, line(side, escape::escaped(key))) || holds(
        t,
        line(side, text::quoted(escape::escaped(key))),
    )
}

proof fn met_key_is_mentioned(
    name: Seq<char>,
    only: Seq<(Side, Seq<u8>)>,
    side: Side,
    key: Seq<u8>,
)
    requires
        diff_laws::keys_of(side, only).contains(key),
    ensures
        holds(met_lines(name, only), line(side, escape::escaped(key))),
    decreases only.len(),
{
    let all = diff_laws::keys_of(side, only);
    let i = choose|i: int| 0 <= i < all.len() && all[i] == key;
    let rest = only.drop_first();
    let l = line(only[0].0, escape::escaped(only[0].1));
    let stamp = if name == "default"@ || name == "write"@ {
        "timestamp: "@ + text::decimal(types::ts_of(only[0].1)->Ok_0 as nat) + "\n"@
    } else {
        Seq::empty()
    };
    let more = met_lines(name, rest);
    if only[0].0 == side && i == 0 {
        assert(met_lines(name, only) =~= Seq::<char>::empty() + l + (stamp + more));
    } else {
        if only[0].0 == side {
            assert(diff_laws::keys_of(side, rest)[i - 1] == key);
        }
        met_key_is_mentioned(name, rest, side, key);
        held_inside(more, l + stamp, Seq::empty(), line(side, escape::escaped(key)));
        assert(met_lines(name, only) =~= (l + stamp) + more + Seq::<char>::empty());
    }
}

proof fn left_key_is_mentioned(side: Side, left: Seq<Seq<u8>>, key: Seq<u8>)
    requires
        left.contains(key),
    ensures
        holds(rest_lines(side, left), line(side, text::quoted(escape::escaped(key)))),
    decreases left.len(),
{
    let i = choose|i: int| 0 <= i < left.len() && left[i] == key;
    let l = line(side, text::quoted(escape::escaped(left[0])));
    let more = rest_lines(side, left.drop_first());
    if i == 0 {
        assert(rest_lines(side, left) =~= Seq::<char>::empty() + l + more);
    } else {
        assert(left.drop_first()[i - 1] == key);
        left_key_is_mentioned(side, left.drop_first(), key);
        held_inside(more, l, Seq::empty(), line(side, text::quoted(escape::escaped(key))));
        assert(rest_lines(side, left) =~= l + more + Seq::<char>::empty());
    }
}

proof fn contained_in_either(s: Seq<Seq<u8>>, t: Seq<Seq<u8>>, key: Seq<u8>)
    requires
        (s + t).contains(key),
    ensures
        s.contains(key) || t.contains(key),
{
    let i = choose|i: int| 0 <= i < (s + t).len() && (s + t)[i] == key;
    if i < s.len() {
        assert(s[i] == key);
    } else {
        assert(t[i - s.len()] == key);
    }
}

proof fn without_contains(s: Seq<Seq<u8>>, t: Seq<Seq<u8>>, key: Seq<u8>)
    requires
        s.contains(key),
        !t.contains(key),
    ensures
        diff_laws::without(s, t).contains(key),
    decreases s.len(),
{
    let i = choose|i: int| 0 <= i < s.len() && s[i] == key;
    let w = diff_laws::without(s, t);
    if s[0] == key {
        assert(w[0] == key);
    } else {
        assert(s.drop_first()[i - 1] == key);
        without_contains(s.drop_first(), t, key);
        let x = diff_laws::without(s.drop_first(), t);
        let j = choose|j: int| 0 <= j < x.len() && x[j] == key;
        if !t.contains(s[0]) {
            assert(w[j + 1] == key);
        } else {
            assert(w[j] == key);
        }
    }
}

/// A key that a column family has in the one store within the bounds of the region and not in the other
/// is mentioned in the report on the two stores. So a report that mentions no key is one on stores
/// with the same keys in every family.
pub proof fn no_missing_key_is_passed_over(
    db1: Db,
    db2: Db,
    header: Seq<char>,
    start_key: Seq<u8>,
    end_key: Seq<u8>,
    i: int,
    key: Seq<u8>,
)
    requires
        well_ordered(db1),
        well_ordered(db2),
        diff::region_diff(db1, db2, header, start_key, end_key) is Ok,
        0 <= i < 4,
    ensures
        ({
            let report = diff::region_diff(db1, db2, header, start_key, end_key)->Ok_0;
            let a = keys_within(db1, family(i), start_key, end_key);
            let b = keys_within(db2, family(i), start_key, end_key);
            &&& a.contains(key) && !b.contains(key) ==> mentions(report, Side::First, key)
            &&& b.contains(key) && !a.contains(key) ==> mentions(report, Side::Second, key)
        }),
{
    let report = diff::region_diff(db1, db2, header, start_key, end_key)->Ok_0;
    let a = keys_within(db1, family(i), start_key, end_key);
    let b = keys_within(db2, family(i), start_key, end_key);
    every_family_is_compared(db1, db2, header, start_key, end_key);
    let p = choose|parts: Seq<Seq<char>>| #[trigger]
        reports_region(report, header, db1, db2, start_key, end_key, parts);
    assert(reports_family(p[i], family(i), a, b));
    let (m, same) = choose|m: Merge, same: nat| #[trigger]
        tells(m, same, a, b) && p[i] == family_part(family(i), m, same);
    let (before, after) = around(report, header, p, i);
    if a.contains(key) && !b.contains(key) {
        without_contains(a, b, key);
        mentioned_in_part(family(i), m, same, Side::First, key);
        lift(report, before, p[i], after, Side::First, key);
    }
    if b.contains(key) && !a.contains(key) {
        without_contains(b, a, key);
        mentioned_in_part(family(i), m, same, Side::Second, key);
        lift(report, before, p[i], after, Side::Second, key);
    }
}

/// What stands before and behind a part of a report.
proof fn around(report: Seq<char>, header: Seq<char>, p: Seq<Seq<char>>, i: int) -> (r: (
    Seq<char>,
    Seq<char>,
))
    requires
        report == header + p[0] + p[1] + p[2] + p[3],
        0 <= i < 4,
    ensures
        report == r.0 + p[i] + r.1,
{
    if i == 0 {
        assert(report =~= header + p[0] + (p[1] + p[2] + p[3]));
        (header, p[1] + p[2] + p[3])
    } else if i == 1 {
        assert(report =~= (header + p[0]) + p[1] + (p[2] + p[3]));
        (header + p[0], p[2] + p[3])
    } else if i == 2 {
        assert(report =~= (header + p[0] + p[1]) + p[2] + p[3]);
        (header + p[0] + p[1], p[3])
    } else {
        assert(report =~= (header + p[0] + p[1] + p[2]) + p[3] + Seq::<char>::empty());
        (header + p[0] + p[1] + p[2], Seq::empty())
    }
}

proof fn lift(
    report: Seq<char>,
    before: Seq<char>,
    part: Seq<char>,
    after: Seq<char>,
    side: Side,
    key: Seq<u8>,
)
    requires
        report == before + part + after,
        mentions(part, side, key),
    ensures
        mentions(report, side, key),
{
    if holds(part, line(side, escape::escaped(key))) {
        held_inside(part, before, after, line(side, escape::escaped(key)));
    } else {
        held_inside(part, before, after, line(side, text::quoted(escape::escaped(key))));
    }
}

proof fn mentioned_in_part(name: Seq<char>, m: Merge, same: nat, side: Side, key: Seq<u8>)
    requires
        (diff_laws::keys_of(side, m.only) + (match side {
            Side::First => m.left_first,
            Side::Second => m.left_second,
        })).contains(key),
    ensures
        mentions(family_part(name, m, same), side, key),
{
    let left = match side {
        Side::First => m.left_first,
        Side::Second => m.left_second,
    };
    let part = family_part(name, m, same);
    let head = "cf: "@ + name + "\n"@;
    let met = met_lines(name, m.only);
    let end = "head have "@ + text::decimal(same) + " same keys\n"@ + (if m.left_second.len() > 0
        && m.left_first.len() == 0 {
        "iter1 invalid but iter2 valid!\n"@
    } else if m.left_first.len() > 0 && m.left_second.len() == 0 {
        "iter2 invalid but iter1 valid!\n"@
    } else {
        Seq::empty()
    });
    let r1 = rest_lines(Side::First, m.left_first);
    let r2 = rest_lines(Side::Second, m.left_second);
    contained_in_either(diff_laws::keys_of(side, m.only), left, key);
    if diff_laws::keys_of(side, m.only).contains(key) {
        met_key_is_mentioned(name, m.only, side, key);
        held_inside(met, head, end + r1 + r2, line(side, escape::escaped(key)));
        assert(part =~= head + met + (end + r1 + r2));
    } else {
        left_key_is_mentioned(side, left, key);
        let l = line(side, text::quoted(escape::escaped(key)));
        if side is First {
            held_inside(r1, head + met + end, r2, l);
            assert(part =~= (head + met + end) + r1 + r2);
        } else {
            held_inside(r2, head + met + end + r1, Seq::empty(), l);
            assert(part =~= (head + met + end + r1) + r2 + Seq::<char>::empty());
        }
    }
}

/// A comparison fails exactly where a key that only one store has, met while both had more, is too short
/// for the timestamp that is printed of it.
pub proof fn comparison_fails_for_want_of_a_timestamp(
    a: Seq<Seq<u8>>,
    b: Seq<Seq<u8>>,
    name: Seq<char>,
)
    ensures
        diff::keys_diff(a, b, diff::has_stamps(name)) is Err <==> (name == "default"@ || name
            == "write"@) && exists|i: int|
            0 <= i < diff::merged(a, b).only.len() && (#[trigger] diff::merged(
                a,
                b,
            ).only[i]).1.len() < 8,
{
    short_keys_fail(diff::merged(a, b).only, diff::has_stamps(name));
}

proof fn short_keys_fail(only: Seq<(Side, Seq<u8>)>, stamps: bool)
    ensures
        diff::only_texts(only, stamps) is Err <==> stamps && exists|i: int|
            0 <= i < only.len() && (#[trigger] only[i]).1.len() < 8,
    decreases only.len(),
{
    if only.len() > 0 {
        let rest = only.drop_first();
        short_keys_fail(rest, stamps);
        if exists|i: int| 0 <= i < rest.len() && (#[trigger] rest[i]).1.len() < 8 {
            let i = choose|i: int| 0 <= i < rest.len() && (#[trigger] rest[i]).1.len() < 8;
            assert(only[i + 1].1.len() < 8);
        }
        if exists|i: int| 0 <= i < only.len() && (#[trigger] only[i]).1.len() < 8 {
            let i = choose|i: int| 0 <= i < only.len() && (#[trigger] only[i]).1.len() < 8;
            if i > 0 {
                assert(rest[i - 1].1.len() < 8);
            }
        }
    }
}

/// The heading of a comparison shows the region, then the states of the first store before those of
/// the second.
pub proof fn comparison_heading(
    region_id: u64,
    state1: Seq<char>,
    state2: Seq<char>,
    apply1: Seq<char>,
    apply2: Seq<char>,
)
    ensures
        diff::diff_header(region_id, state1, state2, apply1, apply2) == "region id: "@
            + text::decimal(region_id as nat) + "\n"@ + "db1 region state: "@ + state1 + "\n"@
            + "db2 region state: "@ + state2 + "\n"@ + "db1 apply state: "@ + apply1 + "\n"@
            + "db2 apply state: "@ + apply2 + "\n"@,
{
    reveal_strlit("\n");
    reveal_strlit("\ndb1 region state: ");
    reveal_strlit("db1 region state: ");
    reveal_strlit("\ndb2 region state: ");
    reveal_strlit("db2 region state: ");
    reveal_strlit("\ndb1 apply state: ");
    reveal_strlit("db1 apply state: ");
    reveal_strlit("\ndb2 apply state: ");
    reveal_strlit("db2 apply state: ");
    assert("\ndb1 region state: "@ =~= "\n"@ + "db1 region state: "@);
    assert("\ndb2 region state: "@ =~= "\n"@ + "db2 region state: "@);
    assert("\ndb1 apply state: "@ =~= "\n"@ + "db1 apply state: "@);
    assert("\ndb2 apply state: "@ =~= "\n"@ + "db2 apply state: "@);
    assert(diff::diff_header(region_id, state1, state2, apply1, apply2) =~= "region id: "@
        + text::decimal(region_id as nat) + "\n"@ + "db1 region state: "@ + state1 + "\n"@
        + "db2 region state: "@ + state2 + "\n"@ + "db1 apply state: "@ + apply1 + "\n"@
        + "db2 apply state: "@ + apply2 + "\n"@);
}

/// A comparison of two stores shows the states of the region in both and then compares every family
/// within the bounds that the region has in the first store.
pub proof fn comparison_is_within_the_first_bounds(
    db1: Db,
    db2: Db,
    region_id: u64,
    state1: RegionLocalState,
    state2: RegionLocalState,
    apply1: Seq<char>,
    apply2: Seq<char>,
)
    requires
        well_ordered(db1),
        well_ordered(db2),
        diff::diff_dump(db1, db2, region_id, state1, state2, apply1, apply2) is Ok,
    ensures
        exists|parts: Seq<Seq<char>>| #[trigger]
            reports_region(
                diff::diff_dump(db1, db2, region_id, state1, state2, apply1, apply2)->Ok_0,
                "region id: "@ + text::decimal(region_id as nat) + "\n"@ + "db1 region state: "@
                    + state1.text@ + "\n"@ + "db2 region state: "@ + state2.text@ + "\n"@
                    + "db1 apply state: "@ + apply1 + "\n"@ + "db2 apply state: "@ + apply2
                    + "\n"@,
                db1,
                db2,
                state1.start_key@,
                state1.end_key@,
                parts,
            ),
{
    let header = diff::diff_header(region_id, state1.text@, state2.text@, apply1, apply2);
    comparison_heading(region_id, state1.text@, state2.text@, apply1, apply2);
    every_family_is_compared(db1, db2, header, state1.start_key@, state1.end_key@);
}

} // verus!
