//! What is printed of regions and of single entries, in terms of what is stored.
use vstd::prelude::*;

use crate::codec;
use crate::error::CtlError;
use crate::escape;
use crate::keys;
use crate::raw;
use crate::region;
use crate::region::{RegionInfo, RegionLocalState};
use crate::report_laws;
use crate::size;
use crate::store;
use crate::store::Db;
use crate::store_laws;
use crate::text;

verus! {

broadcast use vstd::string::group_string_axioms;

/// A row counts with the length of its value.
pub proof fn one_row_counts_with_its_value(key: Seq<u8>, value: Seq<u8>)
    ensures
        region::values_len(seq![(key, value)]) == value.len(),
        region::values_len(Seq::empty()) == 0,
{
    let rows = seq![(key, value)];
    assert(rows.drop_first() =~= Seq::empty());
    assert(region::values_len(rows.drop_first()) == 0);
}

/// Rows one behind the other count as much as they do apart.
pub proof fn rows_count_together(a: Seq<(Seq<u8>, Seq<u8>)>, b: Seq<(Seq<u8>, Seq<u8>)>)
    ensures
        region::values_len(a + b) == region::values_len(a) + region::values_len(b),
    decreases a.len(),
{
    if a.len() == 0 {
        assert(a + b =~= b);
    } else {
        rows_count_together(a.drop_first(), b);
        assert((a + b).drop_first() =~= a.drop_first() + b);
    }
}

/// The rows of a column family within the bounds of a region; a region without an end reaches up to the
/// end of the user data.
pub open spec fn rows_within(
    db: Db,
    name: Seq<char>,
    start_key: Seq<u8>,
    end_key: Seq<u8>,
) -> Seq<(Seq<u8>, Seq<u8>)> {
    store_laws::between(
        store::cf_rows(db, name)->0,
        seq![0x7au8] + start_key,
        if end_key.len() == 0 {
            seq![0x7bu8]
        } else {
            seq![0x7au8] + end_key
        },
    )
}

/// The size of a region is that of the rows within its bounds: of the family that is named, or of the
/// three with user data together. It fails exactly where there is no family of that name, or where the
/// size does not fit.
pub proof fn size_is_that_of_the_rows_within(
    db: Db,
    start_key: Seq<u8>,
    end_key: Seq<u8>,
    i: int,
    name: Seq<char>,
)
    requires
        report_laws::well_ordered(db),
        0 <= i < 4,
    ensures
        ({
            let size = |cf: Option<Seq<char>>| region::region_size(db, start_key, end_key, cf);
            let len = |cf: Seq<char>| region::values_len(rows_within(db, cf, start_key, end_key));
            let fits = |n: nat|
                if n <= u64::MAX {
                    Ok::<u64, CtlError>(n as u64)
                } else {
                    Err(CtlError::SizeOverflow)
                };
            &&& size(Some(report_laws::family(i))) == fits(len(report_laws::family(i)))
            &&& size(None) == fits(len("default"@) + len("lock"@) + len("write"@))
            &&& store::cf_rows(db, name) is None ==> size(Some(name)) == Err::<u64, CtlError>(
                CtlError::UnknownCf,
            )
        }),
{
    let (start, end) = (keys::data_key_spec(start_key), keys::data_end_key_spec(end_key));
    report_laws::families_have_their_names(db, name);
    store_laws::scan_is_exact(db.default@, start, end);
    store_laws::scan_is_exact(db.lock@, start, end);
    store_laws::scan_is_exact(db.write@, start, end);
    store_laws::scan_is_exact(db.raft@, start, end);
    assert(start =~= seq![0x7au8] + start_key);
    assert(end =~= if end_key.len() == 0 {
        seq![0x7bu8]
    } else {
        seq![0x7au8] + end_key
    });
    assert(i == 0 || i == 1 || i == 2 || i == 3);
}

/// A region that holds one row of user data has the size of the value of that row.
pub proof fn size_of_a_region_with_one_row(
    db: Db,
    start_key: Seq<u8>,
    end_key: Seq<u8>,
    i: int,
    row: (Seq<u8>, Seq<u8>),
)
    requires
        report_laws::well_ordered(db),
        0 <= i < 3,
        rows_within(db, report_laws::family(i), start_key, end_key) == seq![row],
        forall|j: int|
            0 <= j < 3 && j != i ==> rows_within(
                db,
                #[trigger] report_laws::family(j),
                start_key,
                end_key,
            ) == Seq::<(Seq<u8>, Seq<u8>)>::empty(),
        row.1.len() <= u64::MAX,
    ensures
        region::region_size(db, start_key, end_key, None) == Ok::<u64, CtlError>(
            row.1.len() as u64,
        ),
        region::region_size(db, start_key, end_key, Some(report_laws::family(i))) == Ok::<
            u64,
            CtlError,
        >(row.1.len() as u64),
{
    one_row_counts_with_its_value(row.0, row.1);
    size_is_that_of_the_rows_within(db, start_key, end_key, i, "raft"@);
    assert(i == 0 || i == 1 || i == 2);
    let len = |j: int|
        region::values_len(rows_within(db, report_laws::family(j), start_key, end_key));
    assert(len(i) == row.1.len());
    assert(report_laws::family(0) == "default"@);
    assert(report_laws::family(1) == "lock"@);
    assert(report_laws::family(2) == "write"@);
}

/// The sizes of regions sum up over lists one behind the other, and one region counts with its size.
pub proof fn sizes_sum_up(a: Seq<(u64, u64)>, b: Seq<(u64, u64)>, pair: (u64, u64))
    ensures
        region::total_size(a + b) == region::total_size(a) + region::total_size(b),
        region::total_size(seq![pair]) == pair.0,
        region::total_size(Seq::empty()) == 0,
    decreases a.len(),
{
    assert(seq![pair].drop_first() =~= Seq::empty());
    assert(region::total_size(seq![pair].drop_first()) == 0);
    if a.len() == 0 {
        assert(a + b =~= b);
    } else {
        sizes_sum_up(a.drop_first(), b, pair);
        assert((a + b).drop_first() =~= a.drop_first() + b);
    }
}

/// What is printed of the size of a region in a list.
pub open spec fn size_shown(pair: (u64, u64)) -> Seq<char> {
    "region_id: "@ + text::decimal(pair.1 as nat) + "\n"@ + "region size: "@ + size::size_text(
        pair.0 as nat,
    ) + "\n"@
}

/// What is printed of sizes of regions one behind the other.
pub open spec fn sizes_shown(pairs: Seq<(u64, u64)>) -> Seq<char>
    decreases pairs.len(),
{
    if pairs.len() == 0 {
        Seq::empty()
    } else {
        size_shown(pairs[0]) + sizes_shown(pairs.drop_first())
    }
}

/// Whether the largest size comes first, and of two equal ones that of the region with the larger
/// number.
pub open spec fn largest_first(pairs: Seq<(u64, u64)>) -> bool {
    forall|i: int, j: int|
        0 <= i < j < pairs.len() ==> (#[trigger] pairs[i]).0 > (#[trigger] pairs[j]).0 || (
        pairs[i].0 == pairs[j].0 && pairs[i].1 >= pairs[j].1)
}

proof fn entries_backwards(s: Seq<(u64, u64)>)
    ensures
        region::size_entries(s) == sizes_shown(s.reverse()),
    decreases s.len(),
{
    let r = s.reverse();
    if s.len() > 0 {
        entries_backwards(s.drop_last());
        assert(r.drop_first() =~= s.drop_last().reverse());
        reveal_strlit("\n");
        reveal_strlit("region size: ");
        reveal_strlit("\nregion size: ");
        assert("\nregion size: "@ =~= "\n"@ + "region size: "@);
        assert(region::size_entry(s.last()) =~= size_shown(r[0]));
    }
}

/// The report on the sizes of all regions tells how many there are and how large they are together, and
/// then shows each of them once, the largest first.
pub proof fn size_report_shows_the_largest_first(t: Seq<char>, sizes: Seq<(u64, u64)>)
    requires
        region::is_sizes_report(t, sizes),
    ensures
        exists|pairs: Seq<(u64, u64)>|
            {
                &&& #[trigger] largest_first(pairs)
                &&& pairs.to_multiset() == sizes.to_multiset()
                &&& t == "total region number: "@ + text::decimal(sizes.len()) + "\n"@
                    + "total region size: "@ + size::size_text(region::total_size(sizes)) + "\n"@
                    + sizes_shown(pairs)
            },
{
    let total = region::total_size(sizes);
    let s = choose|s: Seq<(u64, u64)>|
        #![trigger region::sizes_text(s, total)]
        region::ascending_pairs(s) && s.to_multiset() == sizes.to_multiset() && t
            == region::sizes_text(s, total);
    let pairs = s.reverse();
    s.lemma_reverse_to_multiset();
    vstd::seq_lib::to_multiset_len(s);
    vstd::seq_lib::to_multiset_len(sizes);
    entries_backwards(s);
    assert forall|i: int, j: int| 0 <= i < j < pairs.len() implies (#[trigger] pairs[i]).0 > (
    #[trigger] pairs[j]).0 || (pairs[i].0 == pairs[j].0 && pairs[i].1 >= pairs[j].1) by {
        assert(region::pair_le(s[s.len() - 1 - j], s[s.len() - 1 - i]));
    }
    reveal_strlit("\n");
    reveal_strlit("total region size: ");
    reveal_strlit("\ntotal region size: ");
    assert("\ntotal region size: "@ =~= "\n"@ + "total region size: "@);
    assert(largest_first(pairs));
    assert(t =~= "total region number: "@ + text::decimal(sizes.len()) + "\n"@
        + "total region size: "@ + size::size_text(total) + "\n"@ + sizes_shown(pairs));
}

/// The list of sizes has one entry for each region that the store lists, in their order, with the size
/// that the region has by its state.
pub proof fn every_listed_region_is_sized(
    db: Db,
    ids: Seq<u64>,
    states: Seq<(u64, RegionLocalState)>,
    cf: Option<Seq<char>>,
)
    requires
        region::sized_regions(db, ids, states, cf) is Ok,
    ensures
        ({
            let sized = region::sized_regions(db, ids, states, cf)->Ok_0;
            &&& sized.len() == ids.len()
            &&& forall|i: int|
                0 <= i < ids.len() ==> {
                    let state = region::state_of(states, ids[i]);
                    &&& (#[trigger] sized[i]).1 == ids[i]
                    &&& state is Some
                    &&& region::region_size(db, state->0.start_key@, state->0.end_key@, cf) == Ok::<
                        u64,
                        CtlError,
                    >(sized[i].0)
                }
        }),
    decreases ids.len(),
{
    if ids.len() > 0 {
        let rest = ids.drop_first();
        every_listed_region_is_sized(db, rest, states, cf);
        let sized = region::sized_regions(db, ids, states, cf)->Ok_0;
        let tail = region::sized_regions(db, rest, states, cf)->Ok_0;
        assert forall|i: int| 0 <= i < ids.len() implies {
            let state = region::state_of(states, ids[i]);
            &&& (#[trigger] sized[i]).1 == ids[i]
            &&& state is Some
            &&& region::region_size(db, state->0.start_key@, state->0.end_key@, cf) == Ok::<
                u64,
                CtlError,
            >(sized[i].0)
        } by {
            if i > 0 {
                assert(sized[i] == tail[i - 1]);
                assert(ids[i] == rest[i - 1]);
            }
        }
    }
}

/// All listed regions with a state that can be sized are sized.
pub proof fn sizing_fails_for_a_region(
    db: Db,
    ids: Seq<u64>,
    states: Seq<(u64, RegionLocalState)>,
    cf: Option<Seq<char>>,
)
    requires
        region::sized_regions(db, ids, states, cf) is Err,
    ensures
        exists|i: int|
            0 <= i < ids.len() && match region::state_of(states, #[trigger] ids[i]) {
                None => true,
                Some(s) => region::region_size(db, s.start_key@, s.end_key@, cf) is Err,
            },
    decreases ids.len(),
{
    let rest = ids.drop_first();
    let bad = |id: u64|
        match region::state_of(states, id) {
            None => true,
            Some(s) => region::region_size(db, s.start_key@, s.end_key@, cf) is Err,
        };
    if !bad(ids[0]) {
        sizing_fails_for_a_region(db, rest, states, cf);
        let i = choose|i: int|
            0 <= i < rest.len() && match region::state_of(states, #[trigger] rest[i]) {
                None => true,
                Some(s) => region::region_size(db, s.start_key@, s.end_key@, cf) is Err,
            };
        assert(ids[i + 1] == rest[i]);
    }
}

/// The state of a region is the first that is given for it, and there is none exactly where none is
/// given.
pub proof fn state_is_the_first_given(states: Seq<(u64, RegionLocalState)>, id: u64)
    ensures
        match region::state_of(states, id) {
            None => forall|i: int| 0 <= i < states.len() ==> (#[trigger] states[i]).0 != id,
            Some(s) => exists|i: int|
                0 <= i < states.len() && #[trigger] states[i] == (id, s) && forall|j: int|
                    0 <= j < i ==> (#[trigger] states[j]).0 != id,
        },
    decreases states.len(),
{
    if states.len() > 0 && states[0].0 != id {
        let rest = states.drop_first();
        state_is_the_first_given(rest, id);
        match region::state_of(states, id) {
            None => {
                assert forall|i: int| 0 <= i < states.len() implies (#[trigger] states[i]).0 != id by {
                    if i > 0 {
                        assert(states[i] == rest[i - 1]);
                    }
                }
            },
            Some(s) => {
                let i = choose|i: int|
                    0 <= i < rest.len() && #[trigger] rest[i] == (id, s) && forall|j: int|
                        0 <= j < i ==> (#[trigger] rest[j]).0 != id;
                assert(states[i + 1] == (id, s));
                assert forall|j: int| 0 <= j < i + 1 implies (#[trigger] states[j]).0 != id by {
                    if j > 0 {
                        assert(states[j] == rest[j - 1]);
                    }
                }
            },
        }
    } else if states.len() > 0 {
        assert(states[0] == (id, states[0].1));
    }
}

/// The states of a region are the values under the keys with its number: that of the region and its
/// apply state in the raft family of the data, and its raft state in the default family of the raft
/// store.
pub proof fn states_are_stored_under_the_number(db: Db, raft_db: Db, id: u64, value: Seq<u8>)
    requires
        report_laws::well_ordered(db),
        report_laws::well_ordered(raft_db),
    ensures
        region::stored_region_state(db, id) == Some(value) <==> db.raft@.contains(
            (seq![1u8, 3u8] + codec::be_bytes(id) + seq![1u8], value),
        ),
        region::stored_apply_state(db, id) == Some(value) <==> db.raft@.contains(
            (seq![1u8, 2u8] + codec::be_bytes(id) + seq![3u8], value),
        ),
        region::stored_raft_state(raft_db, id) == Some(value) <==> raft_db.default@.contains(
            (seq![1u8, 2u8] + codec::be_bytes(id) + seq![2u8], value),
        ),
{
    let state = keys::region_meta_spec(id, keys::REGION_STATE_SUFFIX);
    let apply = keys::region_raft_spec(id, keys::APPLY_STATE_SUFFIX);
    let raft = keys::region_raft_spec(id, keys::RAFT_STATE_SUFFIX);
    assert(state =~= seq![1u8, 3u8] + codec::be_bytes(id) + seq![1u8]);
    assert(apply =~= seq![1u8, 2u8] + codec::be_bytes(id) + seq![3u8]);
    assert(raft =~= seq![1u8, 2u8] + codec::be_bytes(id) + seq![2u8]);
    store_laws::lookup_is_exact(db.raft@, state, value);
    store_laws::lookup_is_exact(db.raft@, apply, value);
    store_laws::lookup_is_exact(raft_db.default@, raft, value);
}

/// The size of one region is shown with its number, with the family where one is named.
pub proof fn size_of_one_region_is_shown(id: u64, name: Seq<char>, bytes: u64)
    ensures
        region::region_size_text(id, None, bytes) == "region id: "@ + text::decimal(id as nat)
            + "\n"@ + "region size: "@ + size::size_text(bytes as nat) + "\n"@,
        region::region_size_text(id, Some(name), bytes) == "region id: "@ + text::decimal(id as nat)
            + "\n"@ + "cf_name: "@ + name + "\n"@ + "region size: "@ + size::size_text(
            bytes as nat,
        ) + "\n"@,
{
    assert(region::region_size_text(id, None, bytes) =~= "region id: "@ + text::decimal(id as nat)
        + "\n"@ + "region size: "@ + size::size_text(bytes as nat) + "\n"@);
    assert(region::region_size_text(id, Some(name), bytes) =~= "region id: "@ + text::decimal(
        id as nat,
    ) + "\n"@ + "cf_name: "@ + name + "\n"@ + "region size: "@ + size::size_text(bytes as nat)
        + "\n"@);
}

/// A region that has left the store is passed over exactly where such are to be, and the flag changes
/// nothing for any other.
pub proof fn only_tombstones_are_passed_over(info: RegionInfo)
    ensures
        ({
            let gone = info.region_state is Some && info.region_state->0.tombstone;
            &&& gone ==> region::region_info_text(info, true) == Seq::<char>::empty()
            &&& !gone ==> region::region_info_text(info, true) == region::region_info_text(
                info,
                false,
            )
            &&& region::region_info_text(info, false).len() > 0
        }),
{
    reveal_strlit("\n");
}

/// An optional text as it is shown.
pub open spec fn opt_shown(t: Option<Seq<char>>) -> Seq<char> {
    match t {
        None => "None"@,
        Some(s) => "Some("@ + s + ")"@,
    }
}

/// The states of a region are shown with the keys that they are stored under.
pub proof fn states_are_shown_with_their_keys(info: RegionInfo)
    ensures
        ({
            let id = info.region_id;
            let state = match info.region_state {
                None => None,
                Some(s) => Some(s.text@),
            };
            let raft = match info.raft_state {
                None => None,
                Some(s) => Some(s@),
            };
            let apply = match info.apply_state {
                None => None,
                Some(s) => Some(s@),
            };
            region::region_info_text(info, false) == "region state key: "@ + escape::escaped(
                keys::region_meta_spec(id, keys::REGION_STATE_SUFFIX),
            ) + "\nregion state: "@ + opt_shown(state) + "\nraft state key: "@ + escape::escaped(
                keys::region_raft_spec(id, keys::RAFT_STATE_SUFFIX),
            ) + "\nraft state: "@ + opt_shown(raft) + "\napply state key: "@ + escape::escaped(
                keys::region_raft_spec(id, keys::APPLY_STATE_SUFFIX),
            ) + "\napply state: "@ + opt_shown(apply) + "\n"@
        }),
{
}

/// Regions one behind the other print what they print alone, one behind the other, each what is known of
/// it.
pub proof fn states_of_regions_are_shown_in_turn(
    a: Seq<u64>,
    b: Seq<u64>,
    infos: Seq<RegionInfo>,
    skip: bool,
    id: u64,
)
    ensures
        region::region_infos_text(a + b, infos, skip) == region::region_infos_text(a, infos, skip)
            + region::region_infos_text(b, infos, skip),
        region::region_infos_text(seq![id], infos, skip) == region::region_info_text(
            region::info_of(infos, id),
            skip,
        ),
    decreases a.len(),
{
    assert(seq![id].drop_first() =~= Seq::empty());
    assert(region::region_infos_text(seq![id].drop_first(), infos, skip) =~= Seq::empty());
    assert(region::region_infos_text(seq![id], infos, skip) =~= region::region_info_text(
        region::info_of(infos, id),
        skip,
    ));
    if a.len() == 0 {
        assert(a + b =~= b);
        assert(Seq::<char>::empty() + region::region_infos_text(b, infos, skip)
            =~= region::region_infos_text(b, infos, skip));
    } else {
        states_of_regions_are_shown_in_turn(a.drop_first(), b, infos, skip, id);
        assert((a + b).drop_first() =~= a.drop_first() + b);
        assert((a + b)[0] == a[0]);
        assert(region::region_infos_text(a + b, infos, skip) =~= region::region_infos_text(
            a,
            infos,
            skip,
        ) + region::region_infos_text(b, infos, skip));
    }
}

/// What is known of a region is the first that is given for it, and nothing where nothing is given.
pub proof fn info_is_the_first_given(infos: Seq<RegionInfo>, id: u64)
    ensures
        region::info_of(infos, id).region_id == id,
        ({
            let info = region::info_of(infos, id);
            ||| exists|i: int|
                0 <= i < infos.len() && #[trigger] infos[i] == info && forall|j: int|
                    0 <= j < i ==> (#[trigger] infos[j]).region_id != id
            ||| info.region_state is None && info.raft_state is None && info.apply_state is None && (
            forall|i: int| 0 <= i < infos.len() ==> (#[trigger] infos[i]).region_id != id)
        }),
    decreases infos.len(),
{
    if infos.len() > 0 && infos[0].region_id != id {
        let rest = infos.drop_first();
        let info = region::info_of(infos, id);
        info_is_the_first_given(rest, id);
        if exists|i: int|
            0 <= i < rest.len() && #[trigger] rest[i] == info && forall|j: int|
                0 <= j < i ==> (#[trigger] rest[j]).region_id != id {
            let i = choose|i: int|
                0 <= i < rest.len() && #[trigger] rest[i] == info && forall|j: int|
                    0 <= j < i ==> (#[trigger] rest[j]).region_id != id;
            assert(infos[i + 1] == info);
            assert forall|j: int| 0 <= j < i + 1 implies (#[trigger] infos[j]).region_id != id by {
                if j > 0 {
                    assert(infos[j] == rest[j - 1]);
                }
            }
        } else {
            assert forall|i: int| 0 <= i < infos.len() implies (#[trigger] infos[i]).region_id
                != id by {
                if i > 0 {
                    assert(infos[i] == rest[i - 1]);
                }
            }
        }
    } else if infos.len() > 0 {
        assert(infos[0] == region::info_of(infos, id));
    }
}

/// A raw value is printed in a form that stands for the same bytes, and a value that is not there as none.
pub proof fn raw_values_read_back(value: Seq<u8>)
    ensures
        raw::raw_value_text(None) == "value: "@ + "None"@ + "\n"@,
        ({
            let t = raw::raw_value_text(Some(value));
            &&& t.len() >= 8
            &&& t.take(7) == "value: "@
            &&& t.last() == '\n'
            &&& escape::unescaped(vstd::utf8::encode_utf8(t.subrange(7, t.len() - 1))) == Some(
                value,
            )
        }),
{
    reveal_strlit("value: ");
    reveal_strlit("\n");
    escape::unescape_undoes_escape(value);
    let t = raw::raw_value_text(Some(value));
    assert(t.take(7) =~= "value: "@);
    assert(t.subrange(7, t.len() - 1) =~= escape::escaped(value));
}

/// A request for a raw value shows the value that the very family of that name holds under that very
/// key, and none where it holds none. It fails where there is no such family.
pub proof fn raw_value_is_the_stored_one(
    db: Db,
    i: int,
    key: Seq<u8>,
    value: Seq<u8>,
    name: Seq<char>,
)
    requires
        report_laws::well_ordered(db),
        0 <= i < 4,
    ensures
        ({
            let rows = store::cf_rows(db, report_laws::family(i))->0;
            let dump = raw::raw_dump(db, report_laws::family(i), escape::escaped(key));
            &&& rows.contains((key, value)) ==> dump == Ok::<Seq<char>, CtlError>(
                raw::raw_value_text(Some(value)),
            )
            &&& (forall|j: int| 0 <= j < rows.len() ==> (#[trigger] rows[j]).0 != key) ==> dump
                == Ok::<Seq<char>, CtlError>(raw::raw_value_text(None))
            &&& store::cf_rows(db, name) is None ==> raw::raw_dump(db, name, escape::escaped(key))
                == Err::<Seq<char>, CtlError>(CtlError::UnknownCf)
        }),
{
    let rows = store::cf_rows(db, report_laws::family(i))->0;
    report_laws::families_have_their_names(db, name);
    escape::unescape_undoes_escape(key);
    assert(i == 0 || i == 1 || i == 2 || i == 3);
    store_laws::lookup_is_exact(rows, key, value);
    if let Some(v) = store::looked_up(rows, key) {
        store_laws::lookup_is_exact(rows, key, v);
        let j = choose|j: int| 0 <= j < rows.len() && rows[j] == (key, v);
        assert(rows[j].0 == key);
    }
}

/// An entry of a raft log is shown with its key, its region, its index and the length of its data.
pub proof fn log_entries_are_shown_with_their_place(
    region_id: u64,
    index: u64,
    entry: Seq<char>,
    len: nat,
    msg: Seq<char>,
)
    ensures
        ({
            let key = keys::raft_log_spec(region_id, index);
            raw::raft_log_text(key, region_id, index, entry, len, msg) == "idx_key: "@
                + escape::escaped(key) + "\n"@ + "region: "@ + text::decimal(region_id as nat)
                + "\n"@ + "log index: "@ + text::decimal(index as nat) + "\n"@ + "entry "@ + entry
                + "\n"@ + "msg len: "@ + text::decimal(len) + "\n"@ + msg + "\n"@
        }),
        keys::raft_log_parsed(keys::raft_log_spec(region_id, index)) == Ok::<
            (u64, u64),
            keys::KeyError,
        >((region_id, index)),
{
    let key = keys::raft_log_spec(region_id, index);
    keys::raft_log_key_round_trip(key, region_id, index);
    reveal_strlit("\n");
    reveal_strlit("region: ");
    reveal_strlit("\nregion: ");
    reveal_strlit("log index: ");
    reveal_strlit("\nlog index: ");
    reveal_strlit("entry ");
    reveal_strlit("\nentry ");
    reveal_strlit("msg len: ");
    reveal_strlit("\nmsg len: ");
    assert("\nregion: "@ =~= "\n"@ + "region: "@);
    assert("\nlog index: "@ =~= "\n"@ + "log index: "@);
    assert("\nentry "@ =~= "\n"@ + "entry "@);
    assert("\nmsg len: "@ =~= "\n"@ + "msg len: "@);
    assert(raw::raft_log_text(key, region_id, index, entry, len, msg) =~= "idx_key: "@
        + escape::escaped(key) + "\n"@ + "region: "@ + text::decimal(region_id as nat) + "\n"@
        + "log index: "@ + text::decimal(index as nat) + "\n"@ + "entry "@ + entry + "\n"@
        + "msg len: "@ + text::decimal(len) + "\n"@ + msg + "\n"@);
}

/// A size below a megabyte is shown in bytes, and a whole number of gigabytes and megabytes as that.
pub proof fn whole_sizes_are_shown_as_such(n: nat, gb: nat, mb: nat)
    requires
        n < 1048576,
        mb < 1024,
        gb + mb > 0,
    ensures
        size::size_text(n) == text::decimal(n),
        size::size_text(gb * 1073741824 + mb * 1048576) == (if gb == 0 {
            Seq::empty()
        } else {
            text::decimal(gb) + " GB "@
        }) + (if mb == 0 {
            Seq::empty()
        } else {
            text::decimal(mb) + ".000"@ + " MB "@
        }),
{
    let bytes = (gb * 1073741824 + mb * 1048576) as nat;
    assert(bytes / 1073741824 == gb && bytes % 1073741824 == mb * 1048576);
    assert(bytes >= 1048576);
    assert(size::rounded(mb * 1048576 * 1000, 1048576) == mb * 1000);
    reveal_strlit(".");
    reveal_strlit(".000");
    assert(size::with_point(mb * 1000) =~= text::decimal(mb) + ".000"@);
}

/// Rounding gives a whole number that is as near as any can be.
pub proof fn rounding_is_to_the_nearest(n: nat, d: nat)
    requires
        d > 0,
    ensures
        2 * (size::rounded(n, d) * d - n) <= d,
        2 * (n - size::rounded(n, d) * d) <= d,
{
    let (low, rest) = (n / d, n % d);
    vstd::arithmetic::div_mod::lemma_fundamental_div_mod(n as int, d as int);
    assert(d * low == low * d) by (nonlinear_arith);
    assert((low + 1) * d == low * d + d) by (nonlinear_arith);
}

} // verus!
