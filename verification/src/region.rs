//! Regions: their states and their sizes.
use vstd::prelude::*;

use crate::error::CtlError;
use crate::escape;
use crate::keys;
use crate::size;
use crate::store;
use crate::store::{Db, Table};
use crate::text;

verus! {

broadcast use vstd::string::group_string_axioms;

/// What the tool reads of the stored state of a region.
#[derive(Debug, PartialEq, Eq)]
pub struct RegionLocalState {
    /// Whether the region has left the store.
    pub tombstone: bool,
    /// The first key of the region.
    pub start_key: Vec<u8>,
    /// The key behind the last key of the region; empty where the region has no end.
    pub end_key: Vec<u8>,
    /// The state as a debug print shows it.
    pub text: String,
}

/// What a store holds of one region besides its data.
#[derive(Debug, PartialEq, Eq)]
pub struct RegionInfo {
    pub region_id: u64,
    pub region_state: Option<RegionLocalState>,
    /// The raft state as a debug print shows it.
    pub raft_state: Option<String>,
    /// The apply state as a debug print shows it.
    pub apply_state: Option<String>,
}

/// What the data holds as the state of a region.
pub open spec fn stored_region_state(db: Db, region_id: u64) -> Option<Seq<u8>> {
    store::looked_up(db.raft@, keys::region_meta_spec(region_id, keys::REGION_STATE_SUFFIX))
}

/// What the data holds as the apply state of a region.
pub open spec fn stored_apply_state(db: Db, region_id: u64) -> Option<Seq<u8>> {
    store::looked_up(db.raft@, keys::region_raft_spec(region_id, keys::APPLY_STATE_SUFFIX))
}

/// What the raft store holds as the raft state of a region.
pub open spec fn stored_raft_state(raft_db: Db, region_id: u64) -> Option<Seq<u8>> {
    store::looked_up(raft_db.default@, keys::region_raft_spec(region_id, keys::RAFT_STATE_SUFFIX))
}

/// The stored state of a region, which stands in the raft column family of the data.
pub fn region_state_bytes(db: &Db, region_id: u64) -> (r: Option<&[u8]>)
    ensures
        match r {
            None => stored_region_state(*db, region_id) is None,
            Some(v) => stored_region_state(*db, region_id) == Some(v@),
        },
        ({
            let key = keys::region_meta_spec(region_id, keys::REGION_STATE_SUFFIX);
            match r {
                None => store::looked_up(db.raft@, key) is None,
                Some(v) => store::looked_up(db.raft@, key) == Some(v@),
            }
        }),
{
    db.raft.get(keys::region_state_key(region_id).as_slice())
}

/// The stored apply state of a region, which stands in the raft column family of the data.
pub fn apply_state_bytes(db: &Db, region_id: u64) -> (r: Option<&[u8]>)
    ensures
        match r {
            None => stored_apply_state(*db, region_id) is None,
            Some(v) => stored_apply_state(*db, region_id) == Some(v@),
        },
        ({
            let key = keys::region_raft_spec(region_id, keys::APPLY_STATE_SUFFIX);
            match r {
                None => store::looked_up(db.raft@, key) is None,
                Some(v) => store::looked_up(db.raft@, key) == Some(v@),
            }
        }),
{
    db.raft.get(keys::apply_state_key(region_id).as_slice())
}

/// The stored raft state of a region, which stands in the default column family of the raft store.
pub fn raft_state_bytes(raft_db: &Db, region_id: u64) -> (r: Option<&[u8]>)
    ensures
        match r {
            None => stored_raft_state(*raft_db, region_id) is None,
            Some(v) => stored_raft_state(*raft_db, region_id) == Some(v@),
        },
        ({
            let key = keys::region_raft_spec(region_id, keys::RAFT_STATE_SUFFIX);
            match r {
                None => store::looked_up(raft_db.default@, key) is None,
                Some(v) => store::looked_up(raft_db.default@, key) == Some(v@),
            }
        }),
{
    raft_db.default.get(keys::raft_state_key(region_id).as_slice())
}

/// The regions whose states stand among `rows`, in their order.
pub open spec fn region_ids(rows: Seq<(Seq<u8>, Seq<u8>)>) -> Result<Seq<u64>, CtlError>
    decreases rows.len(),
{
    if rows.len() == 0 {
        Ok(Seq::empty())
    } else {
        match keys::region_meta_parsed(rows[0].0) {
            Err(e) => Err(CtlError::Key(e)),
            Ok((id, suffix)) => match region_ids(rows.drop_first()) {
                Err(e) => Err(e),
                Ok(rest) => Ok(
                    if suffix == keys::REGION_STATE_SUFFIX {
                        seq![id] + rest
                    } else {
                        rest
                    },
                ),
            },
        }
    }
}

/// The rows that hold region metadata.
pub open spec fn meta_rows(rows: Seq<(Seq<u8>, Seq<u8>)>) -> Seq<(Seq<u8>, Seq<u8>)> {
    store::scanned(
        rows,
        seq![keys::LOCAL_PREFIX, keys::REGION_META_PREFIX],
        seq![keys::LOCAL_PREFIX, (keys::REGION_META_PREFIX + 1) as u8],
    )
}

/// The regions of a store, in the order of their metadata.
pub fn get_all_region_ids(db: &Db) -> (r: Result<Vec<u64>, CtlError>)
    ensures
        match r {
            Ok(ids) => region_ids(meta_rows(db.raft@)) == Ok::<Seq<u64>, CtlError>(ids@),
            Err(e) => region_ids(meta_rows(db.raft@)) == Err::<Seq<u64>, CtlError>(e),
        },
{
    let start = keys::region_meta_min_key();
    let end = keys::region_meta_max_key();
    let (first, last) = db.raft.scan(start.as_slice(), end.as_slice());
    let ghost rows = meta_rows(db.raft@);
    let mut ids: Vec<u64> = Vec::new();
    let mut i: usize = first;
    assert(rows.skip(0) =~= rows);
    assert(forall|t: Seq<u64>| #[trigger] (ids@ + t) =~= t);
    while i < last
        invariant
            first <= i <= last <= db.raft@.len(),
            rows == db.raft@.subrange(first as int, last as int),
            rows == meta_rows(db.raft@),
            region_ids(rows) == match region_ids(rows.skip(i - first)) {
                Ok(t) => Ok(ids@ + t),
                Err(e) => Err(e),
            },
        decreases last - i,
    {
        let ghost rest = rows.skip(i - first);
        let ghost prior = ids@;
        let row = db.raft.row(i);
        assert(rest[0] == row@);
        assert(rest.drop_first() =~= rows.skip(i + 1 - first));
        let (id, suffix) = match keys::decode_region_meta_key(row.key.as_slice()) {
            Err(e) => return Err(CtlError::Key(e)),
            Ok(x) => x,
        };
        if suffix == keys::REGION_STATE_SUFFIX {
            ids.push(id);
            proof {
                if let Ok(t) = region_ids(rest.drop_first()) {
                    assert(prior + (seq![id] + t) =~= ids@ + t);
                }
            }
        }
        i += 1;
    }
    assert(ids@ + Seq::<u64>::empty() =~= ids@);
    Ok(ids)
}

/// The lengths of the values of `rows` together.
pub open spec fn values_len(rows: Seq<(Seq<u8>, Seq<u8>)>) -> nat
    decreases rows.len(),
{
    if rows.len() == 0 {
        0
    } else {
        rows[0].1.len() + values_len(rows.drop_first())
    }
}

/// How much a region takes of the column families of that name, or of those that hold user data.
pub open spec fn region_len(db: Db, start: Seq<u8>, end: Seq<u8>, cf: Option<Seq<char>>) -> Option<
    nat,
> {
    match cf {
        Some(name) => match store::cf_rows(db, name) {
            None => None,
            Some(rows) => Some(values_len(store::scanned(rows, start, end))),
        },
        None => Some(
            values_len(store::scanned(db.default@, start, end)) + values_len(
                store::scanned(db.write@, start, end),
            ) + values_len(store::scanned(db.lock@, start, end)),
        ),
    }
}

/// The size of a region, where it fits.
pub open spec fn region_size(
    db: Db,
    start_key: Seq<u8>,
    end_key: Seq<u8>,
    cf: Option<Seq<char>>,
) -> Result<u64, CtlError> {
    match region_len(db, keys::data_key_spec(start_key), keys::data_end_key_spec(end_key), cf) {
        None => Err(CtlError::UnknownCf),
        Some(n) => if n > u64::MAX {
            Err(CtlError::SizeOverflow)
        } else {
            Ok(n as u64)
        },
    }
}

/// Adds the lengths of the values that a scan of a table meets; none where the sum does not fit.
pub fn add_values_len(table: &Table, start: &[u8], end: &[u8], size: u64) -> (r: Option<u64>)
    ensures
        match r {
            Some(n) => n == size + values_len(store::scanned(table@, start@, end@)),
            None => size + values_len(store::scanned(table@, start@, end@)) > u64::MAX,
        },
{
    let (first, last) = table.scan(start, end);
    let ghost rows = store::scanned(table@, start@, end@);
    let mut sum: u64 = size;
    let mut i: usize = first;
    assert(rows.skip(0) =~= rows);
    while i < last
        invariant
            first <= i <= last <= table@.len(),
            rows == table@.subrange(first as int, last as int),
            rows == store::scanned(table@, start@, end@),
            size + values_len(rows) == sum + values_len(rows.skip(i - first)),
        decreases last - i,
    {
        let ghost rest = rows.skip(i - first);
        let row = table.row(i);
        assert(rest[0] == row@);
        assert(rest.drop_first() =~= rows.skip(i + 1 - first));
        sum = match sum.checked_add(row.value.len() as u64) {
            None => return None,
            Some(n) => n,
        };
        i += 1;
    }
    Some(sum)
}

/// The size of a region in a column family, or in all that hold user data.
pub fn get_region_size(db: &Db, region: &RegionLocalState, cf: Option<&str>) -> (r: Result<
    u64,
    CtlError,
>)
    ensures
        r == region_size(
            *db,
            region.start_key@,
            region.end_key@,
            match cf {
                None => None,
                Some(name) => Some(name@),
            },
        ),
{
    let start_key = keys::data_key(region.start_key.as_slice());
    let end_key = keys::data_end_key(region.end_key.as_slice());
    let (start, end) = (start_key.as_slice(), end_key.as_slice());
    match cf {
        Some(name) => {
            let table = match db.table(name) {
                None => return Err(CtlError::UnknownCf),
                Some(t) => t,
            };
            match add_values_len(table, start, end, 0) {
                None => Err(CtlError::SizeOverflow),
                Some(n) => Ok(n),
            }
        },
        None => {
            let a = match add_values_len(&db.default, start, end, 0) {
                None => return Err(CtlError::SizeOverflow),
                Some(n) => n,
            };
            let b = match add_values_len(&db.write, start, end, a) {
                None => return Err(CtlError::SizeOverflow),
                Some(n) => n,
            };
            match add_values_len(&db.lock, start, end, b) {
                None => Err(CtlError::SizeOverflow),
                Some(n) => Ok(n),
            }
        },
    }
}

/// What is printed of the size of one region.
pub open spec fn region_size_text(region_id: u64, cf: Option<Seq<char>>, bytes: u64) -> Seq<char> {
    "region id: "@ + text::decimal(region_id as nat) + "\n"@ + (match cf {
        None => Seq::empty(),
        Some(name) => "cf_name: "@ + name + "\n"@,
    }) + "region size: "@ + size::size_text(bytes as nat) + "\n"@
}

/// Prints the size of one region.
pub fn dump_region_size(
    db: &Db,
    region_id: u64,
    region: &RegionLocalState,
    cf: Option<&str>,
) -> (r: Result<String, CtlError>)
    ensures
        ({
            let name = match cf {
                None => None,
                Some(name) => Some(name@),
            };
            let bytes = region_size(*db, region.start_key@, region.end_key@, name);
            match r {
                Ok(t) => bytes is Ok && t@ == region_size_text(region_id, name, bytes->Ok_0),
                Err(e) => bytes == Err::<u64, CtlError>(e),
            }
        }),
{
    match get_region_size(db, region, cf) {
        Err(e) => Err(e),
        Ok(bytes) => Ok(print_region_size(region_id, cf, bytes)),
    }
}

/// Prints the size of one region that is known.
pub fn print_region_size(region_id: u64, cf: Option<&str>, bytes: u64) -> (r: String)
    ensures
        r@ == region_size_text(
            region_id,
            match cf {
                None => None,
                Some(name) => Some(name@),
            },
            bytes,
        ),
{
    let mut out = String::new();
    out.append("region id: ");
    text::push_decimal(&mut out, region_id);
    out.append("\n");
    let ghost head = out@;
    match cf {
        None => {},
        Some(name) => {
            out.append("cf_name: ");
            out.append(name);
            out.append("\n");
            assert(out@ =~= head + ("cf_name: "@ + name@ + "\n"@));
        },
    }
    out.append("region size: ");
    size::push_size(&mut out, bytes);
    out.append("\n");
    assert(out@ =~= region_size_text(
        region_id,
        match cf {
            None => None,
            Some(name) => Some(name@),
        },
        bytes,
    ));
    out
}

/// Whether a pair of a size and a region comes before another or is the same.
pub open spec fn pair_le(a: (u64, u64), b: (u64, u64)) -> bool {
    a.0 < b.0 || (a.0 == b.0 && a.1 <= b.1)
}

/// Whether pairs of sizes and regions are in ascending order.
pub open spec fn ascending_pairs(s: Seq<(u64, u64)>) -> bool {
    forall|i: int, j: int| 0 <= i < j < s.len() ==> pair_le(#[trigger] s[i], #[trigger] s[j])
}

/// `slice::sort` puts the pairs in ascending order, which for pairs is decided by the first number
/// and among equal ones by the second; no pair is lost and none is added.
#[verifier::external_body]
fn sort_pairs(v: &mut Vec<(u64, u64)>)
    ensures
        ascending_pairs(final(v)@),
        final(v)@.to_multiset() == old(v)@.to_multiset(),
{
    v.sort();
}

/// The sizes in `sizes` together.
pub open spec fn total_size(sizes: Seq<(u64, u64)>) -> nat
    decreases sizes.len(),
{
    if sizes.len() == 0 {
        0
    } else {
        sizes[0].0 as nat + total_size(sizes.drop_first())
    }
}

/// What is printed of one region in a list of sizes.
pub open spec fn size_entry(pair: (u64, u64)) -> Seq<char> {
    "region_id: "@ + text::decimal(pair.1 as nat) + "\nregion size: "@ + size::size_text(
        pair.0 as nat,
    ) + "\n"@
}

/// What is printed of sizes in ascending order: the largest first.
pub open spec fn size_entries(sizes: Seq<(u64, u64)>) -> Seq<char>
    decreases sizes.len(),
{
    if sizes.len() == 0 {
        Seq::empty()
    } else {
        size_entry(sizes.last()) + size_entries(sizes.drop_last())
    }
}

/// What is printed of the sizes of all regions, once they are in ascending order.
pub open spec fn sizes_text(sizes: Seq<(u64, u64)>, total: nat) -> Seq<char> {
    "total region number: "@ + text::decimal(sizes.len()) + "\ntotal region size: "@
        + size::size_text(total) + "\n"@ + size_entries(sizes)
}

/// Whether `t` is what is printed of the sizes of all regions: their number, their total, and each
/// of them, the largest first and of two equal ones that with the larger number first.
pub open spec fn is_sizes_report(t: Seq<char>, sizes: Seq<(u64, u64)>) -> bool {
    exists|s: Seq<(u64, u64)>|
        #![trigger sizes_text(s, total_size(sizes))]
        ascending_pairs(s) && s.to_multiset() == sizes.to_multiset() && t == sizes_text(
            s,
            total_size(sizes),
        )
}

fn push_size_entry(out: &mut String, pair: (u64, u64))
    ensures
        final(out)@ == old(out)@ + size_entry(pair),
{
    out.append("region_id: ");
    text::push_decimal(out, pair.1);
    out.append("\nregion size: ");
    size::push_size(out, pair.0);
    out.append("\n");
    assert(out@ =~= old(out)@ + size_entry(pair));
}

/// Prints the sizes of all regions, given as pairs of a size and a region.
pub fn print_all_sizes(sizes: Vec<(u64, u64)>) -> (r: Result<String, CtlError>)
    ensures
        match r {
            Ok(t) => total_size(sizes@) <= u64::MAX && is_sizes_report(t@, sizes@),
            Err(e) => total_size(sizes@) > u64::MAX && e == CtlError::SizeOverflow,
        },
{
    broadcast use vstd::seq_lib::group_to_multiset_ensures;

    let mut total: u64 = 0;
    let mut i: usize = 0;
    let ghost all = sizes@;
    assert(all.skip(0) =~= all);
    while i < sizes.len()
        invariant
            i <= sizes@.len(),
            all == sizes@,
            total_size(all) == total + total_size(all.skip(i as int)),
        decreases sizes.len() - i,
    {
        assert(all.skip(i as int)[0] == all[i as int]);
        assert(all.skip(i as int).drop_first() =~= all.skip(i + 1));
        total = match total.checked_add(sizes[i].0) {
            None => return Err(CtlError::SizeOverflow),
            Some(n) => n,
        };
        i += 1;
    }
    let mut v = sizes;
    sort_pairs(&mut v);
    let ghost s = v@;
    assert(s.len() == all.len()) by {
        assert(s.to_multiset().len() == all.to_multiset().len());
    }
    let mut out = String::new();
    out.append("total region number: ");
    text::push_decimal(&mut out, v.len() as u64);
    out.append("\ntotal region size: ");
    size::push_size(&mut out, total);
    out.append("\n");
    let ghost head = out@;
    let mut n: usize = v.len();
    assert(s.take(s.len() as int) =~= s);
    while n > 0
        invariant
            n <= v@.len(),
            s == v@,
            head + size_entries(s) == out@ + size_entries(s.take(n as int)),
        decreases n,
    {
        let ghost prior = out@;
        let ghost rest = s.take(n as int);
        n -= 1;
        assert(rest.last() == s[n as int]);
        assert(rest.drop_last() =~= s.take(n as int));
        push_size_entry(&mut out, v[n]);
        assert(prior + (size_entry(s[n as int]) + size_entries(s.take(n as int))) =~= out@
            + size_entries(s.take(n as int)));
    }
    assert(out@ + Seq::<char>::empty() =~= out@);
    assert(out@ =~= sizes_text(s, total_size(all)));
    Ok(out)
}

/// The state of a region among `states`.
pub open spec fn state_of(states: Seq<(u64, RegionLocalState)>, region_id: u64) -> Option<
    RegionLocalState,
>
    decreases states.len(),
{
    if states.len() == 0 {
        None
    } else if states[0].0 == region_id {
        Some(states[0].1)
    } else {
        state_of(states.drop_first(), region_id)
    }
}

fn find_state(states: &Vec<(u64, RegionLocalState)>, region_id: u64) -> (r: Option<
    &RegionLocalState,
>)
    ensures
        match r {
            None => state_of(states@, region_id) is None,
            Some(s) => state_of(states@, region_id) == Some(*s),
        },
{
    let mut i: usize = 0;
    assert(states@.skip(0) =~= states@);
    while i < states.len()
        invariant
            i <= states@.len(),
            state_of(states@, region_id) == state_of(states@.skip(i as int), region_id),
        decreases states.len() - i,
    {
        let ghost rest = states@.skip(i as int);
        assert(rest[0] == states@[i as int]);
        assert(rest.drop_first() =~= states@.skip(i + 1));
        if states[i].0 == region_id {
            return Some(&states[i].1);
        }
        i += 1;
    }
    None
}

/// The sizes of regions, each with its region; the first error counts.
pub open spec fn sized_regions(
    db: Db,
    ids: Seq<u64>,
    states: Seq<(u64, RegionLocalState)>,
    cf: Option<Seq<char>>,
) -> Result<Seq<(u64, u64)>, CtlError>
    decreases ids.len(),
{
    if ids.len() == 0 {
        Ok(Seq::empty())
    } else {
        match state_of(states, ids[0]) {
            None => Err(CtlError::NoRegionState(ids[0])),
            Some(state) => match region_size(db, state.start_key@, state.end_key@, cf) {
                Err(e) => Err(e),
                Ok(n) => match sized_regions(db, ids.drop_first(), states, cf) {
                    Err(e) => Err(e),
                    Ok(rest) => Ok(seq![(n, ids[0])] + rest),
                },
            },
        }
    }
}

/// Adds the size of a region, with the region, to those of others.
pub fn add_region_size(
    sizes: &mut Vec<(u64, u64)>,
    db: &Db,
    region_id: u64,
    states: &Vec<(u64, RegionLocalState)>,
    cf: Option<&str>,
) -> (r: Result<(), CtlError>)
    ensures
        ({
            let name = match cf {
                None => None,
                Some(name) => Some(name@),
            };
            let state = state_of(states@, region_id);
            let size = region_size(*db, state->0.start_key@, state->0.end_key@, name);
            match r {
                Ok(_) => state is Some && size is Ok && final(sizes)@ == old(sizes)@.push(
                    (size->Ok_0, region_id),
                ),
                Err(e) => final(sizes)@ == old(sizes)@ && (if state is None {
                    e == CtlError::NoRegionState(region_id)
                } else {
                    size == Err::<u64, CtlError>(e)
                }),
            }
        }),
{
    let state = match find_state(states, region_id) {
        None => return Err(CtlError::NoRegionState(region_id)),
        Some(s) => s,
    };
    match get_region_size(db, state, cf) {
        Err(e) => Err(e),
        Ok(n) => {
            sizes.push((n, region_id));
            Ok(())
        },
    }
}

/// The sizes of all regions of a store, each with its region.
pub open spec fn all_sized(
    db: Db,
    states: Seq<(u64, RegionLocalState)>,
    cf: Option<Seq<char>>,
) -> Result<Seq<(u64, u64)>, CtlError> {
    match region_ids(meta_rows(db.raft@)) {
        Err(e) => Err(e),
        Ok(ids) => sized_regions(db, ids, states, cf),
    }
}

/// Prints the sizes of all regions of a store, whose states are given.
pub fn dump_all_region_size(
    db: &Db,
    states: &Vec<(u64, RegionLocalState)>,
    cf: Option<&str>,
) -> (r: Result<String, CtlError>)
    ensures
        ({
            let sized = all_sized(
                *db,
                states@,
                match cf {
                    None => None,
                    Some(name) => Some(name@),
                },
            );
            match r {
                Ok(t) => sized is Ok && total_size(sized->Ok_0) <= u64::MAX && is_sizes_report(
                    t@,
                    sized->Ok_0,
                ),
                Err(e) => sized == Err::<Seq<(u64, u64)>, CtlError>(e) || (sized is Ok
                    && total_size(sized->Ok_0) > u64::MAX && e == CtlError::SizeOverflow),
            }
        }),
{
    let ghost name = match cf {
        None => None,
        Some(name) => Some(name@),
    };
    let ids = match get_all_region_ids(db) {
        Err(e) => return Err(e),
        Ok(ids) => ids,
    };
    let ghost all = ids@;
    let mut sizes: Vec<(u64, u64)> = Vec::new();
    let mut i: usize = 0;
    assert(all.skip(0) =~= all);
    assert(forall|t: Seq<(u64, u64)>| #[trigger] (sizes@ + t) =~= t);
    while i < ids.len()
        invariant
            i <= ids@.len(),
            all == ids@,
            name == (match cf {
                None => None,
                Some(name) => Some(name@),
            }),
            all_sized(*db, states@, name) == sized_regions(*db, all, states@, name),
            sized_regions(*db, all, states@, name) == match sized_regions(
                *db,
                all.skip(i as int),
                states@,
                name,
            ) {
                Ok(t) => Ok(sizes@ + t),
                Err(e) => Err(e),
            },
        decreases ids.len() - i,
    {
        let ghost rest = all.skip(i as int);
        let ghost prior = sizes@;
        let id: u64 = ids[i];
        assert(rest[0] == id);
        assert(rest.drop_first() =~= all.skip(i + 1));
        match add_region_size(&mut sizes, db, id, states, cf) {
            Err(e) => return Err(e),
            Ok(_) => {},
        }
        proof {
            if let Ok(t) = sized_regions(*db, rest.drop_first(), states@, name) {
                assert(prior + (seq![sizes@.last()] + t) =~= sizes@ + t);
            }
        }
        i += 1;
    }
    assert(sizes@ + Seq::<(u64, u64)>::empty() =~= sizes@);
    print_all_sizes(sizes)
}

/// Whether a region is passed over: one that has left the store, where such are not wanted.
pub open spec fn skips(region_state: Option<RegionLocalState>, skip_tombstone: bool) -> bool {
    skip_tombstone && (region_state matches Some(s) && s.tombstone)
}

/// Whether a region is passed over.
pub fn is_skipped(region_state: &Option<RegionLocalState>, skip_tombstone: bool) -> (r: bool)
    ensures
        r == skips(*region_state, skip_tombstone),
{
    match region_state {
        None => false,
        Some(s) => skip_tombstone && s.tombstone,
    }
}

/// The text of an optional string.
pub open spec fn opt_text(s: Option<String>) -> Option<Seq<char>> {
    match s {
        None => None,
        Some(t) => Some(t@),
    }
}

/// What is printed of one region: the keys of its states, and the states.
pub open spec fn info_text(info: RegionInfo) -> Seq<char> {
    "region state key: "@ + escape::escaped(
        keys::region_meta_spec(info.region_id, keys::REGION_STATE_SUFFIX),
    ) + "\nregion state: "@ + text::optional(
        match info.region_state {
            None => None,
            Some(s) => Some(s.text@),
        },
    ) + "\nraft state key: "@ + escape::escaped(
        keys::region_raft_spec(info.region_id, keys::RAFT_STATE_SUFFIX),
    ) + "\nraft state: "@ + text::optional(opt_text(info.raft_state)) + "\napply state key: "@
        + escape::escaped(keys::region_raft_spec(info.region_id, keys::APPLY_STATE_SUFFIX))
        + "\napply state: "@ + text::optional(opt_text(info.apply_state)) + "\n"@
}

/// What is printed of one region, nothing where it is passed over.
pub open spec fn region_info_text(info: RegionInfo, skip_tombstone: bool) -> Seq<char> {
    if skips(info.region_state, skip_tombstone) {
        Seq::empty()
    } else {
        info_text(info)
    }
}

/// What is known of a region among `infos`; of a region that is not there nothing is.
pub open spec fn info_of(infos: Seq<RegionInfo>, region_id: u64) -> RegionInfo
    decreases infos.len(),
{
    if infos.len() == 0 {
        RegionInfo { region_id, region_state: None, raft_state: None, apply_state: None }
    } else if infos[0].region_id == region_id {
        infos[0]
    } else {
        info_of(infos.drop_first(), region_id)
    }
}

/// What is printed of regions.
pub open spec fn region_infos_text(
    ids: Seq<u64>,
    infos: Seq<RegionInfo>,
    skip_tombstone: bool,
) -> Seq<char>
    decreases ids.len(),
{
    if ids.len() == 0 {
        Seq::empty()
    } else {
        region_info_text(info_of(infos, ids[0]), skip_tombstone) + region_infos_text(
            ids.drop_first(),
            infos,
            skip_tombstone,
        )
    }
}

fn push_opt(out: &mut String, s: &Option<String>)
    ensures
        final(out)@ == old(out)@ + text::optional(opt_text(*s)),
{
    match s {
        None => text::push_optional(out, None),
        Some(t) => text::push_optional(out, Some(t.as_str())),
    }
}

/// Prints the states of one region.
pub fn dump_region_info(info: &RegionInfo, skip_tombstone: bool) -> (r: String)
    ensures
        r@ == region_info_text(*info, skip_tombstone),
{
    let mut out = String::new();
    if is_skipped(&info.region_state, skip_tombstone) {
        return out;
    }
    out.append("region state key: ");
    escape::push_escaped(&mut out, keys::region_state_key(info.region_id).as_slice());
    out.append("\nregion state: ");
    match &info.region_state {
        None => text::push_optional(&mut out, None),
        Some(s) => text::push_optional(&mut out, Some(s.text.as_str())),
    }
    out.append("\nraft state key: ");
    escape::push_escaped(&mut out, keys::raft_state_key(info.region_id).as_slice());
    out.append("\nraft state: ");
    push_opt(&mut out, &info.raft_state);
    out.append("\napply state key: ");
    escape::push_escaped(&mut out, keys::apply_state_key(info.region_id).as_slice());
    out.append("\napply state: ");
    push_opt(&mut out, &info.apply_state);
    out.append("\n");
    assert(out@ =~= info_text(*info));
    out
}

fn print_info_of(infos: &Vec<RegionInfo>, region_id: u64, skip_tombstone: bool) -> (r: String)
    ensures
        r@ == region_info_text(info_of(infos@, region_id), skip_tombstone),
{
    let mut i: usize = 0;
    assert(infos@.skip(0) =~= infos@);
    while i < infos.len()
        invariant
            i <= infos@.len(),
            info_of(infos@, region_id) == info_of(infos@.skip(i as int), region_id),
        decreases infos.len() - i,
    {
        let ghost rest = infos@.skip(i as int);
        assert(rest[0] == infos@[i as int]);
        assert(rest.drop_first() =~= infos@.skip(i + 1));
        if infos[i].region_id == region_id {
            return dump_region_info(&infos[i], skip_tombstone);
        }
        i += 1;
    }
    let nothing = RegionInfo {
        region_id,
        region_state: None,
        raft_state: None,
        apply_state: None,
    };
    dump_region_info(&nothing, skip_tombstone)
}

/// Prints the states of all regions of a store, of which `infos` are given.
pub fn dump_all_region_info(db: &Db, infos: &Vec<RegionInfo>, skip_tombstone: bool) -> (r: Result<
    String,
    CtlError,
>)
    ensures
        match region_ids(meta_rows(db.raft@)) {
            Err(e) => r == Err::<String, CtlError>(e),
            Ok(ids) => r is Ok && r->Ok_0@ == region_infos_text(ids, infos@, skip_tombstone),
        },
{
    let ids = match get_all_region_ids(db) {
        Err(e) => return Err(e),
        Ok(ids) => ids,
    };
    let mut out = String::new();
    let ghost all = ids@;
    let mut i: usize = 0;
    assert(all.skip(0) =~= all);
    assert(out@ + region_infos_text(all, infos@, skip_tombstone) =~= region_infos_text(
        all,
        infos@,
        skip_tombstone,
    ));
    while i < ids.len()
        invariant
            i <= ids@.len(),
            all == ids@,
            region_infos_text(all, infos@, skip_tombstone) == out@ + region_infos_text(
                all.skip(i as int),
                infos@,
                skip_tombstone,
            ),
        decreases ids.len() - i,
    {
        let ghost rest = all.skip(i as int);
        let ghost prior = out@;
        assert(rest[0] == all[i as int]);
        assert(rest.drop_first() =~= all.skip(i + 1));
        let t = print_info_of(infos, ids[i], skip_tombstone);
        out.append(t.as_str());
        assert(prior + (t@ + region_infos_text(all.skip(i + 1), infos@, skip_tombstone)) =~= out@
            + region_infos_text(all.skip(i + 1), infos@, skip_tombstone));
        i += 1;
    }
    assert(out@ + Seq::<char>::empty() =~= out@);
    Ok(out)
}

} // verus!
