//! What holds of every search for versions.
use vstd::prelude::*;

use crate::bytes;
use crate::codec;
use crate::codec::CodecError;
use crate::escape;
use crate::keys;
use crate::mvcc;
use crate::mvcc::MvccDeserializable;
use crate::store;
use crate::store_laws;
use crate::types;

verus! {

/// Whether `found` holds the rows of `rows`, in their order, without the mark of user data and with
/// the values read.
pub open spec fn reads<T: MvccDeserializable>(
    found: Seq<(Seq<u8>, T::V)>,
    rows: Seq<(Seq<u8>, Seq<u8>)>,
) -> bool {
    &&& found.len() == rows.len()
    &&& forall|i: int|
        0 <= i < rows.len() ==> {
            &&& rows[i].0 == keys::data_key_spec((#[trigger] found[i]).0)
            &&& T::parsed(rows[i].1) == Ok::<T::V, types::MvccError>(found[i].1)
        }
}

/// The rows of `rows` whose keys start with `p`.
pub open spec fn with_prefix(rows: Seq<(Seq<u8>, Seq<u8>)>, p: Seq<u8>) -> Seq<
    (Seq<u8>, Seq<u8>),
> {
    rows.filter(|r: (Seq<u8>, Seq<u8>)| p.is_prefix_of(r.0))
}

/// A filter decides on the first item and leaves the rest to itself.
pub proof fn filter_step<A>(s: Seq<A>, pred: spec_fn(A) -> bool)
    requires
        s.len() > 0,
    ensures
        s.filter(pred) == (if pred(s[0]) {
            seq![s[0]]
        } else {
            Seq::empty()
        }) + s.drop_first().filter(pred),
        !pred(s[0]) ==> s.filter(pred) == s.drop_first().filter(pred),
        pred(s[0]) ==> s.filter(pred).len() > 0 && s.filter(pred)[0] == s[0] && s.filter(
            pred,
        ).drop_first() == s.drop_first().filter(pred),
{
    let one = seq![s[0]];
    let rest = s.drop_first();
    assert(s =~= one + rest);
    Seq::filter_distributes_over_add(one, rest, pred);
    reveal_with_fuel(Seq::filter, 2);
    assert(one.drop_last() =~= Seq::empty());
    if pred(s[0]) {
        assert(one.filter(pred) =~= one);
        assert(s.filter(pred).drop_first() =~= rest.filter(pred));
    } else {
        assert(one.filter(pred) =~= Seq::empty());
        assert(s.filter(pred) =~= rest.filter(pred));
    }
}

/// A filter leaves nothing of nothing.
pub proof fn filter_of_nothing<A>(s: Seq<A>, pred: spec_fn(A) -> bool)
    requires
        s.len() == 0,
    ensures
        s.filter(pred) == s,
{
    reveal(Seq::filter);
    assert(s.filter(pred) =~= s);
}

proof fn with_prefix_step(rows: Seq<(Seq<u8>, Seq<u8>)>, p: Seq<u8>)
    requires
        rows.len() > 0,
    ensures
        with_prefix(rows, p) == (if p.is_prefix_of(rows[0].0) {
            seq![rows[0]]
        } else {
            Seq::empty()
        }) + with_prefix(rows.drop_first(), p),
{
    filter_step(rows, |r: (Seq<u8>, Seq<u8>)| p.is_prefix_of(r.0));
}

proof fn none_with_prefix(rows: Seq<(Seq<u8>, Seq<u8>)>, p: Seq<u8>)
    requires
        forall|i: int| 0 <= i < rows.len() ==> !p.is_prefix_of((#[trigger] rows[i]).0),
    ensures
        with_prefix(rows, p) == Seq::<(Seq<u8>, Seq<u8>)>::empty(),
    decreases rows.len(),
{
    if rows.len() == 0 {
        reveal(Seq::filter);
        assert(with_prefix(rows, p) =~= Seq::empty());
    } else {
        with_prefix_step(rows, p);
        assert forall|i: int| 0 <= i < rows.drop_first().len() implies !p.is_prefix_of(
            (#[trigger] rows.drop_first()[i]).0,
        ) by {
            assert(rows.drop_first()[i] == rows[i + 1]);
        }
        none_with_prefix(rows.drop_first(), p);
        assert(!p.is_prefix_of(rows[0].0));
        assert(with_prefix(rows, p) =~= Seq::empty());
    }
}

proof fn data_prefix(p: Seq<u8>, key: Seq<u8>)
    requires
        key.len() > 0,
        key[0] == keys::DATA_PREFIX,
    ensures
        p.is_prefix_of(key.skip(1)) <==> keys::data_key_spec(p).is_prefix_of(key),
        keys::data_key_spec(key.skip(1)) == key,
{
    let d = keys::data_key_spec(p);
    assert(keys::data_key_spec(key.skip(1)) =~= key);
    if p.is_prefix_of(key.skip(1)) {
        assert(d =~= key.subrange(0, d.len() as int)) by {
            assert forall|i: int| 0 < i < d.len() implies d[i] == key[i] by {
                assert(key.skip(1).subrange(0, p.len() as int)[i - 1] == key[i]);
            }
        }
    }
    if d.is_prefix_of(key) {
        assert(p =~= key.skip(1).subrange(0, p.len() as int)) by {
            assert forall|i: int| 0 <= i < p.len() implies p[i] == key[i + 1] by {
                assert(key.subrange(0, d.len() as int)[i + 1] == d[i + 1]);
            }
        }
    }
}

proof fn versions_of_block<T: MvccDeserializable>(rows: Seq<(Seq<u8>, Seq<u8>)>, p: Seq<u8>)
    requires
        store::ascending(rows),
        forall|i: int|
            0 <= i < rows.len() ==> !bytes::less((#[trigger] rows[i]).0, keys::data_key_spec(p)),
        mvcc::versions::<T>(rows, p) is Ok,
    ensures
        reads::<T>(
            mvcc::versions::<T>(rows, p)->Ok_0,
            with_prefix(rows, keys::data_key_spec(p)),
        ),
    decreases rows.len(),
{
    let d = keys::data_key_spec(p);
    if rows.len() == 0 {
        none_with_prefix(rows, d);
    } else {
        let rest = rows.drop_first();
        data_prefix(p, rows[0].0);
        if p.is_prefix_of(rows[0].0.skip(1)) {
            store_laws::rest_ascending(rows);
            assert forall|i: int| 0 <= i < rest.len() implies !bytes::less(
                (#[trigger] rest[i]).0,
                d,
            ) by {
                assert(rest[i] == rows[i + 1]);
            }
            versions_of_block::<T>(rest, p);
            with_prefix_step(rows, d);
            let found = mvcc::versions::<T>(rows, p)->Ok_0;
            let tail = mvcc::versions::<T>(rest, p)->Ok_0;
            let block = with_prefix(rows, d);
            assert forall|i: int| 0 <= i < block.len() implies {
                &&& block[i].0 == keys::data_key_spec((#[trigger] found[i]).0)
                &&& T::parsed(block[i].1) == Ok::<T::V, types::MvccError>(found[i].1)
            } by {
                if i > 0 {
                    assert(found[i] == tail[i - 1]);
                    assert(block[i] == with_prefix(rest, d)[i - 1]);
                }
            }
        } else {
            assert forall|i: int| 0 <= i < rows.len() implies !d.is_prefix_of(
                (#[trigger] rows[i]).0,
            ) by {
                if i > 0 {
                    bytes::prefix_block_ends(d, rows[0].0, rows[i].0);
                }
            }
            none_with_prefix(rows, d);
        }
    }
}

/// Every row of the table whose key starts with the searched prefix is found, no other row is, and
/// they come in the order of the table.
pub proof fn search_is_complete<T: MvccDeserializable>(
    rows: Seq<(Seq<u8>, Seq<u8>)>,
    prefix: Seq<u8>,
)
    requires
        store::ascending(rows),
        mvcc::found_versions::<T>(Some(rows), Some(prefix)) is Ok,
    ensures
        reads::<T>(
            mvcc::found_versions::<T>(Some(rows), Some(prefix))->Ok_0,
            with_prefix(rows, keys::data_key_spec(prefix)),
        ),
    decreases rows.len(),
{
    let d = keys::data_key_spec(prefix);
    if rows.len() > 0 && bytes::less(rows[0].0, d) {
        store_laws::rest_ascending(rows);
        search_is_complete::<T>(rows.drop_first(), prefix);
        with_prefix_step(rows, d);
        if d.is_prefix_of(rows[0].0) {
            bytes::prefix_comes_first(d, rows[0].0);
        }
        assert(with_prefix(rows, d) =~= with_prefix(rows.drop_first(), d));
    } else {
        assert forall|i: int| 0 <= i < rows.len() implies !bytes::less((#[trigger] rows[i]).0, d)
            by {
            if i > 0 && bytes::less(rows[i].0, d) {
                bytes::less_transitive(rows[0].0, rows[i].0, d);
            }
        }
        versions_of_block::<T>(rows, prefix);
    }
}

proof fn versions_have_prefix<T: MvccDeserializable>(
    rows: Seq<(Seq<u8>, Seq<u8>)>,
    prefix: Seq<u8>,
)
    requires
        mvcc::versions::<T>(rows, prefix) is Ok,
    ensures
        forall|i: int|
            0 <= i < mvcc::versions::<T>(rows, prefix)->Ok_0.len() ==> prefix.is_prefix_of(
                (#[trigger] mvcc::versions::<T>(rows, prefix)->Ok_0[i]).0,
            ),
    decreases rows.len(),
{
    if rows.len() > 0 && prefix.is_prefix_of(rows[0].0.skip(1)) {
        let rest = rows.drop_first();
        versions_have_prefix::<T>(rest, prefix);
        let found = mvcc::versions::<T>(rows, prefix)->Ok_0;
        let tail = mvcc::versions::<T>(rest, prefix)->Ok_0;
        assert forall|i: int| 0 <= i < found.len() implies prefix.is_prefix_of(
            (#[trigger] found[i]).0,
        ) by {
            if i > 0 {
                assert(found[i] == tail[i - 1]);
            }
        }
    }
}

/// A search for a key that is not encoded finds versions of that very key and of no other.
pub proof fn plain_search_finds_one_key<T: MvccDeserializable>(
    rows: Seq<(Seq<u8>, Seq<u8>)>,
    key_prefix: Seq<char>,
    key: Seq<u8>,
)
    requires
        escape::unescaped(vstd::utf8::encode_utf8(key_prefix)) == Some(key),
        mvcc::found_versions::<T>(Some(rows), mvcc::scan_prefix(key_prefix, false)) is Ok,
    ensures
        forall|i: int|
            0 <= i < mvcc::found_versions::<T>(
                Some(rows),
                mvcc::scan_prefix(key_prefix, false),
            )->Ok_0.len() ==> codec::decoded_bytes(
                (#[trigger] mvcc::found_versions::<T>(
                    Some(rows),
                    mvcc::scan_prefix(key_prefix, false),
                )->Ok_0[i]).0,
            ) == Ok::<Seq<u8>, CodecError>(key),
{
    let p = codec::encoded_bytes(key);
    let from = store::seeked(rows, keys::data_key_spec(p));
    let found = mvcc::versions::<T>(from, p)->Ok_0;
    versions_have_prefix::<T>(from, p);
    assert forall|i: int| 0 <= i < found.len() implies codec::decoded_bytes((#[trigger] found[i]).0)
        == Ok::<Seq<u8>, CodecError>(key) by {
        let k = found[i].0;
        assert(k =~= p + k.skip(p.len() as int));
        codec::decode_undoes_encode(key, k.skip(p.len() as int));
    }
}

/// Searching for a key, and searching for its encoded form as already encoded, is the same search.
pub proof fn encoded_search_is_the_same(key_prefix: Seq<char>, key: Seq<u8>)
    requires
        escape::unescaped(vstd::utf8::encode_utf8(key_prefix)) == Some(key),
    ensures
        mvcc::scan_prefix(escape::escaped(codec::encoded_bytes(key)), true) == mvcc::scan_prefix(
            key_prefix,
            false,
        ),
{
    escape::unescape_undoes_escape(codec::encoded_bytes(key));
}

/// Filtering plain versions by their start prints what the matching versions alone print.
pub proof fn default_filter(kvs: Seq<(Seq<u8>, Seq<u8>)>, start_ts: u64)
    requires
        mvcc::default_text(kvs, None) is Ok,
    ensures
        mvcc::default_text(kvs, Some(start_ts)) == mvcc::default_text(
            kvs.filter(
                |kv: (Seq<u8>, Seq<u8>)| types::ts_of(kv.0) == Ok::<u64, CodecError>(start_ts),
            ),
            None,
        ),
    decreases kvs.len(),
{
    let pred = |kv: (Seq<u8>, Seq<u8>)| types::ts_of(kv.0) == Ok::<u64, CodecError>(start_ts);
    if kvs.len() == 0 {
        filter_of_nothing(kvs, pred);
    } else {
        filter_step(kvs, pred);
        default_filter(kvs.drop_first(), start_ts);
    }
}

/// Filtering locks by their start prints what the matching locks alone print.
pub proof fn lock_filter(kvs: Seq<(Seq<u8>, types::LockView)>, start_ts: u64)
    ensures
        mvcc::lock_text(kvs, Some(start_ts)) == mvcc::lock_text(
            kvs.filter(|kv: (Seq<u8>, types::LockView)| kv.1.ts == start_ts),
            None,
        ),
    decreases kvs.len(),
{
    let pred = |kv: (Seq<u8>, types::LockView)| kv.1.ts == start_ts;
    if kvs.len() == 0 {
        filter_of_nothing(kvs, pred);
    } else {
        filter_step(kvs, pred);
        lock_filter(kvs.drop_first(), start_ts);
    }
}

/// Filtering write records by their start and their commit prints what the matching records alone
/// print; a missing filter matches every record.
pub proof fn write_filter(
    kvs: Seq<(Seq<u8>, types::WriteView)>,
    start_ts: Option<u64>,
    commit_ts: Option<u64>,
)
    requires
        mvcc::write_text(kvs, None, None) is Ok,
    ensures
        mvcc::write_text(kvs, start_ts, commit_ts) == mvcc::write_text(
            kvs.filter(
                |kv: (Seq<u8>, types::WriteView)|
                    mvcc::selects(start_ts, kv.1.start_ts) && mvcc::selects(
                        commit_ts,
                        types::ts_of(kv.0)->Ok_0,
                    ),
            ),
            None,
            None,
        ),
    decreases kvs.len(),
{
    let pred = |kv: (Seq<u8>, types::WriteView)|
        mvcc::selects(start_ts, kv.1.start_ts) && mvcc::selects(
            commit_ts,
            types::ts_of(kv.0)->Ok_0,
        );
    if kvs.len() == 0 {
        filter_of_nothing(kvs, pred);
    } else {
        filter_step(kvs, pred);
        write_filter(kvs.drop_first(), start_ts, commit_ts);
    }
}

} // verus!
