//! The order of keys: their stored forms sort as they do, and the newest version of a key comes first.
use vstd::prelude::*;

use crate::bytes;
use crate::codec;
use crate::keys;
use crate::types;

verus! {

/// Where two byte strings differ first, or where the shorter of them ends.
spec fn difference(a: Seq<u8>, b: Seq<u8>) -> nat
    decreases a.len(),
{
    if a.len() > 0 && b.len() > 0 && a[0] == b[0] {
        difference(a.drop_first(), b.drop_first()) + 1
    } else {
        0
    }
}

/// Whether the order of two byte strings is decided at `k`, where `a` is the smaller or ends.
spec fn decided_at(a: Seq<u8>, b: Seq<u8>, k: int) -> bool {
    &&& 0 <= k <= a.len()
    &&& k < b.len()
    &&& forall|i: int| 0 <= i < k ==> #[trigger] a[i] == b[i]
    &&& k == a.len() || a[k] < b[k]
}

proof fn less_where_decided(a: Seq<u8>, b: Seq<u8>, k: int)
    requires
        decided_at(a, b, k),
    ensures
        bytes::less(a, b),
    decreases k,
{
    if k > 0 {
        let (x, y) = (a.drop_first(), b.drop_first());
        assert(a[0] == b[0]);
        assert forall|i: int| 0 <= i < k - 1 implies #[trigger] x[i] == y[i] by {
            assert(a[i + 1] == b[i + 1]);
        }
        less_where_decided(x, y, k - 1);
    }
}

proof fn decided_where_less(a: Seq<u8>, b: Seq<u8>)
    requires
        bytes::less(a, b),
    ensures
        decided_at(a, b, difference(a, b) as int),
    decreases a.len(),
{
    if a.len() > 0 && b.len() > 0 && a[0] == b[0] {
        let (x, y) = (a.drop_first(), b.drop_first());
        decided_where_less(x, y);
        assert forall|i: int| 0 <= i < difference(a, b) implies #[trigger] a[i] == b[i] by {
            if i > 0 {
                assert(x[i - 1] == y[i - 1]);
            }
        }
    }
}

/// What two byte strings have in front in common does not matter for their order.
proof fn common_front(front: Seq<u8>, a: Seq<u8>, b: Seq<u8>)
    requires
        bytes::less(a, b),
    ensures
        bytes::less(front + a, front + b),
{
    decided_where_less(a, b);
    let k = difference(a, b) as int;
    let (x, y) = (front + a, front + b);
    assert forall|i: int| 0 <= i < front.len() + k implies #[trigger] x[i] == y[i] by {
        if i >= front.len() {
            assert(a[i - front.len()] == b[i - front.len()]);
        }
    }
    less_where_decided(x, y, front.len() + k);
}

/// The bytes of the first group of a form, with its marker.
spec fn group(key: Seq<u8>, i: int) -> u8 {
    if i == 8 {
        if key.len() < 8 {
            (247 + key.len()) as u8
        } else {
            255
        }
    } else if i < key.len() {
        key[i]
    } else {
        0
    }
}

proof fn first_group(key: Seq<u8>, i: int)
    requires
        0 <= i <= 8,
    ensures
        codec::encoded_bytes(key).len() >= 9,
        codec::encoded_bytes(key)[i] == group(key, i),
{
}

proof fn encoding_ascends(a: Seq<u8>, b: Seq<u8>)
    requires
        bytes::less(a, b),
    ensures
        bytes::less(codec::encoded_bytes(a), codec::encoded_bytes(b)),
    decreases a.len(),
{
    let (x, y) = (codec::encoded_bytes(a), codec::encoded_bytes(b));
    let k = difference(a, b) as int;
    decided_where_less(a, b);
    assert forall|i: int| 0 <= i <= 8 implies x.len() >= 9 && y.len() >= 9 && #[trigger] x[i]
        == group(a, i) && y[i] == group(b, i) by {
        first_group(a, i);
        first_group(b, i);
    }
    assert(x[0] == group(a, 0));
    if k >= 8 {
        let (p, q) = (a.skip(8), b.skip(8));
        assert forall|i: int| 0 <= i < k - 8 implies #[trigger] p[i] == q[i] by {
            assert(a[i + 8] == b[i + 8]);
        }
        less_where_decided(p, q, k - 8);
        encoding_ascends(p, q);
        assert(a.take(8) =~= b.take(8));
        common_front(
            a.take(8) + seq![255u8],
            codec::encoded_bytes(p),
            codec::encoded_bytes(q),
        );
    } else if k < a.len() {
        assert forall|i: int| 0 <= i < k implies #[trigger] x[i] == y[i] by {
            assert(a[i] == b[i]);
        }
        assert(x[k] == a[k] && y[k] == b[k]);
        less_where_decided(x, y, k);
    } else if exists|j: int| k <= j < 8 && #[trigger] group(b, j) != 0 {
        let j = first_nonzero(b, k);
        assert forall|i: int| 0 <= i < j implies #[trigger] x[i] == y[i] by {
            if i < k {
                assert(a[i] == b[i]);
            }
        }
        assert(x[j] == 0 && y[j] != 0);
        less_where_decided(x, y, j);
    } else {
        assert forall|i: int| 0 <= i < 8 implies #[trigger] x[i] == y[i] by {
            if i < k {
                assert(a[i] == b[i]);
            } else {
                assert(group(b, i) == 0);
            }
        }
        assert(x[8] == 247 + k);
        assert(y[8] > 247 + k);
        less_where_decided(x, y, 8);
    }
}

proof fn first_nonzero(b: Seq<u8>, k: int) -> (j: int)
    requires
        0 <= k < 8,
        exists|j: int| k <= j < 8 && #[trigger] group(b, j) != 0,
    ensures
        k <= j < 8,
        group(b, j) != 0,
        forall|i: int| k <= i < j ==> #[trigger] group(b, i) == 0,
    decreases 8 - k,
{
    if group(b, k) != 0 {
        k
    } else {
        let some = choose|j: int| k <= j < 8 && #[trigger] group(b, j) != 0;
        assert(some != k);
        first_nonzero(b, k + 1)
    }
}

/// The stored forms of two keys are in the order of the keys.
pub proof fn encoding_keeps_the_order(a: Seq<u8>, b: Seq<u8>)
    ensures
        bytes::less(codec::encoded_bytes(a), codec::encoded_bytes(b)) <==> bytes::less(a, b),
{
    let (x, y) = (codec::encoded_bytes(a), codec::encoded_bytes(b));
    if bytes::less(a, b) {
        encoding_ascends(a, b);
    } else if bytes::less(x, y) {
        bytes::less_total(a, b);
        bytes::less_irreflexive(x);
        if bytes::less(b, a) {
            encoding_ascends(b, a);
            bytes::less_transitive(x, y, x);
        }
    }
}

proof fn numbers_ascend(a: u64, b: u64)
    requires
        a < b,
    ensures
        bytes::less(codec::be_bytes(a), codec::be_bytes(b)),
{
    assert(((a >> 56) as u8) < ((b >> 56) as u8) || (((a >> 56) as u8) == ((b >> 56) as u8) && (
        ((a >> 48) as u8) < ((b >> 48) as u8) || (((a >> 48) as u8) == ((b >> 48) as u8) && (
        ((a >> 40) as u8) < ((b >> 40) as u8) || (((a >> 40) as u8) == ((b >> 40) as u8) && (
        ((a >> 32) as u8) < ((b >> 32) as u8) || (((a >> 32) as u8) == ((b >> 32) as u8) && (
        ((a >> 24) as u8) < ((b >> 24) as u8) || (((a >> 24) as u8) == ((b >> 24) as u8) && (
        ((a >> 16) as u8) < ((b >> 16) as u8) || (((a >> 16) as u8) == ((b >> 16) as u8) && (
        ((a >> 8) as u8) < ((b >> 8) as u8) || (((a >> 8) as u8) == ((b >> 8) as u8) && (
        (a as u8) < (b as u8)))))))))))))))) by (bit_vector)
        requires
            a < b,
    ;
    let (x, y) = (codec::be_bytes(a), codec::be_bytes(b));
    if x[0] < y[0] {
        less_where_decided(x, y, 0);
    } else if x[1] < y[1] {
        less_where_decided(x, y, 1);
    } else if x[2] < y[2] {
        less_where_decided(x, y, 2);
    } else if x[3] < y[3] {
        less_where_decided(x, y, 3);
    } else if x[4] < y[4] {
        less_where_decided(x, y, 4);
    } else if x[5] < y[5] {
        less_where_decided(x, y, 5);
    } else if x[6] < y[6] {
        less_where_decided(x, y, 6);
    } else {
        less_where_decided(x, y, 7);
    }
}

/// The bytes of two numbers, the most significant first, are in the order of the numbers.
pub proof fn number_bytes_keep_the_order(a: u64, b: u64)
    ensures
        bytes::less(codec::be_bytes(a), codec::be_bytes(b)) <==> a < b,
{
    let (x, y) = (codec::be_bytes(a), codec::be_bytes(b));
    bytes::less_irreflexive(x);
    if a < b {
        numbers_ascend(a, b);
    } else if b < a {
        numbers_ascend(b, a);
        if bytes::less(x, y) {
            bytes::less_transitive(x, y, x);
        }
    }
}

/// Of two versions of a key the later one comes first.
pub proof fn newest_version_comes_first(key: Seq<u8>, ts1: u64, ts2: u64)
    ensures
        bytes::less(types::at_ts(key, ts1), types::at_ts(key, ts2)) <==> ts1 > ts2,
{
    let (x, y) = (types::at_ts(key, ts1), types::at_ts(key, ts2));
    assert(!ts1 < !ts2 <==> ts1 > ts2) by (bit_vector);
    assert(!ts2 < !ts1 <==> ts2 > ts1) by (bit_vector);
    number_bytes_keep_the_order(!ts1, !ts2);
    number_bytes_keep_the_order(!ts2, !ts1);
    bytes::less_irreflexive(x);
    if ts1 > ts2 {
        common_front(key, codec::desc_bytes(ts1), codec::desc_bytes(ts2));
    } else if ts2 > ts1 {
        common_front(key, codec::desc_bytes(ts2), codec::desc_bytes(ts1));
        if bytes::less(x, y) {
            bytes::less_transitive(x, y, x);
        }
    }
}

/// The entries of one raft log are in the order of their places, and those of two regions in the
/// order of the regions.
pub proof fn raft_logs_are_in_order(region1: u64, index1: u64, region2: u64, index2: u64)
    ensures
        bytes::less(
            keys::raft_log_spec(region1, index1),
            keys::raft_log_spec(region2, index2),
        ) <==> region1 < region2 || (region1 == region2 && index1 < index2),
{
    raft_logs_ascend(region1, index1, region2, index2);
    raft_logs_ascend(region2, index2, region1, index1);
    let (x, y) = (keys::raft_log_spec(region1, index1), keys::raft_log_spec(region2, index2));
    bytes::less_irreflexive(x);
    if bytes::less(x, y) && bytes::less(y, x) {
        bytes::less_transitive(x, y, x);
    }
}

proof fn raft_logs_ascend(region1: u64, index1: u64, region2: u64, index2: u64)
    ensures
        region1 < region2 || (region1 == region2 && index1 < index2) ==> bytes::less(
            keys::raft_log_spec(region1, index1),
            keys::raft_log_spec(region2, index2),
        ),
{
    let (x, y) = (keys::raft_log_spec(region1, index1), keys::raft_log_spec(region2, index2));
    if region1 < region2 {
        let (p, q) = (codec::be_bytes(region1), codec::be_bytes(region2));
        numbers_ascend(region1, region2);
        decided_where_less(p, q);
        let k = difference(p, q) as int;
        assert forall|i: int| 0 <= i < k + 2 implies #[trigger] x[i] == y[i] by {
            if i >= 2 {
                assert(p[i - 2] == q[i - 2]);
            }
        }
        assert(x[k + 2] == p[k] && y[k + 2] == q[k]);
        less_where_decided(x, y, k + 2);
    } else if region1 == region2 && index1 < index2 {
        numbers_ascend(index1, index2);
        let front = x.take(11);
        assert(x =~= front + codec::be_bytes(index1));
        assert(y =~= front + codec::be_bytes(index2));
        common_front(front, codec::be_bytes(index1), codec::be_bytes(index2));
    }
}

proof fn region_keys_ascend(region1: u64, region2: u64, suffix: u8)
    requires
        region1 < region2,
    ensures
        bytes::less(
            keys::region_meta_spec(region1, suffix),
            keys::region_meta_spec(region2, suffix),
        ),
{
    let (x, y) = (keys::region_meta_spec(region1, suffix), keys::region_meta_spec(region2, suffix));
    let (p, q) = (codec::be_bytes(region1), codec::be_bytes(region2));
    numbers_ascend(region1, region2);
    decided_where_less(p, q);
    let k = difference(p, q) as int;
    assert forall|i: int| 0 <= i < k + 2 implies #[trigger] x[i] == y[i] by {
        if i >= 2 {
            assert(p[i - 2] == q[i - 2]);
        }
    }
    assert(x[k + 2] == p[k] && y[k + 2] == q[k]);
    less_where_decided(x, y, k + 2);
}

/// The metadata of regions is in the order of the regions.
pub proof fn region_keys_are_in_order(region1: u64, region2: u64, suffix: u8)
    ensures
        bytes::less(
            keys::region_meta_spec(region1, suffix),
            keys::region_meta_spec(region2, suffix),
        ) <==> region1 < region2,
{
    let (x, y) = (keys::region_meta_spec(region1, suffix), keys::region_meta_spec(region2, suffix));
    bytes::less_irreflexive(x);
    if region1 < region2 {
        region_keys_ascend(region1, region2, suffix);
    } else if region2 < region1 {
        region_keys_ascend(region2, region1, suffix);
        if bytes::less(x, y) {
            bytes::less_transitive(x, y, x);
        }
    }
}

} // verus!
