//! Comparison of the keys that two stores hold of a region.
use vstd::prelude::*;

use crate::bytes;
use crate::error::CtlError;
use crate::escape;
use crate::keys;
use crate::region::RegionLocalState;
use crate::store;
use crate::store::{Db, Table};
use crate::text;
use crate::types;

verus! {

broadcast use vstd::string::group_string_axioms;

/// One of the two stores that are compared.
#[derive(Clone, Copy, Debug, PartialEq, Eq, Structural)]
pub enum Side {
    First,
    Second,
}

/// What walking through two lists of keys in step comes to: the keys that only one of them has, in
/// the order in which they are met, and what is left of each list when the other has ended.
#[verifier::ext_equal]
pub struct Merge {
    pub only: Seq<(Side, Seq<u8>)>,
    pub left_first: Seq<Seq<u8>>,
    pub left_second: Seq<Seq<u8>>,
}

/// A merge with one more key in front that only one list has.
pub open spec fn preceded(side: Side, key: Seq<u8>, m: Merge) -> Merge {
    Merge { only: seq![(side, key)] + m.only, ..m }
}

/// Walks through two lists of keys in step: of two different keys the smaller one is passed.
pub open spec fn merged(a: Seq<Seq<u8>>, b: Seq<Seq<u8>>) -> Merge
    decreases a.len() + b.len(),
{
    if a.len() == 0 || b.len() == 0 {
        Merge { only: Seq::empty(), left_first: a, left_second: b }
    } else if a[0] == b[0] {
        merged(a.drop_first(), b.drop_first())
    } else if bytes::less(b[0], a[0]) {
        preceded(Side::Second, b[0], merged(a, b.drop_first()))
    } else {
        preceded(Side::First, a[0], merged(a.drop_first(), b))
    }
}

/// How many keys two lists have in common at the front.
pub open spec fn common_head(a: Seq<Seq<u8>>, b: Seq<Seq<u8>>) -> nat
    decreases a.len(),
{
    if a.len() > 0 && b.len() > 0 && a[0] == b[0] {
        1 + common_head(a.drop_first(), b.drop_first())
    } else {
        0
    }
}

/// How a store is called in the report.
pub open spec fn only_label(side: Side) -> Seq<char> {
    match side {
        Side::First => "only db1 has : "@,
        Side::Second => "only db2 has : "@,
    }
}

/// The line for a key that only one store has.
pub open spec fn only_line(side: Side, key: Seq<u8>) -> Seq<char> {
    only_label(side) + escape::escaped(key) + "\n"@
}

/// What is printed of a key that only one store has, with its timestamp where it has one.
pub open spec fn only_text(side: Side, key: Seq<u8>, stamps: bool) -> Result<Seq<char>, CtlError> {
    if !stamps {
        Ok(only_line(side, key))
    } else {
        match types::ts_of(key) {
            Err(e) => Err(CtlError::Codec(e)),
            Ok(ts) => Ok(
                only_line(side, key) + ("timestamp: "@ + text::decimal(ts as nat) + "\n"@),
            ),
        }
    }
}

/// What is printed of the keys that only one store has.
pub open spec fn only_texts(only: Seq<(Side, Seq<u8>)>, stamps: bool) -> Result<
    Seq<char>,
    CtlError,
>
    decreases only.len(),
{
    if only.len() == 0 {
        Ok(Seq::empty())
    } else {
        match only_text(only[0].0, only[0].1, stamps) {
            Err(e) => Err(e),
            Ok(t) => match only_texts(only.drop_first(), stamps) {
                Err(e) => Err(e),
                Ok(rest) => Ok(t + rest),
            },
        }
    }
}

/// The line for a key that is left when the other store has ended.
pub open spec fn left_line(side: Side, key: Seq<u8>) -> Seq<char> {
    only_label(side) + text::quoted(escape::escaped(key)) + "\n"@
}

/// What is printed of the keys that are left when the other store has ended.
pub open spec fn left_lines(side: Side, left: Seq<Seq<u8>>) -> Seq<char>
    decreases left.len(),
{
    if left.len() == 0 {
        Seq::empty()
    } else {
        left_line(side, left[0]) + left_lines(side, left.drop_first())
    }
}

/// The line that ends the walk through two stores of which at least one has ended.
pub open spec fn end_text(head: nat, more_first: bool, more_second: bool) -> Seq<char> {
    "head have "@ + text::decimal(head) + " same keys\n"@ + (if !more_first && more_second {
        "iter1 invalid but iter2 valid!\n"@
    } else if more_first && !more_second {
        "iter2 invalid but iter1 valid!\n"@
    } else {
        Seq::empty()
    })
}

/// What is printed of two lists of keys behind the name of their column family.
pub open spec fn keys_diff(a: Seq<Seq<u8>>, b: Seq<Seq<u8>>, stamps: bool) -> Result<
    Seq<char>,
    CtlError,
> {
    let m = merged(a, b);
    match only_texts(m.only, stamps) {
        Err(e) => Err(e),
        Ok(t) => Ok(
            t + end_text(common_head(a, b), m.left_first.len() > 0, m.left_second.len() > 0)
                + left_lines(Side::First, m.left_first) + left_lines(Side::Second, m.left_second),
        ),
    }
}

/// The keys of `rows`.
pub open spec fn row_keys(rows: Seq<(Seq<u8>, Seq<u8>)>) -> Seq<Seq<u8>> {
    Seq::new(rows.len(), |i: int| rows[i].0)
}

/// Whether the keys of a column family end in timestamps.
pub open spec fn has_stamps(cf: Seq<char>) -> bool {
    cf == store::CF_DEFAULT@ || cf == store::CF_WRITE@
}

/// What is printed of one column family of two stores.
pub open spec fn cf_diff(
    cf: Seq<char>,
    rows1: Seq<(Seq<u8>, Seq<u8>)>,
    rows2: Seq<(Seq<u8>, Seq<u8>)>,
    start: Seq<u8>,
    end: Seq<u8>,
) -> Result<Seq<char>, CtlError> {
    match keys_diff(
        row_keys(store::scanned(rows1, start, end)),
        row_keys(store::scanned(rows2, start, end)),
        has_stamps(cf),
    ) {
        Err(e) => Err(e),
        Ok(t) => Ok("cf: "@ + cf + "\n"@ + t),
    }
}

/// Which of two stores has to go on to its next key.
#[derive(Clone, Copy, Debug, PartialEq, Eq, Structural)]
pub enum Advance {
    First,
    Second,
    Both,
}

/// A walk through the keys of two stores in step.
pub struct DiffWalk {
    /// Whether the keys end in timestamps.
    pub stamps: bool,
    /// Whether a key was met that only one store has.
    pub has_diff: bool,
    /// How many keys at the front were the same.
    pub common_head_len: u64,
}

fn push_only(out: &mut String, side: Side, key: &[u8], stamps: bool) -> (r: Result<(), CtlError>)
    ensures
        match r {
            Ok(_) => only_text(side, key@, stamps) is Ok && final(out)@ == old(out)@ + only_text(
                side,
                key@,
                stamps,
            )->Ok_0,
            Err(e) => only_text(side, key@, stamps) == Err::<Seq<char>, CtlError>(e) && final(out)@
                == old(out)@ + only_line(side, key@),
        },
{
    match side {
        Side::First => out.append("only db1 has : "),
        Side::Second => out.append("only db2 has : "),
    }
    escape::push_escaped(out, key);
    out.append("\n");
    assert(out@ =~= old(out)@ + only_line(side, key@));
    if stamps {
        let ts = match types::decode_ts(key) {
            Err(e) => return Err(CtlError::Codec(e)),
            Ok(t) => t,
        };
        out.append("timestamp: ");
        text::push_decimal(out, ts);
        out.append("\n");
        assert(out@ =~= old(out)@ + only_text(side, key@, stamps)->Ok_0);
    }
    Ok(())
}

impl DiffWalk {
    /// The start of a walk through a column family.
    pub fn new(cf: &str) -> (r: DiffWalk)
        ensures
            r.stamps == has_stamps(cf@),
            !r.has_diff,
            r.common_head_len == 0,
    {
        let stamps = text::same_text(cf, store::CF_DEFAULT) || text::same_text(
            cf,
            store::CF_WRITE,
        );
        DiffWalk { stamps, has_diff: false, common_head_len: 0 }
    }

    /// Compares the keys that both stores stand at, and reports the smaller one where they differ.
    pub fn step(&mut self, out: &mut String, key1: &[u8], key2: &[u8]) -> (r: Result<
        Advance,
        CtlError,
    >)
        requires
            old(self).common_head_len < u64::MAX,
        ensures
            final(self).stamps == old(self).stamps,
            match r {
                Ok(Advance::Both) => {
                    &&& key1@ == key2@
                    &&& final(out)@ == old(out)@
                    &&& final(self).has_diff == old(self).has_diff
                    &&& final(self).common_head_len == old(self).common_head_len + (if old(
                        self,
                    ).has_diff {
                        0int
                    } else {
                        1int
                    })
                },
                Ok(Advance::Second) => {
                    &&& bytes::less(key2@, key1@)
                    &&& only_text(Side::Second, key2@, old(self).stamps) is Ok
                    &&& final(out)@ == old(out)@ + only_text(
                        Side::Second,
                        key2@,
                        old(self).stamps,
                    )->Ok_0
                    &&& final(self).has_diff
                    &&& final(self).common_head_len == old(self).common_head_len
                },
                Ok(Advance::First) => {
                    &&& bytes::less(key1@, key2@)
                    &&& only_text(Side::First, key1@, old(self).stamps) is Ok
                    &&& final(out)@ == old(out)@ + only_text(
                        Side::First,
                        key1@,
                        old(self).stamps,
                    )->Ok_0
                    &&& final(self).has_diff
                    &&& final(self).common_head_len == old(self).common_head_len
                },
                Err(e) => {
                    &&& bytes::less(key2@, key1@) ==> only_text(
                        Side::Second,
                        key2@,
                        old(self).stamps,
                    ) == Err::<Seq<char>, CtlError>(e) && final(out)@ == old(out)@ + only_line(
                        Side::Second,
                        key2@,
                    )
                    &&& !bytes::less(key2@, key1@) ==> key1@ != key2@ && only_text(
                        Side::First,
                        key1@,
                        old(self).stamps,
                    ) == Err::<Seq<char>, CtlError>(e) && final(out)@ == old(out)@ + only_line(
                        Side::First,
                        key1@,
                    )
                },
            },
    {
        if bytes::same_bytes(key1, key2) {
            if !self.has_diff {
                self.common_head_len = self.common_head_len + 1;
            }
            return Ok(Advance::Both);
        }
        self.has_diff = true;
        if bytes::is_less(key2, key1) {
            match push_only(out, Side::Second, key2, self.stamps) {
                Err(e) => Err(e),
                Ok(_) => Ok(Advance::Second),
            }
        } else {
            proof {
                bytes::less_total(key1@, key2@);
            }
            match push_only(out, Side::First, key1, self.stamps) {
                Err(e) => Err(e),
                Ok(_) => Ok(Advance::First),
            }
        }
    }

    /// Ends the walk when a store has ended; the flags say which of them has more keys.
    pub fn end(&self, out: &mut String, more_first: bool, more_second: bool)
        ensures
            final(out)@ == old(out)@ + end_text(
                self.common_head_len as nat,
                more_first,
                more_second,
            ),
    {
        out.append("head have ");
        text::push_decimal(out, self.common_head_len);
        out.append(" same keys\n");
        if !more_first && more_second {
            out.append("iter1 invalid but iter2 valid!\n");
        } else if more_first && !more_second {
            out.append("iter2 invalid but iter1 valid!\n");
        }
        assert(out@ =~= old(out)@ + end_text(
            self.common_head_len as nat,
            more_first,
            more_second,
        ));
    }
}

/// Reports a key that is left when the other store has ended.
pub fn push_left(out: &mut String, side: Side, key: &[u8])
    ensures
        final(out)@ == old(out)@ + left_line(side, key@),
{
    match side {
        Side::First => out.append("only db1 has : "),
        Side::Second => out.append("only db2 has : "),
    }
    escape::push_quoted_escaped(out, key);
    out.append("\n");
    assert(out@ =~= old(out)@ + left_line(side, key@));
}

fn push_all_left(out: &mut String, side: Side, table: &Table, from: usize, to: usize)
    requires
        from <= to <= table@.len(),
    ensures
        final(out)@ == old(out)@ + left_lines(
            side,
            row_keys(table@.subrange(from as int, to as int)),
        ),
{
    let ghost before = out@;
    let ghost left = row_keys(table@.subrange(from as int, to as int));
    let mut i: usize = from;
    assert(left.skip(0) =~= left);
    while i < to
        invariant
            from <= i <= to <= table@.len(),
            left == row_keys(table@.subrange(from as int, to as int)),
            before + left_lines(side, left) == out@ + left_lines(side, left.skip(i - from)),
        decreases to - i,
    {
        let ghost prior = out@;
        let ghost rest = left.skip(i - from);
        let row = table.row(i);
        assert(rest[0] == row.key@);
        assert(rest.drop_first() =~= left.skip(i + 1 - from));
        push_left(out, side, row.key.as_slice());
        assert(prior + (left_line(side, rest[0]) + left_lines(side, rest.drop_first())) =~= out@
            + left_lines(side, rest.drop_first()));
        i += 1;
    }
    assert(out@ + Seq::<char>::empty() =~= out@);
}

/// How far a walk has come: what it has printed and counted, and what is ahead of it.
spec fn progress(
    a: Seq<Seq<u8>>,
    b: Seq<Seq<u8>>,
    x: Seq<Seq<u8>>,
    y: Seq<Seq<u8>>,
    out: Seq<char>,
    walk: DiffWalk,
) -> bool {
    &&& merged(a, b).left_first == merged(x, y).left_first
    &&& merged(a, b).left_second == merged(x, y).left_second
    &&& only_texts(merged(a, b).only, walk.stamps) == match only_texts(
        merged(x, y).only,
        walk.stamps,
    ) {
        Ok(t) => Ok(out + t),
        Err(e) => Err(e),
    }
    &&& common_head(a, b) == walk.common_head_len + (if walk.has_diff {
        0
    } else {
        common_head(x, y)
    })
}

proof fn progress_both(
    a: Seq<Seq<u8>>,
    b: Seq<Seq<u8>>,
    x: Seq<Seq<u8>>,
    y: Seq<Seq<u8>>,
    out: Seq<char>,
    walk: DiffWalk,
    next: DiffWalk,
)
    requires
        progress(a, b, x, y, out, walk),
        x.len() > 0,
        y.len() > 0,
        x[0] == y[0],
        next.stamps == walk.stamps,
        next.has_diff == walk.has_diff,
        next.common_head_len == walk.common_head_len + (if walk.has_diff {
            0int
        } else {
            1int
        }),
    ensures
        progress(a, b, x.drop_first(), y.drop_first(), out, next),
{
}

proof fn progress_only(
    side: Side,
    a: Seq<Seq<u8>>,
    b: Seq<Seq<u8>>,
    x: Seq<Seq<u8>>,
    y: Seq<Seq<u8>>,
    out: Seq<char>,
    walk: DiffWalk,
    next: DiffWalk,
)
    requires
        progress(a, b, x, y, out, walk),
        x.len() > 0,
        y.len() > 0,
        side is First ==> bytes::less(x[0], y[0]),
        side is Second ==> bytes::less(y[0], x[0]),
        next.stamps == walk.stamps,
        next.has_diff,
        next.common_head_len == walk.common_head_len,
    ensures
        only_text(
            side,
            if side is First {
                x[0]
            } else {
                y[0]
            },
            walk.stamps,
        ) matches Ok(t) ==> progress(
            a,
            b,
            if side is First {
                x.drop_first()
            } else {
                x
            },
            if side is First {
                y
            } else {
                y.drop_first()
            },
            out + t,
            next,
        ),
        only_text(
            side,
            if side is First {
                x[0]
            } else {
                y[0]
            },
            walk.stamps,
        ) matches Err(e) ==> only_texts(merged(a, b).only, walk.stamps) == Err::<
            Seq<char>,
            CtlError,
        >(e),
{
    bytes::less_irreflexive(x[0]);
    if bytes::less(x[0], y[0]) && bytes::less(y[0], x[0]) {
        bytes::less_transitive(x[0], y[0], x[0]);
    }
    let m = merged(x, y);
    let (key, n) = if side is First {
        (x[0], merged(x.drop_first(), y))
    } else {
        (y[0], merged(x, y.drop_first()))
    };
    assert(m == preceded(side, key, n));
    assert(m.only[0] == (side, key));
    assert(m.only.drop_first() =~= n.only);
    if let Ok(t) = only_text(side, key, walk.stamps) {
        if let Ok(rest) = only_texts(n.only, walk.stamps) {
            assert(out + (t + rest) =~= out + t + rest);
        }
    }
}

/// Compares the rows of two tables from one place up to another.
pub fn diff_tables(
    stamps_of: &str,
    table1: &Table,
    range1: (usize, usize),
    table2: &Table,
    range2: (usize, usize),
) -> (r: Result<String, CtlError>)
    requires
        range1.0 <= range1.1 <= table1@.len(),
        range2.0 <= range2.1 <= table2@.len(),
    ensures
        match r {
            Ok(t) => keys_diff(
                row_keys(table1@.subrange(range1.0 as int, range1.1 as int)),
                row_keys(table2@.subrange(range2.0 as int, range2.1 as int)),
                has_stamps(stamps_of@),
            ) == Ok::<Seq<char>, CtlError>(t@),
            Err(e) => keys_diff(
                row_keys(table1@.subrange(range1.0 as int, range1.1 as int)),
                row_keys(table2@.subrange(range2.0 as int, range2.1 as int)),
                has_stamps(stamps_of@),
            ) == Err::<Seq<char>, CtlError>(e),
        },
{
    let mut walk = DiffWalk::new(stamps_of);
    let mut out = String::new();
    let (from1, to1) = range1;
    let (from2, to2) = range2;
    let ghost a = row_keys(table1@.subrange(from1 as int, to1 as int));
    let ghost b = row_keys(table2@.subrange(from2 as int, to2 as int));
    let ghost stamps = walk.stamps;
    let mut i: usize = from1;
    let mut j: usize = from2;
    assert(a.skip(0) =~= a);
    assert(b.skip(0) =~= b);
    assert(progress(a, b, a, b, out@, walk)) by {
        if let Ok(t) = only_texts(merged(a, b).only, stamps) {
            assert(out@ + t =~= t);
        }
    }
    while i < to1 && j < to2
        invariant
            from1 <= i <= to1 <= table1@.len(),
            from2 <= j <= to2 <= table2@.len(),
            a == row_keys(table1@.subrange(from1 as int, to1 as int)),
            b == row_keys(table2@.subrange(from2 as int, to2 as int)),
            walk.stamps == stamps,
            progress(a, b, a.skip(i - from1), b.skip(j - from2), out@, walk),
            walk.common_head_len <= i - from1,
            stamps == has_stamps(stamps_of@),
            range1 == (from1, to1),
            range2 == (from2, to2),
        decreases to1 - i + to2 - j,
    {
        let ghost x = a.skip(i - from1);
        let ghost y = b.skip(j - from2);
        let ghost prior = out@;
        let ghost before = walk;
        let row1 = table1.row(i);
        let row2 = table2.row(j);
        assert(x[0] == row1.key@);
        assert(y[0] == row2.key@);
        assert(x.drop_first() =~= a.skip(i + 1 - from1));
        assert(y.drop_first() =~= b.skip(j + 1 - from2));
        let step = walk.step(&mut out, row1.key.as_slice(), row2.key.as_slice());
        match step {
            Err(e) => {
                proof {
                    bytes::less_total(x[0], y[0]);
                    let next = DiffWalk { has_diff: true, ..before };
                    if bytes::less(y[0], x[0]) {
                        progress_only(Side::Second, a, b, x, y, prior, before, next);
                    } else {
                        progress_only(Side::First, a, b, x, y, prior, before, next);
                    }
                }
                return Err(e);
            },
            Ok(Advance::Both) => {
                proof {
                    progress_both(a, b, x, y, prior, before, walk);
                }
                i += 1;
                j += 1;
            },
            Ok(Advance::First) => {
                proof {
                    progress_only(Side::First, a, b, x, y, prior, before, walk);
                }
                i += 1;
            },
            Ok(Advance::Second) => {
                proof {
                    progress_only(Side::Second, a, b, x, y, prior, before, walk);
                }
                j += 1;
            },
        }
    }
    let ghost x = a.skip(i - from1);
    let ghost y = b.skip(j - from2);
    assert(x =~= row_keys(table1@.subrange(i as int, to1 as int)));
    assert(y =~= row_keys(table2@.subrange(j as int, to2 as int)));
    assert(out@ + Seq::<char>::empty() =~= out@);
    let ghost t = out@;
    walk.end(&mut out, i < to1, j < to2);
    push_all_left(&mut out, Side::First, table1, i, to1);
    push_all_left(&mut out, Side::Second, table2, j, to2);
    assert(common_head(x, y) == 0);
    assert(out@ =~= t + end_text(
        common_head(a, b),
        merged(a, b).left_first.len() > 0,
        merged(a, b).left_second.len() > 0,
    ) + left_lines(Side::First, merged(a, b).left_first) + left_lines(
        Side::Second,
        merged(a, b).left_second,
    ));
    Ok(out)
}

/// Two texts one behind the other; the first error counts.
pub open spec fn joined(a: Result<Seq<char>, CtlError>, b: Result<Seq<char>, CtlError>) -> Result<
    Seq<char>,
    CtlError,
> {
    match (a, b) {
        (Err(e), _) => Err(e),
        (_, Err(e)) => Err(e),
        (Ok(s), Ok(t)) => Ok(s + t),
    }
}

/// What is printed of the states of a region in two stores.
pub open spec fn diff_header(
    region_id: u64,
    state1: Seq<char>,
    state2: Seq<char>,
    apply1: Seq<char>,
    apply2: Seq<char>,
) -> Seq<char> {
    "region id: "@ + text::decimal(region_id as nat) + "\ndb1 region state: "@ + state1
        + "\ndb2 region state: "@ + state2 + "\ndb1 apply state: "@ + apply1
        + "\ndb2 apply state: "@ + apply2 + "\n"@
}

/// What is printed of a region in two stores: the states, then the keys of each column family
/// within the bounds that the region has in the first store.
pub open spec fn region_diff(
    db1: Db,
    db2: Db,
    header: Seq<char>,
    start_key: Seq<u8>,
    end_key: Seq<u8>,
) -> Result<Seq<char>, CtlError> {
    let start = keys::data_key_spec(start_key);
    let end = keys::data_end_key_spec(end_key);
    joined(
        joined(
            joined(
                joined(
                    Ok(header),
                    cf_diff(store::CF_DEFAULT@, db1.default@, db2.default@, start, end),
                ),
                cf_diff(store::CF_LOCK@, db1.lock@, db2.lock@, start, end),
            ),
            cf_diff(store::CF_WRITE@, db1.write@, db2.write@, start, end),
        ),
        cf_diff(store::CF_RAFT@, db1.raft@, db2.raft@, start, end),
    )
}

fn push_cf_diff(
    out: &mut String,
    cf: &str,
    table1: &Table,
    table2: &Table,
    start: &[u8],
    end: &[u8],
) -> (r: Result<(), CtlError>)
    ensures
        match r {
            Ok(_) => joined(Ok(old(out)@), cf_diff(cf@, table1@, table2@, start@, end@)) == Ok::<
                Seq<char>,
                CtlError,
            >(final(out)@),
            Err(e) => cf_diff(cf@, table1@, table2@, start@, end@) == Err::<Seq<char>, CtlError>(e),
        },
{
    let range1 = table1.scan(start, end);
    let range2 = table2.scan(start, end);
    match diff_tables(cf, table1, range1, table2, range2) {
        Err(e) => Err(e),
        Ok(t) => {
            out.append("cf: ");
            out.append(cf);
            out.append("\n");
            out.append(t.as_str());
            assert(out@ =~= old(out)@ + ("cf: "@ + cf@ + "\n"@ + t@));
            Ok(())
        },
    }
}

/// What is printed of a region in two stores whose states are known: the bounds are those that the region
/// has in the first store.
pub open spec fn diff_dump(
    db1: Db,
    db2: Db,
    region_id: u64,
    state1: RegionLocalState,
    state2: RegionLocalState,
    apply1: Seq<char>,
    apply2: Seq<char>,
) -> Result<Seq<char>, CtlError> {
    region_diff(
        db1,
        db2,
        diff_header(region_id, state1.text@, state2.text@, apply1, apply2),
        state1.start_key@,
        state1.end_key@,
    )
}

/// Compares what two stores hold of a region.
pub fn dump_diff(
    db: &Db,
    db2: &Db,
    region_id: u64,
    region_state: &RegionLocalState,
    region_state2: &RegionLocalState,
    apply_state: &str,
    apply_state2: &str,
) -> (r: Result<String, CtlError>)
    ensures
        ({
            let dump = diff_dump(
                *db,
                *db2,
                region_id,
                *region_state,
                *region_state2,
                apply_state@,
                apply_state2@,
            );
            match r {
                Ok(t) => dump == Ok::<Seq<char>, CtlError>(t@),
                Err(e) => dump == Err::<Seq<char>, CtlError>(e),
            }
        }),
        ({
            let diff = region_diff(
                *db,
                *db2,
                diff_header(
                    region_id,
                    region_state.text@,
                    region_state2.text@,
                    apply_state@,
                    apply_state2@,
                ),
                region_state.start_key@,
                region_state.end_key@,
            );
            match r {
                Ok(t) => diff == Ok::<Seq<char>, CtlError>(t@),
                Err(e) => diff == Err::<Seq<char>, CtlError>(e),
            }
        }),
{
    let mut out = String::new();
    out.append("region id: ");
    text::push_decimal(&mut out, region_id);
    out.append("\ndb1 region state: ");
    out.append(region_state.text.as_str());
    out.append("\ndb2 region state: ");
    out.append(region_state2.text.as_str());
    out.append("\ndb1 apply state: ");
    out.append(apply_state);
    out.append("\ndb2 apply state: ");
    out.append(apply_state2);
    out.append("\n");
    assert(out@ =~= diff_header(
        region_id,
        region_state.text@,
        region_state2.text@,
        apply_state@,
        apply_state2@,
    ));
    let start = keys::data_key(region_state.start_key.as_slice());
    let end = keys::data_end_key(region_state.end_key.as_slice());
    let (s, e) = (start.as_slice(), end.as_slice());
    match push_cf_diff(&mut out, store::CF_DEFAULT, &db.default, &db2.default, s, e) {
        Err(x) => return Err(x),
        Ok(_) => {},
    }
    match push_cf_diff(&mut out, store::CF_LOCK, &db.lock, &db2.lock, s, e) {
        Err(x) => return Err(x),
        Ok(_) => {},
    }
    match push_cf_diff(&mut out, store::CF_WRITE, &db.write, &db2.write, s, e) {
        Err(x) => return Err(x),
        Ok(_) => {},
    }
    match push_cf_diff(&mut out, store::CF_RAFT, &db.raft, &db2.raft, s, e) {
        Err(x) => return Err(x),
        Ok(_) => {},
    }
    Ok(out)
}

} // verus!
