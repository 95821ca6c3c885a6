//! Printing a range of a column family.
use vstd::prelude::*;

use crate::codec::CodecError;
use crate::error::CtlError;
use crate::escape;
use crate::mvcc;
use crate::store;
use crate::store::Db;
use crate::text;
use crate::types;
use crate::types::{Key, Lock, Write};

verus! {

broadcast use vstd::string::group_string_axioms;

/// What the rows of a column family hold.
#[derive(Clone, Copy, Debug, PartialEq, Eq, Structural)]
pub enum CfKind {
    Default,
    Lock,
    Write,
    Other,
}

/// What the rows of the column family of that name hold.
pub open spec fn kind_of(cf: Seq<char>) -> CfKind {
    if cf == store::CF_DEFAULT@ {
        CfKind::Default
    } else if cf == store::CF_WRITE@ {
        CfKind::Write
    } else if cf == store::CF_LOCK@ {
        CfKind::Lock
    } else {
        CfKind::Other
    }
}

/// What the rows of the column family of that name hold.
pub fn cf_kind(cf: &str) -> (r: CfKind)
    ensures
        r == kind_of(cf@),
{
    if text::same_text(cf, store::CF_DEFAULT) {
        CfKind::Default
    } else if text::same_text(cf, store::CF_WRITE) {
        CfKind::Write
    } else if text::same_text(cf, store::CF_LOCK) {
        CfKind::Lock
    } else {
        CfKind::Other
    }
}

/// Splits an encoded key into its timestamp and the key without it.
pub fn parse_ts_key_from_key(encode_key: Vec<u8>) -> (r: Result<(u64, Vec<u8>), CodecError>)
    ensures
        match r {
            Ok((ts, key)) => types::ts_of(encode_key@) == Ok::<u64, CodecError>(ts)
                && types::without_ts(encode_key@) == Ok::<Seq<u8>, CodecError>(key@),
            Err(e) => types::ts_of(encode_key@) == Err::<u64, CodecError>(e) && types::without_ts(
                encode_key@,
            ) == Err::<Seq<u8>, CodecError>(e),
        },
{
    let item_key = Key::from_encoded(encode_key);
    let ts = match item_key.decode_ts() {
        Err(e) => return Err(e),
        Ok(t) => t,
    };
    match item_key.truncate_ts() {
        Err(e) => Err(e),
        Ok(k) => Ok((ts, vstd::slice::slice_to_vec(k.encoded().as_slice()))),
    }
}

/// Whether a filter lets a key pass: without a filter every key does, and with one those that end in
/// its timestamp.
pub open spec fn key_selects(filter: Option<u64>, key: Seq<u8>) -> bool {
    match filter {
        None => true,
        Some(ts) => types::ts_of(key) == Ok::<u64, CodecError>(ts),
    }
}

/// Whether the filters let a row pass. Plain versions start at the timestamp at the end of their key,
/// and write records commit at it. Locks and write records have to be readable.
pub open spec fn row_selects(
    kind: CfKind,
    row: (Seq<u8>, Seq<u8>),
    start_ts: Option<u64>,
    commit_ts: Option<u64>,
) -> Result<bool, CtlError> {
    match kind {
        CfKind::Default => Ok(key_selects(start_ts, row.0)),
        CfKind::Write => match types::write_parsed(row.1) {
            Err(e) => Err(CtlError::Mvcc(e)),
            Ok(w) => Ok(mvcc::selects(start_ts, w.start_ts) && key_selects(commit_ts, row.0)),
        },
        CfKind::Lock => match types::lock_parsed(row.1) {
            Err(e) => Err(CtlError::Mvcc(e)),
            Ok(l) => Ok(mvcc::selects(start_ts, l.ts)),
        },
        CfKind::Other => Ok(true),
    }
}

/// What is printed of one row.
pub open spec fn row_text(row: (Seq<u8>, Seq<u8>)) -> Seq<char> {
    "key: "@ + escape::escaped(row.0) + ", value len: "@ + text::decimal(row.1.len()) + "\n"@
        + escape::escaped(row.1) + "\n"@
}

/// What is printed of rows: those that the filters let pass, `limit` of them at most. What stands
/// behind the last of them is not looked at.
pub open spec fn rows_text(
    rows: Seq<(Seq<u8>, Seq<u8>)>,
    kind: CfKind,
    start_ts: Option<u64>,
    commit_ts: Option<u64>,
    limit: nat,
) -> Result<Seq<char>, CtlError>
    decreases rows.len(),
{
    if rows.len() == 0 || limit == 0 {
        Ok(Seq::empty())
    } else {
        match row_selects(kind, rows[0], start_ts, commit_ts) {
            Err(e) => Err(e),
            Ok(false) => rows_text(rows.drop_first(), kind, start_ts, commit_ts, limit),
            Ok(true) => match rows_text(
                rows.drop_first(),
                kind,
                start_ts,
                commit_ts,
                (limit - 1) as nat,
            ) {
                Err(e) => Err(e),
                Ok(rest) => Ok(row_text(rows[0]) + rest),
            },
        }
    }
}

/// A walk through a range of a column family.
#[derive(Clone, Copy, Debug, PartialEq, Eq)]
pub struct RangeScan {
    pub kind: CfKind,
    pub start_ts: Option<u64>,
    pub commit_ts: Option<u64>,
    /// How many rows are printed at most.
    pub limit: u64,
    /// How many rows were printed.
    pub count: u64,
}

/// Whether a filter lets a key pass.
fn key_selected(filter: Option<u64>, key: &[u8]) -> (r: bool)
    ensures
        r == key_selects(filter, key@),
{
    match filter {
        None => true,
        Some(wanted) => match parse_ts_key_from_key(vstd::slice::slice_to_vec(key)) {
            Err(_) => false,
            Ok((ts, _)) => ts == wanted,
        },
    }
}

/// Whether the filters let a row pass.
pub fn row_selected(
    kind: CfKind,
    key: &[u8],
    value: &[u8],
    start_ts: Option<u64>,
    commit_ts: Option<u64>,
) -> (r: Result<bool, CtlError>)
    ensures
        r == row_selects(kind, (key@, value@), start_ts, commit_ts),
{
    match kind {
        CfKind::Default => Ok(key_selected(start_ts, key)),
        CfKind::Write => match Write::parse(value) {
            Err(e) => Err(CtlError::Mvcc(e)),
            Ok(w) => Ok(mvcc::selected(start_ts, w.start_ts) && key_selected(commit_ts, key)),
        },
        CfKind::Lock => match Lock::parse(value) {
            Err(e) => Err(CtlError::Mvcc(e)),
            Ok(l) => Ok(mvcc::selected(start_ts, l.ts)),
        },
        CfKind::Other => Ok(true),
    }
}

impl RangeScan {
    /// The start of a walk; without a limit every row may be printed.
    pub fn new(
        cf: &str,
        limit: Option<u64>,
        start_ts: Option<u64>,
        commit_ts: Option<u64>,
    ) -> (r: RangeScan)
        ensures
            r.kind == kind_of(cf@),
            r.start_ts == start_ts,
            r.commit_ts == commit_ts,
            r.limit == limit.unwrap_or(u64::MAX),
            r.count == 0,
    {
        let most: u64 = match limit {
            None => u64::MAX,
            Some(n) => n,
        };
        RangeScan { kind: cf_kind(cf), start_ts, commit_ts, limit: most, count: 0 }
    }

    /// Whether the walk goes on to the next row.
    pub fn goes_on(&self) -> (r: bool)
        ensures
            r == (self.count < self.limit),
    {
        self.count < self.limit
    }

    /// Prints a row if the filters let it pass, and says whether the walk goes on.
    pub fn visit(&mut self, out: &mut String, key: &[u8], value: &[u8]) -> (r: Result<
        bool,
        CtlError,
    >)
        requires
            old(self).count < old(self).limit,
        ensures
            final(self).kind == old(self).kind,
            final(self).start_ts == old(self).start_ts,
            final(self).commit_ts == old(self).commit_ts,
            final(self).limit == old(self).limit,
            ({
                let passes = row_selects(
                    old(self).kind,
                    (key@, value@),
                    old(self).start_ts,
                    old(self).commit_ts,
                );
                match r {
                    Err(e) => {
                        &&& passes == Err::<bool, CtlError>(e)
                        &&& final(self).count == old(self).count
                        &&& final(out)@ == old(out)@
                    },
                    Ok(more) => {
                        &&& passes is Ok
                        &&& more == (final(self).count < final(self).limit)
                        &&& passes->Ok_0 ==> {
                            &&& final(self).count == old(self).count + 1
                            &&& final(out)@ == old(out)@ + row_text((key@, value@))
                        }
                        &&& !passes->Ok_0 ==> {
                            &&& final(self).count == old(self).count
                            &&& final(out)@ == old(out)@
                        }
                    },
                }
            }),
    {
        let passes = match row_selected(self.kind, key, value, self.start_ts, self.commit_ts) {
            Err(e) => return Err(e),
            Ok(b) => b,
        };
        if passes {
            out.append("key: ");
            escape::push_escaped(out, key);
            out.append(", value len: ");
            text::push_decimal(out, value.len() as u64);
            out.append("\n");
            escape::push_escaped(out, value);
            out.append("\n");
            assert(out@ =~= old(out)@ + row_text((key@, value@)));
            self.count = self.count + 1;
        }
        Ok(self.count < self.limit)
    }
}

/// The key that ends a range: that which the text on the command line stands for, and without a text
/// the single byte 255.
pub open spec fn range_end(to: Option<Seq<char>>) -> Option<Seq<u8>> {
    match to {
        None => Some(seq![0xffu8]),
        Some(t) => escape::unescaped(vstd::utf8::encode_utf8(t)),
    }
}

/// What is printed of a range of a column family.
pub open spec fn range_text(
    rows: Option<Seq<(Seq<u8>, Seq<u8>)>>,
    kind: CfKind,
    from: Option<Seq<u8>>,
    to: Option<Seq<u8>>,
    limit: nat,
    start_ts: Option<u64>,
    commit_ts: Option<u64>,
) -> Result<Seq<char>, CtlError> {
    match (from, to) {
        (Some(f), Some(t)) => if limit == 0 {
            Ok(Seq::empty())
        } else {
            match rows {
                None => Err(CtlError::UnknownCf),
                Some(r) => rows_text(store::scanned(r, f, t), kind, start_ts, commit_ts, limit),
            }
        },
        _ => Err(CtlError::BadEscape),
    }
}

/// The keys between which a range lies.
pub fn range_bounds(from: &str, to: Option<&str>) -> (r: Option<(Vec<u8>, Vec<u8>)>)
    ensures
        ({
            let start = escape::unescaped(vstd::utf8::encode_utf8(from@));
            let end = range_end(
                match to {
                    None => None,
                    Some(t) => Some(t@),
                },
            );
            match r {
                None => start is None || end is None,
                Some((s, e)) => start == Some(s@) && end == Some(e@),
            }
        }),
{
    let start = match escape::try_unescape(from) {
        None => return None,
        Some(s) => s,
    };
    match to {
        None => {
            let mut end: Vec<u8> = Vec::new();
            end.push(0xff);
            assert(end@ =~= seq![0xffu8]);
            Some((start, end))
        },
        Some(t) => match escape::try_unescape(t) {
            None => None,
            Some(end) => Some((start, end)),
        },
    }
}

/// How far a walk has come: what it has printed, and which rows are ahead of it.
spec fn progress(
    all: Result<Seq<char>, CtlError>,
    out: Seq<char>,
    rest: Seq<(Seq<u8>, Seq<u8>)>,
    scan: RangeScan,
) -> bool {
    &&& scan.count <= scan.limit
    &&& all == match rows_text(
        rest,
        scan.kind,
        scan.start_ts,
        scan.commit_ts,
        (scan.limit - scan.count) as nat,
    ) {
        Ok(t) => Ok(out + t),
        Err(e) => Err(e),
    }
}

proof fn progress_step(
    all: Result<Seq<char>, CtlError>,
    out: Seq<char>,
    rest: Seq<(Seq<u8>, Seq<u8>)>,
    scan: RangeScan,
    next: RangeScan,
)
    requires
        progress(all, out, rest, scan),
        rest.len() > 0,
        scan.count < scan.limit,
        next.kind == scan.kind,
        next.start_ts == scan.start_ts,
        next.commit_ts == scan.commit_ts,
        next.limit == scan.limit,
    ensures
        match row_selects(scan.kind, rest[0], scan.start_ts, scan.commit_ts) {
            Err(e) => all == Err::<Seq<char>, CtlError>(e),
            Ok(false) => next.count == scan.count ==> progress(all, out, rest.drop_first(), next),
            Ok(true) => next.count == scan.count + 1 ==> progress(
                all,
                out + row_text(rest[0]),
                rest.drop_first(),
                next,
            ),
        },
{
    let left = (scan.limit - scan.count) as nat;
    let t = rows_text(
        rest.drop_first(),
        scan.kind,
        scan.start_ts,
        scan.commit_ts,
        (left - 1) as nat,
    );
    if let Ok(t) = t {
        assert(out + (row_text(rest[0]) + t) =~= out + row_text(rest[0]) + t);
    }
}

/// Prints the rows of a table from one place up to another that the filters let pass.
pub fn scan_rows(table: &store::Table, first: usize, last: usize, start: RangeScan) -> (r: Result<
    String,
    CtlError,
>)
    requires
        first <= last <= table@.len(),
        start.count <= start.limit,
    ensures
        ({
            let printed = rows_text(
                table@.subrange(first as int, last as int),
                start.kind,
                start.start_ts,
                start.commit_ts,
                (start.limit - start.count) as nat,
            );
            match r {
                Ok(t) => printed == Ok::<Seq<char>, CtlError>(t@),
                Err(e) => printed == Err::<Seq<char>, CtlError>(e),
            }
        }),
{
    let mut scan = start;
    let mut out = String::new();
    let ghost rows = table@.subrange(first as int, last as int);
    let ghost all = rows_text(
        rows,
        start.kind,
        start.start_ts,
        start.commit_ts,
        (start.limit - start.count) as nat,
    );
    let mut i: usize = first;
    assert(rows.skip(0) =~= rows);
    assert(progress(all, out@, rows, scan)) by {
        if let Ok(t) = all {
            assert(out@ + t =~= t);
        }
    }
    while scan.goes_on() && i < last
        invariant
            first <= i <= last <= table@.len(),
            rows == table@.subrange(first as int, last as int),
            all == rows_text(
                rows,
                start.kind,
                start.start_ts,
                start.commit_ts,
                (start.limit - start.count) as nat,
            ),
            progress(all, out@, rows.skip(i - first), scan),
        decreases last - i,
    {
        let ghost rest = rows.skip(i - first);
        let ghost prior = out@;
        let ghost before = scan;
        let row = table.row(i);
        assert(rest[0] == row@);
        assert(rest.drop_first() =~= rows.skip(i + 1 - first));
        let visited = scan.visit(&mut out, row.key.as_slice(), row.value.as_slice());
        proof {
            progress_step(all, prior, rest, before, scan);
        }
        match visited {
            Err(e) => return Err(e),
            Ok(_) => {},
        }
        i += 1;
    }
    assert(out@ + Seq::<char>::empty() =~= out@);
    Ok(out)
}

/// What a scan of a column family from one key to another, both in escaped form, prints.
pub open spec fn range_dump(
    db: Db,
    from: Seq<char>,
    to: Option<Seq<char>>,
    limit: Option<u64>,
    cf: Seq<char>,
    start_ts: Option<u64>,
    commit_ts: Option<u64>,
) -> Result<Seq<char>, CtlError> {
    range_text(
        store::cf_rows(db, cf),
        kind_of(cf),
        escape::unescaped(vstd::utf8::encode_utf8(from)),
        range_end(to),
        match limit {
            None => u64::MAX as nat,
            Some(n) => n as nat,
        },
        start_ts,
        commit_ts,
    )
}

/// Prints the rows of a range of a column family that the filters let pass.
pub fn dump_range(
    db: &Db,
    from: &str,
    to: Option<&str>,
    limit: Option<u64>,
    cf: &str,
    start_ts: Option<u64>,
    commit_ts: Option<u64>,
) -> (r: Result<String, CtlError>)
    ensures
        ({
            let dump = range_dump(
                *db,
                from@,
                match to {
                    None => None,
                    Some(t) => Some(t@),
                },
                limit,
                cf@,
                start_ts,
                commit_ts,
            );
            match r {
                Ok(t) => dump == Ok::<Seq<char>, CtlError>(t@),
                Err(e) => dump == Err::<Seq<char>, CtlError>(e),
            }
        }),
        ({
            let printed = range_text(
                store::cf_rows(*db, cf@),
                kind_of(cf@),
                escape::unescaped(vstd::utf8::encode_utf8(from@)),
                range_end(
                    match to {
                        None => None,
                        Some(t) => Some(t@),
                    },
                ),
                limit.unwrap_or(u64::MAX) as nat,
                start_ts,
                commit_ts,
            );
            match r {
                Ok(t) => printed == Ok::<Seq<char>, CtlError>(t@),
                Err(e) => printed == Err::<Seq<char>, CtlError>(e),
            }
        }),
{
    let (start, end) = match range_bounds(from, to) {
        None => return Err(CtlError::BadEscape),
        Some(b) => b,
    };
    let scan = RangeScan::new(cf, limit, start_ts, commit_ts);
    if !scan.goes_on() {
        return Ok(String::new());
    }
    let table = match db.table(cf) {
        None => return Err(CtlError::UnknownCf),
        Some(t) => t,
    };
    let (first, last) = table.scan(start.as_slice(), end.as_slice());
    scan_rows(table, first, last, scan)
}

} // verus!
