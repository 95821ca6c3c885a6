//! What the tool reads of a store: the rows of its column families, in the order of their keys.
use vstd::prelude::*;

use crate::bytes;
use crate::text;

verus! {

pub const CF_DEFAULT: &'static str = "default";

pub const CF_LOCK: &'static str = "lock";

pub const CF_WRITE: &'static str = "write";

pub const CF_RAFT: &'static str = "raft";

/// The four column families have different names.
pub proof fn cf_names_differ()
    ensures
        CF_DEFAULT@ != CF_LOCK@,
        CF_DEFAULT@ != CF_WRITE@,
        CF_DEFAULT@ != CF_RAFT@,
        CF_LOCK@ != CF_WRITE@,
        CF_LOCK@ != CF_RAFT@,
        CF_WRITE@ != CF_RAFT@,
{
    reveal_strlit("default");
    reveal_strlit("lock");
    reveal_strlit("write");
    reveal_strlit("raft");
    assert(CF_LOCK@[0] == 'l' && CF_RAFT@[0] == 'r');
    assert(CF_DEFAULT@.len() == 7 && CF_LOCK@.len() == 4 && CF_WRITE@.len() == 5);
    assert(CF_RAFT@.len() == 4);
}

/// One stored key with its value.
#[derive(Debug, PartialEq, Eq)]
pub struct Row {
    pub key: Vec<u8>,
    pub value: Vec<u8>,
}

impl View for Row {
    type V = (Seq<u8>, Seq<u8>);

    open spec fn view(&self) -> (Seq<u8>, Seq<u8>) {
        (self.key@, self.value@)
    }
}

/// Whether the keys of `rows` are in ascending order, none of them twice.
pub open spec fn ascending(rows: Seq<(Seq<u8>, Seq<u8>)>) -> bool {
    forall|i: int, j: int| 0 <= i < j < rows.len() ==> bytes::less(#[trigger] rows[i].0, #[trigger] rows[j].0)
}

/// What `rows` holds.
pub open spec fn row_views(rows: Seq<Row>) -> Seq<(Seq<u8>, Seq<u8>)> {
    Seq::new(rows.len(), |i: int| rows[i]@)
}

/// The rows of `rows` from the first on whose key does not come before `key`.
pub open spec fn seeked(rows: Seq<(Seq<u8>, Seq<u8>)>, key: Seq<u8>) -> Seq<(Seq<u8>, Seq<u8>)>
    decreases rows.len(),
{
    if rows.len() == 0 {
        rows
    } else if bytes::less(rows[0].0, key) {
        seeked(rows.drop_first(), key)
    } else {
        rows
    }
}

/// The rows at the front of `rows` whose keys come before `end`, up to the first that does not.
pub open spec fn bounded(rows: Seq<(Seq<u8>, Seq<u8>)>, end: Seq<u8>) -> Seq<(Seq<u8>, Seq<u8>)>
    decreases rows.len(),
{
    if rows.len() == 0 || !bytes::less(rows[0].0, end) {
        Seq::empty()
    } else {
        seq![rows[0]] + bounded(rows.drop_first(), end)
    }
}

/// What a scan of `rows` from `start` up to `end` meets, `end` itself not included.
pub open spec fn scanned(
    rows: Seq<(Seq<u8>, Seq<u8>)>,
    start: Seq<u8>,
    end: Seq<u8>,
) -> Seq<(Seq<u8>, Seq<u8>)> {
    bounded(seeked(rows, start), end)
}

/// The value that is stored under a key.
pub open spec fn looked_up(rows: Seq<(Seq<u8>, Seq<u8>)>, key: Seq<u8>) -> Option<Seq<u8>> {
    let from = seeked(rows, key);
    if from.len() > 0 && from[0].0 == key {
        Some(from[0].1)
    } else {
        None
    }
}

/// The rows of one column family.
#[derive(Debug, PartialEq, Eq)]
pub struct Table {
    rows: Vec<Row>,
}

impl View for Table {
    type V = Seq<(Seq<u8>, Seq<u8>)>;

    closed spec fn view(&self) -> Seq<(Seq<u8>, Seq<u8>)> {
        row_views(self.rows@)
    }
}

impl Table {
    #[verifier::type_invariant]
    spec fn inv(self) -> bool {
        ascending(row_views(self.rows@))
    }

    /// A table of rows in ascending order; none where they are not.
    pub fn new(rows: Vec<Row>) -> (r: Option<Table>)
        ensures
            match r {
                None => !ascending(row_views(rows@)),
                Some(t) => ascending(t@) && t@ == row_views(rows@),
            },
    {
        let ghost all = row_views(rows@);
        let mut i: usize = 1;
        while i < rows.len()
            invariant
                1 <= i,
                i <= rows@.len() || rows@.len() == 0,
                all == row_views(rows@),
                forall|a: int, b: int|
                    0 <= a < b < i && b < rows@.len() ==> bytes::less(
                        #[trigger] all[a].0,
                        #[trigger] all[b].0,
                    ),
            decreases rows.len() - i,
        {
            if !bytes::is_less(rows[i - 1].key.as_slice(), rows[i].key.as_slice()) {
                assert(!bytes::less(all[i - 1].0, all[i as int].0));
                return None;
            }
            proof {
                assert forall|a: int, b: int| 0 <= a < b < i + 1 && b < rows@.len() implies bytes::less(
                    #[trigger] all[a].0,
                    #[trigger] all[b].0,
                ) by {
                    if b == i && a < i - 1 {
                        bytes::less_transitive(all[a].0, all[i - 1].0, all[i as int].0);
                    }
                }
            }
            i += 1;
        }
        Some(Table { rows })
    }

    /// How many rows the table has.
    pub fn len(&self) -> (r: usize)
        ensures
            r == self@.len(),
    {
        self.rows.len()
    }

    /// The row at a place.
    pub fn row(&self, i: usize) -> (r: &Row)
        requires
            i < self@.len(),
        ensures
            r@ == self@[i as int],
    {
        &self.rows[i]
    }

    /// The place of the first row whose key does not come before `key`.
    pub fn seek(&self, key: &[u8]) -> (r: usize)
        ensures
            r <= self@.len(),
            self@.skip(r as int) == seeked(self@, key@),
            ascending(self@),
    {
        proof {
            use_type_invariant(&*self);
        }
        let mut i: usize = 0;
        assert(self@.skip(0) =~= self@);
        while i < self.rows.len() && bytes::is_less(self.rows[i].key.as_slice(), key)
            invariant
                i <= self.rows@.len(),
                self@ == row_views(self.rows@),
                seeked(self@, key@) == seeked(self@.skip(i as int), key@),
            decreases self.rows.len() - i,
        {
            assert(self@.skip(i as int)[0].0 == self.rows@[i as int].key@);
            assert(self@.skip(i as int).drop_first() =~= self@.skip(i + 1));
            i += 1;
        }
        proof {
            if i < self.rows@.len() {
                assert(self@.skip(i as int)[0].0 == self.rows@[i as int].key@);
            }
        }
        i
    }

    /// The value that is stored under a key.
    pub fn get(&self, key: &[u8]) -> (r: Option<&[u8]>)
        ensures
            match r {
                None => looked_up(self@, key@) is None,
                Some(v) => looked_up(self@, key@) == Some(v@),
            },
    {
        let i = self.seek(key);
        if i < self.rows.len() {
            assert(self@.skip(i as int)[0] == self.rows@[i as int]@);
            if bytes::same_bytes(self.rows[i].key.as_slice(), key) {
                return Some(self.rows[i].value.as_slice());
            }
        }
        None
    }

    /// The places of the rows that a scan from `start` up to `end` meets: from the first place up to
    /// the second, which is not included.
    pub fn scan(&self, start: &[u8], end: &[u8]) -> (r: (usize, usize))
        ensures
            r.0 <= r.1 <= self@.len(),
            self@.subrange(r.0 as int, r.1 as int) == scanned(self@, start@, end@),
            ascending(self@),
    {
        let from = self.seek(start);
        let mut i: usize = from;
        let ghost tail = self@.skip(from as int);
        assert(self@.subrange(from as int, from as int) =~= Seq::empty());
        assert(bounded(tail, end@) =~= self@.subrange(from as int, from as int) + bounded(
            tail,
            end@,
        ));
        while i < self.rows.len() && bytes::is_less(self.rows[i].key.as_slice(), end)
            invariant
                from <= i <= self.rows@.len(),
                self@ == row_views(self.rows@),
                tail == self@.skip(from as int),
                bounded(tail, end@) == self@.subrange(from as int, i as int) + bounded(
                    self@.skip(i as int),
                    end@,
                ),
            decreases self.rows.len() - i,
        {
            let ghost rest = self@.skip(i as int);
            assert(rest[0].0 == self.rows@[i as int].key@);
            assert(rest.drop_first() =~= self@.skip(i + 1));
            assert(self@.subrange(from as int, i as int) + (seq![rest[0]] + bounded(
                self@.skip(i + 1),
                end@,
            )) =~= self@.subrange(from as int, i + 1) + bounded(self@.skip(i + 1), end@));
            i += 1;
        }
        proof {
            if i < self.rows@.len() {
                assert(self@.skip(i as int)[0].0 == self.rows@[i as int].key@);
            }
            assert(bounded(self@.skip(i as int), end@) =~= Seq::empty());
            assert(bounded(tail, end@) =~= self@.subrange(from as int, i as int));
        }
        (from, i)
    }
}

/// A store, with its four column families.
#[derive(Debug, PartialEq, Eq)]
pub struct Db {
    pub default: Table,
    pub lock: Table,
    pub write: Table,
    pub raft: Table,
}

/// The rows of the column family of that name; none where there is no such family.
pub open spec fn cf_rows(db: Db, cf: Seq<char>) -> Option<Seq<(Seq<u8>, Seq<u8>)>> {
    if cf == CF_DEFAULT@ {
        Some(db.default@)
    } else if cf == CF_LOCK@ {
        Some(db.lock@)
    } else if cf == CF_WRITE@ {
        Some(db.write@)
    } else if cf == CF_RAFT@ {
        Some(db.raft@)
    } else {
        None
    }
}

impl Db {
    /// The column family of that name.
    pub fn table(&self, cf: &str) -> (r: Option<&Table>)
        ensures
            match r {
                None => cf_rows(*self, cf@) is None,
                Some(t) => cf_rows(*self, cf@) == Some(t@),
            },
    {
        if text::same_text(cf, CF_DEFAULT) {
            Some(&self.default)
        } else if text::same_text(cf, CF_LOCK) {
            Some(&self.lock)
        } else if text::same_text(cf, CF_WRITE) {
            Some(&self.write)
        } else if text::same_text(cf, CF_RAFT) {
            Some(&self.raft)
        } else {
            None
        }
    }
}

} // verus!
