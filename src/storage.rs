use vstd::prelude::*;
use vstd::string::StringExecFns;
use crate::date::{Date, date_before};
use crate::entry::{DiaryEntry, EntryMetadata, metadata_of};
use crate::error::RustyDiaryError;
use crate::text::{chars_of, is_white, is_whitespace};

verus! {

/// The identity of a stored row: its date and its execution version.
pub type RowKey = (Date, i64);

pub open spec fn key_of(e: DiaryEntry) -> RowKey {
    (e.date, e.exec_version)
}

/// Order of stored rows and of query results: latest date first, then highest version.
pub open spec fn row_before(a: DiaryEntry, b: DiaryEntry) -> bool {
    date_before(b.date, a.date) || (a.date == b.date && a.exec_version > b.exec_version)
}

/// Order of metadata: earliest date first, then highest version.
pub open spec fn meta_before(a: EntryMetadata, b: EntryMetadata) -> bool {
    date_before(a.date, b.date) || (a.date == b.date && a.exec_version > b.exec_version)
}

pub open spec fn in_span(d: Date, start: Date, end: Date) -> bool {
    !date_before(d, start) && !date_before(end, d)
}

/// Text made of whitespace only (or of nothing).
pub open spec fn is_blank(s: Seq<char>) -> bool {
    forall|i: int| 0 <= i < s.len() ==> is_white(#[trigger] s[i])
}

/// The rows after upserting `es` in order into `m`: a later entry with the key
/// of an earlier row replaces it.
pub open spec fn upsert_all(m: Map<RowKey, DiaryEntry>, es: Seq<DiaryEntry>) -> Map<
    RowKey,
    DiaryEntry,
>
    decreases es.len(),
{
    if es.len() == 0 {
        m
    } else {
        upsert_all(m, es.drop_last()).insert(key_of(es.last()), es.last())
    }
}

/// The largest version among the rows; 0 where there are none.
pub open spec fn is_latest_version(m: Map<RowKey, DiaryEntry>, v: i64) -> bool {
    if m.dom().is_empty() {
        v == 0
    } else {
        (exists|k: RowKey| m.contains_key(k) && k.1 == v) && forall|k: RowKey|
            m.contains_key(k) ==> k.1 <= v
    }
}

/// Which stored rows a query selects.
pub enum RowFilter {
    /// Rows whose date lies in the inclusive span.
    Span(Date, Date),
    /// Rows of one execution version.
    Version(i64),
}

pub open spec fn admits(f: RowFilter, e: DiaryEntry) -> bool {
    match f {
        RowFilter::Span(start, end) => in_span(e.date, start, end),
        RowFilter::Version(v) => e.exec_version == v,
    }
}

/// `r` holds, each once and in row order, exactly the rows of `m` that `f` admits.
pub open spec fn lists_rows(r: Seq<DiaryEntry>, m: Map<RowKey, DiaryEntry>, f: RowFilter) -> bool {
    &&& forall|i: int, j: int| 0 <= i < j < r.len() ==> row_before(r[i], r[j])
    &&& forall|i: int|
        0 <= i < r.len() ==> m.contains_key(key_of(#[trigger] r[i])) && m[key_of(r[i])] == r[i]
            && admits(f, r[i])
    &&& forall|k: RowKey| m.contains_key(k) && admits(f, #[trigger] m[k]) ==> r.contains(m[k])
}

/// `x` is the metadata of some row of `m`.
pub open spec fn describes_row(m: Map<RowKey, DiaryEntry>, x: EntryMetadata) -> bool {
    exists|k: RowKey| m.contains_key(k) && x == metadata_of(#[trigger] m[k])
}

/// `r` holds, each once and in metadata order, the metadata of every row of `m`.
pub open spec fn lists_metadata(r: Seq<EntryMetadata>, m: Map<RowKey, DiaryEntry>) -> bool {
    &&& forall|i: int, j: int| 0 <= i < j < r.len() ==> meta_before(r[i], r[j])
    &&& forall|i: int| 0 <= i < r.len() ==> describes_row(m, #[trigger] r[i])
    &&& forall|k: RowKey| m.contains_key(k) ==> r.contains(metadata_of(#[trigger] m[k]))
}

pub proof fn lemma_row_order(a: DiaryEntry, b: DiaryEntry, c: DiaryEntry)
    ensures
        row_before(a, b) && row_before(b, c) ==> row_before(a, c),
        key_of(a) != key_of(b) ==> row_before(a, b) || row_before(b, a),
        row_before(a, b) ==> key_of(a) != key_of(b) && !row_before(b, a),
{
}

/// The stored diary rows, kept in row order with one row per key.
pub struct StorageManager {
    rows: Vec<DiaryEntry>,
    table: Ghost<Map<RowKey, DiaryEntry>>,
}

impl DiaryEntry {
    pub(crate) fn duplicate(&self) -> (r: DiaryEntry)
        ensures
            r == *self,
    {
        DiaryEntry {
            exec_version: self.exec_version,
            date: self.date,
            content: self.content.clone(),
            created_at: self.created_at,
            updated_at: self.updated_at,
        }
    }
}

impl StorageManager {
    /// The stored rows by key.
    pub closed spec fn view(&self) -> Map<RowKey, DiaryEntry> {
        self.table@
    }

    pub closed spec fn wf(&self) -> bool {
        &&& forall|i: int, j: int|
            0 <= i < j < self.rows@.len() ==> row_before(self.rows@[i], self.rows@[j])
        &&& forall|i: int|
            0 <= i < self.rows@.len() ==> self.table@.contains_key(key_of(#[trigger] self.rows@[i]))
                && self.table@[key_of(self.rows@[i])] == self.rows@[i]
        &&& forall|k: RowKey| #[trigger]
            self.table@.contains_key(k) ==> exists|i: int|
                0 <= i < self.rows@.len() && key_of(self.rows@[i]) == k
    }

    /// A store that holds no rows.
    pub fn new() -> (r: StorageManager)
        ensures
            r.wf(),
            r@ == Map::<RowKey, DiaryEntry>::empty(),
    {
        StorageManager { rows: Vec::new(), table: Ghost(Map::empty()) }
    }

    /// The rows that `f` selects, in row order.
    fn select(&self, f: RowFilter) -> (r: Vec<DiaryEntry>)
        requires
            self.wf(),
        ensures
            lists_rows(r@, self@, f),
    {
        let mut out: Vec<DiaryEntry> = Vec::new();
        let ghost mut idx: Seq<int> = Seq::empty();
        let mut i: usize = 0;
        while i < self.rows.len()
            invariant
                self.wf(),
                i <= self.rows.len(),
                idx.len() == out.len(),
                forall|a: int| 0 <= a < idx.len() ==> 0 <= #[trigger] idx[a] < i,
                forall|a: int| 0 <= a < idx.len() ==> out@[a] == self.rows@[#[trigger] idx[a]],
                forall|a: int, b: int| 0 <= a < b < idx.len() ==> idx[a] < idx[b],
                forall|a: int| 0 <= a < out.len() ==> admits(f, #[trigger] out@[a]),
                forall|j: int|
                    0 <= j < i && admits(f, #[trigger] self.rows@[j]) ==> exists|a: int|
                        0 <= a < idx.len() && idx[a] == j,
            decreases self.rows.len() - i,
        {
            let ghost old_idx = idx;
            if f.admits(&self.rows[i]) {
                let e = self.rows[i].duplicate();
                out.push(e);
                proof {
                    idx = idx.push(i as int);
                    assert(idx[idx.len() - 1] == i);
                }
            }
            proof {
                assert forall|j: int|
                    0 <= j < i + 1 && admits(f, #[trigger] self.rows@[j]) implies exists|a: int|
                    0 <= a < idx.len() && idx[a] == j by {
                    if j < i {
                        let a = choose|a: int| 0 <= a < old_idx.len() && old_idx[a] == j;
                        assert(idx[a] == j);
                    } else {
                        assert(idx[idx.len() - 1] == j);
                    }
                }
            }
            i = i + 1;
        }
        proof {
            let r = out@;
            assert forall|a: int, b: int| 0 <= a < b < r.len() implies row_before(r[a], r[b]) by {
                assert(idx[a] < idx[b]);
                assert(r[a] == self.rows@[idx[a]]);
                assert(r[b] == self.rows@[idx[b]]);
            }
            assert forall|a: int| 0 <= a < r.len() implies self@.contains_key(key_of(#[trigger] r[a]))
                && self@[key_of(r[a])] == r[a] && admits(f, r[a]) by {
                assert(r[a] == self.rows@[idx[a]]);
            }
            assert forall|k: RowKey| self@.contains_key(k) && admits(f, #[trigger] self@[k]) implies r.contains(self@[k]) by {
                let j = choose|j: int| 0 <= j < self.rows@.len() && key_of(self.rows@[j]) == k;
                assert(self.table@[key_of(self.rows@[j])] == self.rows@[j]);
                assert(admits(f, self.rows@[j]));
                let a = choose|a: int| 0 <= a < idx.len() && idx[a] == j;
                assert(r[a] == self@[k]);
            }
        }
        out
    }

    /// Entries whose date lies in `[start_date, end_date]`, latest date first and,
    /// within a date, highest version first.
    pub fn entries_by_date_range(&self, start_date: Date, end_date: Date) -> (r: Vec<DiaryEntry>)
        requires
            self.wf(),
        ensures
            lists_rows(r@, self@, RowFilter::Span(start_date, end_date)),
    {
        self.select(RowFilter::Span(start_date, end_date))
    }

    /// Entries of version `exec_version`, latest date first.
    pub fn get_entries_by_exec_version(&self, exec_version: i64) -> (r: Vec<DiaryEntry>)
        requires
            self.wf(),
        ensures
            lists_rows(r@, self@, RowFilter::Version(exec_version)),
    {
        self.select(RowFilter::Version(exec_version))
    }

    /// 0 for an empty store; otherwise the largest stored version.
    pub fn latest_exec_version(&self) -> (r: i64)
        requires
            self.wf(),
        ensures
            is_latest_version(self@, r),
    {
        if self.rows.len() == 0 {
            proof {
                if !self@.dom().is_empty() {
                    let k = self@.dom().choose();
                    assert(self.table@.contains_key(k));
                }
            }
            return 0;
        }
        let mut best: i64 = self.rows[0].exec_version;
        let ghost mut w: int = 0;
        let mut i: usize = 1;
        while i < self.rows.len()
            invariant
                self.wf(),
                1 <= i <= self.rows.len(),
                0 <= w < i,
                self.rows@[w].exec_version == best,
                forall|j: int| 0 <= j < i ==> #[trigger] self.rows@[j].exec_version <= best,
            decreases self.rows.len() - i,
        {
            if self.rows[i].exec_version > best {
                best = self.rows[i].exec_version;
                proof {
                    w = i as int;
                }
            }
            i = i + 1;
        }
        proof {
            assert(self.table@.contains_key(key_of(self.rows@[w])));
            assert(self@.contains_key(key_of(self.rows@[w])));
            assert forall|k: RowKey| self@.contains_key(k) implies k.1 <= best by {
                assert(self.table@.contains_key(k));
                let j = choose|j: int| 0 <= j < self.rows@.len() && key_of(self.rows@[j]) == k;
                assert(self.rows@[j].exec_version <= best);
            }
        }
        best
    }

    /// The metadata of every row, earliest date first and, within a date,
    /// highest version first.
    pub fn get_metadata(&self) -> (r: Vec<EntryMetadata>)
        requires
            self.wf(),
        ensures
            lists_metadata(r@, self@),
    {
        let mut out: Vec<EntryMetadata> = Vec::new();
        let ghost mut idx: Seq<int> = Seq::empty();
        let mut i: usize = 0;
        while i < self.rows.len()
            invariant
                self.wf(),
                i <= self.rows.len(),
                idx.len() == out.len(),
                forall|a: int| 0 <= a < idx.len() ==> 0 <= #[trigger] idx[a] < i,
                forall|a: int|
                    0 <= a < idx.len() ==> out@[a] == metadata_of(self.rows@[#[trigger] idx[a]]),
                forall|a: int, b: int| 0 <= a < b < idx.len() ==> idx[a] != idx[b],
                forall|a: int, b: int| 0 <= a < b < out.len() ==> meta_before(out@[a], out@[b]),
                forall|j: int| 0 <= j < i ==> #[trigger] idx.contains(j),
            decreases self.rows.len() - i,
        {
            let m = self.rows[i].metadata();
            let len = out.len();
            let mut p: usize = 0;
            while p < len && !m.is_before_meta(&out[p])
                invariant
                    len == out.len(),
                    p <= len,
                    forall|a: int| 0 <= a < p ==> !meta_before(m, #[trigger] out@[a]),
                decreases len - p,
            {
                p = p + 1;
            }
            let ghost old_out = out@;
            let ghost old_idx = idx;
            proof {
                assert forall|a: int| 0 <= a < old_out.len() implies (a < p ==> meta_before(
                    #[trigger] old_out[a],
                    m,
                )) && (a >= p ==> meta_before(m, old_out[a])) by {
                    let j = idx[a];
                    assert(j < i);
                    assert(row_before(self.rows@[j], self.rows@[i as int]));
                    if a >= p {
                        assert(meta_before(m, old_out[p as int]));
                        if a > p {
                            assert(meta_before(old_out[p as int], old_out[a]));
                        }
                    }
                }
            }
            out.insert(p, m);
            proof {
                idx = old_idx.insert(p as int, i as int);
                let no = out@;
                assert forall|a: int, b: int| 0 <= a < b < no.len() implies meta_before(
                    no[a],
                    no[b],
                ) by {
                    if b < p {
                    } else if a < p && b == p {
                    } else if a < p && b > p {
                        assert(meta_before(old_out[a], m));
                        assert(meta_before(m, old_out[b - 1]));
                    } else if a == p {
                        assert(meta_before(m, old_out[b - 1]));
                    } else {
                        assert(meta_before(old_out[a - 1], old_out[b - 1]));
                    }
                }
                assert forall|a: int| 0 <= a < idx.len() implies out@[a] == metadata_of(
                    self.rows@[#[trigger] idx[a]],
                ) by {
                    if a > p {
                        assert(idx[a] == old_idx[a - 1]);
                    }
                }
                assert forall|a: int| 0 <= a < idx.len() implies 0 <= #[trigger] idx[a] < i + 1 by {
                    if a > p {
                        assert(idx[a] == old_idx[a - 1]);
                    } else if a < p {
                        assert(idx[a] == old_idx[a]);
                    }
                }
                assert forall|a: int, b: int| 0 <= a < b < idx.len() implies idx[a] != idx[b] by {
                    if a < p && b > p {
                        assert(idx[b] == old_idx[b - 1]);
                    } else if a > p {
                        assert(idx[a] == old_idx[a - 1]);
                        assert(idx[b] == old_idx[b - 1]);
                    } else if a == p {
                        assert(idx[b] == old_idx[b - 1]);
                        assert(old_idx[b - 1] < i);
                    } else if b == p {
                        assert(old_idx[a] < i);
                    }
                }
                assert forall|j: int| 0 <= j < i + 1 implies #[trigger] idx.contains(j) by {
                    if j < i {
                        assert(old_idx.contains(j));
                        let a = choose|a: int| 0 <= a < old_idx.len() && old_idx[a] == j;
                        if a < p {
                            assert(idx[a] == j);
                        } else {
                            assert(idx[a + 1] == j);
                        }
                    } else {
                        assert(idx[p as int] == j);
                    }
                }
            }
            i = i + 1;
        }
        proof {
            let r = out@;
            assert forall|a: int| 0 <= a < r.len() implies describes_row(self@, #[trigger] r[a]) by {
                let j = idx[a];
                assert(self.table@.contains_key(key_of(self.rows@[j])));
                assert(r[a] == metadata_of(self@[key_of(self.rows@[j])]));
            }
            assert forall|k: RowKey| self@.contains_key(k) implies r.contains(metadata_of(#[trigger] self@[k])) by {
                assert(self.table@.contains_key(k));
                let j = choose|j: int| 0 <= j < self.rows@.len() && key_of(self.rows@[j]) == k;
                assert(self.table@[key_of(self.rows@[j])] == self.rows@[j]);
                assert(idx.contains(j));
                let a = choose|a: int| 0 <= a < idx.len() && #[trigger] idx[a] == j;
                assert(r[a] == metadata_of(self@[k]));
            }
            assert(forall|a: int, b: int| 0 <= a < b < r.len() ==> meta_before(r[a], r[b]));
        }
        out
    }

    /// A store that holds the rows read back from persistent storage, upserted in
    /// order. Unlike `store_entries` it refuses nothing: these rows were already stored.
    pub fn from_rows(rows: Vec<DiaryEntry>) -> (r: StorageManager)
        ensures
            r.wf(),
            r@ == upsert_all(Map::<RowKey, DiaryEntry>::empty(), rows@),
    {
        let mut st = StorageManager::new();
        let mut i: usize = 0;
        while i < rows.len()
            invariant
                st.wf(),
                i <= rows.len(),
                st@ == upsert_all(Map::<RowKey, DiaryEntry>::empty(), rows@.subrange(0, i as int)),
            decreases rows.len() - i,
        {
            let e = rows[i].duplicate();
            st.upsert(e);
            proof {
                assert(rows@.subrange(0, i + 1).drop_last() =~= rows@.subrange(0, i as int));
            }
            i = i + 1;
        }
        assert(rows@.subrange(0, rows@.len() as int) =~= rows@);
        st
    }

    /// Stores every entry of the batch, in order, each replacing the row with its
    /// key; a batch that holds an entry of blank content is refused whole.
    pub fn store_entries(&mut self, entries: Vec<DiaryEntry>) -> (r: Result<(), RustyDiaryError>)
        requires
            old(self).wf(),
        ensures
            final(self).wf(),
            r.is_ok() <==> forall|i: int|
                0 <= i < entries@.len() ==> !is_blank(#[trigger] entries@[i].content@),
            r.is_ok() ==> final(self)@ == upsert_all(old(self)@, entries@),
            r.is_err() ==> final(self)@ == old(self)@ && r->Err_0 is ContentIntegrity,
    {
        let mut i: usize = 0;
        while i < entries.len()
            invariant
                self.wf(),
                self@ == old(self)@,
                i <= entries.len(),
                forall|j: int| 0 <= j < i ==> !is_blank(#[trigger] entries@[j].content@),
            decreases entries.len() - i,
        {
            if validate_entry(&entries[i]).is_err() {
                return Err(RustyDiaryError::ContentIntegrity(String::from_str("Empty content")));
            }
            i = i + 1;
        }
        let ghost start = self@;
        let mut i: usize = 0;
        while i < entries.len()
            invariant
                self.wf(),
                i <= entries.len(),
                self@ == upsert_all(start, entries@.subrange(0, i as int)),
            decreases entries.len() - i,
        {
            let e = entries[i].duplicate();
            self.upsert(e);
            proof {
                assert(entries@.subrange(0, i + 1).drop_last() =~= entries@.subrange(0, i as int));
            }
            i = i + 1;
        }
        assert(entries@.subrange(0, entries@.len() as int) =~= entries@);
        Ok(())
    }

    /// Inserts `e`, replacing the row with its key if there is one.
    fn upsert(&mut self, e: DiaryEntry)
        requires
            old(self).wf(),
        ensures
            final(self).wf(),
            final(self)@ == old(self)@.insert(key_of(e), e),
    {
        let len = self.rows.len();
        let mut p: usize = 0;
        while p < len && self.rows[p].is_before_row(&e)
            invariant
                self.wf(),
                len == self.rows.len(),
                p <= len,
                forall|i: int| 0 <= i < p ==> row_before(self.rows@[i], e),
            decreases len - p,
        {
            p = p + 1;
        }
        let ghost old_rows = self.rows@;
        let ghost old_table = self.table@;
        let k = (e.date, e.exec_version);
        if p < len && self.rows[p].date == e.date && self.rows[p].exec_version == e.exec_version {
            self.rows.set(p, e);
            self.table = Ghost(old_table.insert(k, e));
            proof {
                let nr = self.rows@;
                assert forall|i: int, j: int| 0 <= i < j < nr.len() implies row_before(
                    nr[i],
                    nr[j],
                ) by {
                    assert(row_before(old_rows[i], old_rows[j]));
                }
                assert forall|i: int| 0 <= i < self.rows@.len() implies self.table@.contains_key(
                    key_of(#[trigger] self.rows@[i]),
                ) && self.table@[key_of(self.rows@[i])] == self.rows@[i] by {
                    if i != p {
                        if i < p {
                            lemma_row_order(old_rows[i], old_rows[p as int], e);
                        } else {
                            lemma_row_order(old_rows[p as int], old_rows[i], e);
                        }
                    }
                }
                assert forall|q: RowKey| #[trigger] self.table@.contains_key(q) implies exists|i: int|
                    0 <= i < self.rows@.len() && key_of(self.rows@[i]) == q by {
                    if q != k {
                        let i = choose|i: int| 0 <= i < old_rows.len() && key_of(old_rows[i]) == q;
                        assert(key_of(self.rows@[i]) == q);
                    } else {
                        assert(key_of(self.rows@[p as int]) == q);
                    }
                }
            }
        } else {
            proof {
                if p < len {
                    lemma_row_order(old_rows[p as int], e, e);
                    assert(row_before(e, old_rows[p as int]));
                }
            }
            self.rows.insert(p, e);
            self.table = Ghost(old_table.insert(k, e));
            proof {
                let nr = self.rows@;
                assert forall|i: int, j: int| 0 <= i < j < nr.len() implies row_before(
                    nr[i],
                    nr[j],
                ) by {
                    if i < p && j == p {
                    } else if i < p && j > p {
                        lemma_row_order(old_rows[i], e, old_rows[j - 1]);
                        if j - 1 > p {
                            lemma_row_order(e, old_rows[p as int], old_rows[j - 1]);
                        }
                    } else if i == p {
                        if j - 1 > p {
                            lemma_row_order(e, old_rows[p as int], old_rows[j - 1]);
                        }
                    } else {
                    }
                }
                assert forall|i: int| 0 <= i < nr.len() implies self.table@.contains_key(
                    key_of(#[trigger] nr[i]),
                ) && self.table@[key_of(nr[i])] == nr[i] by {
                    if i < p {
                        lemma_row_order(old_rows[i], e, e);
                    } else if i > p {
                        lemma_row_order(e, old_rows[p as int], old_rows[i - 1]);
                        lemma_row_order(e, old_rows[i - 1], e);
                    }
                }
                assert forall|q: RowKey| #[trigger] self.table@.contains_key(q) implies exists|i: int|
                    0 <= i < nr.len() && key_of(nr[i]) == q by {
                    if q != k {
                        let i = choose|i: int| 0 <= i < old_rows.len() && key_of(old_rows[i]) == q;
                        if i < p {
                            assert(key_of(nr[i]) == q);
                        } else {
                            assert(key_of(nr[i + 1]) == q);
                        }
                    } else {
                        assert(key_of(nr[p as int]) == q);
                    }
                }
            }
        }
    }
}

/// Whether `s` holds whitespace only.
pub(crate) fn blank(s: &str) -> (r: bool)
    ensures
        r == is_blank(s@),
{
    let cs = chars_of(s);
    let mut i: usize = 0;
    while i < cs.len()
        invariant
            cs@ == s@,
            i <= cs.len(),
            forall|j: int| 0 <= j < i ==> is_white(#[trigger] cs@[j]),
        decreases cs.len() - i,
    {
        if !is_whitespace(cs[i]) {
            return false;
        }
        i = i + 1;
    }
    true
}

/// Refuses an entry whose content is blank.
fn validate_entry(entry: &DiaryEntry) -> (r: Result<(), RustyDiaryError>)
    ensures
        r.is_ok() <==> !is_blank(entry.content@),
        r.is_err() ==> r->Err_0 is ContentIntegrity,
{
    if blank(entry.content.as_str()) {
        Err(RustyDiaryError::ContentIntegrity(String::from_str("Empty content")))
    } else {
        Ok(())
    }
}

impl RowFilter {
    fn admits(&self, e: &DiaryEntry) -> (r: bool)
        ensures
            r == admits(*self, *e),
    {
        match self {
            RowFilter::Span(start, end) => !e.date.is_before(start) && !end.is_before(&e.date),
            RowFilter::Version(v) => e.exec_version == *v,
        }
    }
}

impl EntryMetadata {
    fn is_before_meta(&self, other: &EntryMetadata) -> (r: bool)
        ensures
            r == meta_before(*self, *other),
    {
        self.date.is_before(&other.date) || (self.date == other.date && self.exec_version
            > other.exec_version)
    }
}

impl DiaryEntry {
    pub(crate) fn is_before_row(&self, other: &DiaryEntry) -> (r: bool)
        ensures
            r == row_before(*self, *other),
    {
        other.date.is_before(&self.date) || (self.date == other.date && self.exec_version
            > other.exec_version)
    }
}

} // verus!
