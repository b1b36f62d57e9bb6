use vstd::prelude::*;
use vstd::string::StringExecFns;
use crate::config::Config;
use crate::date::{Date, date_before};
use crate::entry::{DiaryEntry, same_record};
use crate::error::RustyDiaryError;
use crate::journal::{date_text, int_text, journal, journal_file_name, journal_text, top_version};
use crate::processor::{MarkdownProcessor, record_of};
use crate::storage::{
    RowFilter, RowKey, StorageManager, admits, in_span, is_blank, is_latest_version, key_of,
    lists_rows, upsert_all,
};

verus! {

/// One source document as collected: its file name and its raw text.
pub struct SourceFile {
    pub name: String,
    pub content: String,
}

/// A `(date, normalized content)` pair that a source yields.
pub type Record = (Date, Seq<char>);

/// The records that the sources yield, in source order; sources that yield
/// none are skipped.
pub open spec fn records_of(p: Seq<char>, srcs: Seq<SourceFile>) -> Seq<Record>
    decreases srcs.len(),
{
    if srcs.len() == 0 {
        Seq::empty()
    } else {
        let prior = records_of(p, srcs.drop_last());
        match record_of(p, srcs.last().name@, srcs.last().content@) {
            Some(x) => prior.push(x),
            None => prior,
        }
    }
}

/// Some row of `m` has the date and the content of `x`.
pub open spec fn holds_record(m: Map<RowKey, DiaryEntry>, x: Record) -> bool {
    exists|k: RowKey| m.contains_key(k) && m[k].date == x.0 && #[trigger] m[k].content@ == x.1
}

/// The records of `xs` that no row of `m` already holds, in order.
pub open spec fn fresh_records(m: Map<RowKey, DiaryEntry>, xs: Seq<Record>) -> Seq<Record>
    decreases xs.len(),
{
    if xs.len() == 0 {
        Seq::empty()
    } else {
        let prior = fresh_records(m, xs.drop_last());
        if holds_record(m, xs.last()) {
            prior
        } else {
            prior.push(xs.last())
        }
    }
}

/// `es` are the records `xs`, in order, each tagged with version `v`.
pub open spec fn entries_match(es: Seq<DiaryEntry>, xs: Seq<Record>, v: i64) -> bool {
    &&& es.len() == xs.len()
    &&& forall|i: int|
        0 <= i < es.len() ==> (#[trigger] es[i]).date == xs[i].0 && es[i].content@ == xs[i].1
            && es[i].exec_version == v
}

/// The earliest date among the records; `xs` is not empty.
pub open spec fn first_date(xs: Seq<Record>) -> Date
    decreases xs.len(),
{
    if xs.len() <= 1 {
        xs[0].0
    } else {
        let d = first_date(xs.drop_last());
        if date_before(xs.last().0, d) {
            xs.last().0
        } else {
            d
        }
    }
}

/// The latest date among the records; `xs` is not empty.
pub open spec fn last_date(xs: Seq<Record>) -> Date
    decreases xs.len(),
{
    if xs.len() <= 1 {
        xs[0].0
    } else {
        let d = last_date(xs.drop_last());
        if date_before(d, xs.last().0) {
            xs.last().0
        } else {
            d
        }
    }
}

/// What one synchronization run did.
pub struct SyncReport {
    /// Earliest and latest date among the entries built from the sources.
    pub start_date: Date,
    pub end_date: Date,
    /// The version of this run.
    pub exec_version: i64,
    /// The entries that were written: those not already stored with equal date and content.
    pub stored: Vec<DiaryEntry>,
    /// Positions of the sources that yielded an entry; they may now be removed.
    pub processed: Vec<usize>,
    /// Positions of the sources that yielded none, with the reason.
    pub failures: Vec<(usize, RustyDiaryError)>,
}

/// The synchronization engine over a store.
pub struct RustyDiary {
    processor: MarkdownProcessor,
    storage: StorageManager,
}

impl RustyDiary {
    pub closed spec fn view(&self) -> Map<RowKey, DiaryEntry> {
        self.storage@
    }

    pub closed spec fn pattern(&self) -> Seq<char> {
        self.processor.pattern()
    }

    pub closed spec fn wf(&self) -> bool {
        self.processor.wf() && self.storage.wf()
    }

    /// An engine over `storage` that reads dates from source names with the
    /// configured pattern.
    pub fn new(config: Config, storage: StorageManager) -> (r: Result<RustyDiary, RustyDiaryError>)
        requires
            storage.wf(),
        ensures
            r.is_ok() == crate::processor::pattern_compiles(config.date_pattern@),
            r.is_ok() ==> r.unwrap().wf() && r.unwrap()@ == storage@ && r.unwrap().pattern()
                == config.date_pattern@,
            r.is_err() ==> r->Err_0 is InvalidPattern,
    {
        match MarkdownProcessor::new(config.date_pattern.as_str()) {
            Ok(processor) => Ok(RustyDiary { processor, storage }),
            Err(e) => Err(e),
        }
    }

    pub fn storage(&self) -> (r: &StorageManager)
        ensures
            r@ == self@,
            self.wf() ==> r.wf(),
    {
        &self.storage
    }

    /// The journal of the stored entries whose date lies in `[start_date, end_date]`,
    /// as written on `today` under `prefix`: its file name and its text.
    pub fn write_journal(&self, start_date: Date, end_date: Date, today: Date, prefix: &str) -> (r: (
        String,
        String,
    ))
        requires
            self.wf(),
        ensures
            exists|es: Seq<DiaryEntry>|
                lists_rows(es, self@, RowFilter::Span(start_date, end_date)) && r.1@ == journal(
                    today,
                    es,
                ) && r.0@ == prefix@ + "_"@ + date_text(today) + "_"@ + int_text(top_version(es))
                    + ".md"@,
    {
        let entries = self.storage.entries_by_date_range(start_date, end_date);
        let name = journal_file_name(prefix, today, &entries);
        let text = journal_text(today, &entries);
        (name, text)
    }

    /// One synchronization run over the collected sources: builds an entry of
    /// the next version from each source that yields one, and stores those whose
    /// date and content no stored row already has.
    pub fn synchronize(&mut self, sources: Vec<SourceFile>) -> (r: Result<SyncReport, RustyDiaryError>)
        requires
            old(self).wf(),
        ensures
            final(self).wf(),
            final(self).pattern() == old(self).pattern(),
            sources@.len() == 0 ==> r.is_err() && r->Err_0 is NoFilesFound,
            sources@.len() > 0 && is_latest_version(old(self)@, i64::MAX) ==> r.is_err()
                && r->Err_0 is Database,
            sources@.len() > 0 && !is_latest_version(old(self)@, i64::MAX) && records_of(
                old(self).pattern(),
                sources@,
            ).len() == 0 ==> r.is_err() && r->Err_0 is NoFilesFound,
            sources@.len() > 0 && !is_latest_version(old(self)@, i64::MAX) && records_of(
                old(self).pattern(),
                sources@,
            ).len() > 0 ==> r.is_ok(),
            r.is_err() ==> final(self)@ == old(self)@,
            r.is_ok() ==> {
                let rep = r.unwrap();
                let xs = records_of(old(self).pattern(), sources@);
                &&& xs.len() > 0
                &&& forall|l: i64|
                    is_latest_version(old(self)@, l) ==> rep.exec_version as int == l + 1
                &&& rep.start_date == first_date(xs)
                &&& rep.end_date == last_date(xs)
                &&& entries_match(rep.stored@, fresh_records(old(self)@, xs), rep.exec_version)
                &&& final(self)@ == upsert_all(old(self)@, rep.stored@)
                &&& forall|a: int, b: int|
                    0 <= a < b < rep.processed@.len() ==> rep.processed@[a] < rep.processed@[b]
                &&& rep.processed@.len() + rep.failures@.len() == sources@.len()
                &&& forall|a: int, b: int|
                    0 <= a < b < rep.failures@.len() ==> rep.failures@[a].0 < rep.failures@[b].0
                &&& forall|a: int|
                    0 <= a < rep.failures@.len() ==> #[trigger] rep.failures@[a].0 < sources@.len()
                        && record_of(
                        old(self).pattern(),
                        sources@[rep.failures@[a].0 as int].name@,
                        sources@[rep.failures@[a].0 as int].content@,
                    ).is_none()
                &&& forall|i: int|
                    0 <= i < sources@.len() ==> (rep.processed@.contains(i as usize) <==> record_of(
                        old(self).pattern(),
                        sources@[i].name@,
                        sources@[i].content@,
                    ).is_some())
            },
    {
        if sources.len() == 0 {
            return Err(RustyDiaryError::NoFilesFound(String::from_str("no source documents")));
        }
        let latest = self.storage.latest_exec_version();
        if latest == i64::MAX {
            return Err(RustyDiaryError::Database(String::from_str("execution version overflow")));
        }
        let next = latest + 1;
        proof {
            assert forall|l: i64| is_latest_version(self@, l) implies next as int == l + 1 by {
                lemma_latest_unique(self@, l, latest);
            }
        }
        let ghost p = self.processor.pattern();
        let mut built: Vec<DiaryEntry> = Vec::new();
        let mut processed: Vec<usize> = Vec::new();
        let mut failures: Vec<(usize, RustyDiaryError)> = Vec::new();
        let mut i: usize = 0;
        while i < sources.len()
            invariant
                self.wf(),
                self@ == old(self)@,
                p == self.processor.pattern(),
                i <= sources.len(),
                entries_match(built@, records_of(p, sources@.subrange(0, i as int)), next),
                forall|j: int| 0 <= j < built@.len() ==> !is_blank(#[trigger] built@[j].content@),
                forall|a: int| 0 <= a < processed@.len() ==> #[trigger] processed@[a] < i,
                processed@.len() + failures@.len() == i,
                forall|a: int, b: int|
                    0 <= a < b < failures@.len() ==> failures@[a].0 < failures@[b].0,
                forall|a: int|
                    0 <= a < failures@.len() ==> #[trigger] failures@[a].0 < i && record_of(
                        p,
                        sources@[failures@[a].0 as int].name@,
                        sources@[failures@[a].0 as int].content@,
                    ).is_none(),
                forall|a: int, b: int|
                    0 <= a < b < processed@.len() ==> processed@[a] < processed@[b],
                forall|j: int|
                    0 <= j < i ==> (processed@.contains(j as usize) <==> record_of(
                        p,
                        sources@[j].name@,
                        sources@[j].content@,
                    ).is_some()),
            decreases sources.len() - i,
        {
            let ghost prior = processed@;
            proof {
                assert(sources@.subrange(0, i + 1).drop_last() =~= sources@.subrange(0, i as int));
            }
            let src = &sources[i];
            match self.processor.process_file(src.name.as_str(), src.content.clone(), next) {
                Ok(entry) => {
                    built.push(entry);
                    processed.push(i);
                },
                Err(e) => {
                    failures.push((i, e));
                },
            }
            proof {
                assert forall|j: int| 0 <= j < i + 1 implies (processed@.contains(j as usize)
                    <==> record_of(p, sources@[j].name@, sources@[j].content@).is_some()) by {
                    if j < i {
                        if prior.contains(j as usize) {
                            let a = choose|a: int| 0 <= a < prior.len() && prior[a] == j as usize;
                            assert(processed@[a] == j as usize);
                        }
                        if processed@.contains(j as usize) {
                            let a = choose|a: int|
                                0 <= a < processed@.len() && processed@[a] == j as usize;
                            assert(a < prior.len());
                            assert(prior[a] == j as usize);
                        }
                    } else {
                        if record_of(p, sources@[j].name@, sources@[j].content@).is_some() {
                            assert(processed@[processed@.len() - 1] == j as usize);
                        }
                    }
                }
            }
            i = i + 1;
        }
        proof {
            assert(sources@.subrange(0, sources@.len() as int) =~= sources@);
        }
        let ghost xs = records_of(p, sources@);
        if built.len() == 0 {
            return Err(RustyDiaryError::NoFilesFound(String::from_str("no source yields an entry")));
        }
        let mut start = built[0].date;
        let mut end = built[0].date;
        let mut i: usize = 1;
        while i < built.len()
            invariant
                1 <= i <= built.len(),
                entries_match(built@, xs, next),
                start == first_date(xs.subrange(0, i as int)),
                end == last_date(xs.subrange(0, i as int)),
                forall|j: int| 0 <= j < i ==> in_span(#[trigger] built@[j].date, start, end),
            decreases built.len() - i,
        {
            proof {
                assert(xs.subrange(0, i + 1).drop_last() =~= xs.subrange(0, i as int));
            }
            if built[i].date.is_before(&start) {
                start = built[i].date;
            }
            if end.is_before(&built[i].date) {
                end = built[i].date;
            }
            i = i + 1;
        }
        proof {
            assert(xs.subrange(0, built@.len() as int) =~= xs);
        }
        let overlap = self.storage.entries_by_date_range(start, end);
        let mut fresh: Vec<DiaryEntry> = Vec::new();
        let mut i: usize = 0;
        while i < built.len()
            invariant
                self.wf(),
                self@ == old(self)@,
                i <= built.len(),
                entries_match(built@, xs, next),
                forall|j: int| 0 <= j < built@.len() ==> in_span(#[trigger] built@[j].date, start, end),
                forall|j: int| 0 <= j < built@.len() ==> !is_blank(#[trigger] built@[j].content@),
                lists_rows(overlap@, self@, RowFilter::Span(start, end)),
                entries_match(fresh@, fresh_records(self@, xs.subrange(0, i as int)), next),
                forall|j: int| 0 <= j < fresh@.len() ==> !is_blank(#[trigger] fresh@[j].content@),
            decreases built.len() - i,
        {
            proof {
                assert(xs.subrange(0, i + 1).drop_last() =~= xs.subrange(0, i as int));
            }
            let seen = stored_already(&overlap, &built[i], Ghost(self@), Ghost(start), Ghost(end));
            if !seen {
                fresh.push(built[i].duplicate());
            }
            i = i + 1;
        }
        proof {
            assert(xs.subrange(0, built@.len() as int) =~= xs);
        }
        let stored = duplicate_all(&fresh);
        if fresh.len() > 0 {
            let res = self.storage.store_entries(fresh);
            assert(res.is_ok());
        } else {
            assert(upsert_all(self@, fresh@) == self@);
        }
        Ok(SyncReport { start_date: start, end_date: end, exec_version: next, stored, processed, failures })
    }
}

proof fn lemma_latest_unique(m: Map<RowKey, DiaryEntry>, a: i64, b: i64)
    requires
        is_latest_version(m, a),
        is_latest_version(m, b),
    ensures
        a == b,
{
    if !m.dom().is_empty() {
        let ka = choose|k: RowKey| m.contains_key(k) && k.1 == a;
        let kb = choose|k: RowKey| m.contains_key(k) && k.1 == b;
        assert(ka.1 <= b && kb.1 <= a);
    }
}

/// Whether a row of the store already has the date and content of `e`, given
/// the rows of the store in a span that holds `e`'s date.
fn stored_already(
    overlap: &Vec<DiaryEntry>,
    e: &DiaryEntry,
    m: Ghost<Map<RowKey, DiaryEntry>>,
    start: Ghost<Date>,
    end: Ghost<Date>,
) -> (r: bool)
    requires
        lists_rows(overlap@, m@, RowFilter::Span(start@, end@)),
        in_span(e.date, start@, end@),
    ensures
        r == holds_record(m@, (e.date, e.content@)),
{
    let mut j: usize = 0;
    while j < overlap.len()
        invariant
            lists_rows(overlap@, m@, RowFilter::Span(start@, end@)),
            in_span(e.date, start@, end@),
            j <= overlap.len(),
            forall|a: int| 0 <= a < j ==> !same_record(#[trigger] overlap@[a], *e),
        decreases overlap.len() - j,
    {
        if overlap[j].eq(e) {
            proof {
                let k = key_of(overlap@[j as int]);
                assert(m@.contains_key(k) && m@[k] == overlap@[j as int]);
                assert(m@[k].content@ == e.content@);
            }
            return true;
        }
        j = j + 1;
    }
    proof {
        if holds_record(m@, (e.date, e.content@)) {
            let k = choose|k: RowKey|
                m@.contains_key(k) && m@[k].date == e.date && #[trigger] m@[k].content@
                    == e.content@;
            assert(admits(RowFilter::Span(start@, end@), m@[k]));
            assert(overlap@.contains(m@[k]));
            let a = choose|a: int| 0 <= a < overlap@.len() && overlap@[a] == m@[k];
            assert(same_record(overlap@[a], *e));
        }
    }
    false
}

fn duplicate_all(v: &Vec<DiaryEntry>) -> (r: Vec<DiaryEntry>)
    ensures
        r@ == v@,
{
    let mut out: Vec<DiaryEntry> = Vec::new();
    let mut i: usize = 0;
    while i < v.len()
        invariant
            i <= v.len(),
            out@ == v@.subrange(0, i as int),
        decreases v.len() - i,
    {
        out.push(v[i].duplicate());
        proof {
            assert(out@ =~= v@.subrange(0, i + 1));
        }
        i = i + 1;
    }
    proof {
        assert(v@.subrange(0, v@.len() as int) =~= v@);
    }
    out
}

} // verus!
