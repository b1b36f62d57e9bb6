use vstd::prelude::*;
use crate::date::Date;
use crate::text::{count_words, normalize, normalized, words_in};
use chrono::{Datelike, Timelike};

verus! {

/// A wall-clock reading: a date and a time of day.
#[derive(Clone, Copy, Debug, PartialEq, Eq, Structural, Hash)]
pub struct Timestamp {
    pub date: Date,
    pub hour: u32,
    pub minute: u32,
    pub second: u32,
    /// Nanoseconds past the second; from 1_000_000_000 on, a leap second.
    pub nanosecond: u32,
}

impl Timestamp {
    pub open spec fn wf(self) -> bool {
        self.date.wf() && self.hour < 24 && self.minute < 60 && self.second < 60 && self.nanosecond
            < 2_000_000_000
    }
}

/// Relies on `chrono::Local::now` and `DateTime::naive_local`: the local wall-clock
/// time, whose calendar and clock fields chrono keeps in their documented ranges.
#[verifier::external_body]
pub(crate) fn local_now() -> (r: Timestamp)
    ensures
        r.wf(),
{
    let now = chrono::Local::now().naive_local();
    Timestamp {
        date: Date { year: now.year(), month: now.month(), day: now.day() },
        hour: now.hour(),
        minute: now.minute(),
        second: now.second(),
        nanosecond: now.nanosecond(),
    }
}

/// One diary entry of one execution version.
#[derive(Clone, Debug)]
pub struct DiaryEntry {
    pub exec_version: i64,
    pub date: Date,
    pub content: String,
    pub created_at: Timestamp,
    pub updated_at: Option<Timestamp>,
}

/// What is derived from an entry for statistics.
#[derive(Clone, Copy, Debug, PartialEq, Eq, Structural, Hash)]
pub struct EntryMetadata {
    pub date: Date,
    pub word_count: usize,
    pub exec_version: i64,
}

/// Two entries record the same thing: same date and same content.
pub open spec fn same_record(a: DiaryEntry, b: DiaryEntry) -> bool {
    a.date == b.date && a.content@ == b.content@
}

pub open spec fn metadata_of(e: DiaryEntry) -> EntryMetadata {
    EntryMetadata { date: e.date, word_count: words_in(e.content@) as usize, exec_version: e.exec_version }
}

impl DiaryEntry {
    /// An entry built from raw source text at the time `now`: the first line of
    /// `content` is dropped and the lines that remain are joined by `\n`.
    pub fn new_at(exec_version: i64, date: Date, content: String, now: Timestamp) -> (r: DiaryEntry)
        ensures
            r.exec_version == exec_version,
            r.date == date,
            r.content@ == normalized(content@),
            r.created_at == now,
            r.updated_at == Some(now),
    {
        let content = normalize(content.as_str());
        DiaryEntry { exec_version, date, content, created_at: now, updated_at: Some(now) }
    }

    /// As `new_at`, stamped with the current local time.
    pub fn new(exec_version: i64, date: Date, content: String) -> (r: DiaryEntry)
        ensures
            r.exec_version == exec_version,
            r.date == date,
            r.content@ == normalized(content@),
            r.created_at.wf(),
            r.updated_at == Some(r.created_at),
    {
        let now = local_now();
        DiaryEntry::new_at(exec_version, date, content, now)
    }

    /// Equality for deduplication: date and content; version and times do not count.
    pub fn eq(&self, other: &DiaryEntry) -> (r: bool)
        ensures
            r == same_record(*self, *other),
    {
        self.date == other.date && self.content == other.content
    }

    pub fn word_count(&self) -> (r: usize)
        ensures
            r == words_in(self.content@),
    {
        count_words(self.content.as_str())
    }

    pub fn metadata(&self) -> (r: EntryMetadata)
        ensures
            r == metadata_of(*self),
    {
        EntryMetadata { date: self.date, word_count: self.word_count(), exec_version: self.exec_version }
    }
}

} // verus!
