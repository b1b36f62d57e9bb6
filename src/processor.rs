use vstd::prelude::*;
use vstd::string::StringExecFns;
use crate::date::Date;
use crate::entry::DiaryEntry;
use crate::error::RustyDiaryError;
use crate::storage::is_blank;
use crate::text::normalized;
use chrono::Datelike;

verus! {

/// Whether `p` is a regular expression that the `regex` crate accepts.
pub uninterp spec fn pattern_compiles(p: Seq<char>) -> bool;

/// The text of capture group 1 of the leftmost match of pattern `p` in `text`,
/// where there is a match and the group took part in it.
pub uninterp spec fn first_group(p: Seq<char>, text: Seq<char>) -> Option<Seq<char>>;

/// The date that `text` spells in the form `%Y-%m-%d`, as chrono reads it.
pub uninterp spec fn parsed_date(text: Seq<char>) -> Option<Date>;

/// Relies on `regex::Regex::new`: whether the pattern compiles, and its error message.
#[verifier::external_body]
pub(crate) fn compile_pattern(p: &str) -> (r: Result<(), String>)
    ensures
        r.is_ok() == pattern_compiles(p@),
{
    match regex::Regex::new(p) {
        Ok(_) => Ok(()),
        Err(e) => Err(e.to_string()),
    }
}

/// Relies on `regex::Regex::captures`: capture group 1 of the leftmost match.
#[verifier::external_body]
fn capture_first_group(p: &str, text: &str) -> (r: Option<String>)
    requires
        pattern_compiles(p@),
    ensures
        r.is_some() == first_group(p@, text@).is_some(),
        r.is_some() ==> r.unwrap()@ == first_group(p@, text@).unwrap(),
{
    let re = regex::Regex::new(p).unwrap();
    let caps = re.captures(text)?;
    let group = caps.get(1)?;
    Some(group.as_str().to_string())
}

/// Relies on `chrono::NaiveDate::parse_from_str` with the format `%Y-%m-%d`;
/// chrono only builds dates that exist.
#[verifier::external_body]
fn parse_ymd(text: &str) -> (r: Option<Date>)
    ensures
        r == parsed_date(text@),
        r.is_some() ==> r.unwrap().wf(),
{
    match chrono::NaiveDate::parse_from_str(text, "%Y-%m-%d") {
        Ok(d) => Some(Date { year: d.year(), month: d.month(), day: d.day() }),
        Err(_) => None,
    }
}

/// The date that a source name carries under pattern `p`, if any.
pub open spec fn date_of_name(p: Seq<char>, name: Seq<char>) -> Option<Date> {
    match first_group(p, name) {
        Some(t) => parsed_date(t),
        None => None,
    }
}

/// The `(date, content)` record that a source yields, if it yields one: its name
/// carries a date and its content, once normalized, is not blank.
pub open spec fn record_of(p: Seq<char>, name: Seq<char>, raw: Seq<char>) -> Option<
    (Date, Seq<char>),
> {
    match date_of_name(p, name) {
        Some(d) => if is_blank(raw) || is_blank(normalized(raw)) {
            None
        } else {
            Some((d, normalized(raw)))
        },
        None => None,
    }
}

/// Reads dates out of source names and checks source content.
pub struct MarkdownProcessor {
    date_pattern: String,
}

impl MarkdownProcessor {
    pub closed spec fn pattern(&self) -> Seq<char> {
        self.date_pattern@
    }

    pub closed spec fn wf(&self) -> bool {
        pattern_compiles(self.date_pattern@)
    }

    /// A processor for names matched by `date_pattern`, whose first capture
    /// group holds the date.
    pub fn new(date_pattern: &str) -> (r: Result<MarkdownProcessor, RustyDiaryError>)
        ensures
            r.is_ok() == pattern_compiles(date_pattern@),
            r.is_ok() ==> r.unwrap().wf() && r.unwrap().pattern() == date_pattern@,
            r.is_err() ==> r->Err_0 is InvalidPattern,
    {
        match compile_pattern(date_pattern) {
            Ok(()) => Ok(MarkdownProcessor { date_pattern: String::from_str(date_pattern) }),
            Err(msg) => Err(RustyDiaryError::InvalidPattern(msg)),
        }
    }

    /// The date in a source's file name.
    pub fn extract_date(&self, file_name: &str) -> (r: Result<Date, RustyDiaryError>)
        requires
            self.wf(),
        ensures
            r.is_ok() == date_of_name(self.pattern(), file_name@).is_some(),
            r.is_ok() ==> r.unwrap() == date_of_name(self.pattern(), file_name@).unwrap()
                && r.unwrap().wf(),
            first_group(self.pattern(), file_name@).is_none() ==> r.is_err()
                && r->Err_0 is ContentIntegrity,
            first_group(self.pattern(), file_name@).is_some() && r.is_err() ==> r->Err_0 is DateParse,
    {
        match capture_first_group(self.date_pattern.as_str(), file_name) {
            None => Err(
                RustyDiaryError::ContentIntegrity(
                    String::from_str("Filename does not match pattern"),
                ),
            ),
            Some(text) => match parse_ymd(text.as_str()) {
                Some(d) => Ok(d),
                None => Err(RustyDiaryError::DateParse(text)),
            },
        }
    }

    /// Refuses content that holds whitespace only.
    pub fn validate_content(&self, content: &str) -> (r: Result<(), RustyDiaryError>)
        ensures
            r.is_ok() == !is_blank(content@),
            r.is_err() ==> r->Err_0 is ContentIntegrity && r->Err_0->ContentIntegrity_0@
                == "Empty content"@,
    {
        if crate::storage::blank(content) {
            Err(RustyDiaryError::ContentIntegrity(String::from_str("Empty content")))
        } else {
            Ok(())
        }
    }

    /// The entry of version `exec_version` that a source named `file_name` with
    /// text `content` yields.
    pub fn process_file(&self, file_name: &str, content: String, exec_version: i64) -> (r: Result<
        DiaryEntry,
        RustyDiaryError,
    >)
        requires
            self.wf(),
        ensures
            r.is_ok() == record_of(self.pattern(), file_name@, content@).is_some(),
            r.is_ok() ==> {
                let (d, c) = record_of(self.pattern(), file_name@, content@).unwrap();
                &&& r.unwrap().date == d
                &&& r.unwrap().content@ == c
                &&& r.unwrap().exec_version == exec_version
                &&& r.unwrap().created_at.wf()
                &&& r.unwrap().updated_at == Some(r.unwrap().created_at)
            },
    {
        let date = match self.extract_date(file_name) {
            Ok(d) => d,
            Err(e) => return Err(e),
        };
        if let Err(e) = self.validate_content(content.as_str()) {
            return Err(e);
        }
        let entry = DiaryEntry::new(exec_version, date, content);
        if crate::storage::blank(entry.content.as_str()) {
            return Err(RustyDiaryError::ContentIntegrity(String::from_str("Empty content")));
        }
        Ok(entry)
    }
}

} // verus!
