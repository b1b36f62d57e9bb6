use vstd::prelude::*;
use vstd::string::StringExecFns;
use crate::date::Date;
use crate::entry::DiaryEntry;
use crate::text::string_of;

verus! {

pub open spec fn digit_char(d: int) -> char {
    seq!['0', '1', '2', '3', '4', '5', '6', '7', '8', '9'][d]
}

/// Decimal digits of `n`, without leading zeros.
pub open spec fn digits(n: nat) -> Seq<char>
    decreases n,
{
    if n < 10 {
        seq![digit_char(n as int)]
    } else {
        digits(n / 10).push(digit_char((n % 10) as int))
    }
}

/// `s` with zeros in front up to width `w`.
pub open spec fn padded(s: Seq<char>, w: nat) -> Seq<char> {
    if s.len() >= w {
        s
    } else {
        Seq::new((w - s.len()) as nat, |i: int| '0') + s
    }
}

/// A signed integer in decimal, with `-` before a negative one.
pub open spec fn int_text(n: int) -> Seq<char> {
    if n < 0 {
        seq!['-'] + digits((-n) as nat)
    } else {
        digits(n as nat)
    }
}

/// ISO 8601 text of a date: `YYYY-MM-DD`, and a signed year of at least four
/// digits outside years 0 to 9999.
pub open spec fn date_text(d: Date) -> Seq<char> {
    let y = d.year as int;
    let year = if 0 <= y <= 9999 {
        padded(digits(y as nat), 4)
    } else if y < 0 {
        seq!['-'] + padded(digits((-y) as nat), 4)
    } else {
        seq!['+'] + padded(digits(y as nat), 4)
    };
    year + seq!['-'] + padded(digits(d.month as nat), 2) + seq!['-'] + padded(digits(d.day as nat), 2)
}

fn digits_of(n: u64) -> (r: Vec<char>)
    ensures
        r@ == digits(n as nat),
    decreases n,
{
    let table = ['0', '1', '2', '3', '4', '5', '6', '7', '8', '9'];
    if n < 10 {
        let c = table[n as usize];
        assert(c == digit_char(n as int));
        let mut v: Vec<char> = Vec::new();
        v.push(c);
        assert(v@ =~= seq![digit_char(n as int)]);
        v
    } else {
        let mut v = digits_of(n / 10);
        let c = table[(n % 10) as usize];
        assert(c == digit_char((n % 10) as int));
        v.push(c);
        v
    }
}

fn pad_to(v: Vec<char>, w: usize) -> (r: Vec<char>)
    ensures
        r@ == padded(v@, w as nat),
{
    if v.len() >= w {
        return v;
    }
    let mut out: Vec<char> = Vec::new();
    let fill = w - v.len();
    while out.len() < fill
        invariant
            fill == w - v.len(),
            out.len() <= fill,
            forall|i: int| 0 <= i < out.len() ==> out@[i] == '0',
        decreases fill - out.len(),
    {
        out.push('0');
    }
    let mut i: usize = 0;
    let ghost zeros = out@;
    while i < v.len()
        invariant
            zeros.len() == fill,
            i <= v.len(),
            out@ == zeros + v@.subrange(0, i as int),
        decreases v.len() - i,
    {
        out.push(v[i]);
        proof {
            assert(out@ =~= zeros + v@.subrange(0, i + 1));
        }
        i = i + 1;
    }
    proof {
        assert(v@.subrange(0, v@.len() as int) =~= v@);
        assert(zeros =~= Seq::new((w - v@.len()) as nat, |i: int| '0'));
    }
    out
}

/// Decimal text of a signed integer.
pub fn int_to_text(n: i64) -> (r: String)
    ensures
        r@ == int_text(n as int),
{
    if n < 0 {
        let mag: u64 = ((-(n + 1)) as u64) + 1;
        let mut v: Vec<char> = Vec::new();
        v.push('-');
        let d = digits_of(mag);
        let mut i: usize = 0;
        while i < d.len()
            invariant
                i <= d.len(),
                v@ == seq!['-'] + d@.subrange(0, i as int),
            decreases d.len() - i,
        {
            v.push(d[i]);
            proof {
                assert(v@ =~= seq!['-'] + d@.subrange(0, i + 1));
            }
            i = i + 1;
        }
        proof {
            assert(d@.subrange(0, d@.len() as int) =~= d@);
        }
        string_of(v.as_slice())
    } else {
        let d = digits_of(n as u64);
        string_of(d.as_slice())
    }
}

impl Date {
    /// The date as ISO 8601 text.
    pub fn to_text(&self) -> (r: String)
        ensures
            r@ == date_text(*self),
    {
        let y = self.year;
        let mut out = String::new();
        if 0 <= y && y <= 9999 {
            let t = string_of(pad_to(digits_of(y as u64), 4).as_slice());
            out.append(t.as_str());
        } else if y < 0 {
            let mag: u64 = ((-(y as i64)) as u64);
            let t = string_of(pad_to(digits_of(mag), 4).as_slice());
            out.append("-");
            out.append(t.as_str());
        } else {
            let t = string_of(pad_to(digits_of(y as u64), 4).as_slice());
            out.append("+");
            out.append(t.as_str());
        }
        let m = string_of(pad_to(digits_of(self.month as u64), 2).as_slice());
        let d = string_of(pad_to(digits_of(self.day as u64), 2).as_slice());
        out.append("-");
        out.append(m.as_str());
        out.append("-");
        out.append(d.as_str());
        proof {
            reveal_strlit("-");
            reveal_strlit("+");
            assert(out@ =~= date_text(*self));
        }
        out
    }
}

/// The journal's sections for `es`: for each entry a heading with its date,
/// its content, and a closing rule.
pub open spec fn sections(es: Seq<DiaryEntry>) -> Seq<char>
    decreases es.len(),
{
    if es.len() == 0 {
        Seq::empty()
    } else {
        sections(es.drop_last()) + "# "@ + date_text(es.last().date) + "\n"@ + es.last().content@
            + "\n\n***\n"@
    }
}

/// The text of a journal written on `today`: a header line that counts the
/// entries, a blank line, then one section per entry in order.
pub open spec fn journal(today: Date, es: Seq<DiaryEntry>) -> Seq<char> {
    "# rusty-diary:date:"@ + date_text(today) + " -- ## total-entries("@ + int_text(es.len() as int)
        + ")\n\n"@ + sections(es)
}

/// The largest version among the entries; 0 where there are none.
pub open spec fn top_version(es: Seq<DiaryEntry>) -> int
    decreases es.len(),
{
    if es.len() == 0 {
        0
    } else if es.len() == 1 {
        es[0].exec_version as int
    } else {
        let t = top_version(es.drop_last());
        if es.last().exec_version > t {
            es.last().exec_version as int
        } else {
            t
        }
    }
}

/// The text of the journal of `entries` written on `today`.
pub fn journal_text(today: Date, entries: &Vec<DiaryEntry>) -> (r: String)
    ensures
        r@ == journal(today, entries@),
{
    let mut out = String::new();
    out.append("# rusty-diary:date:");
    let t = today.to_text();
    out.append(t.as_str());
    out.append(" -- ## total-entries(");
    let n = string_of(digits_of(entries.len() as u64).as_slice());
    out.append(n.as_str());
    out.append(")\n\n");
    let ghost head = out@;
    assert(head =~= "# rusty-diary:date:"@ + date_text(today) + " -- ## total-entries("@ + int_text(
        entries@.len() as int,
    ) + ")\n\n"@);
    let mut i: usize = 0;
    assert(entries@.subrange(0, 0) =~= Seq::<DiaryEntry>::empty());
    assert(head + Seq::<char>::empty() =~= head);
    while i < entries.len()
        invariant
            i <= entries.len(),
            out@ == head + sections(entries@.subrange(0, i as int)),
        decreases entries.len() - i,
    {
        proof {
            assert(entries@.subrange(0, i + 1).drop_last() =~= entries@.subrange(0, i as int));
        }
        out.append("# ");
        let d = entries[i].date.to_text();
        out.append(d.as_str());
        out.append("\n");
        out.append(entries[i].content.as_str());
        out.append("\n\n***\n");
        proof {
            let s = entries@.subrange(0, i + 1);
            assert(s.last() == entries@[i as int]);
            assert(out@ =~= head + sections(s));
        }
        i = i + 1;
    }
    proof {
        assert(entries@.subrange(0, entries@.len() as int) =~= entries@);
    }
    out
}

/// The name of that journal's file: the prefix, the date, and the largest
/// version among the entries.
pub fn journal_file_name(prefix: &str, today: Date, entries: &Vec<DiaryEntry>) -> (r: String)
    ensures
        r@ == prefix@ + "_"@ + date_text(today) + "_"@ + int_text(top_version(entries@)) + ".md"@,
{
    let mut top: i64 = 0;
    if entries.len() > 0 {
        top = entries[0].exec_version;
    }
    let mut i: usize = 1;
    while i < entries.len()
        invariant
            1 <= i,
            entries.len() > 0 ==> i <= entries.len() && top == top_version(
                entries@.subrange(0, i as int),
            ),
            entries.len() == 0 ==> top == 0,
        decreases entries.len() - i,
    {
        proof {
            assert(entries@.subrange(0, i + 1).drop_last() =~= entries@.subrange(0, i as int));
        }
        if entries[i].exec_version > top {
            top = entries[i].exec_version;
        }
        i = i + 1;
    }
    proof {
        if entries.len() > 0 {
            assert(entries@.subrange(0, entries@.len() as int) =~= entries@);
            assert(entries@.subrange(0, 1).drop_last() =~= Seq::<DiaryEntry>::empty());
        }
    }
    let mut out = String::from_str(prefix);
    out.append("_");
    let t = today.to_text();
    out.append(t.as_str());
    out.append("_");
    let v = int_to_text(top);
    out.append(v.as_str());
    out.append(".md");
    out
}

} // verus!
