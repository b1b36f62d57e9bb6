use vstd::prelude::*;
use vstd::string::StringExecFns;
use crate::processor::{compile_pattern, pattern_compiles};
use crate::text::chars_of;

verus! {

/// Whether pattern `p` matches somewhere in `text`.
pub uninterp spec fn pattern_matches(p: Seq<char>, text: Seq<char>) -> bool;

/// Relies on `regex::Regex::is_match`: whether the pattern matches somewhere in the text.
#[verifier::external_body]
fn is_match(p: &str, text: &str) -> (r: bool)
    requires
        pattern_compiles(p@),
    ensures
        r == pattern_matches(p@, text@),
{
    regex::Regex::new(p).unwrap().is_match(text)
}

/// Strict lexicographic order on texts, by code point.
pub open spec fn text_before(a: Seq<char>, b: Seq<char>) -> bool
    decreases a.len(),
{
    if a.len() == 0 {
        b.len() > 0
    } else if b.len() == 0 {
        false
    } else if a[0] != b[0] {
        a[0] < b[0]
    } else {
        text_before(a.skip(1), b.skip(1))
    }
}

pub proof fn lemma_text_order(a: Seq<char>, b: Seq<char>, c: Seq<char>)
    ensures
        text_before(a, b) ==> !text_before(b, a),
        a != b ==> text_before(a, b) || text_before(b, a),
        text_before(a, b) && text_before(b, c) ==> text_before(a, c),
    decreases a.len(),
{
    if a.len() > 0 && b.len() > 0 {
        let c1 = if c.len() > 0 { c.skip(1) } else { c };
        lemma_text_order(a.skip(1), b.skip(1), c1);
        if a[0] == b[0] && a.skip(1) == b.skip(1) {
            assert forall|i: int| 0 <= i < a.len() implies a[i] == b[i] by {
                if i > 0 {
                    assert(a[i] == a.skip(1)[i - 1]);
                    assert(b[i] == b.skip(1)[i - 1]);
                }
            }
            assert(a =~= b);
        }
    } else if a.len() == 0 && b.len() == 0 {
        assert(a =~= b);
    }
}

/// What the merge tool works on.
pub struct Config {
    pub directory: String,
    /// Names of the files to merge match this pattern.
    pub date_pattern: String,
    /// The merged file, written in the directory; earlier merged text is kept at its end.
    pub output_filename: String,
    /// Written between two merged files.
    pub separator: String,
}

impl Default for Config {
    fn default() -> (r: Config)
        ensures
            r.directory@ == "."@,
            r.date_pattern@ == r"^\d{4}-\d{2}-\d{2}(\.md)?$"@,
            r.output_filename@ == "writing-log.md"@,
            r.separator@ == "\n***\n"@,
    {
        Config::new()
    }
}

impl Config {
    /// The defaults: the current directory, `YYYY-MM-DD[.md]` names, output to
    /// `writing-log.md`, files separated by a `***` line.
    pub fn new() -> (r: Config)
        ensures
            r.directory@ == "."@,
            r.date_pattern@ == r"^\d{4}-\d{2}-\d{2}(\.md)?$"@,
            r.output_filename@ == "writing-log.md"@,
            r.separator@ == "\n***\n"@,
    {
        Config {
            directory: String::from_str("."),
            date_pattern: String::from_str(r"^\d{4}-\d{2}-\d{2}(\.md)?$"),
            output_filename: String::from_str("writing-log.md"),
            separator: String::from_str("\n***\n"),
        }
    }
}

/// Failures of the merge tool.
#[derive(Debug)]
pub enum MergerError {
    Io(String),
    InvalidDirectory(String),
    InvalidPattern(String),
    NoFilesFound,
    CleanupError,
}

/// The merged text of `cs`: each file followed by a line feed, the separator
/// between two files.
pub open spec fn merged_body(cs: Seq<Seq<char>>, sep: Seq<char>) -> Seq<char>
    decreases cs.len(),
{
    if cs.len() == 0 {
        Seq::empty()
    } else if cs.len() == 1 {
        cs[0] + seq!['\n']
    } else {
        merged_body(cs.drop_last(), sep) + sep + cs.last() + seq!['\n']
    }
}

pub open spec fn views_of(v: Seq<String>) -> Seq<Seq<char>> {
    v.map_values(|s: String| s@)
}

/// The names in `v` that pattern `p` matches, in order.
pub open spec fn matching(p: Seq<char>, v: Seq<Seq<char>>) -> Seq<Seq<char>>
    decreases v.len(),
{
    if v.len() == 0 {
        Seq::empty()
    } else if pattern_matches(p, v.last()) {
        matching(p, v.drop_last()).push(v.last())
    } else {
        matching(p, v.drop_last())
    }
}

/// Merges dated files into one, newest first.
pub struct FileMerger {
    config: Config,
}

impl FileMerger {
    pub fn new(config: Config) -> (r: FileMerger)
        ensures
            r.config() == config,
    {
        FileMerger { config }
    }

    pub closed spec fn config(&self) -> Config {
        self.config
    }

    pub fn settings(&self) -> (r: &Config)
        ensures
            *r == self.config(),
    {
        &self.config
    }

    /// Checks that the file-name pattern compiles.
    pub fn compile_pattern(&self) -> (r: Result<(), MergerError>)
        ensures
            r.is_ok() == pattern_compiles(self.config().date_pattern@),
            r.is_err() ==> r->Err_0 is InvalidPattern,
    {
        match compile_pattern(self.config.date_pattern.as_str()) {
            Ok(()) => Ok(()),
            Err(msg) => Err(MergerError::InvalidPattern(msg)),
        }
    }

    /// The names that the pattern matches, in descending order; an error where
    /// there are none, or where the pattern does not compile.
    pub fn select_files(&self, names: Vec<String>) -> (r: Result<Vec<String>, MergerError>)
        ensures
            !pattern_compiles(self.config().date_pattern@) ==> r.is_err() && r->Err_0 is InvalidPattern,
            pattern_compiles(self.config().date_pattern@) && r.is_err() ==> r->Err_0 is NoFilesFound,
            r.is_ok() ==> {
                let out = r.unwrap()@;
                &&& out.len() > 0
                &&& forall|i: int, j: int|
                    0 <= i < j < out.len() ==> !text_before(out[i]@, out[j]@)
                &&& views_of(out).to_multiset() == matching(
                    self.config().date_pattern@,
                    views_of(names@),
                ).to_multiset()
            },
            pattern_compiles(self.config().date_pattern@) ==> (r.is_err() <==> forall|i: int|
                0 <= i < names@.len() ==> !pattern_matches(
                    self.config().date_pattern@,
                    #[trigger] names@[i]@,
                )),
    {
        if let Err(e) = self.compile_pattern() {
            return Err(e);
        }
        let ghost p = self.config.date_pattern@;
        let mut out: Vec<String> = Vec::new();
        let mut i: usize = 0;
        assert(views_of(names@.subrange(0, 0)) =~= Seq::<Seq<char>>::empty());
        assert(views_of(out@) =~= Seq::<Seq<char>>::empty());
        while i < names.len()
            invariant
                p == self.config().date_pattern@,
                pattern_compiles(p),
                i <= names.len(),
                forall|a: int, b: int| 0 <= a < b < out@.len() ==> !text_before(out@[a]@, out@[b]@),
                views_of(out@).to_multiset() == matching(p, views_of(names@.subrange(0, i as int))).to_multiset(),
                out@.len() == 0 <==> forall|j: int|
                    0 <= j < i ==> !pattern_matches(p, #[trigger] names@[j]@),
            decreases names.len() - i,
        {
            let ghost pre = names@.subrange(0, i as int);
            let ghost next = names@.subrange(0, i + 1);
            proof {
                assert(views_of(next) =~= views_of(pre).push(names@[i as int]@));
                assert(views_of(next).drop_last() =~= views_of(pre));
                vstd::seq_lib::to_multiset_build(matching(p, views_of(pre)), names@[i as int]@);
            }
            if is_match(self.config.date_pattern.as_str(), names[i].as_str()) {
                let name = names[i].clone();
                let ghost before = out@;
                let mut p_ins: usize = 0;
                while p_ins < out.len() && text_less(name.as_str(), out[p_ins].as_str())
                    invariant
                        out@ == before,
                        p_ins <= out.len(),
                        forall|a: int| 0 <= a < p_ins ==> text_before(name@, #[trigger] out@[a]@),
                    decreases out.len() - p_ins,
                {
                    p_ins = p_ins + 1;
                }
                out.insert(p_ins, name);
                proof {
                    let no = out@;
                    assert forall|a: int, b: int| 0 <= a < b < no.len() implies !text_before(
                        no[a]@,
                        no[b]@,
                    ) by {
                        if a < p_ins && b == p_ins {
                            lemma_text_order(name@, before[a]@, name@);
                        } else if a < p_ins && b > p_ins {
                            assert(!text_before(before[a]@, before[b - 1]@));
                        } else if a == p_ins {
                            let q = p_ins as int;
                            assert(!text_before(name@, before[q]@));
                            lemma_text_order(name@, before[b - 1]@, before[q]@);
                            lemma_text_order(before[b - 1]@, before[q]@, name@);
                            if b - 1 > q {
                                assert(!text_before(before[q]@, before[b - 1]@));
                            }
                        } else if b < p_ins {
                            assert(!text_before(before[a]@, before[b]@));
                        } else {
                            assert(!text_before(before[a - 1]@, before[b - 1]@));
                        }
                    }
                    assert(views_of(no) =~= views_of(before).insert(p_ins as int, name@));
                    vstd::seq_lib::to_multiset_insert(views_of(before), p_ins as int, name@);

                }
            } else {

            }
            proof {
                if out@.len() == 0 {
                    assert forall|j: int| 0 <= j < i + 1 implies !pattern_matches(
                        p,
                        #[trigger] names@[j]@,
                    ) by {
                        if j < i {
                        }
                    }
                }
            }
            i = i + 1;
        }
        proof {
            assert(names@.subrange(0, names@.len() as int) =~= names@);
        }
        if out.len() == 0 {
            Err(MergerError::NoFilesFound)
        } else {
            Ok(out)
        }
    }

    /// The text of the merged file: each file's text and a line feed, the
    /// separator between two files, then the text the output file held before.
    pub fn merged_text(&self, contents: &Vec<String>, existing: &str) -> (r: String)
        ensures
            r@ == merged_body(views_of(contents@), self.config().separator@) + existing@,
    {
        let mut out = String::new();
        let mut i: usize = 0;
        while i < contents.len()
            invariant
                i <= contents.len(),
                out@ == merged_body(views_of(contents@.subrange(0, i as int)), self.config().separator@),
            decreases contents.len() - i,
        {
            proof {
                let vs = views_of(contents@.subrange(0, i + 1));
                assert(vs.drop_last() =~= views_of(contents@.subrange(0, i as int)));
                assert(vs.last() == contents@[i as int]@);
            }
            if i > 0 {
                out.append(self.config.separator.as_str());
            }
            out.append(contents[i].as_str());
            out.append("\n");
            proof {
                reveal_strlit("\n");
                let vs = views_of(contents@.subrange(0, i + 1));
                if i == 0 {
                    assert(vs[0] == contents@[0]@);
                }
            }
            i = i + 1;
        }
        proof {
            assert(contents@.subrange(0, contents@.len() as int) =~= contents@);
        }
        out.append(existing);
        out
    }

    /// Whether a file may be removed after merging: every file but the output file.
    pub fn removable(&self, file_name: &str) -> (r: bool)
        ensures
            r == (file_name@ != self.config().output_filename@),
    {
        !text_equal(file_name, self.config.output_filename.as_str())
    }
}

fn text_equal(a: &str, b: &str) -> (r: bool)
    ensures
        r == (a@ == b@),
{
    let x = chars_of(a);
    let y = chars_of(b);
    if x.len() != y.len() {
        return false;
    }
    let mut i: usize = 0;
    while i < x.len()
        invariant
            x@ == a@,
            y@ == b@,
            x.len() == y.len(),
            i <= x.len(),
            forall|j: int| 0 <= j < i ==> x@[j] == y@[j],
        decreases x.len() - i,
    {
        if x[i] != y[i] {
            return false;
        }
        i = i + 1;
    }
    assert(x@ =~= y@);
    true
}

/// Whether `a` comes strictly before `b` in code-point order.
fn text_less(a: &str, b: &str) -> (r: bool)
    ensures
        r == text_before(a@, b@),
{
    let x = chars_of(a);
    let y = chars_of(b);
    let mut i: usize = 0;
    assert(x@.skip(0) =~= x@);
    assert(y@.skip(0) =~= y@);
    while i < x.len() && i < y.len() && x[i] == y[i]
        invariant
            x@ == a@,
            y@ == b@,
            i <= x.len(),
            i <= y.len(),
            text_before(a@, b@) == text_before(x@.skip(i as int), y@.skip(i as int)),
        decreases x.len() - i,
    {
        proof {
            assert(x@.skip(i as int).skip(1) =~= x@.skip(i + 1));
            assert(y@.skip(i as int).skip(1) =~= y@.skip(i + 1));
        }
        i = i + 1;
    }
    if i == x.len() {
        i < y.len()
    } else if i == y.len() {
        false
    } else {
        x[i] < y[i]
    }
}

} // verus!
