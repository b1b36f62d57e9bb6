use vstd::prelude::*;
use vstd::string::StringExecFns;

verus! {

/// Where the sources and the store live, and how source names are read.
#[derive(Clone, Debug)]
pub struct Config {
    /// Directory that holds the source documents.
    pub directory: String,
    /// Pattern that source file names match; its first group is the date.
    pub date_pattern: String,
    /// Prefix of the journal files that are written out.
    pub output_file_prefix: String,
    /// Path of the store's file.
    pub db_path: String,
}

impl Default for Config {
    fn default() -> (r: Config)
        ensures
            r.directory@ == "."@,
            r.date_pattern@ == r"^(\d{4}-\d{2}-\d{2})(\.md)?$"@,
            r.db_path@ == "diary.db"@,
            r.output_file_prefix@ == "rusty-diary-log"@,
    {
        Config::new()
    }
}

impl Config {
    /// The defaults: the current directory, `YYYY-MM-DD[.md]` names, `diary.db`.
    pub fn new() -> (r: Config)
        ensures
            r.directory@ == "."@,
            r.date_pattern@ == r"^(\d{4}-\d{2}-\d{2})(\.md)?$"@,
            r.db_path@ == "diary.db"@,
            r.output_file_prefix@ == "rusty-diary-log"@,
    {
        Config {
            directory: String::from_str("."),
            date_pattern: String::from_str(r"^(\d{4}-\d{2}-\d{2})(\.md)?$"),
            db_path: String::from_str("diary.db"),
            output_file_prefix: String::from_str("rusty-diary-log"),
        }
    }

    pub fn with_directory(self, path: &str) -> (r: Config)
        ensures
            r.directory@ == path@,
            r.date_pattern == self.date_pattern,
            r.output_file_prefix == self.output_file_prefix,
            r.db_path == self.db_path,
    {
        Config { directory: String::from_str(path), ..self }
    }

    pub fn with_db(self, path: &str) -> (r: Config)
        ensures
            r.db_path@ == path@,
            r.directory == self.directory,
            r.date_pattern == self.date_pattern,
            r.output_file_prefix == self.output_file_prefix,
    {
        Config { db_path: String::from_str(path), ..self }
    }

    pub fn with_date_pattern(self, pattern: &str) -> (r: Config)
        ensures
            r.date_pattern@ == pattern@,
            r.directory == self.directory,
            r.output_file_prefix == self.output_file_prefix,
            r.db_path == self.db_path,
    {
        Config { date_pattern: String::from_str(pattern), ..self }
    }

    pub fn with_output_file_prefix(self, name: &str) -> (r: Config)
        ensures
            r.output_file_prefix@ == name@,
            r.directory == self.directory,
            r.date_pattern == self.date_pattern,
            r.db_path == self.db_path,
    {
        Config { output_file_prefix: String::from_str(name), ..self }
    }
}

} // verus!
