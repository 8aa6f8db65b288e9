//! The program's help texts.

use vstd::prelude::*;

verus! {

/// Gets the main program help string.
pub fn help_string(version: &str) -> (r: String)
    ensures
        r@ == "hashdeep-compare v"@ + version@,
{
    let mut r = "hashdeep-compare v".to_owned();
    r.append(version);
    r
}

/// Gets the hash function's `clap` "long_about" string.
pub fn long_about_hash_string() -> (r: String)
    ensures
        r@ == "Invokes hashdeep and generates a log file compatible with hashdeep-compare."@,
{
    "Invokes hashdeep and generates a log file compatible with hashdeep-compare.".to_owned()
}

/// Gets the hash function help string.
pub fn help_hash_string() -> (r: String)
    ensures
        r@ == "Notes:\n    This function is optional, but recommended to ensure log compatibility.\n\n    The above function call is equivalent to directly calling\n        hashdeep -l -r -o f path/to/target_dir \\\n          > path/to/output_log.txt \\\n          2> path/to/output_log.txt.errors\n\n    Note that if the output file or the error file already exists, the command\n    will be aborted (hashdeep-compare will not overwrite existing files).\n"@,
{
    "Notes:\n    This function is optional, but recommended to ensure log compatibility.\n\n    The above function call is equivalent to directly calling\n        hashdeep -l -r -o f path/to/target_dir \\\n          > path/to/output_log.txt \\\n          2> path/to/output_log.txt.errors\n\n    Note that if the output file or the error file already exists, the command\n    will be aborted (hashdeep-compare will not overwrite existing files).\n".to_owned()
}

/// Gets the sort function's `clap` "long_about" string.
pub fn long_about_sort_string() -> (r: String)
    ensures
        r@ == "Sorts the entries in a hashdeep log by file path."@,
{
    "Sorts the entries in a hashdeep log by file path.".to_owned()
}

/// Gets the sort function help string.
pub fn help_sort_string() -> (r: String)
    ensures
        r@ == "Notes:\n    hashdeep does not guarantee ordering of log entries, and ordering tends to\n    be inconsistent between runs in practice. Sorting allows comparison of\n    hashdeep logs in a text-diff tool, which may be the easiest way to compare\n    logs with uncomplicated differences.\n\n    Note that if the output file already exists, the command will be aborted\n    (hashdeep-compare will not overwrite existing files).\n"@,
{
    "Notes:\n    hashdeep does not guarantee ordering of log entries, and ordering tends to\n    be inconsistent between runs in practice. Sorting allows comparison of\n    hashdeep logs in a text-diff tool, which may be the easiest way to compare\n    logs with uncomplicated differences.\n\n    Note that if the output file already exists, the command will be aborted\n    (hashdeep-compare will not overwrite existing files).\n".to_owned()
}

/// Gets the root function's `clap` "long_about" string.
pub fn long_about_root_string() -> (r: String)
    ensures
        r@ == "Changes a hashdeep log root by removing a prefix from its filepaths.\nAny entries with filepaths that do not start with the prefix will be\nomitted from the output."@,
{
    "Changes a hashdeep log root by removing a prefix from its filepaths.\nAny entries with filepaths that do not start with the prefix will be\nomitted from the output.".to_owned()
}

/// Gets the root function help string.
pub fn help_root_string() -> (r: String)
    ensures
        r@ == "Notes:\n    This subcommand is an easy way to recover from a hashdeep run that prepended\n    unintended parent directories on all of its filepaths because of its invocation\n    directory.\n\n    Warning: The prefix is applied as simple text, without any rules related to paths.\n    If the prefix \"test\" were used on the filepath \"testdir/file.txt\",\n    the resulting filepath would be \"dir/file.txt\".\n    Splitting the text of a path component like this probably isn't what you want,\n    but there may be some clever uses for it.\n\n    Note that if the output file already exists, the command will be aborted\n    (hashdeep-compare will not overwrite existing files).\n"@,
{
    "Notes:\n    This subcommand is an easy way to recover from a hashdeep run that prepended\n    unintended parent directories on all of its filepaths because of its invocation\n    directory.\n\n    Warning: The prefix is applied as simple text, without any rules related to paths.\n    If the prefix \"test\" were used on the filepath \"testdir/file.txt\",\n    the resulting filepath would be \"dir/file.txt\".\n    Splitting the text of a path component like this probably isn't what you want,\n    but there may be some clever uses for it.\n\n    Note that if the output file already exists, the command will be aborted\n    (hashdeep-compare will not overwrite existing files).\n".to_owned()
}

/// Gets the part function's `clap` "long_about" string.
pub fn long_about_part_string() -> (r: String)
    ensures
        r@ == "The real power of hashdeep-compare:\nAll entries will be partitioned into sets that efficiently describe the\nsimilarities and differences of the two log files."@,
{
    "The real power of hashdeep-compare:\nAll entries will be partitioned into sets that efficiently describe the\nsimilarities and differences of the two log files.".to_owned()
}

/// Gets the part function help string.
pub fn help_part_string() -> (r: String)
    ensures
        r@ == "Notes:\n    The output file base path will be used to name the output files by adding\n    suffixes that describe the log entries represented within; it may include\n    subdirectories. Nonexistent subdirectories will not be created; if one is\n    specified, the command will be aborted.\n\n    Note that if any of the resulting output files already exist, the command\n    will be aborted (hashdeep-compare will not overwrite existing files).\n"@,
{
    "Notes:\n    The output file base path will be used to name the output files by adding\n    suffixes that describe the log entries represented within; it may include\n    subdirectories. Nonexistent subdirectories will not be created; if one is\n    specified, the command will be aborted.\n\n    Note that if any of the resulting output files already exist, the command\n    will be aborted (hashdeep-compare will not overwrite existing files).\n".to_owned()
}

} // verus!
