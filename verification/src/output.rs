//! Choosing the report's format: given outright, or inferred from the output file's
//! extension.

use vstd::prelude::*;

verus! {

/// The formats the report can be written in.
#[derive(Clone, Copy, Debug, PartialEq, Eq, Structural)]
pub enum OutputFormat {
    Json,
    Markdown,
    Text,
}

/// The last position of `c` in `s`, or -1.
pub open spec fn last_position(s: Seq<char>, c: char) -> int
    decreases s.len(),
{
    if s.len() == 0 {
        -1
    } else if s.last() == c {
        s.len() - 1
    } else {
        last_position(s.drop_last(), c)
    }
}

/// The last component of a path: what follows its last `/`.
pub open spec fn file_name(path: Seq<char>) -> Seq<char> {
    path.subrange(last_position(path, '/') + 1, path.len() as int)
}

/// The extension of a path: what follows the last `.` of its file name, unless that
/// `.` opens the name (as in `.json`), which then has none.
pub open spec fn extension(path: Seq<char>) -> Option<Seq<char>> {
    let name = file_name(path);
    let dot = last_position(name, '.');
    if dot > 0 {
        Some(name.subrange(dot + 1, name.len() as int))
    } else {
        None
    }
}

/// The format that an extension names: `json` for JSON, `md` or `markdown` for Markdown,
/// `txt` or `text` for text.
pub open spec fn format_for_extension(ext: Seq<char>) -> Option<OutputFormat> {
    if ext == "json"@ {
        Some(OutputFormat::Json)
    } else if ext == "md"@ || ext == "markdown"@ {
        Some(OutputFormat::Markdown)
    } else if ext == "txt"@ || ext == "text"@ {
        Some(OutputFormat::Text)
    } else {
        None
    }
}

/// The format that the extension of `path` names, if any.
pub open spec fn inferred_format(path: Seq<char>) -> Option<OutputFormat> {
    match extension(path) {
        Some(ext) => format_for_extension(ext),
        None => None,
    }
}

/// The format of the report: the one given outright; else the one that the output file's
/// extension names; else text.
pub open spec fn chosen_format(explicit: Option<OutputFormat>, output: Option<Seq<char>>) -> OutputFormat {
    match explicit {
        Some(f) => f,
        None => match output {
            Some(path) => match inferred_format(path) {
                Some(f) => f,
                None => OutputFormat::Text,
            },
            None => OutputFormat::Text,
        },
    }
}

/// The last position of `c` in `s`, if any.
fn find_last(s: &str, c: char) -> (r: Option<usize>)
    ensures
        match r {
            Some(i) => i < s@.len() && last_position(s@, c) == i,
            None => last_position(s@, c) == -1,
        },
{
    let n = s.unicode_len();
    let mut i: usize = 0;
    let mut found: Option<usize> = None;
    while i < n
        invariant
            n == s@.len(),
            i <= n,
            match found {
                Some(k) => k < i && last_position(s@.take(i as int), c) == k,
                None => last_position(s@.take(i as int), c) == -1,
            },
        decreases n - i,
    {
        let ghost upto = s@.take(i + 1);
        assert(upto.drop_last() == s@.take(i as int));
        if s.get_char(i) == c {
            found = Some(i);
        }
        i = i + 1;
    }
    assert(s@.take(n as int) == s@);
    found
}

/// Whether two strings hold the same characters.
fn same_chars(a: &str, b: &str) -> (r: bool)
    ensures
        r == (a@ == b@),
{
    let n = a.unicode_len();
    if n != b.unicode_len() {
        return false;
    }
    let mut i: usize = 0;
    while i < n
        invariant
            n == a@.len(),
            n == b@.len(),
            i <= n,
            forall|k: int| 0 <= k < i ==> a@[k] == b@[k],
        decreases n - i,
    {
        if a.get_char(i) != b.get_char(i) {
            return false;
        }
        i = i + 1;
    }
    assert(a@ =~= b@);
    true
}

/// The format that the extension of `path` names, if any.
pub fn infer_format(path: &str) -> (r: Option<OutputFormat>)
    ensures
        r == inferred_format(path@),
{
    let len = path.unicode_len();
    let start: usize = match find_last(path, '/') {
        Some(i) => i + 1,
        None => 0,
    };
    let name = path.substring_char(start, len);
    assert(name@ == file_name(path@));
    match find_last(name, '.') {
        Some(dot) => {
            if dot == 0 {
                return None;
            }
            let ext = name.substring_char(dot + 1, name.unicode_len());
            if same_chars(ext, "json") {
                Some(OutputFormat::Json)
            } else if same_chars(ext, "md") || same_chars(ext, "markdown") {
                Some(OutputFormat::Markdown)
            } else if same_chars(ext, "txt") || same_chars(ext, "text") {
                Some(OutputFormat::Text)
            } else {
                None
            }
        },
        None => None,
    }
}

/// The format of the report: `explicit` when given; else the one that the extension of
/// `output` names; else text.
pub fn choose_format(explicit: Option<OutputFormat>, output: Option<&str>) -> (r: OutputFormat)
    ensures
        r == chosen_format(
            explicit,
            match output {
                Some(p) => Some(p@),
                None => None,
            },
        ),
        explicit matches Some(f) ==> r == f,
        explicit is None && output is None ==> r == OutputFormat::Text,
{
    match explicit {
        Some(f) => f,
        None => match output {
            Some(p) => match infer_format(p) {
                Some(f) => f,
                None => OutputFormat::Text,
            },
            None => OutputFormat::Text,
        },
    }
}

/// A format given outright is the format of the report, whatever the output file, or its
/// absence; without one, a report written to standard output is text, and one written to
/// a file takes the format its extension names, text when it names none.
pub proof fn law_format_choice(given: OutputFormat, path: Seq<char>)
    ensures
        chosen_format(Some(given), None) == given,
        chosen_format(Some(given), Some(path)) == given,
        chosen_format(None, None) == OutputFormat::Text,
        inferred_format(path) matches Some(f) ==> chosen_format(None, Some(path)) == f,
        inferred_format(path) is None ==> chosen_format(None, Some(path)) == OutputFormat::Text,
{
}

} // verus!
