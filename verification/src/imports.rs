//! Finding the module that a line of Python source imports.
//!
//! The matching itself is done by the `regex` crate; what is made of a
//! match is decided here.

use crate::text::{chars_of, split_on, split_text, texts};
use vstd::prelude::*;

verus! {

/// Matches `import a.b` and `import a.b as c`; the first group is the
/// dotted path.
pub const IMPORT_PATTERN: &'static str = r"(?i)import\s+([\w\.]+)(?:\s+as\s+\w+)?";

/// Matches `from a.b` and `from a.b import c`; the first group is the
/// dotted path.
pub const FROM_IMPORT_PATTERN: &'static str = r"(?i)from\s+([\w\.]+)(?:\s+import\s+\w+)?";

/// `regex::Error`, the error with which the regex engine rejects a
/// pattern. It is carried through unread.
#[verifier::external_type_specification]
#[verifier::external_body]
pub struct ExRegexError(regex::Error);

/// A pattern that the regex engine did not accept.
#[derive(Debug)]
pub struct PatternError {}

/// Whether the regex engine, with the limits it has by default, accepts
/// `pattern`: the pattern is well-formed in the engine's syntax and its
/// compiled form stays under the engine's size limit.
pub uninterp spec fn pattern_accepted(pattern: Seq<char>) -> bool;

/// What capture group number `group` of `pattern` holds at the leftmost
/// match of `pattern` in `text`; `None` where `pattern` matches nowhere in
/// `text`, has no such group, or the group takes no part in the match.
/// Meaningful for the patterns that the engine accepts.
pub uninterp spec fn captured_group(pattern: Seq<char>, text: Seq<char>, group: nat) -> Option<
    Seq<char>,
>;

/// The view of an optional string.
pub open spec fn option_text(s: Option<String>) -> Option<Seq<char>> {
    match s {
        Some(t) => Some(t@),
        None => None,
    }
}

/// Compiles `pattern` with `regex::Regex::new`, searches `text` with
/// `Regex::captures` and hands out the text of the capture group `group`
/// as `Captures::get` and `Match::as_str` give it. Whether the engine
/// accepts a pattern depends on the pattern alone, and a search cannot
/// fail, so the call succeeds exactly for the patterns that are
/// `pattern_accepted`. The engine's answer depends on the pattern, the
/// text and the group number alone, so on success the result is
/// `captured_group` of the three. Of the engine's error nothing is
/// claimed but that it stands for a rejected pattern.
#[verifier::external_body]
fn capture_group(pattern: &str, text: &str, group: usize) -> (r: Result<
    Option<String>,
    regex::Error,
>)
    ensures
        r is Ok <==> pattern_accepted(pattern@),
        r matches Ok(found) ==> option_text(found) == captured_group(
            pattern@,
            text@,
            group as nat,
        ),
{
    let re = regex::Regex::new(pattern)?;
    Ok(re.captures(text).and_then(|c| c.get(group)).map(|m| m.as_str().to_owned()))
}

/// The dotted path that `pattern` captures in `text`: its first group.
pub open spec fn captured_path(pattern: Seq<char>, text: Seq<char>) -> Option<Seq<char>> {
    captured_group(pattern, text, 1)
}

/// The top-level module of a dotted path: what stands before the first
/// dot, or the whole path where it has no dot.
pub open spec fn module_root(path: Seq<char>) -> Seq<char> {
    split_on(path, seq!['.'])[0]
}

/// The module that a line imports, given what the two patterns captured
/// in it. A `from` clause goes before an `import` clause; a line with
/// neither imports nothing, which is the empty name.
pub open spec fn module_name(
    from_import: Option<Seq<char>>,
    import: Option<Seq<char>>,
) -> Seq<char> {
    match from_import {
        Some(path) => module_root(path),
        None => match import {
            Some(path) => module_root(path),
            None => Seq::empty(),
        },
    }
}

/// The module that the line `code` imports, the empty name where it
/// imports none.
pub open spec fn imported_module(code: Seq<char>) -> Seq<char> {
    module_name(
        captured_path(FROM_IMPORT_PATTERN@, code),
        captured_path(IMPORT_PATTERN@, code),
    )
}

/// Whether the engine accepts every pattern that a scan of `code` tries:
/// the `from` pattern, and the `import` pattern where the `from` pattern
/// captures nothing in `code`.
pub open spec fn tried_patterns_accepted(code: Seq<char>) -> bool {
    &&& pattern_accepted(FROM_IMPORT_PATTERN@)
    &&& captured_path(FROM_IMPORT_PATTERN@, code) is Some || pattern_accepted(IMPORT_PATTERN@)
}

/// A path names a Python source file when it ends in `.py`.
pub open spec fn python_source(path: Seq<char>) -> bool {
    path.len() >= 3 && path.subrange(path.len() - 3, path.len() as int) == seq!['.', 'p', 'y']
}

/// One line of a source file that imports a module.
#[derive(Debug)]
pub struct ImportHit {
    /// The position of the line in its file, counted from 0.
    pub index: usize,
    pub line: String,
    /// The top-level module that the line imports.
    pub module: String,
}

/// The top-level module of the dotted path `path`.
pub fn top_module(path: &str) -> (r: String)
    ensures
        r@ == module_root(path@),
{
    let pieces = split_text(path, ".");
    proof {
        reveal_strlit(".");
        assert("."@ =~= seq!['.']);
        assert(texts(pieces@).len() == pieces@.len());
        assert(split_on(path@, seq!['.']).len() >= 1);
    }
    pieces[0].clone()
}

/// What one search settles. A captured path settles the module: its
/// top-level module. No capture settles nothing yet. An error of the
/// engine means that it did not accept the pattern.
pub fn module_of_capture(found: Result<Option<String>, regex::Error>) -> (r: Result<
    Option<String>,
    PatternError,
>)
    ensures
        match found {
            Ok(Some(path)) => r matches Ok(Some(module)) && module@ == module_root(path@),
            Ok(None) => r matches Ok(None),
            Err(_) => r is Err,
        },
{
    match found {
        Ok(Some(path)) => Ok(Some(top_module(path.as_str()))),
        Ok(None) => Ok(None),
        Err(_) => Err(PatternError {  }),
    }
}

/// The module that the line `code` imports, or the empty name where it
/// imports none. The `from` pattern is tried first, and the `import`
/// pattern only where that captured nothing. Fails exactly where the
/// regex engine rejects a pattern that was tried.
pub fn extract_module_names(code: &str) -> (r: Result<String, PatternError>)
    ensures
        r is Ok <==> tried_patterns_accepted(code@),
        r matches Ok(name) ==> name@ == imported_module(code@),
{
    match module_of_capture(capture_group(FROM_IMPORT_PATTERN, code, 1)) {
        Err(e) => {
            return Err(e);
        },
        Ok(Some(module)) => {
            return Ok(module);
        },
        Ok(None) => {},
    }
    match module_of_capture(capture_group(IMPORT_PATTERN, code, 1)) {
        Err(e) => Err(e),
        Ok(Some(module)) => Ok(module),
        Ok(None) => Ok(String::new()),
    }
}

/// Whether `path` names a Python source file.
pub fn is_python_source(path: &str) -> (r: bool)
    ensures
        r == python_source(path@),
{
    let text = chars_of(path);
    let n = text.len();
    if n < 3 {
        return false;
    }
    let r = text[n - 3] == '.' && text[n - 2] == 'p' && text[n - 1] == 'y';
    proof {
        let tail = path@.subrange(n - 3, n as int);
        assert(tail[0] == path@[n - 3] && tail[1] == path@[n - 2] && tail[2] == path@[n - 1]);
        if r {
            assert(tail =~= seq!['.', 'p', 'y']);
        }
    }
    r
}

/// What a scan reports of the line `line` at position `index`: a hit where
/// the line imports a module, nothing where it imports none. Fails exactly
/// where the regex engine rejects a pattern that was tried.
pub fn scan_line(index: usize, line: &str) -> (r: Result<Option<ImportHit>, PatternError>)
    ensures
        r is Ok <==> tried_patterns_accepted(line@),
        r matches Ok(found) ==> match found {
            Some(hit) => {
                &&& imported_module(line@).len() > 0
                &&& hit.index == index
                &&& hit.line@ == line@
                &&& hit.module@ == imported_module(line@)
            },
            None => imported_module(line@).len() == 0,
        },
{
    match extract_module_names(line) {
        Err(e) => Err(e),
        Ok(module) => Ok(hit_of_module(index, line, module)),
    }
}

/// What a scan reports of the line `line` at position `index`, once the
/// module that it imports is known: a hit that holds the three, or nothing
/// where the module name is empty.
pub fn hit_of_module(index: usize, line: &str, module: String) -> (r: Option<ImportHit>)
    ensures
        module@.len() == 0 ==> r is None,
        module@.len() > 0 ==> (r matches Some(hit) && hit.index == index && hit.line@ == line@
            && hit.module@ == module@),
{
    if module.as_str().is_empty() {
        None
    } else {
        Some(ImportHit { index, line: line.to_owned(), module })
    }
}

} // verus!
