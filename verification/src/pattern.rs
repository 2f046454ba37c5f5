//! The directory-name pattern: a compiled regular expression together with
//! the text it was compiled from. Matching and capturing go through the
//! `regex` crate; what they return is named by uninterpreted functions of
//! the pattern text and the haystack, since both depend on those alone.

use vstd::prelude::*;
use crate::PathError;

verus! {

#[verifier::external_type_specification]
#[verifier::external_body]
pub struct ExRegex(regex::Regex);

#[verifier::external_type_specification]
#[verifier::external_body]
pub struct ExRegexError(regex::Error);

/// Whether `regex::Regex::new` accepts `pattern`.
pub uninterp spec fn regex_compiles(pattern: Seq<char>) -> bool;

/// Whether the regular expression `pattern` matches anywhere in `text`.
pub uninterp spec fn regex_matches(pattern: Seq<char>, text: Seq<char>) -> bool;

/// The text of the capture group named `env` in the first match of
/// `pattern` in `text`: `None` when `pattern` does not match, or when no
/// group of that name takes part in the match.
pub uninterp spec fn regex_capture_env(pattern: Seq<char>, text: Seq<char>) -> Option<Seq<char>>;

/// Relies on `regex::Regex::new`: it compiles `pattern` or reports why it
/// cannot. Compilation depends on the pattern text alone.
#[verifier::external_body]
fn regex_new(pattern: &str) -> (r: Result<regex::Regex, regex::Error>)
    ensures
        r is Ok <==> regex_compiles(pattern@),
{
    regex::Regex::new(pattern)
}

/// Relies on the `Display` impl of `regex::Error` for the message text.
#[verifier::external_body]
fn regex_error_message(e: &regex::Error) -> String {
    e.to_string()
}

/// A compiled directory-name pattern, remembering its own source text. Its
/// view is that text; every contract about matching speaks of the view.
pub struct DirPattern {
    re: regex::Regex,
    pattern: String,
}

impl View for DirPattern {
    type V = Seq<char>;

    closed spec fn view(&self) -> Seq<char> {
        self.pattern@
    }
}

impl DirPattern {
    /// Compiles `pattern_str`; a pattern the engine refuses becomes the
    /// library's compile error, message included.
    pub fn compile(pattern_str: &str) -> (r: Result<DirPattern, PathError>)
        ensures
            r matches Ok(p) ==> p@ == pattern_str@,
            r is Ok <==> regex_compiles(pattern_str@),
            r matches Err(e) ==> e is RegexCompile,
    {
        match regex_new(pattern_str) {
            Ok(re) => Ok(DirPattern { re, pattern: pattern_str.to_owned() }),
            Err(e) => Err(PathError::RegexCompile(regex_error_message(&e))),
        }
    }

    /// Relies on `regex::Regex::is_match`: true exactly when the pattern
    /// matches anywhere in `text`. The `re` field is always the compilation
    /// of the `pattern` field, so the result is a function of the view.
    #[verifier::external_body]
    pub(crate) fn is_match(&self, text: &str) -> (r: bool)
        ensures
            r == regex_matches(self@, text@),
    {
        self.re.is_match(text)
    }

    /// Relies on `regex::Regex::captures` and `regex::Captures::name`: the
    /// text of the group `env` in the first match, `None` when there is no
    /// match or the group takes no part in it. As with `is_match`, the
    /// result is a function of the pattern text and `text` alone.
    #[verifier::external_body]
    pub(crate) fn capture_env(&self, text: &str) -> (r: Option<String>)
        ensures
            match r {
                Some(k) => regex_capture_env(self@, text@) == Some(k@),
                None => regex_capture_env(self@, text@) is None,
            },
    {
        match self.re.captures(text) {
            Some(caps) => match caps.name("env") {
                Some(m) => Some(m.as_str().to_string()),
                None => None,
            },
            None => None,
        }
    }
}

} // verus!
