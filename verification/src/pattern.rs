use crate::schema::SchemaError;
use regex::Regex;
use vstd::prelude::*;

verus! {

/// A compiled regular expression of the `regex` crate. Nothing inside it is
/// visible to the proofs.
#[verifier::external_type_specification]
#[verifier::external_body]
pub struct ExRegex(regex::Regex);

/// The error that the `regex` crate reports for a pattern that it rejects.
#[verifier::external_type_specification]
#[verifier::external_body]
pub struct ExRegexError(regex::Error);

/// Whether `Regex::new` accepts this pattern text. The `regex` crate decides:
/// its syntax and its size limit are not restated here.
pub uninterp spec fn pattern_compiles(source: Seq<char>) -> bool;

/// Whether the expression that `Regex::new` builds from this pattern text
/// finds a match anywhere in `text` (`Regex::is_match`). The `regex` crate
/// decides; a match need not cover the whole text.
pub uninterp spec fn pattern_matches(source: Seq<char>, text: Seq<char>) -> bool;

/// A pattern that compiled, kept together with the text it was compiled from.
///
/// The only way to make one is [`Pattern::new`], so the compiled expression is
/// always the one that the `regex` crate built from `source`.
#[derive(Debug)]
pub struct Pattern {
    source: String,
    compiled: Regex,
}

impl View for Pattern {
    type V = Seq<char>;

    closed spec fn view(&self) -> Seq<char> {
        self.source@
    }
}

impl DeepView for Pattern {
    type V = Seq<char>;

    open spec fn deep_view(&self) -> Seq<char> {
        self@
    }
}

/// Calls `regex::Regex::new`. Believed, not proved: the call succeeds exactly on
/// the pattern texts that `pattern_compiles` names, and what it returns is kept
/// beside a copy of the text it was given.
#[verifier::external_body]
fn compile(source: &str) -> (built: Result<Pattern, regex::Error>)
    ensures
        built is Ok <==> pattern_compiles(source@),
        built matches Ok(pattern) ==> pattern@ == source@,
{
    match Regex::new(source) {
        Ok(compiled) => Ok(Pattern { source: source.to_owned(), compiled }),
        Err(error) => Err(error),
    }
}

/// Calls `regex::Regex::is_match` on the compiled expression. Believed, not
/// proved: the answer is the one that `pattern_matches` names for the pattern's
/// source text and `text`.
#[verifier::external_body]
pub(crate) fn search(pattern: &Pattern, text: &str) -> (hit: bool)
    ensures
        hit == pattern_matches(pattern@, text@),
{
    pattern.compiled.is_match(text)
}

impl Pattern {
    /// Compiles `source`, or says that it is no valid pattern.
    pub fn new(source: &str) -> (made: Result<Pattern, SchemaError>)
        ensures
            made is Ok <==> pattern_compiles(source@),
            made matches Ok(pattern) ==> pattern@ == source@,
            made matches Err(error) ==> error == SchemaError::InvalidPattern,
    {
        match compile(source) {
            Ok(pattern) => Ok(pattern),
            Err(_) => Err(SchemaError::InvalidPattern),
        }
    }

    /// The text that the pattern was compiled from.
    pub fn as_str(&self) -> (source: &str)
        ensures
            source@ == self@,
    {
        self.source.as_str()
    }
}

} // verus!
