//! Compiling a query into a matcher.
//!
//! The regular expression engine is `grep_regex`. Which patterns it rejects,
//! and what it says of them, is not restated here: that is given a name,
//! [`pattern_rejection`], and the contracts speak of the name.

use grep_regex::RegexMatcherBuilder;
use vstd::prelude::*;

verus! {

#[verifier::external_type_specification]
#[verifier::external_body]
pub struct ExRegexMatcher(grep_regex::RegexMatcher);

/// What the engine has against `pattern` under the given options: nothing if
/// it compiles the pattern, and otherwise its description of what is wrong.
pub uninterp spec fn pattern_rejection(
    pattern: Seq<char>,
    case_insensitive: bool,
    whole_word: bool,
    literal: bool,
) -> Option<Seq<char>>;

/// Whether the engine compiles `pattern` under the given options.
pub open spec fn pattern_accepted(
    pattern: Seq<char>,
    case_insensitive: bool,
    whole_word: bool,
    literal: bool,
) -> bool {
    pattern_rejection(pattern, case_insensitive, whole_word, literal) is None
}

/// The options a matcher was compiled from. This is all that distinguishes
/// one matcher from another.
pub struct MatcherSpec {
    pub pattern: Seq<char>,
    pub case_insensitive: bool,
    pub whole_word: bool,
    pub literal: bool,
}

/// A compiled query. It is built once per search and only read afterwards, so
/// any number of scans can share it by reference.
pub struct CompiledMatcher {
    regex: grep_regex::RegexMatcher,
    pattern: String,
    case_insensitive: bool,
    whole_word: bool,
    literal: bool,
}

impl View for CompiledMatcher {
    type V = MatcherSpec;

    closed spec fn view(&self) -> MatcherSpec {
        MatcherSpec {
            pattern: self.pattern@,
            case_insensitive: self.case_insensitive,
            whole_word: self.whole_word,
            literal: self.literal,
        }
    }
}

impl CompiledMatcher {
    /// The pattern this matcher was compiled from.
    pub fn pattern(&self) -> (pattern: &str)
        ensures
            pattern@ == self@.pattern,
    {
        self.pattern.as_str()
    }

    /// Whether letters match regardless of case.
    pub fn case_insensitive(&self) -> (yes: bool)
        ensures
            yes == self@.case_insensitive,
    {
        self.case_insensitive
    }

    /// Whether a match has to be bounded by word boundaries.
    pub fn whole_word(&self) -> (yes: bool)
        ensures
            yes == self@.whole_word,
    {
        self.whole_word
    }

    /// Whether the pattern is matched character for character.
    pub fn literal(&self) -> (yes: bool)
        ensures
            yes == self@.literal,
    {
        self.literal
    }

    /// The engine's matcher.
    pub(crate) fn regex(&self) -> (regex: &grep_regex::RegexMatcher)
        ensures
            *regex == self.engine(),
    {
        &self.regex
    }

    /// The matcher of the engine that this value holds: the one that was
    /// built from the options in its view.
    pub closed spec fn engine(&self) -> grep_regex::RegexMatcher {
        self.regex
    }
}

/// Why a search did not produce an outcome.
#[derive(Debug, Clone)]
pub enum SearchError {
    /// The pattern is not a regular expression that the engine compiles.
    InvalidPattern { message: String },
    /// The root of the search could not be read at all.
    RootAccess { message: String },
}

impl SearchError {
    /// The description that is shown to the user.
    pub fn message(&self) -> (message: String)
        ensures
            self matches SearchError::InvalidPattern { message: m } ==> message@ == m@,
            self matches SearchError::RootAccess { message: m } ==> message@ == m@,
    {
        match self {
            SearchError::InvalidPattern { message } => message.clone(),
            SearchError::RootAccess { message } => message.clone(),
        }
    }
}

/// Calls `grep_regex::RegexMatcherBuilder::build` on a builder whose
/// `case_insensitive`, `word` and `fixed_strings` options are set from the
/// arguments and whose other options keep their defaults. An error that comes
/// back is turned into its text with `to_string`.
///
/// Believed of that call: whether it succeeds, and the text of the error if
/// it does not, depend on the pattern and the three options alone, which is
/// what `pattern_rejection` names. The matcher that comes back is stored
/// together with the values it was built from.
#[verifier::external_body]
fn build_regex(
    pattern: &str,
    case_insensitive: bool,
    whole_word: bool,
    literal: bool,
) -> (built: Result<CompiledMatcher, String>)
    ensures
        built matches Ok(m) ==> pattern_rejection(
            pattern@,
            case_insensitive,
            whole_word,
            literal,
        ) is None && m@ == (MatcherSpec { pattern: pattern@, case_insensitive, whole_word, literal }),
        built matches Err(text) ==> pattern_rejection(
            pattern@,
            case_insensitive,
            whole_word,
            literal,
        ) == Some(text@),
{
    let built = RegexMatcherBuilder::new()
        .case_insensitive(case_insensitive)
        .word(whole_word)
        .fixed_strings(literal)
        .build(pattern);
    match built {
        Ok(regex) => {
            let pattern = pattern.to_string();
            Ok(CompiledMatcher { regex, pattern, case_insensitive, whole_word, literal })
        }
        Err(error) => Err(error.to_string()),
    }
}

/// Compiles a query.
///
/// With `is_regex` the pattern is a regular expression, otherwise it is
/// matched as the literal text it is. The matcher ignores case unless
/// `case_sensitive` is set, and with `whole_word` it only reports occurrences
/// that are bounded by word boundaries. Compilation fails exactly on the
/// patterns the engine rejects, and then with `InvalidPattern` and the
/// engine's description of what is wrong.
pub fn compile_matcher(
    pattern: &str,
    case_sensitive: bool,
    whole_word: bool,
    is_regex: bool,
) -> (compiled: Result<CompiledMatcher, SearchError>)
    ensures
        compiled is Ok <==> pattern_accepted(pattern@, !case_sensitive, whole_word, !is_regex),
        compiled matches Ok(m) ==> m@ == (MatcherSpec {
            pattern: pattern@,
            case_insensitive: !case_sensitive,
            whole_word,
            literal: !is_regex,
        }),
        compiled matches Err(e) ==> e matches SearchError::InvalidPattern { message }
            && pattern_rejection(pattern@, !case_sensitive, whole_word, !is_regex) == Some(
            message@,
        ),
{
    match build_regex(pattern, !case_sensitive, whole_word, !is_regex) {
        Ok(matcher) => Ok(matcher),
        Err(message) => Err(SearchError::InvalidPattern { message }),
    }
}

} // verus!
