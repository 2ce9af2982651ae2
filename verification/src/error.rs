//! What can go wrong, and where.

use vstd::prelude::*;
use vstd::string::StringExecFns;

verus! {

/// A place in one of the texts the engine reads.
///
/// `origin` says which text: the handle that the annotation carries, or
/// [`ARGUMENTS`] for the version list. `offset` counts characters from the
/// start of that text.
#[derive(Clone, Copy, Debug, PartialEq, Eq, Structural)]
pub struct Location {
    pub origin: usize,
    pub offset: usize,
}

/// The origin of every location inside the version list.
pub const ARGUMENTS: usize = 0;

/// The ways in which a text can fail to follow its grammar.
#[derive(Clone, Copy, Debug, PartialEq, Eq, Structural)]
pub enum Syntax {
    /// A character that starts no token.
    UnexpectedCharacter,
    /// A string literal without its closing quote.
    UnterminatedString,
    /// A backslash inside a string literal before anything but a double
    /// quote or a backslash.
    UnsupportedEscape,
    /// Neither a string literal nor an operator where a filter must start.
    ExpectedFilter,
    /// No opening parenthesis after an operator name.
    ExpectedOpen,
    /// No closing parenthesis after the argument of an operator.
    ExpectedClose,
    /// No comma or closing parenthesis after an argument of `any` or `all`.
    ExpectedComma,
    /// Something other than a string literal as the argument of a bound.
    ExpectedString,
    /// Tokens left over after a complete filter.
    TrailingInput,
    /// Something other than a name where a version or a setting must start.
    ExpectedName,
    /// Nothing that could be a value after the `=` of a setting.
    ExpectedValue,
}

/// What is wrong with a setting.
#[derive(Clone, Copy, Debug, PartialEq, Eq, Structural)]
pub enum Setting {
    /// The key is not one the engine knows.
    UnknownKey,
    /// The key is known, the value is neither `true` nor `false`.
    NotBoolean,
}

/// Every failure of the engine. None of them is recovered from: a call
/// either yields all of its result or one of these.
#[derive(Debug, PartialEq, Eq)]
pub enum Error {
    /// A text does not follow its grammar.
    Parse { kind: Syntax, at: Location },
    /// A filter names an operator other than the seven known ones: a parse
    /// error that holds the name as it was written.
    UnknownOperator { name: String, at: Location },
    /// A setting in the version list is unknown or ill-typed.
    Configuration { problem: Setting, key: String, at: Location },
    /// A bound of a filter names a version that the registry lacks.
    UnknownVersionReference { name: String, at: Location },
    /// A name occurs twice among the versions of a registry.
    DuplicateVersion { name: String },
    /// A version was looked up in a registry that lacks it.
    UnknownVersion { name: String },
    /// Public visibility was to be forced on a trait, an implementation or
    /// a foreign block.
    UnsupportedVisibilityOverride,
}

/// The mathematical content of an [`Error`].
pub enum ErrorView {
    Parse { kind: Syntax, at: Location },
    UnknownOperator { name: Seq<char>, at: Location },
    Configuration { problem: Setting, key: Seq<char>, at: Location },
    UnknownVersionReference { name: Seq<char>, at: Location },
    DuplicateVersion { name: Seq<char> },
    UnknownVersion { name: Seq<char> },
    UnsupportedVisibilityOverride,
}

impl View for Error {
    type V = ErrorView;

    open spec fn view(&self) -> ErrorView {
        match self {
            Error::Parse { kind, at } => ErrorView::Parse { kind: *kind, at: *at },
            Error::UnknownOperator { name, at } => ErrorView::UnknownOperator {
                name: name@,
                at: *at,
            },
            Error::Configuration { problem, key, at } => ErrorView::Configuration {
                problem: *problem,
                key: key@,
                at: *at,
            },
            Error::UnknownVersionReference { name, at } => ErrorView::UnknownVersionReference {
                name: name@,
                at: *at,
            },
            Error::DuplicateVersion { name } => ErrorView::DuplicateVersion { name: name@ },
            Error::UnknownVersion { name } => ErrorView::UnknownVersion { name: name@ },
            Error::UnsupportedVisibilityOverride => ErrorView::UnsupportedVisibilityOverride,
        }
    }
}

impl Clone for Error {
    fn clone(&self) -> (res: Error)
        ensures
            res@ == self@,
    {
        match self {
            Error::Parse { kind, at } => Error::Parse { kind: *kind, at: *at },
            Error::UnknownOperator { name, at } => Error::UnknownOperator {
                name: name.clone(),
                at: *at,
            },
            Error::Configuration { problem, key, at } => Error::Configuration {
                problem: *problem,
                key: key.clone(),
                at: *at,
            },
            Error::UnknownVersionReference { name, at } => Error::UnknownVersionReference {
                name: name.clone(),
                at: *at,
            },
            Error::DuplicateVersion { name } => Error::DuplicateVersion { name: name.clone() },
            Error::UnknownVersion { name } => Error::UnknownVersion { name: name.clone() },
            Error::UnsupportedVisibilityOverride => Error::UnsupportedVisibilityOverride,
        }
    }
}

/// A syntax error of the given kind at the given place, as a value of the
/// model.
pub open spec fn syntax_error(kind: Syntax, origin: usize, offset: int) -> ErrorView {
    ErrorView::Parse { kind, at: Location { origin, offset: offset as usize } }
}

/// What is wrong with a text, in words.
pub open spec fn syntax_message(kind: Syntax) -> Seq<char> {
    match kind {
        Syntax::UnexpectedCharacter => "Unexpected character"@,
        Syntax::UnterminatedString => "String literal is not closed"@,
        Syntax::UnsupportedEscape => "Unknown escape in string literal (a backslash stands before `\"` or `\\` only)"@,
        Syntax::ExpectedFilter =>
            "Expected string or operator function (e.g., `all(...)`, `not(...)`, etc)"@,
        Syntax::ExpectedOpen => "Expected `(`"@,
        Syntax::ExpectedClose => "Expected `)`"@,
        Syntax::ExpectedComma => "Expected comma"@,
        Syntax::ExpectedString => "Expected string"@,
        Syntax::TrailingInput => "Unexpected token"@,
        Syntax::ExpectedName => "Expected version name"@,
        Syntax::ExpectedValue => "Expected a value (true/false)"@,
    }
}

/// What the error says, in words.
pub open spec fn message_of(e: ErrorView) -> Seq<char> {
    match e {
        ErrorView::Parse { kind, .. } => syntax_message(kind),
        ErrorView::UnknownOperator { name, .. } => "Unknown operator function '"@ + name
            + "' (expected `not`, `any`, `all`, `min`, `max`, `min_excl` or `max_excl`)"@,
        ErrorView::Configuration { problem, key, .. } => match problem {
            Setting::UnknownKey => "Unknown configuration parameter '"@ + key + "'"@,
            Setting::NotBoolean => "'"@ + key + "' option must be given a boolean (true/false)"@,
        },
        ErrorView::UnknownVersionReference { name, .. } => "Unknown version string '"@ + name
            + "' (add it to your `#[versioning(...)]` list of known versions)"@,
        ErrorView::DuplicateVersion { name } => "Version '"@ + name + "' is given more than once"@,
        ErrorView::UnknownVersion { name } => "Encountered unknown version '"@ + name + "'"@,
        ErrorView::UnsupportedVisibilityOverride =>
            "Cannot use `#[versioning(...)]` on a trait, an impl block or a foreign block; instead, wrap it in a module to decide internal visibility yourself"@,
    }
}

impl Syntax {
    /// What is wrong with a text, in words.
    pub fn message(self) -> (res: &'static str)
        ensures
            res@ == syntax_message(self),
    {
        match self {
            Syntax::UnexpectedCharacter => "Unexpected character",
            Syntax::UnterminatedString => "String literal is not closed",
            Syntax::UnsupportedEscape => "Unknown escape in string literal (a backslash stands before `\"` or `\\` only)",
            Syntax::ExpectedFilter =>
                "Expected string or operator function (e.g., `all(...)`, `not(...)`, etc)",
            Syntax::ExpectedOpen => "Expected `(`",
            Syntax::ExpectedClose => "Expected `)`",
            Syntax::ExpectedComma => "Expected comma",
            Syntax::ExpectedString => "Expected string",
            Syntax::TrailingInput => "Unexpected token",
            Syntax::ExpectedName => "Expected version name",
            Syntax::ExpectedValue => "Expected a value (true/false)",
        }
    }
}

/// `name` between `before` and `after`.
fn around(before: &str, name: &String, after: &str) -> (res: String)
    ensures
        res@ == before@ + name@ + after@,
{
    let mut res = String::from_str(before);
    res.append(name.as_str());
    res.append(after);
    res
}

impl Error {
    /// What the error says, in words. Where it happened is not part of the
    /// words: the places are for whoever shows them.
    pub fn message(&self) -> (res: String)
        ensures
            res@ == message_of(self@),
    {
        match self {
            Error::Parse { kind, .. } => String::from_str(kind.message()),
            Error::UnknownOperator { name, .. } => around(
                "Unknown operator function '",
                name,
                "' (expected `not`, `any`, `all`, `min`, `max`, `min_excl` or `max_excl`)",
            ),
            Error::Configuration { problem, key, .. } => match problem {
                Setting::UnknownKey => around("Unknown configuration parameter '", key, "'"),
                Setting::NotBoolean => around(
                    "'",
                    key,
                    "' option must be given a boolean (true/false)",
                ),
            },
            Error::UnknownVersionReference { name, .. } => around(
                "Unknown version string '",
                name,
                "' (add it to your `#[versioning(...)]` list of known versions)",
            ),
            Error::DuplicateVersion { name } => around(
                "Version '",
                name,
                "' is given more than once",
            ),
            Error::UnknownVersion { name } => around("Encountered unknown version '", name, "'"),
            Error::UnsupportedVisibilityOverride => String::from_str(
                "Cannot use `#[versioning(...)]` on a trait, an impl block or a foreign block; instead, wrap it in a module to decide internal visibility yourself",
            ),
        }
    }
}

} // verus!
