//! The version list and the settings that may stand among its names.
//!
//! ```text
//! list    := [ entry { { "," } entry } { "," } ]
//! entry   := name | key "=" value
//! name    := IDENT | STRING
//! key     := IDENT
//! value   := IDENT | STRING | NUMBER
//! ```
//!
//! The names are the versions, in their order. Between two entries commas
//! may stand or not. The keys are `features` and `nestTopLevel`, which is
//! also read as `nest_toplevel_modules`; the values are `true` and `false`.

use vstd::prelude::*;
use crate::error::Error;
use crate::error::ErrorView;
use crate::error::Location;
use crate::error::Setting;
use crate::error::Syntax;
use crate::error::ARGUMENTS;
use crate::syntax::source_of;
use crate::syntax::Source;
use crate::text::reads_as;
use crate::token::is_mark;
use crate::token::lex;
use crate::token::lexemes_of;
use crate::token::mark_at;
use crate::token::place_at;
use crate::token::tokenize;
use crate::token::Lexeme;
use crate::token::LexemeView;
use crate::token::Mark;
use crate::token::Token;
use crate::token::TokenView;
use crate::version::first_repeat;
use crate::version::lemma_names_push;
use crate::version::names_of;
use crate::version::Version;
use crate::version::VersionList;
use crate::versioning::Options;

verus! {

/// One entry of the list.
enum Entry {
    /// The name of a version.
    Name { name: String },
    /// A setting: its key, the token that is its value, and where each
    /// stands.
    Setting { key: String, key_at: usize, value: Token, value_at: usize },
}

/// The mathematical content of an [`Entry`].
pub enum EntryView {
    Name { name: Seq<char> },
    Setting { key: Seq<char>, key_at: usize, value: TokenView, value_at: usize },
}

impl Entry {
    spec fn view(&self) -> EntryView {
        match self {
            Entry::Name { name } => EntryView::Name { name: name@ },
            Entry::Setting { key, key_at, value, value_at } => EntryView::Setting {
                key: key@,
                key_at: *key_at,
                value: value@,
                value_at: *value_at,
            },
        }
    }
}

/// The models of `entries`, in order.
spec fn entries_of(entries: Seq<Entry>) -> Seq<EntryView> {
    Seq::new(entries.len(), |i: int| entries[i]@)
}

/// Whether the token at `pos` is a name, a number or a string literal.
pub open spec fn is_word(tokens: Seq<LexemeView>, pos: int) -> bool {
    0 <= pos < tokens.len() && !(tokens[pos].token is Mark)
}

/// The entry that starts at `pos` and the position behind it. Where
/// `settings` is off, a name is a name whatever follows it.
pub open spec fn entry_at(src: Source, pos: int, settings: bool) -> Result<
    (EntryView, int),
    ErrorView,
> {
    if pos < 0 || pos >= src.tokens.len() {
        Err(src.error_at(Syntax::ExpectedName, pos))
    } else {
        match src.tokens[pos].token {
            TokenView::Mark(_) => Err(src.error_at(Syntax::ExpectedName, pos)),
            TokenView::Number(_) => Err(src.error_at(Syntax::ExpectedName, pos)),
            TokenView::Str(name) => Ok((EntryView::Name { name }, pos + 1)),
            TokenView::Ident(name) => if settings && is_mark(src.tokens, pos + 1, Mark::Equals) {
                if is_word(src.tokens, pos + 2) {
                    Ok(
                        (
                            EntryView::Setting {
                                key: name,
                                key_at: src.tokens[pos].offset as usize,
                                value: src.tokens[pos + 2].token,
                                value_at: src.tokens[pos + 2].offset as usize,
                            },
                            pos + 3,
                        ),
                    )
                } else {
                    Err(src.error_at(Syntax::ExpectedValue, pos + 2))
                }
            } else {
                Ok((EntryView::Name { name }, pos + 1))
            },
        }
    }
}

/// The first position at or after `pos` that holds no comma.
pub open spec fn after_commas(tokens: Seq<LexemeView>, pos: int) -> int
    decreases tokens.len() - pos,
{
    if is_mark(tokens, pos, Mark::Comma) {
        after_commas(tokens, pos + 1)
    } else {
        pos
    }
}

/// An entry takes up at least one token and ends within the tokens.
pub proof fn lemma_entry_advances(src: Source, pos: int, settings: bool)
    ensures
        entry_at(src, pos, settings) matches Ok((_, next)) ==> pos < next <= src.tokens.len(),
{
}

/// `rest` with `before` in front of it, where `rest` is a success.
pub open spec fn following(before: Seq<EntryView>, rest: Result<Seq<EntryView>, ErrorView>)
    -> Result<Seq<EntryView>, ErrorView> {
    match rest {
        Ok(entries) => Ok(before + entries),
        Err(e) => Err(e),
    }
}

/// The entries from `pos` on. Commas in front of an entry are passed over,
/// except in front of the first.
pub open spec fn entries_from(src: Source, pos: int, first: bool, settings: bool) -> Result<
    Seq<EntryView>,
    ErrorView,
>
    decreases src.left(pos),
{
    let start = if first {
        pos
    } else {
        after_commas(src.tokens, pos)
    };
    if start < 0 || start >= src.tokens.len() {
        Ok(Seq::empty())
    } else {
        match entry_at(src, start, settings) {
            Err(e) => Err(e),
            Ok((entry, next)) => if pos <= start < next <= src.tokens.len() {
                following(seq![entry], entries_from(src, next, false, settings))
            } else {
                Ok(Seq::empty())
            },
        }
    }
}

/// The entries that `text` spells.
pub open spec fn entries_of_text(text: Seq<char>, settings: bool) -> Result<
    Seq<EntryView>,
    ErrorView,
> {
    match lex(text, ARGUMENTS) {
        Err(e) => Err(e),
        Ok(tokens) => entries_from(
            Source { tokens, end: text.len() as int, origin: ARGUMENTS },
            0,
            true,
            settings,
        ),
    }
}

/// The versions and the settings of one invocation.
pub struct Arguments {
    pub names: Seq<Seq<char>>,
    pub options: Options,
}

/// The truth value that `value` spells.
pub open spec fn truth(value: TokenView) -> Option<bool> {
    if value == TokenView::Ident("true"@) {
        Some(true)
    } else if value == TokenView::Ident("false"@) {
        Some(false)
    } else {
        None
    }
}

/// The fault of a setting of `key`, found at `offset`.
pub open spec fn fault(problem: Setting, key: Seq<char>, offset: usize) -> ErrorView {
    ErrorView::Configuration { problem, key, at: Location { origin: ARGUMENTS, offset } }
}

/// What `entry` makes of `args`: one more name, or a setting changed. An
/// unknown key is a fault whatever its value is; a known key with a value
/// that is no truth value is one too.
pub open spec fn applied(args: Arguments, entry: EntryView) -> Result<Arguments, ErrorView> {
    match entry {
        EntryView::Name { name } => Ok(
            Arguments { names: args.names.push(name), options: args.options },
        ),
        EntryView::Setting { key, key_at, value, value_at } => if key == "features"@ {
            match truth(value) {
                Some(b) => Ok(
                    Arguments {
                        names: args.names,
                        options: Options {
                            features: b,
                            nest_toplevel_modules: args.options.nest_toplevel_modules,
                        },
                    },
                ),
                None => Err(fault(Setting::NotBoolean, key, value_at)),
            }
        } else if key == "nestTopLevel"@ || key == "nest_toplevel_modules"@ {
            match truth(value) {
                Some(b) => Ok(
                    Arguments {
                        names: args.names,
                        options: Options {
                            features: args.options.features,
                            nest_toplevel_modules: b,
                        },
                    },
                ),
                None => Err(fault(Setting::NotBoolean, key, value_at)),
            }
        } else {
            Err(fault(Setting::UnknownKey, key, key_at))
        },
    }
}

/// What the entries come to, taken in their order from nothing and the
/// default settings; or the first fault among them.
pub open spec fn settled(entries: Seq<EntryView>) -> Result<Arguments, ErrorView>
    decreases entries.len(),
{
    if entries.len() == 0 {
        Ok(
            Arguments {
                names: Seq::empty(),
                options: Options { features: false, nest_toplevel_modules: false },
            },
        )
    } else {
        match settled(entries.drop_last()) {
            Err(e) => Err(e),
            Ok(args) => applied(args, entries.last()),
        }
    }
}

/// The versions and settings that `text` spells.
///
/// A text that does not follow the grammar fails as a whole, before any
/// setting is looked at; then the first faulty setting fails; then a name
/// that repeats.
pub open spec fn arguments_of_text(text: Seq<char>) -> Result<Arguments, ErrorView> {
    match entries_of_text(text, true) {
        Err(e) => Err(e),
        Ok(entries) => match settled(entries) {
            Err(e) => Err(e),
            Ok(args) => match first_repeat(args.names) {
                Some(j) => Err(ErrorView::DuplicateVersion { name: args.names[j] }),
                None => Ok(args),
            },
        },
    }
}

/// The places of the tokens of a text are places in that text.
fn error_at(tokens: &Vec<Lexeme>, end: usize, kind: Syntax, pos: usize) -> (e: Error)
    ensures
        e@ == source_of(tokens, end, ARGUMENTS).error_at(kind, pos as int),
{
    Error::Parse { kind, at: Location { origin: ARGUMENTS, offset: place_at(tokens, pos, end) } }
}

fn word_at(tokens: &Vec<Lexeme>, pos: usize) -> (b: bool)
    ensures
        b == is_word(lexemes_of(tokens@), pos as int),
{
    if pos < tokens.len() {
        match &tokens[pos].token {
            Token::Mark(_) => false,
            _ => true,
        }
    } else {
        false
    }
}

fn read_entry(tokens: &Vec<Lexeme>, end: usize, pos: usize, settings: bool) -> (res: Result<
    (Entry, usize),
    Error,
>)
    requires
        pos < tokens@.len(),
    ensures
        res matches Ok((entry, next)) ==> entry_at(
            source_of(tokens, end, ARGUMENTS),
            pos as int,
            settings,
        ) == Ok::<(EntryView, int), ErrorView>((entry@, next as int)),
        res matches Err(e) ==> entry_at(source_of(tokens, end, ARGUMENTS), pos as int, settings)
            == Err::<(EntryView, int), ErrorView>(e@),
{
    assert(tokens.len() <= usize::MAX);
    match &tokens[pos].token {
        Token::Mark(_) => Err(error_at(tokens, end, Syntax::ExpectedName, pos)),
        Token::Number(_) => Err(error_at(tokens, end, Syntax::ExpectedName, pos)),
        Token::Str(name) => Ok((Entry::Name { name: name.clone() }, pos + 1)),
        Token::Ident(name) => {
            if settings && mark_at(tokens, pos + 1, Mark::Equals) {
                if word_at(tokens, pos + 2) {
                    Ok(
                        (
                            Entry::Setting {
                                key: name.clone(),
                                key_at: tokens[pos].offset,
                                value: tokens[pos + 2].token.clone(),
                                value_at: tokens[pos + 2].offset,
                            },
                            pos + 3,
                        ),
                    )
                } else {
                    Err(error_at(tokens, end, Syntax::ExpectedValue, pos + 2))
                }
            } else {
                Ok((Entry::Name { name: name.clone() }, pos + 1))
            }
        },
    }
}

fn skip_commas(tokens: &Vec<Lexeme>, pos: usize) -> (res: usize)
    requires
        pos <= tokens@.len(),
    ensures
        res == after_commas(lexemes_of(tokens@), pos as int),
        pos <= res <= tokens@.len(),
{
    assert(tokens.len() <= usize::MAX);
    let mut i = pos;
    while mark_at(tokens, i, Mark::Comma)
        invariant
            pos <= i <= tokens@.len() <= usize::MAX,
            after_commas(lexemes_of(tokens@), pos as int) == after_commas(
                lexemes_of(tokens@),
                i as int,
            ),
        decreases tokens@.len() - i,
    {
        i += 1;
    }
    i
}

fn read_entries(tokens: &Vec<Lexeme>, end: usize, settings: bool) -> (res: Result<
    Vec<Entry>,
    Error,
>)
    ensures
        res matches Ok(entries) ==> entries_from(
            source_of(tokens, end, ARGUMENTS),
            0,
            true,
            settings,
        ) == Ok::<Seq<EntryView>, ErrorView>(entries_of(entries@)),
        res matches Err(e) ==> entries_from(source_of(tokens, end, ARGUMENTS), 0, true, settings)
            == Err::<Seq<EntryView>, ErrorView>(e@),
{
    let ghost src = source_of(tokens, end, ARGUMENTS);
    let mut entries: Vec<Entry> = Vec::new();
    let mut pos: usize = 0;
    let mut first = true;
    loop
        invariant
            src == source_of(tokens, end, ARGUMENTS),
            pos <= tokens@.len(),
            entries_from(src, 0, true, settings) == following(
                entries_of(entries@),
                entries_from(src, pos as int, first, settings),
            ),
        decreases tokens@.len() - pos,
    {
        let start = if first {
            pos
        } else {
            skip_commas(tokens, pos)
        };
        if start >= tokens.len() {
            return Ok(entries);
        }
        match read_entry(tokens, end, start, settings) {
            Err(e) => {
                return Err(e);
            },
            Ok((entry, next)) => {
                let ghost before = entries@;
                proof {
                    lemma_entry_advances(src, start as int, settings);
                    let rest = entries_from(src, next as int, false, settings);
                    if rest is Ok {
                        assert(entries_of(before) + (seq![entry@] + rest->Ok_0) =~= entries_of(
                            before,
                        ).push(entry@) + rest->Ok_0);
                    }
                }
                entries.push(entry);
                assert(entries_of(entries@) =~= entries_of(before).push(entry@));
                pos = next;
                first = false;
            },
        }
    }
}

fn truth_of(value: &Token) -> (res: Option<bool>)
    ensures
        res == truth(value@),
{
    match value {
        Token::Ident(word) => if reads_as(word, "true") {
            Some(true)
        } else if reads_as(word, "false") {
            Some(false)
        } else {
            None
        },
        _ => None,
    }
}

fn fault_of(problem: Setting, key: &String, offset: usize) -> (e: Error)
    ensures
        e@ == fault(problem, key@, offset),
{
    Error::Configuration { problem, key: key.clone(), at: Location { origin: ARGUMENTS, offset } }
}

/// Reads the versions and the settings of one invocation from `text`.
///
/// The versions come back as a registry, in the order in which `text`
/// names them; a setting that `text` does not hold is off. A text that
/// does not follow the grammar is a parse error, an unknown key or a value
/// that is neither `true` nor `false` a configuration error, a name that
/// stands twice a duplicate version.
pub fn parse_input(text: &str) -> (res: Result<(VersionList, Options), Error>)
    ensures
        res matches Ok((list, options)) ==> arguments_of_text(text@) == Ok::<Arguments, ErrorView>(
            Arguments { names: list@, options },
        ),
        res matches Err(e) ==> arguments_of_text(text@) == Err::<Arguments, ErrorView>(e@),
{
    let tokens = match tokenize(text, ARGUMENTS) {
        Err(e) => {
            return Err(e);
        },
        Ok(tokens) => tokens,
    };
    let entries = match read_entries(&tokens, text.unicode_len(), true) {
        Err(e) => {
            return Err(e);
        },
        Ok(entries) => entries,
    };
    let ghost all = entries_of(entries@);
    let mut versions: Vec<Version> = Vec::new();
    let mut options = Options { features: false, nest_toplevel_modules: false };
    let mut i: usize = 0;
    assert(names_of(versions@) =~= Seq::empty());
    while i < entries.len()
        invariant
            i <= entries@.len(),
            all == entries_of(entries@),
            entries_of_text(text@, true) == Ok::<Seq<EntryView>, ErrorView>(all),
            settled(all.take(i as int)) == Ok::<Arguments, ErrorView>(
                Arguments { names: names_of(versions@), options },
            ),
        decreases entries.len() - i,
    {
        assert(all.take(i + 1).drop_last() =~= all.take(i as int));
        match &entries[i] {
            Entry::Name { name } => {
                proof {
                    lemma_names_push(versions@, Version(*name));
                }
                versions.push(Version(name.clone()));
            },
            Entry::Setting { key, key_at, value, value_at } => {
                if reads_as(key, "features") {
                    match truth_of(value) {
                        Some(b) => {
                            options.features = b;
                        },
                        None => {
                            proof {
                                lemma_settled_fault(all, i + 1);
                            }
                            return Err(fault_of(Setting::NotBoolean, key, *value_at));
                        },
                    }
                } else if reads_as(key, "nestTopLevel") || reads_as(key, "nest_toplevel_modules") {
                    match truth_of(value) {
                        Some(b) => {
                            options.nest_toplevel_modules = b;
                        },
                        None => {
                            proof {
                                lemma_settled_fault(all, i + 1);
                            }
                            return Err(fault_of(Setting::NotBoolean, key, *value_at));
                        },
                    }
                } else {
                    proof {
                        lemma_settled_fault(all, i + 1);
                    }
                    return Err(fault_of(Setting::UnknownKey, key, *key_at));
                }
            },
        }
        i += 1;
    }
    assert(all.take(entries@.len() as int) =~= all);
    match VersionList::new(versions) {
        Err(e) => Err(e),
        Ok(list) => Ok((list, options)),
    }
}

/// Once an entry is faulty, so is the whole, with the same fault.
pub proof fn lemma_settled_fault(entries: Seq<EntryView>, n: int)
    requires
        0 <= n <= entries.len(),
        settled(entries.take(n)) is Err,
    ensures
        settled(entries) == settled(entries.take(n)),
    decreases entries.len() - n,
{
    if n < entries.len() {
        assert(entries.take(n + 1).drop_last() =~= entries.take(n));
        lemma_settled_fault(entries, n + 1);
    } else {
        assert(entries.take(n) =~= entries);
    }
}

/// The names that the entries are, if they are all names.
pub open spec fn names_among(entries: Seq<EntryView>) -> Seq<Seq<char>> {
    Seq::new(
        entries.len(),
        |i: int|
            match entries[i] {
                EntryView::Name { name } => name,
                EntryView::Setting { key, .. } => key,
            },
    )
}

/// The versions that `text` names, where it may hold no settings.
pub open spec fn names_of_text(text: Seq<char>) -> Result<Seq<Seq<char>>, ErrorView> {
    match entries_of_text(text, false) {
        Err(e) => Err(e),
        Ok(entries) => match first_repeat(names_among(entries)) {
            Some(j) => Err(ErrorView::DuplicateVersion { name: names_among(entries)[j] }),
            None => Ok(names_among(entries)),
        },
    }
}

impl VersionList {
    /// Reads a registry from `text`: the names of the versions, in their
    /// order, with commas between them or not. Settings have no place in
    /// it: an equals sign is a parse error.
    pub fn parse(text: &str) -> (res: Result<VersionList, Error>)
        ensures
            res matches Ok(list) ==> names_of_text(text@) == Ok::<Seq<Seq<char>>, ErrorView>(
                list@,
            ),
            res matches Err(e) ==> names_of_text(text@) == Err::<Seq<Seq<char>>, ErrorView>(e@),
    {
        let tokens = match tokenize(text, ARGUMENTS) {
            Err(e) => {
                return Err(e);
            },
            Ok(tokens) => tokens,
        };
        let entries = match read_entries(&tokens, text.unicode_len(), false) {
            Err(e) => {
                return Err(e);
            },
            Ok(entries) => entries,
        };
        let ghost all = entries_of(entries@);
        let mut versions: Vec<Version> = Vec::new();
        let mut i: usize = 0;
        while i < entries.len()
            invariant
                i <= entries@.len(),
                all == entries_of(entries@),
                names_of(versions@) =~= names_among(all).take(i as int),
            decreases entries.len() - i,
        {
            let name = match &entries[i] {
                Entry::Name { name } => name.clone(),
                Entry::Setting { key, .. } => key.clone(),
            };
            proof {
                lemma_names_push(versions@, Version(name));
            }
            versions.push(Version(name));
            i += 1;
        }
        assert(names_among(all).take(entries@.len() as int) =~= names_among(all));
        VersionList::new(versions)
    }
}

} // verus!
