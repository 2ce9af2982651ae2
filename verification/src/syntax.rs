//! The grammar of filter expressions.
//!
//! ```text
//! filter := STRING
//!         | ("min" | "max" | "min_excl" | "max_excl") "(" STRING ")"
//!         | "not" "(" filter ")"
//!         | ("any" | "all") "(" [ filter { "," filter } [ "," ] ] ")"
//! ```

use vstd::prelude::*;
use crate::error::syntax_error;
use crate::error::Error;
use crate::error::ErrorView;
use crate::error::Location;
use crate::error::Syntax;
use crate::filter::models_of;
use crate::filter::FilterView;
use crate::filter::Literal;
use crate::filter::LiteralView;
use crate::filter::VersionFilter;
use crate::text::reads_as;
use crate::token::is_mark;
use crate::token::lex;
use crate::token::lexemes_of;
use crate::token::mark_at;
use crate::token::offset_at;
use crate::token::place_at;
use crate::token::tokenize;
use crate::token::Lexeme;
use crate::token::LexemeView;
use crate::token::Mark;
use crate::token::Token;
use crate::token::TokenView;

verus! {

/// The operators of the filter language.
#[derive(Clone, Copy, Debug, PartialEq, Eq, Structural)]
pub enum Operator {
    /// `not`
    Not,
    /// `any`
    Any,
    /// `all`
    All,
    /// `min`: at least
    Min,
    /// `max`: at most
    Max,
    /// `min_excl`: after
    MinExcl,
    /// `max_excl`: before
    MaxExcl,
}

/// The operator that `name` names.
pub open spec fn operator_named(name: Seq<char>) -> Option<Operator> {
    if name == "not"@ {
        Some(Operator::Not)
    } else if name == "any"@ {
        Some(Operator::Any)
    } else if name == "all"@ {
        Some(Operator::All)
    } else if name == "min"@ {
        Some(Operator::Min)
    } else if name == "max"@ {
        Some(Operator::Max)
    } else if name == "min_excl"@ {
        Some(Operator::MinExcl)
    } else if name == "max_excl"@ {
        Some(Operator::MaxExcl)
    } else {
        None
    }
}

/// The tokens of one text, the length of that text, and the handle under
/// which places in it are reported.
pub struct Source {
    pub tokens: Seq<LexemeView>,
    pub end: int,
    pub origin: usize,
}

impl Source {
    /// A syntax error at the token at `pos`, or at the end of the text where
    /// the tokens have run out.
    pub open spec fn error_at(self, kind: Syntax, pos: int) -> ErrorView {
        syntax_error(kind, self.origin, offset_at(self.tokens, pos, self.end))
    }

    /// The error for the unknown operator `name` at `pos`.
    pub open spec fn unknown_operator(self, name: Seq<char>, pos: int) -> ErrorView {
        ErrorView::UnknownOperator { name, at: self.location(pos) }
    }

    /// The place of the token at `pos`.
    pub open spec fn location(self, pos: int) -> Location {
        Location { origin: self.origin, offset: offset_at(self.tokens, pos, self.end) as usize }
    }

    /// How many tokens are left at `pos`.
    pub open spec fn left(self, pos: int) -> nat {
        if 0 <= pos <= self.tokens.len() {
            (self.tokens.len() - pos) as nat
        } else {
            0
        }
    }
}

/// The bound that `op` makes of `literal`.
pub open spec fn bound(op: Operator, literal: LiteralView) -> FilterView {
    match op {
        Operator::Min => FilterView::AtLeast(literal),
        Operator::Max => FilterView::AtMost(literal),
        Operator::MinExcl => FilterView::AtLeastExcl(literal),
        _ => FilterView::AtMostExcl(literal),
    }
}

/// The argument of a bound, which starts at `pos`, together with the
/// parenthesis that closes it: the bound and the position behind it.
pub open spec fn bound_at(src: Source, op: Operator, pos: int) -> Result<
    (FilterView, int),
    ErrorView,
> {
    if 0 <= pos < src.tokens.len() && src.tokens[pos].token is Str {
        if is_mark(src.tokens, pos + 1, Mark::Close) {
            Ok(
                (
                    bound(
                        op,
                        LiteralView { value: src.tokens[pos].token->Str_0, at: src.location(pos) },
                    ),
                    pos + 2,
                ),
            )
        } else {
            Err(src.error_at(Syntax::ExpectedClose, pos + 1))
        }
    } else {
        Err(src.error_at(Syntax::ExpectedString, pos))
    }
}

/// The filter that starts at `pos` and the position behind it.
pub open spec fn filter_at(src: Source, pos: int) -> Result<(FilterView, int), ErrorView>
    decreases src.left(pos), 0nat,
{
    if pos < 0 || pos >= src.tokens.len() {
        Err(src.error_at(Syntax::ExpectedFilter, pos))
    } else {
        match src.tokens[pos].token {
            TokenView::Str(s) => Ok(
                (FilterView::Version(LiteralView { value: s, at: src.location(pos) }), pos + 1),
            ),
            TokenView::Mark(_) => Err(src.error_at(Syntax::ExpectedFilter, pos)),
            TokenView::Number(_) => Err(src.error_at(Syntax::ExpectedFilter, pos)),
            TokenView::Ident(name) => match operator_named(name) {
                None => Err(src.unknown_operator(name, pos)),
                Some(op) => if !is_mark(src.tokens, pos + 1, Mark::Open) {
                    Err(src.error_at(Syntax::ExpectedOpen, pos + 1))
                } else {
                    match op {
                        Operator::Not => match filter_at(src, pos + 2) {
                            Err(e) => Err(e),
                            Ok((f, p)) => if is_mark(src.tokens, p, Mark::Close) {
                                Ok((FilterView::Not(Box::new(f)), p + 1))
                            } else {
                                Err(src.error_at(Syntax::ExpectedClose, p))
                            },
                        },
                        Operator::Any => match filters_at(src, pos + 2) {
                            Err(e) => Err(e),
                            Ok((fs, p)) => Ok((FilterView::Any(fs), p)),
                        },
                        Operator::All => match filters_at(src, pos + 2) {
                            Err(e) => Err(e),
                            Ok((fs, p)) => Ok((FilterView::All(fs), p)),
                        },
                        _ => bound_at(src, op, pos + 2),
                    }
                },
            },
        }
    }
}

/// The arguments of `any` or `all` from `pos` on, up to the parenthesis
/// that closes them, and the position behind that parenthesis.
pub open spec fn filters_at(src: Source, pos: int) -> Result<(Seq<FilterView>, int), ErrorView>
    decreases src.left(pos), 1nat,
{
    if is_mark(src.tokens, pos, Mark::Close) {
        Ok((Seq::empty(), pos + 1))
    } else if pos < 0 || pos >= src.tokens.len() {
        Err(src.error_at(Syntax::ExpectedFilter, pos))
    } else {
        match filter_at(src, pos) {
            Err(e) => Err(e),
            Ok((f, p)) => if is_mark(src.tokens, p, Mark::Close) {
                Ok((seq![f], p + 1))
            } else if is_mark(src.tokens, p, Mark::Comma) {
                if p >= pos {
                    match filters_at(src, p + 1) {
                        Err(e) => Err(e),
                        Ok((fs, q)) => Ok((seq![f] + fs, q)),
                    }
                } else {
                    Err(src.error_at(Syntax::ExpectedComma, p))
                }
            } else {
                Err(src.error_at(Syntax::ExpectedComma, p))
            },
        }
    }
}

/// A filter takes up at least one token and ends within the tokens.
pub proof fn lemma_filter_advances(src: Source, pos: int)
    ensures
        filter_at(src, pos) matches Ok((_, p)) ==> pos < p <= src.tokens.len(),
    decreases src.left(pos), 0nat,
{
    if 0 <= pos < src.tokens.len() && src.tokens[pos].token is Ident && is_mark(
        src.tokens,
        pos + 1,
        Mark::Open,
    ) {
        match operator_named(src.tokens[pos].token->Ident_0) {
            Some(Operator::Not) => lemma_filter_advances(src, pos + 2),
            Some(Operator::Any) => lemma_filters_advance(src, pos + 2),
            Some(Operator::All) => lemma_filters_advance(src, pos + 2),
            _ => {},
        }
    }
}

/// The arguments of `any` or `all` take up at least the parenthesis that
/// closes them and end within the tokens; so that a comma between two of
/// them is always followed up.
pub proof fn lemma_filters_advance(src: Source, pos: int)
    ensures
        filters_at(src, pos) matches Ok((_, p)) ==> pos < p <= src.tokens.len(),
    decreases src.left(pos), 1nat,
{
    if !is_mark(src.tokens, pos, Mark::Close) && 0 <= pos < src.tokens.len() {
        lemma_filter_advances(src, pos);
        if let Ok((_, p)) = filter_at(src, pos) {
            if is_mark(src.tokens, p, Mark::Comma) {
                lemma_filters_advance(src, p + 1);
            }
        }
    }
}

/// Whether the tokens at `pos` are the name of `op` and an opening
/// parenthesis.
pub open spec fn heads(src: Source, pos: int, op: Operator) -> bool {
    &&& 0 <= pos < src.tokens.len()
    &&& src.tokens[pos].token is Ident
    &&& operator_named(src.tokens[pos].token->Ident_0) == Some(op)
    &&& is_mark(src.tokens, pos + 1, Mark::Open)
}

/// Whether the token at `pos` is the string literal `l`, at the place that
/// `l` gives.
pub open spec fn quotes(src: Source, pos: int, l: LiteralView) -> bool {
    &&& 0 <= pos < src.tokens.len()
    &&& src.tokens[pos].token == TokenView::Str(l.value)
    &&& l.at == src.location(pos)
}

/// How many tokens the plain spelling of `f` takes: a literal one, an
/// operator its name, its parentheses and its arguments, and each two
/// neighbours in a list the comma between them.
pub open spec fn width(f: FilterView) -> int
    decreases f, 0nat,
{
    match f {
        FilterView::Version(_) => 1,
        FilterView::Not(g) => 3 + width(*g),
        FilterView::Any(fs) => 3 + widths(fs, 0),
        FilterView::All(fs) => 3 + widths(fs, 0),
        _ => 4,
    }
}

/// How many tokens the plain spelling of the arguments at `from` and after
/// takes, without the parenthesis that closes them.
pub open spec fn widths(fs: Seq<FilterView>, from: int) -> int
    decreases fs, fs.len() - from,
{
    if from < 0 || from >= fs.len() {
        0
    } else if from + 1 < fs.len() {
        width(fs[from]) + 1 + widths(fs, from + 1)
    } else {
        width(fs[from])
    }
}

/// Whether the tokens from `pos` on are the plain spelling of `f`: a
/// literal by itself; an operator by its name, with its arguments in
/// parentheses and a comma between each two of them.
pub open spec fn spells(src: Source, pos: int, f: FilterView) -> bool
    decreases f, 0nat,
{
    match f {
        FilterView::Version(l) => quotes(src, pos, l),
        FilterView::AtLeastExcl(l) => heads(src, pos, Operator::MinExcl) && quotes(src, pos + 2, l)
            && is_mark(src.tokens, pos + 3, Mark::Close),
        FilterView::AtLeast(l) => heads(src, pos, Operator::Min) && quotes(src, pos + 2, l)
            && is_mark(src.tokens, pos + 3, Mark::Close),
        FilterView::AtMostExcl(l) => heads(src, pos, Operator::MaxExcl) && quotes(src, pos + 2, l)
            && is_mark(src.tokens, pos + 3, Mark::Close),
        FilterView::AtMost(l) => heads(src, pos, Operator::Max) && quotes(src, pos + 2, l)
            && is_mark(src.tokens, pos + 3, Mark::Close),
        FilterView::Not(g) => heads(src, pos, Operator::Not) && spells(src, pos + 2, *g)
            && is_mark(src.tokens, pos + 2 + width(*g), Mark::Close),
        FilterView::Any(fs) => heads(src, pos, Operator::Any) && spell(src, pos + 2, fs, 0),
        FilterView::All(fs) => heads(src, pos, Operator::All) && spell(src, pos + 2, fs, 0),
    }
}

/// Whether the tokens from `pos` on are the plain spelling of the
/// arguments at `from` and after, and of the parenthesis that closes them.
pub open spec fn spell(src: Source, pos: int, fs: Seq<FilterView>, from: int) -> bool
    decreases fs, fs.len() - from,
{
    if from < 0 || from >= fs.len() {
        is_mark(src.tokens, pos, Mark::Close)
    } else if from + 1 < fs.len() {
        &&& spells(src, pos, fs[from])
        &&& is_mark(src.tokens, pos + width(fs[from]), Mark::Comma)
        &&& spell(src, pos + width(fs[from]) + 1, fs, from + 1)
    } else {
        &&& spells(src, pos, fs[from])
        &&& is_mark(src.tokens, pos + width(fs[from]), Mark::Close)
    }
}

/// The plain spelling of a filter takes at least one token.
pub proof fn lemma_width(f: FilterView)
    ensures
        width(f) >= 1,
    decreases f, 0nat,
{
    match f {
        FilterView::Not(g) => lemma_width(*g),
        FilterView::Any(fs) => lemma_widths(fs, 0),
        FilterView::All(fs) => lemma_widths(fs, 0),
        _ => {},
    }
}

/// The plain spelling of a list of arguments takes no less than nothing.
pub proof fn lemma_widths(fs: Seq<FilterView>, from: int)
    ensures
        widths(fs, from) >= 0,
    decreases fs, fs.len() - from,
{
    if 0 <= from < fs.len() {
        lemma_width(fs[from]);
        if from + 1 < fs.len() {
            lemma_widths(fs, from + 1);
        }
    }
}

/// What is spelled plainly is read as what it spells: where the tokens
/// from `pos` on are the plain spelling of a filter, that filter is read
/// there, and the tokens of the spelling are exactly those taken up.
pub proof fn law_spelling_is_read(src: Source, pos: int, f: FilterView)
    requires
        spells(src, pos, f),
    ensures
        filter_at(src, pos) == Ok::<(FilterView, int), ErrorView>((f, pos + width(f))),
    decreases f, 0nat,
{
    match f {
        FilterView::Not(g) => {
            law_spelling_is_read(src, pos + 2, *g);
        },
        FilterView::Any(fs) => {
            law_spellings_are_read(src, pos + 2, fs, 0);
            assert(fs.subrange(0, fs.len() as int) =~= fs);
        },
        FilterView::All(fs) => {
            law_spellings_are_read(src, pos + 2, fs, 0);
            assert(fs.subrange(0, fs.len() as int) =~= fs);
        },
        _ => {},
    }
}

/// What is spelled plainly as a list of arguments is read as that list.
pub proof fn law_spellings_are_read(src: Source, pos: int, fs: Seq<FilterView>, from: int)
    requires
        0 <= from <= fs.len(),
        spell(src, pos, fs, from),
    ensures
        filters_at(src, pos) == Ok::<(Seq<FilterView>, int), ErrorView>(
            (fs.subrange(from, fs.len() as int), pos + widths(fs, from) + 1),
        ),
    decreases fs, fs.len() - from,
{
    if from >= fs.len() {
        assert(fs.subrange(from, fs.len() as int) =~= Seq::empty());
    } else {
        let first = fs[from];
        law_spelling_is_read(src, pos, first);
        lemma_width(first);
        if from + 1 < fs.len() {
            law_spellings_are_read(src, pos + width(first) + 1, fs, from + 1);
            assert(seq![first] + fs.subrange(from + 1, fs.len() as int) =~= fs.subrange(
                from,
                fs.len() as int,
            ));
        } else {
            assert(seq![first] =~= fs.subrange(from, fs.len() as int));
        }
    }
}

/// The filter that the tokens spell, all of them.
pub open spec fn filter_of_tokens(src: Source) -> Result<FilterView, ErrorView> {
    match filter_at(src, 0) {
        Err(e) => Err(e),
        Ok((f, p)) => if p >= src.tokens.len() {
            Ok(f)
        } else {
            Err(src.error_at(Syntax::TrailingInput, p))
        },
    }
}

/// The filter that `text` spells.
pub open spec fn filter_of_text(text: Seq<char>, origin: usize) -> Result<FilterView, ErrorView> {
    match lex(text, origin) {
        Err(e) => Err(e),
        Ok(tokens) => filter_of_tokens(Source { tokens, end: text.len() as int, origin }),
    }
}

/// The arguments found so far, followed by those that `rest` holds.
pub open spec fn continued(before: Seq<FilterView>, rest: Result<(Seq<FilterView>, int), ErrorView>)
    -> Result<(Seq<FilterView>, int), ErrorView> {
    match rest {
        Ok((filters, p)) => Ok((before + filters, p)),
        Err(e) => Err(e),
    }
}

/// What the parser reads: the tokens, the length of their text, the handle.
pub open spec fn source_of(tokens: &Vec<Lexeme>, end: usize, origin: usize) -> Source {
    Source { tokens: lexemes_of(tokens@), end: end as int, origin }
}

fn operator_of(name: &String) -> (op: Option<Operator>)
    ensures
        op == operator_named(name@),
{
    if reads_as(name, "not") {
        Some(Operator::Not)
    } else if reads_as(name, "any") {
        Some(Operator::Any)
    } else if reads_as(name, "all") {
        Some(Operator::All)
    } else if reads_as(name, "min") {
        Some(Operator::Min)
    } else if reads_as(name, "max") {
        Some(Operator::Max)
    } else if reads_as(name, "min_excl") {
        Some(Operator::MinExcl)
    } else if reads_as(name, "max_excl") {
        Some(Operator::MaxExcl)
    } else {
        None
    }
}

fn error_at(tokens: &Vec<Lexeme>, end: usize, origin: usize, kind: Syntax, pos: usize) -> (e: Error)
    ensures
        e@ == source_of(tokens, end, origin).error_at(kind, pos as int),
{
    Error::Parse { kind, at: Location { origin, offset: place_at(tokens, pos, end) } }
}

fn make_bound(op: Operator, literal: Literal) -> (f: VersionFilter)
    ensures
        f@ == bound(op, literal@),
{
    match op {
        Operator::Min => VersionFilter::AtLeast(literal),
        Operator::Max => VersionFilter::AtMost(literal),
        Operator::MinExcl => VersionFilter::AtLeastExcl(literal),
        _ => VersionFilter::AtMostExcl(literal),
    }
}

fn parse_bound(tokens: &Vec<Lexeme>, end: usize, origin: usize, op: Operator, pos: usize) -> (res:
    Result<(VersionFilter, usize), Error>)
    requires
        pos <= tokens@.len(),
    ensures
        res matches Ok((f, p)) ==> bound_at(source_of(tokens, end, origin), op, pos as int) == Ok::<
            (FilterView, int),
            ErrorView,
        >((f@, p as int)),
        res matches Err(e) ==> bound_at(source_of(tokens, end, origin), op, pos as int) == Err::<
            (FilterView, int),
            ErrorView,
        >(e@),
{
    if pos < tokens.len() {
        if let Token::Str(s) = &tokens[pos].token {
            if mark_at(tokens, pos + 1, Mark::Close) {
                let literal = Literal {
                    value: s.clone(),
                    at: Location { origin, offset: tokens[pos].offset },
                };
                return Ok((make_bound(op, literal), pos + 2));
            } else {
                return Err(error_at(tokens, end, origin, Syntax::ExpectedClose, pos + 1));
            }
        }
    }
    Err(error_at(tokens, end, origin, Syntax::ExpectedString, pos))
}

fn parse_filter(tokens: &Vec<Lexeme>, end: usize, origin: usize, pos: usize) -> (res: Result<
    (VersionFilter, usize),
    Error,
>)
    requires
        pos <= tokens@.len(),
    ensures
        res matches Ok((f, p)) ==> filter_at(source_of(tokens, end, origin), pos as int) == Ok::<
            (FilterView, int),
            ErrorView,
        >((f@, p as int)),
        res matches Err(e) ==> filter_at(source_of(tokens, end, origin), pos as int) == Err::<
            (FilterView, int),
            ErrorView,
        >(e@),
    decreases tokens@.len() - pos, 0nat,
{
    if pos >= tokens.len() {
        return Err(error_at(tokens, end, origin, Syntax::ExpectedFilter, pos));
    }
    match &tokens[pos].token {
        Token::Str(s) => {
            let literal = Literal {
                value: s.clone(),
                at: Location { origin, offset: tokens[pos].offset },
            };
            Ok((VersionFilter::Version(literal), pos + 1))
        },
        Token::Mark(_) => Err(error_at(tokens, end, origin, Syntax::ExpectedFilter, pos)),
        Token::Number(_) => Err(error_at(tokens, end, origin, Syntax::ExpectedFilter, pos)),
        Token::Ident(name) => {
            let op = match operator_of(name) {
                None => {
                    return Err(
                        Error::UnknownOperator {
                            name: name.clone(),
                            at: Location { origin, offset: tokens[pos].offset },
                        },
                    );
                },
                Some(op) => op,
            };
            if !mark_at(tokens, pos + 1, Mark::Open) {
                return Err(error_at(tokens, end, origin, Syntax::ExpectedOpen, pos + 1));
            }
            match op {
                Operator::Not => match parse_filter(tokens, end, origin, pos + 2) {
                    Err(e) => Err(e),
                    Ok((f, p)) => if mark_at(tokens, p, Mark::Close) {
                        Ok((VersionFilter::Not(Box::new(f)), p + 1))
                    } else {
                        Err(error_at(tokens, end, origin, Syntax::ExpectedClose, p))
                    },
                },
                Operator::Any => match parse_filters(tokens, end, origin, pos + 2) {
                    Err(e) => Err(e),
                    Ok((fs, p)) => Ok((VersionFilter::Any(fs), p)),
                },
                Operator::All => match parse_filters(tokens, end, origin, pos + 2) {
                    Err(e) => Err(e),
                    Ok((fs, p)) => Ok((VersionFilter::All(fs), p)),
                },
                _ => parse_bound(tokens, end, origin, op, pos + 2),
            }
        },
    }
}

fn parse_filters(tokens: &Vec<Lexeme>, end: usize, origin: usize, start: usize) -> (res: Result<
    (Vec<VersionFilter>, usize),
    Error,
>)
    requires
        start <= tokens@.len(),
    ensures
        res matches Ok((fs, p)) ==> filters_at(source_of(tokens, end, origin), start as int)
            == Ok::<(Seq<FilterView>, int), ErrorView>((models_of(fs@), p as int)),
        res matches Err(e) ==> filters_at(source_of(tokens, end, origin), start as int) == Err::<
            (Seq<FilterView>, int),
            ErrorView,
        >(e@),
    decreases tokens@.len() - start, 1nat,
{
    let ghost src = source_of(tokens, end, origin);
    let mut found: Vec<VersionFilter> = Vec::new();
    let mut pos = start;
    assert(tokens.len() <= usize::MAX);
    loop
        invariant
            src == source_of(tokens, end, origin),
            start <= pos <= tokens@.len() <= usize::MAX,
            filters_at(src, start as int) == continued(
                models_of(found@),
                filters_at(src, pos as int),
            ),
        decreases tokens@.len() - pos,
    {
        if mark_at(tokens, pos, Mark::Close) {
            return Ok((found, pos + 1));
        }
        if pos >= tokens.len() {
            return Err(error_at(tokens, end, origin, Syntax::ExpectedFilter, pos));
        }
        match parse_filter(tokens, end, origin, pos) {
            Err(e) => {
                return Err(e);
            },
            Ok((f, p)) => {
                let ghost before = found@;
                proof {
                    lemma_filter_advances(src, pos as int);
                }
                if mark_at(tokens, p, Mark::Close) {
                    found.push(f);
                    assert(models_of(before) + seq![f@] =~= models_of(found@));
                    return Ok((found, p + 1));
                } else if mark_at(tokens, p, Mark::Comma) {
                    found.push(f);
                    proof {
                        let rest = filters_at(src, p + 1);
                        if rest is Ok {
                            assert(models_of(before) + (seq![f@] + rest->Ok_0.0) =~= models_of(
                                found@,
                            ) + rest->Ok_0.0);
                        }
                    }
                    pos = p + 1;
                } else {
                    return Err(error_at(tokens, end, origin, Syntax::ExpectedComma, p));
                }
            },
        }
    }
}

impl VersionFilter {
    /// Reads the filter that `tokens` spell: all of them, with nothing left
    /// over. `end` is the length of the text the tokens came from: what is
    /// missing at the end of the tokens is reported there, anything else at
    /// the token that is wrong, all under `origin`.
    pub fn from_tokens(tokens: &Vec<Lexeme>, end: usize, origin: usize) -> (res: Result<
        VersionFilter,
        Error,
    >)
        ensures
            res matches Ok(f) ==> filter_of_tokens(source_of(tokens, end, origin)) == Ok::<
                FilterView,
                ErrorView,
            >(f@),
            res matches Err(e) ==> filter_of_tokens(source_of(tokens, end, origin)) == Err::<
                FilterView,
                ErrorView,
            >(e@),
    {
        match parse_filter(tokens, end, origin, 0) {
            Err(e) => Err(e),
            Ok((f, p)) => if p >= tokens.len() {
                Ok(f)
            } else {
                Err(error_at(tokens, end, origin, Syntax::TrailingInput, p))
            },
        }
    }

    /// Reads the filter that `text` spells. Every place in the result and
    /// in an error is an offset into `text`, reported under `origin`.
    pub fn parse(text: &str, origin: usize) -> (res: Result<VersionFilter, Error>)
        ensures
            res matches Ok(f) ==> filter_of_text(text@, origin) == Ok::<FilterView, ErrorView>(f@),
            res matches Err(e) ==> filter_of_text(text@, origin) == Err::<FilterView, ErrorView>(
                e@,
            ),
    {
        match tokenize(text, origin) {
            Err(e) => Err(e),
            Ok(tokens) => VersionFilter::from_tokens(&tokens, text.unicode_len(), origin),
        }
    }
}

} // verus!
