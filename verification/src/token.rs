//! The tokens of the two small languages the engine reads itself: the
//! version list with its settings, and the filter expressions.
//!
//! Both are made of names, numbers, string literals, parentheses, commas
//! and equals signs, with blanks between them where one likes. A name is
//! an ASCII letter or underscore followed by ASCII letters, digits and
//! underscores; a number is the same with a digit in front. A string
//! literal is a run of characters between two double quotes and stands for
//! that run. Within it a backslash makes the double quote or the backslash
//! behind it stand for itself; these are the only escapes, and a backslash
//! before anything else is refused. So every string has a spelling, and a
//! host that reads other literals spells out what they stand for.

use vstd::prelude::*;
use crate::error::syntax_error;
use crate::error::Error;
use crate::error::ErrorView;
use crate::error::Location;
use crate::error::Syntax;
use crate::text::chars_of;

verus! {

/// The punctuation.
#[derive(Clone, Copy, Debug, PartialEq, Eq, Structural)]
pub enum Mark {
    /// `(`
    Open,
    /// `)`
    Close,
    /// `,`
    Comma,
    /// `=`
    Equals,
}

/// One token.
#[derive(Debug, PartialEq, Eq)]
pub enum Token {
    /// A name, as written.
    Ident(String),
    /// A string literal, by what stands between its quotes.
    Str(String),
    /// A number, as written.
    Number(String),
    /// A piece of punctuation.
    Mark(Mark),
}

/// The mathematical content of a [`Token`].
pub enum TokenView {
    Ident(Seq<char>),
    Str(Seq<char>),
    Number(Seq<char>),
    Mark(Mark),
}

impl View for Token {
    type V = TokenView;

    open spec fn view(&self) -> TokenView {
        match self {
            Token::Ident(s) => TokenView::Ident(s@),
            Token::Str(s) => TokenView::Str(s@),
            Token::Number(s) => TokenView::Number(s@),
            Token::Mark(m) => TokenView::Mark(*m),
        }
    }
}

impl Clone for Token {
    fn clone(&self) -> (res: Token)
        ensures
            res@ == self@,
    {
        match self {
            Token::Ident(s) => Token::Ident(s.clone()),
            Token::Str(s) => Token::Str(s.clone()),
            Token::Number(s) => Token::Number(s.clone()),
            Token::Mark(m) => Token::Mark(*m),
        }
    }
}

/// A token and the offset of its first character in the text.
#[derive(Debug, PartialEq, Eq)]
pub struct Lexeme {
    pub token: Token,
    pub offset: usize,
}

/// The mathematical content of a [`Lexeme`].
pub struct LexemeView {
    pub token: TokenView,
    pub offset: int,
}

impl View for Lexeme {
    type V = LexemeView;

    open spec fn view(&self) -> LexemeView {
        LexemeView { token: self.token@, offset: self.offset as int }
    }
}

impl Clone for Lexeme {
    fn clone(&self) -> (res: Lexeme)
        ensures
            res@ == self@,
    {
        Lexeme { token: self.token.clone(), offset: self.offset }
    }
}

/// The models of `lexemes`, in order.
pub open spec fn lexemes_of(lexemes: Seq<Lexeme>) -> Seq<LexemeView> {
    Seq::new(lexemes.len(), |i: int| lexemes[i]@)
}

/// Whether the token at `pos` is the mark `mark`.
pub open spec fn is_mark(tokens: Seq<LexemeView>, pos: int, mark: Mark) -> bool {
    0 <= pos < tokens.len() && tokens[pos].token == TokenView::Mark(mark)
}

/// The offset of the token at `pos`, or `end` where the tokens have run out.
pub open spec fn offset_at(tokens: Seq<LexemeView>, pos: int, end: int) -> int {
    if 0 <= pos < tokens.len() {
        tokens[pos].offset
    } else {
        end
    }
}

/// Whether `c` is a blank: a space, a tab or an end of line.
pub open spec fn is_blank(c: char) -> bool {
    c == ' ' || c == '\t' || c == '\n' || c == '\r'
}

/// Whether a name can start with `c`.
pub open spec fn starts_name(c: char) -> bool {
    ('a' <= c && c <= 'z') || ('A' <= c && c <= 'Z') || c == '_'
}

/// Whether `c` is a digit.
pub open spec fn is_digit(c: char) -> bool {
    '0' <= c && c <= '9'
}

/// Whether a name or a number can go on with `c`.
pub open spec fn continues_name(c: char) -> bool {
    starts_name(c) || is_digit(c)
}

/// Where the name or number that runs through `from` ends: the first
/// offset at or after `from` whose character does not continue it.
pub open spec fn name_end(text: Seq<char>, from: int) -> int
    decreases text.len() - from,
{
    if 0 <= from < text.len() && continues_name(text[from]) {
        name_end(text, from + 1)
    } else {
        from
    }
}

/// Whether a backslash escapes `c`.
pub open spec fn is_escaped(c: char) -> bool {
    c == '"' || c == '\\'
}

/// Whether the character at `from` is a backslash with a character behind
/// it that it escapes.
pub open spec fn escapes(text: Seq<char>, from: int) -> bool {
    0 <= from && from + 1 < text.len() && text[from] == '\\' && is_escaped(text[from + 1])
}

/// Where the body of a string literal that runs through `from` stops: at
/// the first double quote at or after `from` that no backslash escapes, or
/// before that at a backslash that escapes nothing, or at the end of the
/// text.
pub open spec fn body_end(text: Seq<char>, from: int) -> int
    decreases text.len() - from,
{
    if from < 0 || from >= text.len() {
        from
    } else if escapes(text, from) {
        body_end(text, from + 2)
    } else if text[from] == '"' || text[from] == '\\' {
        from
    } else {
        body_end(text, from + 1)
    }
}

/// What the body of a string literal that runs through `from` stands for,
/// up to where it stops: each character for itself, and behind a backslash
/// the character that it escapes.
pub open spec fn body(text: Seq<char>, from: int) -> Seq<char>
    decreases text.len() - from,
{
    if from < 0 || from >= text.len() {
        Seq::empty()
    } else if escapes(text, from) {
        seq![text[from + 1]] + body(text, from + 2)
    } else if text[from] == '"' || text[from] == '\\' {
        Seq::empty()
    } else {
        seq![text[from]] + body(text, from + 1)
    }
}

/// The token that starts at `from`, with the offset just behind it; or what
/// is wrong, with the offset at which it is wrong.
pub open spec fn token_at(text: Seq<char>, from: int) -> Result<(TokenView, int), (Syntax, int)> {
    let c = text[from];
    if c == '(' {
        Ok((TokenView::Mark(Mark::Open), from + 1))
    } else if c == ')' {
        Ok((TokenView::Mark(Mark::Close), from + 1))
    } else if c == ',' {
        Ok((TokenView::Mark(Mark::Comma), from + 1))
    } else if c == '=' {
        Ok((TokenView::Mark(Mark::Equals), from + 1))
    } else if c == '"' {
        let end = body_end(text, from + 1);
        if end >= text.len() {
            Err((Syntax::UnterminatedString, from))
        } else if text[end] == '\\' {
            Err((Syntax::UnsupportedEscape, end))
        } else {
            Ok((TokenView::Str(body(text, from + 1)), end + 1))
        }
    } else if starts_name(c) {
        let end = name_end(text, from + 1);
        Ok((TokenView::Ident(text.subrange(from, end)), end))
    } else if is_digit(c) {
        let end = name_end(text, from + 1);
        Ok((TokenView::Number(text.subrange(from, end)), end))
    } else {
        Err((Syntax::UnexpectedCharacter, from))
    }
}

/// `rest` with `before` in front of it, where `rest` is a success.
pub open spec fn preceded(
    before: Seq<LexemeView>,
    rest: Result<Seq<LexemeView>, ErrorView>,
) -> Result<Seq<LexemeView>, ErrorView> {
    match rest {
        Ok(lexemes) => Ok(before + lexemes),
        Err(e) => Err(e),
    }
}

/// The tokens of `text` from offset `from` on, or the first thing in it
/// that is no token.
pub open spec fn lex_from(text: Seq<char>, from: int, origin: usize) -> Result<
    Seq<LexemeView>,
    ErrorView,
>
    decreases text.len() - from,
{
    if from < 0 || from >= text.len() {
        Ok(Seq::empty())
    } else if is_blank(text[from]) {
        lex_from(text, from + 1, origin)
    } else {
        match token_at(text, from) {
            Err((kind, at)) => Err(syntax_error(kind, origin, at)),
            Ok((token, next)) => if from < next <= text.len() {
                preceded(seq![LexemeView { token, offset: from }], lex_from(text, next, origin))
            } else {
                Ok(Seq::empty())
            },
        }
    }
}

/// The tokens of `text`, or the first thing in it that is no token.
pub open spec fn lex(text: Seq<char>, origin: usize) -> Result<Seq<LexemeView>, ErrorView> {
    lex_from(text, 0, origin)
}

/// The models of a list that grew by one lexeme grew by its model.
pub proof fn lemma_lexemes_push(lexemes: Seq<Lexeme>, lexeme: Lexeme)
    ensures
        lexemes_of(lexemes.push(lexeme)) == lexemes_of(lexemes).push(lexeme@),
{
}

/// A name ends at or after the offset it is followed from, within the text,
/// and every character up to its end continues it.
pub proof fn lemma_name_end(text: Seq<char>, from: int)
    requires
        0 <= from <= text.len(),
    ensures
        from <= name_end(text, from) <= text.len(),
        forall|i: int| from <= i < name_end(text, from) ==> continues_name(text[i]),
        name_end(text, from) < text.len() ==> !continues_name(text[name_end(text, from)]),
    decreases text.len() - from,
{
    if from < text.len() && continues_name(text[from]) {
        lemma_name_end(text, from + 1);
    }
}

/// The body of a string literal stops at or after the offset it is followed
/// from, within the text.
pub proof fn lemma_body_end(text: Seq<char>, from: int)
    requires
        0 <= from <= text.len(),
    ensures
        from <= body_end(text, from) <= text.len(),
    decreases text.len() - from,
{
    if from < text.len() {
        if escapes(text, from) {
            lemma_body_end(text, from + 2);
        } else if text[from] != '"' && text[from] != '\\' {
            lemma_body_end(text, from + 1);
        }
    }
}

/// A token is at least one character long and ends within the text.
pub proof fn lemma_token_advances(text: Seq<char>, from: int)
    requires
        0 <= from < text.len(),
    ensures
        token_at(text, from) matches Ok((_, next)) ==> from < next <= text.len(),
{
    lemma_name_end(text, from + 1);
    lemma_body_end(text, from + 1);
}

fn blank(c: char) -> (b: bool)
    ensures
        b == is_blank(c),
{
    c == ' ' || c == '\t' || c == '\n' || c == '\r'
}

fn name_start(c: char) -> (b: bool)
    ensures
        b == starts_name(c),
{
    ('a' <= c && c <= 'z') || ('A' <= c && c <= 'Z') || c == '_'
}

fn digit(c: char) -> (b: bool)
    ensures
        b == is_digit(c),
{
    '0' <= c && c <= '9'
}

fn name_part(c: char) -> (b: bool)
    ensures
        b == continues_name(c),
{
    name_start(c) || digit(c)
}

fn scan_name(chars: &Vec<char>, from: usize) -> (end: usize)
    requires
        from <= chars@.len(),
    ensures
        end == name_end(chars@, from as int),
        from <= end <= chars@.len(),
{
    let mut i = from;
    while i < chars.len() && name_part(chars[i])
        invariant
            from <= i <= chars@.len(),
            name_end(chars@, from as int) == name_end(chars@, i as int),
        decreases chars.len() - i,
    {
        i += 1;
    }
    i
}

/// Reads the body of a string literal from `from` on: where it stops and
/// what it stands for.
fn read_body(text: &str, chars: &Vec<char>, from: usize) -> (res: (usize, String))
    requires
        chars@ == text@,
        from <= chars@.len(),
    ensures
        res.0 == body_end(chars@, from as int),
        from <= res.0 <= chars@.len(),
        res.1@ == body(chars@, from as int),
{
    let n = chars.len();
    let mut value = String::new();
    let mut piece = from;
    let mut i = from;
    while i < n && chars[i] != '"' && (chars[i] != '\\' || (i + 1 < n && (chars[i + 1] == '"'
        || chars[i + 1] == '\\')))
        invariant
            chars@ == text@,
            n == chars@.len(),
            from <= piece <= i <= n,
            body_end(chars@, from as int) == body_end(chars@, i as int),
            body(chars@, from as int) == value@ + chars@.subrange(piece as int, i as int) + body(
                chars@,
                i as int,
            ),
        decreases n - i,
    {
        if chars[i] == '\\' {
            let ghost before = value@;
            value.append(text.substring_char(piece, i));
            assert(before + chars@.subrange(piece as int, i as int) + (seq![chars@[i + 1]] + body(
                chars@,
                i + 2,
            )) =~= value@ + chars@.subrange(i + 1, i + 2) + body(chars@, i + 2));
            piece = i + 1;
            i += 2;
        } else {
            assert(value@ + chars@.subrange(piece as int, i as int) + (seq![chars@[i as int]]
                + body(chars@, i + 1)) =~= value@ + chars@.subrange(piece as int, i + 1) + body(
                chars@,
                i + 1,
            ));
            i += 1;
        }
    }
    assert(body(chars@, i as int) =~= Seq::empty());
    assert(body_end(chars@, i as int) == i);
    value.append(text.substring_char(piece, i));
    (i, value)
}

/// The part of `text` from `from` up to `to`, as a string of its own.
fn slice(text: &str, from: usize, to: usize) -> (s: String)
    requires
        from <= to <= text@.len(),
    ensures
        s@ == text@.subrange(from as int, to as int),
{
    String::from_str(text.substring_char(from, to))
}

/// Splits `text` into its tokens, each with the offset it starts at. The
/// first character or literal that is no token is reported, under `origin`,
/// at its own offset: a literal without an end at its opening quote.
pub fn tokenize(text: &str, origin: usize) -> (res: Result<Vec<Lexeme>, Error>)
    ensures
        res matches Ok(lexemes) ==> lex(text@, origin) == Ok::<Seq<LexemeView>, ErrorView>(
            lexemes_of(lexemes@),
        ),
        res matches Err(e) ==> lex(text@, origin) == Err::<Seq<LexemeView>, ErrorView>(e@),
{
    let chars = chars_of(text);
    let n = chars.len();
    let mut lexemes: Vec<Lexeme> = Vec::new();
    let mut i: usize = 0;
    while i < n
        invariant
            chars@ == text@,
            n == chars@.len(),
            i <= n,
            lex(text@, origin) == preceded(lexemes_of(lexemes@), lex_from(text@, i as int, origin)),
        decreases n - i,
    {
        let c = chars[i];
        let ghost before = lexemes@;
        proof {
            lemma_token_advances(text@, i as int);
        }
        let next: usize;
        let token: Token;
        if blank(c) {
            i += 1;
            continue ;
        } else if c == '(' {
            token = Token::Mark(Mark::Open);
            next = i + 1;
        } else if c == ')' {
            token = Token::Mark(Mark::Close);
            next = i + 1;
        } else if c == ',' {
            token = Token::Mark(Mark::Comma);
            next = i + 1;
        } else if c == '=' {
            token = Token::Mark(Mark::Equals);
            next = i + 1;
        } else if c == '"' {
            let (end, value) = read_body(text, &chars, i + 1);
            if end >= n {
                return Err(
                    Error::Parse {
                        kind: Syntax::UnterminatedString,
                        at: Location { origin, offset: i },
                    },
                );
            }
            if chars[end] == '\\' {
                return Err(
                    Error::Parse {
                        kind: Syntax::UnsupportedEscape,
                        at: Location { origin, offset: end },
                    },
                );
            }
            token = Token::Str(value);
            next = end + 1;
        } else if name_start(c) {
            let end = scan_name(&chars, i + 1);
            token = Token::Ident(slice(text, i, end));
            next = end;
        } else if digit(c) {
            let end = scan_name(&chars, i + 1);
            token = Token::Number(slice(text, i, end));
            next = end;
        } else {
            return Err(
                Error::Parse {
                    kind: Syntax::UnexpectedCharacter,
                    at: Location { origin, offset: i },
                },
            );
        }
        let lexeme = Lexeme { token, offset: i };
        proof {
            lemma_lexemes_push(before, lexeme);
            let rest = lex_from(text@, next as int, origin);
            if rest is Ok {
                assert(lexemes_of(before) + (seq![lexeme@] + rest->Ok_0) =~= lexemes_of(
                    before,
                ).push(lexeme@) + rest->Ok_0);
            }
        }
        lexemes.push(lexeme);
        i = next;
    }
    Ok(lexemes)
}

/// Whether the token at `pos` is the mark `mark`.
pub(crate) fn mark_at(tokens: &Vec<Lexeme>, pos: usize, mark: Mark) -> (b: bool)
    ensures
        b == is_mark(lexemes_of(tokens@), pos as int, mark),
{
    if pos < tokens.len() {
        match &tokens[pos].token {
            Token::Mark(m) => *m == mark,
            _ => false,
        }
    } else {
        false
    }
}

/// The offset of the token at `pos`, or `end` where the tokens have run out.
pub(crate) fn place_at(tokens: &Vec<Lexeme>, pos: usize, end: usize) -> (offset: usize)
    ensures
        offset == offset_at(lexemes_of(tokens@), pos as int, end as int),
{
    if pos < tokens.len() {
        tokens[pos].offset
    } else {
        end
    }
}

/// The characters of `value` from `from` on as they stand in the body of a
/// string literal: each for itself, with a backslash before each double
/// quote and each backslash.
pub open spec fn quoted_body(value: Seq<char>, from: int) -> Seq<char>
    decreases value.len() - from,
{
    if from < 0 || from >= value.len() {
        Seq::empty()
    } else if is_escaped(value[from]) {
        seq!['\\', value[from]] + quoted_body(value, from + 1)
    } else {
        seq![value[from]] + quoted_body(value, from + 1)
    }
}

/// The string literal that stands for `value`.
pub open spec fn quoted(value: Seq<char>) -> Seq<char> {
    seq!['"'] + quoted_body(value, 0) + seq!['"']
}

/// Where a text holds, from `p` on, the body that is written for the rest
/// of a string and then a double quote, it is read as that rest, up to that
/// double quote.
pub proof fn lemma_quoted_body_is_read(text: Seq<char>, p: int, value: Seq<char>, from: int)
    requires
        0 <= from <= value.len(),
        0 <= p,
        p + quoted_body(value, from).len() < text.len(),
        text.subrange(p, p + quoted_body(value, from).len()) == quoted_body(value, from),
        text[p + quoted_body(value, from).len()] == '"',
    ensures
        body_end(text, p) == p + quoted_body(value, from).len(),
        body(text, p) == value.subrange(from, value.len() as int),
    decreases value.len() - from,
{
    let written = quoted_body(value, from);
    if from == value.len() {
        assert(value.subrange(from, value.len() as int) =~= Seq::empty());
    } else {
        let c = value[from];
        let rest = quoted_body(value, from + 1);
        assert(value.subrange(from, value.len() as int) =~= seq![c] + value.subrange(
            from + 1,
            value.len() as int,
        ));
        if is_escaped(c) {
            assert(written == seq!['\\', c] + rest);
            assert(text[p] == written[0]);
            assert(text[p + 1] == written[1]);
            assert(text.subrange(p + 2, p + 2 + rest.len()) =~= rest) by {
                assert forall|k: int| 0 <= k < rest.len() implies text[p + 2 + k] == rest[k] by {
                    assert(text[p + 2 + k] == written[2 + k]);
                }
            }
            lemma_quoted_body_is_read(text, p + 2, value, from + 1);
        } else {
            assert(written == seq![c] + rest);
            assert(text[p] == written[0]);
            assert(text.subrange(p + 1, p + 1 + rest.len()) =~= rest) by {
                assert forall|k: int| 0 <= k < rest.len() implies text[p + 1 + k] == rest[k] by {
                    assert(text[p + 1 + k] == written[1 + k]);
                }
            }
            lemma_quoted_body_is_read(text, p + 1, value, from + 1);
        }
    }
}

/// Every string has a spelling: the string literal that stands for `value`
/// is read, all of it, as the one token that is `value`.
pub proof fn law_quoted_is_read(value: Seq<char>)
    ensures
        token_at(quoted(value), 0) == Ok::<(TokenView, int), (Syntax, int)>(
            (TokenView::Str(value), quoted(value).len() as int),
        ),
{
    let text = quoted(value);
    let inner = quoted_body(value, 0);
    assert(text.subrange(1, 1 + inner.len() as int) =~= inner);
    lemma_quoted_body_is_read(text, 1, value, 0);
    assert(value.subrange(0, value.len() as int) =~= value);
}

/// Writes the string literal that stands for `value`.
pub fn quote(value: &str) -> (res: String)
    ensures
        res@ == quoted(value@),
{
    let chars = chars_of(value);
    let n = chars.len();
    let mut res = String::from_str("\"");
    let mut i: usize = 0;
    proof {
        reveal_strlit("\"");
        reveal_strlit("\\");
        assert("\""@ =~= seq!['"']);
        assert("\\"@ =~= seq!['\\']);
    }
    while i < n
        invariant
            chars@ == value@,
            n == chars@.len(),
            i <= n,
            "\""@ == seq!['"'],
            "\\"@ == seq!['\\'],
            res@ + quoted_body(chars@, i as int) == seq!['"'] + quoted_body(chars@, 0),
        decreases n - i,
    {
        let ghost before = res@;
        if chars[i] == '"' || chars[i] == '\\' {
            res.append("\\");
        }
        res.append(value.substring_char(i, i + 1));
        proof {
            let c = chars@[i as int];
            let rest = quoted_body(chars@, i + 1);
            assert(chars@.subrange(i as int, i + 1) =~= seq![c]);
            if is_escaped(c) {
                assert(before + (seq!['\\', c] + rest) =~= before + seq!['\\'] + seq![c] + rest);
            } else {
                assert(before + (seq![c] + rest) =~= before + seq![c] + rest);
            }
        }
        i += 1;
    }
    assert(res@ + quoted_body(chars@, n as int) =~= res@);
    res.append("\"");
    res
}

/// Whether `word` is a name: not empty, started as a name starts and
/// continued as a name continues.
pub open spec fn is_name(word: Seq<char>) -> bool {
    &&& word.len() > 0
    &&& starts_name(word[0])
    &&& forall|i: int| 0 <= i < word.len() ==> continues_name(#[trigger] word[i])
}

/// Whether `word` is read as a name.
pub fn reads_as_name(word: &str) -> (b: bool)
    ensures
        b == is_name(word@),
{
    let chars = chars_of(word);
    if chars.len() == 0 || !name_start(chars[0]) {
        return false;
    }
    let mut i: usize = 0;
    while i < chars.len()
        invariant
            i <= chars@.len(),
            chars@ == word@,
            forall|j: int| 0 <= j < i ==> continues_name(#[trigger] chars@[j]),
        decreases chars.len() - i,
    {
        if !name_part(chars[i]) {
            return false;
        }
        i += 1;
    }
    true
}

} // verus!
