//! Splitting a text into tokens.

use crate::text::{is_space, line_views, lines, lines_of, space};
use vstd::prelude::*;

verus! {


/// A token. Quotes matter: `rows` is a directive, `"rows"` may name a column.
#[derive(Debug)]
pub enum Token {
    Bare(String),
    Quoted(String),
}

/// What a token says.
pub enum Lexeme {
    Bare(Seq<char>),
    Quoted(Seq<char>),
}

impl View for Token {
    type V = Lexeme;

    open spec fn view(&self) -> Lexeme {
        match self {
            Token::Bare(s) => Lexeme::Bare(s@),
            Token::Quoted(s) => Lexeme::Quoted(s@),
        }
    }
}

pub open spec fn lexemes(tokens: Seq<Token>) -> Seq<Lexeme> {
    tokens.map_values(|t: Token| t@)
}

/// Why a line cannot be split into tokens.
#[derive(Clone, Copy, Debug, PartialEq, Eq, Structural)]
pub enum LexFault {
    /// A quoted text has no closing quote on its line.
    OpenQuote,
    /// A backslash is followed by a character that is no escape.
    UnknownEscape(char),
    /// A closing quote is followed by neither white space nor a comment.
    NoGap,
}

/// The character that a backslash and `c` stand for.
pub open spec fn unescaped(c: char) -> Option<char> {
    if c == '"' {
        Some('"')
    } else if c == '\\' {
        Some('\\')
    } else if c == 'n' {
        Some('\n')
    } else if c == 'r' {
        Some('\r')
    } else if c == 't' {
        Some('\t')
    } else {
        None
    }
}

/// Reads a quoted text from position `i`, just behind what was read so far:
/// the whole text and the position behind its closing quote.
pub open spec fn quoted_text(line: Seq<char>, i: int, read: Seq<char>) -> Result<
    (Seq<char>, int),
    LexFault,
>
    decreases line.len() - i,
{
    if i < 0 || i >= line.len() {
        Err(LexFault::OpenQuote)
    } else if line[i] == '"' {
        Ok((read, i + 1))
    } else if line[i] != '\\' {
        quoted_text(line, i + 1, read.push(line[i]))
    } else if i + 1 >= line.len() {
        Err(LexFault::OpenQuote)
    } else {
        match unescaped(line[i + 1]) {
            Some(c) => quoted_text(line, i + 2, read.push(c)),
            None => Err(LexFault::UnknownEscape(line[i + 1])),
        }
    }
}

/// Does a bare token end in front of this character?
pub open spec fn ends_bare(c: char) -> bool {
    is_space(c) || c == '#'
}

/// The position behind a bare token that goes on at `i`.
pub open spec fn bare_end(line: Seq<char>, i: int) -> int
    decreases line.len() - i,
{
    if i < 0 || i >= line.len() || ends_bare(line[i]) {
        i
    } else {
        bare_end(line, i + 1)
    }
}

pub proof fn lemma_bare_end(line: Seq<char>, i: int)
    requires
        0 <= i <= line.len(),
    ensures
        i <= bare_end(line, i) <= line.len(),
        i < line.len() && !ends_bare(line[i]) ==> i < bare_end(line, i),
        forall|k: int| i <= k < bare_end(line, i) ==> !ends_bare(#[trigger] line[k]),
        bare_end(line, i) < line.len() ==> ends_bare(line[bare_end(line, i)]),
    decreases line.len() - i,
{
    if i < line.len() && !ends_bare(line[i]) {
        lemma_bare_end(line, i + 1);
    }
}

pub proof fn lemma_quoted_moves(line: Seq<char>, i: int, read: Seq<char>)
    requires
        0 <= i,
    ensures
        quoted_text(line, i, read) matches Ok(found) ==> i < found.1 <= line.len(),
    decreases line.len() - i,
{
    if i < line.len() && line[i] != '"' {
        if line[i] != '\\' {
            lemma_quoted_moves(line, i + 1, read.push(line[i]));
        } else if i + 1 < line.len() {
            match unescaped(line[i + 1]) {
                Some(c) => lemma_quoted_moves(line, i + 2, read.push(c)),
                None => {},
            }
        }
    }
}

/// The tokens read so far, followed by those of the line from position `i`.
pub open spec fn line_tokens(line: Seq<char>, i: int, read: Seq<Lexeme>) -> Result<
    Seq<Lexeme>,
    LexFault,
>
    decreases line.len() - i,
    when 0 <= i
{
    if i >= line.len() || line[i] == '#' {
        Ok(read)
    } else if is_space(line[i]) {
        line_tokens(line, i + 1, read)
    } else if line[i] == '"' {
        proof {
            lemma_quoted_moves(line, i + 1, Seq::empty());
        }
        match quoted_text(line, i + 1, Seq::empty()) {
            Err(fault) => Err(fault),
            Ok(found) => if found.1 < line.len() && !ends_bare(line[found.1]) {
                Err(LexFault::NoGap)
            } else {
                line_tokens(line, found.1, read.push(Lexeme::Quoted(found.0)))
            },
        }
    } else {
        proof {
            lemma_bare_end(line, i);
        }
        line_tokens(
            line,
            bare_end(line, i),
            read.push(Lexeme::Bare(line.subrange(i, bare_end(line, i)))),
        )
    }
}

/// The tokens read so far, followed by those of the lines from number `k`.
/// A fault comes with the number of its line, counted from 1.
pub open spec fn all_tokens(rows: Seq<Seq<char>>, k: int, read: Seq<Lexeme>) -> Result<
    Seq<Lexeme>,
    (int, LexFault),
>
    decreases rows.len() - k,
{
    if k < 0 || k >= rows.len() {
        Ok(read)
    } else {
        match line_tokens(rows[k], 0, read) {
            Err(fault) => Err((k + 1, fault)),
            Ok(more) => all_tokens(rows, k + 1, more),
        }
    }
}

pub open spec fn tokens_of(text: Seq<char>) -> Result<Seq<Lexeme>, (int, LexFault)> {
    all_tokens(lines(text), 0, Seq::empty())
}

/// A quoted text from position `from`, and the position behind it.
fn lex_quoted(line: &Vec<char>, from: usize) -> (out: Result<(String, usize), LexFault>)
    requires
        from <= line.len(),
    ensures
        match out {
            Ok(found) => quoted_text(line@, from as int, Seq::empty()) == Ok::<_, LexFault>(
                (found.0@, found.1 as int),
            ),
            Err(fault) => quoted_text(line@, from as int, Seq::empty()) == Err::<
                (Seq<char>, int),
                LexFault,
            >(fault),
        },
{
    let n: usize = line.len();
    let mut value: String = String::new();
    let mut i: usize = from;
    while i < n
        invariant
            from <= i <= n == line.len(),
            quoted_text(line@, i as int, value@) == quoted_text(
                line@,
                from as int,
                Seq::<char>::empty(),
            ),
        decreases n - i,
    {
        let c: char = line[i];
        if c == '"' {
            return Ok((value, i + 1));
        }
        if c != '\\' {
            value.push(c);
            i += 1;
        } else {
            if i + 1 >= n {
                return Err(LexFault::OpenQuote);
            }
            let e: char = line[i + 1];
            if e == '"' {
                value.push('"');
            } else if e == '\\' {
                value.push('\\');
            } else if e == 'n' {
                value.push('\n');
            } else if e == 'r' {
                value.push('\r');
            } else if e == 't' {
                value.push('\t');
            } else {
                return Err(LexFault::UnknownEscape(e));
            }
            i += 2;
        }
    }
    Err(LexFault::OpenQuote)
}

/// Appends the tokens of one line.
fn lex_line(line: &Vec<char>, out: &mut Vec<Token>) -> (done: Result<(), LexFault>)
    ensures
        match done {
            Ok(_) => line_tokens(line@, 0, lexemes(old(out)@)) == Ok::<_, LexFault>(
                lexemes(final(out)@),
            ),
            Err(fault) => line_tokens(line@, 0, lexemes(old(out)@)) == Err::<
                Seq<Lexeme>,
                LexFault,
            >(fault),
        },
{
    let n: usize = line.len();
    let mut i: usize = 0;
    let ghost start = lexemes(out@);
    loop
        invariant
            i <= n == line.len(),
            start == lexemes(old(out)@),
            line_tokens(line@, i as int, lexemes(out@)) == line_tokens(line@, 0, start),
        decreases n - i,
    {
        if i >= n {
            return Ok(());
        }
        let c: char = line[i];
        if c == '#' {
            return Ok(());
        }
        let ghost before = lexemes(out@);
        if space(c) {
            i += 1;
        } else if c == '"' {
            proof {
                lemma_quoted_moves(line@, i + 1, Seq::empty());
            }
            match lex_quoted(line, i + 1) {
                Err(fault) => {
                    return Err(fault);
                },
                Ok((value, j)) => {
                    if j < n && !space(line[j]) && line[j] != '#' {
                        return Err(LexFault::NoGap);
                    }
                    let ghost said = Lexeme::Quoted(value@);
                    out.push(Token::Quoted(value));
                    assert(lexemes(out@) =~= before.push(said));
                    i = j;
                },
            }
        } else {
            let mut value: String = String::new();
            let mut j: usize = i;
            proof {
                lemma_bare_end(line@, i as int);
            }
            while j < n && !space(line[j]) && line[j] != '#'
                invariant
                    i <= j <= n == line.len(),
                    value@ == line@.subrange(i as int, j as int),
                    bare_end(line@, j as int) == bare_end(line@, i as int),
                decreases n - j,
            {
                value.push(line[j]);
                j += 1;
            }
            let ghost said = Lexeme::Bare(value@);
            out.push(Token::Bare(value));
            assert(lexemes(out@) =~= before.push(said));
            i = j;
        }
    }
}

/// Splits a text into tokens. A fault comes with the number of its line.
pub fn tokenize(text: &str) -> (out: Result<Vec<Token>, (usize, LexFault)>)
    ensures
        match out {
            Ok(tokens) => tokens_of(text@) == Ok::<_, (int, LexFault)>(lexemes(tokens@)),
            Err(e) => tokens_of(text@) == Err::<Seq<Lexeme>, _>((e.0 as int, e.1)),
        },
{
    let rows: Vec<Vec<char>> = lines_of(text);
    let mut out: Vec<Token> = Vec::new();
    let mut k: usize = 0;
    assert(lexemes(out@) =~= Seq::empty());
    while k < rows.len()
        invariant
            k <= rows.len(),
            line_views(rows@) == lines(text@),
            all_tokens(line_views(rows@), k as int, lexemes(out@)) == tokens_of(text@),
        decreases rows.len() - k,
    {
        assert(line_views(rows@)[k as int] == rows@[k as int]@);
        match lex_line(&rows[k], &mut out) {
            Ok(_) => {},
            Err(fault) => {
                return Err((k + 1, fault));
            },
        }
        k += 1;
    }
    Ok(out)
}

} // verus!
