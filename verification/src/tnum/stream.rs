//! What holds of the tokens of any text.

use crate::text::{is_space, lemma_run_before, lemma_run_is, lines, run_before, without_return};
use crate::tnum::round_trip::{all_writable, plain, writable};
use crate::tnum::token::{
    all_tokens, bare_end, ends_bare, lemma_bare_end, lemma_quoted_moves, line_tokens, quoted_text,
    tokens_of, unescaped, LexFault, Lexeme,
};
use vstd::prelude::*;

verus! {

/// A carriage return behind a line is not part of a quoted text in it.
proof fn lemma_quoted_without_return(line: Seq<char>, i: int, read: Seq<char>)
    requires
        0 <= i <= line.len(),
        quoted_text(line.push('\r'), i, read) is Ok,
    ensures
        quoted_text(line, i, read) == quoted_text(line.push('\r'), i, read),
        quoted_text(line, i, read)->Ok_0.1 <= line.len(),
    decreases line.len() - i,
{
    let longer = line.push('\r');
    if i == line.len() {
        assert(longer[i] == '\r');
        assert(quoted_text(longer, i + 1, read.push('\r')) is Err);
    } else {
        assert(longer[i] == line[i]);
        if line[i] == '"' {
        } else if line[i] != '\\' {
            lemma_quoted_without_return(line, i + 1, read.push(line[i]));
        } else {
            assert(unescaped('\r') is None);
            assert(i + 1 < line.len());
            assert(longer[i + 1] == line[i + 1]);
            lemma_quoted_without_return(line, i + 2, read.push(unescaped(line[i + 1])->0));
        }
    }
}

proof fn lemma_bare_without_return(line: Seq<char>, i: int)
    requires
        0 <= i <= line.len(),
    ensures
        bare_end(line.push('\r'), i) == bare_end(line, i),
    decreases line.len() - i,
{
    let longer = line.push('\r');
    assert(is_space('\r'));
    if i == line.len() {
        assert(longer[i] == '\r');
    } else {
        assert(longer[i] == line[i]);
        if !ends_bare(line[i]) {
            lemma_bare_without_return(line, i + 1);
        }
    }
}

/// A carriage return behind a line changes none of its tokens.
proof fn lemma_line_without_return(line: Seq<char>, i: int, read: Seq<Lexeme>)
    requires
        0 <= i <= line.len(),
        line_tokens(line.push('\r'), i, read) is Ok,
    ensures
        line_tokens(line, i, read) == line_tokens(line.push('\r'), i, read),
    decreases line.len() - i,
{
    let longer = line.push('\r');
    assert(is_space('\r'));
    if i == line.len() {
        assert(longer[i] == '\r');
        assert(line_tokens(longer, i, read) == line_tokens(longer, i + 1, read));
    } else {
        assert(longer[i] == line[i]);
        if line[i] == '#' {
        } else if is_space(line[i]) {
            lemma_line_without_return(line, i + 1, read);
        } else if line[i] == '"' {
            lemma_quoted_moves(longer, i + 1, Seq::empty());
            lemma_quoted_moves(line, i + 1, Seq::empty());
            lemma_quoted_without_return(line, i + 1, Seq::empty());
            let found = quoted_text(line, i + 1, Seq::empty())->Ok_0;
            if found.1 < line.len() {
                assert(longer[found.1] == line[found.1]);
            }
            lemma_line_without_return(line, found.1, read.push(Lexeme::Quoted(found.0)));
        } else {
            lemma_bare_without_return(line, i);
            lemma_bare_end(line, i);
            let end = bare_end(line, i);
            assert(longer.subrange(i, end) =~= line.subrange(i, end));
            lemma_line_without_return(line, end, read.push(Lexeme::Bare(line.subrange(i, end))));
        }
    }
}

/// What was read before stands in front of the tokens of a line.
proof fn lemma_line_after(line: Seq<char>, i: int, read: Seq<Lexeme>, more: Seq<Lexeme>)
    requires
        0 <= i,
    ensures
        line_tokens(line, i, read + more) == (match line_tokens(line, i, more) {
            Ok(toks) => Ok::<Seq<Lexeme>, LexFault>(read + toks),
            Err(fault) => Err(fault),
        }),
    decreases line.len() - i,
{
    if i >= line.len() || line[i] == '#' {
    } else if is_space(line[i]) {
        lemma_line_after(line, i + 1, read, more);
    } else if line[i] == '"' {
        lemma_quoted_moves(line, i + 1, Seq::empty());
        match quoted_text(line, i + 1, Seq::empty()) {
            Err(_) => {},
            Ok(found) => if found.1 < line.len() && !ends_bare(line[found.1]) {
            } else {
                let t = Lexeme::Quoted(found.0);
                assert((read + more).push(t) =~= read + more.push(t));
                lemma_line_after(line, found.1, read, more.push(t));
            },
        }
    } else {
        lemma_bare_end(line, i);
        let end = bare_end(line, i);
        let t = Lexeme::Bare(line.subrange(i, end));
        assert((read + more).push(t) =~= read + more.push(t));
        lemma_line_after(line, end, read, more.push(t));
    }
}

/// What was read before stands in front of the tokens of the lines.
proof fn lemma_lines_after(rows: Seq<Seq<char>>, k: int, read: Seq<Lexeme>, more: Seq<Lexeme>)
    requires
        0 <= k,
    ensures
        all_tokens(rows, k, read + more) == (match all_tokens(rows, k, more) {
            Ok(toks) => Ok::<Seq<Lexeme>, (int, LexFault)>(read + toks),
            Err(fault) => Err(fault),
        }),
    decreases rows.len() - k,
{
    if k < rows.len() {
        lemma_line_after(rows[k], 0, read, more);
        match line_tokens(rows[k], 0, more) {
            Ok(toks) => lemma_lines_after(rows, k + 1, read, toks),
            Err(_) => {},
        }
    }
}

/// The lines behind the first one, on their own.
proof fn lemma_lines_behind(first: Seq<char>, rows: Seq<Seq<char>>, k: int, read: Seq<Lexeme>)
    requires
        0 <= k,
    ensures
        all_tokens(seq![first] + rows, k + 1, read) is Ok == all_tokens(rows, k, read) is Ok,
        all_tokens(rows, k, read) is Ok ==> all_tokens(seq![first] + rows, k + 1, read)
            == all_tokens(rows, k, read),
    decreases rows.len() - k,
{
    if k < rows.len() {
        assert((seq![first] + rows)[k + 1] == rows[k]);
        match line_tokens(rows[k], 0, read) {
            Ok(toks) => lemma_lines_behind(first, rows, k + 1, toks),
            Err(_) => {},
        }
    }
}

/// The tokens of a text, a line break and another text.
proof fn lemma_broken_text(a: Seq<char>, b: Seq<char>, read: Seq<Lexeme>)
    requires
        all_tokens(lines(a), 0, read) is Ok,
        all_tokens(lines(b), 0, all_tokens(lines(a), 0, read)->Ok_0) is Ok,
    ensures
        all_tokens(lines(a.push('\n') + b), 0, read) == all_tokens(
            lines(b),
            0,
            all_tokens(lines(a), 0, read)->Ok_0,
        ),
    decreases a.len(),
{
    let whole = a.push('\n') + b;
    let n = run_before(a, '\n');
    lemma_run_before(a, '\n');
    assert forall|i: int| 0 <= i < n implies #[trigger] whole[i] != '\n' by {
        assert(whole[i] == a[i]);
    }
    assert(whole[n as int] == '\n');
    lemma_run_is(whole, '\n', n);
    assert(whole.take(n as int) =~= a.take(n as int));
    let first = without_return(a.take(n as int));
    if n < a.len() {
        let rest = a.skip(n as int + 1);
        assert(whole.skip(n as int + 1) =~= rest.push('\n') + b);
        let rows = lines(rest);
        assert(lines(a) == seq![first] + rows);
        assert(lines(whole) == seq![first] + lines(rest.push('\n') + b));
        assert((seq![first] + rows)[0] == first);
        let head = line_tokens(first, 0, read)->Ok_0;
        lemma_lines_behind(first, rows, 0, head);
        lemma_broken_text(rest, b, head);
        assert((seq![first] + lines(rest.push('\n') + b))[0] == first);
        lemma_lines_behind(first, lines(rest.push('\n') + b), 0, head);
    } else {
        assert(whole.skip(n as int + 1) =~= b);
        assert(a.take(n as int) =~= a);
        assert(lines(whole) == seq![first] + lines(b));
        assert((seq![first] + lines(b))[0] == first);
        if a.len() == 0 {
            assert(first =~= a);
            assert(line_tokens(first, 0, read) == Ok::<Seq<Lexeme>, LexFault>(read));
            assert(all_tokens(lines(a), 0, read) == Ok::<Seq<Lexeme>, (int, LexFault)>(read));
            lemma_lines_behind(first, lines(b), 0, read);
        } else {
            assert(lines(a) == seq![a]);
            let toks = line_tokens(a, 0, read)->Ok_0;
            assert(all_tokens(lines(a), 1, toks) == Ok::<Seq<Lexeme>, (int, LexFault)>(toks));
            if a.last() == '\r' {
                assert(first.push('\r') =~= a);
                lemma_line_without_return(first, 0, read);
            }
            lemma_lines_behind(first, lines(b), 0, toks);
        }
    }
}

/// No token, quote or comment crosses a line end: the tokens of two texts with
/// a line break between them are the tokens of the first and then those of the
/// second.
pub proof fn law_lines_stand_alone(a: Seq<char>, b: Seq<char>, x: Seq<Lexeme>, y: Seq<Lexeme>)
    requires
        tokens_of(a) == Ok::<Seq<Lexeme>, (int, LexFault)>(x),
        tokens_of(b) == Ok::<Seq<Lexeme>, (int, LexFault)>(y),
    ensures
        tokens_of(a + seq!['\n'] + b) == Ok::<Seq<Lexeme>, (int, LexFault)>(x + y),
{
    assert(x + Seq::<Lexeme>::empty() =~= x);
    lemma_lines_after(lines(b), 0, x, Seq::empty());
    lemma_broken_text(a, b, Seq::empty());
    assert(a + seq!['\n'] + b =~= a.push('\n') + b);
}

proof fn lemma_line_words(line: Seq<char>, i: int, read: Seq<Lexeme>)
    requires
        0 <= i,
        all_writable(read),
    ensures
        line_tokens(line, i, read) matches Ok(toks) ==> all_writable(toks),
    decreases line.len() - i,
{
    if i >= line.len() || line[i] == '#' {
    } else if is_space(line[i]) {
        lemma_line_words(line, i + 1, read);
    } else if line[i] == '"' {
        lemma_quoted_moves(line, i + 1, Seq::empty());
        match quoted_text(line, i + 1, Seq::empty()) {
            Err(_) => {},
            Ok(found) => if found.1 < line.len() && !ends_bare(line[found.1]) {
            } else {
                let t = Lexeme::Quoted(found.0);
                lemma_one_more(read, t);
                lemma_line_words(line, found.1, read.push(t));
            },
        }
    } else {
        lemma_bare_end(line, i);
        let end = bare_end(line, i);
        let word = line.subrange(i, end);
        assert forall|k: int| 0 <= k < word.len() implies !ends_bare(#[trigger] word[k]) by {
            assert(word[k] == line[i + k]);
        }
        assert(plain(word));
        lemma_one_more(read, Lexeme::Bare(word));
        lemma_line_words(line, end, read.push(Lexeme::Bare(word)));
    }
}

proof fn lemma_one_more(read: Seq<Lexeme>, t: Lexeme)
    requires
        all_writable(read),
        writable(t),
    ensures
        all_writable(read.push(t)),
{
    assert forall|i: int| 0 <= i < read.push(t).len() implies writable(
        #[trigger] read.push(t)[i],
    ) by {
        if i < read.len() {
            assert(read.push(t)[i] == read[i]);
        }
    }
}

proof fn lemma_all_words(rows: Seq<Seq<char>>, k: int, read: Seq<Lexeme>)
    requires
        all_writable(read),
    ensures
        all_tokens(rows, k, read) matches Ok(toks) ==> all_writable(toks),
    decreases rows.len() - k,
{
    if 0 <= k < rows.len() {
        lemma_line_words(rows[k], 0, read);
        match line_tokens(rows[k], 0, read) {
            Ok(toks) => lemma_all_words(rows, k + 1, toks),
            Err(_) => {},
        }
    }
}

/// A bare token is never empty, holds neither white space nor `#`, and does not
/// begin with a quote.
pub proof fn law_bare_tokens_are_words(text: Seq<char>, i: int)
    requires
        tokens_of(text) is Ok,
        0 <= i < tokens_of(text)->Ok_0.len(),
    ensures
        tokens_of(text)->Ok_0[i] matches Lexeme::Bare(s) ==> {
            &&& s.len() > 0
            &&& s[0] != '"'
            &&& forall|k: int| 0 <= k < s.len() ==> !is_space(#[trigger] s[k]) && s[k] != '#'
        },
{
    lemma_all_words(lines(text), 0, Seq::empty());
    assert(writable(tokens_of(text)->Ok_0[i]));
    if let Lexeme::Bare(s) = tokens_of(text)->Ok_0[i] {
        assert forall|k: int| 0 <= k < s.len() implies !is_space(#[trigger] s[k]) && s[k]
            != '#' by {
            assert(!ends_bare(s[k]));
        }
    }
}

/// A quoted text that ends in a line ends where it did, whatever follows.
proof fn lemma_quoted_before(line: Seq<char>, more: Seq<char>, i: int, read: Seq<char>)
    requires
        0 <= i <= line.len(),
        quoted_text(line, i, read) is Ok,
    ensures
        quoted_text(line + more, i, read) == quoted_text(line, i, read),
    decreases line.len() - i,
{
    let longer = line + more;
    if i < line.len() {
        assert(longer[i] == line[i]);
        if line[i] == '"' {
        } else if line[i] != '\\' {
            lemma_quoted_before(line, more, i + 1, read.push(line[i]));
        } else if i + 1 < line.len() {
            assert(longer[i + 1] == line[i + 1]);
            match unescaped(line[i + 1]) {
                Some(c) => lemma_quoted_before(line, more, i + 2, read.push(c)),
                None => {},
            }
        }
    }
}

proof fn lemma_bare_before(line: Seq<char>, more: Seq<char>, i: int)
    requires
        0 <= i <= line.len(),
        more.len() > 0,
        more[0] == '#',
    ensures
        bare_end(line + more, i) == bare_end(line, i),
    decreases line.len() - i,
{
    let longer = line + more;
    if i == line.len() {
        assert(longer[i] == '#');
    } else {
        assert(longer[i] == line[i]);
        if !ends_bare(line[i]) {
            lemma_bare_before(line, more, i + 1);
        }
    }
}

proof fn lemma_comment(line: Seq<char>, more: Seq<char>, i: int, read: Seq<Lexeme>)
    requires
        0 <= i <= line.len(),
        more.len() > 0,
        more[0] == '#',
        line_tokens(line, i, read) is Ok,
    ensures
        line_tokens(line + more, i, read) == line_tokens(line, i, read),
    decreases line.len() - i,
{
    let longer = line + more;
    if i == line.len() {
        assert(longer[i] == '#');
    } else {
        assert(longer[i] == line[i]);
        if line[i] == '#' {
        } else if is_space(line[i]) {
            lemma_comment(line, more, i + 1, read);
        } else if line[i] == '"' {
            lemma_quoted_moves(line, i + 1, Seq::empty());
            lemma_quoted_before(line, more, i + 1, Seq::empty());
            lemma_quoted_moves(longer, i + 1, Seq::empty());
            let found = quoted_text(line, i + 1, Seq::empty())->Ok_0;
            if found.1 < line.len() {
                assert(longer[found.1] == line[found.1]);
            } else {
                assert(longer[found.1] == '#');
            }
            lemma_comment(line, more, found.1, read.push(Lexeme::Quoted(found.0)));
        } else {
            lemma_bare_before(line, more, i);
            lemma_bare_end(line, i);
            let end = bare_end(line, i);
            assert(longer.subrange(i, end) =~= line.subrange(i, end));
            lemma_comment(line, more, end, read.push(Lexeme::Bare(line.subrange(i, end))));
        }
    }
}

/// A comment ends its line: behind a line that can be split, `#` and whatever
/// follows it change no token.
pub proof fn law_a_comment_changes_no_token(line: Seq<char>, comment: Seq<char>, x: Seq<Lexeme>)
    requires
        line_tokens(line, 0, Seq::empty()) == Ok::<Seq<Lexeme>, LexFault>(x),
    ensures
        line_tokens(line + (seq!['#'] + comment), 0, Seq::empty()) == Ok::<Seq<Lexeme>, LexFault>(
            x,
        ),
{
    lemma_comment(line, seq!['#'] + comment, 0, Seq::empty());
}

/// Exactly these characters may follow a backslash, and each stands for a
/// character of its own.
pub proof fn law_escapes_stand_for_one_character_each(c: char, d: char)
    ensures
        unescaped(c) is Some <==> c == '"' || c == '\\' || c == 'n' || c == 'r' || c == 't',
        unescaped(c) is Some && unescaped(c) == unescaped(d) ==> c == d,
        unescaped('n') == Some('\n') && unescaped('r') == Some('\r') && unescaped('t') == Some(
            '\t',
        ),
{
}

} // verus!
