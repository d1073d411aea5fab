//! Reading a written file gives back what was written.

use crate::data::NumericDataset;
use crate::encoders::FeatureSpec;
use crate::schema::{ColumnRole, ColumnView, SchemaRulings, SchemaView};
use crate::single::Single;
use crate::text::{
    blank, decimal, is_digit, is_space, joined, law_decimal_reads_back, lemma_decimal,
    lemma_run_is, lines, lowered, without_return,
};
use crate::tnum::header::{
    assembled, document, feature_type, header_of, input_fault, labels_from, named_fields,
    names_from, no_labels, no_units, number, output_fault, preamble, quoted, row_count,
    sections_from, types_from, unit_at, units_from, units_line, DocumentView, HeaderView,
    TnumError, TypeFault, What,
};
use crate::tnum::token::{
    all_tokens, bare_end, ends_bare, lemma_bare_end, line_tokens, quoted_text, tokens_of,
    unescaped, LexFault, Lexeme,
};
use crate::tnum::values::{columns_of, data_fault, fault_from, misspelled};
use crate::tnum::writer::{
    escaped, escaped_char, file_lines, has_units, in_quotes, level_line, level_lines, quoted_all,
    terminated, type_word, unit_lines, unit_word,
};
use vstd::prelude::*;

verus! {

/// How a token is written.
pub open spec fn rendered(t: Lexeme) -> Seq<char> {
    match t {
        Lexeme::Bare(s) => s,
        Lexeme::Quoted(s) => in_quotes(s),
    }
}

pub open spec fn rendered_all(toks: Seq<Lexeme>) -> Seq<Seq<char>> {
    toks.map_values(|t: Lexeme| rendered(t))
}

/// A word that can stand without quotes.
pub open spec fn plain(s: Seq<char>) -> bool {
    &&& s.len() > 0
    &&& s[0] != '"'
    &&& forall|i: int| 0 <= i < s.len() ==> !ends_bare(#[trigger] s[i])
}

pub open spec fn writable(t: Lexeme) -> bool {
    t matches Lexeme::Bare(s) ==> plain(s)
}

pub open spec fn all_writable(toks: Seq<Lexeme>) -> bool {
    forall|i: int| 0 <= i < toks.len() ==> writable(#[trigger] toks[i])
}

/// Neither a line feed nor a carriage return.
pub open spec fn one_line(s: Seq<char>) -> bool {
    forall|i: int| 0 <= i < s.len() ==> (#[trigger] s[i]) != '\n' && s[i] != '\r'
}

proof fn lemma_escaped_add(a: Seq<char>, b: Seq<char>)
    ensures
        escaped(a + b) == escaped(a) + escaped(b),
    decreases b.len(),
{
    if b.len() == 0 {
        assert(a + b =~= a);
        assert(escaped(a) + escaped(b) =~= escaped(a));
    } else {
        assert((a + b).drop_last() =~= a + b.drop_last());
        lemma_escaped_add(a, b.drop_last());
        assert(escaped(a) + (escaped(b.drop_last()) + escaped_char(b.last())) =~= escaped(a)
            + escaped(b.drop_last()) + escaped_char(b.last()));
    }
}

proof fn lemma_escaped_front(s: Seq<char>)
    requires
        s.len() > 0,
    ensures
        escaped(s) == escaped_char(s[0]) + escaped(s.skip(1)),
{
    let one = seq![s[0]];
    assert(s =~= one + s.skip(1));
    lemma_escaped_add(one, s.skip(1));
    assert(one.drop_last() =~= Seq::<char>::empty());
    assert(escaped(one) == escaped(Seq::<char>::empty()) + escaped_char(s[0]));
    assert(escaped(Seq::<char>::empty()) =~= Seq::<char>::empty());
    assert(escaped(one) =~= escaped_char(s[0]));
}

proof fn lemma_escaped_one_line(s: Seq<char>)
    ensures
        one_line(escaped(s)),
    decreases s.len(),
{
    if s.len() > 0 {
        lemma_escaped_one_line(s.drop_last());
        let a = escaped(s.drop_last());
        let b = escaped_char(s.last());
        assert(one_line(b));
        lemma_one_line_add(a, b);
    }
}

proof fn lemma_one_line_add(a: Seq<char>, b: Seq<char>)
    requires
        one_line(a),
        one_line(b),
    ensures
        one_line(a + b),
{
    assert forall|i: int| 0 <= i < (a + b).len() implies (#[trigger] (a + b)[i]) != '\n' && (a
        + b)[i] != '\r' by {
        if i < a.len() {
            assert((a + b)[i] == a[i]);
        } else {
            assert((a + b)[i] == b[i - a.len()]);
        }
    }
}

/// A quoted text is read back from its escaped form.
proof fn lemma_quoted_back(line: Seq<char>, i: int, s: Seq<char>, read: Seq<char>)
    requires
        0 <= i,
        i + escaped(s).len() < line.len(),
        line.subrange(i, i + escaped(s).len()) == escaped(s),
        line[i + escaped(s).len()] == '"',
    ensures
        quoted_text(line, i, read) == Ok::<(Seq<char>, int), LexFault>(
            (read + s, i + escaped(s).len() + 1),
        ),
    decreases s.len(),
{
    if s.len() == 0 {
        assert(escaped(s).len() == 0);
        assert(read + s =~= read);
    } else {
        lemma_escaped_front(s);
        let e = escaped_char(s[0]);
        let rest = s.skip(1);
        let k = e.len() as int;
        assert(line.subrange(i, i + escaped(s).len()) == e + escaped(rest));
        assert forall|j: int| 0 <= j < k implies line[i + j] == #[trigger] e[j] by {
            assert(line.subrange(i, i + escaped(s).len())[j] == (e + escaped(rest))[j]);
        }
        assert(line.subrange(i + k, i + k + escaped(rest).len()) =~= escaped(rest)) by {
            assert forall|j: int| 0 <= j < escaped(rest).len() implies line.subrange(
                i + k,
                i + k + escaped(rest).len(),
            )[j] == escaped(rest)[j] by {
                assert(line.subrange(i, i + escaped(s).len())[k + j] == (e + escaped(rest))[k
                    + j]);
            }
        }
        lemma_quoted_back(line, i + k, rest, read.push(s[0]));
        assert(read.push(s[0]) + rest =~= read + s);
        assert(line[i] == e[0]);
        if k == 2 {
            assert(line[i + 1] == e[1]);
            assert(unescaped(e[1]) == Some(s[0]));
        }
    }
}

/// A token that is followed by white space or by nothing is read as itself.
proof fn lemma_token(line: Seq<char>, i: int, t: Lexeme, read: Seq<Lexeme>)
    requires
        0 <= i,
        i + rendered(t).len() <= line.len(),
        line.subrange(i, i + rendered(t).len()) == rendered(t),
        writable(t),
        i + rendered(t).len() < line.len() ==> is_space(line[i + rendered(t).len()]),
    ensures
        line_tokens(line, i, read) == line_tokens(line, i + rendered(t).len(), read.push(t)),
{
    let r = rendered(t);
    let end = i + r.len();
    assert forall|j: int| 0 <= j < r.len() implies line[i + j] == #[trigger] r[j] by {
        assert(line.subrange(i, end)[j] == r[j]);
    }
    match t {
        Lexeme::Bare(s) => {
            assert(line[i] == r[0]);
            assert(!ends_bare(r[0]));
            lemma_bare_end(line, i);
            let found = bare_end(line, i);
            if found < end {
                assert(line[found] == r[found - i]);
                assert(!ends_bare(r[found - i]));
            }
            if found > end {
                assert(!ends_bare(line[end]));
            }
            assert(line.subrange(i, found) =~= s);
        },
        Lexeme::Quoted(s) => {
            let e = escaped(s);
            assert(line[i] == r[0]);
            assert(r.len() == e.len() + 2);
            assert(line.subrange(i + 1, i + 1 + e.len()) =~= e) by {
                assert forall|j: int| 0 <= j < e.len() implies line.subrange(
                    i + 1,
                    i + 1 + e.len(),
                )[j] == e[j] by {
                    assert(line[i + (j + 1)] == r[j + 1]);
                }
            }
            assert(line[i + (e.len() + 1)] == r[e.len() as int + 1]);
            lemma_quoted_back(line, i + 1, s, Seq::empty());
            assert(Seq::<char>::empty() + s =~= s);
        },
    }
}

/// The first `k` parts, joined, begin the whole, and a blank follows them.
proof fn lemma_joined_prefix(parts: Seq<Seq<char>>, k: int)
    requires
        0 <= k <= parts.len(),
    ensures
        ({
            let whole = joined(parts, " "@);
            let begin = joined(parts.take(k), " "@);
            &&& begin.len() <= whole.len()
            &&& whole.take(begin.len() as int) == begin
            &&& 0 < k < parts.len() ==> begin.len() < whole.len() && whole[begin.len() as int]
                == ' '
        }),
    decreases parts.len() - k,
{
    reveal_strlit(" ");
    let whole = joined(parts, " "@);
    let begin = joined(parts.take(k), " "@);
    if k == parts.len() {
        assert(parts.take(k) =~= parts);
        assert(whole.take(begin.len() as int) =~= begin);
    } else {
        lemma_joined_prefix(parts, k + 1);
        let next = joined(parts.take(k + 1), " "@);
        assert(parts.take(k + 1).drop_last() =~= parts.take(k));
        assert(parts.take(k + 1).last() == parts[k]);
        if k == 0 {
            assert(begin =~= Seq::<char>::empty());
            assert(whole.take(0) =~= begin);
        } else {
            assert(next == begin + " "@ + parts[k]);
            assert(whole.take(begin.len() as int) =~= begin) by {
                assert forall|j: int| 0 <= j < begin.len() implies whole[j] == begin[j] by {
                    assert(whole.take(next.len() as int)[j] == next[j]);
                    assert(next[j] == begin[j]);
                }
            }
            assert(whole.take(next.len() as int)[begin.len() as int] == next[begin.len() as int]);
        }
    }
}

proof fn lemma_joined_step(parts: Seq<Seq<char>>, k: int)
    requires
        0 <= k < parts.len(),
    ensures
        joined(parts.take(k + 1), " "@) == if k == 0 {
            parts[0]
        } else {
            joined(parts.take(k), " "@) + " "@ + parts[k]
        },
{
    assert(parts.take(k + 1).drop_last() =~= parts.take(k));
    assert(parts.take(k + 1).last() == parts[k]);
}

/// Where the lexer stands after `k` tokens of a joined line.
proof fn lemma_joined_upto(
    line: Seq<char>,
    toks: Seq<Lexeme>,
    tail: Seq<char>,
    read: Seq<Lexeme>,
    k: int,
)
    requires
        all_writable(toks),
        line == joined(rendered_all(toks), " "@) + tail,
        tail.len() == 0 || tail == " "@,
        0 <= k <= toks.len(),
    ensures
        line_tokens(line, joined(rendered_all(toks).take(k), " "@).len() as int, read + toks.take(k))
            == line_tokens(line, 0, read),
    decreases k,
{
    reveal_strlit(" ");
    let parts = rendered_all(toks);
    let whole = joined(parts, " "@);
    if k == 0 {
        assert(read + toks.take(0) =~= read);
        assert(joined(parts.take(0), " "@).len() == 0);
    } else {
        lemma_joined_upto(line, toks, tail, read, k - 1);
        lemma_joined_prefix(parts, k);
        lemma_joined_prefix(parts, k - 1);
        lemma_joined_step(parts, k - 1);
        let before = joined(parts.take(k - 1), " "@);
        let upto = joined(parts.take(k), " "@);
        let t = toks[k - 1];
        let sofar = read + toks.take(k - 1);
        let q: int = if k == 1 { 0 } else { before.len() as int + 1 };
        assert(rendered(t) == parts[k - 1]);
        assert(q + rendered(t).len() == upto.len());
        if k > 1 {
            assert(line[before.len() as int] == whole[before.len() as int]);
            assert(is_space(' '));
            assert(line_tokens(line, before.len() as int, sofar) == line_tokens(line, q, sofar));
        } else {
            assert(before.len() == 0);
        }
        assert(line.subrange(q, q + rendered(t).len()) =~= rendered(t)) by {
            assert forall|j: int| 0 <= j < rendered(t).len() implies line.subrange(
                q,
                q + rendered(t).len(),
            )[j] == rendered(t)[j] by {
                assert(whole.take(upto.len() as int)[q + j] == upto[q + j]);
                assert(line[q + j] == whole[q + j]);
            }
        }
        if q + rendered(t).len() < line.len() {
            if k < toks.len() {
                assert(line[upto.len() as int] == whole[upto.len() as int]);
            } else {
                assert(parts.take(k) =~= parts);
                assert(line[upto.len() as int] == tail[0]);
            }
            assert(is_space(' '));
        }
        assert(writable(t));
        lemma_token(line, q, t, sofar);
        assert(sofar.push(t) =~= read + toks.take(k));
    }
}

proof fn lemma_joined_line(line: Seq<char>, toks: Seq<Lexeme>, tail: Seq<char>, read: Seq<Lexeme>)
    requires
        all_writable(toks),
        line == joined(rendered_all(toks), " "@) + tail,
        tail.len() == 0 || tail == " "@,
    ensures
        line_tokens(line, 0, read) == Ok::<Seq<Lexeme>, LexFault>(read + toks),
{
    reveal_strlit(" ");
    let n = toks.len() as int;
    lemma_joined_upto(line, toks, tail, read, n);
    assert(rendered_all(toks).take(n) =~= rendered_all(toks));
    assert(toks.take(n) =~= toks);
    let p = joined(rendered_all(toks), " "@).len() as int;
    if tail.len() > 0 {
        assert(line[p] == tail[0]);
        assert(is_space(' '));
        assert(line_tokens(line, p, read + toks) == line_tokens(line, p + 1, read + toks));
    }
}

proof fn lemma_rendered_one_line(t: Lexeme)
    requires
        writable(t),
    ensures
        one_line(rendered(t)),
{
    match t {
        Lexeme::Bare(s) => {
            assert forall|i: int| 0 <= i < s.len() implies (#[trigger] s[i]) != '\n' && s[i]
                != '\r' by {
                assert(!ends_bare(s[i]));
                assert(is_space('\n') && is_space('\r'));
            }
        },
        Lexeme::Quoted(s) => {
            lemma_escaped_one_line(s);
            let q = seq!['"'];
            assert(one_line(q));
            lemma_one_line_add(q, escaped(s));
            lemma_one_line_add(q + escaped(s), q);
        },
    }
}

proof fn lemma_joined_one_line(parts: Seq<Seq<char>>)
    requires
        forall|i: int| 0 <= i < parts.len() ==> one_line(#[trigger] parts[i]),
    ensures
        one_line(joined(parts, " "@)),
    decreases parts.len(),
{
    reveal_strlit(" ");
    if parts.len() == 1 {
        assert(one_line(parts[0]));
    } else if parts.len() > 1 {
        let rest = parts.drop_last();
        assert forall|i: int| 0 <= i < rest.len() implies one_line(#[trigger] rest[i]) by {
            assert(rest[i] == parts[i]);
        }
        lemma_joined_one_line(rest);
        assert(one_line(" "@));
        lemma_one_line_add(joined(rest, " "@), " "@);
        assert(one_line(parts[parts.len() - 1]));
        lemma_one_line_add(joined(rest, " "@) + " "@, parts.last());
    }
}

proof fn lemma_joined_add(a: Seq<Seq<char>>, b: Seq<Seq<char>>)
    requires
        a.len() > 0,
        b.len() > 0,
    ensures
        joined(a + b, " "@) == joined(a, " "@) + " "@ + joined(b, " "@),
    decreases b.len(),
{
    let whole = a + b;
    assert(whole.drop_last() =~= a + b.drop_last());
    assert(whole.last() == b.last());
    if b.len() == 1 {
        assert(whole.drop_last() =~= a);
        assert(joined(b, " "@) == b[0]);
    } else {
        lemma_joined_add(a, b.drop_last());
        assert(joined(a, " "@) + " "@ + (joined(b.drop_last(), " "@) + " "@ + b.last()) =~= joined(
            a,
            " "@,
        ) + " "@ + joined(b.drop_last(), " "@) + " "@ + b.last());
    }
}

/// A line of the file and the tokens it holds.
pub open spec fn reads_as(line: Seq<char>, toks: Seq<Lexeme>) -> bool {
    &&& one_line(line)
    &&& forall|read: Seq<Lexeme>| #[trigger]
        line_tokens(line, 0, read) == Ok::<Seq<Lexeme>, LexFault>(read + toks)
}

proof fn lemma_writable_add(a: Seq<Lexeme>, b: Seq<Lexeme>)
    requires
        all_writable(a),
        all_writable(b),
    ensures
        all_writable(a + b),
{
    assert forall|i: int| 0 <= i < (a + b).len() implies writable(#[trigger] (a + b)[i]) by {
        if i < a.len() {
            assert((a + b)[i] == a[i]);
        } else {
            assert((a + b)[i] == b[i - a.len()]);
        }
    }
}

proof fn lemma_rendered_all_one_line(toks: Seq<Lexeme>)
    requires
        all_writable(toks),
    ensures
        forall|i: int| 0 <= i < rendered_all(toks).len() ==> one_line(#[trigger] rendered_all(toks)[i]),
{
    assert forall|i: int| 0 <= i < rendered_all(toks).len() implies one_line(
        #[trigger] rendered_all(toks)[i],
    ) by {
        lemma_rendered_one_line(toks[i]);
    }
}

proof fn lemma_line(toks: Seq<Lexeme>)
    requires
        all_writable(toks),
    ensures
        reads_as(joined(rendered_all(toks), " "@), toks),
{
    let line = joined(rendered_all(toks), " "@);
    lemma_rendered_all_one_line(toks);
    lemma_joined_one_line(rendered_all(toks));
    assert(line =~= line + Seq::<char>::empty());
    assert forall|read: Seq<Lexeme>| #[trigger]
        line_tokens(line, 0, read) == Ok::<Seq<Lexeme>, LexFault>(read + toks) by {
        lemma_joined_line(line, toks, Seq::empty(), read);
    }
}

/// A line of some words, a blank and the rest, which may be empty.
proof fn lemma_headed_line(head: Seq<Lexeme>, rest: Seq<Lexeme>)
    requires
        all_writable(head),
        all_writable(rest),
        head.len() > 0,
    ensures
        reads_as(
            joined(rendered_all(head), " "@) + " "@ + joined(rendered_all(rest), " "@),
            head + rest,
        ),
{
    reveal_strlit(" ");
    let line = joined(rendered_all(head), " "@) + " "@ + joined(rendered_all(rest), " "@);
    lemma_writable_add(head, rest);
    assert(rendered_all(head + rest) =~= rendered_all(head) + rendered_all(rest));
    if rest.len() > 0 {
        lemma_joined_add(rendered_all(head), rendered_all(rest));
        lemma_line(head + rest);
    } else {
        assert(head + rest =~= head);
        assert(line =~= joined(rendered_all(head), " "@) + " "@);
        lemma_rendered_all_one_line(head);
        lemma_joined_one_line(rendered_all(head));
        assert(one_line(" "@));
        lemma_one_line_add(joined(rendered_all(head), " "@), " "@);
        assert forall|read: Seq<Lexeme>| #[trigger]
            line_tokens(line, 0, read) == Ok::<Seq<Lexeme>, LexFault>(read + head) by {
            lemma_joined_line(line, head, " "@, read);
        }
    }
}

/// The rows of tokens one after another.
pub open spec fn chained(rows: Seq<Seq<Lexeme>>) -> Seq<Lexeme>
    decreases rows.len(),
{
    if rows.len() == 0 {
        Seq::empty()
    } else {
        chained(rows.drop_last()) + rows.last()
    }
}

proof fn lemma_chained_push(rows: Seq<Seq<Lexeme>>, row: Seq<Lexeme>)
    ensures
        chained(rows.push(row)) == chained(rows) + row,
{
    assert(rows.push(row).drop_last() =~= rows);
}

proof fn lemma_chained_add(a: Seq<Seq<Lexeme>>, b: Seq<Seq<Lexeme>>)
    ensures
        chained(a + b) == chained(a) + chained(b),
    decreases b.len(),
{
    if b.len() == 0 {
        assert(a + b =~= a);
        assert(chained(a) + chained(b) =~= chained(a));
    } else {
        lemma_chained_add(a, b.drop_last());
        assert((a + b).drop_last() =~= a + b.drop_last());
        assert(chained(a) + (chained(b.drop_last()) + b.last()) =~= chained(a) + chained(
            b.drop_last(),
        ) + b.last());
    }
}

proof fn lemma_terminated_front(rows: Seq<Seq<char>>)
    requires
        rows.len() > 0,
    ensures
        terminated(rows) == rows[0] + seq!['\n'] + terminated(rows.skip(1)),
    decreases rows.len(),
{
    if rows.len() == 1 {
        assert(rows.drop_last() =~= Seq::<Seq<char>>::empty());
        assert(rows.skip(1) =~= Seq::<Seq<char>>::empty());
        assert(terminated(Seq::<Seq<char>>::empty()) == Seq::<char>::empty());
        assert(terminated(rows) =~= rows[0] + seq!['\n'] + Seq::<char>::empty());
    } else {
        lemma_terminated_front(rows.drop_last());
        assert(rows.drop_last().skip(1) =~= rows.skip(1).drop_last());
        let t = terminated(rows.skip(1).drop_last());
        assert(rows[0] + seq!['\n'] + t + rows.last() + seq!['\n'] =~= rows[0] + seq!['\n'] + (t
            + rows.last() + seq!['\n']));
    }
}

/// Lines that hold neither line feeds nor carriage returns come back from the
/// text they make up.
proof fn lemma_lines_back(rows: Seq<Seq<char>>)
    requires
        forall|k: int| 0 <= k < rows.len() ==> one_line(#[trigger] rows[k]),
    ensures
        lines(terminated(rows)) == rows,
    decreases rows.len(),
{
    let text = terminated(rows);
    if rows.len() == 0 {
        assert(lines(text) =~= rows);
    } else {
        lemma_terminated_front(rows);
        let row = rows[0];
        let rest = rows.skip(1);
        assert(one_line(row));
        assert forall|i: int| 0 <= i < row.len() implies #[trigger] text[i] != '\n' by {
            assert(text[i] == row[i]);
        }
        assert(text[row.len() as int] == '\n');
        lemma_run_is(text, '\n', row.len());
        assert(text.take(row.len() as int) =~= row);
        assert(text.skip(row.len() as int + 1) =~= terminated(rest));
        assert forall|k: int| 0 <= k < rest.len() implies one_line(#[trigger] rest[k]) by {
            assert(rest[k] == rows[k + 1]);
        }
        lemma_lines_back(rest);
        assert(without_return(row) == row);
        assert(seq![row] + rest =~= rows);
    }
}

/// Where the tokenizer stands after `k` lines.
proof fn lemma_all_tokens_upto(rows: Seq<Seq<char>>, toks: Seq<Seq<Lexeme>>, k: int)
    requires
        rows.len() == toks.len(),
        forall|i: int| 0 <= i < rows.len() ==> reads_as(#[trigger] rows[i], toks[i]),
        0 <= k <= rows.len(),
    ensures
        all_tokens(rows, k, chained(toks.take(k))) == all_tokens(rows, 0, Seq::empty()),
    decreases k,
{
    if k == 0 {
        assert(chained(toks.take(0)) =~= Seq::<Lexeme>::empty());
    } else {
        lemma_all_tokens_upto(rows, toks, k - 1);
        assert(reads_as(rows[k - 1], toks[k - 1]));
        let read = chained(toks.take(k - 1));
        assert(line_tokens(rows[k - 1], 0, read) == Ok::<Seq<Lexeme>, LexFault>(
            read + toks[k - 1],
        ));
        assert(toks.take(k).drop_last() =~= toks.take(k - 1));
        assert(toks.take(k).last() == toks[k - 1]);
    }
}

proof fn lemma_tokens_back(rows: Seq<Seq<char>>, toks: Seq<Seq<Lexeme>>)
    requires
        rows.len() == toks.len(),
        forall|i: int| 0 <= i < rows.len() ==> reads_as(#[trigger] rows[i], toks[i]),
    ensures
        tokens_of(terminated(rows)) == Ok::<Seq<Lexeme>, (int, LexFault)>(chained(toks)),
{
    assert forall|k: int| 0 <= k < rows.len() implies one_line(#[trigger] rows[k]) by {
        assert(reads_as(rows[k], toks[k]));
    }
    lemma_lines_back(rows);
    lemma_all_tokens_upto(rows, toks, rows.len() as int);
    assert(toks.take(rows.len() as int) =~= toks);
}

/// A word of letters and digits only, as the directives and numbers are.
proof fn lemma_digits_plain(n: nat)
    ensures
        plain(decimal(n)),
{
    lemma_decimal(n);
    let d = decimal(n);
    assert(is_digit(d[0]));
    assert forall|i: int| 0 <= i < d.len() implies !ends_bare(#[trigger] d[i]) by {
        assert(is_digit(d[i]));
    }
}

proof fn lemma_type_word(spec: FeatureSpec)
    ensures
        plain(type_word(spec)),
        feature_type(type_word(spec)) == Ok::<FeatureSpec, TypeFault>(spec),
{
    reveal_strlit("C");
    reveal_strlit("c");
    reveal_strlit("K:");
    reveal_strlit("k:");
    reveal_strlit("continuous");
    let w = type_word(spec);
    match spec {
        FeatureSpec::Continuous => {
            assert(lowered(w) =~= "c"@);
        },
        FeatureSpec::Categorical { cardinality } => {
            let d = decimal(cardinality as nat);
            lemma_decimal(cardinality as nat);
            law_decimal_reads_back(cardinality as nat, usize::MAX as nat);
            let l = lowered(w);
            assert forall|i: int| 0 <= i < w.len() implies !ends_bare(#[trigger] w[i]) by {
                if i >= 2 {
                    assert(w[i] == d[i - 2]);
                    assert(is_digit(d[i - 2]));
                }
            }
            assert(l.take(2) =~= "k:"@);
            assert(l.skip(2) =~= d) by {
                assert forall|i: int| 0 <= i < d.len() implies l.skip(2)[i] == d[i] by {
                    assert(is_digit(d[i]));
                    assert(w[i + 2] == d[i]);
                }
            }
            assert(l[0] == 'k');
            assert(l[1] == ':');
            assert("continuous"@[0] == 'c');
            assert("c"@[0] == 'c');
        },
    }
}

pub open spec fn type_tokens(specs: Seq<FeatureSpec>) -> Seq<Lexeme> {
    specs.map_values(|s: FeatureSpec| Lexeme::Bare(type_word(s)))
}

pub open spec fn quoted_tokens(list: Seq<Seq<char>>) -> Seq<Lexeme> {
    list.map_values(|s: Seq<char>| Lexeme::Quoted(s))
}

pub open spec fn unit_token(unit: Option<Seq<char>>) -> Lexeme {
    match unit {
        Some(u) => Lexeme::Quoted(u),
        None => Lexeme::Bare("-"@),
    }
}

pub open spec fn unit_tokens(columns: Seq<ColumnView>) -> Seq<Lexeme> {
    columns.map_values(|c: ColumnView| unit_token(c.unit))
}

pub open spec fn bare(word: Seq<char>) -> Lexeme {
    Lexeme::Bare(word)
}

pub open spec fn names_of(columns: Seq<ColumnView>) -> Seq<Seq<char>> {
    columns.map_values(|c: ColumnView| c.name)
}

pub open spec fn unit_rows(columns: Seq<ColumnView>) -> Seq<Seq<Lexeme>> {
    if has_units(columns) {
        seq![seq![bare("units"@)] + unit_tokens(columns)]
    } else {
        Seq::empty()
    }
}

pub open spec fn level_row(i: nat, levels: Seq<Seq<char>>) -> Seq<Lexeme> {
    seq![bare("levels"@), bare(decimal(i))] + quoted_tokens(levels)
}

pub open spec fn level_rows(inputs: Seq<ColumnView>, n: nat) -> Seq<Seq<Lexeme>>
    decreases n,
{
    if n == 0 {
        Seq::empty()
    } else {
        match inputs[n - 1].levels {
            Some(levels) => level_rows(inputs, (n - 1) as nat).push(
                level_row((n - 1) as nat, levels),
            ),
            None => level_rows(inputs, (n - 1) as nat),
        }
    }
}

pub open spec fn value_row(row: Seq<Seq<char>>) -> Seq<Lexeme> {
    row.map_values(|s: Seq<char>| Lexeme::Bare(s))
}

pub open spec fn head_rows(schema: SchemaView) -> Seq<Seq<Lexeme>> {
    seq![
        seq![bare("TRNUM2"@)],
        seq![bare("inputs"@), bare(decimal(schema.inputs.len()))],
        seq![bare("outputs"@), bare(decimal(schema.outputs.len()))],
        seq![bare("specs"@)] + type_tokens(schema.specs()),
        seq![bare("names"@)] + quoted_tokens(names_of(schema.columns())),
    ]
}

pub open spec fn tail_rows(n: nat) -> Seq<Seq<Lexeme>> {
    seq![seq![bare("rows"@), bare(decimal(n))], seq![bare("data"@)]]
}

/// The tokens of each line of a file.
pub open spec fn file_rows(schema: SchemaView, shown: Seq<Seq<Seq<char>>>) -> Seq<Seq<Lexeme>> {
    head_rows(schema) + unit_rows(schema.columns()) + level_rows(
        schema.inputs,
        schema.inputs.len(),
    ) + tail_rows(shown.len()) + shown.map_values(|row: Seq<Seq<char>>| value_row(row))
}

proof fn lemma_words()
    ensures
        plain("TRNUM2"@),
        plain("inputs"@),
        plain("outputs"@),
        plain("specs"@),
        plain("names"@),
        plain("units"@),
        plain("levels"@),
        plain("rows"@),
        plain("data"@),
        plain("-"@),
        "inputs "@ == "inputs"@ + " "@,
        "outputs "@ == "outputs"@ + " "@,
        "specs "@ == "specs"@ + " "@,
        "names "@ == "names"@ + " "@,
        "units "@ == "units"@ + " "@,
        "levels "@ == "levels"@ + " "@,
        "rows "@ == "rows"@ + " "@,
        "units"@ != "levels"@,
        "rows"@ != "levels"@,
        "rows"@ != "units"@,
        "TRNUM1"@ != "TRNUM2"@,
{
    reveal_strlit(" ");
    reveal_strlit("-");
    reveal_strlit("TRNUM1");
    reveal_strlit("TRNUM2");
    reveal_strlit("inputs");
    reveal_strlit("outputs");
    reveal_strlit("specs");
    reveal_strlit("names");
    reveal_strlit("units");
    reveal_strlit("levels");
    reveal_strlit("rows");
    reveal_strlit("data");
    reveal_strlit("inputs ");
    reveal_strlit("outputs ");
    reveal_strlit("specs ");
    reveal_strlit("names ");
    reveal_strlit("units ");
    reveal_strlit("levels ");
    reveal_strlit("rows ");
    assert("inputs "@ =~= "inputs"@ + " "@);
    assert("outputs "@ =~= "outputs"@ + " "@);
    assert("specs "@ =~= "specs"@ + " "@);
    assert("names "@ =~= "names"@ + " "@);
    assert("units "@ =~= "units"@ + " "@);
    assert("levels "@ =~= "levels"@ + " "@);
    assert("rows "@ =~= "rows"@ + " "@);
    assert("units"@[0] == 'u' && "levels"@[0] == 'l' && "rows"@[0] == 'r');
    assert("TRNUM1"@[5] == '1' && "TRNUM2"@[5] == '2');
}

/// A word and a list of further tokens on one line.
proof fn lemma_word_line(word: Seq<char>, rest: Seq<Lexeme>)
    requires
        plain(word),
        all_writable(rest),
    ensures
        reads_as(word + " "@ + joined(rendered_all(rest), " "@), seq![bare(word)] + rest),
{
    let head = seq![bare(word)];
    assert(rendered_all(head) =~= seq![word]);
    assert(joined(seq![word], " "@) == word);
    lemma_headed_line(head, rest);
}

proof fn lemma_single_line(word: Seq<char>)
    requires
        plain(word),
    ensures
        reads_as(word, seq![bare(word)]),
{
    let head = seq![bare(word)];
    assert(rendered_all(head) =~= seq![word]);
    assert(joined(seq![word], " "@) == word);
    lemma_line(head);
}

proof fn lemma_number_line(word: Seq<char>, n: nat)
    requires
        plain(word),
    ensures
        reads_as(word + " "@ + decimal(n), seq![bare(word), bare(decimal(n))]),
{
    lemma_digits_plain(n);
    let rest = seq![bare(decimal(n))];
    assert(rendered_all(rest) =~= seq![decimal(n)]);
    assert(joined(seq![decimal(n)], " "@) == decimal(n));
    lemma_word_line(word, rest);
    assert(seq![bare(word)] + rest =~= seq![bare(word), bare(decimal(n))]);
}

proof fn lemma_level_lines(inputs: Seq<ColumnView>, n: nat)
    requires
        n <= inputs.len(),
    ensures
        level_lines(inputs, n).len() == level_rows(inputs, n).len(),
        forall|i: int|
            0 <= i < level_lines(inputs, n).len() ==> reads_as(
                #[trigger] level_lines(inputs, n)[i],
                level_rows(inputs, n)[i],
            ),
    decreases n,
{
    if n > 0 {
        let m = (n - 1) as nat;
        lemma_level_lines(inputs, m);
        match inputs[n - 1].levels {
            Some(levels) => {
                lemma_words();
                lemma_digits_plain(m);
                let head = seq![bare("levels"@), bare(decimal(m))];
                let rest = quoted_tokens(levels);
                let parts = seq!["levels"@, decimal(m)];
                assert(rendered_all(head) =~= parts);
                assert(parts.drop_last() =~= seq!["levels"@]);
                assert(joined(seq!["levels"@], " "@) == "levels"@);
                assert(joined(parts, " "@) == "levels"@ + " "@ + decimal(m));
                assert(rendered_all(rest) =~= quoted_all(levels));
                lemma_headed_line(head, rest);
                assert(level_line(m, levels) == joined(rendered_all(head), " "@) + " "@ + joined(
                    rendered_all(rest),
                    " "@,
                ));
                assert forall|i: int| 0 <= i < level_lines(inputs, n).len() implies reads_as(
                    #[trigger] level_lines(inputs, n)[i],
                    level_rows(inputs, n)[i],
                ) by {
                    if i < level_lines(inputs, m).len() {
                        assert(level_lines(inputs, n)[i] == level_lines(inputs, m)[i]);
                        assert(level_rows(inputs, n)[i] == level_rows(inputs, m)[i]);
                    }
                }
            },
            None => {},
        }
    }
}

/// Every printed value can stand without quotes.
pub open spec fn plain_rows(shown: Seq<Seq<Seq<char>>>) -> bool {
    forall|r: int, c: int|
        0 <= r < shown.len() && 0 <= c < shown[r].len() ==> plain(#[trigger] shown[r][c])
}

proof fn lemma_head_lines(schema: SchemaView)
    ensures
        ({
            let rows = head_rows(schema);
            &&& reads_as("TRNUM2"@, rows[0])
            &&& reads_as("inputs "@ + decimal(schema.inputs.len()), rows[1])
            &&& reads_as("outputs "@ + decimal(schema.outputs.len()), rows[2])
            &&& reads_as(
                "specs "@ + joined(schema.specs().map_values(|s: FeatureSpec| type_word(s)), " "@),
                rows[3],
            )
            &&& reads_as(
                "names "@ + joined(
                    quoted_all(schema.columns().map_values(|c: ColumnView| c.name)),
                    " "@,
                ),
                rows[4],
            )
        }),
{
    lemma_words();
    lemma_single_line("TRNUM2"@);
    lemma_number_line("inputs"@, schema.inputs.len());
    lemma_number_line("outputs"@, schema.outputs.len());
    let types = type_tokens(schema.specs());
    assert forall|i: int| 0 <= i < types.len() implies writable(#[trigger] types[i]) by {
        lemma_type_word(schema.specs()[i]);
    }
    assert(rendered_all(types) =~= schema.specs().map_values(|s: FeatureSpec| type_word(s)));
    lemma_word_line("specs"@, types);
    let names = quoted_tokens(names_of(schema.columns()));
    assert(rendered_all(names) =~= quoted_all(
        schema.columns().map_values(|c: ColumnView| c.name),
    ));
    lemma_word_line("names"@, names);
}

proof fn lemma_unit_lines(columns: Seq<ColumnView>)
    ensures
        unit_lines(columns).len() == unit_rows(columns).len(),
        forall|i: int|
            0 <= i < unit_lines(columns).len() ==> reads_as(
                #[trigger] unit_lines(columns)[i],
                unit_rows(columns)[i],
            ),
{
    if has_units(columns) {
        lemma_words();
        let units = unit_tokens(columns);
        assert(all_writable(units));
        assert(rendered_all(units) =~= columns.map_values(|c: ColumnView| unit_word(c.unit)));
        lemma_word_line("units"@, units);
    }
}

proof fn lemma_file_lines(schema: SchemaView, shown: Seq<Seq<Seq<char>>>)
    requires
        plain_rows(shown),
    ensures
        file_lines(schema, shown).len() == file_rows(schema, shown).len(),
        forall|i: int|
            0 <= i < file_lines(schema, shown).len() ==> reads_as(
                #[trigger] file_lines(schema, shown)[i],
                file_rows(schema, shown)[i],
            ),
{
    let n = schema.inputs.len();
    lemma_head_lines(schema);
    lemma_unit_lines(schema.columns());
    lemma_level_lines(schema.inputs, n);
    lemma_words();
    lemma_number_line("rows"@, shown.len());
    lemma_single_line("data"@);
    let values = shown.map_values(|row: Seq<Seq<char>>| joined(row, " "@));
    let value_toks = shown.map_values(|row: Seq<Seq<char>>| value_row(row));
    assert forall|r: int| 0 <= r < shown.len() implies reads_as(#[trigger] values[r], value_toks[r]) by {
        let toks = value_row(shown[r]);
        assert forall|c: int| 0 <= c < toks.len() implies writable(#[trigger] toks[c]) by {
            assert(plain(shown[r][c]));
        }
        assert(rendered_all(toks) =~= shown[r]);
        lemma_line(toks);
    }
    let u = unit_lines(schema.columns()).len() as int;
    let l = level_lines(schema.inputs, n).len() as int;
    let ls = file_lines(schema, shown);
    let rs = file_rows(schema, shown);
    assert forall|i: int| 0 <= i < ls.len() implies reads_as(#[trigger] ls[i], rs[i]) by {
        if i < 5 {
            assert(rs[i] == head_rows(schema)[i]);
        } else if i < 5 + u {
            assert(ls[i] == unit_lines(schema.columns())[i - 5]);
            assert(rs[i] == unit_rows(schema.columns())[i - 5]);
        } else if i < 5 + u + l {
            assert(ls[i] == level_lines(schema.inputs, n)[i - 5 - u]);
            assert(rs[i] == level_rows(schema.inputs, n)[i - 5 - u]);
        } else if i < 7 + u + l {
            assert(rs[i] == tail_rows(shown.len())[i - 5 - u - l]);
        } else {
            assert(ls[i] == values[i - 7 - u - l]);
            assert(rs[i] == value_toks[i - 7 - u - l]);
        }
    }
}

/// The tokens `part` stand at position `i`.
pub open spec fn holds(toks: Seq<Lexeme>, i: int, part: Seq<Lexeme>) -> bool {
    &&& 0 <= i
    &&& i + part.len() <= toks.len()
    &&& forall|k: int| 0 <= k < part.len() ==> toks[i + k] == #[trigger] part[k]
}

proof fn lemma_types_back(toks: Seq<Lexeme>, i: int, specs: Seq<FeatureSpec>, m: int)
    requires
        holds(toks, i, type_tokens(specs)),
        0 <= m <= specs.len(),
    ensures
        types_from(toks, i + m, specs.take(m), specs.len()) == Ok::<
            (Seq<FeatureSpec>, int),
            TnumError,
        >((specs, i + specs.len())),
    decreases specs.len() - m,
{
    if m == specs.len() {
        assert(specs.take(m) =~= specs);
    } else {
        lemma_types_back(toks, i, specs, m + 1);
        lemma_type_word(specs[m]);
        assert(toks[i + m] == type_tokens(specs)[m]);
        assert(specs.take(m).push(specs[m]) =~= specs.take(m + 1));
    }
}

proof fn lemma_names_back(toks: Seq<Lexeme>, i: int, names: Seq<Seq<char>>, m: int)
    requires
        holds(toks, i, quoted_tokens(names)),
        0 <= m <= names.len(),
    ensures
        names_from(toks, i + m, names.take(m), names.len()) == Ok::<
            (Seq<Seq<char>>, int),
            TnumError,
        >((names, i + names.len())),
    decreases names.len() - m,
{
    if m == names.len() {
        assert(names.take(m) =~= names);
    } else {
        lemma_names_back(toks, i, names, m + 1);
        assert(toks[i + m] == quoted_tokens(names)[m]);
        assert(names.take(m).push(names[m]) =~= names.take(m + 1));
    }
}

proof fn lemma_labels_back(
    toks: Seq<Lexeme>,
    i: int,
    labels: Seq<Seq<char>>,
    m: int,
    input: usize,
)
    requires
        holds(toks, i, quoted_tokens(labels)),
        0 <= m <= labels.len(),
    ensures
        labels_from(toks, i + m, labels.take(m), labels.len(), input) == Ok::<
            (Seq<Seq<char>>, int),
            TnumError,
        >((labels, i + labels.len())),
    decreases labels.len() - m,
{
    if m == labels.len() {
        assert(labels.take(m) =~= labels);
    } else {
        lemma_labels_back(toks, i, labels, m + 1, input);
        assert(toks[i + m] == quoted_tokens(labels)[m]);
        assert(labels.take(m).push(labels[m]) =~= labels.take(m + 1));
    }
}

pub open spec fn units_of(columns: Seq<ColumnView>) -> Seq<Option<Seq<char>>> {
    columns.map_values(|c: ColumnView| c.unit)
}

/// No unit is blank.
pub open spec fn sound_units(columns: Seq<ColumnView>) -> bool {
    forall|i: int|
        0 <= i < columns.len() ==> ((#[trigger] columns[i]).unit matches Some(u) ==> !blank(u))
}

proof fn lemma_units_back(toks: Seq<Lexeme>, i: int, columns: Seq<ColumnView>, m: int)
    requires
        holds(toks, i, unit_tokens(columns)),
        sound_units(columns),
        0 <= m <= columns.len(),
    ensures
        units_from(toks, i + m, units_of(columns).take(m), columns.len()) == Ok::<
            (Seq<Option<Seq<char>>>, int),
            TnumError,
        >((units_of(columns), i + columns.len())),
    decreases columns.len() - m,
{
    if m == columns.len() {
        assert(units_of(columns).take(m) =~= units_of(columns));
    } else {
        lemma_units_back(toks, i, columns, m + 1);
        assert(toks[i + m] == unit_tokens(columns)[m]);
        assert(columns[m].unit == units_of(columns)[m]);
        assert(unit_at(toks, i + m) == Ok::<Option<Seq<char>>, TnumError>(columns[m].unit));
        assert(units_of(columns).take(m).push(columns[m].unit) =~= units_of(columns).take(m + 1));
    }
}

/// The labels of the first `k` inputs.
pub open spec fn labels_upto(inputs: Seq<ColumnView>, k: int) -> Seq<Option<Seq<Seq<char>>>> {
    Seq::new(
        inputs.len(),
        |i: int|
            if i < k {
                inputs[i].levels
            } else {
                None
            },
    )
}

pub open spec fn level_tokens(inputs: Seq<ColumnView>, k: nat) -> Seq<Lexeme> {
    chained(level_rows(inputs, k))
}

proof fn lemma_level_tokens_grow(inputs: Seq<ColumnView>, k: nat, n: nat)
    requires
        k <= n <= inputs.len(),
    ensures
        level_tokens(inputs, k).len() <= level_tokens(inputs, n).len(),
        forall|i: int|
            0 <= i < level_tokens(inputs, k).len() ==> level_tokens(inputs, k)[i] == #[trigger] level_tokens(
                inputs,
                n,
            )[i],
    decreases n - k,
{
    if k < n {
        lemma_level_tokens_grow(inputs, k, (n - 1) as nat);
        match inputs[n - 1].levels {
            Some(levels) => {
                lemma_chained_push(
                    level_rows(inputs, (n - 1) as nat),
                    level_row((n - 1) as nat, levels),
                );
                assert forall|i: int| 0 <= i < level_tokens(inputs, k).len() implies level_tokens(
                    inputs,
                    k,
                )[i] == #[trigger] level_tokens(inputs, n)[i] by {
                    assert(level_tokens(inputs, (n - 1) as nat)[i] == level_tokens(inputs, n)[i]);
                }
            },
            None => {},
        }
    }
}

/// The level sections from input `k` on complete the labels.
proof fn lemma_sections_back(toks: Seq<Lexeme>, i: int, inputs: Seq<ColumnView>, specs: Seq<FeatureSpec>, k: nat)
    requires
        holds(toks, i, level_tokens(inputs, inputs.len())),
        i + level_tokens(inputs, inputs.len()).len() < toks.len(),
        toks[i + level_tokens(inputs, inputs.len()).len()] == bare("rows"@),
        k <= inputs.len() <= usize::MAX,
        specs == inputs.map_values(|c: ColumnView| c.spec_of()),
        forall|q: int|
            0 <= q < inputs.len() ==> ((#[trigger] inputs[q]).levels matches Some(l) ==> l.len()
                <= usize::MAX),
    ensures
        sections_from(
            toks,
            i + level_tokens(inputs, k).len(),
            specs,
            labels_upto(inputs, k as int),
        ) == Ok::<(Seq<Option<Seq<Seq<char>>>>, int), TnumError>(
            (
                labels_upto(inputs, inputs.len() as int),
                i + level_tokens(inputs, inputs.len()).len(),
            ),
        ),
    decreases inputs.len() - k,
{
    let n = inputs.len();
    lemma_words();
    lemma_level_tokens_grow(inputs, k, n);
    if k < n {
        lemma_sections_back(toks, i, inputs, specs, k + 1);
        lemma_level_tokens_grow(inputs, k + 1, n);
        assert(inputs[k as int].spec_of() == specs[k as int]);
        let p = i + level_tokens(inputs, k).len();
        match inputs[k as int].levels {
            None => {
                assert(labels_upto(inputs, k as int) =~= labels_upto(inputs, k as int + 1));
            },
            Some(levels) => {
                let row = level_row(k, levels);
                lemma_chained_push(level_rows(inputs, k), row);
                assert(level_tokens(inputs, k + 1) == level_tokens(inputs, k) + row);
                assert forall|j: int| 0 <= j < row.len() implies toks[p + j] == #[trigger] row[j] by {
                    let at = level_tokens(inputs, k).len() + j;
                    assert(level_tokens(inputs, k + 1)[at] == row[j]);
                    assert(level_tokens(inputs, k + 1)[at] == level_tokens(inputs, n)[at]);
                    assert(toks[i + at] == level_tokens(inputs, n)[at]);
                }
                assert(toks[p + 0] == row[0]);
                assert(toks[p + 1] == row[1]);
                law_decimal_reads_back(k, usize::MAX as nat);
                assert(number(toks, p + 1, What::LevelsIndex) == Ok::<(nat, int), TnumError>(
                    (k, p + 2),
                ));
                assert(holds(toks, p + 2, quoted_tokens(levels))) by {
                    assert forall|j: int| 0 <= j < levels.len() implies toks[p + 2 + j]
                        == #[trigger] quoted_tokens(levels)[j] by {
                        assert(toks[p + (j + 2)] == row[j + 2]);
                    }
                }
                lemma_labels_back(toks, p + 2, levels, 0, k as usize);
                assert(levels.take(0) =~= Seq::<Seq<char>>::empty());
                assert(labels_upto(inputs, k as int)[k as int] is None);
                assert(labels_upto(inputs, k as int).update(k as int, Some(levels))
                    =~= labels_upto(inputs, k as int + 1));
                assert(specs[k as int] == FeatureSpec::Categorical {
                    cardinality: levels.len() as usize,
                });
                assert(i + level_tokens(inputs, k + 1).len() == p + 2 + levels.len());
            },
        }
    }
}

/// A schema that the format can carry: the inputs and outputs have their
/// roles, outputs are numeric, units are not blank, and all sizes fit.
pub open spec fn storable(schema: SchemaView) -> bool {
    &&& schema.columns().len() <= usize::MAX
    &&& sound_units(schema.columns())
    &&& forall|i: int|
        0 <= i < schema.inputs.len() ==> (#[trigger] schema.inputs[i]).role == ColumnRole::Input
            && (schema.inputs[i].levels matches Some(l) ==> l.len() <= usize::MAX)
    &&& forall|j: int|
        0 <= j < schema.outputs.len() ==> (#[trigger] schema.outputs[j]).role
            == ColumnRole::Output && schema.outputs[j].levels is None
}

/// The header that a schema is written as.
pub open spec fn header_back(schema: SchemaView, toks: Seq<Lexeme>, at: int) -> HeaderView {
    HeaderView {
        specs: schema.specs(),
        n_outputs: schema.outputs.len(),
        named: true,
        names: names_of(schema.columns()),
        units: units_of(schema.columns()),
        labels: labels_upto(schema.inputs, schema.inputs.len() as int),
        tokens: toks,
        at,
    }
}

proof fn lemma_no_input_fault(h: HeaderView, inputs: Seq<ColumnView>, rulings: SchemaRulings, i: int)
    requires
        h.specs == inputs.map_values(|c: ColumnView| c.spec_of()),
        h.labels == labels_upto(inputs, inputs.len() as int),
        rulings.accept_all(),
        0 <= i,
    ensures
        input_fault(h, rulings, i) is None,
    decreases h.specs.len() - i,
{
    if i < h.specs.len() {
        assert(h.specs[i] == inputs[i].spec_of());
        lemma_no_input_fault(h, inputs, rulings, i + 1);
    }
}

proof fn lemma_no_output_fault(h: HeaderView, rulings: SchemaRulings, j: int)
    requires
        rulings.accept_all(),
        0 <= j,
    ensures
        output_fault(h, rulings, j) is None,
    decreases h.n_outputs - j,
{
    if j < h.n_outputs {
        lemma_no_output_fault(h, rulings, j + 1);
    }
}

proof fn lemma_assembled_back(schema: SchemaView)
    requires
        storable(schema),
    ensures
        assembled(
            schema.specs(),
            schema.outputs.len(),
            names_of(schema.columns()),
            units_of(schema.columns()),
            labels_upto(schema.inputs, schema.inputs.len() as int),
        ) == schema,
{
    let specs = schema.specs();
    let n = schema.inputs.len();
    let got = assembled(
        specs,
        schema.outputs.len(),
        names_of(schema.columns()),
        units_of(schema.columns()),
        labels_upto(schema.inputs, n as int),
    );
    assert forall|i: int| 0 <= i < n implies got.inputs[i] == schema.inputs[i] by {
        assert(schema.columns()[i] == schema.inputs[i]);
        assert(specs[i] == schema.inputs[i].spec_of());
        assert(schema.inputs[i].role == ColumnRole::Input);
    }
    assert forall|j: int| 0 <= j < schema.outputs.len() implies got.outputs[j]
        == schema.outputs[j] by {
        assert(schema.columns()[n + j] == schema.outputs[j]);
        assert(schema.outputs[j].role == ColumnRole::Output);
    }
    assert(got.inputs =~= schema.inputs);
    assert(got.outputs =~= schema.outputs);
}

/// The header tokens of a file, in one list.
pub open spec fn head_tokens(schema: SchemaView) -> Seq<Lexeme> {
    seq![
        bare("TRNUM2"@),
        bare("inputs"@),
        bare(decimal(schema.inputs.len())),
        bare("outputs"@),
        bare(decimal(schema.outputs.len())),
        bare("specs"@),
    ] + type_tokens(schema.specs()) + seq![bare("names"@)] + quoted_tokens(
        names_of(schema.columns()),
    )
}

pub open spec fn units_part(columns: Seq<ColumnView>) -> Seq<Lexeme> {
    if has_units(columns) {
        seq![bare("units"@)] + unit_tokens(columns)
    } else {
        Seq::empty()
    }
}

proof fn lemma_chained_file(schema: SchemaView, shown: Seq<Seq<Seq<char>>>)
    ensures
        chained(file_rows(schema, shown)) == head_tokens(schema) + units_part(schema.columns())
            + level_tokens(schema.inputs, schema.inputs.len()) + seq![
            bare("rows"@),
            bare(decimal(shown.len())),
            bare("data"@),
        ] + chained(shown.map_values(|row: Seq<Seq<char>>| value_row(row))),
{
    let head = head_rows(schema);
    let units = unit_rows(schema.columns());
    let levels = level_rows(schema.inputs, schema.inputs.len());
    let tail = tail_rows(shown.len());
    let values = shown.map_values(|row: Seq<Seq<char>>| value_row(row));
    lemma_chained_add(head + units + levels + tail, values);
    lemma_chained_add(head + units + levels, tail);
    lemma_chained_add(head + units, levels);
    lemma_chained_add(head, units);
    let none = Seq::<Seq<Lexeme>>::empty();
    assert(chained(none) == Seq::<Lexeme>::empty());
    // the five header rows
    let a = seq![head[0]];
    let b = a.push(head[1]);
    let c = b.push(head[2]);
    let d = c.push(head[3]);
    lemma_chained_push(none, head[0]);
    assert(none.push(head[0]) =~= a);
    lemma_chained_push(a, head[1]);
    lemma_chained_push(b, head[2]);
    lemma_chained_push(c, head[3]);
    lemma_chained_push(d, head[4]);
    assert(d.push(head[4]) =~= head);
    assert(chained(head) =~= head_tokens(schema));
    // the units row
    if has_units(schema.columns()) {
        lemma_chained_push(none, units[0]);
        assert(none.push(units[0]) =~= units);
    }
    assert(chained(units) =~= units_part(schema.columns()));
    // the rows in front of the values
    lemma_chained_push(none, tail[0]);
    assert(none.push(tail[0]) =~= seq![tail[0]]);
    lemma_chained_push(seq![tail[0]], tail[1]);
    assert(seq![tail[0]].push(tail[1]) =~= tail);
    assert(chained(tail) =~= seq![bare("rows"@), bare(decimal(shown.len())), bare("data"@)]);
}

/// Rows of equal length keep their places in the list that they make up.
proof fn lemma_chained_values(rows: Seq<Seq<Lexeme>>, columns: nat)
    requires
        forall|r: int| 0 <= r < rows.len() ==> (#[trigger] rows[r]).len() == columns,
    ensures
        chained(rows).len() == rows.len() * columns,
        forall|r: int, c: int|
            0 <= r < rows.len() && 0 <= c < columns ==> chained(rows)[r * columns + c]
                == #[trigger] rows[r][c],
    decreases rows.len(),
{
    if rows.len() == 0 {
        assert(rows.len() * columns == 0) by (nonlinear_arith)
            requires
                rows.len() == 0,
        ;
    } else {
        let front = rows.drop_last();
        let n = rows.len();
        assert forall|r: int| 0 <= r < front.len() implies (#[trigger] front[r]).len() == columns by {
            assert(front[r] == rows[r]);
        }
        lemma_chained_values(front, columns);
        assert(n * columns == (n - 1) * columns + columns) by (nonlinear_arith);
        assert(rows[n - 1].len() == columns);
        assert forall|r: int, c: int| 0 <= r < rows.len() && 0 <= c < columns implies chained(
            rows,
        )[r * columns + c] == #[trigger] rows[r][c] by {
            if r < n - 1 {
                assert(front[r][c] == rows[r][c]);
                assert(0 <= r * columns + c < (n - 1) * columns) by (nonlinear_arith)
                    requires
                        0 <= r < n - 1,
                        0 <= c < columns,
                ;
            }
        }
    }
}

proof fn lemma_parts(
    a: Seq<Lexeme>,
    b: Seq<Lexeme>,
    c: Seq<Lexeme>,
    d: Seq<Lexeme>,
    e: Seq<Lexeme>,
)
    ensures
        ({
            let toks = a + b + c + d + e;
            let i = a.len() as int;
            &&& holds(toks, 0, a)
            &&& holds(toks, i, b)
            &&& holds(toks, i + b.len(), c)
            &&& holds(toks, i + b.len() + c.len(), d)
            &&& toks.len() == i + b.len() + c.len() + d.len() + e.len()
            &&& toks.skip(toks.len() - e.len()) == e
        }),
{
    let toks = a + b + c + d + e;
    assert(toks.skip(toks.len() - e.len()) =~= e);
}

proof fn lemma_preamble_back(toks: Seq<Lexeme>, schema: SchemaView)
    requires
        holds(toks, 0, head_tokens(schema)),
        schema.columns().len() <= usize::MAX,
    ensures
        preamble(toks) == Ok::<(bool, nat, Seq<FeatureSpec>, int), TnumError>(
            (true, schema.outputs.len(), schema.specs(), 6 + schema.inputs.len() as int),
        ),
        holds(toks, 6 + schema.inputs.len() as int, seq![bare("names"@)]),
        holds(
            toks,
            7 + schema.inputs.len() as int,
            quoted_tokens(names_of(schema.columns())),
        ),
{
    let head = head_tokens(schema);
    let specs = schema.specs();
    let n = schema.inputs.len();
    let m = schema.outputs.len();
    lemma_words();
    law_decimal_reads_back(n, usize::MAX as nat);
    law_decimal_reads_back(m, usize::MAX as nat);
    assert(holds(toks, 6, type_tokens(specs))) by {
        assert forall|k: int| 0 <= k < specs.len() implies toks[6 + k] == #[trigger] type_tokens(
            specs,
        )[k] by {
            assert(toks[0 + (6 + k)] == head[6 + k]);
        }
    }
    lemma_types_back(toks, 6, specs, 0);
    assert(specs.take(0) =~= Seq::<FeatureSpec>::empty());
    assert(toks[0int + 0] == head[0]);
    assert(toks[0int + 1] == head[1]);
    assert(toks[0int + 2] == head[2]);
    assert(toks[0int + 3] == head[3]);
    assert(toks[0int + 4] == head[4]);
    assert(toks[0int + 5] == head[5]);
    let names = quoted_tokens(names_of(schema.columns()));
    assert(toks[0int + (6 + n)] == head[6 + n as int]);
    assert forall|k: int| 0 <= k < names.len() implies toks[7 + n + k] == #[trigger] names[k] by {
        assert(toks[0 + (7 + n + k)] == head[7 + n + k]);
    }
}

/// The units line, or its absence, is read back.
proof fn lemma_units_line_back(toks: Seq<Lexeme>, i: int, columns: Seq<ColumnView>)
    requires
        holds(toks, i, units_part(columns)),
        sound_units(columns),
        !has_units(columns) ==> i < toks.len() && toks[i] != bare("units"@),
    ensures
        units_line(toks, i, columns.len()) == Ok::<(Seq<Option<Seq<char>>>, int), TnumError>(
            (units_of(columns), i + units_part(columns).len()),
        ),
{
    let units = units_part(columns);
    if has_units(columns) {
        assert(toks[i + 0] == units[0]);
        assert(holds(toks, i + 1, unit_tokens(columns))) by {
            assert forall|k: int| 0 <= k < columns.len() implies toks[i + 1 + k]
                == #[trigger] unit_tokens(columns)[k] by {
                assert(toks[i + (k + 1)] == units[k + 1]);
            }
        }
        lemma_units_back(toks, i + 1, columns, 0);
        assert(units_of(columns).take(0) =~= Seq::<Option<Seq<char>>>::empty());
    } else {
        assert(units_of(columns) =~= no_units(columns.len())) by {
            assert forall|k: int| 0 <= k < columns.len() implies units_of(columns)[k]
                == None::<Seq<char>> by {
                assert(columns[k].unit is None);
            }
        }
    }
}

proof fn lemma_named_back(toks: Seq<Lexeme>, schema: SchemaView)
    requires
        storable(schema),
        holds(toks, 6 + schema.inputs.len() as int, seq![bare("names"@)]),
        holds(
            toks,
            7 + schema.inputs.len() as int,
            quoted_tokens(names_of(schema.columns())),
        ),
        ({
            let i = 7 + schema.inputs.len() as int + schema.columns().len();
            let levels = level_tokens(schema.inputs, schema.inputs.len());
            let j = i + units_part(schema.columns()).len();
            &&& holds(toks, i, units_part(schema.columns()))
            &&& holds(toks, j, levels)
            &&& j + levels.len() < toks.len()
            &&& toks[j + levels.len()] == bare("rows"@)
        }),
    ensures
        named_fields(toks, 6 + schema.inputs.len() as int, schema.specs(), schema.outputs.len())
            == Ok::<
            (Seq<Seq<char>>, Seq<Option<Seq<char>>>, Seq<Option<Seq<Seq<char>>>>, int),
            TnumError,
        >(
            (
                names_of(schema.columns()),
                units_of(schema.columns()),
                labels_upto(schema.inputs, schema.inputs.len() as int),
                7 + schema.inputs.len() as int + schema.columns().len() + units_part(
                    schema.columns(),
                ).len() + level_tokens(schema.inputs, schema.inputs.len()).len(),
            ),
        ),
{
    let specs = schema.specs();
    let columns = schema.columns();
    let n = schema.inputs.len();
    let names = names_of(columns);
    let i = 7 + n as int + columns.len();
    let j = i + units_part(columns).len();
    let levels = level_tokens(schema.inputs, n);
    lemma_words();
    assert(toks[6 + n as int + 0] == seq![bare("names"@)][0]);
    lemma_names_back(toks, 7 + n as int, names, 0);
    assert(names.take(0) =~= Seq::<Seq<char>>::empty());
    if !has_units(columns) {
        assert(units_part(columns).len() == 0);
        if levels.len() > 0 {
            lemma_first_level(schema.inputs, n);
            assert(toks[j + 0] == levels[0]);
        }
    }
    lemma_units_line_back(toks, i, columns);
    lemma_sections_back(toks, j, schema.inputs, specs, 0);
    assert(level_tokens(schema.inputs, 0).len() == 0);
    assert(labels_upto(schema.inputs, 0) =~= no_labels(n));
    assert(specs.len() + schema.outputs.len() == columns.len());
}

proof fn lemma_document_back(
    schema: SchemaView,
    shown: Seq<Seq<Seq<char>>>,
    rulings: SchemaRulings,
)
    requires
        rulings.accept_all(),
        storable(schema),
        shown.len() * schema.columns().len() <= usize::MAX,
        shown.len() <= usize::MAX,
        forall|r: int|
            0 <= r < shown.len() ==> (#[trigger] shown[r]).len() == schema.columns().len(),
    ensures
        ({
            let toks = chained(file_rows(schema, shown));
            let values = chained(shown.map_values(|row: Seq<Seq<char>>| value_row(row)));
            &&& header_of(toks) matches Ok(h) && h.document(rulings) == Ok::<
                DocumentView,
                TnumError,
            >(
                DocumentView {
                    schema,
                    rows: shown.len(),
                    tokens: toks,
                    at: toks.len() - values.len(),
                },
            )
            &&& toks.skip(toks.len() - values.len()) == values
            &&& values.len() == shown.len() * schema.columns().len()
        }),
{
    let toks = chained(file_rows(schema, shown));
    let value_rows = shown.map_values(|row: Seq<Seq<char>>| value_row(row));
    let values = chained(value_rows);
    let columns = schema.columns();
    let head = head_tokens(schema);
    let levels = level_tokens(schema.inputs, schema.inputs.len());
    let units = units_part(columns);
    let tail = seq![bare("rows"@), bare(decimal(shown.len())), bare("data"@)];
    lemma_chained_file(schema, shown);
    assert forall|r: int| 0 <= r < value_rows.len() implies (#[trigger] value_rows[r]).len()
        == columns.len() by {
        assert(shown[r].len() == columns.len());
    }
    lemma_chained_values(value_rows, columns.len());
    lemma_parts(head, units, levels, tail, values);
    assert(head.len() == 7 + schema.inputs.len() + columns.len());
    let i_rows: int = head.len() + units.len() + levels.len() as int;
    assert(toks[i_rows + 0] == tail[0]);
    assert(toks[i_rows + 1] == tail[1]);
    assert(toks[i_rows + 2] == tail[2]);
    lemma_document_of(toks, schema, shown.len(), i_rows, values.len(), rulings);
}

/// The document of tokens that begin with the header of a schema.
proof fn lemma_document_of(
    toks: Seq<Lexeme>,
    schema: SchemaView,
    rows: nat,
    i_rows: int,
    n_values: nat,
    rulings: SchemaRulings,
)
    requires
        rulings.accept_all(),
        storable(schema),
        rows <= usize::MAX,
        n_values == rows * schema.columns().len(),
        n_values <= usize::MAX,
        holds(toks, 0, head_tokens(schema)),
        holds(toks, head_tokens(schema).len() as int, units_part(schema.columns())),
        holds(
            toks,
            head_tokens(schema).len() as int + units_part(schema.columns()).len(),
            level_tokens(schema.inputs, schema.inputs.len()),
        ),
        i_rows == head_tokens(schema).len() + units_part(schema.columns()).len() + level_tokens(
            schema.inputs,
            schema.inputs.len(),
        ).len(),
        toks.len() == i_rows + 3 + n_values,
        toks[i_rows] == bare("rows"@),
        toks[i_rows + 1] == bare(decimal(rows)),
        toks[i_rows + 2] == bare("data"@),
    ensures
        header_of(toks) matches Ok(h) && h.document(rulings) == Ok::<DocumentView, TnumError>(
            DocumentView { schema, rows, tokens: toks, at: toks.len() - n_values },
        ),
{
    assert(head_tokens(schema).len() == 7 + schema.inputs.len() + schema.columns().len());
    lemma_preamble_back(toks, schema);
    lemma_named_back(toks, schema);
    let h = header_back(schema, toks, i_rows);
    assert(header_of(toks) == Ok::<HeaderView, TnumError>(h));
    lemma_no_input_fault(h, schema.inputs, rulings, 0);
    lemma_no_output_fault(h, rulings, 0);
    lemma_assembled_back(schema);
    law_decimal_reads_back(rows, usize::MAX as nat);
    assert(row_count(toks, i_rows, schema.columns().len()) == Ok::<(nat, int), TnumError>(
        (rows, i_rows + 3),
    ));
    assert(schema.specs().len() + schema.outputs.len() == schema.columns().len());
}

proof fn lemma_first_level(inputs: Seq<ColumnView>, n: nat)
    requires
        n <= inputs.len(),
    ensures
        level_tokens(inputs, n).len() > 0 ==> level_tokens(inputs, n)[0] == bare("levels"@),
    decreases n,
{
    if n > 0 {
        lemma_first_level(inputs, (n - 1) as nat);
        match inputs[n - 1].levels {
            Some(levels) => {
                lemma_chained_push(
                    level_rows(inputs, (n - 1) as nat),
                    level_row((n - 1) as nat, levels),
                );
                let front = level_tokens(inputs, (n - 1) as nat);
                if front.len() == 0 {
                    assert(level_tokens(inputs, n)[0] == level_row((n - 1) as nat, levels)[0]);
                } else {
                    assert(level_tokens(inputs, n)[0] == front[0]);
                }
            },
            None => {},
        }
    }
}

/// Reading a written file gives back the schema, the number of rows and the
/// printed values in their places, whatever the names, units and labels hold,
/// as long as the rules refuse none of the columns nor the schema.
pub proof fn law_read_undoes_write(
    schema: SchemaView,
    shown: Seq<Seq<Seq<char>>>,
    rulings: SchemaRulings,
)
    requires
        rulings.accept_all(),
        storable(schema),
        shown.len() <= usize::MAX,
        shown.len() * schema.columns().len() <= usize::MAX,
        forall|r: int|
            0 <= r < shown.len() ==> (#[trigger] shown[r]).len() == schema.columns().len(),
        plain_rows(shown),
    ensures
        document(terminated(file_lines(schema, shown)), rulings) matches Ok(d) && {
            &&& d.schema == schema
            &&& d.rows == shown.len()
            &&& d.values().len() == shown.len() * schema.columns().len()
            &&& forall|r: int, c: int|
                0 <= r < shown.len() && 0 <= c < schema.columns().len() ==> d.values()[r
                    * schema.columns().len() + c] == Lexeme::Bare(#[trigger] shown[r][c])
        },
{
    let columns = schema.columns().len();
    let rows = file_lines(schema, shown);
    let toks = file_rows(schema, shown);
    lemma_file_lines(schema, shown);
    lemma_tokens_back(rows, toks);
    lemma_document_back(schema, shown, rulings);
    let value_rows = shown.map_values(|row: Seq<Seq<char>>| value_row(row));
    assert forall|r: int| 0 <= r < value_rows.len() implies (#[trigger] value_rows[r]).len()
        == columns by {
        assert(shown[r].len() == columns);
    }
    lemma_chained_values(value_rows, columns);
    let d = document(terminated(rows), rulings)->Ok_0;
    assert forall|r: int, c: int| 0 <= r < shown.len() && 0 <= c < columns implies d.values()[r
        * columns + c] == Lexeme::Bare(#[trigger] shown[r][c]) by {
        assert(value_rows[r][c] == Lexeme::Bare(shown[r][c]));
    }
}

/// The number in a column of a row, the inputs first.
pub open spec fn number_at(data: NumericDataset, r: int, c: int) -> Single {
    if c < data.inputs.cols {
        data.inputs@[r][c]
    } else {
        data.outputs@[r][c - data.inputs.cols]
    }
}

proof fn lemma_all_spelled(d: DocumentView, values: Seq<Option<Single>>, k: int)
    requires
        forall|q: int|
            0 <= q < values.len() ==> d.values()[q] is Bare && #[trigger] values[q] is Some,
    ensures
        misspelled(d, values, k) is None,
    decreases values.len() - k,
{
    if 0 <= k < values.len() {
        assert(values[k] is Some);
        lemma_all_spelled(d, values, k + 1);
    }
}

/// Data that can be written come back from their file: the schema, and every
/// number in its place, as long as each printed number reads as the number it
/// was printed from, and the rules refuse none of the columns nor the schema.
pub proof fn law_data_survive_a_file(
    schema: SchemaView,
    data: NumericDataset,
    shown: Seq<Seq<Seq<char>>>,
    values: Seq<Option<Single>>,
    rulings: SchemaRulings,
)
    requires
        rulings.accept_all(),
        storable(schema),
        data.wf(),
        data_fault(schema, data) is None,
        shown.len() == data.inputs@.len(),
        shown.len() * schema.columns().len() <= usize::MAX,
        forall|r: int|
            0 <= r < shown.len() ==> (#[trigger] shown[r]).len() == schema.columns().len(),
        plain_rows(shown),
        values.len() == shown.len() * schema.columns().len(),
        forall|r: int, c: int|
            0 <= r < shown.len() && 0 <= c < schema.columns().len() ==> values[r
                * schema.columns().len() + c] == Some(#[trigger] number_at(data, r, c)),
    ensures
        document(terminated(file_lines(schema, shown)), rulings) matches Ok(d) && {
            &&& d.schema == schema
            &&& d.rows == data.inputs@.len()
            &&& misspelled(d, values, 0) is None
            &&& columns_of(values, d.rows, d.columns(), 0, schema.inputs.len()) == data.inputs@
            &&& columns_of(
                values,
                d.rows,
                d.columns(),
                schema.inputs.len(),
                schema.outputs.len(),
            ) == data.outputs@
            &&& fault_from(schema, data.inputs@, data.outputs@, 0, 0) is None
        },
{
    assert(data.inputs.rows.len() == data.inputs@.len());
    law_read_undoes_write(schema, shown, rulings);
    let d = document(terminated(file_lines(schema, shown)), rulings)->Ok_0;
    let columns = schema.columns().len() as int;
    let n = schema.inputs.len() as int;
    assert forall|q: int| 0 <= q < values.len() implies d.values()[q] is Bare
        && #[trigger] values[q] is Some by {
        if columns == 0 {
            assert(shown.len() * columns == 0) by (nonlinear_arith)
                requires
                    columns == 0,
            ;
        } else {
            let r = q / columns;
            let c = q % columns;
            vstd::arithmetic::div_mod::lemma_fundamental_div_mod(q, columns);
            assert(columns * r == r * columns) by (nonlinear_arith);
            vstd::arithmetic::div_mod::lemma_mod_bound(q, columns);
            assert(r < shown.len()) by (nonlinear_arith)
                requires
                    q < shown.len() * columns,
                    q == r * columns + c,
                    0 <= c,
                    columns > 0,
            ;
            assert(0 <= r) by (nonlinear_arith)
                requires
                    0 <= q,
                    q == r * columns + c,
                    c < columns,
                    columns > 0,
            ;
            assert(d.values()[r * columns + c] == Lexeme::Bare(shown[r][c]));
            assert(values[r * columns + c] == Some(number_at(data, r, c)));
        }
    }
    lemma_all_spelled(d, values, 0);
    let ins = columns_of(values, d.rows, d.columns(), 0, schema.inputs.len());
    let outs = columns_of(
        values,
        d.rows,
        d.columns(),
        schema.inputs.len(),
        schema.outputs.len(),
    );
    assert forall|r: int| 0 <= r < shown.len() implies ins[r] == data.inputs@[r] && outs[r]
        == data.outputs@[r] by {
        assert(data.inputs@[r].len() == data.inputs.cols);
        assert(data.outputs@[r].len() == data.outputs.cols);
        assert forall|c: int| 0 <= c < n implies #[trigger] ins[r][c] == data.inputs@[r][c] by {
            assert(number_at(data, r, c) == data.inputs@[r][c]);
            assert(values[r * columns + 0 + c] == values[r * columns + c]);
        }
        assert forall|c: int| 0 <= c < schema.outputs.len() implies #[trigger] outs[r][c]
            == data.outputs@[r][c] by {
            assert(number_at(data, r, n + c) == data.outputs@[r][c]);
            assert(values[r * columns + n + c] == values[r * columns + (n + c)]);
        }
        assert(ins[r] =~= data.inputs@[r]);
        assert(outs[r] =~= data.outputs@[r]);
    }
    assert(ins =~= data.inputs@);
    assert(outs =~= data.outputs@);
}

/// Quoting texts, with a blank between them, and reading the line gives the
/// texts back, whatever they hold.
pub proof fn law_quoted_texts_read_back(list: Seq<Seq<char>>)
    ensures
        tokens_of(joined(quoted_all(list), " "@)) == Ok::<Seq<Lexeme>, (int, LexFault)>(
            quoted_tokens(list),
        ),
{
    let toks = quoted_tokens(list);
    let line = joined(quoted_all(list), " "@);
    assert(rendered_all(toks) =~= quoted_all(list));
    lemma_line(toks);
    if list.len() == 0 {
        assert(toks =~= Seq::empty());
    } else {
        lemma_joined_prefix(quoted_all(list), 1);
        lemma_joined_step(quoted_all(list), 0);
        assert(quoted_all(list)[0].len() > 0);
        assert forall|i: int| 0 <= i < line.len() implies #[trigger] line[i] != '\n' by {}
        lemma_run_is(line, '\n', line.len());
        assert(lines(line) == seq![line]);
        assert(line_tokens(line, 0, Seq::empty()) == Ok::<Seq<Lexeme>, LexFault>(
            Seq::<Lexeme>::empty() + toks,
        ));
        assert(Seq::<Lexeme>::empty() + toks =~= toks);
        assert(all_tokens(seq![line], 1, toks) == Ok::<Seq<Lexeme>, (int, LexFault)>(toks));
    }
}

} // verus!
