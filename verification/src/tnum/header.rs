//! The header of a file: what the tokens in front of the values declare.

use crate::encoders::FeatureSpec;
use crate::schema::{
    copied_ruling, synthetic_schema, unit_view, Column, ColumnRole, ColumnView, ModelSchema,
    SchemaRulings, SchemaView,
};
use crate::text::{
    blank, copy_texts, is_blank, lower, lowered, owned, parse_usize, parsed, same, starts,
    strip_prefix, texts,
};
use crate::tnum::token::{lexemes, tokenize, tokens_of, LexFault, Lexeme, Token};
use vstd::prelude::*;

verus! {

/// What a position of the file should hold.
#[derive(Clone, Copy, Debug, PartialEq, Eq, Structural)]
pub enum What {
    Magic,
    Inputs,
    InputCount,
    Outputs,
    OutputCount,
    Specs,
    FeatureType,
    Names,
    ColumnName(usize),
    Units,
    Unit,
    Levels,
    LevelsIndex,
    LevelLabel { level: usize, input: usize },
    Rows,
    RowCount,
    Data,
    InputValue,
    OutputValue,
}

/// Why a file is refused. `at` is the number of the offending token.
#[derive(Clone, Copy, Debug, PartialEq, Eq, Structural)]
pub enum TnumError {
    Lex { line: usize, fault: LexFault },
    Ended(What),
    NotMagic { at: usize },
    Unexpected { word: What, at: usize },
    NotNumber { what: What, at: usize },
    QuotedNumber { what: What, at: usize },
    Unquoted { what: What, at: usize },
    TooManyColumns,
    QuotedType { at: usize },
    BadCardinality { at: usize },
    UnknownType { at: usize },
    BlankUnit { at: usize },
    BareUnit { at: usize },
    NotCategorical { input: usize },
    NoSuchInput { input: usize, n_inputs: usize },
    RepeatedLevels { input: usize },
    MissingLevels { input: usize, cardinality: usize },
    /// The rules for columns refuse this one; the inputs are counted first.
    RefusedColumn { column: usize },
    /// The rules for schemas refuse the one that is declared.
    RefusedSchema,
    TooManyValues,
    ValueCount { expected: usize, rows: usize, columns: usize, found: usize },
}

/// The directive that a position should hold.
pub open spec fn word_of(what: What) -> Seq<char> {
    match what {
        What::Inputs => "inputs"@,
        What::Outputs => "outputs"@,
        What::Specs => "specs"@,
        What::Names => "names"@,
        What::Units => "units"@,
        What::Levels => "levels"@,
        What::Rows => "rows"@,
        What::Data => "data"@,
        _ => ""@,
    }
}

fn word(what: What) -> (w: &'static str)
    ensures
        w@ == word_of(what),
{
    match what {
        What::Inputs => "inputs",
        What::Outputs => "outputs",
        What::Specs => "specs",
        What::Names => "names",
        What::Units => "units",
        What::Levels => "levels",
        What::Rows => "rows",
        What::Data => "data",
        _ => "",
    }
}

/// Why a feature type is refused.
#[derive(Clone, Copy, Debug, PartialEq, Eq, Structural)]
pub enum TypeFault {
    BadCardinality,
    UnknownType,
}

/// The feature type that a word spells, in any case of its letters: `C` or
/// `continuous`, or `K:` or `categorical:` and a number.
pub open spec fn feature_type(s: Seq<char>) -> Result<FeatureSpec, TypeFault> {
    let l = lowered(s);
    if l == "c"@ || l == "continuous"@ {
        Ok(FeatureSpec::Continuous)
    } else if starts(l, "k:"@) {
        counted_type(l.skip("k:"@.len() as int))
    } else if starts(l, "categorical:"@) {
        counted_type(l.skip("categorical:"@.len() as int))
    } else {
        Err(TypeFault::UnknownType)
    }
}

pub open spec fn counted_type(count: Seq<char>) -> Result<FeatureSpec, TypeFault> {
    match parsed(count, usize::MAX as nat) {
        Some(n) => Ok(FeatureSpec::Categorical { cardinality: n as usize }),
        None => Err(TypeFault::BadCardinality),
    }
}

pub fn parse_feature_spec(token: &str) -> (out: Result<FeatureSpec, TypeFault>)
    ensures
        out == feature_type(token@),
{
    let l: String = lower(token);
    if same(l.as_str(), "c") || same(l.as_str(), "continuous") {
        return Ok(FeatureSpec::Continuous);
    }
    let rest: Option<String> = match strip_prefix(l.as_str(), "k:") {
        Some(rest) => Some(rest),
        None => strip_prefix(l.as_str(), "categorical:"),
    };
    match rest {
        Some(count) => match parse_usize(count.as_str()) {
            Some(cardinality) => Ok(FeatureSpec::Categorical { cardinality }),
            None => Err(TypeFault::BadCardinality),
        },
        None => Err(TypeFault::UnknownType),
    }
}

/// The directive `what` at position `i`: the position behind it.
pub open spec fn directive(toks: Seq<Lexeme>, i: int, what: What) -> Result<int, TnumError> {
    if i >= toks.len() {
        Err(TnumError::Ended(what))
    } else if toks[i] == Lexeme::Bare(word_of(what)) {
        Ok(i + 1)
    } else {
        Err(TnumError::Unexpected { word: what, at: i as usize })
    }
}

/// The number at position `i` and the position behind it.
pub open spec fn number(toks: Seq<Lexeme>, i: int, what: What) -> Result<(nat, int), TnumError> {
    if i >= toks.len() {
        Err(TnumError::Ended(what))
    } else {
        match toks[i] {
            Lexeme::Bare(s) => match parsed(s, usize::MAX as nat) {
                Some(n) => Ok((n, i + 1)),
                None => Err(TnumError::NotNumber { what, at: i as usize }),
            },
            Lexeme::Quoted(_) => Err(TnumError::QuotedNumber { what, at: i as usize }),
        }
    }
}

/// The quoted text at position `i` and the position behind it.
pub open spec fn quoted(toks: Seq<Lexeme>, i: int, what: What) -> Result<
    (Seq<char>, int),
    TnumError,
> {
    if i >= toks.len() {
        Err(TnumError::Ended(what))
    } else {
        match toks[i] {
            Lexeme::Quoted(s) => Ok((s, i + 1)),
            Lexeme::Bare(_) => Err(TnumError::Unquoted { what, at: i as usize }),
        }
    }
}

/// A position in a list of tokens. Each directive knows how many tokens it
/// takes, so line ends do not matter.
pub struct Cursor<'a> {
    pub tokens: &'a Vec<Token>,
    pub i: usize,
}

impl<'a> Cursor<'a> {
    pub open spec fn toks(&self) -> Seq<Lexeme> {
        lexemes(self.tokens@)
    }

    pub open spec fn wf(&self) -> bool {
        self.i <= self.tokens.len()
    }

    /// Is the next token the bare word `w`?
    pub fn peek_bare(&self, w: &str) -> (yes: bool)
        requires
            self.wf(),
        ensures
            yes == (self.i < self.toks().len() && self.toks()[self.i as int] == Lexeme::Bare(w@)),
    {
        if self.i >= self.tokens.len() {
            return false;
        }
        match &self.tokens[self.i] {
            Token::Bare(s) => same(s.as_str(), w),
            Token::Quoted(_) => false,
        }
    }

    pub fn next_token(&mut self, what: What) -> (out: Result<&'a Token, TnumError>)
        requires
            old(self).wf(),
        ensures
            final(self).wf(),
            final(self).tokens == old(self).tokens,
            match out {
                Ok(t) => old(self).i < old(self).toks().len() && t@
                    == old(self).toks()[old(self).i as int] && final(self).i == old(self).i + 1,
                Err(e) => old(self).i == old(self).toks().len() && e == TnumError::Ended(what),
            },
    {
        if self.i >= self.tokens.len() {
            return Err(TnumError::Ended(what));
        }
        let t: &'a Token = &self.tokens[self.i];
        self.i = self.i + 1;
        Ok(t)
    }

    pub fn expect_bare(&mut self, what: What) -> (out: Result<(), TnumError>)
        requires
            old(self).wf(),
        ensures
            final(self).wf(),
            final(self).tokens == old(self).tokens,
            match out {
                Ok(_) => directive(old(self).toks(), old(self).i as int, what) == Ok::<
                    int,
                    TnumError,
                >(final(self).i as int),
                Err(e) => directive(old(self).toks(), old(self).i as int, what) == Err::<
                    int,
                    TnumError,
                >(e),
            },
    {
        let at: usize = self.i;
        match self.next_token(what)? {
            Token::Bare(s) => if same(s.as_str(), word(what)) {
                Ok(())
            } else {
                Err(TnumError::Unexpected { word: what, at })
            },
            Token::Quoted(_) => Err(TnumError::Unexpected { word: what, at }),
        }
    }

    pub fn next_usize(&mut self, what: What) -> (out: Result<usize, TnumError>)
        requires
            old(self).wf(),
        ensures
            final(self).wf(),
            final(self).tokens == old(self).tokens,
            match out {
                Ok(n) => number(old(self).toks(), old(self).i as int, what) == Ok::<
                    (nat, int),
                    TnumError,
                >((n as nat, final(self).i as int)),
                Err(e) => number(old(self).toks(), old(self).i as int, what) == Err::<
                    (nat, int),
                    TnumError,
                >(e),
            },
    {
        let at: usize = self.i;
        match self.next_token(what)? {
            Token::Bare(s) => match parse_usize(s.as_str()) {
                Some(n) => Ok(n),
                None => Err(TnumError::NotNumber { what, at }),
            },
            Token::Quoted(_) => Err(TnumError::QuotedNumber { what, at }),
        }
    }

    /// A text field must be quoted: a bare `rows` would be a directive.
    pub fn next_quoted(&mut self, what: What) -> (out: Result<String, TnumError>)
        requires
            old(self).wf(),
        ensures
            final(self).wf(),
            final(self).tokens == old(self).tokens,
            match out {
                Ok(s) => quoted(old(self).toks(), old(self).i as int, what) == Ok::<
                    (Seq<char>, int),
                    TnumError,
                >((s@, final(self).i as int)),
                Err(e) => quoted(old(self).toks(), old(self).i as int, what) == Err::<
                    (Seq<char>, int),
                    TnumError,
                >(e),
            },
    {
        let at: usize = self.i;
        match self.next_token(what)? {
            Token::Quoted(s) => Ok(owned(s.as_str())),
            Token::Bare(_) => Err(TnumError::Unquoted { what, at }),
        }
    }

    pub fn remaining(&self) -> (n: usize)
        requires
            self.wf(),
        ensures
            n == self.toks().len() - self.i,
    {
        self.tokens.len() - self.i
    }
}

/// The feature types read so far, followed by the next ones up to `n`.
pub open spec fn types_from(
    toks: Seq<Lexeme>,
    i: int,
    read: Seq<FeatureSpec>,
    n: nat,
) -> Result<(Seq<FeatureSpec>, int), TnumError>
    decreases n - read.len(),
{
    if read.len() >= n {
        Ok((read, i))
    } else if i >= toks.len() {
        Err(TnumError::Ended(What::FeatureType))
    } else {
        match toks[i] {
            Lexeme::Quoted(_) => Err(TnumError::QuotedType { at: i as usize }),
            Lexeme::Bare(s) => match feature_type(s) {
                Ok(t) => types_from(toks, i + 1, read.push(t), n),
                Err(TypeFault::BadCardinality) => Err(TnumError::BadCardinality { at: i as usize }),
                Err(TypeFault::UnknownType) => Err(TnumError::UnknownType { at: i as usize }),
            },
        }
    }
}

/// The column names read so far, followed by the next ones up to `n`.
pub open spec fn names_from(
    toks: Seq<Lexeme>,
    i: int,
    read: Seq<Seq<char>>,
    n: nat,
) -> Result<(Seq<Seq<char>>, int), TnumError>
    decreases n - read.len(),
{
    if read.len() >= n {
        Ok((read, i))
    } else {
        match quoted(toks, i, What::ColumnName(read.len() as usize)) {
            Ok(found) => names_from(toks, found.1, read.push(found.0), n),
            Err(e) => Err(e),
        }
    }
}

/// The unit at position `i`: `-` for none, or a quoted text that is not
/// blank.
pub open spec fn unit_at(toks: Seq<Lexeme>, i: int) -> Result<Option<Seq<char>>, TnumError> {
    if i >= toks.len() {
        Err(TnumError::Ended(What::Unit))
    } else {
        match toks[i] {
            Lexeme::Bare(s) => if s == "-"@ {
                Ok(None)
            } else {
                Err(TnumError::BareUnit { at: i as usize })
            },
            Lexeme::Quoted(s) => if blank(s) {
                Err(TnumError::BlankUnit { at: i as usize })
            } else {
                Ok(Some(s))
            },
        }
    }
}

/// The units read so far, followed by the next ones up to `n`.
pub open spec fn units_from(
    toks: Seq<Lexeme>,
    i: int,
    read: Seq<Option<Seq<char>>>,
    n: nat,
) -> Result<(Seq<Option<Seq<char>>>, int), TnumError>
    decreases n - read.len(),
{
    if read.len() >= n {
        Ok((read, i))
    } else {
        match unit_at(toks, i) {
            Ok(unit) => units_from(toks, i + 1, read.push(unit), n),
            Err(e) => Err(e),
        }
    }
}

/// The labels of the levels of one input, up to `n` of them.
pub open spec fn labels_from(
    toks: Seq<Lexeme>,
    i: int,
    read: Seq<Seq<char>>,
    n: nat,
    input: usize,
) -> Result<(Seq<Seq<char>>, int), TnumError>
    decreases n - read.len(),
{
    if read.len() >= n {
        Ok((read, i))
    } else {
        match quoted(toks, i, What::LevelLabel { level: read.len() as usize, input }) {
            Ok(found) => labels_from(toks, found.1, read.push(found.0), n, input),
            Err(e) => Err(e),
        }
    }
}

pub proof fn lemma_labels_move(
    toks: Seq<Lexeme>,
    i: int,
    read: Seq<Seq<char>>,
    n: nat,
    input: usize,
)
    requires
        0 <= i <= toks.len(),
    ensures
        labels_from(toks, i, read, n, input) matches Ok(found) ==> i <= found.1 <= toks.len(),
    decreases n - read.len(),
{
    if read.len() < n {
        match quoted(toks, i, What::LevelLabel { level: read.len() as usize, input }) {
            Ok(found) => lemma_labels_move(toks, found.1, read.push(found.0), n, input),
            Err(_) => {},
        }
    }
}

/// The sections `levels <input> "…" …` from position `i` on.
pub open spec fn sections_from(
    toks: Seq<Lexeme>,
    i: int,
    specs: Seq<FeatureSpec>,
    read: Seq<Option<Seq<Seq<char>>>>,
) -> Result<(Seq<Option<Seq<Seq<char>>>>, int), TnumError>
    decreases toks.len() - i,
    when 0 <= i <= toks.len()
{
    if i >= toks.len() || toks[i] != Lexeme::Bare("levels"@) {
        Ok((read, i))
    } else {
        match number(toks, i + 1, What::LevelsIndex) {
            Err(e) => Err(e),
            Ok(at) => if at.0 >= specs.len() {
                Err(
                    TnumError::NoSuchInput {
                        input: at.0 as usize,
                        n_inputs: specs.len() as usize,
                    },
                )
            } else {
                match specs[at.0 as int] {
                    FeatureSpec::Continuous => Err(
                        TnumError::NotCategorical { input: at.0 as usize },
                    ),
                    FeatureSpec::Categorical { cardinality } => if read[at.0 as int] is Some {
                        Err(TnumError::RepeatedLevels { input: at.0 as usize })
                    } else {
                        proof {
                            lemma_labels_move(
                                toks,
                                at.1,
                                Seq::empty(),
                                cardinality as nat,
                                at.0 as usize,
                            );
                        }
                        match labels_from(
                            toks,
                            at.1,
                            Seq::empty(),
                            cardinality as nat,
                            at.0 as usize,
                        ) {
                            Err(e) => Err(e),
                            Ok(found) => sections_from(
                                toks,
                                found.1,
                                specs,
                                read.update(at.0 as int, Some(found.0)),
                            ),
                        }
                    },
                }
            },
        }
    }
}

/// The schema that the header fields make up.
pub open spec fn assembled(
    specs: Seq<FeatureSpec>,
    n_outputs: nat,
    names: Seq<Seq<char>>,
    units: Seq<Option<Seq<char>>>,
    labels: Seq<Option<Seq<Seq<char>>>>,
) -> SchemaView {
    SchemaView {
        inputs: Seq::new(
            specs.len(),
            |i: int|
                ColumnView {
                    name: names[i],
                    role: ColumnRole::Input,
                    levels: if specs[i] is Continuous {
                        None
                    } else {
                        labels[i]
                    },
                    unit: units[i],
                },
        ),
        outputs: Seq::new(
            n_outputs,
            |j: int|
                ColumnView {
                    name: names[specs.len() + j],
                    role: ColumnRole::Output,
                    levels: None,
                    unit: units[specs.len() + j],
                },
        ),
    }
}

pub open spec fn no_units(n: nat) -> Seq<Option<Seq<char>>> {
    Seq::new(n, |i: int| None)
}

pub open spec fn no_labels(n: nat) -> Seq<Option<Seq<Seq<char>>>> {
    Seq::new(n, |i: int| None)
}

/// The units line, which may be absent.
pub open spec fn units_line(toks: Seq<Lexeme>, i: int, n: nat) -> Result<
    (Seq<Option<Seq<char>>>, int),
    TnumError,
> {
    if i < toks.len() && toks[i] == Lexeme::Bare("units"@) {
        units_from(toks, i + 1, Seq::empty(), n)
    } else {
        Ok((no_units(n), i))
    }
}

/// The names, the units and the labels of the second version, from `names`
/// on, and the position behind them.
pub open spec fn named_fields(
    toks: Seq<Lexeme>,
    i: int,
    specs: Seq<FeatureSpec>,
    n_outputs: nat,
) -> Result<
    (Seq<Seq<char>>, Seq<Option<Seq<char>>>, Seq<Option<Seq<Seq<char>>>>, int),
    TnumError,
> {
    match directive(toks, i, What::Names) {
        Err(e) => Err(e),
        Ok(i1) => match names_from(toks, i1, Seq::empty(), specs.len() + n_outputs) {
            Err(e) => Err(e),
            Ok(names) => match units_line(toks, names.1, specs.len() + n_outputs) {
                Err(e) => Err(e),
                Ok(units) => match sections_from(toks, units.1, specs, no_labels(specs.len())) {
                    Err(e) => Err(e),
                    Ok(labels) => Ok((names.0, units.0, labels.0, labels.1)),
                },
            },
        },
    }
}

fn read_types(c: &mut Cursor<'_>, n: usize) -> (out: Result<Vec<FeatureSpec>, TnumError>)
    requires
        old(c).wf(),
    ensures
        final(c).wf(),
        final(c).tokens == old(c).tokens,
        match out {
            Ok(specs) => types_from(old(c).toks(), old(c).i as int, Seq::empty(), n as nat) == Ok::<
                (Seq<FeatureSpec>, int),
                TnumError,
            >((specs@, final(c).i as int)) && specs.len() == n,
            Err(e) => types_from(old(c).toks(), old(c).i as int, Seq::empty(), n as nat) == Err::<
                (Seq<FeatureSpec>, int),
                TnumError,
            >(e),
        },
{
    let ghost start = c.i as int;
    let mut specs: Vec<FeatureSpec> = Vec::new();
    while specs.len() < n
        invariant
            c.wf(),
            c.tokens == old(c).tokens,
            start == old(c).i,
            specs.len() <= n,
            types_from(c.toks(), c.i as int, specs@, n as nat) == types_from(
                c.toks(),
                start,
                Seq::empty(),
                n as nat,
            ),
        decreases n - specs.len(),
    {
        let at: usize = c.i;
        match c.next_token(What::FeatureType)? {
            Token::Bare(s) => match parse_feature_spec(s.as_str()) {
                Ok(t) => {
                    specs.push(t);
                },
                Err(TypeFault::BadCardinality) => {
                    return Err(TnumError::BadCardinality { at });
                },
                Err(TypeFault::UnknownType) => {
                    return Err(TnumError::UnknownType { at });
                },
            },
            Token::Quoted(_) => {
                return Err(TnumError::QuotedType { at });
            },
        }
    }
    Ok(specs)
}

fn read_names(c: &mut Cursor<'_>, n: usize) -> (out: Result<Vec<String>, TnumError>)
    requires
        old(c).wf(),
    ensures
        final(c).wf(),
        final(c).tokens == old(c).tokens,
        match out {
            Ok(names) => names_from(old(c).toks(), old(c).i as int, Seq::empty(), n as nat) == Ok::<
                (Seq<Seq<char>>, int),
                TnumError,
            >((texts(names@), final(c).i as int)) && names.len() == n,
            Err(e) => names_from(old(c).toks(), old(c).i as int, Seq::empty(), n as nat) == Err::<
                (Seq<Seq<char>>, int),
                TnumError,
            >(e),
        },
{
    let ghost start = c.i as int;
    let mut names: Vec<String> = Vec::new();
    assert(texts(names@) =~= Seq::empty());
    while names.len() < n
        invariant
            c.wf(),
            c.tokens == old(c).tokens,
            start == old(c).i,
            names.len() <= n,
            names_from(c.toks(), c.i as int, texts(names@), n as nat) == names_from(
                c.toks(),
                start,
                Seq::empty(),
                n as nat,
            ),
        decreases n - names.len(),
    {
        let ghost before = texts(names@);
        let name: String = c.next_quoted(What::ColumnName(names.len()))?;
        let ghost said = name@;
        names.push(name);
        assert(texts(names@) =~= before.push(said));
    }
    Ok(names)
}

pub open spec fn units_view(units: Seq<Option<String>>) -> Seq<Option<Seq<char>>> {
    units.map_values(|u: Option<String>| unit_view(u))
}

fn read_units(c: &mut Cursor<'_>, n: usize) -> (out: Result<Vec<Option<String>>, TnumError>)
    requires
        old(c).wf(),
    ensures
        final(c).wf(),
        final(c).tokens == old(c).tokens,
        match out {
            Ok(units) => units_line(old(c).toks(), old(c).i as int, n as nat) == Ok::<
                (Seq<Option<Seq<char>>>, int),
                TnumError,
            >((units_view(units@), final(c).i as int)) && units.len() == n,
            Err(e) => units_line(old(c).toks(), old(c).i as int, n as nat) == Err::<
                (Seq<Option<Seq<char>>>, int),
                TnumError,
            >(e),
        },
{
    let mut units: Vec<Option<String>> = Vec::new();
    if !c.peek_bare("units") {
        while units.len() < n
            invariant
                units.len() <= n,
                units_view(units@) =~= no_units(units.len() as nat),
            decreases n - units.len(),
        {
            let ghost before = units@;
            units.push(None);
            assert(units_view(units@) =~= units_view(before).push(None));
        }
        return Ok(units);
    }
    c.expect_bare(What::Units)?;
    let ghost start = c.i as int;
    assert(units_view(units@) =~= Seq::empty());
    while units.len() < n
        invariant
            c.wf(),
            c.tokens == old(c).tokens,
            units.len() <= n,
            start == old(c).i + 1,
            units_line(old(c).toks(), old(c).i as int, n as nat) == units_from(
                c.toks(),
                start,
                Seq::empty(),
                n as nat,
            ),
            units_from(c.toks(), c.i as int, units_view(units@), n as nat) == units_from(
                c.toks(),
                start,
                Seq::empty(),
                n as nat,
            ),
        decreases n - units.len(),
    {
        let ghost before = units@;
        let at: usize = c.i;
        match c.next_token(What::Unit)? {
            Token::Bare(s) => {
                if !same(s.as_str(), "-") {
                    return Err(TnumError::BareUnit { at });
                }
                units.push(None);
                assert(units_view(units@) =~= units_view(before).push(None));
            },
            Token::Quoted(s) => {
                if is_blank(s.as_str()) {
                    return Err(TnumError::BlankUnit { at });
                }
                let unit: String = owned(s.as_str());
                let ghost said = unit@;
                units.push(Some(unit));
                assert(units_view(units@) =~= units_view(before).push(Some(said)));
            },
        }
    }
    Ok(units)
}

fn read_labels(c: &mut Cursor<'_>, n: usize, input: usize) -> (out: Result<
    Vec<String>,
    TnumError,
>)
    requires
        old(c).wf(),
    ensures
        final(c).wf(),
        final(c).tokens == old(c).tokens,
        out is Ok ==> final(c).i >= old(c).i,
        match out {
            Ok(labels) => labels_from(
                old(c).toks(),
                old(c).i as int,
                Seq::empty(),
                n as nat,
                input,
            ) == Ok::<(Seq<Seq<char>>, int), TnumError>((texts(labels@), final(c).i as int)),
            Err(e) => labels_from(
                old(c).toks(),
                old(c).i as int,
                Seq::empty(),
                n as nat,
                input,
            ) == Err::<(Seq<Seq<char>>, int), TnumError>(e),
        },
{
    let ghost start = c.i as int;
    let mut labels: Vec<String> = Vec::new();
    assert(texts(labels@) =~= Seq::empty());
    while labels.len() < n
        invariant
            c.wf(),
            c.tokens == old(c).tokens,
            start == old(c).i,
            c.i >= start,
            labels.len() <= n,
            labels_from(c.toks(), c.i as int, texts(labels@), n as nat, input) == labels_from(
                c.toks(),
                start,
                Seq::empty(),
                n as nat,
                input,
            ),
        decreases n - labels.len(),
    {
        let ghost before = texts(labels@);
        let label: String = c.next_quoted(What::LevelLabel { level: labels.len(), input })?;
        let ghost said = label@;
        labels.push(label);
        assert(texts(labels@) =~= before.push(said));
    }
    Ok(labels)
}

pub open spec fn labels_view(labels: Seq<Option<Vec<String>>>) -> Seq<Option<Seq<Seq<char>>>> {
    labels.map_values(
        |l: Option<Vec<String>>|
            match l {
                Some(v) => Some(texts(v@)),
                None => None,
            },
    )
}

fn read_sections(c: &mut Cursor<'_>, specs: &Vec<FeatureSpec>) -> (out: Result<
    Vec<Option<Vec<String>>>,
    TnumError,
>)
    requires
        old(c).wf(),
    ensures
        final(c).wf(),
        final(c).tokens == old(c).tokens,
        match out {
            Ok(labels) => sections_from(
                old(c).toks(),
                old(c).i as int,
                specs@,
                no_labels(specs@.len()),
            ) == Ok::<(Seq<Option<Seq<Seq<char>>>>, int), TnumError>(
                (labels_view(labels@), final(c).i as int),
            ) && labels.len() == specs.len(),
            Err(e) => sections_from(
                old(c).toks(),
                old(c).i as int,
                specs@,
                no_labels(specs@.len()),
            ) == Err::<(Seq<Option<Seq<Seq<char>>>>, int), TnumError>(e),
        },
{
    let ghost start = c.i as int;
    let mut labels: Vec<Option<Vec<String>>> = Vec::new();
    while labels.len() < specs.len()
        invariant
            labels.len() <= specs.len(),
            labels_view(labels@) =~= no_labels(labels.len() as nat),
        decreases specs.len() - labels.len(),
    {
        let ghost before = labels@;
        labels.push(None);
        assert(labels_view(labels@) =~= labels_view(before).push(None));
    }
    while c.peek_bare("levels")
        invariant
            c.wf(),
            c.tokens == old(c).tokens,
            start == old(c).i,
            labels.len() == specs.len(),
            sections_from(c.toks(), c.i as int, specs@, labels_view(labels@)) == sections_from(
                c.toks(),
                start,
                specs@,
                no_labels(specs@.len()),
            ),
        decreases c.toks().len() - c.i,
    {
        c.expect_bare(What::Levels)?;
        let input: usize = c.next_usize(What::LevelsIndex)?;
        if input >= specs.len() {
            return Err(TnumError::NoSuchInput { input, n_inputs: specs.len() });
        }
        match specs[input] {
            FeatureSpec::Continuous => {
                return Err(TnumError::NotCategorical { input });
            },
            FeatureSpec::Categorical { cardinality } => {
                assert(labels_view(labels@)[input as int] is Some
                    == labels@[input as int] is Some);
                if labels[input].is_some() {
                    return Err(TnumError::RepeatedLevels { input });
                }
                let found: Vec<String> = read_labels(c, cardinality, input)?;
                let ghost before = labels@;
                let ghost said = texts(found@);
                labels.set(input, Some(found));
                assert(labels_view(labels@) =~= labels_view(before).update(
                    input as int,
                    Some(said),
                ));
            },
        }
    }
    Ok(labels)
}

/// The names, units and labels that a file of the second version declares.
pub struct NamedFields {
    pub names: Vec<String>,
    pub units: Vec<Option<String>>,
    pub labels: Vec<Option<Vec<String>>>,
}

/// Reads the header fields of the second version, from `names` on.
fn read_v2_fields(c: &mut Cursor<'_>, specs: &Vec<FeatureSpec>, n_outputs: usize) -> (out: Result<
    NamedFields,
    TnumError,
>)
    requires
        old(c).wf(),
        specs.len() + n_outputs <= usize::MAX,
    ensures
        final(c).wf(),
        final(c).tokens == old(c).tokens,
        match out {
            Ok(f) => {
                &&& named_fields(old(c).toks(), old(c).i as int, specs@, n_outputs as nat) == Ok::<
                    (Seq<Seq<char>>, Seq<Option<Seq<char>>>, Seq<Option<Seq<Seq<char>>>>, int),
                    TnumError,
                >((texts(f.names@), units_view(f.units@), labels_view(f.labels@), final(c).i as int))
                &&& f.names@.len() == specs.len() + n_outputs
                &&& f.units@.len() == specs.len() + n_outputs
                &&& f.labels@.len() == specs.len()
            },
            Err(e) => named_fields(old(c).toks(), old(c).i as int, specs@, n_outputs as nat)
                == Err::<
                (Seq<Seq<char>>, Seq<Option<Seq<char>>>, Seq<Option<Seq<Seq<char>>>>, int),
                TnumError,
            >(e),
        },
{
    let n_columns: usize = specs.len() + n_outputs;
    c.expect_bare(What::Names)?;
    let names: Vec<String> = read_names(c, n_columns)?;
    let units: Vec<Option<String>> = read_units(c, n_columns)?;
    let labels: Vec<Option<Vec<String>>> = read_sections(c, specs)?;
    Ok(NamedFields { names, units, labels })
}

/// The columns and what the header says of them, before the rules for columns
/// and schemas have been asked.
pub struct TnumHeader {
    pub specs: Vec<FeatureSpec>,
    pub n_outputs: usize,
    /// Absent in a file of the first version.
    pub named: Option<NamedFields>,
    pub tokens: Vec<Token>,
    /// The number of the token behind the columns.
    pub at: usize,
}

/// What a header says.
pub struct HeaderView {
    pub specs: Seq<FeatureSpec>,
    pub n_outputs: nat,
    pub named: bool,
    pub names: Seq<Seq<char>>,
    pub units: Seq<Option<Seq<char>>>,
    pub labels: Seq<Option<Seq<Seq<char>>>>,
    pub tokens: Seq<Lexeme>,
    pub at: int,
}

impl View for TnumHeader {
    type V = HeaderView;

    open spec fn view(&self) -> HeaderView {
        HeaderView {
            specs: self.specs@,
            n_outputs: self.n_outputs as nat,
            named: self.named is Some,
            names: match self.named {
                Some(f) => texts(f.names@),
                None => Seq::empty(),
            },
            units: match self.named {
                Some(f) => units_view(f.units@),
                None => Seq::empty(),
            },
            labels: match self.named {
                Some(f) => labels_view(f.labels@),
                None => Seq::empty(),
            },
            tokens: lexemes(self.tokens@),
            at: self.at as int,
        }
    }
}

/// The first fault of an input from `i` on: labels that are missing, or a
/// refusal.
pub open spec fn input_fault(h: HeaderView, rulings: SchemaRulings, i: int) -> Option<TnumError>
    decreases h.specs.len() - i,
{
    if i < 0 || i >= h.specs.len() {
        None
    } else {
        match h.specs[i] {
            FeatureSpec::Categorical { cardinality } => if h.labels[i] is None {
                Some(TnumError::MissingLevels { input: i as usize, cardinality })
            } else if rulings.refuses(i) {
                Some(TnumError::RefusedColumn { column: i as usize })
            } else {
                input_fault(h, rulings, i + 1)
            },
            FeatureSpec::Continuous => if rulings.refuses(i) {
                Some(TnumError::RefusedColumn { column: i as usize })
            } else {
                input_fault(h, rulings, i + 1)
            },
        }
    }
}

/// The first output from `j` on that is refused.
pub open spec fn output_fault(h: HeaderView, rulings: SchemaRulings, j: int) -> Option<TnumError>
    decreases h.n_outputs - j,
{
    if j < 0 || j >= h.n_outputs {
        None
    } else if rulings.refuses(h.specs.len() + j) {
        Some(TnumError::RefusedColumn { column: (h.specs.len() + j) as usize })
    } else {
        output_fault(h, rulings, j + 1)
    }
}

impl HeaderView {
    /// All columns have what the second version says of them.
    pub open spec fn wf(self) -> bool {
        &&& self.specs.len() + self.n_outputs <= usize::MAX
        &&& 0 <= self.at <= self.tokens.len()
        &&& self.named ==> {
            &&& self.names.len() == self.specs.len() + self.n_outputs
            &&& self.units.len() == self.specs.len() + self.n_outputs
            &&& self.labels.len() == self.specs.len()
        }
    }

    /// The schema that is declared, under the rules for columns and schemas.
    pub open spec fn schema(self, rulings: SchemaRulings) -> Result<SchemaView, TnumError> {
        if self.named {
            match input_fault(self, rulings, 0) {
                Some(e) => Err(e),
                None => match output_fault(self, rulings, 0) {
                    Some(e) => Err(e),
                    None => if rulings.schema is Err {
                        Err(TnumError::RefusedSchema)
                    } else {
                        Ok(
                            assembled(
                                self.specs,
                                self.n_outputs,
                                self.names,
                                self.units,
                                self.labels,
                            ),
                        )
                    },
                },
            }
        } else if rulings.schema is Err {
            Err(TnumError::RefusedSchema)
        } else {
            Ok(synthetic_schema(self.specs, self.n_outputs))
        }
    }

    /// What the whole file declares.
    pub open spec fn document(self, rulings: SchemaRulings) -> Result<DocumentView, TnumError> {
        match self.schema(rulings) {
            Err(e) => Err(e),
            Ok(schema) => declared(self.tokens, schema, self.at, self.specs.len() + self.n_outputs),
        }
    }
}

fn named_schema(
    header: Ghost<HeaderView>,
    specs: &Vec<FeatureSpec>,
    n_outputs: usize,
    fields: &NamedFields,
    rulings: &SchemaRulings,
) -> (out: Result<ModelSchema, TnumError>)
    requires
        header@.wf(),
        header@.named,
        header@.specs == specs@,
        header@.n_outputs == n_outputs,
        header@.names == texts(fields.names@),
        header@.units == units_view(fields.units@),
        header@.labels == labels_view(fields.labels@),
    ensures
        match out {
            Ok(schema) => header@.schema(*rulings) == Ok::<SchemaView, TnumError>(schema@),
            Err(e) => header@.schema(*rulings) == Err::<SchemaView, TnumError>(e),
        },
{
    let ghost h = header@;
    let n_inputs: usize = specs.len();
    let ghost goal = assembled(h.specs, h.n_outputs, h.names, h.units, h.labels);
    let mut inputs: Vec<Column> = Vec::new();
    while inputs.len() < n_inputs
        invariant
            inputs.len() <= n_inputs == specs.len() == fields.labels.len(),
            fields.names.len() == fields.units.len() == n_inputs + n_outputs,
            h == header@,
            h.wf(),
            h.named,
            h.specs == specs@,
            h.n_outputs == n_outputs,
            h.names == texts(fields.names@),
            h.units == units_view(fields.units@),
            h.labels == labels_view(fields.labels@),
            goal == assembled(h.specs, h.n_outputs, h.names, h.units, h.labels),
            input_fault(h, *rulings, inputs.len() as int) == input_fault(h, *rulings, 0),
            forall|k: int| 0 <= k < inputs.len() ==> (#[trigger] inputs@[k])@ == goal.inputs[k],
        decreases n_inputs - inputs.len(),
    {
        let i: usize = inputs.len();
        assert(h.names[i as int] == fields.names@[i as int]@);
        assert(h.units[i as int] == unit_view(fields.units@[i as int]));
        let built: Result<Column, String> = match specs[i] {
            FeatureSpec::Continuous => Column::numeric(
                fields.names[i].as_str(),
                ColumnRole::Input,
                rulings.column(i),
            ),
            FeatureSpec::Categorical { cardinality } => match &fields.labels[i] {
                Some(values) => {
                    assert(h.labels[i as int] == Some(texts(values@)));
                    Column::categorical(
                        fields.names[i].as_str(),
                        ColumnRole::Input,
                        copy_texts(values),
                        rulings.column(i),
                    )
                },
                None => {
                    assert(h.labels[i as int] is None);
                    return Err(TnumError::MissingLevels { input: i, cardinality });
                },
            },
        };
        let column: Column = match built {
            Ok(column) => column,
            Err(_) => {
                return Err(TnumError::RefusedColumn { column: i });
            },
        };
        inputs.push(
            match &fields.units[i] {
                Some(u) => column.with_unit(u.as_str()),
                None => column,
            },
        );
    }
    let mut outputs: Vec<Column> = Vec::new();
    while outputs.len() < n_outputs
        invariant
            outputs.len() <= n_outputs,
            n_inputs == specs.len(),
            fields.names.len() == fields.units.len() == n_inputs + n_outputs,
            h == header@,
            h.wf(),
            h.named,
            h.specs == specs@,
            h.n_outputs == n_outputs,
            h.names == texts(fields.names@),
            h.units == units_view(fields.units@),
            goal == assembled(h.specs, h.n_outputs, h.names, h.units, h.labels),
            input_fault(h, *rulings, 0) is None,
            output_fault(h, *rulings, outputs.len() as int) == output_fault(h, *rulings, 0),
            forall|k: int| 0 <= k < outputs.len() ==> (#[trigger] outputs@[k])@ == goal.outputs[k],
        decreases n_outputs - outputs.len(),
    {
        let k: usize = n_inputs + outputs.len();
        assert(h.names[k as int] == fields.names@[k as int]@);
        assert(h.units[k as int] == unit_view(fields.units@[k as int]));
        let column: Column = match Column::numeric(
            fields.names[k].as_str(),
            ColumnRole::Output,
            rulings.column(k),
        ) {
            Ok(column) => column,
            Err(_) => {
                return Err(TnumError::RefusedColumn { column: k });
            },
        };
        outputs.push(
            match &fields.units[k] {
                Some(u) => column.with_unit(u.as_str()),
                None => column,
            },
        );
    }
    match ModelSchema::new(inputs, outputs, copied_ruling(&rulings.schema)) {
        Ok(schema) => {
            assert(schema@.inputs =~= goal.inputs);
            assert(schema@.outputs =~= goal.outputs);
            Ok(schema)
        },
        Err(_) => Err(TnumError::RefusedSchema),
    }
}

/// The version, the numbers of columns and the feature types, and the
/// position behind them.
pub open spec fn preamble(toks: Seq<Lexeme>) -> Result<
    (bool, nat, Seq<FeatureSpec>, int),
    TnumError,
> {
    if toks.len() == 0 {
        Err(TnumError::Ended(What::Magic))
    } else if toks[0] != Lexeme::Bare("TRNUM1"@) && toks[0] != Lexeme::Bare("TRNUM2"@) {
        Err(TnumError::NotMagic { at: 0 })
    } else {
        match directive(toks, 1, What::Inputs) {
            Err(e) => Err(e),
            Ok(i1) => match number(toks, i1, What::InputCount) {
                Err(e) => Err(e),
                Ok(n_in) => match directive(toks, n_in.1, What::Outputs) {
                    Err(e) => Err(e),
                    Ok(i2) => match number(toks, i2, What::OutputCount) {
                        Err(e) => Err(e),
                        Ok(n_out) => if n_in.0 + n_out.0 > usize::MAX {
                            Err(TnumError::TooManyColumns)
                        } else {
                            match directive(toks, n_out.1, What::Specs) {
                                Err(e) => Err(e),
                                Ok(i3) => match types_from(toks, i3, Seq::empty(), n_in.0) {
                                    Err(e) => Err(e),
                                    Ok(specs) => Ok(
                                        (
                                            toks[0] == Lexeme::Bare("TRNUM2"@),
                                            n_out.0,
                                            specs.0,
                                            specs.1,
                                        ),
                                    ),
                                },
                            }
                        },
                    },
                },
            },
        }
    }
}

/// The number of rows and the position of the first value. What follows
/// must be exactly the declared number of values.
pub open spec fn row_count(toks: Seq<Lexeme>, i: int, columns: nat) -> Result<
    (nat, int),
    TnumError,
> {
    match directive(toks, i, What::Rows) {
        Err(e) => Err(e),
        Ok(i1) => match number(toks, i1, What::RowCount) {
            Err(e) => Err(e),
            Ok(rows) => match directive(toks, rows.1, What::Data) {
                Err(e) => Err(e),
                Ok(i2) => if rows.0 * columns > usize::MAX {
                    Err(TnumError::TooManyValues)
                } else if toks.len() - i2 != rows.0 * columns {
                    Err(
                        TnumError::ValueCount {
                            expected: (rows.0 * columns) as usize,
                            rows: rows.0 as usize,
                            columns: columns as usize,
                            found: (toks.len() - i2) as usize,
                        },
                    )
                } else {
                    Ok((rows.0, i2))
                },
            },
        },
    }
}

/// A file whose values are not numbers yet.
pub struct TnumDocument {
    pub schema: ModelSchema,
    pub rows: usize,
    pub tokens: Vec<Token>,
    /// The number of the token that holds the first value.
    pub at: usize,
}

/// What a file declares.
pub struct DocumentView {
    pub schema: SchemaView,
    pub rows: nat,
    pub tokens: Seq<Lexeme>,
    pub at: int,
}

impl View for TnumDocument {
    type V = DocumentView;

    open spec fn view(&self) -> DocumentView {
        DocumentView {
            schema: self.schema@,
            rows: self.rows as nat,
            tokens: lexemes(self.tokens@),
            at: self.at as int,
        }
    }
}

impl DocumentView {
    pub open spec fn columns(self) -> nat {
        self.schema.inputs.len() + self.schema.outputs.len()
    }

    /// The declared number of value tokens is what the file holds.
    pub open spec fn wf(self) -> bool {
        &&& 0 <= self.at <= self.tokens.len()
        &&& self.columns() <= usize::MAX
        &&& self.tokens.len() - self.at == self.rows * self.columns()
    }

    /// The tokens of the values, row by row, the inputs of a row first.
    pub open spec fn values(self) -> Seq<Lexeme> {
        self.tokens.skip(self.at)
    }
}

pub open spec fn declared(
    toks: Seq<Lexeme>,
    schema: SchemaView,
    i: int,
    columns: nat,
) -> Result<DocumentView, TnumError> {
    match row_count(toks, i, columns) {
        Err(e) => Err(e),
        Ok(rows) => Ok(DocumentView { schema, rows: rows.0, tokens: toks, at: rows.1 }),
    }
}

/// The header of a list of tokens, or the first fault in it.
pub open spec fn header_of(toks: Seq<Lexeme>) -> Result<HeaderView, TnumError> {
    match preamble(toks) {
        Err(e) => Err(e),
        Ok((named, n_outputs, specs, i)) => if named {
            match named_fields(toks, i, specs, n_outputs) {
                Err(e) => Err(e),
                Ok((names, units, labels, at)) => Ok(
                    HeaderView { specs, n_outputs, named, names, units, labels, tokens: toks, at },
                ),
            }
        } else {
            Ok(
                HeaderView {
                    specs,
                    n_outputs,
                    named,
                    names: Seq::empty(),
                    units: Seq::empty(),
                    labels: Seq::empty(),
                    tokens: toks,
                    at: i,
                },
            )
        },
    }
}

/// The header of a text, or the first fault in it.
pub open spec fn header(text: Seq<char>) -> Result<HeaderView, TnumError> {
    match tokens_of(text) {
        Err((line, fault)) => Err(TnumError::Lex { line: line as usize, fault }),
        Ok(toks) => header_of(toks),
    }
}

/// What a text declares under the rules for columns and schemas, or the first
/// fault in it.
pub open spec fn document(text: Seq<char>, rulings: SchemaRulings) -> Result<
    DocumentView,
    TnumError,
> {
    match header(text) {
        Err(e) => Err(e),
        Ok(h) => h.document(rulings),
    }
}

/// A refused file: what is wrong, and the tokens that the error points into.
pub struct TnumFailure {
    pub error: TnumError,
    pub tokens: Vec<Token>,
}

fn read_preamble(c: &mut Cursor<'_>) -> (out: Result<(bool, usize, Vec<FeatureSpec>), TnumError>)
    requires
        old(c).wf(),
        old(c).i == 0,
    ensures
        final(c).wf(),
        final(c).tokens == old(c).tokens,
        match out {
            Ok((named, n_outputs, specs)) => preamble(old(c).toks()) == Ok::<
                (bool, nat, Seq<FeatureSpec>, int),
                TnumError,
            >((named, n_outputs as nat, specs@, final(c).i as int)) && specs.len() + n_outputs
                <= usize::MAX,
            Err(e) => preamble(old(c).toks()) == Err::<
                (bool, nat, Seq<FeatureSpec>, int),
                TnumError,
            >(e),
        },
{
    proof {
        reveal_strlit("TRNUM1");
        reveal_strlit("TRNUM2");
        assert("TRNUM1"@[5] != "TRNUM2"@[5]);
    }
    let named: bool = match c.next_token(What::Magic)? {
        Token::Bare(s) => if same(s.as_str(), "TRNUM1") {
            false
        } else if same(s.as_str(), "TRNUM2") {
            true
        } else {
            return Err(TnumError::NotMagic { at: 0 });
        },
        Token::Quoted(_) => {
            return Err(TnumError::NotMagic { at: 0 });
        },
    };
    c.expect_bare(What::Inputs)?;
    let n_inputs: usize = c.next_usize(What::InputCount)?;
    c.expect_bare(What::Outputs)?;
    let n_outputs: usize = c.next_usize(What::OutputCount)?;
    if n_inputs.checked_add(n_outputs).is_none() {
        return Err(TnumError::TooManyColumns);
    }
    c.expect_bare(What::Specs)?;
    let specs: Vec<FeatureSpec> = read_types(c, n_inputs)?;
    Ok((named, n_outputs, specs))
}

fn read_row_count(c: &mut Cursor<'_>, columns: usize) -> (out: Result<usize, TnumError>)
    requires
        old(c).wf(),
    ensures
        final(c).wf(),
        final(c).tokens == old(c).tokens,
        match out {
            Ok(rows) => row_count(old(c).toks(), old(c).i as int, columns as nat) == Ok::<
                (nat, int),
                TnumError,
            >((rows as nat, final(c).i as int)),
            Err(e) => row_count(old(c).toks(), old(c).i as int, columns as nat) == Err::<
                (nat, int),
                TnumError,
            >(e),
        },
{
    c.expect_bare(What::Rows)?;
    let rows: usize = c.next_usize(What::RowCount)?;
    c.expect_bare(What::Data)?;
    match rows.checked_mul(columns) {
        None => Err(TnumError::TooManyValues),
        Some(expected) => {
            let found: usize = c.remaining();
            if found != expected {
                Err(TnumError::ValueCount { expected, rows, columns, found })
            } else {
                Ok(rows)
            }
        },
    }
}

fn read_columns(tokens: &Vec<Token>) -> (out: Result<
    (Vec<FeatureSpec>, usize, Option<NamedFields>, usize),
    TnumError,
>)
    ensures
        match out {
            Ok((specs, n_outputs, named, at)) => header_of(lexemes(tokens@)) == Ok::<
                HeaderView,
                TnumError,
            >(
                HeaderView {
                    specs: specs@,
                    n_outputs: n_outputs as nat,
                    named: named is Some,
                    names: match named {
                        Some(f) => texts(f.names@),
                        None => Seq::empty(),
                    },
                    units: match named {
                        Some(f) => units_view(f.units@),
                        None => Seq::empty(),
                    },
                    labels: match named {
                        Some(f) => labels_view(f.labels@),
                        None => Seq::empty(),
                    },
                    tokens: lexemes(tokens@),
                    at: at as int,
                },
            ) && specs.len() + n_outputs <= usize::MAX && (named matches Some(f) ==> {
                &&& f.names@.len() == specs.len() + n_outputs
                &&& f.units@.len() == specs.len() + n_outputs
                &&& f.labels@.len() == specs.len()
            }) && at <= tokens@.len(),
            Err(e) => header_of(lexemes(tokens@)) == Err::<HeaderView, TnumError>(e),
        },
{
    let mut c = Cursor { tokens, i: 0 };
    let (named, n_outputs, specs): (bool, usize, Vec<FeatureSpec>) = read_preamble(&mut c)?;
    let fields: Option<NamedFields> = if named {
        Some(read_v2_fields(&mut c, &specs, n_outputs)?)
    } else {
        None
    };
    Ok((specs, n_outputs, fields, c.i))
}

/// A document declares exactly the values it holds.
pub proof fn lemma_document_wf(h: HeaderView, rulings: SchemaRulings)
    requires
        h.wf(),
    ensures
        h.document(rulings) matches Ok(d) ==> d.wf() && d.tokens == h.tokens,
{
}

/// Reads the columns that a `.tnum` text declares.
pub fn read_header(text: &str) -> (out: Result<TnumHeader, TnumFailure>)
    ensures
        match out {
            Ok(h) => header(text@) == Ok::<HeaderView, TnumError>(h@) && h@.wf(),
            Err(f) => header(text@) == Err::<HeaderView, TnumError>(f.error),
        },
{
    match tokenize(text) {
        Err((line, fault)) => Err(
            TnumFailure { error: TnumError::Lex { line, fault }, tokens: Vec::new() },
        ),
        Ok(tokens) => match read_columns(&tokens) {
            Err(error) => Err(TnumFailure { error, tokens }),
            Ok((specs, n_outputs, named, at)) => Ok(
                TnumHeader { specs, n_outputs, named, tokens, at },
            ),
        },
    }
}

impl TnumHeader {
    fn schema(&self, rulings: &SchemaRulings) -> (out: Result<ModelSchema, TnumError>)
        requires
            self@.wf(),
        ensures
            match out {
                Ok(schema) => self@.schema(*rulings) == Ok::<SchemaView, TnumError>(schema@),
                Err(e) => self@.schema(*rulings) == Err::<SchemaView, TnumError>(e),
            },
    {
        match &self.named {
            Some(fields) => named_schema(
                Ghost(self@),
                &self.specs,
                self.n_outputs,
                fields,
                rulings,
            ),
            None => match ModelSchema::synthetic_from_specs(
                &self.specs,
                self.n_outputs,
                copied_ruling(&rulings.schema),
            ) {
                Ok(schema) => Ok(schema),
                Err(_) => Err(TnumError::RefusedSchema),
            },
        }
    }

    fn row_count(&self) -> (out: Result<(usize, usize), TnumError>)
        requires
            self@.wf(),
        ensures
            match out {
                Ok((rows, at)) => row_count(
                    self@.tokens,
                    self@.at,
                    self@.specs.len() + self@.n_outputs,
                ) == Ok::<(nat, int), TnumError>((rows as nat, at as int)),
                Err(e) => row_count(self@.tokens, self@.at, self@.specs.len() + self@.n_outputs)
                    == Err::<(nat, int), TnumError>(e),
            },
    {
        let mut c = Cursor { tokens: &self.tokens, i: self.at };
        let rows: usize = read_row_count(&mut c, self.specs.len() + self.n_outputs)?;
        Ok((rows, c.i))
    }

    /// Reads the rest of the text but its numbers, once the rules for columns
    /// and schemas have been asked.
    pub fn document(self, rulings: &SchemaRulings) -> (out: Result<TnumDocument, TnumFailure>)
        requires
            self@.wf(),
        ensures
            match out {
                Ok(d) => self@.document(*rulings) == Ok::<DocumentView, TnumError>(d@) && d@.wf(),
                Err(f) => self@.document(*rulings) == Err::<DocumentView, TnumError>(f.error)
                    && f.tokens == self.tokens,
            },
    {
        proof {
            lemma_document_wf(self@, *rulings);
        }
        match self.schema(rulings) {
            Err(error) => Err(TnumFailure { error, tokens: self.tokens }),
            Ok(schema) => match self.row_count() {
                Err(error) => Err(TnumFailure { error, tokens: self.tokens }),
                Ok((rows, at)) => Ok(TnumDocument { schema, rows, tokens: self.tokens, at }),
            },
        }
    }
}

/// Reads everything of a `.tnum` text but its numbers: the schema, the number
/// of rows and the tokens of the values.
pub fn parse_numeric_tnum(text: &str, rulings: &SchemaRulings) -> (out: Result<
    TnumDocument,
    TnumFailure,
>)
    ensures
        match out {
            Ok(d) => document(text@, *rulings) == Ok::<DocumentView, TnumError>(d@) && d@.wf(),
            Err(f) => document(text@, *rulings) == Err::<DocumentView, TnumError>(f.error),
        },
{
    match read_header(text) {
        Err(f) => Err(f),
        Ok(h) => h.document(rulings),
    }
}

/// A feature type is read in any case of its letters: `c` and `continuous` are
/// the continuous one, `k:` or `categorical:` and a number the categorical one
/// of that many codes, and nothing else is a type.
pub proof fn law_feature_types_are_spelled_out(s: Seq<char>)
    ensures
        ({
            let l = lowered(s);
            match feature_type(s) {
                Ok(FeatureSpec::Continuous) => l == "c"@ || l == "continuous"@,
                Ok(FeatureSpec::Categorical { cardinality }) => exists|count: Seq<char>|
                    {
                        &&& (l == "k:"@ + count || l == "categorical:"@ + count)
                        &&& #[trigger] parsed(count, usize::MAX as nat) == Some(cardinality as nat)
                    },
                Err(TypeFault::BadCardinality) => exists|count: Seq<char>|
                    {
                        &&& (l == "k:"@ + count || l == "categorical:"@ + count)
                        &&& #[trigger] parsed(count, usize::MAX as nat) is None
                    },
                Err(TypeFault::UnknownType) => l != "c"@ && l != "continuous"@ && forall|
                    count: Seq<char>,
                |
                    l != #[trigger] ("k:"@ + count) && l != "categorical:"@ + count,
            }
        }),
{
    let l = lowered(s);
    let k = "k:"@;
    let c = "categorical:"@;
    if l == "c"@ || l == "continuous"@ {
    } else if starts(l, k) {
        let count = l.skip(k.len() as int);
        assert(l =~= k + count);
        assert(parsed(count, usize::MAX as nat) is Some || parsed(
            count,
            usize::MAX as nat,
        ) is None);
    } else if starts(l, c) {
        let count = l.skip(c.len() as int);
        assert(l =~= c + count);
        assert(parsed(count, usize::MAX as nat) is Some || parsed(
            count,
            usize::MAX as nat,
        ) is None);
    } else {
        assert forall|count: Seq<char>| l != #[trigger] (k + count) && l != c + count by {
            if l == k + count {
                assert(l.take(k.len() as int) =~= k);
            }
            if l == c + count {
                assert(l.take(c.len() as int) =~= c);
            }
        }
    }
}

/// Is this a bare token that spells the feature type?
pub open spec fn spells_type(tok: Lexeme, spec: FeatureSpec) -> bool {
    tok matches Lexeme::Bare(s) && feature_type(s) == Ok::<FeatureSpec, TypeFault>(spec)
}

/// Is this a bare token that spells a feature type at all?
pub open spec fn spells_a_type(tok: Lexeme) -> bool {
    tok matches Lexeme::Bare(s) && feature_type(s) is Ok
}

proof fn lemma_types_read(toks: Seq<Lexeme>, i: int, read: Seq<FeatureSpec>, n: nat) -> (bad: int)
    requires
        0 <= i,
        read.len() <= n,
    ensures
        match types_from(toks, i, read, n) {
            Ok((specs, j)) => {
                &&& specs.len() == n
                &&& j == i + n - read.len()
                &&& j <= toks.len() || read.len() == n
                &&& forall|k: int| 0 <= k < read.len() ==> specs[k] == #[trigger] read[k]
                &&& forall|k: int|
                    read.len() <= k < n ==> spells_type(
                        toks[i + k - read.len()],
                        #[trigger] specs[k],
                    )
            },
            Err(_) => i <= bad < i + n - read.len() && (bad >= toks.len() || !spells_a_type(
                toks[bad],
            )),
        },
    decreases n - read.len(),
{
    if read.len() < n {
        if i >= toks.len() || !spells_a_type(toks[i]) {
            i
        } else {
            let t = feature_type(toks[i]->Bare_0)->Ok_0;
            let more = read.push(t);
            let bad = lemma_types_read(toks, i + 1, more, n);
            assert(types_from(toks, i, read, n) == types_from(toks, i + 1, more, n));
            if let Ok((specs, j)) = types_from(toks, i + 1, more, n) {
                assert(specs[read.len() as int] == more[read.len() as int]);
                assert(spells_type(toks[i], t));
                assert forall|k: int| 0 <= k < read.len() implies specs[k] == #[trigger] read[k] by {
                    assert(specs[k] == more[k]);
                }
                assert forall|k: int| read.len() <= k < n implies spells_type(
                    toks[i + k - read.len()],
                    #[trigger] specs[k],
                ) by {
                    if k > read.len() {
                        assert(spells_type(toks[i + 1 + k - more.len()], specs[k]));
                    }
                }
            }
            bad
        }
    } else {
        i
    }
}

/// The feature types of a file are its next tokens, one for each input and in
/// their order; a token that is missing, quoted or no type is refused. `bad`
/// is the place of such a token.
pub proof fn law_types_are_the_next_tokens(toks: Seq<Lexeme>, i: int, n: nat) -> (bad: int)
    requires
        0 <= i <= toks.len(),
    ensures
        match types_from(toks, i, Seq::empty(), n) {
            Ok((specs, j)) => {
                &&& specs.len() == n
                &&& j == i + n
                &&& j <= toks.len()
                &&& forall|k: int| 0 <= k < n ==> spells_type(toks[i + k], #[trigger] specs[k])
            },
            Err(_) => i <= bad < i + n && (bad >= toks.len() || !spells_a_type(toks[bad])),
        },
{
    let bad = lemma_types_read(toks, i, Seq::empty(), n);
    if let Ok((specs, j)) = types_from(toks, i, Seq::empty(), n) {
        assert forall|k: int| 0 <= k < n implies spells_type(toks[i + k], #[trigger] specs[k]) by {
            assert(spells_type(toks[i + k - 0], specs[k]));
        }
    }
    bad
}

proof fn lemma_names_read(toks: Seq<Lexeme>, i: int, read: Seq<Seq<char>>, n: nat)
    requires
        0 <= i,
        read.len() <= n,
    ensures
        match names_from(toks, i, read, n) {
            Ok((names, j)) => {
                &&& names.len() == n
                &&& j == i + n - read.len()
                &&& j <= toks.len() || read.len() == n
                &&& forall|k: int| 0 <= k < read.len() ==> names[k] == #[trigger] read[k]
                &&& forall|k: int|
                    read.len() <= k < n ==> toks[i + k - read.len()] == Lexeme::Quoted(
                        #[trigger] names[k],
                    )
            },
            Err(_) => exists|k: int|
                i <= k < i + n - read.len() && (k >= toks.len() || (#[trigger] toks[k]) is Bare),
        },
    decreases n - read.len(),
{
    if read.len() < n {
        if i >= toks.len() || toks[i] is Bare {
            assert(i >= toks.len() || toks[i] is Bare);
        } else {
            let s = toks[i]->Quoted_0;
            lemma_names_read(toks, i + 1, read.push(s), n);
            match names_from(toks, i, read, n) {
                Ok((names, j)) => {
                    assert(names[read.len() as int] == read.push(s)[read.len() as int]);
                    assert forall|k: int| 0 <= k < read.len() implies names[k]
                        == #[trigger] read[k] by {
                        assert(names[k] == read.push(s)[k]);
                    }
                },
                Err(_) => {},
            }
        }
    }
}

/// The names of the columns are the next tokens, each of them quoted, one for
/// each column and in their order; a token that is missing or bare is refused.
pub proof fn law_names_are_the_next_quoted_tokens(toks: Seq<Lexeme>, i: int, n: nat)
    requires
        0 <= i <= toks.len(),
    ensures
        match names_from(toks, i, Seq::empty(), n) {
            Ok((names, j)) => {
                &&& names.len() == n
                &&& j == i + n
                &&& j <= toks.len()
                &&& forall|k: int|
                    0 <= k < n ==> toks[i + k] == Lexeme::Quoted(#[trigger] names[k])
            },
            Err(_) => exists|k: int|
                i <= k < i + n && (k >= toks.len() || (#[trigger] toks[k]) is Bare),
        },
{
    lemma_names_read(toks, i, Seq::empty(), n);
}

proof fn lemma_labels_read(
    toks: Seq<Lexeme>,
    i: int,
    read: Seq<Seq<char>>,
    n: nat,
    input: usize,
)
    requires
        0 <= i,
        read.len() <= n,
    ensures
        match labels_from(toks, i, read, n, input) {
            Ok((labels, j)) => {
                &&& labels.len() == n
                &&& j == i + n - read.len()
                &&& j <= toks.len() || read.len() == n
                &&& forall|k: int| 0 <= k < read.len() ==> labels[k] == #[trigger] read[k]
                &&& forall|k: int|
                    read.len() <= k < n ==> toks[i + k - read.len()] == Lexeme::Quoted(
                        #[trigger] labels[k],
                    )
            },
            Err(_) => exists|k: int|
                i <= k < i + n - read.len() && (k >= toks.len() || (#[trigger] toks[k]) is Bare),
        },
    decreases n - read.len(),
{
    if read.len() < n {
        if i >= toks.len() || toks[i] is Bare {
            assert(i >= toks.len() || toks[i] is Bare);
        } else {
            let s = toks[i]->Quoted_0;
            lemma_labels_read(toks, i + 1, read.push(s), n, input);
            match labels_from(toks, i, read, n, input) {
                Ok((labels, j)) => {
                    assert(labels[read.len() as int] == read.push(s)[read.len() as int]);
                    assert forall|k: int| 0 <= k < read.len() implies labels[k]
                        == #[trigger] read[k] by {
                        assert(labels[k] == read.push(s)[k]);
                    }
                },
                Err(_) => {},
            }
        }
    }
}

/// The labels of a category are the next tokens, each of them quoted, one for
/// each code and in their order.
pub proof fn law_labels_are_the_next_quoted_tokens(
    toks: Seq<Lexeme>,
    i: int,
    n: nat,
    input: usize,
)
    requires
        0 <= i <= toks.len(),
    ensures
        match labels_from(toks, i, Seq::empty(), n, input) {
            Ok((labels, j)) => {
                &&& labels.len() == n
                &&& j == i + n
                &&& j <= toks.len()
                &&& forall|k: int|
                    0 <= k < n ==> toks[i + k] == Lexeme::Quoted(#[trigger] labels[k])
            },
            Err(_) => exists|k: int|
                i <= k < i + n && (k >= toks.len() || (#[trigger] toks[k]) is Bare),
        },
{
    lemma_labels_read(toks, i, Seq::empty(), n, input);
}

proof fn lemma_units_read(toks: Seq<Lexeme>, i: int, read: Seq<Option<Seq<char>>>, n: nat)
    requires
        0 <= i,
        read.len() <= n,
    ensures
        match units_from(toks, i, read, n) {
            Ok((units, j)) => {
                &&& units.len() == n
                &&& j == i + n - read.len()
                &&& j <= toks.len() || read.len() == n
                &&& forall|k: int| 0 <= k < read.len() ==> units[k] == #[trigger] read[k]
                &&& forall|k: int|
                    read.len() <= k < n ==> match #[trigger] units[k] {
                        Some(u) => toks[i + k - read.len()] == Lexeme::Quoted(u) && !blank(u),
                        None => toks[i + k - read.len()] == Lexeme::Bare("-"@),
                    }
            },
            Err(_) => exists|k: int|
                i <= k < i + n - read.len() && (k >= toks.len() || match #[trigger] toks[k] {
                    Lexeme::Quoted(u) => blank(u),
                    Lexeme::Bare(w) => w != "-"@,
                }),
        },
    decreases n - read.len(),
{
    if read.len() < n {
        match unit_at(toks, i) {
            Err(_) => {
                assert(i >= toks.len() || match toks[i] {
                    Lexeme::Quoted(u) => blank(u),
                    Lexeme::Bare(w) => w != "-"@,
                });
            },
            Ok(unit) => {
                lemma_units_read(toks, i + 1, read.push(unit), n);
                match units_from(toks, i, read, n) {
                    Ok((units, j)) => {
                        assert(units[read.len() as int] == read.push(unit)[read.len() as int]);
                        assert forall|k: int| 0 <= k < read.len() implies units[k]
                            == #[trigger] read[k] by {
                            assert(units[k] == read.push(unit)[k]);
                        }
                    },
                    Err(_) => {},
                }
            },
        }
    }
}

/// The line of the units names one for each column, in their order: a quoted
/// text that is not blank, or `-` for none. Without the line there are none.
pub proof fn law_units_are_named_or_absent(toks: Seq<Lexeme>, i: int, n: nat)
    requires
        0 <= i <= toks.len(),
    ensures
        ({
            let there = i < toks.len() && toks[i] == Lexeme::Bare("units"@);
            match units_line(toks, i, n) {
                Ok((units, j)) => {
                    &&& units.len() == n
                    &&& j == if there {
                        i + 1 + n
                    } else {
                        i
                    }
                    &&& j <= toks.len()
                    &&& forall|k: int|
                        0 <= k < n ==> match #[trigger] units[k] {
                            Some(u) => there && toks[i + 1 + k] == Lexeme::Quoted(u) && !blank(u),
                            None => there ==> toks[i + 1 + k] == Lexeme::Bare("-"@),
                        }
                },
                Err(_) => there && exists|k: int|
                    i < k < i + 1 + n && (k >= toks.len() || match #[trigger] toks[k] {
                        Lexeme::Quoted(u) => blank(u),
                        Lexeme::Bare(w) => w != "-"@,
                    }),
            }
        }),
{
    if i < toks.len() && toks[i] == Lexeme::Bare("units"@) {
        lemma_units_read(toks, i + 1, Seq::empty(), n);
    }
}

proof fn lemma_sections(
    toks: Seq<Lexeme>,
    i: int,
    specs: Seq<FeatureSpec>,
    read: Seq<Option<Seq<Seq<char>>>>,
)
    requires
        0 <= i <= toks.len(),
        read.len() == specs.len(),
        forall|k: int|
            0 <= k < specs.len() ==> (#[trigger] read[k] matches Some(labels)
                ==> specs[k] matches FeatureSpec::Categorical { cardinality } && labels.len()
                == cardinality),
    ensures
        sections_from(toks, i, specs, read) matches Ok((labels, j)) ==> {
            &&& labels.len() == specs.len()
            &&& i <= j <= toks.len()
            &&& j < toks.len() ==> toks[j] != Lexeme::Bare("levels"@)
            &&& forall|k: int| 0 <= k < specs.len() && #[trigger] read[k] is Some ==> labels[k]
                == read[k]
            &&& forall|k: int|
                0 <= k < specs.len() ==> (#[trigger] labels[k] matches Some(of)
                    ==> specs[k] matches FeatureSpec::Categorical { cardinality } && of.len()
                    == cardinality)
        },
    decreases toks.len() - i,
{
    if i < toks.len() && toks[i] == Lexeme::Bare("levels"@) {
        if let Ok(at) = number(toks, i + 1, What::LevelsIndex) {
            if at.0 < specs.len() {
                if let FeatureSpec::Categorical { cardinality } = specs[at.0 as int] {
                    if read[at.0 as int] is None {
                        lemma_labels_move(
                            toks,
                            at.1,
                            Seq::empty(),
                            cardinality as nat,
                            at.0 as usize,
                        );
                        lemma_labels_read(
                            toks,
                            at.1,
                            Seq::empty(),
                            cardinality as nat,
                            at.0 as usize,
                        );
                        if let Ok(found) = labels_from(
                            toks,
                            at.1,
                            Seq::empty(),
                            cardinality as nat,
                            at.0 as usize,
                        ) {
                            lemma_sections(
                                toks,
                                found.1,
                                specs,
                                read.update(at.0 as int, Some(found.0)),
                            );
                            let next = read.update(at.0 as int, Some(found.0));
                            if let Ok((labels, j)) = sections_from(toks, i, specs, read) {
                                assert forall|k: int|
                                    0 <= k < specs.len() && #[trigger] read[k] is Some implies
                                    labels[k] == read[k] by {
                                    assert(next[k] == read[k]);
                                }
                            }
                        }
                    }
                }
            }
        }
    }
}

/// Labels are read for categories only, one for each code, and once for each
/// category: what was read is never replaced.
pub proof fn law_levels_belong_to_categories(toks: Seq<Lexeme>, i: int, specs: Seq<FeatureSpec>)
    requires
        0 <= i <= toks.len(),
    ensures
        sections_from(toks, i, specs, no_labels(specs.len())) matches Ok((labels, j)) ==> {
            &&& labels.len() == specs.len()
            &&& i <= j <= toks.len()
            &&& j < toks.len() ==> toks[j] != Lexeme::Bare("levels"@)
            &&& forall|k: int|
                0 <= k < specs.len() ==> (#[trigger] labels[k] matches Some(of)
                    ==> specs[k] matches FeatureSpec::Categorical { cardinality } && of.len()
                    == cardinality)
        },
{
    lemma_sections(toks, i, specs, no_labels(specs.len()));
}

/// A section of labels is refused if its input does not exist, is no
/// category, or has labels already.
pub proof fn law_a_section_is_read_once(
    toks: Seq<Lexeme>,
    i: int,
    specs: Seq<FeatureSpec>,
    read: Seq<Option<Seq<Seq<char>>>>,
    input: nat,
    next: int,
)
    requires
        0 <= i < toks.len(),
        toks[i] == Lexeme::Bare("levels"@),
        number(toks, i + 1, What::LevelsIndex) == Ok::<(nat, int), TnumError>((input, next)),
        read.len() == specs.len(),
        input >= specs.len() || specs[input as int] is Continuous || read[input as int] is Some,
    ensures
        sections_from(toks, i, specs, read) is Err,
{
}

proof fn lemma_input_fault(h: HeaderView, rulings: SchemaRulings, i: int)
    requires
        0 <= i <= h.specs.len(),
    ensures
        input_fault(h, rulings, i) is None <==> forall|k: int|
            i <= k < h.specs.len() ==> (#[trigger] h.specs[k] is Categorical
                ==> h.labels[k] is Some) && !rulings.refuses(k),
    decreases h.specs.len() - i,
{
    if i < h.specs.len() {
        lemma_input_fault(h, rulings, i + 1);
        if input_fault(h, rulings, i) is Some && input_fault(h, rulings, i + 1) is None {
            assert(h.specs[i] is Categorical || h.specs[i] is Continuous);
        }
    }
}

proof fn lemma_output_fault(h: HeaderView, rulings: SchemaRulings, j: int)
    requires
        0 <= j <= h.n_outputs,
    ensures
        output_fault(h, rulings, j) is None <==> forall|k: int|
            j <= k < h.n_outputs ==> !(#[trigger] rulings.refuses(h.specs.len() + k)),
    decreases h.n_outputs - j,
{
    if j < h.n_outputs {
        lemma_output_fault(h, rulings, j + 1);
    }
}

/// A header of the second version declares a schema exactly if every category
/// has its labels and the rules refuse neither a column nor the whole. The
/// schema then has the declared names, units and labels, in their order.
pub proof fn law_a_schema_is_what_the_header_says(h: HeaderView, rulings: SchemaRulings)
    requires
        h.wf(),
        h.named,
    ensures
        h.schema(rulings) is Ok <==> {
            &&& forall|k: int|
                0 <= k < h.specs.len() ==> (#[trigger] h.specs[k] is Categorical
                    ==> h.labels[k] is Some) && !rulings.refuses(k)
            &&& forall|k: int|
                0 <= k < h.n_outputs ==> !(#[trigger] rulings.refuses(h.specs.len() + k))
            &&& rulings.schema is Ok
        },
        h.schema(rulings) matches Ok(schema) ==> {
            &&& schema.inputs.len() == h.specs.len()
            &&& schema.outputs.len() == h.n_outputs
            &&& forall|k: int|
                #![trigger schema.inputs[k]]
                0 <= k < h.specs.len() ==> {
                    &&& schema.inputs[k].name == h.names[k]
                    &&& schema.inputs[k].unit == h.units[k]
                    &&& schema.inputs[k].role is Input
                    &&& schema.inputs[k].levels == if h.specs[k] is Categorical {
                        h.labels[k]
                    } else {
                        None
                    }
                }
            &&& forall|k: int|
                #![trigger schema.outputs[k]]
                0 <= k < h.n_outputs ==> {
                    &&& schema.outputs[k].name == h.names[h.specs.len() + k]
                    &&& schema.outputs[k].unit == h.units[h.specs.len() + k]
                    &&& schema.outputs[k].role is Output
                    &&& schema.outputs[k].levels is None
                }
        },
{
    lemma_input_fault(h, rulings, 0);
    lemma_output_fault(h, rulings, 0);
}

/// The values follow `rows`, their number and `data`, and there are exactly as
/// many as the rows and the columns call for.
pub proof fn law_a_file_holds_the_declared_values(toks: Seq<Lexeme>, i: int, columns: nat)
    requires
        0 <= i <= toks.len(),
    ensures
        match row_count(toks, i, columns) {
            Ok((rows, at)) => {
                &&& at == i + 3
                &&& at <= toks.len()
                &&& toks[i] == Lexeme::Bare("rows"@)
                &&& toks[i + 1] matches Lexeme::Bare(s) && parsed(s, usize::MAX as nat) == Some(
                    rows,
                )
                &&& toks[i + 2] == Lexeme::Bare("data"@)
                &&& toks.len() - at == rows * columns
                &&& rows * columns <= usize::MAX
            },
            Err(_) => {
                ||| i + 3 > toks.len()
                ||| toks[i] != Lexeme::Bare("rows"@)
                ||| toks[i + 2] != Lexeme::Bare("data"@)
                ||| match toks[i + 1] {
                    Lexeme::Quoted(_) => true,
                    Lexeme::Bare(s) => match parsed(s, usize::MAX as nat) {
                        None => true,
                        Some(rows) => toks.len() - (i + 3) != rows * columns || rows * columns
                            > usize::MAX,
                    },
                }
            },
        },
{
}

/// A file begins with the version, the numbers of its inputs and outputs and
/// the types of the inputs.
pub proof fn law_a_file_begins_with_its_columns(toks: Seq<Lexeme>)
    requires
        preamble(toks) is Ok,
    ensures
        ({
            let (named, n_outputs, specs, at) = preamble(toks)->Ok_0;
            &&& toks[0] == if named {
                Lexeme::Bare("TRNUM2"@)
            } else {
                Lexeme::Bare("TRNUM1"@)
            }
            &&& toks[1] == Lexeme::Bare("inputs"@)
            &&& toks[2] matches Lexeme::Bare(s) && parsed(s, usize::MAX as nat) == Some(
                specs.len(),
            )
            &&& toks[3] == Lexeme::Bare("outputs"@)
            &&& toks[4] matches Lexeme::Bare(s) && parsed(s, usize::MAX as nat) == Some(n_outputs)
            &&& toks[5] == Lexeme::Bare("specs"@)
            &&& at == 6 + specs.len()
            &&& at <= toks.len()
            &&& specs.len() + n_outputs <= usize::MAX
        }),
{
    reveal_strlit("TRNUM1");
    reveal_strlit("TRNUM2");
    let n = number(toks, 2, What::InputCount)->Ok_0.0;
    let _ = lemma_types_read(toks, 6, Seq::empty(), n);
}

} // verus!
