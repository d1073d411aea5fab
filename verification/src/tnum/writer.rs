//! Writing a dataset with its schema in the second version of the format.

use crate::data::NumericDataset;
use crate::encoders::FeatureSpec;
use crate::schema::{Column, ColumnType, ColumnView, ModelSchema, SchemaView};
use crate::text::{chars_of, decimal, decimal_text, join, joined, owned, texts};
use crate::tnum::values::{data_fault, validate_numeric_tnum, DataFault};
use vstd::prelude::*;
use vstd::string::StringExecFns;

verus! {

/// How a character stands inside quotes.
pub open spec fn escaped_char(c: char) -> Seq<char> {
    if c == '\\' {
        seq!['\\', '\\']
    } else if c == '"' {
        seq!['\\', '"']
    } else if c == '\n' {
        seq!['\\', 'n']
    } else if c == '\r' {
        seq!['\\', 'r']
    } else if c == '\t' {
        seq!['\\', 't']
    } else {
        seq![c]
    }
}

pub open spec fn escaped(s: Seq<char>) -> Seq<char>
    decreases s.len(),
{
    if s.len() == 0 {
        Seq::empty()
    } else {
        escaped(s.drop_last()) + escaped_char(s.last())
    }
}

/// The text in quotes, as the tokenizer reads it back.
pub open spec fn in_quotes(s: Seq<char>) -> Seq<char> {
    seq!['"'] + escaped(s) + seq!['"']
}

pub fn quote(value: &str) -> (out: String)
    ensures
        out@ == in_quotes(value@),
{
    let chars: Vec<char> = chars_of(value);
    let mut out: String = String::new();
    out.push('"');
    let mut i: usize = 0;
    assert(out@ =~= seq!['"'] + escaped(chars@.take(0)));
    while i < chars.len()
        invariant
            i <= chars.len(),
            out@ == seq!['"'] + escaped(chars@.take(i as int)),
        decreases chars.len() - i,
    {
        let c: char = chars[i];
        let ghost before = out@;
        if c == '\\' {
            out.push('\\');
            out.push('\\');
        } else if c == '"' {
            out.push('\\');
            out.push('"');
        } else if c == '\n' {
            out.push('\\');
            out.push('n');
        } else if c == '\r' {
            out.push('\\');
            out.push('r');
        } else if c == '\t' {
            out.push('\\');
            out.push('t');
        } else {
            out.push(c);
        }
        proof {
            assert(out@ =~= before + escaped_char(c));
            assert(chars@.take(i + 1).drop_last() =~= chars@.take(i as int));
            assert(out@ =~= seq!['"'] + escaped(chars@.take(i + 1)));
        }
        i += 1;
    }
    assert(chars@.take(i as int) =~= value@);
    out.push('"');
    assert(out@ =~= in_quotes(value@));
    out
}

/// The word for a feature type.
pub open spec fn type_word(spec: FeatureSpec) -> Seq<char> {
    match spec {
        FeatureSpec::Continuous => "C"@,
        FeatureSpec::Categorical { cardinality } => "K:"@ + decimal(cardinality as nat),
    }
}

/// The word for a unit: `-` where there is none.
pub open spec fn unit_word(unit: Option<Seq<char>>) -> Seq<char> {
    match unit {
        Some(u) => in_quotes(u),
        None => "-"@,
    }
}

pub open spec fn quoted_all(list: Seq<Seq<char>>) -> Seq<Seq<char>> {
    list.map_values(|s: Seq<char>| in_quotes(s))
}

pub open spec fn has_units(columns: Seq<ColumnView>) -> bool {
    exists|i: int| 0 <= i < columns.len() && (#[trigger] columns[i]).unit is Some
}

/// The units line, if any column has a unit.
pub open spec fn unit_lines(columns: Seq<ColumnView>) -> Seq<Seq<char>> {
    if has_units(columns) {
        seq![
            "units "@ + joined(columns.map_values(|c: ColumnView| unit_word(c.unit)), " "@),
        ]
    } else {
        Seq::empty()
    }
}

/// The line with the labels of input `i`.
pub open spec fn level_line(i: nat, levels: Seq<Seq<char>>) -> Seq<char> {
    "levels "@ + decimal(i) + " "@ + joined(quoted_all(levels), " "@)
}

/// The lines with the labels of the first `n` inputs.
pub open spec fn level_lines(inputs: Seq<ColumnView>, n: nat) -> Seq<Seq<char>>
    decreases n,
{
    if n == 0 {
        Seq::empty()
    } else {
        match inputs[n - 1].levels {
            Some(levels) => level_lines(inputs, (n - 1) as nat).push(
                level_line((n - 1) as nat, levels),
            ),
            None => level_lines(inputs, (n - 1) as nat),
        }
    }
}

/// The lines of a file: the header, then one line for each row of values.
pub open spec fn file_lines(schema: SchemaView, shown: Seq<Seq<Seq<char>>>) -> Seq<Seq<char>> {
    seq![
        "TRNUM2"@,
        "inputs "@ + decimal(schema.inputs.len()),
        "outputs "@ + decimal(schema.outputs.len()),
        "specs "@ + joined(schema.specs().map_values(|s: FeatureSpec| type_word(s)), " "@),
        "names "@ + joined(
            quoted_all(schema.columns().map_values(|c: ColumnView| c.name)),
            " "@,
        ),
    ] + unit_lines(schema.columns()) + level_lines(schema.inputs, schema.inputs.len()) + seq![
        "rows "@ + decimal(shown.len()),
        "data"@,
    ] + shown.map_values(|row: Seq<Seq<char>>| joined(row, " "@))
}

/// The lines one after another, each with its line feed.
pub open spec fn terminated(rows: Seq<Seq<char>>) -> Seq<char>
    decreases rows.len(),
{
    if rows.len() == 0 {
        Seq::empty()
    } else {
        terminated(rows.drop_last()) + rows.last() + seq!['\n']
    }
}

/// What the printed rows say.
pub open spec fn shown_view(shown: Seq<Vec<String>>) -> Seq<Seq<Seq<char>>> {
    shown.map_values(|row: Vec<String>| texts(row@))
}

fn headed(head: &str, rest: &str) -> (line: String)
    ensures
        line@ == head@ + rest@,
{
    let mut line: String = owned(head);
    line.append(rest);
    line
}

fn type_words(schema: &ModelSchema) -> (words: Vec<String>)
    ensures
        texts(words@) == schema@.specs().map_values(|s: FeatureSpec| type_word(s)),
{
    let specs: Vec<FeatureSpec> = schema.feature_specs();
    let mut words: Vec<String> = Vec::new();
    let mut i: usize = 0;
    while i < specs.len()
        invariant
            i <= specs.len(),
            words.len() == i,
            forall|k: int| 0 <= k < i ==> (#[trigger] words@[k])@ == type_word(specs@[k]),
        decreases specs.len() - i,
    {
        let word: String = match specs[i] {
            FeatureSpec::Continuous => owned("C"),
            FeatureSpec::Categorical { cardinality } => headed(
                "K:",
                decimal_text(cardinality as u64).as_str(),
            ),
        };
        words.push(word);
        i += 1;
    }
    assert(texts(words@) =~= schema@.specs().map_values(|s: FeatureSpec| type_word(s)));
    words
}

fn column_at(schema: &ModelSchema, i: usize) -> (column: &Column)
    requires
        i < schema@.columns().len(),
    ensures
        column@ == schema@.columns()[i as int],
{
    if i < schema.inputs.len() {
        &schema.inputs[i]
    } else {
        &schema.outputs[i - schema.inputs.len()]
    }
}

fn name_words(schema: &ModelSchema, columns: usize) -> (words: Vec<String>)
    requires
        columns == schema@.columns().len(),
    ensures
        texts(words@) == quoted_all(schema@.columns().map_values(|c: ColumnView| c.name)),
{
    let mut words: Vec<String> = Vec::new();
    let mut i: usize = 0;
    while i < columns
        invariant
            i <= columns == schema@.columns().len(),
            words.len() == i,
            forall|k: int|
                0 <= k < i ==> (#[trigger] words@[k])@ == in_quotes(schema@.columns()[k].name),
        decreases columns - i,
    {
        words.push(quote(column_at(schema, i).name.as_str()));
        i += 1;
    }
    assert(texts(words@) =~= quoted_all(schema@.columns().map_values(|c: ColumnView| c.name)));
    words
}

/// The units as words, and whether there are any.
fn unit_words(schema: &ModelSchema, columns: usize) -> (out: (Vec<String>, bool))
    requires
        columns == schema@.columns().len(),
    ensures
        texts(out.0@) == schema@.columns().map_values(|c: ColumnView| unit_word(c.unit)),
        out.1 == has_units(schema@.columns()),
{
    let mut words: Vec<String> = Vec::new();
    let mut any: bool = false;
    let mut i: usize = 0;
    while i < columns
        invariant
            i <= columns == schema@.columns().len(),
            words.len() == i,
            forall|k: int|
                0 <= k < i ==> (#[trigger] words@[k])@ == unit_word(schema@.columns()[k].unit),
            any == exists|k: int|
                0 <= k < i && (#[trigger] schema@.columns()[k]).unit is Some,
        decreases columns - i,
    {
        match &column_at(schema, i).unit {
            Some(unit) => {
                words.push(quote(unit.as_str()));
                any = true;
                assert(schema@.columns()[i as int].unit is Some);
            },
            None => {
                words.push(owned("-"));
                assert(schema@.columns()[i as int].unit is None);
            },
        }
        i += 1;
    }
    assert(texts(words@) =~= schema@.columns().map_values(|c: ColumnView| unit_word(c.unit)));
    (words, any)
}

fn label_words(levels: &Vec<String>) -> (words: Vec<String>)
    ensures
        texts(words@) == quoted_all(texts(levels@)),
{
    let mut words: Vec<String> = Vec::new();
    let mut i: usize = 0;
    while i < levels.len()
        invariant
            i <= levels.len(),
            words.len() == i,
            forall|k: int| 0 <= k < i ==> (#[trigger] words@[k])@ == in_quotes(levels@[k]@),
        decreases levels.len() - i,
    {
        words.push(quote(levels[i].as_str()));
        i += 1;
    }
    assert(texts(words@) =~= quoted_all(texts(levels@)));
    words
}

/// Appends the lines with the labels of the categorical inputs.
fn push_level_lines(schema: &ModelSchema, lines: &mut Vec<String>)
    ensures
        texts(final(lines)@) == texts(old(lines)@) + level_lines(
            schema@.inputs,
            schema@.inputs.len(),
        ),
{
    let ghost start = texts(lines@);
    let mut i: usize = 0;
    assert(start + level_lines(schema@.inputs, 0) =~= start);
    while i < schema.inputs.len()
        invariant
            i <= schema.inputs.len(),
            texts(lines@) == start + level_lines(schema@.inputs, i as nat),
            start == texts(old(lines)@),
        decreases schema.inputs.len() - i,
    {
        assert(schema@.inputs[i as int] == schema.inputs@[i as int]@);
        let ghost before = texts(lines@);
        match &schema.inputs[i].ty {
            ColumnType::Categorical { levels } => {
                let mut line: String = owned("levels ");
                line.append(decimal_text(i as u64).as_str());
                line.append(" ");
                line.append(join(&label_words(levels), " ").as_str());
                let ghost said = line@;
                assert(said == level_line(i as nat, texts(levels@)));
                lines.push(line);
                assert(texts(lines@) =~= before.push(said));
                assert(start + level_lines(schema@.inputs, i as nat).push(said) =~= before.push(
                    said,
                ));
            },
            ColumnType::Numeric => {},
        }
        i += 1;
    }
}

fn terminate(lines: &Vec<String>) -> (text: String)
    ensures
        text@ == terminated(texts(lines@)),
{
    let mut text: String = String::new();
    let mut i: usize = 0;
    while i < lines.len()
        invariant
            i <= lines.len(),
            text@ == terminated(texts(lines@).take(i as int)),
        decreases lines.len() - i,
    {
        proof {
            let next = texts(lines@).take(i + 1);
            assert(next.drop_last() =~= texts(lines@).take(i as int));
            assert(next.last() == lines@[i as int]@);
        }
        let ghost before = text@;
        text.append(lines[i].as_str());
        text.push('\n');
        assert(text@ =~= before + lines@[i as int]@ + seq!['\n']);
        i += 1;
    }
    assert(texts(lines@).take(i as int) =~= texts(lines@));
    text
}

/// Writes data with their schema. `shown` holds the printed values of each
/// row, the inputs first.
pub fn write_numeric_tnum(
    schema: &ModelSchema,
    data: &NumericDataset,
    shown: &Vec<Vec<String>>,
) -> (out: Result<String, DataFault>)
    requires
        data.wf(),
        shown@.len() == data.inputs@.len(),
        schema@.columns().len() <= usize::MAX,
    ensures
        match out {
            Ok(text) => data_fault(schema@, *data) is None && text@ == terminated(
                file_lines(schema@, shown_view(shown@)),
            ),
            Err(f) => data_fault(schema@, *data) == Some(f),
        },
{
    match validate_numeric_tnum(schema, data) {
        Ok(_) => {},
        Err(f) => {
            return Err(f);
        },
    }
    let columns: usize = schema.n_inputs() + schema.n_outputs();
    let mut lines: Vec<String> = Vec::new();
    lines.push(owned("TRNUM2"));
    lines.push(headed("inputs ", decimal_text(schema.n_inputs() as u64).as_str()));
    lines.push(headed("outputs ", decimal_text(schema.n_outputs() as u64).as_str()));
    lines.push(headed("specs ", join(&type_words(schema), " ").as_str()));
    lines.push(headed("names ", join(&name_words(schema, columns), " ").as_str()));
    let ghost head = seq![
        "TRNUM2"@,
        "inputs "@ + decimal(schema@.inputs.len()),
        "outputs "@ + decimal(schema@.outputs.len()),
        "specs "@ + joined(schema@.specs().map_values(|s: FeatureSpec| type_word(s)), " "@),
        "names "@ + joined(
            quoted_all(schema@.columns().map_values(|c: ColumnView| c.name)),
            " "@,
        ),
    ];
    assert(texts(lines@) =~= head);
    let (units, any): (Vec<String>, bool) = unit_words(schema, columns);
    if any {
        lines.push(headed("units ", join(&units, " ").as_str()));
    }
    assert(texts(lines@) =~= head + unit_lines(schema@.columns()));
    push_level_lines(schema, &mut lines);
    let ghost upper = texts(lines@);
    lines.push(headed("rows ", decimal_text(shown.len() as u64).as_str()));
    lines.push(owned("data"));
    let ghost tail = seq!["rows "@ + decimal(shown@.len()), "data"@];
    assert(texts(lines@) =~= upper + tail);
    let ghost full = shown_view(shown@).map_values(|row: Seq<Seq<char>>| joined(row, " "@));
    let mut r: usize = 0;
    assert(upper + tail + full.take(0) =~= upper + tail);
    while r < shown.len()
        invariant
            r <= shown.len(),
            full == shown_view(shown@).map_values(|row: Seq<Seq<char>>| joined(row, " "@)),
            texts(lines@) == upper + tail + full.take(r as int),
        decreases shown.len() - r,
    {
        let ghost before = texts(lines@);
        let line: String = join(&shown[r], " ");
        let ghost said = line@;
        assert(said == full[r as int]);
        lines.push(line);
        assert(texts(lines@) =~= before.push(said));
        assert(upper + tail + full.take(r + 1) =~= before.push(said));
        r += 1;
    }
    assert(full.take(r as int) =~= full);
    Ok(terminate(&lines))
}

/// The units have a line exactly if a column has a unit.
pub proof fn law_units_are_written_where_there_are_some(columns: Seq<ColumnView>)
    ensures
        unit_lines(columns).len() <= 1,
        unit_lines(columns).len() == 1 <==> exists|i: int|
            0 <= i < columns.len() && (#[trigger] columns[i]).unit is Some,
{
}

/// Every category among the first `n` inputs has a line with its labels, and
/// there are no other such lines.
pub proof fn law_every_category_has_a_line(inputs: Seq<ColumnView>, n: nat)
    requires
        n <= inputs.len(),
    ensures
        level_lines(inputs, n).len() == Set::new(
            |i: int| 0 <= i < n && inputs[i].levels is Some,
        ).len(),
        Set::new(|i: int| 0 <= i < n && inputs[i].levels is Some).finite(),
        forall|i: int|
            0 <= i < n && (#[trigger] inputs[i]).levels is Some ==> level_lines(
                inputs,
                n,
            ).contains(level_line(i as nat, inputs[i].levels->0)),
    decreases n,
{
    let now = Set::new(|i: int| 0 <= i < n && inputs[i].levels is Some);
    if n == 0 {
        assert(now =~= Set::empty());
    } else {
        law_every_category_has_a_line(inputs, (n - 1) as nat);
        let before = Set::new(|i: int| 0 <= i < n - 1 && inputs[i].levels is Some);
        let had = level_lines(inputs, (n - 1) as nat);
        let has = level_lines(inputs, n);
        if inputs[n - 1].levels is Some {
            assert(now =~= before.insert(n - 1));
            assert(has[had.len() as int] == level_line((n - 1) as nat, inputs[n - 1].levels->0));
        } else {
            assert(now =~= before);
        }
        assert forall|i: int| 0 <= i < n && (#[trigger] inputs[i]).levels is Some implies
            has.contains(level_line(i as nat, inputs[i].levels->0)) by {
            if i < n - 1 {
                let k = had.index_of(level_line(i as nat, inputs[i].levels->0));
                assert(has[k] == had[k]);
            }
        }
    }
}

} // verus!
