//! The values of a file: the numbers of its tokens, checked against the
//! schema.

use crate::data::{Matrix, NumericDataset};
use crate::schema::{ColumnView, ModelSchema, SchemaView};
use crate::single::{code_check, CodeCheck, Single};
use crate::tnum::header::{DocumentView, TnumDocument, TnumError, What};
use crate::tnum::token::Token;
use vstd::prelude::*;

verus! {

/// Why data do not fit a schema. Rows and columns are counted from 0.
#[derive(Clone, Copy, Debug, PartialEq, Eq, Structural)]
pub enum DataFault {
    /// The numbers of columns differ from the schema's.
    Dims { inputs: usize, outputs: usize },
    InputNotFinite { row: usize, input: usize },
    CodeNotInteger { row: usize, input: usize },
    CodeOutOfRange { row: usize, input: usize, cardinality: usize },
    OutputNotFinite { row: usize, output: usize },
}

/// What is wrong with an input value, if anything.
pub open spec fn input_fault(column: ColumnView, v: Single, row: int, input: int) -> Option<
    DataFault,
> {
    if !v.finite() {
        Some(DataFault::InputNotFinite { row: row as usize, input: input as usize })
    } else {
        match column.cardinality() {
            None => None,
            Some(n) => match code_check(v, n as usize) {
                CodeCheck::NotInteger => Some(
                    DataFault::CodeNotInteger { row: row as usize, input: input as usize },
                ),
                CodeCheck::OutOfRange => Some(
                    DataFault::CodeOutOfRange {
                        row: row as usize,
                        input: input as usize,
                        cardinality: n as usize,
                    },
                ),
                CodeCheck::Code(_) => None,
            },
        }
    }
}

/// What is wrong with column `c` of row `r`, the inputs counted first.
pub open spec fn cell_fault(
    schema: SchemaView,
    ins: Seq<Seq<Single>>,
    outs: Seq<Seq<Single>>,
    r: int,
    c: int,
) -> Option<DataFault> {
    let n = schema.inputs.len();
    if c < n {
        input_fault(schema.inputs[c], ins[r][c], r, c)
    } else if !outs[r][c - n].finite() {
        Some(DataFault::OutputNotFinite { row: r as usize, output: (c - n) as usize })
    } else {
        None
    }
}

/// The first fault at or behind column `c` of row `r`, row by row.
pub open spec fn fault_from(
    schema: SchemaView,
    ins: Seq<Seq<Single>>,
    outs: Seq<Seq<Single>>,
    r: int,
    c: int,
) -> Option<DataFault>
    decreases ins.len() - r, schema.columns().len() - c,
{
    if r < 0 || r >= ins.len() {
        None
    } else if c >= schema.columns().len() {
        fault_from(schema, ins, outs, r + 1, 0)
    } else {
        match cell_fault(schema, ins, outs, r, c) {
            Some(f) => Some(f),
            None => fault_from(schema, ins, outs, r, c + 1),
        }
    }
}

/// The first thing wrong with the data, if anything.
pub open spec fn data_fault(schema: SchemaView, data: NumericDataset) -> Option<DataFault> {
    if schema.inputs.len() != data.inputs.cols || schema.outputs.len() != data.outputs.cols {
        Some(DataFault::Dims { inputs: data.inputs.cols, outputs: data.outputs.cols })
    } else {
        fault_from(schema, data.inputs@, data.outputs@, 0, 0)
    }
}

/// Data without a fault have a sound value in every cell, and the other way
/// round.
pub proof fn law_sound_data(schema: SchemaView, ins: Seq<Seq<Single>>, outs: Seq<Seq<Single>>)
    ensures
        fault_from(schema, ins, outs, 0, 0) is None <==> forall|r: int, c: int|
            0 <= r < ins.len() && 0 <= c < schema.columns().len() ==> (#[trigger] cell_fault(
                schema,
                ins,
                outs,
                r,
                c,
            )) is None,
{
    lemma_sound_from(schema, ins, outs, 0, 0);
}

proof fn lemma_sound_from(
    schema: SchemaView,
    ins: Seq<Seq<Single>>,
    outs: Seq<Seq<Single>>,
    r0: int,
    c0: int,
)
    requires
        0 <= r0,
        0 <= c0,
    ensures
        fault_from(schema, ins, outs, r0, c0) is None <==> forall|r: int, c: int|
            r0 <= r < ins.len() && 0 <= c < schema.columns().len() && (r > r0 || c >= c0) ==> (
            #[trigger] cell_fault(schema, ins, outs, r, c)) is None,
    decreases ins.len() - r0, schema.columns().len() - c0,
{
    if r0 < ins.len() {
        if c0 >= schema.columns().len() {
            lemma_sound_from(schema, ins, outs, r0 + 1, 0);
        } else {
            lemma_sound_from(schema, ins, outs, r0, c0 + 1);
        }
    }
}

fn check_input(column: &crate::schema::Column, v: Single, row: usize, input: usize) -> (out: Option<
    DataFault,
>)
    ensures
        out == input_fault(column@, v, row as int, input as int),
{
    if !v.is_finite() {
        return Some(DataFault::InputNotFinite { row, input });
    }
    match column.cardinality() {
        None => None,
        Some(cardinality) => match v.category_code(cardinality) {
            CodeCheck::NotInteger => Some(DataFault::CodeNotInteger { row, input }),
            CodeCheck::OutOfRange => Some(DataFault::CodeOutOfRange { row, input, cardinality }),
            CodeCheck::Code(_) => None,
        },
    }
}

/// Checks data against a schema. Neither a writer nor a reader trusts
/// category codes, infinities and NaN.
pub fn validate_numeric_tnum(schema: &ModelSchema, data: &NumericDataset) -> (out: Result<
    (),
    DataFault,
>)
    requires
        data.wf(),
    ensures
        match out {
            Ok(_) => data_fault(schema@, *data) is None,
            Err(f) => data_fault(schema@, *data) == Some(f),
        },
{
    if schema.check_dims(data.inputs.cols, data.outputs.cols).is_err() {
        return Err(DataFault::Dims { inputs: data.inputs.cols, outputs: data.outputs.cols });
    }
    let n_inputs: usize = schema.n_inputs();
    let n_outputs: usize = schema.n_outputs();
    let rows: usize = data.len();
    let ghost ins = data.inputs@;
    let ghost outs = data.outputs@;
    let mut r: usize = 0;
    while r < rows
        invariant
            data.wf(),
            r <= rows == ins.len() == outs.len(),
            ins == data.inputs@,
            outs == data.outputs@,
            n_inputs == schema@.inputs.len() == data.inputs.cols,
            n_outputs == schema@.outputs.len() == data.outputs.cols,
            data_fault(schema@, *data) == fault_from(schema@, ins, outs, r as int, 0),
        decreases rows - r,
    {
        let mut i: usize = 0;
        while i < n_inputs
            invariant
                data.wf(),
                r < rows == ins.len() == outs.len(),
                ins == data.inputs@,
                outs == data.outputs@,
                i <= n_inputs == schema@.inputs.len() == data.inputs.cols,
                data_fault(schema@, *data) == fault_from(schema@, ins, outs, r as int, i as int),
            decreases n_inputs - i,
        {
            let v: Single = data.inputs.at(r, i);
            assert(schema@.inputs[i as int] == schema.inputs@[i as int]@);
            match check_input(&schema.inputs[i], v, r, i) {
                Some(f) => {
                    return Err(f);
                },
                None => {},
            }
            i += 1;
        }
        let mut j: usize = 0;
        while j < n_outputs
            invariant
                data.wf(),
                r < rows == ins.len() == outs.len(),
                ins == data.inputs@,
                outs == data.outputs@,
                n_inputs == schema@.inputs.len(),
                j <= n_outputs == schema@.outputs.len() == data.outputs.cols,
                data_fault(schema@, *data) == fault_from(
                    schema@,
                    ins,
                    outs,
                    r as int,
                    n_inputs + j,
                ),
            decreases n_outputs - j,
        {
            if !data.outputs.at(r, j).is_finite() {
                return Err(DataFault::OutputNotFinite { row: r, output: j });
            }
            j += 1;
        }
        r += 1;
    }
    Ok(())
}

/// Why the values of a document are refused.
#[derive(Clone, Copy, Debug, PartialEq, Eq, Structural)]
pub enum ValueError {
    Token(TnumError),
    Data(DataFault),
}

/// What stands at value number `k` of a document.
pub open spec fn value_kind(d: DocumentView, k: int) -> What {
    if k % (d.columns() as int) < d.schema.inputs.len() {
        What::InputValue
    } else {
        What::OutputValue
    }
}

/// The first value from number `k` on that is no number. `values` holds what
/// each token spells.
pub open spec fn misspelled(d: DocumentView, values: Seq<Option<Single>>, k: int) -> Option<
    TnumError,
>
    decreases values.len() - k,
{
    if k < 0 || k >= values.len() {
        None
    } else if d.values()[k] is Quoted {
        Some(TnumError::QuotedNumber { what: value_kind(d, k), at: (d.at + k) as usize })
    } else if values[k] is None {
        Some(TnumError::NotNumber { what: value_kind(d, k), at: (d.at + k) as usize })
    } else {
        misspelled(d, values, k + 1)
    }
}

/// The rows of `width` values that start at column `shift`.
pub open spec fn columns_of(
    values: Seq<Option<Single>>,
    rows: nat,
    columns: nat,
    shift: nat,
    width: nat,
) -> Seq<Seq<Single>> {
    Seq::new(
        rows,
        |r: int| Seq::new(width, |c: int| values[r * columns + shift + c]->0),
    )
}

proof fn lemma_value_index(r: int, rows: int, columns: int, c: int)
    requires
        0 <= r < rows,
        0 <= c < columns,
    ensures
        0 <= r * columns + c < rows * columns,
        (r * columns + c) % columns == c,
        (r + 1) * columns == r * columns + columns,
{
    assert(r * columns + c < rows * columns) by (nonlinear_arith)
        requires
            0 <= r < rows,
            0 <= c < columns,
    ;
    assert(0 <= r * columns) by (nonlinear_arith)
        requires
            0 <= r,
            0 <= columns,
    ;
    assert((r + 1) * columns == r * columns + columns) by (nonlinear_arith);
    vstd::arithmetic::div_mod::lemma_fundamental_div_mod_converse(r * columns + c, columns, r, c);
}

impl TnumDocument {
    /// The data of the document, given what each value token spells (`None`
    /// where it spells no number).
    pub fn dataset(&self, values: &Vec<Option<Single>>) -> (out: Result<
        NumericDataset,
        ValueError,
    >)
        requires
            self@.wf(),
            values@.len() == self@.values().len(),
        ensures
            match out {
                Ok(data) => {
                    &&& data.wf()
                    &&& misspelled(self@, values@, 0) is None
                    &&& data_fault(self.schema@, data) is None
                    &&& data.inputs.cols == self.schema@.inputs.len()
                    &&& data.outputs.cols == self.schema@.outputs.len()
                    &&& data.inputs@ == columns_of(
                        values@,
                        self.rows as nat,
                        self@.columns(),
                        0,
                        self.schema@.inputs.len(),
                    )
                    &&& data.outputs@ == columns_of(
                        values@,
                        self.rows as nat,
                        self@.columns(),
                        self.schema@.inputs.len(),
                        self.schema@.outputs.len(),
                    )
                },
                Err(ValueError::Token(e)) => misspelled(self@, values@, 0) == Some(e),
                Err(ValueError::Data(f)) => {
                    &&& misspelled(self@, values@, 0) is None
                    &&& fault_from(
                        self.schema@,
                        columns_of(
                            values@,
                            self.rows as nat,
                            self@.columns(),
                            0,
                            self.schema@.inputs.len(),
                        ),
                        columns_of(
                            values@,
                            self.rows as nat,
                            self@.columns(),
                            self.schema@.inputs.len(),
                            self.schema@.outputs.len(),
                        ),
                        0,
                        0,
                    ) == Some(f)
                },
            },
    {
        let n_inputs: usize = self.schema.n_inputs();
        let n_outputs: usize = self.schema.n_outputs();
        let columns: usize = n_inputs + n_outputs;
        let rows: usize = self.rows;
        let total: usize = values.len();
        let ghost want_in = columns_of(
            values@,
            rows as nat,
            columns as nat,
            0,
            n_inputs as nat,
        );
        let ghost want_out = columns_of(
            values@,
            rows as nat,
            columns as nat,
            n_inputs as nat,
            n_outputs as nat,
        );
        let mut ins: Vec<Vec<Single>> = Vec::new();
        let mut outs: Vec<Vec<Single>> = Vec::new();
        let mut r: usize = 0;
        let mut k: usize = 0;
        while r < rows
            invariant
                self@.wf(),
                n_inputs == self.schema@.inputs.len(),
                n_outputs == self.schema@.outputs.len(),
                columns == n_inputs + n_outputs,
                columns == self@.columns(),
                rows == self.rows,
                total == values@.len() == rows * columns == self@.values().len(),
                want_in == columns_of(values@, rows as nat, columns as nat, 0, n_inputs as nat),
                want_out == columns_of(
                    values@,
                    rows as nat,
                    columns as nat,
                    n_inputs as nat,
                    n_outputs as nat,
                ),
                r <= rows,
                k == r * columns,
                k <= total,
                ins.len() == r,
                outs.len() == r,
                forall|q: int| 0 <= q < r ==> (#[trigger] ins@[q])@ == want_in[q],
                forall|q: int| 0 <= q < r ==> (#[trigger] outs@[q])@ == want_out[q],
                misspelled(self@, values@, 0) == misspelled(self@, values@, k as int),
            decreases rows - r,
        {
            let mut first: Vec<Single> = Vec::new();
            let mut second: Vec<Single> = Vec::new();
            let mut c: usize = 0;
            proof {
                if columns == 0 {
                    assert((r + 1) * columns == 0) by (nonlinear_arith)
                        requires
                            columns == 0,
                    ;
                } else {
                    lemma_value_index(r as int, rows as int, columns as int, 0);
                }
            }
            while c < columns
                invariant
                    self@.wf(),
                    n_inputs == self.schema@.inputs.len(),
                    columns == n_inputs + n_outputs,
                    columns == self@.columns(),
                    rows == self.rows,
                    total == values@.len() == rows * columns == self@.values().len(),
                    r < rows,
                    c <= columns,
                    k == r * columns + c,
                    k <= total,
                    (r + 1) * columns == r * columns + columns,
                    first.len() == if c < n_inputs {
                        c as int
                    } else {
                        n_inputs as int
                    },
                    second.len() == c - first.len(),
                    forall|q: int|
                        0 <= q < first.len() ==> #[trigger] first@[q] == values@[r * columns + 0
                            + q]->0,
                    forall|q: int|
                        0 <= q < second.len() ==> #[trigger] second@[q] == values@[r * columns
                            + n_inputs + q]->0,
                    misspelled(self@, values@, 0) == misspelled(self@, values@, k as int),
                decreases columns - c,
            {
                proof {
                    lemma_value_index(r as int, rows as int, columns as int, c as int);
                    assert(self@.tokens.len() == self.tokens.len());
                    assert(self@.values()[k as int] == self.tokens@[self.at + k]@);
                }
                let what: What = if c < n_inputs {
                    What::InputValue
                } else {
                    What::OutputValue
                };
                let at: usize = self.at + k;
                match &self.tokens[at] {
                    Token::Quoted(_) => {
                        return Err(ValueError::Token(TnumError::QuotedNumber { what, at }));
                    },
                    Token::Bare(_) => {},
                }
                match values[k] {
                    None => {
                        return Err(ValueError::Token(TnumError::NotNumber { what, at }));
                    },
                    Some(v) => {
                        if c < n_inputs {
                            first.push(v);
                        } else {
                            second.push(v);
                        }
                    },
                }
                c += 1;
                k += 1;
            }
            proof {
                assert(first@ =~= want_in[r as int]);
                assert(second@ =~= want_out[r as int]);
            }
            ins.push(first);
            outs.push(second);
            r += 1;
        }
        let inputs = Matrix { cols: n_inputs, rows: ins };
        let outputs = Matrix { cols: n_outputs, rows: outs };
        proof {
            assert(inputs@ =~= want_in);
            assert(outputs@ =~= want_out);
        }
        let data: NumericDataset = NumericDataset::new(inputs, outputs);
        match validate_numeric_tnum(&self.schema, &data) {
            Ok(_) => Ok(data),
            Err(f) => Err(ValueError::Data(f)),
        }
    }
}

/// A value that an input may hold: a finite number, and for a category one of
/// its codes.
pub open spec fn sound_input(column: ColumnView, v: Single) -> bool {
    v.finite() && (column.levels matches Some(levels) ==> code_check(
        v,
        levels.len() as usize,
    ) is Code)
}

/// Is there a sound value in column `c` of row `r`?
pub open spec fn sound_cell(
    schema: SchemaView,
    ins: Seq<Seq<Single>>,
    outs: Seq<Seq<Single>>,
    r: int,
    c: int,
) -> bool {
    if c < schema.inputs.len() {
        sound_input(schema.inputs[c], ins[r][c])
    } else {
        outs[r][c - schema.inputs.len()].finite()
    }
}

proof fn lemma_first_fault(
    schema: SchemaView,
    ins: Seq<Seq<Single>>,
    outs: Seq<Seq<Single>>,
    r0: int,
    c0: int,
) -> (cell: (int, int))
    requires
        0 <= r0,
        0 <= c0,
    ensures
        fault_from(schema, ins, outs, r0, c0) matches Some(f) ==> {
            &&& r0 <= cell.0 < ins.len()
            &&& 0 <= cell.1 < schema.columns().len()
            &&& cell.0 > r0 || cell.1 >= c0
            &&& cell_fault(schema, ins, outs, cell.0, cell.1) == Some(f)
            &&& forall|r: int, c: int|
                r0 <= r && 0 <= c < schema.columns().len() && (r > r0 || c >= c0) && (r < cell.0
                    || r == cell.0 && c < cell.1) ==> (#[trigger] cell_fault(
                    schema,
                    ins,
                    outs,
                    r,
                    c,
                )) is None
        },
    decreases ins.len() - r0, schema.columns().len() - c0,
{
    if r0 >= ins.len() {
        (0, 0)
    } else if c0 >= schema.columns().len() {
        lemma_first_fault(schema, ins, outs, r0 + 1, 0)
    } else if cell_fault(schema, ins, outs, r0, c0) is Some {
        (r0, c0)
    } else {
        lemma_first_fault(schema, ins, outs, r0, c0 + 1)
    }
}

/// Data are accepted exactly if they have the columns of the schema and a
/// sound value in every cell. What is reported otherwise is the first cell
/// without one, row by row and the inputs of a row first, and what is said of
/// it is true.
pub proof fn law_the_first_unsound_cell_is_reported(schema: SchemaView, data: NumericDataset)
    requires
        data.wf(),
        schema.inputs.len() <= usize::MAX,
        forall|i: int|
            0 <= i < schema.inputs.len() ==> ((#[trigger] schema.inputs[i]).levels matches Some(l)
                ==> l.len() <= usize::MAX),
    ensures
        ({
            let ins = data.inputs@;
            let outs = data.outputs@;
            let dims = schema.inputs.len() == data.inputs.cols && schema.outputs.len()
                == data.outputs.cols;
            let n = schema.inputs.len() as int;
            let total = n + schema.outputs.len();
            match data_fault(schema, data) {
                None => dims && forall|r: int, c: int|
                    0 <= r < ins.len() && 0 <= c < total ==> #[trigger] sound_cell(
                        schema,
                        ins,
                        outs,
                        r,
                        c,
                    ),
                Some(DataFault::Dims { inputs, outputs }) => !dims && inputs == data.inputs.cols
                    && outputs == data.outputs.cols,
                Some(f) => dims && exists|r: int, c: int|
                    {
                        &&& 0 <= r < ins.len() && 0 <= c < total
                        &&& !#[trigger] sound_cell(schema, ins, outs, r, c)
                        &&& forall|r1: int, c1: int|
                            0 <= r1 && 0 <= c1 < total && (r1 < r || r1 == r && c1 < c)
                                ==> #[trigger] sound_cell(schema, ins, outs, r1, c1)
                        &&& match f {
                            DataFault::InputNotFinite { row, input } => row == r && input == c && c
                                < n && !ins[r][c].finite(),
                            DataFault::CodeNotInteger { row, input } => row == r && input == c && c
                                < n && ins[r][c].finite() && schema.inputs[c].levels is Some,
                            DataFault::CodeOutOfRange { row, input, cardinality } => row == r
                                && input == c && c < n && ins[r][c].finite()
                                && schema.inputs[c].levels is Some && cardinality
                                == schema.inputs[c].levels->0.len(),
                            DataFault::OutputNotFinite { row, output } => row == r && output == c
                                - n && c >= n,
                            DataFault::Dims { .. } => false,
                        }
                    },
            }
        }),
{
    let ins = data.inputs@;
    let outs = data.outputs@;
    let n = schema.inputs.len() as int;
    let total = n + schema.outputs.len();
    assert(schema.columns().len() == total);
    assert(data.inputs@.len() <= usize::MAX) by {
        assert(data.inputs.rows.len() == data.inputs.rows@.len());
    }
    if schema.inputs.len() == data.inputs.cols && schema.outputs.len() == data.outputs.cols {
        assert forall|r: int, c: int| 0 <= r < ins.len() && 0 <= c < total implies (
        #[trigger] sound_cell(schema, ins, outs, r, c) <==> cell_fault(
            schema,
            ins,
            outs,
            r,
            c,
        ) is None) by {}
        let cell = lemma_first_fault(schema, ins, outs, 0, 0);
        law_sound_data(schema, ins, outs);
        match data_fault(schema, data) {
            None => {
                assert forall|r: int, c: int| 0 <= r < ins.len() && 0 <= c < total implies
                    #[trigger] sound_cell(schema, ins, outs, r, c) by {
                    assert(cell_fault(schema, ins, outs, r, c) is None);
                }
            },
            Some(f) => {
                let (r, c) = cell;
                assert(cell_fault(schema, ins, outs, r, c) == Some(f));
                assert(!sound_cell(schema, ins, outs, r, c));
                assert forall|r1: int, c1: int|
                    0 <= r1 && 0 <= c1 < total && (r1 < r || r1 == r && c1 < c) implies
                    #[trigger] sound_cell(schema, ins, outs, r1, c1) by {
                    assert(cell_fault(schema, ins, outs, r1, c1) is None);
                }
            },
        }
    }
}

proof fn lemma_misspelled(d: DocumentView, values: Seq<Option<Single>>, k: int) -> (m: int)
    requires
        0 <= k,
    ensures
        match misspelled(d, values, k) {
            None => forall|j: int|
                k <= j < values.len() ==> d.values()[j] is Bare && #[trigger] values[j] is Some,
            Some(e) => {
                &&& k <= m < values.len()
                &&& forall|j: int|
                    k <= j < m ==> d.values()[j] is Bare && #[trigger] values[j] is Some
                &&& e == if d.values()[m] is Quoted {
                    TnumError::QuotedNumber { what: value_kind(d, m), at: (d.at + m) as usize }
                } else {
                    TnumError::NotNumber { what: value_kind(d, m), at: (d.at + m) as usize }
                }
                &&& d.values()[m] is Quoted || values[m] is None
            },
        },
    decreases values.len() - k,
{
    if k >= values.len() || d.values()[k] is Quoted || values[k] is None {
        k
    } else {
        lemma_misspelled(d, values, k + 1)
    }
}

/// The values of a document are taken exactly if each is a bare token that
/// spells a number. What is reported otherwise is the first that is not, by
/// the number of its token.
pub proof fn law_the_first_value_that_is_no_number_is_reported(
    d: DocumentView,
    values: Seq<Option<Single>>,
)
    requires
        d.wf(),
        d.tokens.len() <= usize::MAX,
        values.len() == d.values().len(),
    ensures
        match misspelled(d, values, 0) {
            None => forall|j: int|
                0 <= j < values.len() ==> d.tokens[d.at + j] is Bare && #[trigger] values[j] is Some,
            Some(e) => exists|m: int|
                {
                    &&& 0 <= m < values.len()
                    &&& (d.tokens[d.at + m] is Quoted || #[trigger] values[m] is None)
                    &&& forall|j: int|
                        0 <= j < m ==> d.tokens[d.at + j] is Bare && #[trigger] values[j] is Some
                    &&& match e {
                        TnumError::QuotedNumber { what, at } => at == d.at + m && d.tokens[at as int] is Quoted,
                        TnumError::NotNumber { what, at } => at == d.at + m && values[m] is None,
                        _ => false,
                    }
                },
        },
{
    let m = lemma_misspelled(d, values, 0);
    assert forall|j: int| 0 <= j < values.len() implies #[trigger] d.values()[j] == d.tokens[d.at
        + j] by {}
    if misspelled(d, values, 0) is Some {
        assert(d.tokens[d.at + m] == d.values()[m]);
        assert forall|j: int| 0 <= j < m implies d.tokens[d.at + j] is Bare
            && #[trigger] values[j] is Some by {
            assert(d.values()[j] is Bare);
        }
        assert(d.tokens[d.at + m] is Quoted || values[m] is None);
    } else {
        assert forall|j: int| 0 <= j < values.len() implies d.tokens[d.at + j] is Bare
            && #[trigger] values[j] is Some by {
            assert(d.values()[j] is Bare);
        }
    }
}

/// In the data of a document every number stands where its token stands: row
/// by row, the inputs of a row first.
pub proof fn law_values_stand_in_rows(
    values: Seq<Option<Single>>,
    rows: nat,
    n_inputs: nat,
    n_outputs: nat,
    r: int,
)
    requires
        values.len() == rows * (n_inputs + n_outputs),
        0 <= r < rows,
    ensures
        columns_of(values, rows, n_inputs + n_outputs, 0, n_inputs).len() == rows,
        columns_of(values, rows, n_inputs + n_outputs, n_inputs, n_outputs).len() == rows,
        values.subrange(r * (n_inputs + n_outputs), (r + 1) * (n_inputs + n_outputs)).map_values(
            |v: Option<Single>| v->0,
        ) == columns_of(values, rows, n_inputs + n_outputs, 0, n_inputs)[r] + columns_of(
            values,
            rows,
            n_inputs + n_outputs,
            n_inputs,
            n_outputs,
        )[r],
{
    let w = (n_inputs + n_outputs) as int;
    assert((r + 1) * w == r * w + w) by (nonlinear_arith);
    assert(0 <= r * w && (r + 1) * w <= rows * w) by (nonlinear_arith)
        requires
            0 <= r < rows,
            0 <= w,
    ;
    assert(values.subrange(r * w, (r + 1) * w).map_values(|v: Option<Single>| v->0) =~= columns_of(
        values,
        rows,
        n_inputs + n_outputs,
        0,
        n_inputs,
    )[r] + columns_of(values, rows, n_inputs + n_outputs, n_inputs, n_outputs)[r]);
}

} // verus!
