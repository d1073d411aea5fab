//! Columns of a table and the schema of a model.

use crate::encoders::FeatureSpec;
use crate::text::{decimal, decimal_text, lemma_decimal, owned, same, texts};
use vstd::prelude::*;
use vstd::string::StringExecFns;

verus! {

#[derive(Clone, Copy, Debug, PartialEq, Eq, Structural)]
pub enum ColumnRole {
    Input,
    Output,
    Ignore,
}

/// A numeric column, or a categorical one with a label for each code.
#[derive(Debug)]
pub enum ColumnType {
    Numeric,
    Categorical { levels: Vec<String> },
}

#[derive(Debug)]
pub struct Column {
    pub name: String,
    pub role: ColumnRole,
    pub ty: ColumnType,
    pub unit: Option<String>,
}

/// What a column says: its texts by their characters.
#[verifier::ext_equal]
pub struct ColumnView {
    pub name: Seq<char>,
    pub role: ColumnRole,
    pub levels: Option<Seq<Seq<char>>>,
    pub unit: Option<Seq<char>>,
}

pub open spec fn unit_view(unit: Option<String>) -> Option<Seq<char>> {
    match unit {
        Some(u) => Some(u@),
        None => None,
    }
}

impl View for Column {
    type V = ColumnView;

    open spec fn view(&self) -> ColumnView {
        ColumnView {
            name: self.name@,
            role: self.role,
            levels: match self.ty {
                ColumnType::Numeric => None,
                ColumnType::Categorical { levels } => Some(texts(levels@)),
            },
            unit: unit_view(self.unit),
        }
    }
}

impl ColumnView {
    /// The number of codes of a categorical column.
    pub open spec fn cardinality(self) -> Option<nat> {
        match self.levels {
            Some(levels) => Some(levels.len()),
            None => None,
        }
    }

    pub open spec fn spec_of(self) -> FeatureSpec {
        match self.levels {
            Some(levels) => FeatureSpec::Categorical { cardinality: levels.len() as usize },
            None => FeatureSpec::Continuous,
        }
    }
}

/// The column that is numeric and has no unit.
pub open spec fn numeric_view(name: Seq<char>, role: ColumnRole) -> ColumnView {
    ColumnView { name, role, levels: None, unit: None }
}

/// The column that is categorical and has no unit.
pub open spec fn categorical_view(
    name: Seq<char>,
    role: ColumnRole,
    levels: Seq<Seq<char>>,
) -> ColumnView {
    ColumnView { name, role, levels: Some(levels), unit: None }
}

fn same_texts(a: &Vec<String>, b: &Vec<String>) -> (yes: bool)
    ensures
        yes == (texts(a@) == texts(b@)),
{
    if a.len() != b.len() {
        assert(texts(a@).len() != texts(b@).len());
        return false;
    }
    let mut i: usize = 0;
    while i < a.len()
        invariant
            i <= a.len() == b.len(),
            forall|k: int| 0 <= k < i ==> texts(a@)[k] == texts(b@)[k],
        decreases a.len() - i,
    {
        if !same(a[i].as_str(), b[i].as_str()) {
            assert(texts(a@)[i as int] != texts(b@)[i as int]);
            return false;
        }
        i += 1;
    }
    assert(texts(a@) =~= texts(b@));
    true
}

/// What the rules for columns and schemas say: nothing, or why one is refused.
pub type Ruling = Result<(), String>;

/// What the rules say of the columns that a file declares, the inputs first,
/// and of the schema that they make up. A column without a ruling is accepted.
#[derive(Debug)]
pub struct SchemaRulings {
    pub columns: Vec<Ruling>,
    pub schema: Ruling,
}

impl SchemaRulings {
    pub open spec fn refuses(self, column: int) -> bool {
        0 <= column < self.columns@.len() && self.columns@[column] is Err
    }

    pub open spec fn accept_all(self) -> bool {
        self.schema is Ok && forall|k: int|
            0 <= k < self.columns@.len() ==> #[trigger] self.columns@[k] is Ok
    }

    /// The ruling on a column.
    pub fn column(&self, k: usize) -> (ruling: Ruling)
        ensures
            match ruling {
                Ok(()) => !self.refuses(k as int),
                Err(e) => self.refuses(k as int) && e@ == self.columns@[k as int]->Err_0@,
            },
    {
        if k < self.columns.len() {
            copied_ruling(&self.columns[k])
        } else {
            Ok(())
        }
    }
}

pub(crate) fn copied_ruling(ruling: &Ruling) -> (copy: Ruling)
    ensures
        match (copy, *ruling) {
            (Ok(()), Ok(())) => true,
            (Err(a), Err(b)) => a@ == b@,
            _ => false,
        },
{
    match ruling {
        Ok(()) => Ok(()),
        Err(e) => Err(owned(e.as_str())),
    }
}

impl Column {
    /// A numeric column, where the rules do not refuse it.
    pub fn numeric(name: &str, role: ColumnRole, ruling: Ruling) -> (out: Result<Column, String>)
        ensures
            match ruling {
                Ok(()) => out matches Ok(column) && column@ == numeric_view(name@, role),
                Err(e) => out == Err::<Column, String>(e),
            },
    {
        match ruling {
            Ok(()) => Ok(Column { name: owned(name), role, ty: ColumnType::Numeric, unit: None }),
            Err(e) => Err(e),
        }
    }

    /// A categorical column, where the rules do not refuse it.
    pub fn categorical(
        name: &str,
        role: ColumnRole,
        levels: Vec<String>,
        ruling: Ruling,
    ) -> (out: Result<Column, String>)
        ensures
            match ruling {
                Ok(()) => out matches Ok(column) && column@ == categorical_view(
                    name@,
                    role,
                    texts(levels@),
                ),
                Err(e) => out == Err::<Column, String>(e),
            },
    {
        match ruling {
            Ok(()) => Ok(
                Column { name: owned(name), role, ty: ColumnType::Categorical { levels }, unit: None },
            ),
            Err(e) => Err(e),
        }
    }

    pub fn with_unit(self, unit: &str) -> (column: Column)
        ensures
            column@ == (ColumnView { unit: Some(unit@), ..self@ }),
    {
        Column { name: self.name, role: self.role, ty: self.ty, unit: Some(owned(unit)) }
    }

    /// The number of codes of a categorical column.
    pub fn cardinality(&self) -> (n: Option<usize>)
        ensures
            match n {
                Some(c) => self@.cardinality() == Some(c as nat),
                None => self@.cardinality() is None,
            },
    {
        match &self.ty {
            ColumnType::Numeric => None,
            ColumnType::Categorical { levels } => Some(levels.len()),
        }
    }

    pub fn feature_spec(&self) -> (spec: FeatureSpec)
        ensures
            spec == self@.spec_of(),
    {
        match &self.ty {
            ColumnType::Numeric => FeatureSpec::Continuous,
            ColumnType::Categorical { levels } => FeatureSpec::Categorical {
                cardinality: levels.len(),
            },
        }
    }

    /// The label of a code.
    pub fn category_level(&self, code: usize) -> (label: Option<&String>)
        ensures
            match label {
                Some(l) => self@.levels is Some && code < self@.levels->0.len() && l@
                    == self@.levels->0[code as int],
                None => self@.levels is None || code >= self@.levels->0.len(),
            },
    {
        match &self.ty {
            ColumnType::Numeric => None,
            ColumnType::Categorical { levels } => if code < levels.len() {
                Some(&levels[code])
            } else {
                None
            },
        }
    }

    pub fn same_as(&self, other: &Column) -> (yes: bool)
        ensures
            yes == (self@ == other@),
    {
        let types: bool = match (&self.ty, &other.ty) {
            (ColumnType::Numeric, ColumnType::Numeric) => true,
            (
                ColumnType::Categorical { levels: a },
                ColumnType::Categorical { levels: b },
            ) => same_texts(a, b),
            _ => false,
        };
        let units: bool = match (&self.unit, &other.unit) {
            (None, None) => true,
            (Some(a), Some(b)) => same(a.as_str(), b.as_str()),
            _ => false,
        };
        same(self.name.as_str(), other.name.as_str()) && self.role == other.role && types && units
    }
}

/// The inputs and the outputs of a model, in the order the model takes them.
#[derive(Debug)]
pub struct ModelSchema {
    pub inputs: Vec<Column>,
    pub outputs: Vec<Column>,
}

#[verifier::ext_equal]
pub struct SchemaView {
    pub inputs: Seq<ColumnView>,
    pub outputs: Seq<ColumnView>,
}

pub open spec fn column_views(columns: Seq<Column>) -> Seq<ColumnView> {
    columns.map_values(|c: Column| c@)
}

impl View for ModelSchema {
    type V = SchemaView;

    open spec fn view(&self) -> SchemaView {
        SchemaView { inputs: column_views(self.inputs@), outputs: column_views(self.outputs@) }
    }
}

impl SchemaView {
    pub open spec fn specs(self) -> Seq<FeatureSpec> {
        self.inputs.map_values(|c: ColumnView| c.spec_of())
    }

    /// All columns, the inputs first.
    pub open spec fn columns(self) -> Seq<ColumnView> {
        self.inputs + self.outputs
    }
}

/// What is said of data that do not have the columns of a schema.
pub open spec fn dims_text(n_inputs: nat, n_outputs: nat) -> Seq<char> {
    "в данных "@ + decimal(n_inputs) + " вход и "@ + decimal(n_outputs)
        + " выход: схема описывает другие"@
}

pub(crate) fn dims_message(n_inputs: usize, n_outputs: usize) -> (text: String)
    ensures
        text@ == dims_text(n_inputs as nat, n_outputs as nat),
{
    let mut text: String = owned("в данных ");
    text.append(decimal_text(n_inputs as u64).as_str());
    text.append(" вход и ");
    text.append(decimal_text(n_outputs as u64).as_str());
    text.append(" выход: схема описывает другие");
    text
}

/// The letter and the number of a column without a name of its own.
pub open spec fn synthetic_name(letter: char, i: nat) -> Seq<char> {
    seq![letter] + decimal(i)
}

/// The labels `0`, `1`, … of a category without labels of its own.
pub open spec fn synthetic_levels(n: nat) -> Seq<Seq<char>> {
    Seq::new(n, |i: int| decimal(i as nat))
}

pub open spec fn synthetic_input(i: nat, spec: FeatureSpec) -> ColumnView {
    match spec {
        FeatureSpec::Continuous => numeric_view(synthetic_name('x', i), ColumnRole::Input),
        FeatureSpec::Categorical { cardinality } => categorical_view(
            synthetic_name('x', i),
            ColumnRole::Input,
            synthetic_levels(cardinality as nat),
        ),
    }
}

/// The schema of data without names: inputs `x0…`, outputs `y0…`, codes as
/// labels.
pub open spec fn synthetic_schema(specs: Seq<FeatureSpec>, n_outputs: nat) -> SchemaView {
    SchemaView {
        inputs: Seq::new(specs.len(), |i: int| synthetic_input(i as nat, specs[i])),
        outputs: Seq::new(
            n_outputs,
            |j: int| numeric_view(synthetic_name('y', j as nat), ColumnRole::Output),
        ),
    }
}

fn numbered(letter: char, i: usize) -> (name: String)
    ensures
        name@ == synthetic_name(letter, i as nat),
{
    let mut name: String = String::new();
    name.push(letter);
    assert(name@ =~= seq![letter]);
    name.append(decimal_text(i as u64).as_str());
    name
}

fn codes(n: usize) -> (levels: Vec<String>)
    ensures
        texts(levels@) == synthetic_levels(n as nat),
{
    let mut levels: Vec<String> = Vec::new();
    let mut i: usize = 0;
    while i < n
        invariant
            i <= n,
            levels.len() == i,
            forall|k: int| 0 <= k < i ==> (#[trigger] levels@[k])@ == decimal(k as nat),
        decreases n - i,
    {
        levels.push(decimal_text(i as u64));
        i += 1;
    }
    assert(texts(levels@) =~= synthetic_levels(n as nat));
    levels
}

fn same_columns(a: &Vec<Column>, b: &Vec<Column>) -> (yes: bool)
    ensures
        yes == (column_views(a@) == column_views(b@)),
{
    if a.len() != b.len() {
        assert(column_views(a@).len() != column_views(b@).len());
        return false;
    }
    let mut i: usize = 0;
    while i < a.len()
        invariant
            i <= a.len() == b.len(),
            forall|k: int| 0 <= k < i ==> column_views(a@)[k] == column_views(b@)[k],
        decreases a.len() - i,
    {
        if !a[i].same_as(&b[i]) {
            assert(column_views(a@)[i as int] != column_views(b@)[i as int]);
            return false;
        }
        i += 1;
    }
    assert(column_views(a@) =~= column_views(b@));
    true
}

fn column_names(columns: &Vec<Column>) -> (names: Vec<String>)
    ensures
        texts(names@) == column_views(columns@).map_values(|c: ColumnView| c.name),
{
    let mut names: Vec<String> = Vec::new();
    let mut i: usize = 0;
    while i < columns.len()
        invariant
            i <= columns.len(),
            names.len() == i,
            forall|k: int| 0 <= k < i ==> (#[trigger] names@[k])@ == columns@[k].name@,
        decreases columns.len() - i,
    {
        names.push(owned(columns[i].name.as_str()));
        i += 1;
    }
    assert(texts(names@) =~= column_views(columns@).map_values(|c: ColumnView| c.name));
    names
}

impl ModelSchema {
    /// The schema of these columns, where the rules do not refuse it.
    pub fn new(inputs: Vec<Column>, outputs: Vec<Column>, ruling: Ruling) -> (out: Result<
        ModelSchema,
        String,
    >)
        ensures
            match ruling {
                Ok(()) => out matches Ok(schema) && schema@.inputs == column_views(inputs@)
                    && schema@.outputs == column_views(outputs@),
                Err(e) => out == Err::<ModelSchema, String>(e),
            },
    {
        match ruling {
            Ok(()) => Ok(ModelSchema { inputs, outputs }),
            Err(e) => Err(e),
        }
    }

    /// The schema of data without names, where the rules do not refuse it.
    pub fn synthetic_from_specs(
        specs: &Vec<FeatureSpec>,
        n_outputs: usize,
        ruling: Ruling,
    ) -> (out: Result<ModelSchema, String>)
        ensures
            match ruling {
                Ok(()) => out matches Ok(schema) && schema@ == synthetic_schema(
                    specs@,
                    n_outputs as nat,
                ),
                Err(e) => out == Err::<ModelSchema, String>(e),
            },
    {
        match ruling {
            Ok(()) => Ok(ModelSchema::without_names(specs, n_outputs)),
            Err(e) => Err(e),
        }
    }

    fn without_names(specs: &Vec<FeatureSpec>, n_outputs: usize) -> (schema: ModelSchema)
        ensures
            schema@ == synthetic_schema(specs@, n_outputs as nat),
    {
        let mut inputs: Vec<Column> = Vec::new();
        let mut i: usize = 0;
        while i < specs.len()
            invariant
                i <= specs.len(),
                inputs.len() == i,
                forall|k: int|
                    0 <= k < i ==> (#[trigger] inputs@[k])@ == synthetic_input(k as nat, specs@[k]),
            decreases specs.len() - i,
        {
            let name: String = numbered('x', i);
            let ty: ColumnType = match specs[i] {
                FeatureSpec::Continuous => ColumnType::Numeric,
                FeatureSpec::Categorical { cardinality } => ColumnType::Categorical {
                    levels: codes(cardinality),
                },
            };
            inputs.push(Column { name, role: ColumnRole::Input, ty, unit: None });
            i += 1;
        }
        let mut outputs: Vec<Column> = Vec::new();
        let mut j: usize = 0;
        while j < n_outputs
            invariant
                j <= n_outputs,
                outputs.len() == j,
                forall|k: int|
                    0 <= k < j ==> (#[trigger] outputs@[k])@ == numeric_view(
                        synthetic_name('y', k as nat),
                        ColumnRole::Output,
                    ),
            decreases n_outputs - j,
        {
            let name: String = numbered('y', j);
            outputs.push(
                Column { name, role: ColumnRole::Output, ty: ColumnType::Numeric, unit: None },
            );
            j += 1;
        }
        let schema = ModelSchema { inputs, outputs };
        assert(schema@ =~~= synthetic_schema(specs@, n_outputs as nat));
        schema
    }

    /// The schema of purely numeric data without names, where the rules do not
    /// refuse it.
    pub fn synthetic(n_inputs: usize, n_outputs: usize, ruling: Ruling) -> (out: Result<
        ModelSchema,
        String,
    >)
        ensures
            match ruling {
                Ok(()) => out matches Ok(schema) && schema@ == synthetic_schema(
                    Seq::new(n_inputs as nat, |i: int| FeatureSpec::Continuous),
                    n_outputs as nat,
                ),
                Err(e) => out == Err::<ModelSchema, String>(e),
            },
    {
        let mut specs: Vec<FeatureSpec> = Vec::new();
        let mut i: usize = 0;
        while i < n_inputs
            invariant
                i <= n_inputs,
                specs@ == Seq::new(i as nat, |k: int| FeatureSpec::Continuous),
            decreases n_inputs - i,
        {
            specs.push(FeatureSpec::Continuous);
            assert(specs@ =~= Seq::new((i + 1) as nat, |k: int| FeatureSpec::Continuous));
            i += 1;
        }
        ModelSchema::synthetic_from_specs(&specs, n_outputs, ruling)
    }

    pub fn n_inputs(&self) -> (n: usize)
        ensures
            n == self@.inputs.len(),
    {
        self.inputs.len()
    }

    pub fn n_outputs(&self) -> (n: usize)
        ensures
            n == self@.outputs.len(),
    {
        self.outputs.len()
    }

    pub fn input_names(&self) -> (names: Vec<String>)
        ensures
            texts(names@) == self@.inputs.map_values(|c: ColumnView| c.name),
    {
        column_names(&self.inputs)
    }

    pub fn output_names(&self) -> (names: Vec<String>)
        ensures
            texts(names@) == self@.outputs.map_values(|c: ColumnView| c.name),
    {
        column_names(&self.outputs)
    }

    pub fn feature_specs(&self) -> (specs: Vec<FeatureSpec>)
        ensures
            specs@ == self@.specs(),
    {
        let mut specs: Vec<FeatureSpec> = Vec::new();
        let mut i: usize = 0;
        while i < self.inputs.len()
            invariant
                i <= self.inputs.len(),
                specs.len() == i,
                forall|k: int| 0 <= k < i ==> specs@[k] == self@.specs()[k],
            decreases self.inputs.len() - i,
        {
            specs.push(self.inputs[i].feature_spec());
            i += 1;
        }
        assert(specs@ =~= self@.specs());
        specs
    }

    /// The numbers of columns have to agree with the schema.
    pub fn check_dims(&self, n_inputs: usize, n_outputs: usize) -> (out: Result<(), String>)
        ensures
            match out {
                Ok(()) => self@.inputs.len() == n_inputs && self@.outputs.len() == n_outputs,
                Err(e) => !(self@.inputs.len() == n_inputs && self@.outputs.len() == n_outputs)
                    && e@ == dims_text(n_inputs as nat, n_outputs as nat),
            },
    {
        if self.inputs.len() == n_inputs && self.outputs.len() == n_outputs {
            Ok(())
        } else {
            Err(dims_message(n_inputs, n_outputs))
        }
    }

    pub fn same_as(&self, other: &ModelSchema) -> (yes: bool)
        ensures
            yes == (self@ == other@),
    {
        same_columns(&self.inputs, &other.inputs) && same_columns(&self.outputs, &other.outputs)
    }
}

proof fn lemma_decimals_differ(a: nat, b: nat)
    requires
        decimal(a) == decimal(b),
    ensures
        a == b,
{
    lemma_decimal(a);
    lemma_decimal(b);
}

/// A schema without names keeps the kinds of its inputs, and no two of its
/// columns have one name.
pub proof fn law_synthetic_columns_have_names_of_their_own(specs: Seq<FeatureSpec>, n_outputs: nat)
    ensures
        ({
            let s = synthetic_schema(specs, n_outputs);
            &&& s.inputs.len() == specs.len()
            &&& s.outputs.len() == n_outputs
            &&& s.specs() == specs
            &&& forall|i: int, j: int|
                #![trigger s.columns()[i], s.columns()[j]]
                0 <= i < j < s.columns().len() ==> s.columns()[i].name != s.columns()[j].name
            &&& forall|i: int|
                #![trigger s.inputs[i]]
                0 <= i < s.inputs.len() ==> s.inputs[i].role is Input
                    && s.inputs[i].unit is None && (s.inputs[i].levels matches Some(levels)
                    ==> levels.no_duplicates())
            &&& forall|j: int|
                #![trigger s.outputs[j]]
                0 <= j < n_outputs ==> s.outputs[j].role is Output && s.outputs[j].levels is None
                    && s.outputs[j].unit is None
        }),
{
    let s = synthetic_schema(specs, n_outputs);
    let n = specs.len();
    assert(s.specs() =~= specs) by {
        assert forall|i: int| 0 <= i < n implies s.specs()[i] == specs[i] by {
            match specs[i] {
                FeatureSpec::Continuous => {},
                FeatureSpec::Categorical { cardinality } => {
                    assert(synthetic_levels(cardinality as nat).len() == cardinality);
                },
            }
        }
    }
    assert forall|i: int, j: int|
        #![trigger s.columns()[i], s.columns()[j]]
        0 <= i < j < s.columns().len() implies s.columns()[i].name != s.columns()[j].name by {
        let a = s.columns()[i].name;
        let b = s.columns()[j].name;
        let x = if i < n {
            i as nat
        } else {
            (i - n) as nat
        };
        let y = if j < n {
            j as nat
        } else {
            (j - n) as nat
        };
        assert(a.skip(1) =~= decimal(x));
        assert(b.skip(1) =~= decimal(y));
        assert(a[0] == if i < n {
            'x'
        } else {
            'y'
        });
        assert(b[0] == if j < n {
            'x'
        } else {
            'y'
        });
        if a == b {
            lemma_decimals_differ(x, y);
        }
    }
    assert forall|i: int| #![trigger s.inputs[i]] 0 <= i < s.inputs.len() implies s.inputs[i].role is Input
        && s.inputs[i].unit is None && (s.inputs[i].levels matches Some(levels)
        ==> levels.no_duplicates()) by {
        if let FeatureSpec::Categorical { cardinality } = specs[i] {
            let levels = synthetic_levels(cardinality as nat);
            assert forall|p: int, q: int| 0 <= p < q < levels.len() implies levels[p]
                != levels[q] by {
                if levels[p] == levels[q] {
                    lemma_decimals_differ(p as nat, q as nat);
                }
            }
        }
    }
}

/// Columns are the same only if they agree in everything: the name, the role,
/// the labels one by one, and the unit.
pub proof fn law_same_columns_agree_in_everything(a: Column, b: Column)
    ensures
        a@ == b@ <==> {
            &&& a.name@ == b.name@
            &&& a.role == b.role
            &&& match (a.ty, b.ty) {
                (ColumnType::Numeric, ColumnType::Numeric) => true,
                (
                    ColumnType::Categorical { levels: x },
                    ColumnType::Categorical { levels: y },
                ) => x@.len() == y@.len() && forall|i: int|
                    #![trigger x@[i]]
                    0 <= i < x@.len() ==> x@[i]@ == y@[i]@,
                _ => false,
            }
            &&& match (a.unit, b.unit) {
                (None, None) => true,
                (Some(x), Some(y)) => x@ == y@,
                _ => false,
            }
        },
{
    if let ColumnType::Categorical { levels: x } = a.ty {
        if let ColumnType::Categorical { levels: y } = b.ty {
            if a@ == b@ {
                assert(texts(x@).len() == texts(y@).len());
                assert forall|i: int| #![trigger x@[i]] 0 <= i < x@.len() implies x@[i]@
                    == y@[i]@ by {
                    assert(texts(x@)[i] == texts(y@)[i]);
                }
            }
            if x@.len() == y@.len() && forall|i: int|
                #![trigger x@[i]]
                0 <= i < x@.len() ==> x@[i]@ == y@[i]@ {
                assert(texts(x@) =~= texts(y@));
            }
        }
    }
}

/// Schemas are the same only if they have the same columns in the same order.
pub proof fn law_same_schemas_have_the_same_columns(a: ModelSchema, b: ModelSchema)
    ensures
        a@ == b@ <==> {
            &&& a.inputs@.len() == b.inputs@.len()
            &&& a.outputs@.len() == b.outputs@.len()
            &&& forall|i: int|
                #![trigger a.inputs@[i]]
                0 <= i < a.inputs@.len() ==> a.inputs@[i]@ == b.inputs@[i]@
            &&& forall|j: int|
                #![trigger a.outputs@[j]]
                0 <= j < a.outputs@.len() ==> a.outputs@[j]@ == b.outputs@[j]@
        },
{
    if a@ == b@ {
        assert(column_views(a.inputs@).len() == column_views(b.inputs@).len());
        assert(column_views(a.outputs@).len() == column_views(b.outputs@).len());
        assert forall|i: int| #![trigger a.inputs@[i]] 0 <= i < a.inputs@.len() implies a.inputs@[i]@
            == b.inputs@[i]@ by {
            assert(column_views(a.inputs@)[i] == column_views(b.inputs@)[i]);
        }
        assert forall|i: int| #![trigger a.outputs@[i]] 0 <= i < a.outputs@.len() implies a.outputs@[i]@
            == b.outputs@[i]@ by {
            assert(column_views(a.outputs@)[i] == column_views(b.outputs@)[i]);
        }
    }
    if a.inputs@.len() == b.inputs@.len() && a.outputs@.len() == b.outputs@.len() && (forall|i: int|
        #![trigger a.inputs@[i]]
        0 <= i < a.inputs@.len() ==> a.inputs@[i]@ == b.inputs@[i]@) && (forall|j: int|
        #![trigger a.outputs@[j]]
        0 <= j < a.outputs@.len() ==> a.outputs@[j]@ == b.outputs@[j]@) {
        assert(column_views(a.inputs@) =~= column_views(b.inputs@));
        assert(column_views(a.outputs@) =~= column_views(b.outputs@));
    }
}

} // verus!
