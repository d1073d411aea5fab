//! What is said of a file that is refused.

use crate::schema::{copied_ruling, dims_message, dims_text, Ruling, SchemaRulings};
use crate::text::{decimal, decimal_text, owned, text_of};
use crate::tnum::header::{directive, number, quoted, unit_at, TnumError, What};
use crate::tnum::token::{LexFault, Lexeme};
use crate::tnum::values::DataFault;
use vstd::prelude::*;
use vstd::string::StringExecFns;

verus! {

impl What {
    pub open spec fn name(self) -> Seq<char> {
        match self {
            What::Magic => "магию TRNUM1/TRNUM2"@,
            What::Inputs => "inputs"@,
            What::InputCount => "число входов"@,
            What::Outputs => "outputs"@,
            What::OutputCount => "число выходов"@,
            What::Specs => "specs"@,
            What::FeatureType => "тип признака"@,
            What::Names => "names"@,
            What::ColumnName(i) => "имя колонки "@ + decimal(i as nat),
            What::Units => "units"@,
            What::Unit => "единицу измерения"@,
            What::Levels => "levels"@,
            What::LevelsIndex => "индекс категориального входа"@,
            What::LevelLabel { level, input } => "подпись уровня "@ + decimal(level as nat)
                + " входа "@ + decimal(input as nat),
            What::Rows => "rows"@,
            What::RowCount => "число строк"@,
            What::Data => "data"@,
            What::InputValue => "входное значение"@,
            What::OutputValue => "выходное значение"@,
        }
    }

    pub fn label(self) -> (text: String)
        ensures
            text@ == self.name(),
    {
        match self {
            What::Magic => owned("магию TRNUM1/TRNUM2"),
            What::Inputs => owned("inputs"),
            What::InputCount => owned("число входов"),
            What::Outputs => owned("outputs"),
            What::OutputCount => owned("число выходов"),
            What::Specs => owned("specs"),
            What::FeatureType => owned("тип признака"),
            What::Names => owned("names"),
            What::ColumnName(i) => {
                let mut text: String = owned("имя колонки ");
                text.append(decimal_text(i as u64).as_str());
                text
            },
            What::Units => owned("units"),
            What::Unit => owned("единицу измерения"),
            What::Levels => owned("levels"),
            What::LevelsIndex => owned("индекс категориального входа"),
            What::LevelLabel { level, input } => {
                let mut text: String = owned("подпись уровня ");
                text.append(decimal_text(level as u64).as_str());
                text.append(" входа ");
                text.append(decimal_text(input as u64).as_str());
                text
            },
            What::Rows => owned("rows"),
            What::RowCount => owned("число строк"),
            What::Data => owned("data"),
            What::InputValue => owned("входное значение"),
            What::OutputValue => owned("выходное значение"),
        }
    }
}

impl LexFault {
    pub open spec fn text(self) -> Seq<char> {
        match self {
            LexFault::OpenQuote => "незакрытая кавычка"@,
            LexFault::UnknownEscape(c) => "неизвестная escape-последовательность \\"@ + seq![c],
            LexFault::NoGap => "после закрывающей кавычки нужен пробел или комментарий"@,
        }
    }

    pub fn message(self) -> (text: String)
        ensures
            text@ == self.text(),
    {
        match self {
            LexFault::OpenQuote => owned("незакрытая кавычка"),
            LexFault::UnknownEscape(c) => {
                let mut text: String = owned("неизвестная escape-последовательность \\");
                text.append(text_of(c).as_str());
                text
            },
            LexFault::NoGap => owned("после закрывающей кавычки нужен пробел или комментарий"),
        }
    }
}

impl TnumError {
    /// The number of the offending token, where there is one.
    pub open spec fn token_number(self) -> Option<usize> {
        match self {
            TnumError::NotMagic { at } => Some(at),
            TnumError::Unexpected { at, .. } => Some(at),
            TnumError::NotNumber { at, .. } => Some(at),
            TnumError::QuotedNumber { at, .. } => Some(at),
            TnumError::Unquoted { at, .. } => Some(at),
            TnumError::QuotedType { at } => Some(at),
            TnumError::BadCardinality { at } => Some(at),
            TnumError::UnknownType { at } => Some(at),
            TnumError::BlankUnit { at } => Some(at),
            TnumError::BareUnit { at } => Some(at),
            _ => None,
        }
    }

    pub fn place(&self) -> (at: Option<usize>)
        ensures
            at == self.token_number(),
    {
        match *self {
            TnumError::NotMagic { at } => Some(at),
            TnumError::Unexpected { at, .. } => Some(at),
            TnumError::NotNumber { at, .. } => Some(at),
            TnumError::QuotedNumber { at, .. } => Some(at),
            TnumError::Unquoted { at, .. } => Some(at),
            TnumError::QuotedType { at } => Some(at),
            TnumError::BadCardinality { at } => Some(at),
            TnumError::UnknownType { at } => Some(at),
            TnumError::BlankUnit { at } => Some(at),
            TnumError::BareUnit { at } => Some(at),
            _ => None,
        }
    }

    /// What the rules say, of a refused column or schema.
    pub open spec fn refusal_in(self, rulings: SchemaRulings) -> Option<Seq<char>> {
        match self {
            TnumError::RefusedColumn { column } => if rulings.refuses(column as int) {
                Some(rulings.columns@[column as int]->Err_0@)
            } else {
                None
            },
            TnumError::RefusedSchema => match rulings.schema {
                Err(e) => Some(e@),
                Ok(()) => None,
            },
            _ => None,
        }
    }

    pub fn refusal(&self, rulings: &SchemaRulings) -> (text: Option<String>)
        ensures
            match text {
                Some(t) => self.refusal_in(*rulings) == Some(t@),
                None => self.refusal_in(*rulings) is None,
            },
    {
        let ruling: Ruling = match *self {
            TnumError::RefusedColumn { column } => rulings.column(column),
            TnumError::RefusedSchema => copied_ruling(&rulings.schema),
            _ => Ok(()),
        };
        match ruling {
            Ok(()) => None,
            Err(e) => Some(e),
        }
    }

    /// The offending token has the characters `token`, and is printed with
    /// its kind as `shown`. Of a refused column or schema `token` is what the
    /// rules say.
    pub open spec fn text(self, token: Seq<char>, shown: Seq<char>) -> Seq<char> {
        match self {
            TnumError::Lex { line, fault } => "строка "@ + decimal(line as nat) + ": "@
                + fault.text(),
            TnumError::Ended(what) => "ожидали "@ + what.name() + ", файл закончился"@,
            TnumError::NotMagic { .. } => "ожидали магию TRNUM1 или TRNUM2, получили "@ + shown,
            TnumError::Unexpected { word, .. } => "ожидали '"@ + word.name() + "', получили "@
                + shown,
            TnumError::NotNumber { what, .. } => "не удалось прочитать "@ + what.name() + ": '"@
                + token + "'"@,
            TnumError::QuotedNumber { what, .. } => what.name() + " не может быть строкой: '"@
                + token + "'"@,
            TnumError::Unquoted { what, .. } => what.name()
                + " должно быть в кавычках, получили '"@ + token + "'"@,
            TnumError::TooManyColumns => "суммарное число колонок не помещается в usize"@,
            TnumError::QuotedType { .. } => "тип признака не строка: '"@ + token + "'"@,
            TnumError::BadCardinality { .. } => "неверная cardinality в specs: "@ + token,
            TnumError::UnknownType { .. } => "неизвестный тип признака в specs: "@ + token,
            TnumError::BlankUnit { .. } => "пустая единица измерения: используйте '-'"@,
            TnumError::BareUnit { .. } =>
                "единица измерения должна быть в кавычках или '-', получили '"@ + token + "'"@,
            TnumError::NotCategorical { input } => "levels "@ + decimal(input as nat)
                + ": вход не категориальный"@,
            TnumError::NoSuchInput { input, n_inputs } => "levels "@ + decimal(input as nat)
                + ": индекс вне диапазона 0.."@ + decimal(n_inputs as nat),
            TnumError::RepeatedLevels { input } => "levels "@ + decimal(input as nat)
                + ": повторная секция"@,
            TnumError::MissingLevels { input, cardinality } => "вход "@ + decimal(input as nat)
                + " объявлен как K:"@ + decimal(cardinality as nat) + ", но секции levels "@
                + decimal(input as nat) + " нет"@,
            TnumError::RefusedColumn { .. } => token,
            TnumError::RefusedSchema => token,
            TnumError::TooManyValues => "размер секции data не помещается в usize"@,
            TnumError::ValueCount { expected, rows, columns, found } =>
                "в секции data ожидалось "@ + decimal(expected as nat) + " значений ("@ + decimal(
                rows as nat,
            ) + " × "@ + decimal(columns as nat) + "), получено "@ + decimal(found as nat),
        }
    }

    pub fn message(&self, token: &str, shown: &str) -> (text: String)
        ensures
            text@ == self.text(token@, shown@),
    {
        match *self {
            TnumError::Lex { line, fault } => {
                let mut text: String = owned("строка ");
                text.append(decimal_text(line as u64).as_str());
                text.append(": ");
                text.append(fault.message().as_str());
                text
            },
            TnumError::Ended(what) => {
                let mut text: String = owned("ожидали ");
                text.append(what.label().as_str());
                text.append(", файл закончился");
                text
            },
            TnumError::NotMagic { .. } => {
                let mut text: String = owned("ожидали магию TRNUM1 или TRNUM2, получили ");
                text.append(shown);
                text
            },
            TnumError::Unexpected { word, .. } => {
                let mut text: String = owned("ожидали '");
                text.append(word.label().as_str());
                text.append("', получили ");
                text.append(shown);
                text
            },
            TnumError::NotNumber { what, .. } => {
                let mut text: String = owned("не удалось прочитать ");
                text.append(what.label().as_str());
                text.append(": '");
                text.append(token);
                text.append("'");
                text
            },
            TnumError::QuotedNumber { what, .. } => {
                let mut text: String = what.label();
                text.append(" не может быть строкой: '");
                text.append(token);
                text.append("'");
                text
            },
            TnumError::Unquoted { what, .. } => {
                let mut text: String = what.label();
                text.append(" должно быть в кавычках, получили '");
                text.append(token);
                text.append("'");
                text
            },
            TnumError::TooManyColumns => owned("суммарное число колонок не помещается в usize"),
            TnumError::QuotedType { .. } => {
                let mut text: String = owned("тип признака не строка: '");
                text.append(token);
                text.append("'");
                text
            },
            TnumError::BadCardinality { .. } => {
                let mut text: String = owned("неверная cardinality в specs: ");
                text.append(token);
                text
            },
            TnumError::UnknownType { .. } => {
                let mut text: String = owned("неизвестный тип признака в specs: ");
                text.append(token);
                text
            },
            TnumError::BlankUnit { .. } => owned("пустая единица измерения: используйте '-'"),
            TnumError::BareUnit { .. } => {
                let mut text: String = owned(
                    "единица измерения должна быть в кавычках или '-', получили '",
                );
                text.append(token);
                text.append("'");
                text
            },
            TnumError::NotCategorical { input } => {
                let mut text: String = owned("levels ");
                text.append(decimal_text(input as u64).as_str());
                text.append(": вход не категориальный");
                text
            },
            TnumError::NoSuchInput { input, n_inputs } => {
                let mut text: String = owned("levels ");
                text.append(decimal_text(input as u64).as_str());
                text.append(": индекс вне диапазона 0..");
                text.append(decimal_text(n_inputs as u64).as_str());
                text
            },
            TnumError::RepeatedLevels { input } => {
                let mut text: String = owned("levels ");
                text.append(decimal_text(input as u64).as_str());
                text.append(": повторная секция");
                text
            },
            TnumError::MissingLevels { input, cardinality } => {
                let mut text: String = owned("вход ");
                text.append(decimal_text(input as u64).as_str());
                text.append(" объявлен как K:");
                text.append(decimal_text(cardinality as u64).as_str());
                text.append(", но секции levels ");
                text.append(decimal_text(input as u64).as_str());
                text.append(" нет");
                text
            },
            TnumError::RefusedColumn { .. } => owned(token),
            TnumError::RefusedSchema => owned(token),
            TnumError::TooManyValues => owned("размер секции data не помещается в usize"),
            TnumError::ValueCount { expected, rows, columns, found } => {
                let mut text: String = owned("в секции data ожидалось ");
                text.append(decimal_text(expected as u64).as_str());
                text.append(" значений (");
                text.append(decimal_text(rows as u64).as_str());
                text.append(" × ");
                text.append(decimal_text(columns as u64).as_str());
                text.append("), получено ");
                text.append(decimal_text(found as u64).as_str());
                text
            },
        }
    }
}

impl DataFault {
    /// The offending value is printed as `value`; of a code out of its range
    /// that is the whole number next to it.
    pub open spec fn text(self, value: Seq<char>) -> Seq<char> {
        match self {
            DataFault::Dims { inputs, outputs } => dims_text(inputs as nat, outputs as nat),
            DataFault::InputNotFinite { row, input } => "строка "@ + decimal(row as nat)
                + ", вход "@ + decimal(input as nat) + ": значение не конечно: "@ + value,
            DataFault::CodeNotInteger { row, input } => "строка "@ + decimal(row as nat)
                + ", вход "@ + decimal(input as nat)
                + ": код категории должен быть целым, получено "@ + value,
            DataFault::CodeOutOfRange { row, input, cardinality } => "строка "@ + decimal(
                row as nat,
            ) + ", вход "@ + decimal(input as nat) + ": категория "@ + value + " вне [0, "@
                + decimal(cardinality as nat) + ")"@,
            DataFault::OutputNotFinite { row, output } => "строка "@ + decimal(row as nat)
                + ", выход "@ + decimal(output as nat) + ": значение не конечно: "@ + value,
        }
    }

    pub fn message(&self, value: &str) -> (text: String)
        ensures
            text@ == self.text(value@),
    {
        match *self {
            DataFault::Dims { inputs, outputs } => dims_message(inputs, outputs),
            DataFault::InputNotFinite { row, input } => {
                let mut text: String = owned("строка ");
                text.append(decimal_text(row as u64).as_str());
                text.append(", вход ");
                text.append(decimal_text(input as u64).as_str());
                text.append(": значение не конечно: ");
                text.append(value);
                text
            },
            DataFault::CodeNotInteger { row, input } => {
                let mut text: String = owned("строка ");
                text.append(decimal_text(row as u64).as_str());
                text.append(", вход ");
                text.append(decimal_text(input as u64).as_str());
                text.append(": код категории должен быть целым, получено ");
                text.append(value);
                text
            },
            DataFault::CodeOutOfRange { row, input, cardinality } => {
                let mut text: String = owned("строка ");
                text.append(decimal_text(row as u64).as_str());
                text.append(", вход ");
                text.append(decimal_text(input as u64).as_str());
                text.append(": категория ");
                text.append(value);
                text.append(" вне [0, ");
                text.append(decimal_text(cardinality as u64).as_str());
                text.append(")");
                text
            },
            DataFault::OutputNotFinite { row, output } => {
                let mut text: String = owned("строка ");
                text.append(decimal_text(row as u64).as_str());
                text.append(", выход ");
                text.append(decimal_text(output as u64).as_str());
                text.append(": значение не конечно: ");
                text.append(value);
                text
            },
        }
    }
}

/// An error about a token that is there points to that very token; only an
/// error about one that is missing points to none.
pub proof fn law_errors_point_to_their_token(toks: Seq<Lexeme>, i: int, what: What)
    requires
        0 <= i,
        toks.len() <= usize::MAX,
    ensures
        directive(toks, i, what) matches Err(e) ==> e.token_number() == if i < toks.len() {
            Some(i as usize)
        } else {
            None
        },
        number(toks, i, what) matches Err(e) ==> e.token_number() == if i < toks.len() {
            Some(i as usize)
        } else {
            None
        },
        quoted(toks, i, what) matches Err(e) ==> e.token_number() == if i < toks.len() {
            Some(i as usize)
        } else {
            None
        },
        unit_at(toks, i) matches Err(e) ==> e.token_number() == if i < toks.len() {
            Some(i as usize)
        } else {
            None
        },
{
}

/// What is said of a refused column or schema is what the rules said of it.
pub proof fn law_refusals_are_said_in_the_words_of_the_rules(
    rulings: SchemaRulings,
    column: usize,
    text: String,
)
    ensures
        column < rulings.columns@.len() && rulings.columns@[column as int] == Err::<(), String>(text)
            ==> (TnumError::RefusedColumn { column }).refusal_in(rulings) == Some(text@),
        rulings.schema == Err::<(), String>(text) ==> TnumError::RefusedSchema.refusal_in(rulings)
            == Some(text@),
{
}

} // verus!
