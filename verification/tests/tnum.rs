//! The `.tnum` format: reading, writing, and what is said of a refused file.

use transformer::data::{Matrix, NumericDataset};
use transformer::encoders::FeatureSpec;
use transformer::schema::{Column, ColumnRole, ModelSchema, SchemaRulings};
use transformer::single::Single;
use transformer::tnum::header::{
    parse_feature_spec, parse_numeric_tnum, read_header, TnumError, TypeFault, What,
};
use transformer::tnum::token::{tokenize, LexFault, Token};
use transformer::tnum::values::{validate_numeric_tnum, DataFault, ValueError};
use transformer::tnum::writer::{quote, write_numeric_tnum};

fn s(v: f32) -> Single {
    Single { bits: v.to_bits() }
}

fn number(v: Single) -> f32 {
    f32::from_bits(v.bits)
}

fn matrix(cols: usize, rows: &[&[f32]]) -> Matrix {
    let rows = rows.iter().map(|r| r.iter().map(|&v| s(v)).collect()).collect();
    Matrix::from_rows(cols, rows).unwrap()
}

fn data(inputs: Matrix, outputs: Matrix) -> NumericDataset {
    NumericDataset::new(inputs, outputs)
}

fn numbers(m: &Matrix) -> Vec<Vec<f32>> {
    m.rows.iter().map(|r| r.iter().map(|&v| number(v)).collect()).collect()
}

/// The rules have nothing to say.
fn accepted() -> SchemaRulings {
    SchemaRulings { columns: vec![], schema: Ok(()) }
}

fn explain(error: &TnumError, tokens: &[Token]) -> String {
    match error.place() {
        Some(at) => {
            let token = &tokens[at];
            let text = match token {
                Token::Bare(t) => t,
                Token::Quoted(t) => t,
            };
            error.message(text, &format!("{token:?}"))
        }
        None => error.message("", ""),
    }
}

fn explain_data(fault: &DataFault, inputs: &Matrix, outputs: &Matrix) -> String {
    let shown = match *fault {
        DataFault::Dims { .. } => String::new(),
        DataFault::InputNotFinite { row, input } => format!("{}", number(inputs.at(row, input))),
        DataFault::CodeNotInteger { row, input } => format!("{}", number(inputs.at(row, input))),
        DataFault::CodeOutOfRange { row, input, .. } => {
            format!("{}", number(inputs.at(row, input)).round())
        }
        DataFault::OutputNotFinite { row, output } => format!("{}", number(outputs.at(row, output))),
    };
    fault.message(&shown)
}

/// Reads a whole file, or says why it is refused.
fn read(text: &str) -> Result<(NumericDataset, ModelSchema), String> {
    let document = match parse_numeric_tnum(text, &accepted()) {
        Ok(document) => document,
        Err(failure) => return Err(explain(&failure.error, &failure.tokens)),
    };
    let values: Vec<Option<Single>> = document.tokens[document.at..]
        .iter()
        .map(|t| match t {
            Token::Bare(word) => word.parse::<f32>().ok().map(s),
            Token::Quoted(_) => None,
        })
        .collect();
    match document.dataset(&values) {
        Ok(data) => Ok((data, document.schema)),
        Err(ValueError::Token(e)) => Err(explain(&e, &document.tokens)),
        Err(ValueError::Data(fault)) => {
            let n = document.schema.n_inputs();
            let cols = n + document.schema.n_outputs();
            let flat: Vec<Single> = values.iter().map(|v| v.unwrap()).collect();
            let inputs = flat.chunks(cols).map(|row| row[..n].to_vec()).collect();
            let outputs = flat.chunks(cols).map(|row| row[n..].to_vec()).collect();
            Err(explain_data(
                &fault,
                &Matrix { cols: n, rows: inputs },
                &Matrix { cols: cols - n, rows: outputs },
            ))
        }
    }
}

fn write(schema: &ModelSchema, data: &NumericDataset) -> Result<String, String> {
    let shown: Vec<Vec<String>> = (0..data.len())
        .map(|r| {
            data.inputs.rows[r]
                .iter()
                .chain(data.outputs.rows[r].iter())
                .map(|&v| format!("{}", number(v)))
                .collect()
        })
        .collect();
    write_numeric_tnum(schema, data, &shown)
        .map_err(|fault| explain_data(&fault, &data.inputs, &data.outputs))
}

fn rich_schema() -> ModelSchema {
    ModelSchema::new(
        vec![
            Column::numeric("температура, °C", ColumnRole::Input, Ok(())).unwrap().with_unit("°C"),
            Column::categorical(
                "материал",
                ColumnRole::Input,
                vec![
                    "песок".to_string(),
                    "глина \"жирная\"".to_string(),
                    "торф # верховой\nвлажный\\слой".to_string(),
                ],
                Ok(()),
            )
            .unwrap(),
            Column::numeric("rows", ColumnRole::Input, Ok(())).unwrap(),
        ],
        vec![Column::numeric("влажность", ColumnRole::Output, Ok(()))
            .unwrap()
            .with_unit("%\tмас.")],
        Ok(()),
    )
    .unwrap()
}

fn rich_data() -> NumericDataset {
    data(
        matrix(3, &[&[80.0, 0.0, 1.5], &[60.0, 2.0, 2.5]]),
        matrix(1, &[&[12.5], &[18.25]]),
    )
}

#[test]
fn read_numeric_tnum_file() {
    let (ds, schema) =
        read("TRNUM1\ninputs 2\noutputs 1\nspecs C C\nrows 2\ndata\n1 2 3\n4 5 9\n").unwrap();
    assert_eq!(
        schema.feature_specs(),
        vec![FeatureSpec::Continuous, FeatureSpec::Continuous]
    );
    assert_eq!((ds.inputs.nrows(), ds.inputs.ncols()), (2, 2));
    assert_eq!((ds.outputs.nrows(), ds.outputs.ncols()), (2, 1));
    assert_eq!(number(ds.outputs.at(1, 0)), 9.0);
}

#[test]
fn trnum2_round_trip_keeps_names_units_and_levels() {
    let schema = rich_schema();
    let text = write(&schema, &rich_data()).unwrap();
    assert!(text.starts_with("TRNUM2\n"), "{text}");

    let (ds, back) = read(&text).unwrap();
    assert!(back.same_as(&schema));
    assert_eq!(back.input_names(), vec!["температура, °C", "материал", "rows"]);
    assert_eq!(back.output_names(), vec!["влажность"]);
    assert_eq!(back.inputs[0].unit.as_deref(), Some("°C"));
    assert_eq!(back.outputs[0].unit.as_deref(), Some("%\tмас."));
    assert_eq!(back.inputs[1].category_level(1).unwrap(), "глина \"жирная\"");
    assert_eq!(
        back.inputs[1].category_level(2).unwrap(),
        "торф # верховой\nвлажный\\слой"
    );
    assert!(text.contains("\\n"), "{text}");
    assert!(text.contains("\\t"), "{text}");
    assert_eq!(numbers(&ds.inputs), numbers(&rich_data().inputs));
    assert_eq!(numbers(&ds.outputs), numbers(&rich_data().outputs));
}

#[test]
fn trnum2_omits_units_line_when_none() {
    let schema = ModelSchema::synthetic(2, 1, Ok(())).unwrap();
    let data = data(matrix(2, &[&[1.0, 2.0]]), matrix(1, &[&[3.0]]));
    let text = write(&schema, &data).unwrap();
    assert!(!text.contains("units"), "{text}");
    assert!(read(&text).unwrap().1.same_as(&schema));
}

#[test]
fn comment_inside_quotes_is_kept_but_outside_is_stripped() {
    let text = "TRNUM2  # заголовок\ninputs 1\noutputs 1\nspecs C\nnames \"a # b\" \"y\"\nrows 1\ndata\n1 2\n";
    let (_, schema) = read(text).unwrap();
    assert_eq!(schema.input_names(), vec!["a # b"]);
}

#[test]
fn trnum2_rejects_malformed_headers() {
    let base = "TRNUM2\ninputs 1\noutputs 1\nspecs C\nnames \"x\" \"y\"\nrows 1\ndata\n1 2\n";
    assert!(read(base).is_ok());

    assert!(read("TRNUM2\ninputs 1\noutputs 1\nspecs C\nnames x y\nrows 1\ndata\n1 2\n").is_err());
    assert!(
        read("TRNUM2\ninputs 1\noutputs 1\nspecs C\nnames \"x \"y\"\nrows 1\ndata\n1 2\n").is_err()
    );
    assert!(read(
        "TRNUM2\ninputs 2\noutputs 1\nspecs C C\nnames \"x\" \"y\"\nrows 1\ndata\n1 2 3\n"
    )
    .is_err());
    assert!(read(&format!("{base}9 9\n")).is_err());
    assert!(
        read("TRNUM2\ninputs 1\noutputs 1\nspecs C\nnames \"x\" \"y\"\nrows 2\ndata\n1 2\n").is_err()
    );
    assert!(read(
        "TRNUM2\ninputs 1\noutputs 1\nspecs C\nnames \"a\\qb\" \"y\"\nrows 1\ndata\n1 2\n"
    )
    .is_err());
    assert!(
        read("TRNUM2\ninputs 1\noutputs 1\nspecs C\nnames \"x\"\"y\"\nrows 1\ndata\n1 2\n").is_err()
    );
    assert!(read(
        "TRNUM2\ninputs 1\noutputs 1\nspecs C\nnames \"x\" \"y\"\nunits \"\" -\nrows 1\ndata\n1 2\n"
    )
    .is_err());
    let oversized = format!(
        "TRNUM2\ninputs 1\noutputs 1\nspecs C\nnames \"x\" \"y\"\nrows {}\ndata\n",
        usize::MAX
    );
    assert!(read(&oversized).err().unwrap().contains("не помещается"));
}

#[test]
fn categorical_without_levels_is_an_error() {
    assert!(
        read("TRNUM2\ninputs 1\noutputs 1\nspecs K:2\nnames \"m\" \"y\"\nrows 1\ndata\n0 2\n").is_err()
    );
    assert!(read(
        "TRNUM2\ninputs 1\noutputs 1\nspecs C\nnames \"m\" \"y\"\nlevels 0 \"a\"\nrows 1\ndata\n0 2\n"
    )
    .is_err());
    assert!(read(
        "TRNUM2\ninputs 1\noutputs 1\nspecs K:1\nnames \"m\" \"y\"\nlevels 0 \"a\"\nlevels 0 \"b\"\nrows 1\ndata\n0 2\n"
    )
    .is_err());
}

#[test]
fn writer_checks_dims_and_category_codes() {
    let schema = rich_schema();
    let wrong = data(matrix(2, &[&[1.0, 0.0]]), matrix(1, &[&[1.0]]));
    assert!(write(&schema, &wrong).is_err());

    let fractional = data(matrix(3, &[&[80.0, 0.5, 1.0]]), matrix(1, &[&[1.0]]));
    assert!(write(&schema, &fractional).unwrap_err().contains("целым"));

    let out_of_range = data(matrix(3, &[&[80.0, 7.0, 1.0]]), matrix(1, &[&[1.0]]));
    assert!(write(&schema, &out_of_range).unwrap_err().contains("вне [0, 3)"));

    let non_finite = data(matrix(3, &[&[f32::NAN, 0.0, 1.0]]), matrix(1, &[&[1.0]]));
    assert!(write(&schema, &non_finite).unwrap_err().contains("не конечно"));
}

#[test]
fn reader_checks_values_from_external_files() {
    assert!(read("TRNUM1\ninputs 1\noutputs 1\nspecs K:2\nrows 1\ndata\n0.5 2\n")
        .err()
        .unwrap()
        .contains("целым"));

    assert!(read(
        "TRNUM2\ninputs 1\noutputs 1\nspecs K:2\nnames \"material\" \"y\"\nlevels 0 \"a\" \"b\"\nrows 1\ndata\n2 3\n"
    )
    .err()
    .unwrap()
    .contains("вне [0, 2)"));

    assert!(read("TRNUM1\ninputs 1\noutputs 1\nspecs C\nrows 1\ndata\nNaN 2\n")
        .err()
        .unwrap()
        .contains("не конечно"));
}

#[test]
fn legacy_trnum1_still_reads_with_categorical() {
    let (ds, schema) =
        read("TRNUM1\ninputs 2\noutputs 1\nspecs C K:3\nrows 2\ndata\n1 0 3\n4 2 9\n").unwrap();
    assert_eq!(schema.input_names(), vec!["x0", "x1"]);
    assert_eq!(schema.output_names(), vec!["y0"]);
    assert_eq!(
        schema.feature_specs(),
        vec![FeatureSpec::Continuous, FeatureSpec::Categorical { cardinality: 3 }]
    );
    assert_eq!(schema.inputs[1].category_level(2).unwrap(), "2");
    assert_eq!(number(ds.outputs.at(1, 0)), 9.0);
    assert!(read("TRNUM1 inputs 1 outputs 1 specs C rows 1 # хвост\ndata\n1 2\n").is_ok());
}

#[test]
fn a_written_file_is_laid_out_line_by_line() {
    let text = write(&rich_schema(), &rich_data()).unwrap();
    assert_eq!(
        text,
        "TRNUM2\ninputs 3\noutputs 1\nspecs C K:3 C\nnames \"температура, °C\" \"материал\" \"rows\" \"влажность\"\nunits \"°C\" - - \"%\\tмас.\"\nlevels 1 \"песок\" \"глина \\\"жирная\\\"\" \"торф # верховой\\nвлажный\\\\слой\"\nrows 2\ndata\n80 0 1.5 12.5\n60 2 2.5 18.25\n"
    );
}

#[test]
fn every_refusal_is_explained() {
    let said = |text: &str| read(text).err().unwrap();
    assert_eq!(said(""), "ожидали магию TRNUM1/TRNUM2, файл закончился");
    assert_eq!(
        said("TRNUM3"),
        "ожидали магию TRNUM1 или TRNUM2, получили Bare(\"TRNUM3\")"
    );
    assert_eq!(
        said("\"TRNUM1\""),
        "ожидали магию TRNUM1 или TRNUM2, получили Quoted(\"TRNUM1\")"
    );
    assert_eq!(said("TRNUM1 outputs"), "ожидали 'inputs', получили Bare(\"outputs\")");
    assert_eq!(said("TRNUM1 inputs x"), "не удалось прочитать число входов: 'x'");
    assert_eq!(said("TRNUM1 inputs \"2\""), "число входов не может быть строкой: '2'");
    assert_eq!(
        said(&format!("TRNUM1 inputs {} outputs 1", usize::MAX)),
        "суммарное число колонок не помещается в usize"
    );
    assert_eq!(
        said("TRNUM1 inputs 1 outputs 1 specs \"C\""),
        "тип признака не строка: 'C'"
    );
    assert_eq!(
        said("TRNUM1 inputs 1 outputs 1 specs K:x"),
        "неверная cardinality в specs: K:x"
    );
    assert_eq!(
        said("TRNUM1 inputs 1 outputs 1 specs Z"),
        "неизвестный тип признака в specs: Z"
    );
    let head = "TRNUM2 inputs 1 outputs 1 specs C";
    assert_eq!(
        said(&format!("{head} names \"x\" y")),
        "имя колонки 1 должно быть в кавычках, получили 'y'"
    );
    assert_eq!(
        said(&format!("{head} names \"x\" \"y\" units \" \" -")),
        "пустая единица измерения: используйте '-'"
    );
    assert_eq!(
        said(&format!("{head} names \"x\" \"y\" units kg -")),
        "единица измерения должна быть в кавычках или '-', получили 'kg'"
    );
    assert_eq!(
        said(&format!("{head} names \"x\" \"y\" levels 0 \"a\"")),
        "levels 0: вход не категориальный"
    );
    assert_eq!(
        said(&format!("{head} names \"x\" \"y\" levels 1 \"a\"")),
        "levels 1: индекс вне диапазона 0..1"
    );
    let coded = "TRNUM2 inputs 1 outputs 1 specs K:2 names \"x\" \"y\"";
    assert_eq!(
        said(&format!("{coded} levels 0 \"a\"")),
        "ожидали подпись уровня 1 входа 0, файл закончился"
    );
    assert_eq!(
        said(&format!("{coded} levels 0 \"a\" \"b\" levels 0 \"a\" \"b\"")),
        "levels 0: повторная секция"
    );
    assert_eq!(
        said(&format!("{coded} rows 0 data")),
        "вход 0 объявлен как K:2, но секции levels 0 нет"
    );
    assert_eq!(
        said("TRNUM1 inputs 1 outputs 1 specs C rows 2 data 1 2 3"),
        "в секции data ожидалось 4 значений (2 × 2), получено 3"
    );
    assert_eq!(
        said("TRNUM1 inputs 1 outputs 1 specs C rows 1 data 1 y"),
        "не удалось прочитать выходное значение: 'y'"
    );
    assert_eq!(
        said("TRNUM1 inputs 1 outputs 1 specs C rows 1 data \"1\" 2"),
        "входное значение не может быть строкой: '1'"
    );
    assert_eq!(said("TRNUM1 \"a"), "строка 1: незакрытая кавычка");
    assert_eq!(
        said("TRNUM1\n\"a\\q\""),
        "строка 2: неизвестная escape-последовательность \\q"
    );
    assert_eq!(
        said("\"a\"b"),
        "строка 1: после закрывающей кавычки нужен пробел или комментарий"
    );
    assert_eq!(
        said("TRNUM1 inputs 1 outputs 1 specs C rows 1 data 1 inf"),
        "строка 0, выход 0: значение не конечно: inf"
    );
    assert_eq!(
        said("TRNUM1 inputs 1 outputs 1 specs K:2 rows 1 data -1 1"),
        "строка 0, вход 0: категория -1 вне [0, 2)"
    );
}

#[test]
fn tokens_keep_quotes_apart_from_words() {
    let tokens = tokenize("rows \"rows\" # tail\n\"a\\tb\"").unwrap();
    assert_eq!(tokens.len(), 3);
    assert!(matches!(&tokens[0], Token::Bare(t) if t == "rows"));
    assert!(matches!(&tokens[1], Token::Quoted(t) if t == "rows"));
    assert!(matches!(&tokens[2], Token::Quoted(t) if t == "a\tb"));
    assert_eq!(tokenize("x\n\"a").err().unwrap(), (2, LexFault::OpenQuote));
}

#[test]
fn feature_types_are_read_in_any_case() {
    assert_eq!(parse_feature_spec("CONTINUOUS"), Ok(FeatureSpec::Continuous));
    assert_eq!(
        parse_feature_spec("Categorical:12"),
        Ok(FeatureSpec::Categorical { cardinality: 12 })
    );
    assert_eq!(parse_feature_spec("k:-1"), Err(TypeFault::BadCardinality));
    assert_eq!(parse_feature_spec("x"), Err(TypeFault::UnknownType));
}

#[test]
fn quoting_escapes_what_would_end_a_text() {
    assert_eq!(quote("a\"b\\c\nd\re\tf"), "\"a\\\"b\\\\c\\nd\\re\\tf\"");
}

#[test]
fn errors_say_where_the_token_stands() {
    let failure = parse_numeric_tnum("TRNUM1 inputs x", &accepted()).err().unwrap();
    assert_eq!(failure.error, TnumError::NotNumber { what: What::InputCount, at: 2 });
    assert_eq!(failure.error.place(), Some(2));
    assert_eq!(TnumError::TooManyValues.place(), None);
}

#[test]
fn sound_data_pass_the_checks_of_the_format() {
    assert_eq!(validate_numeric_tnum(&rich_schema(), &rich_data()), Ok(()));
    let wrong = data(matrix(2, &[&[1.0, 0.0]]), matrix(1, &[&[1.0]]));
    assert_eq!(
        validate_numeric_tnum(&rich_schema(), &wrong),
        Err(DataFault::Dims { inputs: 2, outputs: 1 })
    );
}

const NAMED: &str =
    "TRNUM2\ninputs 2\noutputs 1\nspecs C K:2\nnames \"a\" \"b\" \"c\"\nlevels 1 \"p\" \"q\"\nrows 1\ndata\n1 0 2\n";

#[test]
fn a_header_names_the_columns_before_the_rules_are_asked() {
    let header = read_header(NAMED).ok().unwrap();
    assert_eq!(header.n_outputs, 1);
    let named = header.named.as_ref().unwrap();
    assert_eq!(named.names, vec!["a", "b", "c"]);
    assert_eq!(named.units, vec![None, None, None]);
    assert_eq!(named.labels[1], Some(vec!["p".to_string(), "q".to_string()]));
    let document = header.document(&accepted()).ok().unwrap();
    assert_eq!(document.rows, 1);
    assert_eq!(document.schema.input_names(), vec!["a", "b"]);
    assert!(read_header("TRNUM1 inputs 1 outputs 1 specs C").ok().unwrap().named.is_none());
}

#[test]
fn a_refused_column_or_schema_refuses_the_file() {
    let refused = |k: usize| {
        let mut columns = vec![Ok(()), Ok(()), Ok(())];
        columns[k] = Err("имя занято".to_string());
        SchemaRulings { columns, schema: Err("схема пуста".to_string()) }
    };
    for k in 0..3 {
        let rulings = refused(k);
        let failure = parse_numeric_tnum(NAMED, &rulings).err().unwrap();
        assert_eq!(failure.error, TnumError::RefusedColumn { column: k });
        let text = failure.error.refusal(&rulings).unwrap();
        assert_eq!(failure.error.message(&text, ""), "имя занято");
    }
    let rulings = SchemaRulings { columns: vec![], schema: Err("схема пуста".to_string()) };
    for text in [NAMED, "TRNUM1 inputs 1 outputs 1 specs C rows x"] {
        let failure = parse_numeric_tnum(text, &rulings).err().unwrap();
        assert_eq!(failure.error, TnumError::RefusedSchema);
        assert_eq!(failure.error.refusal(&rulings).unwrap(), "схема пуста");
    }
    let unlabelled = NAMED.replace("levels 1 \"p\" \"q\"\n", "");
    let failure = parse_numeric_tnum(&unlabelled, &refused(0)).err().unwrap();
    assert_eq!(failure.error, TnumError::RefusedColumn { column: 0 });
    let failure = parse_numeric_tnum(&unlabelled, &refused(1)).err().unwrap();
    assert_eq!(failure.error, TnumError::MissingLevels { input: 1, cardinality: 2 });
    assert_eq!(failure.error.refusal(&refused(1)), None);
}

#[test]
fn constructors_pass_a_refusal_on() {
    let no = || Err("нельзя".to_string());
    assert_eq!(Column::numeric("a", ColumnRole::Input, no()).err().unwrap(), "нельзя");
    assert_eq!(Column::categorical("a", ColumnRole::Input, vec![], no()).err().unwrap(), "нельзя");
    assert_eq!(ModelSchema::new(vec![], vec![], no()).err().unwrap(), "нельзя");
    assert_eq!(ModelSchema::synthetic(1, 1, no()).err().unwrap(), "нельзя");
    let specs = vec![FeatureSpec::Continuous];
    assert_eq!(ModelSchema::synthetic_from_specs(&specs, 1, no()).err().unwrap(), "нельзя");
}

fn words(text: &str) -> Vec<(bool, String)> {
    tokenize(text)
        .ok()
        .unwrap()
        .into_iter()
        .map(|t| match t {
            Token::Bare(s) => (false, s),
            Token::Quoted(s) => (true, s),
        })
        .collect()
}

#[test]
fn quoted_texts_of_a_line_read_back() {
    let list = ["a \"b\"", "", "# no comment", "x\\y\nz\r\tw"];
    let line: Vec<String> = list.iter().map(|t| quote(t)).collect();
    let expected: Vec<(bool, String)> = list.iter().map(|t| (true, t.to_string())).collect();
    assert_eq!(words(&line.join(" ")), expected);
    assert_eq!(words(""), vec![]);
}

#[test]
fn no_token_crosses_a_line_end() {
    for a in ["x \"y\" # z", "x\r", "", "x\n", "\"q\"\r"] {
        for b in ["u v", "", "# only", "\n\"w\""] {
            let mut both = words(a);
            both.extend(words(b));
            assert_eq!(words(&format!("{a}\n{b}")), both, "{a:?} {b:?}");
        }
    }
    assert_eq!(words("a#b c\"d"), vec![(false, "a".to_string())]);
    assert_eq!(words("c\"d"), vec![(false, "c\"d".to_string())]);
}
