//! Filling a table with predictions and writing it as a workbook.

use std::io::{Cursor, Read};
use transformer::batch_predict::{
    bind_inputs, cell_ref, escape_xml, export_columns, export_table, header_index, pick_inputs, plan_outputs,
    sheet_outcome, workbook_files, worksheet_xml, write_failure, write_sheet, write_text, ExportError, ExportSheet, Predicted, SheetCell,
};
use transformer::schema::{Column, ColumnRole, ColumnType, ModelSchema};

fn schema() -> ModelSchema {
    ModelSchema::new(
        vec![
            Column::numeric("температура", ColumnRole::Input, Ok(())).unwrap(),
            Column::categorical(
                "материал",
                ColumnRole::Input,
                vec!["песок".to_string(), "глина".to_string()],
                Ok(()),
            )
            .unwrap(),
        ],
        vec![
            Column::numeric("влажность", ColumnRole::Output, Ok(())).unwrap(),
            Column::numeric("плотность", ColumnRole::Output, Ok(())).unwrap(),
        ],
        Ok(()),
    )
    .unwrap()
}

fn strings(list: &[&str]) -> Vec<String> {
    list.iter().map(|t| t.to_string()).collect()
}

/// A table as comma-separated lines.
fn table(text: &str) -> (Vec<String>, Vec<Vec<String>>) {
    let mut lines = text.lines().map(|l| l.split(',').map(|c| c.to_string()).collect());
    let header = lines.next().unwrap();
    (header, lines.collect())
}

/// What a cell spells, printed, where it spells a finite number.
fn reading(cell: &str) -> Option<String> {
    cell.trim().parse::<f64>().ok().filter(|v| v.is_finite()).map(|v| format!("{v}"))
}

/// The values of the inputs: numbers, and the codes of categories.
fn values(schema: &ModelSchema, picked: &[Vec<String>]) -> Vec<Vec<f32>> {
    picked
        .iter()
        .map(|row| {
            row.iter()
                .zip(&schema.inputs)
                .map(|(cell, column)| match &column.ty {
                    ColumnType::Numeric => cell.trim().parse().unwrap(),
                    ColumnType::Categorical { levels } => {
                        levels.iter().position(|l| l == cell.trim()).unwrap() as f32
                    }
                })
                .collect()
        })
        .collect()
}

/// Sum and difference of the inputs, row by row.
fn double(inputs: &[Vec<f32>]) -> Predicted {
    Predicted {
        cols: 2,
        rows: inputs
            .iter()
            .map(|r| {
                vec![
                    Some(format!("{}", (r[0] + r[1]) as f64)),
                    Some(format!("{}", (r[0] - r[1]) as f64)),
                ]
            })
            .collect(),
    }
}

fn export(
    text: &str,
    predict: fn(&[Vec<f32>]) -> Predicted,
) -> Result<ExportSheet, String> {
    let schema = schema();
    let (header, rows) = table(text);
    let names = schema.input_names();
    let explain = |e: ExportError| e.message("input.csv", &header, &names);
    let cols = bind_inputs(&header, &schema).map_err(explain)?;
    let picked = pick_inputs(&rows, &cols);
    let predicted = predict(&values(&schema, &picked));
    let readings = rows.iter().map(|r| r.iter().map(|c| reading(c)).collect()).collect();
    export_table(&header, &rows, &readings, &schema, &predicted, 0).map_err(explain)
}

fn unzip(file: &[u8], name: &str) -> String {
    let mut archive = zip::ZipArchive::new(Cursor::new(file.to_vec())).unwrap();
    let mut text = String::new();
    archive.by_name(name).unwrap().read_to_string(&mut text).unwrap();
    text
}

/// The cells of a sheet, blank ones as empty texts.
fn read_back(file: &[u8]) -> Vec<Vec<String>> {
    let xml = unzip(file, "xl/worksheets/sheet1.xml");
    let mut out = Vec::new();
    for row in xml.split("<row ").skip(1) {
        let mut cells: Vec<String> = Vec::new();
        for cell in row.split("<c r=\"").skip(1) {
            let column = (cell.as_bytes()[0] - b'A') as usize;
            while cells.len() < column {
                cells.push(String::new());
            }
            let start = cell.find("<v>").map(|i| i + 3).unwrap_or_else(|| {
                let t = cell.find("<t").unwrap();
                t + cell[t..].find('>').unwrap() + 1
            });
            let end = start + cell[start..].find("</").unwrap();
            cells.push(cell[start..end].to_string());
        }
        out.push(cells);
    }
    out
}

#[test]
fn cell_refs_cover_excel_columns() {
    assert_eq!(cell_ref(0, 1), "A1");
    assert_eq!(cell_ref(25, 7), "Z7");
    assert_eq!(cell_ref(26, 3), "AA3");
    assert_eq!(cell_ref(27, 3), "AB3");
}

#[test]
fn cell_refs_go_on_after_two_letters() {
    assert_eq!(cell_ref(701, 1), "ZZ1");
    assert_eq!(cell_ref(702, 10), "AAA10");
    assert_eq!(cell_ref(16383, 1048576), "XFD1048576");
}

#[test]
fn export_binds_columns_by_name() {
    let sheet = export(
        "заметка,материал,температура,влажность\nхорошо,глина,70,0\nплохо,песок,60,0\n",
        double,
    )
    .unwrap();

    assert_eq!(sheet.summary.rows, 2);
    assert_eq!(sheet.summary.replaced, vec!["влажность"]);
    assert_eq!(sheet.summary.added, vec!["плотность"]);

    let file = write_sheet("out.xlsx", &sheet.headers, &sheet.rows).unwrap();
    let back = read_back(&file);
    assert_eq!(
        back[0],
        vec!["заметка", "материал", "температура", "влажность", "плотность"]
    );
    let rows = &back[1..];
    assert_eq!(rows[0][0], "хорошо");
    assert_eq!(rows[0][1], "глина");
    assert_eq!(rows[0][3], "71");
    assert_eq!(rows[0][4], "69");
    assert_eq!(rows[1][3], "60");
    assert_eq!(rows[1][4], "60");
}

#[test]
fn foreign_columns_keep_their_form() {
    let sheet = export(
        "артикул,счёт,температура,материал\n007,1.5,70,глина\n0123,2,60,песок\n",
        double,
    )
    .unwrap();
    assert!(matches!(&sheet.rows[0][0], SheetCell::Text(t) if t == "007"));
    assert!(matches!(&sheet.rows[0][1], SheetCell::Number(Some(t)) if t == "1.5"));

    let back = read_back(&write_sheet("out.xlsx", &sheet.headers, &sheet.rows).unwrap());
    let rows = &back[1..];
    assert_eq!(rows[0][0], "007");
    assert_eq!(rows[1][0], "0123");
    assert_eq!(rows[0][1], "1.5");
    assert_eq!(rows[1][1], "2");
}

#[test]
fn export_rejects_ambiguous_headers_and_bad_prediction_shapes() {
    let err = export("температура,материал,температура\n70,глина,80\n", double).unwrap_err();
    assert!(err.contains("дублирующийся заголовок 'температура'"), "{err}");

    let err = export("температура,материал\n70,глина\n", |inputs| Predicted {
        cols: 1,
        rows: inputs.iter().map(|_| vec![Some("0".to_string())]).collect(),
    })
    .unwrap_err();
    assert!(err.contains("ожидалось 1×2"), "{err}");
    assert_eq!(err, "прогноз имеет форму 1×1, ожидалось 1×2");
}

#[test]
fn export_explains_a_missing_input_column() {
    let err = export("материал,влажность\nглина,1\n", double).unwrap_err();
    assert!(err.contains("нет колонки 'температура'"), "{err}");
    assert!(err.contains("В таблице: материал, влажность"), "{err}");
    assert_eq!(
        err,
        "input.csv: нет колонки 'температура'. Модель ждёт входы: температура, материал. В таблице: материал, влажность"
    );
}

#[test]
fn a_table_without_a_header_is_explained() {
    assert_eq!(
        ExportError::NoHeader.message("t.csv", &vec![], &vec![]),
        "t.csv: нужна строка заголовков с именами колонок"
    );
}

#[test]
fn an_export_makes_a_whole_workbook() {
    let sheet = export("температура,материал\n70,глина\n", double).unwrap();
    let back = read_back(&write_sheet("out.xlsx", &sheet.headers, &sheet.rows).unwrap());
    assert!(back[0].contains(&"влажность".to_string()), "{:?}", back[0]);
    assert_eq!(back[1..].len(), 1);
}

#[test]
fn a_workbook_has_its_five_parts() {
    let file = write_sheet("out.xlsx", &strings(&["a"]), &vec![]).unwrap();
    let archive = zip::ZipArchive::new(Cursor::new(file.clone())).unwrap();
    assert_eq!(archive.len(), 5);
    assert!(unzip(&file, "[Content_Types].xml").contains("/xl/workbook.xml"));
    assert!(unzip(&file, "_rels/.rels").contains("xl/workbook.xml"));
    assert!(unzip(&file, "xl/workbook.xml").contains("name=\"Predictions\""));
    assert!(unzip(&file, "xl/_rels/workbook.xml.rels").contains("worksheets/sheet1.xml"));
    assert_eq!(
        unzip(&file, "xl/worksheets/sheet1.xml"),
        "<?xml version=\"1.0\" encoding=\"UTF-8\" standalone=\"yes\"?><worksheet xmlns=\"http://schemas.openxmlformats.org/spreadsheetml/2006/main\"><sheetData><row r=\"1\"><c r=\"A1\" t=\"inlineStr\"><is><t>a</t></is></c></row></sheetData></worksheet>"
    );
}

#[test]
fn a_workbook_is_made_of_these_files() {
    let parts = workbook_files(&strings(&["a"]), &vec![]);
    let names: Vec<&str> = parts.iter().map(|p| p.name.as_str()).collect();
    assert_eq!(
        names,
        vec![
            "[Content_Types].xml",
            "_rels/.rels",
            "xl/workbook.xml",
            "xl/_rels/workbook.xml.rels",
            "xl/worksheets/sheet1.xml",
        ]
    );
    assert_eq!(parts[4].contents, worksheet_xml(&strings(&["a"]), &vec![]));

    let file = write_sheet("out.xlsx", &strings(&["a"]), &vec![]).unwrap();
    for part in &parts {
        assert_eq!(unzip(&file, &part.name), part.contents);
    }
}

#[test]
fn a_failed_write_names_the_path() {
    assert_eq!(write_failure("out.xlsx", "нет места"), "запись out.xlsx: нет места");
    assert_eq!(
        sheet_outcome("out.xlsx", Err("нет места".to_string())),
        Err("запись out.xlsx: нет места".to_string())
    );
    assert_eq!(sheet_outcome("out.xlsx", Ok(vec![1, 2])), Ok(vec![1, 2]));
}

#[test]
fn blank_cells_and_rows_are_left_out() {
    let xml = worksheet_xml(
        &strings(&["a", "b"]),
        &vec![
            vec![SheetCell::Blank, SheetCell::Number(None)],
            vec![SheetCell::Blank, SheetCell::Blank],
            vec![SheetCell::Blank, SheetCell::Number(Some("1.5".to_string()))],
        ],
    );
    assert!(xml.contains("<row r=\"2\"></row>"), "{xml}");
    assert!(!xml.contains("<row r=\"3\">"), "{xml}");
    assert!(xml.contains("<row r=\"4\"><c r=\"B4\"><v>1.5</v></c></row>"), "{xml}");
}

#[test]
fn markup_is_escaped_and_outer_space_kept() {
    assert_eq!(escape_xml("<a & \"b\" 'c'>"), "&lt;a &amp; &quot;b&quot; &apos;c&apos;&gt;");
    let mut xml = String::new();
    write_text(&mut xml, " x");
    write_text(&mut xml, "y");
    assert_eq!(xml, "<t xml:space=\"preserve\"> x</t><t>y</t>");
}

#[test]
fn headers_are_found_by_their_trimmed_names() {
    let index = header_index(&strings(&[" a ", "", "b", " "])).unwrap();
    assert_eq!(index.get("a"), Some(0));
    assert_eq!(index.get("b"), Some(2));
    assert_eq!(index.get(""), None);
    assert_eq!(index.get("c"), None);
    assert_eq!(header_index(&strings(&["a", "b", "a "])).err(), Some(2));
}

#[test]
fn outputs_replace_their_columns_under_canonical_names() {
    let plan = plan_outputs(&strings(&[" плотность ", "x"]), &schema()).unwrap();
    assert_eq!(plan.headers, vec!["плотность", "x", "влажность"]);
    assert_eq!(plan.replaced, vec!["плотность"]);
    assert_eq!(plan.added, vec!["влажность"]);
    assert_eq!(plan.cols, vec![2, 0]);
}

#[test]
fn short_rows_are_picked_as_empty_cells() {
    let rows = vec![strings(&["1", "2"]), strings(&["3"])];
    assert_eq!(pick_inputs(&rows, &vec![1, 0]), vec![strings(&["2", "1"]), strings(&["", "3"])]);
}

#[test]
fn a_table_is_not_replaced_by_its_own_workbook() {
    let schema = ModelSchema::synthetic(1, 1, Ok(())).unwrap();
    let header = Some(vec!["x0".to_string()]);
    assert_eq!(export_columns(true, &header, &schema), Err(ExportError::SameFile));
    assert!(ExportError::SameFile.message("a.xlsx", &vec![], &vec![]).contains("совпадают"));
    assert_eq!(export_columns(false, &None, &schema), Err(ExportError::NoHeader));
    assert_eq!(export_columns(false, &header, &schema), Ok(vec![0]));
}

#[test]
fn export_refuses_to_overwrite_the_source() {
    let (header, _) = table("температура,материал\n70,глина\n");
    let names = schema().input_names();
    let err = export_columns(true, &Some(header.clone()), &schema())
        .map_err(|e| e.message("same_path.csv", &header, &names))
        .unwrap_err();
    assert!(err.contains("не должен перезаписывать"), "{err}");
}
