//! Exporting a table with predictions as a new workbook.

use crate::schema::{ColumnView, ModelSchema, SchemaView};
use crate::text::{
    blank, chars_of, copy_texts, decimal, decimal_text, is_blank, is_digit, is_space, join,
    joined, lemma_decimal, lemma_trimmed_empty, owned, same, space, texts, trim, trimmed,
};
use std::io::{Cursor, Write};
use vstd::prelude::*;
use vstd::string::StringExecFns;
use vstd::utf8::encode_utf8;
use zip::write::SimpleFileOptions;
use zip::{CompressionMethod, ZipWriter};

verus! {

/// A ZIP archive that is being written in memory with the `zip` crate.
#[verifier::external_body]
pub struct Archive {
    inner: ZipWriter<Cursor<Vec<u8>>>,
}

/// The entries written so far: their names and their contents.
pub uninterp spec fn archive_entries(archive: Archive) -> Seq<(Seq<char>, Seq<u8>)>;

/// What the `zip` crate reads from a file: the entries of the archive, their
/// names and their contents.
pub uninterp spec fn entries_in(file: Seq<u8>) -> Seq<(Seq<char>, Seq<u8>)>;

/// Whether the archive takes more: its writer is not closed, and the last entry,
/// if there is one, can still be written to.
pub uninterp spec fn archive_open(archive: Archive) -> bool;

/// Up to this size an archive stays far below what 32 bits can count, however
/// badly its contents compress.
pub const SIZE_LIMIT: u32 = 0x7fff_ffff;

/// An upper bound on the bytes that entries bring into an archive before they
/// are compressed: the contents, and twice the name with its headers.
pub open spec fn archive_size(entries: Seq<(Seq<char>, Seq<u8>)>) -> nat
    decreases entries.len(),
{
    if entries.len() == 0 {
        0
    } else {
        archive_size(entries.drop_last()) + entries.last().1.len() + 8 * entries.last().0.len()
            + 0x100
    }
}

/// `ZipWriter::new` over an empty buffer: an open archive without entries.
#[verifier::external_body]
fn new_archive() -> (archive: Archive)
    ensures
        archive_entries(archive) == Seq::<(Seq<char>, Seq<u8>)>::empty(),
        archive_open(archive),
{
    Archive { inner: ZipWriter::new(Cursor::new(Vec::new())) }
}

/// Whether an entry of this name is among the entries.
pub open spec fn entry_named(entries: Seq<(Seq<char>, Seq<u8>)>, name: Seq<char>) -> bool {
    exists|i: int| 0 <= i < entries.len() && (#[trigger] entries[i]).0 == name
}

/// `ZipWriter::start_file` with deflate compression: where it succeeds, an
/// empty entry of that name comes last and the archive is open. A name that the
/// archive has already is refused. An open archive in memory takes any other
/// name as long as it is not too large: writing to a buffer does not fail, and
/// the entry before is closed within the sizes of the format. On larger
/// archives success is left open, for it rests on how well they compress.
/// Nothing is claimed of an archive that refused the entry. The name has to fit
/// the 16 bits that the format gives to its length in bytes.
#[verifier::external_body]
fn start_entry(archive: &mut Archive, name: &str) -> (done: Result<(), String>)
    requires
        4 * name@.len() <= 0xffff,
    ensures
        done is Ok ==> archive_entries(*final(archive)) == archive_entries(*old(archive)).push(
            (name@, Seq::<u8>::empty()),
        ) && archive_open(*final(archive)),
        entry_named(archive_entries(*old(archive)), name@) ==> done is Err,
        archive_open(*old(archive)) && !entry_named(archive_entries(*old(archive)), name@)
            && archive_size(archive_entries(*old(archive))) <= SIZE_LIMIT ==> done is Ok,
{
    let options = SimpleFileOptions::default().compression_method(CompressionMethod::Deflated);
    match archive.inner.start_file(name, options) {
        Ok(()) => Ok(()),
        Err(e) => Err(e.to_string()),
    }
}

/// `Write::write_all` on a `ZipWriter`: where it succeeds, the bytes are the
/// contents of the last entry, which was empty, and an open archive stays open.
/// More bytes than 32 bits can count are refused, since the entry was not
/// started as a large one. An open archive in memory takes what is smaller: the
/// compressor and the buffer behind it take any bytes.
#[verifier::external_body]
fn write_entry(archive: &mut Archive, bytes: &[u8]) -> (done: Result<(), String>)
    requires
        archive_entries(*old(archive)).len() > 0,
        archive_entries(*old(archive)).last().1.len() == 0,
    ensures
        done is Ok ==> archive_entries(*final(archive)) == archive_entries(
            *old(archive),
        ).drop_last().push((archive_entries(*old(archive)).last().0, bytes@)),
        done is Ok && archive_open(*old(archive)) ==> archive_open(*final(archive)),
        bytes@.len() > u32::MAX ==> done is Err,
        archive_open(*old(archive)) && bytes@.len() <= SIZE_LIMIT ==> done is Ok,
{
    match archive.inner.write_all(bytes) {
        Ok(()) => Ok(()),
        Err(e) => Err(e.to_string()),
    }
}

/// `ZipWriter::finish` writes the central directory: from the file, the
/// entries read back as they were written. It succeeds on an open archive in
/// memory that is not too large. Which of the files with these entries comes
/// out, and whether the compressed entries of a larger archive fit the format,
/// is left open, for a compressor may choose.
#[verifier::external_body]
fn finish_archive(archive: Archive) -> (file: Result<Vec<u8>, String>)
    ensures
        file matches Ok(bytes) ==> entries_in(bytes@) == archive_entries(archive),
        archive_open(archive) && archive_size(archive_entries(archive)) <= SIZE_LIMIT
            ==> file is Ok,
{
    match archive.inner.finish() {
        Ok(cursor) => Ok(cursor.into_inner()),
        Err(e) => Err(e.to_string()),
    }
}

/// A cell of the sheet. A number is kept by its printed form; one that is not
/// finite has none.
#[derive(Debug)]
pub enum SheetCell {
    Blank,
    Text(String),
    Number(Option<String>),
}

/// What a cell says.
pub enum CellView {
    Blank,
    Text(Seq<char>),
    Number(Option<Seq<char>>),
}

impl View for SheetCell {
    type V = CellView;

    open spec fn view(&self) -> CellView {
        match self {
            SheetCell::Blank => CellView::Blank,
            SheetCell::Text(s) => CellView::Text(s@),
            SheetCell::Number(None) => CellView::Number(None),
            SheetCell::Number(Some(s)) => CellView::Number(Some(s@)),
        }
    }
}

pub open spec fn cell_views(cells: Seq<SheetCell>) -> Seq<CellView> {
    cells.map_values(|c: SheetCell| c@)
}

pub open spec fn rows_view(rows: Seq<Vec<SheetCell>>) -> Seq<Seq<CellView>> {
    rows.map_values(|r: Vec<SheetCell>| cell_views(r@))
}

impl CellView {
    pub open spec fn blank(self) -> bool {
        match self {
            CellView::Blank => true,
            CellView::Text(s) => blank(s),
            CellView::Number(_) => false,
        }
    }
}

impl SheetCell {
    pub fn is_blank(&self) -> (yes: bool)
        ensures
            yes == self@.blank(),
    {
        match self {
            SheetCell::Blank => true,
            SheetCell::Text(s) => is_blank(s.as_str()),
            SheetCell::Number(_) => false,
        }
    }
}

/// How a character stands in XML text.
pub open spec fn xml_char(c: char) -> Seq<char> {
    if c == '&' {
        "&amp;"@
    } else if c == '<' {
        "&lt;"@
    } else if c == '>' {
        "&gt;"@
    } else if c == '"' {
        "&quot;"@
    } else if c == '\'' {
        "&apos;"@
    } else {
        seq![c]
    }
}

pub open spec fn xml_text(s: Seq<char>) -> Seq<char>
    decreases s.len(),
{
    if s.len() == 0 {
        Seq::empty()
    } else {
        xml_text(s.drop_last()) + xml_char(s.last())
    }
}

pub fn escape_xml(text: &str) -> (out: String)
    ensures
        out@ == xml_text(text@),
{
    let chars: Vec<char> = chars_of(text);
    let mut out: String = String::new();
    let mut i: usize = 0;
    while i < chars.len()
        invariant
            i <= chars.len(),
            out@ == xml_text(chars@.take(i as int)),
        decreases chars.len() - i,
    {
        let c: char = chars[i];
        let ghost before = out@;
        assert(chars@.take(i + 1).drop_last() =~= chars@.take(i as int));
        if c == '&' {
            out.append("&amp;");
        } else if c == '<' {
            out.append("&lt;");
        } else if c == '>' {
            out.append("&gt;");
        } else if c == '"' {
            out.append("&quot;");
        } else if c == '\'' {
            out.append("&apos;");
        } else {
            out.push(c);
            assert(out@ =~= before + seq![c]);
        }
        i += 1;
    }
    assert(chars@.take(i as int) =~= text@);
    out
}

/// The letters of a column: `A` to `Z`, then `AA`, `AB`, …
pub open spec fn column_letters(col: nat) -> Seq<char>
    decreases col,
{
    if col < 26 {
        seq![(65 + col) as char]
    } else {
        column_letters((col / 26 - 1) as nat).push((65 + col % 26) as char)
    }
}

fn letters(col: usize) -> (out: String)
    ensures
        out@ == column_letters(col as nat),
    decreases col,
{
    let rem: u8 = (col % 26) as u8;
    let mut out: String = if col < 26 {
        String::new()
    } else {
        letters(col / 26 - 1)
    };
    let c: char = (65 + rem) as char;
    out.push(c);
    assert(col < 26 ==> out@ =~= seq![(65 + col as nat) as char]);
    out
}

/// The reference of a cell: the letters of its column (counted from 0) and
/// the number of its row.
pub open spec fn reference(col: nat, row: nat) -> Seq<char> {
    column_letters(col) + decimal(row)
}

pub fn cell_ref(col: usize, row: usize) -> (out: String)
    ensures
        out@ == reference(col as nat, row as nat),
{
    let mut out: String = letters(col);
    out.append(decimal_text(row as u64).as_str());
    out
}

/// Does a text begin or end with white space?
pub open spec fn edged(s: Seq<char>) -> bool {
    s.len() > 0 && (is_space(s.first()) || is_space(s.last()))
}

pub open spec fn text_element(s: Seq<char>) -> Seq<char> {
    (if edged(s) {
        "<t xml:space=\"preserve\">"@
    } else {
        "<t>"@
    }) + xml_text(s) + "</t>"@
}

/// Appends a text element; white space at its ends is marked to be kept.
pub fn write_text(xml: &mut String, text: &str)
    ensures
        final(xml)@ == old(xml)@ + text_element(text@),
{
    let chars: Vec<char> = chars_of(text);
    let n: usize = chars.len();
    let ghost before = xml@;
    if n > 0 && (space(chars[0]) || space(chars[n - 1])) {
        xml.append("<t xml:space=\"preserve\">");
    } else {
        xml.append("<t>");
    }
    xml.append(escape_xml(text).as_str());
    xml.append("</t>");
    assert(xml@ =~= before + text_element(text@));
}

/// The element of a cell; blank cells and numbers that are not finite have
/// none.
pub open spec fn cell_element(cell: CellView, col: nat, row: nat) -> Seq<char> {
    if cell.blank() {
        Seq::empty()
    } else {
        match cell {
            CellView::Blank => Seq::empty(),
            CellView::Text(s) => "<c r=\""@ + reference(col, row) + "\" t=\"inlineStr\"><is>"@
                + text_element(s) + "</is></c>"@,
            CellView::Number(None) => Seq::empty(),
            CellView::Number(Some(v)) => "<c r=\""@ + reference(col, row) + "\"><v>"@ + v
                + "</v></c>"@,
        }
    }
}

/// The elements of the first `n` cells of a row.
pub open spec fn cell_elements(cells: Seq<CellView>, row: nat, n: nat) -> Seq<char>
    decreases n,
{
    if n == 0 {
        Seq::empty()
    } else {
        cell_elements(cells, row, (n - 1) as nat) + cell_element(
            cells[n - 1],
            (n - 1) as nat,
            row,
        )
    }
}

/// Is every cell of the row blank?
pub open spec fn blank_row(cells: Seq<CellView>) -> bool {
    forall|i: int| 0 <= i < cells.len() ==> (#[trigger] cells[i]).blank()
}

/// The element of a row; a row of blank cells has none.
pub open spec fn row_element(cells: Seq<CellView>, row: nat) -> Seq<char> {
    if blank_row(cells) {
        Seq::empty()
    } else {
        "<row r=\""@ + decimal(row) + "\">"@ + cell_elements(cells, row, cells.len()) + "</row>"@
    }
}

fn write_cell(xml: &mut String, cell: &SheetCell, col: usize, row: usize)
    ensures
        final(xml)@ == old(xml)@ + cell_element(cell@, col as nat, row as nat),
{
    let ghost before = xml@;
    if !cell.is_blank() {
        match cell {
            SheetCell::Blank => {},
            SheetCell::Text(s) => {
                xml.append("<c r=\"");
                xml.append(cell_ref(col, row).as_str());
                xml.append("\" t=\"inlineStr\"><is>");
                write_text(xml, s.as_str());
                xml.append("</is></c>");
            },
            SheetCell::Number(v) => match v {
                Some(shown) => {
                    xml.append("<c r=\"");
                    xml.append(cell_ref(col, row).as_str());
                    xml.append("\"><v>");
                    xml.append(shown.as_str());
                    xml.append("</v></c>");
                },
                None => {},
            },
        }
    }
    assert(xml@ =~= before + cell_element(cell@, col as nat, row as nat));
}

/// Appends the element of a row.
pub fn write_row(xml: &mut String, row_num: usize, cells: &Vec<SheetCell>)
    ensures
        final(xml)@ == old(xml)@ + row_element(cell_views(cells@), row_num as nat),
{
    let ghost before = xml@;
    let ghost view = cell_views(cells@);
    let mut any: bool = false;
    let mut k: usize = 0;
    while k < cells.len()
        invariant
            k <= cells.len(),
            view == cell_views(cells@),
            any == exists|i: int| 0 <= i < k && !(#[trigger] view[i]).blank(),
        decreases cells.len() - k,
    {
        if !cells[k].is_blank() {
            any = true;
            assert(!view[k as int].blank());
        }
        k += 1;
    }
    if !any {
        assert(blank_row(view));
        assert(xml@ =~= before + row_element(view, row_num as nat));
        return ;
    }
    assert(!blank_row(view));
    xml.append("<row r=\"");
    xml.append(decimal_text(row_num as u64).as_str());
    xml.append("\">");
    let ghost opened = xml@;
    let mut col: usize = 0;
    assert(opened + cell_elements(view, row_num as nat, 0) =~= opened);
    while col < cells.len()
        invariant
            col <= cells.len(),
            view == cell_views(cells@),
            xml@ == opened + cell_elements(view, row_num as nat, col as nat),
        decreases cells.len() - col,
    {
        let ghost now = xml@;
        write_cell(xml, &cells[col], col, row_num);
        assert(view[col as int] == cells@[col as int]@);
        assert(xml@ =~= opened + cell_elements(view, row_num as nat, (col + 1) as nat));
        col += 1;
    }
    xml.append("</row>");
    assert(xml@ =~= before + row_element(view, row_num as nat));
}

pub open spec fn header_views(headers: Seq<Seq<char>>) -> Seq<CellView> {
    headers.map_values(|h: Seq<char>| CellView::Text(h))
}

/// The elements of the first `n` rows below the header.
pub open spec fn row_elements(rows: Seq<Seq<CellView>>, n: nat) -> Seq<char>
    decreases n,
{
    if n == 0 {
        Seq::empty()
    } else {
        row_elements(rows, (n - 1) as nat) + row_element(rows[n - 1], n + 1)
    }
}

pub open spec fn sheet_open() -> Seq<char> {
    "<?xml version=\"1.0\" encoding=\"UTF-8\" standalone=\"yes\"?><worksheet xmlns=\"http://schemas.openxmlformats.org/spreadsheetml/2006/main\"><sheetData>"@
}

/// The sheet: the header in row 1, the rows below it.
pub open spec fn sheet_text(headers: Seq<Seq<char>>, rows: Seq<Seq<CellView>>) -> Seq<char> {
    sheet_open() + row_element(header_views(headers), 1) + row_elements(rows, rows.len())
        + "</sheetData></worksheet>"@
}

fn header_cells(headers: &Vec<String>) -> (cells: Vec<SheetCell>)
    ensures
        cell_views(cells@) == header_views(texts(headers@)),
{
    let mut cells: Vec<SheetCell> = Vec::new();
    let mut i: usize = 0;
    while i < headers.len()
        invariant
            i <= headers.len(),
            cells.len() == i,
            forall|k: int|
                0 <= k < i ==> (#[trigger] cells@[k])@ == CellView::Text(headers@[k]@),
        decreases headers.len() - i,
    {
        cells.push(SheetCell::Text(owned(headers[i].as_str())));
        i += 1;
    }
    assert(cell_views(cells@) =~= header_views(texts(headers@)));
    cells
}

pub fn worksheet_xml(headers: &Vec<String>, rows: &Vec<Vec<SheetCell>>) -> (xml: String)
    requires
        rows@.len() < usize::MAX - 1,
    ensures
        xml@ == sheet_text(texts(headers@), rows_view(rows@)),
{
    let mut xml: String = owned(
        "<?xml version=\"1.0\" encoding=\"UTF-8\" standalone=\"yes\"?><worksheet xmlns=\"http://schemas.openxmlformats.org/spreadsheetml/2006/main\"><sheetData>",
    );
    write_row(&mut xml, 1, &header_cells(headers));
    let ghost opened = xml@;
    let ghost view = rows_view(rows@);
    let mut i: usize = 0;
    assert(opened + row_elements(view, 0) =~= opened);
    while i < rows.len()
        invariant
            i <= rows.len() < usize::MAX - 1,
            view == rows_view(rows@),
            xml@ == opened + row_elements(view, i as nat),
        decreases rows.len() - i,
    {
        write_row(&mut xml, i + 2, &rows[i]);
        assert(view[i as int] == cell_views(rows@[i as int]@));
        assert(xml@ =~= opened + row_elements(view, (i + 1) as nat));
        i += 1;
    }
    xml.append("</sheetData></worksheet>");
    xml
}

/// What came of an export.
#[derive(Debug)]
pub struct ExportSummary {
    pub rows: usize,
    pub extrapolated_rows: usize,
    /// Output columns that the table had already.
    pub replaced: Vec<String>,
    /// Output columns that were added on the right.
    pub added: Vec<String>,
}

/// Why a table cannot be exported.
#[derive(Clone, Copy, Debug, PartialEq, Eq, Structural)]
pub enum ExportError {
    /// The workbook would replace the table it is made from.
    SameFile,
    /// The table has no row of column names.
    NoHeader,
    /// The name of this column occurred before.
    Duplicate { column: usize },
    /// The table has no column for this input.
    Missing { input: usize },
    /// The predictions have another shape than the table calls for.
    Shape { rows: usize, cols: usize, table_rows: usize, outputs: usize },
}

impl ExportError {
    /// The error speaks of a column and an input that exist.
    pub open spec fn of(self, header: Seq<Seq<char>>, names: Seq<Seq<char>>) -> bool {
        match self {
            ExportError::Duplicate { column } => column < header.len(),
            ExportError::Missing { input } => input < names.len(),
            _ => true,
        }
    }

    /// What is said of the error: of which file, with which header, and by
    /// which names the model knows its inputs.
    pub open spec fn text(self, path: Seq<char>, header: Seq<Seq<char>>, names: Seq<Seq<char>>) -> Seq<
        char,
    > {
        match self {
            ExportError::SameFile => "входной и выходной путь совпадают: экспорт не должен перезаписывать исходную книгу"@,
            ExportError::NoHeader => path + ": нужна строка заголовков с именами колонок"@,
            ExportError::Duplicate { column } => path + ": дублирующийся заголовок '"@ + trimmed(
                header[column as int],
            ) + "'"@,
            ExportError::Missing { input } => path + ": нет колонки '"@ + names[input as int]
                + "'. Модель ждёт входы: "@ + joined(names, ", "@) + ". В таблице: "@ + joined(
                header,
                ", "@,
            ),
            ExportError::Shape { rows, cols, table_rows, outputs } => "прогноз имеет форму "@
                + decimal(rows as nat) + "×"@ + decimal(cols as nat) + ", ожидалось "@ + decimal(
                table_rows as nat,
            ) + "×"@ + decimal(outputs as nat),
        }
    }

    pub fn message(&self, path: &str, header: &Vec<String>, names: &Vec<String>) -> (text: String)
        requires
            self.of(texts(header@), texts(names@)),
        ensures
            text@ == self.text(path@, texts(header@), texts(names@)),
    {
        match *self {
            ExportError::SameFile => owned(
                "входной и выходной путь совпадают: экспорт не должен перезаписывать исходную книгу",
            ),
            ExportError::NoHeader => {
                let mut text: String = owned(path);
                text.append(": нужна строка заголовков с именами колонок");
                text
            },
            ExportError::Duplicate { column } => {
                let mut text: String = owned(path);
                text.append(": дублирующийся заголовок '");
                text.append(trim(header[column].as_str()).as_str());
                text.append("'");
                text
            },
            ExportError::Missing { input } => {
                let mut text: String = owned(path);
                text.append(": нет колонки '");
                text.append(names[input].as_str());
                text.append("'. Модель ждёт входы: ");
                text.append(join(names, ", ").as_str());
                text.append(". В таблице: ");
                text.append(join(header, ", ").as_str());
                text
            },
            ExportError::Shape { rows, cols, table_rows, outputs } => {
                let mut text: String = owned("прогноз имеет форму ");
                text.append(decimal_text(rows as u64).as_str());
                text.append("×");
                text.append(decimal_text(cols as u64).as_str());
                text.append(", ожидалось ");
                text.append(decimal_text(table_rows as u64).as_str());
                text.append("×");
                text.append(decimal_text(outputs as u64).as_str());
                text
            },
        }
    }
}

/// The first place from `i` on where a list holds this name. An empty name
/// names nothing.
pub open spec fn position_from(list: Seq<Seq<char>>, name: Seq<char>, i: int) -> Option<int>
    decreases list.len() - i,
{
    if i < 0 || i >= list.len() || name.len() == 0 {
        None
    } else if list[i] == name {
        Some(i)
    } else {
        position_from(list, name, i + 1)
    }
}

pub open spec fn trimmed_all(header: Seq<Seq<char>>) -> Seq<Seq<char>> {
    header.map_values(|h: Seq<char>| trimmed(h))
}

/// The column with this name, compared without the white space around the
/// names of the header.
pub open spec fn column_of(header: Seq<Seq<char>>, name: Seq<char>) -> Option<int> {
    position_from(trimmed_all(header), name, 0)
}

/// Does the name of column `k` occur in an earlier column?
pub open spec fn repeats(header: Seq<Seq<char>>, k: int) -> bool {
    &&& trimmed(header[k]).len() > 0
    &&& exists|i: int| 0 <= i < k && trimmed(#[trigger] header[i]) == trimmed(header[k])
}

/// The first column from `k` on whose name occurred before.
pub open spec fn repeated_from(header: Seq<Seq<char>>, k: int) -> Option<usize>
    decreases header.len() - k,
{
    if k < 0 || k >= header.len() {
        None
    } else if repeats(header, k) {
        Some(k as usize)
    } else {
        repeated_from(header, k + 1)
    }
}

/// The first input from `i` on that the table has no column for.
pub open spec fn missing_from(header: Seq<Seq<char>>, names: Seq<Seq<char>>, i: int) -> Option<
    usize,
>
    decreases names.len() - i,
{
    if i < 0 || i >= names.len() {
        None
    } else if column_of(header, names[i]) is None {
        Some(i as usize)
    } else {
        missing_from(header, names, i + 1)
    }
}

pub open spec fn input_names_of(schema: SchemaView) -> Seq<Seq<char>> {
    schema.inputs.map_values(|c: ColumnView| c.name)
}

pub open spec fn output_names_of(schema: SchemaView) -> Seq<Seq<char>> {
    schema.outputs.map_values(|c: ColumnView| c.name)
}

pub proof fn lemma_position(list: Seq<Seq<char>>, name: Seq<char>, i: int)
    requires
        0 <= i <= list.len(),
    ensures
        match position_from(list, name, i) {
            Some(c) => i <= c < list.len() && list[c] == name && name.len() > 0,
            None => name.len() == 0 || forall|k: int| i <= k < list.len() ==> #[trigger] list[k]
                != name,
        },
    decreases list.len() - i,
{
    if i < list.len() && name.len() > 0 && list[i] != name {
        lemma_position(list, name, i + 1);
    }
}

/// The names of the columns without the white space around them.
#[derive(Debug)]
pub struct HeaderIndex {
    pub names: Vec<String>,
}

impl HeaderIndex {
    pub open spec fn of(&self, header: Seq<Seq<char>>) -> bool {
        texts(self.names@) == trimmed_all(header)
    }

    /// The column with this name.
    pub fn get(&self, name: &str) -> (found: Option<usize>)
        ensures
            match found {
                Some(c) => position_from(texts(self.names@), name@, 0) == Some(c as int),
                None => position_from(texts(self.names@), name@, 0) is None,
            },
    {
        let ghost list = texts(self.names@);
        if name.is_empty() {
            return None;
        }
        let mut i: usize = 0;
        while i < self.names.len()
            invariant
                i <= self.names@.len(),
                name@.len() > 0,
                list == texts(self.names@),
                position_from(list, name@, 0) == position_from(list, name@, i as int),
            decreases self.names@.len() - i,
        {
            assert(list[i as int] == self.names@[i as int]@);
            if same(self.names[i].as_str(), name) {
                return Some(i);
            }
            i += 1;
        }
        None
    }
}

/// The index of a header, or the first column whose name occurred before: a
/// table with two columns of one name is refused, since neither could be
/// preferred.
pub fn header_index(headers: &Vec<String>) -> (out: Result<HeaderIndex, usize>)
    ensures
        match out {
            Ok(index) => index.of(texts(headers@)) && repeated_from(texts(headers@), 0) is None,
            Err(column) => repeated_from(texts(headers@), 0) == Some(column),
        },
{
    let ghost header = texts(headers@);
    let mut names: Vec<String> = Vec::new();
    let mut k: usize = 0;
    while k < headers.len()
        invariant
            k <= headers@.len(),
            header == texts(headers@),
            names.len() == k,
            forall|i: int| 0 <= i < k ==> (#[trigger] names@[i])@ == trimmed(header[i]),
            repeated_from(header, 0) == repeated_from(header, k as int),
        decreases headers@.len() - k,
    {
        let name: String = trim(headers[k].as_str());
        assert(header[k as int] == headers@[k as int]@);
        if !name.as_str().is_empty() {
            let mut i: usize = 0;
            while i < k
                invariant
                    i <= k < headers@.len(),
                    k == names.len(),
                    header == texts(headers@),
                    name@ == trimmed(header[k as int]),
                    name@.len() > 0,
                    forall|j: int| 0 <= j < k ==> (#[trigger] names@[j])@ == trimmed(header[j]),
                    forall|j: int| 0 <= j < i ==> trimmed(#[trigger] header[j]) != name@,
                    repeated_from(header, 0) == repeated_from(header, k as int),
                decreases k - i,
            {
                if same(names[i].as_str(), name.as_str()) {
                    assert(trimmed(header[i as int]) == trimmed(header[k as int]));
                    assert(repeats(header, k as int));
                    return Err(k);
                }
                i += 1;
            }
        }
        assert(!repeats(header, k as int));
        names.push(name);
        k += 1;
    }
    let index = HeaderIndex { names };
    assert(texts(index.names@) =~= trimmed_all(header));
    Ok(index)
}

/// What binding the inputs of a model to the columns of a table comes to: a
/// name that occurs twice is found before a name that does not occur.
pub open spec fn binds(
    header: Seq<Seq<char>>,
    schema: SchemaView,
    out: Result<Vec<usize>, ExportError>,
) -> bool {
    match out {
        Ok(cols) => {
            &&& repeated_from(header, 0) is None
            &&& missing_from(header, input_names_of(schema), 0) is None
            &&& cols@.len() == schema.inputs.len()
            &&& forall|i: int|
                0 <= i < cols@.len() ==> column_of(header, schema.inputs[i].name) == Some(
                    #[trigger] cols@[i] as int,
                )
        },
        Err(ExportError::Duplicate { column }) => repeated_from(header, 0) == Some(column),
        Err(ExportError::Missing { input }) => repeated_from(header, 0) is None && missing_from(
            header,
            input_names_of(schema),
            0,
        ) == Some(input),
        Err(_) => false,
    }
}

/// The columns of the inputs, by their names.
pub fn bind_inputs(header: &Vec<String>, schema: &ModelSchema) -> (out: Result<
    Vec<usize>,
    ExportError,
>)
    ensures
        binds(texts(header@), schema@, out),
{
    let ghost head = texts(header@);
    let ghost names = input_names_of(schema@);
    let index: HeaderIndex = match header_index(header) {
        Ok(index) => index,
        Err(column) => {
            return Err(ExportError::Duplicate { column });
        },
    };
    let mut cols: Vec<usize> = Vec::new();
    let mut i: usize = 0;
    while i < schema.inputs.len()
        invariant
            i <= schema.inputs@.len(),
            head == texts(header@),
            names == input_names_of(schema@),
            index.of(head),
            repeated_from(head, 0) is None,
            cols.len() == i,
            missing_from(head, names, 0) == missing_from(head, names, i as int),
            forall|k: int|
                0 <= k < i ==> column_of(head, schema@.inputs[k].name) == Some(
                    #[trigger] cols@[k] as int,
                ),
        decreases schema.inputs@.len() - i,
    {
        assert(names[i as int] == schema.inputs@[i as int].name@);
        match index.get(schema.inputs[i].name.as_str()) {
            Some(c) => {
                cols.push(c);
            },
            None => {
                return Err(ExportError::Missing { input: i });
            },
        }
        i += 1;
    }
    Ok(cols)
}

/// The columns of the inputs of a table that is to be exported, given whether
/// the workbook would be written over it.
pub fn export_columns(same_file: bool, header: &Option<Vec<String>>, schema: &ModelSchema) -> (out:
    Result<Vec<usize>, ExportError>)
    ensures
        if same_file {
            out == Err::<Vec<usize>, ExportError>(ExportError::SameFile)
        } else {
            match header {
                None => out == Err::<Vec<usize>, ExportError>(ExportError::NoHeader),
                Some(h) => binds(texts(h@), schema@, out),
            }
        },
{
    if same_file {
        return Err(ExportError::SameFile);
    }
    match header {
        None => Err(ExportError::NoHeader),
        Some(h) => bind_inputs(h, schema),
    }
}

/// The cells of the input columns of one row; a short row has empty cells.
pub open spec fn picked(row: Seq<Seq<char>>, cols: Seq<usize>) -> Seq<Seq<char>> {
    cols.map_values(
        |c: usize|
            if c < row.len() {
                row[c as int]
            } else {
                Seq::empty()
            },
    )
}

pub open spec fn table_view(rows: Seq<Vec<String>>) -> Seq<Seq<Seq<char>>> {
    rows.map_values(|r: Vec<String>| texts(r@))
}

fn pick_row(row: &Vec<String>, cols: &Vec<usize>) -> (out: Vec<String>)
    ensures
        texts(out@) == picked(texts(row@), cols@),
{
    let mut out: Vec<String> = Vec::new();
    let mut i: usize = 0;
    while i < cols.len()
        invariant
            i <= cols@.len(),
            out.len() == i,
            forall|k: int|
                0 <= k < i ==> (#[trigger] out@[k])@ == picked(texts(row@), cols@)[k],
        decreases cols@.len() - i,
    {
        let c: usize = cols[i];
        if c < row.len() {
            out.push(owned(row[c].as_str()));
        } else {
            out.push(String::new());
        }
        i += 1;
    }
    assert(texts(out@) =~= picked(texts(row@), cols@));
    out
}

/// The cells of the input columns, row by row.
pub fn pick_inputs(rows: &Vec<Vec<String>>, cols: &Vec<usize>) -> (out: Vec<Vec<String>>)
    ensures
        table_view(out@) == table_view(rows@).map_values(
            |row: Seq<Seq<char>>| picked(row, cols@),
        ),
{
    let mut out: Vec<Vec<String>> = Vec::new();
    let mut r: usize = 0;
    while r < rows.len()
        invariant
            r <= rows@.len(),
            out.len() == r,
            forall|k: int|
                0 <= k < r ==> texts((#[trigger] out@[k])@) == picked(texts(rows@[k]@), cols@),
        decreases rows@.len() - r,
    {
        out.push(pick_row(&rows[r], cols));
        r += 1;
    }
    assert(table_view(out@) =~= table_view(rows@).map_values(
        |row: Seq<Seq<char>>| picked(row, cols@),
    ));
    out
}

/// Where the outputs go: the header of the new sheet, the outputs that
/// replace a column, those that are added, and the column of each.
#[verifier::ext_equal]
pub struct PlanView {
    pub headers: Seq<Seq<char>>,
    pub replaced: Seq<Seq<char>>,
    pub added: Seq<Seq<char>>,
    pub cols: Seq<int>,
}

/// The plan for the first `k` outputs.
pub open spec fn plan(header: Seq<Seq<char>>, names: Seq<Seq<char>>, k: nat) -> PlanView
    decreases k,
{
    if k == 0 {
        PlanView { headers: header, replaced: Seq::empty(), added: Seq::empty(), cols: Seq::empty() }
    } else {
        let p = plan(header, names, (k - 1) as nat);
        let name = names[k - 1];
        match column_of(header, name) {
            Some(c) => PlanView {
                headers: p.headers.update(c, name),
                replaced: p.replaced.push(name),
                added: p.added,
                cols: p.cols.push(c),
            },
            None => PlanView {
                headers: p.headers.push(name),
                replaced: p.replaced,
                added: p.added.push(name),
                cols: p.cols.push(p.headers.len() as int),
            },
        }
    }
}

pub proof fn lemma_plan(header: Seq<Seq<char>>, names: Seq<Seq<char>>, k: nat)
    requires
        k <= names.len(),
    ensures
        ({
            let p = plan(header, names, k);
            &&& p.cols.len() == k
            &&& p.headers.len() == header.len() + p.added.len()
            &&& p.added.len() + p.replaced.len() == k
            &&& forall|i: int| 0 <= i < k ==> 0 <= #[trigger] p.cols[i] < p.headers.len()
        }),
    decreases k,
{
    if k > 0 {
        lemma_plan(header, names, (k - 1) as nat);
        lemma_position(trimmed_all(header), names[k - 1], 0);
        let p = plan(header, names, (k - 1) as nat);
        let q = plan(header, names, k);
        assert forall|i: int| 0 <= i < k implies 0 <= #[trigger] q.cols[i] < q.headers.len() by {
            if i < k - 1 {
                assert(q.cols[i] == p.cols[i]);
            }
        }
    }
}

#[derive(Debug)]
pub struct OutputPlan {
    pub headers: Vec<String>,
    pub replaced: Vec<String>,
    pub added: Vec<String>,
    pub cols: Vec<usize>,
}

impl View for OutputPlan {
    type V = PlanView;

    open spec fn view(&self) -> PlanView {
        PlanView {
            headers: texts(self.headers@),
            replaced: texts(self.replaced@),
            added: texts(self.added@),
            cols: self.cols@.map_values(|c: usize| c as int),
        }
    }
}

/// Plans the output columns: those that the table has are replaced, under
/// their canonical names, the others are added on the right.
pub fn plan_outputs(header: &Vec<String>, schema: &ModelSchema) -> (out: Result<OutputPlan, usize>)
    ensures
        match out {
            Ok(p) => repeated_from(texts(header@), 0) is None && p@ == plan(
                texts(header@),
                output_names_of(schema@),
                schema@.outputs.len(),
            ),
            Err(column) => repeated_from(texts(header@), 0) == Some(column),
        },
{
    let ghost head = texts(header@);
    let ghost names = output_names_of(schema@);
    let index: HeaderIndex = match header_index(header) {
        Ok(index) => index,
        Err(column) => {
            return Err(column);
        },
    };
    let mut p = OutputPlan {
        headers: copy_texts(header),
        replaced: Vec::new(),
        added: Vec::new(),
        cols: Vec::new(),
    };
    assert(p@ =~= plan(head, names, 0));
    let mut k: usize = 0;
    while k < schema.outputs.len()
        invariant
            k <= schema.outputs@.len(),
            head == texts(header@),
            names == output_names_of(schema@),
            index.of(head),
            repeated_from(head, 0) is None,
            p@ == plan(head, names, k as nat),
        decreases schema.outputs@.len() - k,
    {
        let name: &str = schema.outputs[k].name.as_str();
        let ghost before = p@;
        proof {
            assert(names[k as int] == name@);
            lemma_plan(head, names, k as nat);
            lemma_position(trimmed_all(head), name@, 0);
            assert(before.headers.len() == p.headers@.len());
        }
        match index.get(name) {
            Some(c) => {
                p.replaced.push(owned(name));
                p.cols.push(c);
                p.headers.set(c, owned(name));
            },
            None => {
                p.added.push(owned(name));
                p.cols.push(p.headers.len());
                p.headers.push(owned(name));
            },
        }
        proof {
            let next = plan(head, names, (k + 1) as nat);
            assert(p@.headers =~= next.headers);
            assert(p@.replaced =~= next.replaced);
            assert(p@.added =~= next.added);
            assert(p@.cols =~= next.cols);
        }
        k += 1;
    }
    Ok(p)
}

/// A cell of a column that is no output: kept as a number only if the number
/// prints as the same characters, so that a code like `007` stays a text.
/// `reading` is the printed form of the finite number that the cell spells.
pub open spec fn foreign_cell(cell: Seq<char>, reading: Option<Seq<char>>) -> CellView {
    if blank(cell) {
        CellView::Blank
    } else if reading == Some(trimmed(cell)) {
        CellView::Number(reading)
    } else {
        CellView::Text(cell)
    }
}

pub open spec fn readings_view(list: Seq<Option<String>>) -> Seq<Option<Seq<char>>> {
    list.map_values(
        |r: Option<String>|
            match r {
                Some(s) => Some(s@),
                None => None,
            },
    )
}

/// The cells of a row before the outputs are filled in.
pub open spec fn base_cells(
    row: Seq<Seq<char>>,
    readings: Seq<Option<Seq<char>>>,
    width: nat,
) -> Seq<CellView> {
    Seq::new(
        width,
        |c: int|
            if c < row.len() {
                foreign_cell(row[c], readings[c])
            } else {
                CellView::Blank
            },
    )
}

/// The cells after the first `k` outputs were filled in.
pub open spec fn filled(
    base: Seq<CellView>,
    cols: Seq<int>,
    outputs: Seq<Option<Seq<char>>>,
    k: nat,
) -> Seq<CellView>
    decreases k,
{
    if k == 0 {
        base
    } else {
        filled(base, cols, outputs, (k - 1) as nat).update(
            cols[k - 1],
            CellView::Number(outputs[k - 1]),
        )
    }
}

proof fn lemma_filled_len(
    base: Seq<CellView>,
    cols: Seq<int>,
    outputs: Seq<Option<Seq<char>>>,
    k: nat,
)
    requires
        k <= cols.len(),
        forall|i: int| 0 <= i < cols.len() ==> 0 <= #[trigger] cols[i] < base.len(),
    ensures
        filled(base, cols, outputs, k).len() == base.len(),
    decreases k,
{
    if k > 0 {
        lemma_filled_len(base, cols, outputs, (k - 1) as nat);
        assert(0 <= cols[k - 1] < base.len());
    }
}

fn cell_of(cell: &String, reading: &Option<String>) -> (out: SheetCell)
    ensures
        out@ == foreign_cell(
            cell@,
            match reading {
                Some(s) => Some(s@),
                None => None,
            },
        ),
{
    if is_blank(cell.as_str()) {
        return SheetCell::Blank;
    }
    match reading {
        Some(shown) => {
            if same(shown.as_str(), trim(cell.as_str()).as_str()) {
                return SheetCell::Number(Some(owned(shown.as_str())));
            }
        },
        None => {},
    }
    SheetCell::Text(owned(cell.as_str()))
}

fn fill_row(
    row: &Vec<String>,
    readings: &Vec<Option<String>>,
    width: usize,
    cols: &Vec<usize>,
    outputs: &Vec<Option<String>>,
) -> (cells: Vec<SheetCell>)
    requires
        readings@.len() == row@.len(),
        cols@.len() == outputs@.len(),
        forall|k: int| 0 <= k < cols@.len() ==> #[trigger] cols@[k] < width,
    ensures
        cell_views(cells@) == filled(
            base_cells(texts(row@), readings_view(readings@), width as nat),
            cols@.map_values(|c: usize| c as int),
            readings_view(outputs@),
            cols@.len(),
        ),
{
    let ghost base = base_cells(texts(row@), readings_view(readings@), width as nat);
    let ghost places = cols@.map_values(|c: usize| c as int);
    let ghost shown = readings_view(outputs@);
    let mut cells: Vec<SheetCell> = Vec::new();
    let mut c: usize = 0;
    while c < width
        invariant
            c <= width,
            readings@.len() == row@.len(),
            base == base_cells(texts(row@), readings_view(readings@), width as nat),
            cells.len() == c,
            forall|k: int| 0 <= k < c ==> (#[trigger] cells@[k])@ == base[k],
        decreases width - c,
    {
        if c < row.len() {
            assert(texts(row@)[c as int] == row@[c as int]@);
            cells.push(cell_of(&row[c], &readings[c]));
        } else {
            cells.push(SheetCell::Blank);
        }
        c += 1;
    }
    assert(cell_views(cells@) =~= filled(base, places, shown, 0));
    let mut k: usize = 0;
    while k < cols.len()
        invariant
            k <= cols@.len() == outputs@.len(),
            cells.len() == width,
            places == cols@.map_values(|c: usize| c as int),
            shown == readings_view(outputs@),
            forall|q: int| 0 <= q < cols@.len() ==> #[trigger] cols@[q] < width,
            cell_views(cells@) == filled(base, places, shown, k as nat),
        decreases cols@.len() - k,
    {
        let ghost before = cell_views(cells@);
        let col: usize = cols[k];
        let value: SheetCell = match &outputs[k] {
            Some(s) => SheetCell::Number(Some(owned(s.as_str()))),
            None => SheetCell::Number(None),
        };
        let ghost said = value@;
        cells.set(col, value);
        proof {
            assert(said == CellView::Number(shown[k as int]));
            assert(cell_views(cells@) =~= before.update(col as int, said));
        }
        k += 1;
    }
    cells
}

/// Predictions in their printed form; a value that is not finite has none.
#[derive(Debug)]
pub struct Predicted {
    pub cols: usize,
    pub rows: Vec<Vec<Option<String>>>,
}

impl Predicted {
    pub open spec fn wf(&self) -> bool {
        forall|r: int| 0 <= r < self.rows@.len() ==> (#[trigger] self.rows@[r])@.len() == self.cols
    }
}

/// The sheet of an export and the report on it.
#[derive(Debug)]
pub struct ExportSheet {
    pub headers: Vec<String>,
    pub rows: Vec<Vec<SheetCell>>,
    pub summary: ExportSummary,
}

pub open spec fn export_plan(header: Seq<Seq<char>>, schema: SchemaView) -> PlanView {
    plan(header, output_names_of(schema), schema.outputs.len())
}

/// The cells of row `r` of the sheet.
pub open spec fn export_row(
    row: Seq<Seq<char>>,
    readings: Seq<Option<Seq<char>>>,
    p: PlanView,
    outputs: Seq<Option<Seq<char>>>,
) -> Seq<CellView> {
    filled(base_cells(row, readings, p.headers.len()), p.cols, outputs, p.cols.len())
}

/// Fills a table with predictions. `readings` holds, for each cell of the
/// table, the printed form of the finite number that it spells.
pub fn export_table(
    header: &Vec<String>,
    rows: &Vec<Vec<String>>,
    readings: &Vec<Vec<Option<String>>>,
    schema: &ModelSchema,
    predicted: &Predicted,
    extrapolated_rows: usize,
) -> (out: Result<ExportSheet, ExportError>)
    requires
        predicted.wf(),
        readings@.len() == rows@.len(),
        forall|r: int|
            0 <= r < rows@.len() ==> (#[trigger] readings@[r])@.len() == rows@[r]@.len(),
    ensures
        match out {
            Ok(sheet) => {
                let p = export_plan(texts(header@), schema@);
                &&& repeated_from(texts(header@), 0) is None
                &&& predicted.rows@.len() == rows@.len()
                &&& predicted.cols == schema@.outputs.len()
                &&& texts(sheet.headers@) == p.headers
                &&& texts(sheet.summary.replaced@) == p.replaced
                &&& texts(sheet.summary.added@) == p.added
                &&& sheet.summary.rows == rows@.len()
                &&& sheet.summary.extrapolated_rows == extrapolated_rows
                &&& sheet.rows@.len() == rows@.len()
                &&& forall|r: int|
                    0 <= r < rows@.len() ==> cell_views((#[trigger] sheet.rows@[r])@)
                        == export_row(
                        texts(rows@[r]@),
                        readings_view(readings@[r]@),
                        p,
                        readings_view(predicted.rows@[r]@),
                    )
            },
            Err(ExportError::Shape { rows: r, cols, table_rows, outputs }) => {
                &&& repeated_from(texts(header@), 0) is None
                &&& predicted.rows@.len() != rows@.len() || predicted.cols != schema@.outputs.len()
                &&& r == predicted.rows@.len()
                &&& cols == predicted.cols
                &&& table_rows == rows@.len()
                &&& outputs == schema@.outputs.len()
            },
            Err(ExportError::Duplicate { column }) => repeated_from(texts(header@), 0) == Some(
                column,
            ),
            Err(_) => false,
        },
{
    let p: OutputPlan = match plan_outputs(header, schema) {
        Ok(p) => p,
        Err(column) => {
            return Err(ExportError::Duplicate { column });
        },
    };
    if predicted.rows.len() != rows.len() || predicted.cols != schema.n_outputs() {
        return Err(
            ExportError::Shape {
                rows: predicted.rows.len(),
                cols: predicted.cols,
                table_rows: rows.len(),
                outputs: schema.n_outputs(),
            },
        );
    }
    let ghost view = p@;
    let width: usize = p.headers.len();
    proof {
        lemma_plan(texts(header@), output_names_of(schema@), schema@.outputs.len());
        assert forall|k: int| 0 <= k < p.cols@.len() implies #[trigger] p.cols@[k] < width by {
            assert(view.cols[k] == p.cols@[k] as int);
        }
        assert(view.cols.len() == p.cols@.len());
    }
    let mut out: Vec<Vec<SheetCell>> = Vec::new();
    let mut r: usize = 0;
    while r < rows.len()
        invariant
            r <= rows@.len(),
            predicted.wf(),
            predicted.rows@.len() == rows@.len(),
            readings@.len() == rows@.len(),
            forall|k: int|
                0 <= k < rows@.len() ==> (#[trigger] readings@[k])@.len() == rows@[k]@.len(),
            view == p@,
            width == view.headers.len(),
            p.cols@.len() == predicted.cols,
            view.cols.len() == p.cols@.len(),
            forall|k: int| 0 <= k < p.cols@.len() ==> #[trigger] p.cols@[k] < width,
            out.len() == r,
            forall|k: int|
                0 <= k < r ==> cell_views((#[trigger] out@[k])@) == export_row(
                    texts(rows@[k]@),
                    readings_view(readings@[k]@),
                    view,
                    readings_view(predicted.rows@[k]@),
                ),
        decreases rows@.len() - r,
    {
        assert(readings@[r as int]@.len() == rows@[r as int]@.len());
        assert(predicted.rows@[r as int]@.len() == predicted.cols);
        out.push(fill_row(&rows[r], &readings[r], width, &p.cols, &predicted.rows[r]));
        r += 1;
    }
    Ok(
        ExportSheet {
            headers: p.headers,
            rows: out,
            summary: ExportSummary {
                rows: rows.len(),
                extrapolated_rows,
                replaced: p.replaced,
                added: p.added,
            },
        },
    )
}

/// In the sheet of an export every output stands in its own column of its
/// own row, and every other cell keeps the value it had in the table.
pub proof fn law_export_places_outputs_and_keeps_the_rest(
    row: Seq<Seq<char>>,
    readings: Seq<Option<Seq<char>>>,
    p: PlanView,
    outputs: Seq<Option<Seq<char>>>,
)
    requires
        outputs.len() == p.cols.len(),
        p.cols.no_duplicates(),
        forall|k: int| 0 <= k < p.cols.len() ==> 0 <= #[trigger] p.cols[k] < p.headers.len(),
    ensures
        forall|k: int|
            0 <= k < p.cols.len() ==> export_row(row, readings, p, outputs)[#[trigger] p.cols[k]]
                == CellView::Number(outputs[k]),
        forall|c: int|
            0 <= c < p.headers.len() && !p.cols.contains(c) ==> #[trigger] export_row(
                row,
                readings,
                p,
                outputs,
            )[c] == base_cells(row, readings, p.headers.len())[c],
{
    let base = base_cells(row, readings, p.headers.len());
    lemma_filled(base, p.cols, outputs, p.cols.len());
}

proof fn lemma_filled(
    base: Seq<CellView>,
    cols: Seq<int>,
    outputs: Seq<Option<Seq<char>>>,
    n: nat,
)
    requires
        n <= cols.len(),
        cols.no_duplicates(),
        forall|k: int| 0 <= k < cols.len() ==> 0 <= #[trigger] cols[k] < base.len(),
    ensures
        forall|k: int|
            0 <= k < n ==> filled(base, cols, outputs, n)[#[trigger] cols[k]] == CellView::Number(
                outputs[k],
            ),
        forall|c: int|
            0 <= c < base.len() && !cols.contains(c) ==> #[trigger] filled(
                base,
                cols,
                outputs,
                n,
            )[c] == base[c],
    decreases n,
{
    lemma_filled_len(base, cols, outputs, n);
    if n > 0 {
        let m = (n - 1) as nat;
        lemma_filled(base, cols, outputs, m);
        lemma_filled_len(base, cols, outputs, m);
        let prev = filled(base, cols, outputs, m);
        let next = filled(base, cols, outputs, n);
        assert(cols.contains(cols[n - 1]));
        assert forall|k: int| 0 <= k < n implies next[#[trigger] cols[k]] == CellView::Number(
            outputs[k],
        ) by {
            if k < n - 1 {
                assert(cols[k] != cols[n - 1]);
                assert(prev[cols[k]] == CellView::Number(outputs[k]));
            }
        }
    }
}

/// Outputs with different names go to different columns, and the header of
/// the sheet carries their names.
pub proof fn law_outputs_have_columns_of_their_own(
    header: Seq<Seq<char>>,
    names: Seq<Seq<char>>,
    k: nat,
)
    requires
        k <= names.len(),
        names.no_duplicates(),
    ensures
        plan(header, names, k).cols.no_duplicates(),
        forall|i: int|
            0 <= i < k ==> plan(header, names, k).headers[#[trigger] plan(
                header,
                names,
                k,
            ).cols[i]] == names[i],
    decreases k,
{
    lemma_plan(header, names, k);
    if k > 0 {
        let m = (k - 1) as nat;
        law_outputs_have_columns_of_their_own(header, names, m);
        lemma_plan(header, names, m);
        let p = plan(header, names, m);
        let q = plan(header, names, k);
        let name = names[k - 1];
        lemma_position(trimmed_all(header), name, 0);
        assert forall|i: int| 0 <= i < m implies #[trigger] p.cols[i] != q.cols[k - 1] by {
            assert(names[i] != names[k - 1]);
            lemma_plan_col(header, names, m, i);
            lemma_position(trimmed_all(header), names[i], 0);
        }
        assert forall|i: int, j: int| 0 <= i < j < k implies q.cols[i] != q.cols[j] by {
            assert(q.cols[i] == p.cols[i]);
            if j < k - 1 {
                assert(q.cols[j] == p.cols[j]);
            }
        }
        assert forall|i: int| 0 <= i < k implies q.headers[#[trigger] q.cols[i]] == names[i] by {
            if i < k - 1 {
                assert(q.cols[i] == p.cols[i]);
                assert(p.cols[i] != q.cols[k - 1]);
                assert(p.headers[p.cols[i]] == names[i]);
            }
        }
    }
}

/// The column of an output is the one that the table has for it, or one that
/// was added on the right.
proof fn lemma_plan_col(header: Seq<Seq<char>>, names: Seq<Seq<char>>, k: nat, i: int)
    requires
        0 <= i < k <= names.len(),
    ensures
        match column_of(header, names[i]) {
            Some(c) => plan(header, names, k).cols[i] == c,
            None => header.len() <= plan(header, names, k).cols[i] < plan(
                header,
                names,
                k,
            ).headers.len(),
        },
    decreases k,
{
    let m = (k - 1) as nat;
    lemma_plan(header, names, k);
    lemma_plan(header, names, m);
    if i < m {
        lemma_plan_col(header, names, m, i);
    }
}

pub const CONTENT_TYPES: &'static str = "<?xml version=\"1.0\" encoding=\"UTF-8\" standalone=\"yes\"?>
<Types xmlns=\"http://schemas.openxmlformats.org/package/2006/content-types\">
  <Default Extension=\"rels\" ContentType=\"application/vnd.openxmlformats-package.relationships+xml\"/>
  <Default Extension=\"xml\" ContentType=\"application/xml\"/>
  <Override PartName=\"/xl/workbook.xml\" ContentType=\"application/vnd.openxmlformats-officedocument.spreadsheetml.sheet.main+xml\"/>
  <Override PartName=\"/xl/worksheets/sheet1.xml\" ContentType=\"application/vnd.openxmlformats-officedocument.spreadsheetml.worksheet+xml\"/>
</Types>";

pub const ROOT_RELS: &'static str = "<?xml version=\"1.0\" encoding=\"UTF-8\" standalone=\"yes\"?>
<Relationships xmlns=\"http://schemas.openxmlformats.org/package/2006/relationships\">
  <Relationship Id=\"rId1\" Type=\"http://schemas.openxmlformats.org/officeDocument/2006/relationships/officeDocument\" Target=\"xl/workbook.xml\"/>
</Relationships>";

pub const WORKBOOK: &'static str = "<?xml version=\"1.0\" encoding=\"UTF-8\" standalone=\"yes\"?>
<workbook xmlns=\"http://schemas.openxmlformats.org/spreadsheetml/2006/main\"
          xmlns:r=\"http://schemas.openxmlformats.org/officeDocument/2006/relationships\">
  <sheets>
    <sheet name=\"Predictions\" sheetId=\"1\" r:id=\"rId1\"/>
  </sheets>
</workbook>";

pub const WORKBOOK_RELS: &'static str = "<?xml version=\"1.0\" encoding=\"UTF-8\" standalone=\"yes\"?>
<Relationships xmlns=\"http://schemas.openxmlformats.org/package/2006/relationships\">
  <Relationship Id=\"rId1\" Type=\"http://schemas.openxmlformats.org/officeDocument/2006/relationships/worksheet\" Target=\"worksheets/sheet1.xml\"/>
</Relationships>";

/// A file inside a workbook.
pub struct WorkbookPart {
    pub name: String,
    pub contents: String,
}

impl View for WorkbookPart {
    type V = (Seq<char>, Seq<char>);

    open spec fn view(&self) -> (Seq<char>, Seq<char>) {
        (self.name@, self.contents@)
    }
}

/// The parts of a workbook with one sheet: their names and their texts.
pub open spec fn workbook_texts(sheet: Seq<char>) -> Seq<(Seq<char>, Seq<char>)> {
    seq![
        ("[Content_Types].xml"@, CONTENT_TYPES@),
        ("_rels/.rels"@, ROOT_RELS@),
        ("xl/workbook.xml"@, WORKBOOK@),
        ("xl/_rels/workbook.xml.rels"@, WORKBOOK_RELS@),
        ("xl/worksheets/sheet1.xml"@, sheet),
    ]
}

/// The parts of a workbook with one sheet as they are stored.
pub open spec fn workbook_parts(sheet: Seq<char>) -> Seq<(Seq<char>, Seq<u8>)> {
    workbook_texts(sheet).map_values(|p: (Seq<char>, Seq<char>)| (p.0, encode_utf8(p.1)))
}

/// The files of a minimal workbook: one sheet, values only.
pub fn workbook_files(headers: &Vec<String>, rows: &Vec<Vec<SheetCell>>) -> (parts: Vec<
    WorkbookPart,
>)
    requires
        rows@.len() < usize::MAX - 1,
    ensures
        parts@.map_values(|p: WorkbookPart| p@) == workbook_texts(
            sheet_text(texts(headers@), rows_view(rows@)),
        ),
{
    let mut parts: Vec<WorkbookPart> = Vec::new();
    parts.push(
        WorkbookPart { name: owned("[Content_Types].xml"), contents: owned(CONTENT_TYPES) },
    );
    parts.push(WorkbookPart { name: owned("_rels/.rels"), contents: owned(ROOT_RELS) });
    parts.push(WorkbookPart { name: owned("xl/workbook.xml"), contents: owned(WORKBOOK) });
    parts.push(
        WorkbookPart { name: owned("xl/_rels/workbook.xml.rels"), contents: owned(WORKBOOK_RELS) },
    );
    parts.push(
        WorkbookPart {
            name: owned("xl/worksheets/sheet1.xml"),
            contents: worksheet_xml(headers, rows),
        },
    );
    assert(parts@.map_values(|p: WorkbookPart| p@) =~= workbook_texts(
        sheet_text(texts(headers@), rows_view(rows@)),
    ));
    parts
}

proof fn lemma_part_names(sheet: Seq<char>)
    ensures
        forall|i: int|
            0 <= i < workbook_texts(sheet).len() ==> 4 * (#[trigger] workbook_texts(
                sheet,
            )[i]).0.len() <= 0xffff,
{
    reveal_strlit("[Content_Types].xml");
    reveal_strlit("_rels/.rels");
    reveal_strlit("xl/workbook.xml");
    reveal_strlit("xl/_rels/workbook.xml.rels");
    reveal_strlit("xl/worksheets/sheet1.xml");
}

/// No two parts have one name.
proof fn lemma_parts_differ(sheet: Seq<char>, i: int)
    requires
        0 <= i < workbook_parts(sheet).len(),
    ensures
        !entry_named(workbook_parts(sheet).take(i), workbook_parts(sheet)[i].0),
{
    reveal_strlit("[Content_Types].xml");
    reveal_strlit("_rels/.rels");
    reveal_strlit("xl/workbook.xml");
    reveal_strlit("xl/_rels/workbook.xml.rels");
    reveal_strlit("xl/worksheets/sheet1.xml");
    let parts = workbook_parts(sheet);
    assert forall|k: int| 0 <= k < i implies (#[trigger] parts.take(i)[k]).0 != parts[i].0 by {
        assert(parts[k].0 == workbook_texts(sheet)[k].0);
        assert(parts[i].0 == workbook_texts(sheet)[i].0);
        assert(workbook_texts(sheet)[k].0.len() != workbook_texts(sheet)[i].0.len());
    }
}

/// The first entries are no larger than all of them.
proof fn lemma_size_grows(entries: Seq<(Seq<char>, Seq<u8>)>, i: int)
    requires
        0 <= i <= entries.len(),
    ensures
        archive_size(entries.take(i)) <= archive_size(entries),
    decreases entries.len(),
{
    if i == entries.len() {
        assert(entries.take(i) =~= entries);
    } else {
        lemma_size_grows(entries.drop_last(), i);
        assert(entries.drop_last().take(i) =~= entries.take(i));
    }
}

/// An entry is added whole. A name that the archive has already is refused,
/// and so are contents that 32 bits cannot count. An open archive takes any
/// other entry with which it is not too large.
fn add_zip_file(archive: &mut Archive, name: &str, contents: &str) -> (done: Result<(), String>)
    requires
        4 * name@.len() <= 0xffff,
    ensures
        done is Ok ==> archive_entries(*final(archive)) == archive_entries(*old(archive)).push(
            (name@, encode_utf8(contents@)),
        ),
        done is Ok ==> archive_open(*final(archive)),
        entry_named(archive_entries(*old(archive)), name@) ==> done is Err,
        encode_utf8(contents@).len() > u32::MAX ==> done is Err,
        archive_open(*old(archive)) && !entry_named(archive_entries(*old(archive)), name@)
            && archive_size(
            archive_entries(*old(archive)).push((name@, encode_utf8(contents@))),
        ) <= SIZE_LIMIT ==> done is Ok,
{
    proof {
        let entries = archive_entries(*archive);
        assert(entries.push((name@, encode_utf8(contents@))).drop_last() =~= entries);
    }
    start_entry(archive, name)?;
    let ghost started = archive_entries(*archive);
    write_entry(archive, contents.as_bytes())?;
    assert(started.drop_last() =~= archive_entries(*old(archive)));
    Ok(())
}

/// What is said of a file that could not be written.
pub open spec fn write_failure_text(path: Seq<char>, reason: Seq<char>) -> Seq<char> {
    "запись "@ + path + ": "@ + reason
}

pub fn write_failure(path: &str, reason: &str) -> (text: String)
    ensures
        text@ == write_failure_text(path@, reason@),
{
    let mut text: String = owned("запись ");
    text.append(path);
    text.append(": ");
    text.append(reason);
    text
}

/// What an attempt to pack a workbook comes to: the file, or the reason with
/// the path that was to be written.
pub fn sheet_outcome(path: &str, packed: Result<Vec<u8>, String>) -> (file: Result<
    Vec<u8>,
    String,
>)
    ensures
        match packed {
            Ok(bytes) => file == Ok::<Vec<u8>, String>(bytes),
            Err(reason) => file matches Err(text) && text@ == write_failure_text(path@, reason@),
        },
{
    match packed {
        Ok(bytes) => Ok(bytes),
        Err(reason) => Err(write_failure(path, reason.as_str())),
    }
}

/// The file of a minimal workbook: one sheet, values only. It comes out of any
/// sheet that is not too large. A sheet that 32 bits cannot count is refused,
/// and a failure names the path that was to be written.
pub fn write_sheet(path: &str, headers: &Vec<String>, rows: &Vec<Vec<SheetCell>>) -> (file: Result<
    Vec<u8>,
    String,
>)
    requires
        rows@.len() < usize::MAX - 1,
    ensures
        match file {
            Ok(bytes) => {
                &&& entries_in(bytes@) == workbook_parts(
                    sheet_text(texts(headers@), rows_view(rows@)),
                )
                &&& encode_utf8(sheet_text(texts(headers@), rows_view(rows@))).len() <= u32::MAX
            },
            Err(text) => {
                &&& exists|reason: Seq<char>|
                    text@ == #[trigger] write_failure_text(path@, reason)
                &&& archive_size(
                    workbook_parts(sheet_text(texts(headers@), rows_view(rows@))),
                ) > SIZE_LIMIT
            },
        },
{
    let ghost sheet = sheet_text(texts(headers@), rows_view(rows@));
    let ghost wanted = workbook_parts(sheet);
    let parts: Vec<WorkbookPart> = workbook_files(headers, rows);
    let ghost views = parts@.map_values(|p: WorkbookPart| p@);
    proof {
        lemma_part_names(sheet);
    }
    let mut archive: Archive = new_archive();
    let mut i: usize = 0;
    while i < parts.len()
        invariant
            i <= parts@.len(),
            views == parts@.map_values(|p: WorkbookPart| p@),
            views == workbook_texts(sheet),
            wanted == workbook_parts(sheet),
            forall|k: int| 0 <= k < views.len() ==> 4 * (#[trigger] views[k]).0.len() <= 0xffff,
            sheet == sheet_text(texts(headers@), rows_view(rows@)),
            archive_entries(archive) == wanted.take(i as int),
            archive_open(archive),
            forall|k: int| 0 <= k < i ==> (#[trigger] wanted[k]).1.len() <= u32::MAX,
        decreases parts@.len() - i,
    {
        assert(views[i as int] == parts@[i as int]@);
        assert(wanted[i as int] == (views[i as int].0, encode_utf8(views[i as int].1)));
        proof {
            lemma_parts_differ(sheet, i as int);
            lemma_size_grows(wanted, i + 1);
            assert(wanted.take(i as int).push(wanted[i as int]) =~= wanted.take(i + 1));
        }
        match add_zip_file(&mut archive, parts[i].name.as_str(), parts[i].contents.as_str()) {
            Ok(()) => {},
            Err(reason) => {
                return sheet_outcome(path, Err(reason));
            },
        }
        i += 1;
    }
    assert(wanted.take(i as int) =~= wanted);
    assert(wanted[4].1 == encode_utf8(sheet));
    sheet_outcome(path, finish_archive(archive))
}

proof fn lemma_letters(col: nat)
    ensures
        column_letters(col).len() > 0,
        forall|i: int|
            0 <= i < column_letters(col).len() ==> 'A' <= #[trigger] column_letters(col)[i] <= 'Z',
    decreases col,
{
    if col >= 26 {
        lemma_letters((col / 26 - 1) as nat);
    }
}

proof fn lemma_letters_differ(a: nat, b: nat)
    requires
        column_letters(a) == column_letters(b),
    ensures
        a == b,
    decreases a,
{
    let x = column_letters(a);
    let y = column_letters(b);
    lemma_letters(a);
    lemma_letters(b);
    assert(x.last() == y.last());
    assert(x.last() as u32 == 65 + a % 26);
    assert(y.last() as u32 == 65 + b % 26);
    if a < 26 && b < 26 {
    } else if a >= 26 && b >= 26 {
        let p = (a / 26 - 1) as nat;
        let q = (b / 26 - 1) as nat;
        assert(x.drop_last() =~= column_letters(p));
        assert(y.drop_last() =~= column_letters(q));
        lemma_letters_differ(p, q);
    } else if a < 26 {
        lemma_letters((b / 26 - 1) as nat);
        assert(x.len() == 1 && y.len() > 1);
    } else {
        lemma_letters((a / 26 - 1) as nat);
        assert(y.len() == 1 && x.len() > 1);
    }
}

/// Different cells have different references.
pub proof fn law_references_differ(c1: nat, r1: nat, c2: nat, r2: nat)
    requires
        reference(c1, r1) == reference(c2, r2),
    ensures
        c1 == c2,
        r1 == r2,
{
    let a = column_letters(c1);
    let b = column_letters(c2);
    let whole = reference(c1, r1);
    lemma_letters(c1);
    lemma_letters(c2);
    lemma_decimal(r1);
    lemma_decimal(r2);
    if a.len() < b.len() {
        assert(whole[a.len() as int] == decimal(r1)[0]);
        assert(whole[a.len() as int] == b[a.len() as int]);
        assert(is_digit(decimal(r1)[0]));
        assert(false);
    }
    if b.len() < a.len() {
        assert(whole[b.len() as int] == decimal(r2)[0]);
        assert(whole[b.len() as int] == a[b.len() as int]);
        assert(is_digit(decimal(r2)[0]));
        assert(false);
    }
    assert(a =~= whole.take(a.len() as int));
    assert(b =~= whole.take(a.len() as int));
    lemma_letters_differ(c1, c2);
    assert(decimal(r1) =~= whole.skip(a.len() as int));
    assert(decimal(r2) =~= whole.skip(a.len() as int));
}

proof fn lemma_entities()
    ensures
        "&amp;"@ == seq!['&', 'a', 'm', 'p', ';'],
        "&lt;"@ == seq!['&', 'l', 't', ';'],
        "&gt;"@ == seq!['&', 'g', 't', ';'],
        "&quot;"@ == seq!['&', 'q', 'u', 'o', 't', ';'],
        "&apos;"@ == seq!['&', 'a', 'p', 'o', 's', ';'],
{
    reveal_strlit("&amp;");
    reveal_strlit("&lt;");
    reveal_strlit("&gt;");
    reveal_strlit("&quot;");
    reveal_strlit("&apos;");
    assert("&amp;"@ =~= seq!['&', 'a', 'm', 'p', ';']);
    assert("&lt;"@ =~= seq!['&', 'l', 't', ';']);
    assert("&gt;"@ =~= seq!['&', 'g', 't', ';']);
    assert("&quot;"@ =~= seq!['&', 'q', 'u', 'o', 't', ';']);
    assert("&apos;"@ =~= seq!['&', 'a', 'p', 'o', 's', ';']);
}

/// A character that would be markup.
pub open spec fn markup(c: char) -> bool {
    c == '<' || c == '>' || c == '"' || c == '\''
}

proof fn lemma_xml_front(s: Seq<char>)
    requires
        s.len() > 0,
    ensures
        xml_text(s) == xml_char(s[0]) + xml_text(s.skip(1)),
    decreases s.len(),
{
    if s.len() == 1 {
        assert(s.drop_last() =~= Seq::<char>::empty());
        assert(s.skip(1) =~= Seq::<char>::empty());
        assert(xml_text(Seq::<char>::empty()) == Seq::<char>::empty());
        assert(xml_text(s) =~= xml_char(s[0]) + Seq::<char>::empty());
    } else {
        lemma_xml_front(s.drop_last());
        assert(s.drop_last().skip(1) =~= s.skip(1).drop_last());
        assert(xml_char(s[0]) + xml_text(s.skip(1).drop_last()) + xml_char(s.last()) =~= xml_char(
            s[0],
        ) + (xml_text(s.skip(1).drop_last()) + xml_char(s.last())));
    }
}

/// Escaped text holds no markup, and different texts stay different.
pub proof fn law_escaped_text_is_safe_and_distinct(a: Seq<char>, b: Seq<char>)
    ensures
        forall|i: int| 0 <= i < xml_text(a).len() ==> !markup(#[trigger] xml_text(a)[i]),
        xml_text(a) == xml_text(b) ==> a == b,
{
    lemma_no_markup(a);
    if xml_text(a) == xml_text(b) {
        lemma_xml_distinct(a, b);
    }
}

proof fn lemma_no_markup(a: Seq<char>)
    ensures
        forall|i: int| 0 <= i < xml_text(a).len() ==> !markup(#[trigger] xml_text(a)[i]),
    decreases a.len(),
{
    if a.len() > 0 {
        let front = xml_text(a.drop_last());
        let tail = xml_char(a.last());
        lemma_no_markup(a.drop_last());
        lemma_entities();
        assert forall|i: int| 0 <= i < xml_text(a).len() implies !markup(
            #[trigger] xml_text(a)[i],
        ) by {
            if i < front.len() {
                assert(xml_text(a)[i] == front[i]);
            } else {
                assert(xml_text(a)[i] == tail[i - front.len()]);
            }
        }
    }
}

proof fn lemma_xml_distinct(a: Seq<char>, b: Seq<char>)
    requires
        xml_text(a) == xml_text(b),
    ensures
        a == b,
    decreases a.len(),
{
    lemma_entities();
    if a.len() == 0 || b.len() == 0 {
        if a.len() > 0 {
            lemma_xml_front(a);
        }
        if b.len() > 0 {
            lemma_xml_front(b);
        }
        assert(a =~= b);
    } else {
        lemma_xml_front(a);
        lemma_xml_front(b);
        let x = xml_char(a[0]);
        let y = xml_char(b[0]);
        let rx = xml_text(a.skip(1));
        let ry = xml_text(b.skip(1));
        let whole = xml_text(a);
        assert(whole[0] == x[0] && whole[0] == y[0]);
        if a[0] == b[0] {
        } else if x[0] == '&' {
            assert(whole[1] == x[1] && whole[1] == y[1]);
            assert(whole[2] == x[2] && whole[2] == y[2]);
            assert(false);
        }
        assert(x == y);
        assert(rx =~= whole.skip(x.len() as int));
        assert(ry =~= whole.skip(x.len() as int));
        lemma_xml_distinct(a.skip(1), b.skip(1));
        assert(a =~= seq![a[0]] + a.skip(1));
        assert(b =~= seq![b[0]] + b.skip(1));
    }
}

proof fn lemma_repeated(header: Seq<Seq<char>>, k: int)
    requires
        0 <= k <= header.len() <= usize::MAX,
    ensures
        match repeated_from(header, k) {
            Some(c) => {
                &&& k <= c < header.len()
                &&& repeats(header, c as int)
                &&& forall|j: int| k <= j < c ==> !#[trigger] repeats(header, j)
            },
            None => forall|j: int| k <= j < header.len() ==> !#[trigger] repeats(header, j),
        },
    decreases header.len() - k,
{
    if k < header.len() && !repeats(header, k) {
        lemma_repeated(header, k + 1);
    }
}

proof fn lemma_missing(header: Seq<Seq<char>>, names: Seq<Seq<char>>, i: int)
    requires
        0 <= i <= names.len() <= usize::MAX,
    ensures
        match missing_from(header, names, i) {
            Some(m) => {
                &&& i <= m < names.len()
                &&& column_of(header, names[m as int]) is None
                &&& forall|j: int|
                    i <= j < m ==> column_of(header, #[trigger] names[j]) is Some
            },
            None => forall|j: int|
                i <= j < names.len() ==> column_of(header, #[trigger] names[j]) is Some,
        },
    decreases names.len() - i,
{
    if i < names.len() && column_of(header, names[i]) is Some {
        lemma_missing(header, names, i + 1);
    }
}

/// Every input is read from the column that carries its name, and only a
/// header without two columns of one name is accepted. The column that is
/// named as a duplicate is the first whose name occurred before it; the input
/// that is named as missing is the first that no column is named after.
pub proof fn law_inputs_are_bound_by_name(
    header: Seq<Seq<char>>,
    schema: SchemaView,
    out: Result<Vec<usize>, ExportError>,
)
    requires
        binds(header, schema, out),
        header.len() <= usize::MAX,
        schema.inputs.len() <= usize::MAX,
    ensures
        match out {
            Ok(cols) => {
                &&& cols@.len() == schema.inputs.len()
                &&& forall|i: int|
                    #![trigger cols@[i]]
                    0 <= i < cols@.len() ==> {
                        &&& cols@[i] < header.len()
                        &&& trimmed(header[cols@[i] as int]) == schema.inputs[i].name
                        &&& schema.inputs[i].name.len() > 0
                    }
                &&& forall|i: int, k: int|
                    #![trigger header[i], header[k]]
                    0 <= i < k < header.len() && trimmed(header[i]).len() > 0 ==> trimmed(
                        header[i],
                    ) != trimmed(header[k])
            },
            Err(ExportError::Duplicate { column }) => {
                &&& column < header.len()
                &&& trimmed(header[column as int]).len() > 0
                &&& exists|i: int|
                    0 <= i < column && trimmed(#[trigger] header[i]) == trimmed(
                        header[column as int],
                    )
                &&& forall|i: int, k: int|
                    #![trigger header[i], header[k]]
                    0 <= i < k < column && trimmed(header[i]).len() > 0 ==> trimmed(header[i])
                        != trimmed(header[k])
            },
            Err(ExportError::Missing { input }) => {
                &&& input < schema.inputs.len()
                &&& schema.inputs[input as int].name.len() > 0 ==> forall|k: int|
                    0 <= k < header.len() ==> trimmed(#[trigger] header[k])
                        != schema.inputs[input as int].name
                &&& forall|j: int|
                    #![trigger schema.inputs[j]]
                    0 <= j < input ==> exists|k: int|
                        0 <= k < header.len() && trimmed(#[trigger] header[k])
                            == schema.inputs[j].name
                &&& forall|i: int, k: int|
                    #![trigger header[i], header[k]]
                    0 <= i < k < header.len() && trimmed(header[i]).len() > 0 ==> trimmed(
                        header[i],
                    ) != trimmed(header[k])
            },
            _ => false,
        },
{
    let list = trimmed_all(header);
    let names = input_names_of(schema);
    lemma_repeated(header, 0);
    lemma_missing(header, names, 0);
    assert forall|j: int| 0 <= j < header.len() implies #[trigger] list[j] == trimmed(
        header[j],
    ) by {}
    match out {
        Ok(cols) => {
            assert forall|i: int| #![trigger cols@[i]] 0 <= i < cols@.len() implies {
                &&& cols@[i] < header.len()
                &&& trimmed(header[cols@[i] as int]) == schema.inputs[i].name
                &&& schema.inputs[i].name.len() > 0
            } by {
                lemma_position(list, schema.inputs[i].name, 0);
            }
            assert forall|i: int, k: int|
                #![trigger header[i], header[k]]
                0 <= i < k < header.len() && trimmed(header[i]).len() > 0 implies trimmed(
                header[i],
            ) != trimmed(header[k]) by {
                assert(!repeats(header, k));
            }
        },
        Err(ExportError::Duplicate { column }) => {
            assert forall|i: int, k: int|
                #![trigger header[i], header[k]]
                0 <= i < k < column && trimmed(header[i]).len() > 0 implies trimmed(header[i])
                != trimmed(header[k]) by {
                assert(!repeats(header, k));
            }
        },
        Err(ExportError::Missing { input }) => {
            let name = schema.inputs[input as int].name;
            assert(names[input as int] == name);
            lemma_position(list, name, 0);
            if name.len() > 0 {
                assert forall|k: int| 0 <= k < header.len() implies trimmed(#[trigger] header[k])
                    != name by {
                    assert(list[k] != name);
                }
            }
            assert forall|j: int| #![trigger schema.inputs[j]] 0 <= j < input implies exists|k: int|
                0 <= k < header.len() && trimmed(#[trigger] header[k]) == schema.inputs[j].name by {
                assert(names[j] == schema.inputs[j].name);
                lemma_position(list, names[j], 0);
                let c = column_of(header, names[j])->0;
                assert(trimmed(header[c]) == schema.inputs[j].name);
            }
            assert forall|i: int, k: int|
                #![trigger header[i], header[k]]
                0 <= i < k < header.len() && trimmed(header[i]).len() > 0 implies trimmed(
                header[i],
            ) != trimmed(header[k]) by {
                assert(!repeats(header, k));
            }
        },
        _ => {},
    }
}

proof fn lemma_plan_names(header: Seq<Seq<char>>, names: Seq<Seq<char>>, k: nat)
    requires
        k <= names.len(),
    ensures
        ({
            let p = plan(header, names, k);
            &&& forall|i: int|
                0 <= i < k ==> (p.replaced.contains(#[trigger] names[i]) || p.added.contains(
                    names[i],
                ))
            &&& forall|i: int|
                0 <= i < p.replaced.len() ==> column_of(header, #[trigger] p.replaced[i]) is Some
            &&& forall|i: int|
                0 <= i < p.added.len() ==> column_of(header, #[trigger] p.added[i]) is None
            &&& forall|c: int|
                0 <= c < header.len() && !p.cols.contains(c) ==> #[trigger] p.headers[c]
                    == header[c]
        }),
    decreases k,
{
    if k > 0 {
        let m = (k - 1) as nat;
        lemma_plan_names(header, names, m);
        lemma_plan(header, names, m);
        lemma_position(trimmed_all(header), names[k - 1], 0);
        let p = plan(header, names, m);
        let q = plan(header, names, k);
        assert forall|i: int| 0 <= i < k implies (q.replaced.contains(#[trigger] names[i])
            || q.added.contains(names[i])) by {
            if i < k - 1 {
                if p.replaced.contains(names[i]) {
                    let a = p.replaced.index_of(names[i]);
                    assert(q.replaced[a] == names[i]);
                } else {
                    assert(p.added.contains(names[i]));
                    let a = p.added.index_of(names[i]);
                    assert(q.added[a] == names[i]);
                }
            } else if column_of(header, names[i]) is Some {
                assert(q.replaced[p.replaced.len() as int] == names[i]);
            } else {
                assert(q.added[p.added.len() as int] == names[i]);
            }
        }
        assert forall|c: int| 0 <= c < header.len() && !q.cols.contains(c) implies #[trigger] q.headers[c]
            == header[c] by {
            assert(q.cols[k - 1] != c) by {
                if q.cols[k - 1] == c {
                    assert(q.cols.contains(q.cols[k - 1]));
                }
            }
            assert(!p.cols.contains(c)) by {
                if p.cols.contains(c) {
                    let a = p.cols.index_of(c);
                    assert(q.cols[a] == c);
                }
            }
            assert(p.headers[c] == header[c]);
        }
    }
}

/// An output goes to the column that the table has under its name; only an
/// output without such a column is added, on the right of the table. Each
/// output is reported once as replaced or added, and the other columns keep
/// their names.
pub proof fn law_outputs_replace_their_own_columns(
    header: Seq<Seq<char>>,
    names: Seq<Seq<char>>,
    p: PlanView,
)
    requires
        p == plan(header, names, names.len()),
    ensures
        p.cols.len() == names.len(),
        p.headers.len() == header.len() + p.added.len(),
        p.added.len() + p.replaced.len() == names.len(),
        forall|i: int|
            #![trigger p.cols[i]]
            0 <= i < names.len() ==> if names[i].len() > 0 && exists|k: int|
                0 <= k < header.len() && trimmed(#[trigger] header[k]) == names[i] {
                0 <= p.cols[i] < header.len() && trimmed(header[p.cols[i]]) == names[i]
            } else {
                header.len() <= p.cols[i] < p.headers.len()
            },
        forall|i: int|
            #![trigger names[i]]
            0 <= i < names.len() ==> if names[i].len() > 0 && exists|k: int|
                0 <= k < header.len() && trimmed(#[trigger] header[k]) == names[i] {
                p.replaced.contains(names[i]) && !p.added.contains(names[i])
            } else {
                p.added.contains(names[i]) && !p.replaced.contains(names[i])
            },
        forall|c: int|
            0 <= c < header.len() && !p.cols.contains(c) ==> #[trigger] p.headers[c] == header[c],
{
    let n = names.len();
    let list = trimmed_all(header);
    lemma_plan(header, names, n);
    lemma_plan_names(header, names, n);
    assert forall|j: int| 0 <= j < header.len() implies #[trigger] list[j] == trimmed(
        header[j],
    ) by {}
    assert forall|i: int| 0 <= i < n implies (column_of(header, #[trigger] names[i]) is Some <==> (
    names[i].len() > 0 && exists|k: int|
        0 <= k < header.len() && trimmed(#[trigger] header[k]) == names[i])) by {
        lemma_position(list, names[i], 0);
        if names[i].len() > 0 && exists|k: int|
            0 <= k < header.len() && trimmed(#[trigger] header[k]) == names[i] {
            let k = choose|k: int|
                0 <= k < header.len() && trimmed(#[trigger] header[k]) == names[i];
            assert(list[k] == names[i]);
        }
        if column_of(header, names[i]) is Some {
            let c = column_of(header, names[i])->0;
            assert(trimmed(header[c]) == names[i]);
        }
    }
    assert forall|i: int| #![trigger p.cols[i]] 0 <= i < n implies if names[i].len() > 0
        && exists|k: int| 0 <= k < header.len() && trimmed(#[trigger] header[k]) == names[i] {
        0 <= p.cols[i] < header.len() && trimmed(header[p.cols[i]]) == names[i]
    } else {
        header.len() <= p.cols[i] < p.headers.len()
    } by {
        assert(column_of(header, names[i]) is Some || column_of(header, names[i]) is None);
        lemma_plan_col(header, names, n, i);
        lemma_position(list, names[i], 0);
    }
    assert forall|i: int| #![trigger names[i]] 0 <= i < n implies if names[i].len() > 0
        && exists|k: int| 0 <= k < header.len() && trimmed(#[trigger] header[k]) == names[i] {
        p.replaced.contains(names[i]) && !p.added.contains(names[i])
    } else {
        p.added.contains(names[i]) && !p.replaced.contains(names[i])
    } by {
        if p.replaced.contains(names[i]) {
            let a = p.replaced.index_of(names[i]);
            assert(column_of(header, p.replaced[a]) is Some);
        }
        if p.added.contains(names[i]) {
            let a = p.added.index_of(names[i]);
            assert(column_of(header, p.added[a]) is None);
        }
    }
}

/// A cell of a column that is no output says what it said: it is a number
/// only where the number prints as the very characters of the cell, and it is
/// left empty only where it held nothing but white space.
pub proof fn law_foreign_cells_keep_what_they_say(
    row: Seq<Seq<char>>,
    readings: Seq<Option<Seq<char>>>,
    width: nat,
)
    requires
        readings.len() == row.len(),
    ensures
        base_cells(row, readings, width).len() == width,
        forall|c: int|
            0 <= c < width ==> match #[trigger] base_cells(row, readings, width)[c] {
                CellView::Blank => c >= row.len() || trimmed(row[c]).len() == 0,
                CellView::Text(s) => c < row.len() && s == row[c] && trimmed(row[c]).len() > 0
                    && readings[c] != Some(trimmed(row[c])),
                CellView::Number(v) => c < row.len() && v == Some(trimmed(row[c])) && readings[c]
                    == v && trimmed(row[c]).len() > 0,
            },
{
    assert forall|c: int| 0 <= c < width implies match #[trigger] base_cells(row, readings, width)[c] {
        CellView::Blank => c >= row.len() || trimmed(row[c]).len() == 0,
        CellView::Text(s) => c < row.len() && s == row[c] && trimmed(row[c]).len() > 0
            && readings[c] != Some(trimmed(row[c])),
        CellView::Number(v) => c < row.len() && v == Some(trimmed(row[c])) && readings[c] == v
            && trimmed(row[c]).len() > 0,
    } by {
        if c < row.len() {
            lemma_trimmed_empty(row[c]);
        }
    }
}

/// The number that letters stand for, counted from 1: `Z` is 26, `AA` is 27.
pub open spec fn letters_value(s: Seq<char>) -> int
    decreases s.len(),
{
    if s.len() == 0 {
        0
    } else {
        26 * letters_value(s.drop_last()) + (s.last() as int - 64)
    }
}

/// The letters of a column count it: the first column is `A`, and each letter
/// is one of the twenty-six.
pub proof fn law_letters_count_the_columns(col: nat)
    ensures
        letters_value(column_letters(col)) == col + 1,
        forall|i: int|
            0 <= i < column_letters(col).len() ==> 'A' <= #[trigger] column_letters(col)[i] <= 'Z',
    decreases col,
{
    lemma_letters(col);
    reveal_with_fuel(letters_value, 2);
    let s = column_letters(col);
    if col < 26 {
        assert(s.drop_last() =~= Seq::<char>::empty());
        assert(s.last() as int == 65 + col);
    } else {
        let p = (col / 26 - 1) as nat;
        law_letters_count_the_columns(p);
        assert(s.drop_last() =~= column_letters(p));
        assert(s.last() as int == 65 + col % 26);
        assert(26 * (p + 1) + (col % 26) == col) by (nonlinear_arith)
            requires
                p == col / 26 - 1,
                col >= 26,
        ;
    }
}

/// A cell is written exactly if it holds a finite number or a text that is not
/// blank, and a row exactly if one of its cells is not blank.
pub proof fn law_blank_cells_are_not_written(cell: CellView, cells: Seq<CellView>, col: nat, row: nat)
    ensures
        cell_element(cell, col, row).len() > 0 <==> match cell {
            CellView::Blank => false,
            CellView::Text(s) => !blank(s),
            CellView::Number(v) => v is Some,
        },
        row_element(cells, row).len() > 0 <==> exists|i: int|
            0 <= i < cells.len() && match #[trigger] cells[i] {
                CellView::Blank => false,
                CellView::Text(s) => !blank(s),
                CellView::Number(_) => true,
            },
{
    reveal_strlit("</is></c>");
    reveal_strlit("</v></c>");
    reveal_strlit("</row>");
    if blank_row(cells) {
        assert forall|i: int| 0 <= i < cells.len() implies match #[trigger] cells[i] {
            CellView::Blank => true,
            CellView::Text(s) => blank(s),
            CellView::Number(_) => false,
        } by {
            assert(cells[i].blank());
        }
    } else {
        let i = choose|i: int| 0 <= i < cells.len() && !(#[trigger] cells[i]).blank();
        assert(match cells[i] {
            CellView::Blank => false,
            CellView::Text(s) => !blank(s),
            CellView::Number(_) => true,
        });
    }
}

proof fn lemma_rows_hold(rows: Seq<Seq<CellView>>, n: nat, i: int) -> (from: int)
    requires
        0 <= i < n <= rows.len(),
    ensures
        0 <= from,
        from + row_element(rows[i], (i + 2) as nat).len() <= row_elements(rows, n).len(),
        row_elements(rows, n).subrange(
            from,
            from + row_element(rows[i], (i + 2) as nat).len(),
        ) == row_element(rows[i], (i + 2) as nat),
    decreases n,
{
    let before = row_elements(rows, (n - 1) as nat);
    let last = row_element(rows[n - 1], n + 1);
    assert(row_elements(rows, n) == before + last);
    if i == n - 1 {
        let from = before.len() as int;
        assert((before + last).subrange(from, from + last.len()) =~= last);
        from
    } else {
        let from = lemma_rows_hold(rows, (n - 1) as nat, i);
        let one = row_element(rows[i], (i + 2) as nat);
        assert((before + last).subrange(from, from + one.len()) =~= before.subrange(
            from,
            from + one.len(),
        ));
        from
    }
}

/// The header stands in row 1 of the sheet and row `i` of the table, counted
/// from 0, in row `i + 2`, which says so. `from` is where it begins.
pub proof fn law_rows_follow_the_header(
    headers: Seq<Seq<char>>,
    rows: Seq<Seq<CellView>>,
    i: int,
) -> (from: int)
    requires
        0 <= i < rows.len(),
        !blank_row(rows[i]),
    ensures
        0 <= from <= sheet_text(headers, rows).len(),
        ({
            let mark = "<row r=\""@ + decimal((i + 2) as nat) + "\">"@;
            from + mark.len() <= sheet_text(headers, rows).len() && sheet_text(
                headers,
                rows,
            ).subrange(from, from + mark.len()) == mark
        }),
{
    let n = rows.len();
    let start = lemma_rows_hold(rows, n, i);
    let front = sheet_open() + row_element(header_views(headers), 1);
    let middle = row_elements(rows, n);
    let whole = sheet_text(headers, rows);
    let one = row_element(rows[i], (i + 2) as nat);
    let mark = "<row r=\""@ + decimal((i + 2) as nat) + "\">"@;
    let from = front.len() + start;
    assert(one =~= mark + (cell_elements(rows[i], (i + 2) as nat, rows[i].len()) + "</row>"@));
    assert(whole =~= front + middle + "</sheetData></worksheet>"@);
    assert(whole.subrange(from, from + mark.len()) =~= mark) by {
        assert forall|k: int| 0 <= k < mark.len() implies whole.subrange(
            from,
            from + mark.len(),
        )[k] == mark[k] by {
            assert(whole[from + k] == middle[start + k]);
            assert(middle.subrange(start, start + one.len())[k] == one[k]);
        }
    }
    from
}

/// The outputs that fill a table go by the names of the schema: each has a
/// column, that of its name where the table has one, else one behind the table.
pub proof fn law_outputs_go_by_the_names_of_the_schema(
    header: Seq<Seq<char>>,
    schema: SchemaView,
    k: int,
)
    ensures
        ({
            let p = export_plan(header, schema);
            &&& p.cols.len() == schema.outputs.len()
            &&& 0 <= k < schema.outputs.len() ==> {
                let name = schema.outputs[k].name;
                if name.len() > 0 && exists|c: int|
                    0 <= c < header.len() && trimmed(#[trigger] header[c]) == name {
                    &&& 0 <= p.cols[k] < header.len() && trimmed(header[p.cols[k]]) == name
                    &&& p.replaced.contains(name) && !p.added.contains(name)
                } else {
                    &&& header.len() <= p.cols[k] < p.headers.len()
                    &&& p.added.contains(name) && !p.replaced.contains(name)
                }
            }
        }),
{
    let names = output_names_of(schema);
    let p = export_plan(header, schema);
    law_outputs_replace_their_own_columns(header, names, p);
    if 0 <= k < schema.outputs.len() {
        assert(names[k] == schema.outputs[k].name);
        assert(p.cols[k] == p.cols[k]);
    }
}

/// A workbook holds one sheet under the name that its list of parts gives, and
/// every part is stored as the bytes of its text.
pub proof fn law_a_workbook_holds_its_sheet(sheet: Seq<char>, k: int)
    requires
        0 <= k < 5,
    ensures
        workbook_parts(sheet).len() == 5,
        workbook_texts(sheet).len() == 5,
        workbook_texts(sheet)[4] == ("xl/worksheets/sheet1.xml"@, sheet),
        workbook_parts(sheet)[k].0 == workbook_texts(sheet)[k].0,
        workbook_parts(sheet)[k].1 == encode_utf8(workbook_texts(sheet)[k].1),
{
}

} // verus!
