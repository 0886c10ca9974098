//! The report renderer: from glossary records to one static HTML document.

use crate::ubiquitous::{GlossaryRecord, Ubiquitous};
use vstd::prelude::*;
use vstd::utf8::encode_utf8;

verus! {

/// The mathematical model of one row of the report: the texts of its four
/// cells, in the order of the columns.
pub struct ReportRow {
    pub term: Seq<char>,
    pub identifier: Seq<char>,
    pub context: Seq<char>,
    pub description: Seq<char>,
}

/// One row of the report.
pub struct GenerateHtmlParam {
    pub class_name: String,
    pub ubiquitous: String,
    pub context: String,
    pub description: String,
}

impl View for GenerateHtmlParam {
    type V = ReportRow;

    open spec fn view(&self) -> ReportRow {
        ReportRow {
            term: self.ubiquitous@,
            identifier: self.class_name@,
            context: self.context@,
            description: self.description@,
        }
    }
}

impl DeepView for GenerateHtmlParam {
    type V = ReportRow;

    open spec fn deep_view(&self) -> ReportRow {
        self@
    }
}

/// The text of a field in the report: its value, or nothing if it is absent.
pub open spec fn text_or_empty(field: Option<Seq<char>>) -> Seq<char> {
    match field {
        Some(text) => text,
        None => Seq::empty(),
    }
}

/// The row that shows `record`.
pub open spec fn row_of(record: GlossaryRecord) -> ReportRow {
    ReportRow {
        term: text_or_empty(record.term),
        identifier: record.identifier,
        context: text_or_empty(record.context),
        description: text_or_empty(record.description),
    }
}

/// The row that shows a record, as a function value.
pub open spec fn to_row() -> spec_fn(GlossaryRecord) -> ReportRow {
    |record: GlossaryRecord| row_of(record)
}

/// The rows that show `records`, one for each, in their order.
pub open spec fn rows_of(records: Seq<GlossaryRecord>) -> Seq<ReportRow> {
    records.map_values(to_row())
}

/// What stands before the rows: the head of the document, its heading, the
/// opening of the table and the header row.
pub open spec fn html_header() -> Seq<char> {
    "<html>\n"@ + "  <head>\n"@ + "    <title>Ubiquitous Language</title>\n"@ + "  </head>\n"@
        + "  <body>\n"@ + "    <h1>Ubiquitous Language</h1>\n"@ + "    <table border='1'>\n"@
        + "      <tr><th>Ubiquitous</th><th>Class Name</th><th>Context</th><th>Description</th></tr>\n"@
}

/// What stands after the rows.
pub open spec fn html_footer() -> Seq<char> {
    "    </table>\n"@ + "  </body>\n"@ + "</html>\n"@
}

/// One cell of a row. The text is put in as it is: nothing in it is escaped.
pub open spec fn html_cell(text: Seq<char>) -> Seq<char> {
    "        <td>"@ + text + "</td>\n"@
}

/// One row of the table: term, class name, context, description.
pub open spec fn html_row(row: ReportRow) -> Seq<char> {
    "      <tr>\n"@ + html_cell(row.term) + html_cell(row.identifier) + html_cell(row.context)
        + html_cell(row.description) + "      </tr>\n"@
}

/// The rows of the table, one after the other.
pub open spec fn html_rows(rows: Seq<ReportRow>) -> Seq<char>
    decreases rows.len(),
{
    if rows.len() == 0 {
        Seq::empty()
    } else {
        html_rows(rows.drop_last()) + html_row(rows.last())
    }
}

/// The whole document.
pub open spec fn html_document(rows: Seq<ReportRow>) -> Seq<char> {
    html_header() + html_rows(rows) + html_footer()
}

/// The rows are a one-to-one projection of the records: as many, in the
/// same order, none left out, none moved and none merged.
pub proof fn lemma_rows_of(records: Seq<GlossaryRecord>)
    ensures
        rows_of(records).len() == records.len(),
        forall|i: int| 0 <= i < records.len() ==> rows_of(records)[i] == row_of(records[i]),
{
}

/// With no row, the document is the header, which holds the header row,
/// and the footer.
pub proof fn lemma_document_without_rows()
    ensures
        html_document(Seq::empty()) == html_header() + html_footer(),
        html_document(rows_of(Seq::empty())) == html_header() + html_footer(),
{
    assert(rows_of(Seq::empty()) == Seq::<ReportRow>::empty());
}

/// The rows of two lists put together are the rows of the first followed by
/// the rows of the second.
pub proof fn lemma_rows_append(first: Seq<ReportRow>, second: Seq<ReportRow>)
    ensures
        html_rows(first + second) == html_rows(first) + html_rows(second),
    decreases second.len(),
{
    if second.len() == 0 {
        assert(first + second == first);
    } else {
        lemma_rows_append(first, second.drop_last());
        assert((first + second).drop_last() == first + second.drop_last());
    }
}

/// Rendering depends on the texts of the rows alone: two lists that hold
/// the same rows give the same document, character for character and byte
/// for byte.
pub proof fn lemma_same_rows_same_document(
    first: Vec<GenerateHtmlParam>,
    second: Vec<GenerateHtmlParam>,
)
    requires
        first.deep_view() == second.deep_view(),
    ensures
        html_document(first.deep_view()) == html_document(second.deep_view()),
        encode_utf8(html_document(first.deep_view())) == encode_utf8(
            html_document(second.deep_view()),
        ),
{
}

impl GenerateHtmlParam {
    /// The row that shows `record`: an absent field gives an empty cell.
    pub fn from_ubiquitous(record: Ubiquitous) -> (row: Self)
        ensures
            row@ == row_of(record@),
    {
        let Ubiquitous { class_name, ubiquitous, context, description } = record;
        GenerateHtmlParam {
            class_name,
            ubiquitous: text_of(ubiquitous),
            context: text_of(context),
            description: text_of(description),
        }
    }
}

/// The text of a field, or the empty string if the field is absent.
fn text_of(field: Option<String>) -> (text: String)
    ensures
        text@ == text_or_empty(field.deep_view()),
{
    match field {
        Some(text) => text,
        None => String::new(),
    }
}

/// The rows that show `records`, one for each, in their order.
pub fn report_rows(records: Vec<Ubiquitous>) -> (rows: Vec<GenerateHtmlParam>)
    ensures
        rows.deep_view() == rows_of(records.deep_view()),
{
    let mut rows: Vec<GenerateHtmlParam> = Vec::new();
    for record in it: records
        invariant
            it.seq() == records@,
            rows.deep_view() == rows_of(records.deep_view().take(it.index() as int)),
    {
        let ghost before = rows.deep_view();
        rows.push(GenerateHtmlParam::from_ubiquitous(record));
        assert(rows.deep_view() == before.push(row_of(record@)));
    }
    assert(records.deep_view().take(records@.len() as int) == records.deep_view());
    rows
}

/// Appends one cell to `html`.
fn push_cell(html: &mut String, text: &str)
    ensures
        final(html)@ == old(html)@ + html_cell(text@),
{
    html.append("        <td>");
    html.append(text);
    html.append("</td>\n");
}

/// Appends one row to `html`.
fn push_row(html: &mut String, row: &GenerateHtmlParam)
    ensures
        final(html)@ == old(html)@ + html_row(row@),
{
    html.append("      <tr>\n");
    push_cell(html, row.ubiquitous.as_str());
    push_cell(html, row.class_name.as_str());
    push_cell(html, row.context.as_str());
    push_cell(html, row.description.as_str());
    html.append("      </tr>\n");
}

/// Renders the rows as one HTML document: a title and a heading, both
/// "Ubiquitous Language", and a bordered table with the header row
/// Ubiquitous, Class Name, Context, Description and one row for each element
/// of `ubiquitous_list`, in its order. The texts are put in as they are.
pub fn generate_html(ubiquitous_list: Vec<GenerateHtmlParam>) -> (html: String)
    ensures
        html@ == html_document(ubiquitous_list.deep_view()),
{
    let ghost rows = ubiquitous_list.deep_view();
    let mut html = String::new();
    html.append("<html>\n");
    html.append("  <head>\n");
    html.append("    <title>Ubiquitous Language</title>\n");
    html.append("  </head>\n");
    html.append("  <body>\n");
    html.append("    <h1>Ubiquitous Language</h1>\n");
    html.append("    <table border='1'>\n");
    html.append(
        "      <tr><th>Ubiquitous</th><th>Class Name</th><th>Context</th><th>Description</th></tr>\n",
    );
    assert(html@ == html_header());
    let n = ubiquitous_list.len();
    for i in 0..n
        invariant
            n == ubiquitous_list@.len(),
            rows == ubiquitous_list.deep_view(),
            html@ == html_header() + html_rows(rows.take(i as int)),
    {
        assert(rows.take(i + 1).drop_last() == rows.take(i as int));
        push_row(&mut html, &ubiquitous_list[i]);
    }
    assert(rows.take(n as int) == rows);
    html.append("    </table>\n");
    html.append("  </body>\n");
    html.append("</html>\n");
    html
}

} // verus!
