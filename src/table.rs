//! The table: its rows, their dialect and their column widths, and the
//! composition of its text.
use vstd::prelude::*;
use crate::escape::{escape_field, field_escaped};
use crate::format::{Format, Layout};
use crate::records::{csv_records, read_records};
use crate::render::{
    border_line,
    bordered,
    cells,
    column_width,
    column_widths,
    data_lines,
    header_delimiter,
    header_line,
    layout_widths,
    lemma_width_is_longest_field,
    rectangular,
    rendered,
    row_line,
    rule_line,
    runs,
    trim_newline,
};
use crate::text::{join, lemma_join_push, push_padded, push_repeat, push_text, repeat};

verus! {

/// Why no table was made.
#[derive(Debug)]
pub enum TableError {
    /// The input held no record, so there is no header row.
    Empty,
    /// The csv crate could not read the input.
    Parse(csv::Error),
}

/// Rows of escaped fields, the first one the header, laid out for one
/// dialect.
pub struct Table {
    rows: Vec<Vec<String>>,
    format: Format,
    widths: Vec<usize>,
}

/// Widths as natural numbers.
pub open spec fn nat_widths(widths: Seq<usize>) -> Seq<nat> {
    widths.map_values(|w: usize| w as nat)
}

/// Rows of raw fields as they are stored: each field escaped.
pub open spec fn escaped_rows(raw: Seq<Seq<Seq<char>>>) -> Seq<Seq<Seq<char>>> {
    raw.map_values(|row: Seq<Seq<char>>| row.map_values(|f: Seq<char>| field_escaped(f)))
}

/// The widest field of each column, over all rows.
fn measure_columns(rows: &Vec<Vec<String>>) -> (r: Vec<usize>)
    requires
        rows@.len() > 0,
    ensures
        nat_widths(r@) == column_widths(rows.deep_view()),
{
    let ghost rv = rows.deep_view();
    let n = rows[0].len();
    let mut widths: Vec<usize> = Vec::new();
    for i in 0..n
        invariant
            rv == rows.deep_view(),
            rows@.len() > 0,
            n == rv[0].len(),
            widths@.len() == i,
            forall|j: int| 0 <= j < i ==> widths@[j] as nat == column_width(rv, j),
    {
        let mut w: usize = 0;
        for k in 0..rows.len()
            invariant
                rv == rows.deep_view(),
                w as nat == column_width(rv.take(k as int), i as int),
        {
            assert(rv.take(k + 1).drop_last() =~= rv.take(k as int));
            let row = &rows[k];
            assert(rv[k as int] == row.deep_view());
            if i < row.len() {
                let len = row[i].as_str().unicode_len();
                if len > w {
                    w = len;
                }
            }
        }
        assert(rv.take(rows.len() as int) =~= rv);
        widths.push(w);
    }
    assert(nat_widths(widths@) =~= column_widths(rv));
    widths
}

/// Appends the cells of `row` joined by `sep`.
fn push_cells(out: &mut String, row: &Vec<String>, layout: Layout, widths: &Vec<usize>, sep: &str)
    ensures
        final(out)@ == old(out)@ + join(cells(row.deep_view(), layout, nat_widths(widths@)), sep@),
{
    let ghost cs = cells(row.deep_view(), layout, nat_widths(widths@));
    let ghost start = out@;
    let count = match layout {
        Layout::Unpadded => row.len(),
        Layout::Padded { .. } => if row.len() < widths.len() {
            row.len()
        } else {
            widths.len()
        },
    };
    for j in 0..count
        invariant
            cs == cells(row.deep_view(), layout, nat_widths(widths@)),
            count == cs.len(),
            count <= row@.len(),
            layout is Padded ==> count <= widths@.len(),
            out@ == start + join(cs.take(j as int), sep@),
    {
        proof {
            lemma_join_push(cs, sep@, j as int);
        }
        if j > 0 {
            push_text(out, sep);
        }
        match layout {
            Layout::Unpadded => push_text(out, row[j].as_str()),
            Layout::Padded { .. } => push_padded(out, row[j].as_str(), widths[j]),
        }
        assert(out@ =~= start + join(cs.take(j + 1), sep@));
    }
    assert(cs.take(count as int) =~= cs);
}

/// Appends one run of `c` per width, joined by `x`.
fn push_runs(out: &mut String, c: char, x: char, widths: &Vec<usize>)
    ensures
        final(out)@ == old(out)@ + runs(c, x, nat_widths(widths@)),
{
    let ghost parts = nat_widths(widths@).map_values(|w: nat| repeat(c, w));
    let ghost start = out@;
    for j in 0..widths.len()
        invariant
            parts == nat_widths(widths@).map_values(|w: nat| repeat(c, w)),
            out@ == start + join(parts.take(j as int), seq![x]),
    {
        proof {
            lemma_join_push(parts, seq![x], j as int);
        }
        if j > 0 {
            out.push(x);
        }
        push_repeat(out, c, widths[j]);
        assert(out@ =~= start + join(parts.take(j + 1), seq![x]));
    }
    assert(parts.take(widths.len() as int) =~= parts);
}

/// The line of one data row.
fn line_of(row: &Vec<String>, layout: Layout, widths: &Vec<usize>) -> (r: String)
    ensures
        r@ == row_line(row.deep_view(), layout, nat_widths(widths@)),
{
    let mut out = String::new();
    out.push('|');
    let sep = "|";
    proof {
        reveal_strlit("|");
    }
    assert(sep@ =~= seq!['|']);
    push_cells(&mut out, row, layout, widths, sep);
    out.push('|');
    assert(out@ =~= row_line(row.deep_view(), layout, nat_widths(widths@)));
    out
}

/// Escapes every field of every row.
fn escape_rows(raw: &Vec<Vec<String>>) -> (r: Vec<Vec<String>>)
    ensures
        r.deep_view() == escaped_rows(raw.deep_view()),
{
    let ghost want = escaped_rows(raw.deep_view());
    let mut rows: Vec<Vec<String>> = Vec::new();
    for k in 0..raw.len()
        invariant
            want == escaped_rows(raw.deep_view()),
            rows@.len() == k,
            forall|m: int| 0 <= m < k ==> #[trigger] rows@[m].deep_view() == want[m],
    {
        let fields = &raw[k];
        let mut row: Vec<String> = Vec::new();
        for j in 0..fields.len()
            invariant
                fields.deep_view() == raw.deep_view()[k as int],
                row@.len() == j,
                forall|m: int| 0 <= m < j ==> #[trigger] row@[m]@ == field_escaped(fields@[m]@),
        {
            row.push(escape_field(fields[j].as_str()));
        }
        assert(row.deep_view() =~= want[k as int]);
        rows.push(row);
    }
    assert(rows.deep_view() =~= want);
    rows
}

/// Escaping keeps the number of fields of every row.
proof fn lemma_escaped_rectangular(raw: Seq<Seq<Seq<char>>>)
    requires
        raw.len() > 0,
        rectangular(raw),
    ensures
        rectangular(escaped_rows(raw)),
{
    let rows = escaped_rows(raw);
    assert forall|k: int| 0 <= k < rows.len() implies #[trigger] rows[k].len() == rows[0].len() by {
        assert(raw[k].len() == raw[0].len());
    }
}

/// For records that all have the header's number of fields, in a dialect
/// that pads, the width of each column is the length of its longest field
/// after escaping, header included: no escaped field is longer, and one is
/// that long.
pub proof fn lemma_escaped_width_is_longest(raw: Seq<Seq<Seq<char>>>, format: Format, i: int)
    requires
        raw.len() > 0,
        rectangular(raw),
        format.spec_layout() is Padded,
        0 <= i < raw[0].len(),
    ensures
        ({
            let widths = layout_widths(escaped_rows(raw), format.spec_layout());
            &&& widths.len() == raw[0].len()
            &&& forall|k: int|
                0 <= k < raw.len() ==> #[trigger] field_escaped(raw[k][i]).len() <= widths[i]
            &&& exists|k: int|
                0 <= k < raw.len() && #[trigger] field_escaped(raw[k][i]).len() == widths[i]
        }),
{
    let rows = escaped_rows(raw);
    assert(rows.len() == raw.len() && rows[0].len() == raw[0].len());
    assert(layout_widths(rows, format.spec_layout()) == column_widths(rows));
    lemma_escaped_rectangular(raw);
    lemma_width_is_longest_field(rows, i);
    assert forall|k: int| 0 <= k < raw.len() implies #[trigger] rows[k][i] == field_escaped(
        raw[k][i],
    ) by {
        assert(raw[k].len() == raw[0].len());
    }
    let widths = column_widths(rows);
    assert forall|k: int| 0 <= k < raw.len() implies #[trigger] field_escaped(raw[k][i]).len()
        <= widths[i] by {
        assert(rows[k][i] == field_escaped(raw[k][i]));
        assert(rows[k][i].len() <= widths[i]);
    }
    assert(exists|k: int| 0 <= k < rows.len() && #[trigger] rows[k][i].len() == widths[i]);
    let k0 = choose|k: int| 0 <= k < rows.len() && #[trigger] rows[k][i].len() == widths[i];
    assert(rows[k0][i] == field_escaped(raw[k0][i]));
    assert(field_escaped(raw[k0][i]).len() == widths[i]);
}

impl Table {
    /// The rows as stored, header first.
    pub closed spec fn spec_rows(&self) -> Seq<Seq<Seq<char>>> {
        self.rows.deep_view()
    }

    /// The dialect the table is laid out for.
    pub closed spec fn spec_format(&self) -> Format {
        self.format
    }

    /// The layout profile of the table's dialect.
    pub open spec fn spec_layout(&self) -> Layout {
        self.spec_format().spec_layout()
    }

    /// The widths the table pads to.
    pub open spec fn spec_widths(&self) -> Seq<nat> {
        layout_widths(self.spec_rows(), self.spec_layout())
    }

    /// There is a header row, and the stored widths are those of the rows.
    pub closed spec fn wf(&self) -> bool {
        &&& self.rows@.len() > 0
        &&& nat_widths(self.widths@) == self.spec_widths()
    }

    /// Reads `input` as delimited records with the csv crate, escapes each
    /// field, and lays the rows out for `format`, the first one as header.
    /// All rows have the header's number of fields.
    ///
    /// Fails with `Parse` where the csv crate reports an error, and with
    /// `Empty` where it reads no record.
    pub fn new(
        input: &[u8],
        delimiter: u8,
        terminator: Option<u8>,
        comment_char: Option<u8>,
        quoting: bool,
        quote_char: u8,
        double_quote: bool,
        format: Format,
    ) -> (r: Result<Table, TableError>)
        ensures
            match csv_records(
                input@,
                delimiter,
                terminator,
                comment_char,
                quoting,
                quote_char,
                double_quote,
            ) {
                None => r is Err && r->Err_0 is Parse,
                Some(raw) => if raw.len() == 0 {
                    r is Err && r->Err_0 is Empty
                } else {
                    &&& r is Ok
                    &&& r->Ok_0.wf()
                    &&& r->Ok_0.spec_rows() == escaped_rows(raw)
                    &&& r->Ok_0.spec_format() == format
                    &&& rectangular(r->Ok_0.spec_rows())
                },
            },
    {
        match read_records(
            input,
            delimiter,
            terminator,
            comment_char,
            quoting,
            quote_char,
            double_quote,
        ) {
            Ok(raw) => {
                let r = Table::from_records(&raw, format);
                proof {
                    if raw.deep_view().len() > 0 {
                        lemma_escaped_rectangular(raw.deep_view());
                    }
                }
                r
            },
            Err(e) => Err(TableError::Parse(e)),
        }
    }

    /// Escapes each field of the records `raw` and lays them out for
    /// `format`, the first one as header. Fails with `Empty` where there is
    /// no record.
    pub fn from_records(raw: &Vec<Vec<String>>, format: Format) -> (r: Result<Table, TableError>)
        ensures
            raw@.len() == 0 ==> r is Err && r->Err_0 is Empty,
            raw@.len() > 0 ==> {
                &&& r is Ok
                &&& r->Ok_0.wf()
                &&& r->Ok_0.spec_rows() == escaped_rows(raw.deep_view())
                &&& r->Ok_0.spec_format() == format
            },
    {
        let rows = escape_rows(raw);
        assert(rows@.len() == rows.deep_view().len());
        assert(raw@.len() == raw.deep_view().len());
        Table::create(rows, format)
    }

    /// Lays `rows` out for `format`, the first row as header, measuring the
    /// columns where the dialect pads. Fails with `Empty` where there is no
    /// row.
    pub fn create(rows: Vec<Vec<String>>, format: Format) -> (r: Result<Table, TableError>)
        ensures
            rows@.len() == 0 ==> r is Err && r->Err_0 is Empty,
            rows@.len() > 0 ==> {
                &&& r is Ok
                &&& r->Ok_0.wf()
                &&& r->Ok_0.spec_rows() == rows.deep_view()
                &&& r->Ok_0.spec_format() == format
            },
    {
        if rows.len() == 0 {
            return Err(TableError::Empty);
        }
        let widths = match format.layout() {
            Layout::Unpadded => Vec::new(),
            Layout::Padded { .. } => measure_columns(&rows),
        };
        proof {
            if format.spec_layout() is Unpadded {
                assert(nat_widths(widths@) =~= Seq::<nat>::empty());
            }
        }
        Ok(Table { rows, format, widths })
    }

    /// The header line, newline included.
    pub fn format_header(&self) -> (r: String)
        requires
            self.wf(),
        ensures
            r@ == header_line(self.spec_rows()[0], self.spec_layout(), self.spec_widths()),
    {
        let layout = self.format.layout();
        let delimiter = match layout {
            Layout::Unpadded => "||",
            Layout::Padded { .. } => "|",
        };
        proof {
            reveal_strlit("||");
            reveal_strlit("|");
        }
        assert(delimiter@ =~= header_delimiter(layout));
        let mut out = String::new();
        push_text(&mut out, delimiter);
        push_cells(&mut out, &self.rows[0], layout, &self.widths, delimiter);
        push_text(&mut out, delimiter);
        out.push('\n');
        assert(out@ =~= header_line(self.spec_rows()[0], layout, self.spec_widths()));
        out
    }

    /// The rule line under the header, newline included; empty for a
    /// dialect that does not pad.
    pub fn format_rule(&self) -> (r: String)
        requires
            self.wf(),
        ensures
            r@ == rule_line(self.spec_layout(), self.spec_widths()),
    {
        let mut out = String::new();
        match self.format.layout() {
            Layout::Unpadded => {},
            Layout::Padded { rule, intersection, .. } => {
                out.push('|');
                push_runs(&mut out, rule, intersection, &self.widths);
                out.push('|');
                out.push('\n');
                assert(out@ =~= rule_line(self.spec_layout(), self.spec_widths()));
            },
        }
        out
    }

    /// The border line, newline included, for a dialect with a border
    /// character; `None` for the others.
    pub fn format_border(&self) -> (r: Option<String>)
        requires
            self.wf(),
        ensures
            match self.spec_layout() {
                Layout::Padded { intersection, border: Some(b), .. } => r is Some && r->Some_0@
                    == border_line(b, intersection, self.spec_widths()),
                _ => r is None,
            },
    {
        match self.format.layout() {
            Layout::Padded { intersection, border: Some(b), .. } => {
                let mut out = String::new();
                out.push(intersection);
                push_runs(&mut out, b, intersection, &self.widths);
                out.push(intersection);
                out.push('\n');
                assert(out@ =~= border_line(b, intersection, self.spec_widths()));
                Some(out)
            },
            _ => None,
        }
    }

    /// The lines of the data rows, without newlines.
    pub fn format_rows(&self) -> (r: Vec<String>)
        requires
            self.wf(),
        ensures
            r.deep_view() == data_lines(self.spec_rows(), self.spec_layout(), self.spec_widths()),
    {
        let layout = self.format.layout();
        let ghost want = data_lines(self.spec_rows(), layout, self.spec_widths());
        let mut lines: Vec<String> = Vec::new();
        for k in 1..self.rows.len()
            invariant
                self.wf(),
                layout == self.spec_layout(),
                want == data_lines(self.spec_rows(), layout, self.spec_widths()),
                lines@.len() == k - 1,
                forall|m: int| 0 <= m < k - 1 ==> #[trigger] lines@[m]@ == want[m],
        {
            lines.push(line_of(&self.rows[k], layout, &self.widths));
        }
        assert(lines.deep_view() =~= want);
        lines
    }

    /// The text of the table.
    pub fn compose(&self) -> (r: String)
        requires
            self.wf(),
        ensures
            r@ == rendered(self.spec_rows(), self.spec_format()),
    {
        let header = self.format_header();
        let rule = self.format_rule();
        let rows = self.format_rows();
        let ghost lines = rows.deep_view();
        let mut out = String::new();
        match self.format_border() {
            Some(border) => {
                let mut block = String::new();
                for k in 0..rows.len()
                    invariant
                        lines == rows.deep_view(),
                        block@ == bordered(lines.take(k as int), border@),
                {
                    assert(lines.take(k + 1).drop_last() =~= lines.take(k as int));
                    push_text(&mut block, rows[k].as_str());
                    block.push('\n');
                    push_text(&mut block, border.as_str());
                }
                assert(lines.take(rows.len() as int) =~= lines);
                push_text(&mut out, border.as_str());
                push_text(&mut out, header.as_str());
                push_text(&mut out, rule.as_str());
                push_text(&mut out, block.as_str());
                let ghost whole = out@;
                assert(out@.len() > 0 && out@.last() == '\n') by {
                    if rows.len() > 0 {
                        assert(whole.last() == border@.last());
                    } else {
                        assert(whole.last() == rule@.last());
                    }
                }
                let _newline = out.pop();
                assert(out@ == trim_newline(whole));
            },
            None => {
                push_text(&mut out, header.as_str());
                push_text(&mut out, rule.as_str());
                let ghost start = out@;
                for k in 0..rows.len()
                    invariant
                        lines == rows.deep_view(),
                        out@ == start + join(lines.take(k as int), seq!['\n']),
                {
                    proof {
                        lemma_join_push(lines, seq!['\n'], k as int);
                    }
                    if k > 0 {
                        out.push('\n');
                    }
                    push_text(&mut out, rows[k].as_str());
                    assert(out@ =~= start + join(lines.take(k + 1), seq!['\n']));
                }
                assert(lines.take(rows.len() as int) =~= lines);
            },
        }
        assert(out@ =~= rendered(self.spec_rows(), self.spec_format()));
        out
    }
    /// The rows as stored, header first, each field escaped.
    pub fn rows(&self) -> (r: &Vec<Vec<String>>)
        ensures
            r.deep_view() == self.spec_rows(),
    {
        &self.rows
    }

    /// The dialect the table is laid out for.
    pub fn format(&self) -> (r: Format)
        ensures
            r == self.spec_format(),
    {
        self.format
    }

    /// The width of each column where the dialect pads; empty where it does
    /// not.
    pub fn widths(&self) -> (r: &Vec<usize>)
        requires
            self.wf(),
        ensures
            nat_widths(r@) == self.spec_widths(),
    {
        &self.widths
    }
}

} // verus!
