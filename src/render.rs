//! What a rendered table is, as sequences of characters: column widths,
//! cells, the header, rule, border and data lines, and the whole text.
use vstd::prelude::*;
use crate::format::{Format, Layout};
use crate::text::{join, pad, repeat};

verus! {

/// The widest field in column `i` over all rows, header included; 0 when
/// no row has a field there.
pub open spec fn column_width(rows: Seq<Seq<Seq<char>>>, i: int) -> nat
    decreases rows.len(),
{
    if rows.len() == 0 {
        0
    } else {
        let rest = column_width(rows.drop_last(), i);
        let row = rows.last();
        if 0 <= i < row.len() && row[i].len() > rest {
            row[i].len()
        } else {
            rest
        }
    }
}

/// Every row has as many fields as the first.
pub open spec fn rectangular(rows: Seq<Seq<Seq<char>>>) -> bool {
    forall|k: int| 0 <= k < rows.len() ==> #[trigger] rows[k].len() == rows[0].len()
}

/// One width for each field of the header row.
pub open spec fn column_widths(rows: Seq<Seq<Seq<char>>>) -> Seq<nat>
    recommends
        rows.len() > 0,
{
    Seq::new(rows[0].len(), |i: int| column_width(rows, i))
}

/// The widths a dialect pads to: none for an unpadded one.
pub open spec fn layout_widths(rows: Seq<Seq<Seq<char>>>, layout: Layout) -> Seq<nat> {
    match layout {
        Layout::Unpadded => Seq::empty(),
        Layout::Padded { .. } => column_widths(rows),
    }
}

/// The cells written for a row: its fields as they are when unpadded;
/// otherwise each field padded to its column's width, as far as both the
/// row and the widths reach.
pub open spec fn cells(row: Seq<Seq<char>>, layout: Layout, widths: Seq<nat>) -> Seq<Seq<char>> {
    match layout {
        Layout::Unpadded => row,
        Layout::Padded { .. } => Seq::new(
            if row.len() < widths.len() {
                row.len()
            } else {
                widths.len()
            },
            |j: int| pad(row[j], widths[j]),
        ),
    }
}

/// What wraps and joins the cells of the header line: `||` when unpadded,
/// `|` otherwise.
pub open spec fn header_delimiter(layout: Layout) -> Seq<char> {
    match layout {
        Layout::Unpadded => seq!['|', '|'],
        Layout::Padded { .. } => seq!['|'],
    }
}

/// The header line, newline included.
pub open spec fn header_line(header: Seq<Seq<char>>, layout: Layout, widths: Seq<nat>) -> Seq<
    char,
> {
    let d = header_delimiter(layout);
    d + join(cells(header, layout, widths), d) + d + seq!['\n']
}

/// One run of `c` per column, as long as the column is wide, joined by `x`.
pub open spec fn runs(c: char, x: char, widths: Seq<nat>) -> Seq<char> {
    join(widths.map_values(|w: nat| repeat(c, w)), seq![x])
}

/// The rule line under the header, between two `|`, newline included; no
/// line at all when unpadded.
pub open spec fn rule_line(layout: Layout, widths: Seq<nat>) -> Seq<char> {
    match layout {
        Layout::Unpadded => Seq::empty(),
        Layout::Padded { rule, intersection, .. } => seq!['|'] + runs(rule, intersection, widths)
            + seq!['|', '\n'],
    }
}

/// A border line of `b`, between two intersections, newline included.
pub open spec fn border_line(b: char, x: char, widths: Seq<nat>) -> Seq<char> {
    seq![x] + runs(b, x, widths) + seq![x, '\n']
}

/// A data line: its cells joined by `|` and between two `|`, with no
/// newline.
pub open spec fn row_line(row: Seq<Seq<char>>, layout: Layout, widths: Seq<nat>) -> Seq<char> {
    seq!['|'] + join(cells(row, layout, widths), seq!['|']) + seq!['|']
}

/// The lines of the data rows, all rows after the header, in order.
pub open spec fn data_lines(rows: Seq<Seq<Seq<char>>>, layout: Layout, widths: Seq<nat>) -> Seq<
    Seq<char>,
> {
    rows.drop_first().map_values(|row: Seq<Seq<char>>| row_line(row, layout, widths))
}

/// Each line followed by a newline and the border line.
pub open spec fn bordered(lines: Seq<Seq<char>>, border: Seq<char>) -> Seq<char>
    decreases lines.len(),
{
    if lines.len() == 0 {
        Seq::empty()
    } else {
        bordered(lines.drop_last(), border) + lines.last() + seq!['\n'] + border
    }
}

/// `s` without its final newline, if it ends in one. (Where it is applied
/// the character before that newline ends a border or rule line, `+` or
/// `|`, never whitespace, so this is what trimming trailing whitespace
/// does.)
pub open spec fn trim_newline(s: Seq<char>) -> Seq<char> {
    if s.len() > 0 && s.last() == '\n' {
        s.drop_last()
    } else {
        s
    }
}

/// The text of a table whose first row is the header, in a dialect.
///
/// With a border character: a border line, the header line, the rule line,
/// then each data line followed by a newline and a border line, with the
/// final newline of the whole text trimmed. Otherwise: the header line, the
/// rule line (none when unpadded), then the data lines joined by newlines.
pub open spec fn rendered(rows: Seq<Seq<Seq<char>>>, format: Format) -> Seq<char>
    recommends
        rows.len() > 0,
{
    let layout = format.spec_layout();
    let widths = layout_widths(rows, layout);
    let header = header_line(rows[0], layout, widths);
    let rule = rule_line(layout, widths);
    let lines = data_lines(rows, layout, widths);
    match layout {
        Layout::Padded { intersection, border: Some(b), .. } => {
            let border = border_line(b, intersection, widths);
            trim_newline(border + header + rule + bordered(lines, border))
        },
        _ => header + rule + join(lines, seq!['\n']),
    }
}

/// Where every row has a field `i`, the width of column `i` is at least the
/// length of each of those fields and equal to the length of one of them.
proof fn lemma_column_width_is_max(rows: Seq<Seq<Seq<char>>>, i: int)
    requires
        rows.len() > 0,
        0 <= i,
        forall|r: int| 0 <= r < rows.len() ==> i < #[trigger] rows[r].len(),
    ensures
        forall|r: int| 0 <= r < rows.len() ==> #[trigger] rows[r][i].len() <= column_width(rows, i),
        exists|r: int| 0 <= r < rows.len() && #[trigger] rows[r][i].len() == column_width(rows, i),
    decreases rows.len(),
{
    let last = rows.len() - 1;
    if rows.len() == 1 {
        assert(column_width(rows.drop_last(), i) == 0);
        assert(rows[last][i].len() == column_width(rows, i));
    } else {
        let front = rows.drop_last();
        assert forall|r: int| 0 <= r < front.len() implies i < #[trigger] front[r].len() by {
            assert(front[r] == rows[r]);
        }
        lemma_column_width_is_max(front, i);
        assert forall|r: int| 0 <= r < rows.len() implies #[trigger] rows[r][i].len()
            <= column_width(rows, i) by {
            if r < last {
                assert(front[r] == rows[r]);
            }
        }
        let r0 = choose|r: int| 0 <= r < front.len() && #[trigger] front[r][i].len() == column_width(
            front,
            i,
        );
        if column_width(rows, i) == column_width(front, i) {
            assert(rows[r0][i].len() == column_width(rows, i));
        } else {
            assert(rows[last][i].len() == column_width(rows, i));
        }
    }
}

/// For rows that all have as many fields as the header, the width of each
/// column is the maximum length of its field over all rows, header
/// included: no field is longer, and one is that long.
pub proof fn lemma_width_is_longest_field(rows: Seq<Seq<Seq<char>>>, i: int)
    requires
        rows.len() > 0,
        rectangular(rows),
        0 <= i < rows[0].len(),
    ensures
        column_widths(rows).len() == rows[0].len(),
        forall|r: int| 0 <= r < rows.len() ==> #[trigger] rows[r][i].len() <= column_widths(rows)[i],
        exists|r: int| 0 <= r < rows.len() && #[trigger] rows[r][i].len() == column_widths(rows)[i],
{
    assert forall|r: int| 0 <= r < rows.len() implies i < #[trigger] rows[r].len() by {
        assert(rows[r].len() == rows[0].len());
    }
    lemma_column_width_is_max(rows, i);
}

/// Joining runs of `c` by `x` gives only the characters `c` and `x`.
proof fn lemma_runs_chars(c: char, x: char, widths: Seq<nat>)
    ensures
        forall|j: int| 0 <= j < runs(c, x, widths).len() ==> #[trigger] runs(c, x, widths)[j] == c
            || runs(c, x, widths)[j] == x,
    decreases widths.len(),
{
    let parts = widths.map_values(|w: nat| repeat(c, w));
    let s = runs(c, x, widths);
    if widths.len() == 1 {
        assert(s == repeat(c, widths[0]));
    } else if widths.len() > 1 {
        let front = runs(c, x, widths.drop_last());
        lemma_runs_chars(c, x, widths.drop_last());
        assert(parts.drop_last() =~= widths.drop_last().map_values(|w: nat| repeat(c, w)));
        let tail = repeat(c, widths.last());
        assert(s == front + seq![x] + tail);
        assert forall|j: int| 0 <= j < s.len() implies #[trigger] s[j] == c || s[j] == x by {
            if j < front.len() {
                assert(s[j] == front[j]);
            } else if j > front.len() {
                assert(s[j] == tail[j - front.len() - 1]);
            }
        }
    }
}

/// The lines in order, each one followed by `after`.
pub open spec fn each_followed_by(lines: Seq<Seq<char>>, after: Seq<char>) -> Seq<Seq<char>>
    decreases lines.len(),
{
    if lines.len() == 0 {
        Seq::empty()
    } else {
        each_followed_by(lines.drop_last(), after).push(lines.last()).push(after)
    }
}

/// Text lines `first` joined by newlines, then a newline and the bordered
/// data lines, are the same as all of them, each data line followed by the
/// border, joined by newlines, then a final newline.
proof fn lemma_bordered_joined(first: Seq<Seq<char>>, lines: Seq<Seq<char>>, border: Seq<char>)
    requires
        first.len() > 0,
    ensures
        join(first, seq!['\n']) + seq!['\n'] + bordered(lines, border + seq!['\n']) == join(
            first + each_followed_by(lines, border),
            seq!['\n'],
        ) + seq!['\n'],
    decreases lines.len(),
{
    let nl = seq!['\n'];
    if lines.len() == 0 {
        assert(first + each_followed_by(lines, border) =~= first);
        assert(join(first, nl) + nl + bordered(lines, border + nl) =~= join(first, nl) + nl);
    } else {
        let front = lines.drop_last();
        let last = lines.last();
        lemma_bordered_joined(first, front, border);
        let s = first + each_followed_by(front, border);
        let all = first + each_followed_by(lines, border);
        assert(all =~= s.push(last).push(border));
        assert(all.drop_last() =~= s.push(last));
        assert(s.push(last).drop_last() =~= s);
        let mid = s.push(last);
        assert(all.len() >= 2 && mid.len() >= 2);
        assert(all.last() == border && mid.last() == last);
        assert(join(all, nl) == join(mid, nl) + nl + border);
        assert(join(mid, nl) == join(s, nl) + nl + last);
        assert(join(all, nl) =~= join(s, nl) + nl + last + nl + border);
        assert(join(first, nl) + nl + bordered(lines, border + nl) =~= join(all, nl) + nl);
    }
}

/// In reStructuredText the text is these lines joined by newlines: the
/// border, the header, the rule, then each data line followed by the border.
/// So exactly one border stands above the header and exactly one rule
/// below it, every data line (the last one too) is followed by its own
/// border, and nothing follows the last border. The border is made of `-`
/// and `+`; the rule, between two `|`, of `=` and `+`.
pub proof fn lemma_rest_bordering(rows: Seq<Seq<Seq<char>>>)
    requires
        rows.len() > 0,
    ensures
        ({
            let layout = Format::ReStructuredText.spec_layout();
            let widths = column_widths(rows);
            let border = seq!['+'] + runs('-', '+', widths) + seq!['+'];
            let rule = seq!['|'] + runs('=', '+', widths) + seq!['|'];
            let header = row_line(rows[0], layout, widths);
            let lines = data_lines(rows, layout, widths);
            &&& rendered(rows, Format::ReStructuredText) == join(
                seq![border, header, rule] + each_followed_by(lines, border),
                seq!['\n'],
            )
            &&& forall|j: int| 0 <= j < border.len() ==> #[trigger] border[j] == '-' || border[j]
                == '+'
            &&& rule[0] == '|' && rule.last() == '|'
            &&& forall|j: int| 0 < j < rule.len() - 1 ==> #[trigger] rule[j] == '=' || rule[j]
                == '+'
        }),
{
    let nl = seq!['\n'];
    let layout = Format::ReStructuredText.spec_layout();
    let widths = column_widths(rows);
    let border = seq!['+'] + runs('-', '+', widths) + seq!['+'];
    let rule = seq!['|'] + runs('=', '+', widths) + seq!['|'];
    let header = row_line(rows[0], layout, widths);
    let lines = data_lines(rows, layout, widths);
    let first = seq![border, header, rule];
    assert(border_line('-', '+', widths) =~= border + nl);
    assert(header_line(rows[0], layout, widths) =~= header + nl);
    assert(rule_line(layout, widths) =~= rule + nl);
    assert(first.drop_last() =~= seq![border, header]);
    assert(seq![border, header].drop_last() =~= seq![border]);
    let two = seq![border, header];
    assert(join(seq![border], nl) == border);
    assert(join(two, nl) == join(seq![border], nl) + nl + header);
    assert(join(first, nl) == join(two, nl) + nl + rule);
    lemma_bordered_joined(first, lines, border);
    let all = join(first + each_followed_by(lines, border), nl);
    assert(border_line('-', '+', widths) + header_line(rows[0], layout, widths) + rule_line(
        layout,
        widths,
    ) + bordered(lines, border_line('-', '+', widths)) =~= all + nl);
    assert((all + nl).drop_last() =~= all);
    lemma_runs_chars('-', '+', widths);
    lemma_runs_chars('=', '+', widths);
    let rb = runs('-', '+', widths);
    assert forall|j: int| 0 <= j < border.len() implies #[trigger] border[j] == '-' || border[j]
        == '+' by {
        if 0 < j < border.len() - 1 {
            assert(border[j] == rb[j - 1]);
        }
    }
    let rr = runs('=', '+', widths);
    assert forall|j: int| 0 < j < rule.len() - 1 implies #[trigger] rule[j] == '=' || rule[j]
        == '+' by {
        assert(rule[j] == rr[j - 1]);
    }
}

/// A table of a header alone renders as its header line and rule line; in
/// reStructuredText with one border line above them and the final newline
/// trimmed. Where the dialect pads, each column is as wide as its header
/// field.
pub proof fn lemma_header_only(header: Seq<Seq<char>>, format: Format)
    ensures
        ({
            let rows = seq![header];
            let layout = format.spec_layout();
            let widths = layout_widths(rows, layout);
            &&& rendered(rows, format) == if format == Format::ReStructuredText {
                (border_line('-', '+', widths) + header_line(header, layout, widths) + rule_line(
                    layout,
                    widths,
                )).drop_last()
            } else {
                header_line(header, layout, widths) + rule_line(layout, widths)
            }
            &&& layout is Padded ==> widths.len() == header.len() && forall|i: int|
                0 <= i < header.len() ==> #[trigger] widths[i] == header[i].len()
        }),
{
    let rows = seq![header];
    let layout = format.spec_layout();
    let widths = layout_widths(rows, layout);
    assert(data_lines(rows, layout, widths) =~= Seq::empty());
    let lines = data_lines(rows, layout, widths);
    assert(bordered(lines, border_line('-', '+', widths)) == Seq::<char>::empty());
    assert(join(lines, seq!['\n']) == Seq::<char>::empty());
    if format == Format::ReStructuredText {
        let text = border_line('-', '+', widths) + header_line(header, layout, widths) + rule_line(
            layout,
            widths,
        );
        assert(text + Seq::<char>::empty() =~= text);
        assert(text.last() == '\n');
    } else {
        assert(rendered(rows, format) =~= header_line(header, layout, widths) + rule_line(
            layout,
            widths,
        ));
    }
    assert(rows.drop_last() =~= Seq::<Seq<Seq<char>>>::empty());
    assert forall|i: int| 0 <= i < header.len() implies column_width(rows, i) == header[i].len() by {
        assert(column_width(rows.drop_last(), i) == 0);
    }
}

} // verus!
