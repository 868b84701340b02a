//! The four markup dialects and the layout profile of each.
use vstd::prelude::*;

verus! {

/// A target markup dialect.
#[derive(Clone, Copy, Debug, PartialEq, Eq, Structural)]
pub enum Format {
    Markdown,
    Org,
    Confluence,
    ReStructuredText,
}

/// How a dialect lays a table out. Every dialect separates the fields of a
/// line with `|`.
#[derive(Clone, Copy, Debug)]
pub enum Layout {
    /// Cells are written as they are; the header line is wrapped in and
    /// joined by `||`; no rule line.
    Unpadded,
    /// Cells are padded to their column's width; the header line is wrapped
    /// in and joined by `|`; a rule of `rule` runs under the header, its
    /// columns joined by `intersection`. With a `border` character, a border
    /// line of it stands above the header and under every data row.
    Padded { rule: char, intersection: char, border: Option<char> },
}

/// The dialect a name selects: the full name or one of its short forms.
/// Names are case-sensitive.
pub open spec fn format_named(name: Seq<char>) -> Option<Format> {
    if name == "markdown"@ || name == "md"@ || name == "m"@ {
        Some(Format::Markdown)
    } else if name == "org"@ || name == "orgmode"@ || name == "o"@ {
        Some(Format::Org)
    } else if name == "confluence"@ || name == "c"@ {
        Some(Format::Confluence)
    } else if name == "restructured-text"@ || name == "rst"@ || name == "r"@ {
        Some(Format::ReStructuredText)
    } else {
        None
    }
}

/// Whether two texts hold the same characters.
fn same_text(a: &str, b: &str) -> (r: bool)
    ensures
        r == (a@ == b@),
{
    let n = a.unicode_len();
    if n != b.unicode_len() {
        return false;
    }
    for i in 0..n
        invariant
            n == a@.len(),
            n == b@.len(),
            forall|j: int| 0 <= j < i ==> a@[j] == b@[j],
    {
        if a.get_char(i) != b.get_char(i) {
            return false;
        }
    }
    assert(a@ =~= b@);
    true
}

impl Format {
    /// The dialect that `name` selects, or `None` for a name that selects
    /// none.
    pub fn from_name(name: &str) -> (r: Option<Format>)
        ensures
            r == format_named(name@),
    {
        if same_text(name, "markdown") || same_text(name, "md") || same_text(name, "m") {
            Some(Format::Markdown)
        } else if same_text(name, "org") || same_text(name, "orgmode") || same_text(name, "o") {
            Some(Format::Org)
        } else if same_text(name, "confluence") || same_text(name, "c") {
            Some(Format::Confluence)
        } else if same_text(name, "restructured-text") || same_text(name, "rst") || same_text(
            name,
            "r",
        ) {
            Some(Format::ReStructuredText)
        } else {
            None
        }
    }

    /// The layout profile of the dialect.
    pub open spec fn spec_layout(self) -> Layout {
        match self {
            Format::Confluence => Layout::Unpadded,
            Format::Markdown => Layout::Padded { rule: '-', intersection: '|', border: None },
            Format::Org => Layout::Padded { rule: '-', intersection: '+', border: None },
            Format::ReStructuredText => Layout::Padded {
                rule: '=',
                intersection: '+',
                border: Some('-'),
            },
        }
    }

    /// The layout profile of the dialect.
    pub fn layout(&self) -> (l: Layout)
        ensures
            l == self.spec_layout(),
    {
        match self {
            Format::Confluence => Layout::Unpadded,
            Format::Markdown => Layout::Padded { rule: '-', intersection: '|', border: None },
            Format::Org => Layout::Padded { rule: '-', intersection: '+', border: None },
            Format::ReStructuredText => Layout::Padded {
                rule: '=',
                intersection: '+',
                border: Some('-'),
            },
        }
    }
}

} // verus!
