use ligotab::format::Format;

#[test]
fn every_name_selects_its_dialect() {
    for name in ["markdown", "md", "m"] {
        assert_eq!(Format::from_name(name), Some(Format::Markdown));
    }
    for name in ["org", "orgmode", "o"] {
        assert_eq!(Format::from_name(name), Some(Format::Org));
    }
    for name in ["confluence", "c"] {
        assert_eq!(Format::from_name(name), Some(Format::Confluence));
    }
    for name in ["restructured-text", "rst", "r"] {
        assert_eq!(Format::from_name(name), Some(Format::ReStructuredText));
    }
}

#[test]
fn unknown_names_select_nothing() {
    assert_eq!(Format::from_name("html"), None);
    assert_eq!(Format::from_name(""), None);
    assert_eq!(Format::from_name("Markdown"), None);
    assert_eq!(Format::from_name("mdx"), None);
    assert_eq!(Format::from_name("rs"), None);
}
