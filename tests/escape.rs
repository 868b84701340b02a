use ligotab::escape::{escape_brackets, escape_field, escape_pipe};

#[test]
fn test_escape_pipe() {
    let original = "There | are | pipes | here";
    let got = escape_pipe(original);
    let want = "There \\| are \\| pipes \\| here";

    assert_eq!(got.as_str(), want);
}

#[test]
fn test_escape_brackets() {
    let original = "There { are } brackets here";
    let got = escape_brackets(original);
    let want = "There \\{ are \\} brackets here";

    assert_eq!(got.as_str(), want);
}

#[test]
fn plain_field_is_unchanged() {
    assert_eq!(escape_field("plain text, 42 (ok) [x] \\ <b>"), "plain text, 42 (ok) [x] \\ <b>");
    assert_eq!(escape_field(""), "");
}

#[test]
fn field_escaping_covers_pipes_and_braces() {
    assert_eq!(escape_field("a|b{c}d"), "a\\|b\\{c\\}d");
}

#[test]
fn pipe_escaping_leaves_braces() {
    assert_eq!(escape_pipe("{|}"), "{\\|}");
}

#[test]
fn bracket_escaping_leaves_pipes() {
    assert_eq!(escape_brackets("{|}"), "\\{|\\}");
}

#[test]
fn escaping_keeps_newlines_and_other_characters() {
    assert_eq!(escape_field("x\ny\t|é"), "x\ny\t\\|é");
}
