use munchrs::summarizer::{extract_summary_from_docstring, parse_numbered_response};

#[test]
fn test_extract_summary_from_docstring() {
    assert_eq!(
        extract_summary_from_docstring("Check if a file is binary. Uses multiple heuristics."),
        "Check if a file is binary."
    );
    assert_eq!(extract_summary_from_docstring("Simple one-liner"), "Simple one-liner");
    assert_eq!(extract_summary_from_docstring(""), "");
}

#[test]
fn test_parse_numbered_response() {
    let text = "1. Does thing A.\n2. Does thing B.\n3. Does thing C.";
    let result = parse_numbered_response(text, 3);
    assert_eq!(result, vec!["Does thing A.", "Does thing B.", "Does thing C."]);
}
