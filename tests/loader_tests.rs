use rfortune::loader::{FortuneFile, ParseError};

#[test]
fn test_loader_with_title() {
    let data = "# Murphy's Law\n%\nIf something can go wrong, it will.\n%\nLeft to themselves, things tend to go from bad to worse.";
    let fortune_file = FortuneFile::parse(data).expect("Failed to parse file");

    assert_eq!(fortune_file.title.unwrap(), "Murphy's Law");
    assert_eq!(fortune_file.quotes.len(), 2);
    assert!(fortune_file.quotes.iter().any(|q| q.contains("go wrong")));
}

#[test]
fn test_loader_without_title() {
    let data = "%\nQuote one.\n%\nQuote two.";
    let fortune_file = FortuneFile::parse(data).expect("Failed to parse file");

    assert!(fortune_file.title.is_none());
    assert_eq!(fortune_file.quotes.len(), 2);
}

#[test]
fn test_loader_empty_file() {
    let data = "";
    let result = FortuneFile::parse(data);

    assert!(result.is_err());
    assert_eq!(result.unwrap_err().message(), "No quotes found in the file.");
}

#[test]
fn murphy_quotes_are_exact() {
    let data = "# Murphy's Law\n%\nIf something can go wrong, it will.\n%\nLeft to themselves, things tend to go from bad to worse.";
    let f = FortuneFile::parse(data).unwrap();
    assert_eq!(f.quotes[0], "If something can go wrong, it will.");
    assert_eq!(f.quotes[1], "Left to themselves, things tend to go from bad to worse.");
}

#[test]
fn blocks_are_trimmed_and_kept_in_order() {
    let data = "  first line\n  second line  \n%\n\n\tthird\n\n%\nfourth";
    let f = FortuneFile::parse(data).unwrap();
    assert!(f.title.is_none());
    assert_eq!(f.quotes, vec!["first line\n  second line", "third", "fourth"]);
}

#[test]
fn only_separators_is_empty() {
    assert_eq!(FortuneFile::parse("%\n%\n  %  \n").unwrap_err(), ParseError::Empty);
    assert_eq!(FortuneFile::parse("\n\n   \n").unwrap_err(), ParseError::Empty);
}

#[test]
fn title_alone_is_empty() {
    assert_eq!(FortuneFile::parse("# Only a title\n%\n").unwrap_err(), ParseError::Empty);
}

#[test]
fn blank_first_line_means_no_title() {
    let f = FortuneFile::parse("\n  \n ## Deep  Title ##  \nQuote\n").unwrap();
    assert!(f.title.is_none());
    assert_eq!(f.quotes, vec!["## Deep  Title ##  \nQuote"]);
}

#[test]
fn many_markers_on_first_line() {
    let f = FortuneFile::parse(" ## Deep  Title ##  \nQuote\n").unwrap();
    assert_eq!(f.title.as_deref(), Some("Deep  Title ##"));
    assert_eq!(f.quotes, vec!["Quote"]);
}

#[test]
fn leading_separator_changes_nothing() {
    let with = FortuneFile::parse("%\n\n# x\n%\nq").unwrap();
    let without = FortuneFile::parse("\n# x\n%\nq").unwrap();
    assert!(with.title.is_none());
    assert!(without.title.is_none());
    assert_eq!(with.quotes, vec!["# x", "q"]);
    assert_eq!(without.quotes, with.quotes);
}

#[test]
fn hash_line_later_is_quote_text() {
    let f = FortuneFile::parse("Quote\n# not a title\n").unwrap();
    assert!(f.title.is_none());
    assert_eq!(f.quotes, vec!["Quote\n# not a title"]);
}

#[test]
fn crlf_lines_lose_their_carriage_return() {
    let f = FortuneFile::parse("a\r\nb\r\n%\r\nc").unwrap();
    assert_eq!(f.quotes, vec!["a\nb", "c"]);
}

#[test]
fn unicode_white_space_is_trimmed() {
    let f = FortuneFile::parse("\u{3000}quote\u{a0}\n").unwrap();
    assert_eq!(f.quotes, vec!["quote"]);
}

#[test]
fn io_error_keeps_its_message() {
    let e = ParseError::Io("Failed to open file: gone".to_string());
    assert_eq!(e.message(), "Failed to open file: gone");
}

#[test]
fn joined_blocks_parse_to_each_block_trimmed() {
    let blocks = ["  one\ntwo ", "three", "\nfour\n\n"];
    let data = blocks.join("\n%\n");
    let f = FortuneFile::parse(&data).unwrap();
    assert!(f.title.is_none());
    let expected: Vec<String> = blocks.iter().map(|b| b.trim().to_string()).collect();
    assert_eq!(f.quotes, expected);
}

#[test]
fn title_line_is_not_quote_text() {
    let f = FortuneFile::parse("  #  Heading  \nbody one\n%\nbody two\n").unwrap();
    assert_eq!(f.title.as_deref(), Some("Heading"));
    assert_eq!(f.quotes, vec!["body one", "body two"]);
}
