use rfortune::loader::{FortuneFile, ParseError};
use rfortune::store::merge_quote;
use rfortune::utils::{
    candidate_count, canonical_key, choose_quote, declines_initialization, is_refusal, last_served,
    pick_index, position_of, random_nonrepeating, random_quote, Candidates, ServeError,
};
use rfortune::fortune::get_random_fortune;

fn quotes(v: &[&str]) -> Vec<String> {
    v.iter().map(|s| s.to_string()).collect()
}

#[test]
fn test_random_quote_selection() {
    let quotes = vec![
        String::from("Quote A"),
        String::from("Quote B"),
        String::from("Quote C"),
    ];

    let result = random_nonrepeating(&quotes, None);
    assert!(quotes.contains(&result.to_string()));
}

#[test]
fn nonrepeating_never_returns_last() {
    let qs = quotes(&["Quote 1", "Quote 2", "Quote 3"]);
    for _ in 0..200 {
        let r = random_nonrepeating(&qs, Some("Quote 1".to_string()));
        assert_ne!(r, "Quote 1");
    }
}

#[test]
fn single_quote_falls_back() {
    let qs = quotes(&["Only"]);
    for _ in 0..20 {
        assert_eq!(random_nonrepeating(&qs, Some("Only".to_string())), "Only");
    }
}

#[test]
fn pick_index_skips_the_last_quote() {
    let qs = quotes(&["a", "b", "a", "c"]);
    let last = Some("a".to_string());
    assert_eq!(candidate_count(&qs, &last), 2);
    assert_eq!(pick_index(&qs, &last, 0), 1);
    assert_eq!(pick_index(&qs, &last, 1), 3);
    assert_eq!(candidate_count(&qs, &None), 4);
    assert_eq!(pick_index(&qs, &None, 2), 2);
    let all_same = quotes(&["x", "x"]);
    let lx = Some("x".to_string());
    assert_eq!(candidate_count(&all_same, &lx), 2);
    assert_eq!(pick_index(&all_same, &lx, 1), 1);
}

#[test]
fn random_draws_come_from_the_list() {
    let qs = quotes(&["p", "q"]);
    for _ in 0..50 {
        let r = random_quote(&qs);
        assert!(r == "p" || r == "q");
    }
    assert_eq!(get_random_fortune(&[]), None);
    let one = quotes(&["solo"]);
    assert_eq!(get_random_fortune(&one), Some("solo".to_string()));
}

#[test]
fn gather_tracks_origins() {
    let loaded = vec![
        FortuneFile::parse("a\n%\nb"),
        Err(ParseError::Empty),
        FortuneFile::parse("c"),
    ];
    let c = Candidates::gather(&loaded);
    assert_eq!(c.quotes, quotes(&["a", "b", "c"]));
    assert_eq!(c.origins, vec![0, 0, 2]);
}

#[test]
fn last_served_takes_first_source_with_entry() {
    let text = merge_quote("", "/two", "from two");
    let text = merge_quote(&text, "/three", "from three");
    let keys = quotes(&["/one", "/two", "/three"]);
    assert_eq!(last_served(&text, &keys), Some("from two".to_string()));
    assert_eq!(last_served(&text, &quotes(&["/none"])), None);
    assert_eq!(last_served("", &keys), None);
}

#[test]
fn position_finds_first_equal() {
    let qs = quotes(&["a", "b", "a"]);
    assert_eq!(position_of(&qs, &"a".to_string()), Some(0));
    assert_eq!(position_of(&qs, &"b".to_string()), Some(1));
    assert_eq!(position_of(&qs, &"z".to_string()), None);
}

#[test]
fn test_no_repeat_on_same_file() {
    let content = "Quote 1\n%\nQuote 2\n%\nQuote 3\n";
    let key = "/tmp/test_no_repeat.fort";
    let store = merge_quote("", key, "Quote 1");
    let loaded = vec![FortuneFile::parse(content)];
    let keys = quotes(&[key]);
    for _ in 0..100 {
        let served = choose_quote(&loaded, &store, &keys).expect("print_random_from_files failed");
        assert_ne!(served.quote, "Quote 1", "The same quote should not repeat from the same file");
        assert_eq!(served.source, 0);
    }
}

#[test]
fn single_quote_source_still_serves() {
    let key = "/tmp/single.fort";
    let store = merge_quote("", key, "Hello world");
    let loaded = vec![FortuneFile::parse("Hello world\n%")];
    let served = choose_quote(&loaded, &store, &quotes(&[key])).unwrap();
    assert_eq!(served.quote, "Hello world");
}

#[test]
fn no_quotes_anywhere_fails() {
    let loaded = vec![FortuneFile::parse(""), Err(ParseError::Io("gone".to_string()))];
    let r = choose_quote(&loaded, "", &quotes(&["/a", "/b"]));
    assert_eq!(r.err(), Some(ServeError::NoQuotes));
}

#[test]
fn served_source_is_first_holder_of_quote() {
    let loaded = vec![FortuneFile::parse("same"), FortuneFile::parse("same")];
    let served = choose_quote(&loaded, "", &quotes(&["/a", "/b"])).unwrap();
    assert_eq!(served.quote, "same");
    assert_eq!(served.source, 0);
}

#[test]
fn canonical_key_falls_back_to_path() {
    assert_eq!(canonical_key(Some("/abs/f.dat".to_string()), "f.dat"), "/abs/f.dat");
    assert_eq!(canonical_key(None, "f.dat"), "f.dat");
}

#[test]
fn initialization_answers() {
    assert!(declines_initialization("  NO \n"));
    assert!(declines_initialization("n"));
    assert!(declines_initialization("N"));
    assert!(!declines_initialization("yes"));
    assert!(!declines_initialization(""));
    assert!(is_refusal("no"));
    assert!(!is_refusal("No"));
}

#[test]
fn test_print_random_output() {
    let loaded = vec![FortuneFile::parse("Hello world\n%")];
    let result = choose_quote(&loaded, "", &quotes(&["/tmp/test_single.fort"]));
    assert!(result.is_ok());
}
