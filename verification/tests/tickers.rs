use tradier_events::split_tickers;

fn by_std(line: &str) -> Vec<String> {
    line.split(" ").map(|s| s.to_string()).collect()
}

#[test]
fn splits_typed_line_keeping_line_break() {
    let line = "SPY AAPL TSLA\n";
    assert_eq!(split_tickers(line), vec!["SPY", "AAPL", "TSLA\n"]);
}

#[test]
fn empty_line_gives_one_empty_piece() {
    assert_eq!(split_tickers(""), vec![""]);
}

#[test]
fn adjacent_spaces_give_empty_pieces() {
    assert_eq!(split_tickers("a  b "), vec!["a", "", "b", ""]);
    assert_eq!(split_tickers(" "), vec!["", ""]);
}

#[test]
fn split_agrees_with_str_split() {
    for line in ["SPY", "SPY QQQ", " x y ", "caf\u{e9} \u{263a}", "a\tb c", "   "] {
        assert_eq!(split_tickers(line), by_std(line));
    }
}

#[test]
fn join_of_split_is_the_line() {
    for line in ["SPY QQQ\n", "", "  a  ", "\u{e9} \u{e9}"] {
        let pieces = split_tickers(line);
        assert_eq!(pieces.join(" "), line);
        assert!(pieces.iter().all(|p| !p.contains(' ')));
        assert_eq!(pieces.len(), line.matches(' ').count() + 1);
    }
}
