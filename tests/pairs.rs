use mandel::{find_char, join_halves, parse_pair, split_pair};

#[test]
fn find_char_gives_first_occurrence() {
    assert_eq!(find_char("1,2,3", ','), Some(1));
    assert_eq!(find_char("123", ','), None);
    assert_eq!(find_char("", ','), None);
    assert_eq!(find_char("é,x", ','), Some(1));
}

#[test]
fn split_pair_keeps_later_separators_on_the_right() {
    assert_eq!(split_pair("10,20,30", ','), Some(("10", "20,30")));
    assert_eq!(split_pair(",", ','), Some(("", "")));
    assert_eq!(split_pair("1000x750", 'x'), Some(("1000", "750")));
    assert_eq!(split_pair("1000", 'x'), None);
}

#[test]
fn parse_pair_rejects_second_separator() {
    assert_eq!(parse_pair::<i32>("10,20,30", ','), None);
    assert_eq!(parse_pair::<usize>("1000x750", 'x'), Some((1000, 750)));
    assert_eq!(parse_pair::<f64>("-1.20,0.35", ','), Some((-1.20, 0.35)));
    assert_eq!(parse_pair::<usize>("-1x2", 'x'), None);
}

#[test]
fn join_halves_needs_both() {
    assert_eq!(join_halves(Some(1), Some(2)), Some((1, 2)));
    assert_eq!(join_halves(Some(1), None::<i32>), None);
    assert_eq!(join_halves(None::<i32>, Some(2)), None);
}
