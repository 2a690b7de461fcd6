use file_manager_core::matcher::subsequence::fast_check;
use file_manager_core::matcher::{compare, compare_folded, compare_with_limit};

#[test]
fn fast_check_simple() {
    assert!(fast_check(&['b'], &['a', 'b', 'b', 'c']));
    assert!(fast_check(&['a', 'b', 'b'], &['a', 'b', 'b', 'c']));
    assert!(fast_check(&['a', 'c'], &['a', 'b', 'b', 'c']));
    assert!(!fast_check(&['a', 'd'], &['a', 'b', 'b', 'c']));
    assert!(!fast_check(&['a', 'a', 'a'], &['a', 'b', 'b', 'c']));
}

#[test]
fn fast_check_case_sensitive() {
    assert!(!fast_check(&['B'], &['a', 'b', 'b', 'c']));
    assert!(fast_check(&['a', 'b', 'C'], &['a', 'b', 'b', 'C']));
    assert!(!fast_check(&['a', 'b', 'C'], &['a', 'b', 'b', 'c']));
}

#[test]
fn fast_check_unicode() {
    assert!(fast_check(&['a', 'c'], &['a', '💚', '💚', 'c']));
    assert!(fast_check(&['💚'], &['a', '💚', '💚', 'c']));
    assert!(fast_check(&['💚', 'c'], &['a', '💚', '💚', 'c']));
    assert!(!fast_check(&['❤'], &['a', '💚', '💚', 'c']));
}

#[test]
fn compare_simple_edge_cases() {
    assert!(compare("", "").is_none());
    assert!(compare("abc", "").is_none());
    assert!(compare("", "abc").is_none());
    assert!(compare("", "abc").is_none());
    assert!(compare("abcd", "abc").is_none());
}

#[test]
fn compare_simple_contiguous() {
    let better = compare("xy", "xy").unwrap().score();
    let worse = compare("xy", "somex somey").unwrap().score();
    assert!(better > worse, "should score contiguous match higher");
}

#[test]
fn compare_simple_ordering() {
    let search = "commIT";
    let mut results: Vec<_> = [
        compare(search, "nonsense"),    // No Match
        compare(search, "c_o_m_m_I_T"), // All Spaced
        compare(search, "c_ommIT"),     // One Space
        compare(search, "commIT"),      // Exact Match
    ]
    .into_iter()
    .flatten()
    .map(|result| result.score())
    .collect();

    assert_eq!(3, results.len());
    let expected = results.clone();
    results.sort();
    assert_eq!(expected, results);
}

#[test]
fn compare_no_match() {
    assert!(compare("nonsense", "something else").is_none());
    assert!(compare("commit", "comm nonesense").is_none());
    assert!(compare("commit", "comm nonesense t").is_none());
    assert!(compare("commit", "short").is_none());
}

#[test]
fn compare_case_insensitive() {
    assert!(compare("commIT", "COMMit").is_some());
    assert!(compare("COMMit", "com MIT").is_some());
}

#[test]
fn compare_matches() {
    let search = "commit";

    let result = compare(search, "commit").unwrap();
    assert!(result.matches().iter().copied().eq(0..search.len()));

    let result = compare(search, "something commit").unwrap();
    assert_eq!(&[10, 11, 12, 13, 14, 15], result.matches());

    let result = compare(search, "c_om_##_mit").unwrap();
    assert_eq!(&[0, 2, 3, 8, 9, 10], result.matches());
}

#[test]
fn compare_finds_first_match() {
    let search = "commit";

    let result = compare(search, "commit commit").unwrap();
    assert!(result.matches().iter().copied().eq(0..search.len()));

    let result = compare(search, "something commit commit").unwrap();
    assert_eq!(&[10, 11, 12, 13, 14, 15], result.matches());

    let result = compare("xy", "somex somexy").unwrap();
    assert_eq!(&[10, 11], result.matches());
}

#[test]
fn compare_finds_non_contiguous_matches() {
    let result = compare("xy", "somex somey").unwrap();
    assert_eq!(&[4, 10], result.matches());
}

#[test]
fn compare_returned_target_string() {
    let result = compare("commit", "commit commit").unwrap();
    assert_eq!("commit commit", result.target());

    let result = compare("something", "commit SomeThing commit").unwrap();
    assert_eq!("commit SomeThing commit", result.target());

    let result = compare("something", "İ SomeThing İ").unwrap();
    assert_eq!("i\u{0307} something i\u{0307}", result.target());
    assert_eq!(&[3, 4, 5, 6, 7, 8, 9, 10, 11], result.matches());
}

#[test]
fn compare_matches_unicode() {
    let result = compare("💚💚", "some💚 some💚");
    assert!(result.is_some());
    assert_eq!(&[4, 10], result.unwrap().matches());
}

#[test]
fn scores_follow_the_run_bonus() {
    // One run of two characters: 1 + 2.
    assert_eq!(3, compare("xy", "xy").unwrap().score());
    // Two isolated characters: 1 + 1.
    assert_eq!(2, compare("xy", "somex somey").unwrap().score());
    // One run of six: 1 + 2 + 3 + 4 + 5 + 6.
    assert_eq!(21, compare("commit", "commit").unwrap().score());
    // Runs of one and of five: 1 + (1 + 2 + 3 + 4 + 5).
    assert_eq!(16, compare("commIT", "c_ommIT").unwrap().score());
    assert_eq!(6, compare("commIT", "c_o_m_m_I_T").unwrap().score());
    assert_eq!(1, compare("a", "a").unwrap().score());
}

#[test]
fn scores_follow_the_table_row_by_row() {
    // A cell keeps the best score seen so far with its own run; the earlier
    // "a" followed by the block "baa" is not considered.
    let result = compare("abaa", "abbaa").unwrap();
    assert_eq!(6, result.score());
    assert_eq!(&[0, 1, 3, 4], result.matches());
    let result = compare("aaaa", "aabaaa").unwrap();
    assert_eq!(6, result.score());
    assert_eq!(&[0, 1, 3, 4], result.matches());
}

#[test]
fn a_block_scores_the_most() {
    // 1 + 2 + 3 + 4 for four characters in one block, wherever it stands.
    for target in ["abcd", "xxabcd", "abcdxx", "a_b_c_d abcd a_b_c_d", "ABCD"] {
        let result = compare("abcd", target).unwrap();
        assert_eq!(10, result.score());
        for pair in result.matches().windows(2) {
            assert_eq!(pair[0] + 1, pair[1]);
        }
    }
    for target in ["abc_d", "a_bcd", "ab_cd", "a b c d"] {
        assert!(compare("abcd", target).unwrap().score() < 10);
    }
}

#[test]
fn ranking_is_strictly_increasing() {
    let search = "commIT";
    assert!(compare(search, "nonsense").is_none());
    let spaced = compare(search, "c_o_m_m_I_T").unwrap().score();
    let one_gap = compare(search, "c_ommIT").unwrap().score();
    let exact = compare(search, "commIT").unwrap().score();
    assert!(spaced < one_gap);
    assert!(one_gap < exact);
}

#[test]
fn matches_are_increasing_and_inside_the_target() {
    let cases = [
        ("commit", "something commit commit"),
        ("xy", "somex somexy"),
        ("something", "İ SomeThing İ"),
        ("aaa", "aXaaXaaa"),
        ("ab", "abab"),
    ];
    for (search, target) in cases {
        let result = compare(search, target).unwrap();
        let shown: Vec<char> = result.target().chars().collect();
        let query: Vec<char> = search.chars().flat_map(|c| c.to_lowercase()).collect();
        let folded: Vec<char> = target.chars().flat_map(|c| c.to_lowercase()).collect();
        assert!(result.score() > 0);
        assert_eq!(query.len(), result.matches().len());
        for pair in result.matches().windows(2) {
            assert!(pair[0] < pair[1]);
        }
        for (k, position) in result.matches().iter().enumerate() {
            assert!(*position < shown.len());
            assert_eq!(query[k], folded[*position]);
        }
    }
}

#[test]
fn score_is_the_relevance_of_the_reported_positions() {
    let cases = [
        ("commit", "c_om_##_mit"),
        ("commit", "something commit commit"),
        ("xy", "somex somey"),
        ("aaa", "aXaaXaaa"),
        ("abc", "a_ab_abc_bc"),
    ];
    for (search, target) in cases {
        let result = compare(search, target).unwrap();
        let positions = result.matches();
        let mut total: u32 = 0;
        let mut run: u32 = 0;
        for k in 0..positions.len() {
            run = if k > 0 && positions[k - 1] + 1 == positions[k] { run + 1 } else { 0 };
            total += 1 + run;
        }
        assert_eq!(total, result.score());
    }
}

#[test]
fn subsequence_decides_whether_there_is_a_match() {
    assert!(compare("ace", "abcde").is_some());
    assert!(compare("aec", "abcde").is_none());
    assert!(compare("ACE", "abcde").is_some());
    assert!(compare("abcdef", "abcde").is_none());
}

#[test]
fn comparing_twice_gives_the_same_result() {
    let first = compare("commit", "c_om_##_mit").unwrap();
    let second = compare("commit", "c_om_##_mit").unwrap();
    assert_eq!(first.score(), second.score());
    assert_eq!(first.target(), second.target());
    assert_eq!(first.matches(), second.matches());
}

#[test]
fn strings_over_the_limit_do_not_match() {
    let long: String = std::iter::repeat('a').take(1001).collect();
    let at_limit: String = std::iter::repeat('a').take(1000).collect();
    assert!(compare("a", &long).is_none());
    assert!(compare(&long, &long).is_none());
    let result = compare("a", &at_limit).unwrap();
    assert_eq!(1, result.score());
    assert_eq!(&[0], result.matches());
    let full = compare(&at_limit, &at_limit).unwrap();
    assert_eq!(500500, full.score());
    assert_eq!(1000, full.matches().len());
}

#[test]
fn the_limit_is_a_parameter() {
    assert!(compare_with_limit("ab", "a_b", 3).is_some());
    assert!(compare_with_limit("ab", "a__b", 3).is_none());
    assert!(compare_with_limit("ab", "ab", 1).is_none());
    assert!(compare_with_limit("a", "a", 0).is_none());
    let long: String = std::iter::repeat('a').take(1500).collect();
    let result = compare_with_limit("aa", &long, 2000).unwrap();
    assert_eq!(3, result.score());
    assert_eq!(&[0, 1], result.matches());
}

#[test]
fn folded_strings_are_compared_exactly() {
    let query = ['x', 'y'];
    let target = ['s', 'o', 'm', 'e', 'x', ' ', 's', 'o', 'm', 'e', 'x', 'y'];
    let result = compare_folded(&query, &target, "SomeX SomeXY", 1000).unwrap();
    assert_eq!(3, result.score());
    assert_eq!("SomeX SomeXY", result.target());
    assert_eq!(&[10, 11], result.matches());

    // A different number of codepoints: the folded text is shown.
    let result = compare_folded(&query, &target, "other", 1000).unwrap();
    assert_eq!("somex somexy", result.target());

    // No folding happens here: the capital letter does not match.
    assert!(compare_folded(&['X'], &target, "somex somexy", 1000).is_none());
    assert!(compare_folded(&[], &target, "somex somexy", 1000).is_none());
    assert!(compare_folded(&query, &[], "", 1000).is_none());
}
