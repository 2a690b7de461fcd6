use file_manager_core::matcher::compare;
use file_manager_core::ranking::{rank, Candidate};

fn candidates(names: &[&str]) -> Vec<Candidate> {
    names
        .iter()
        .enumerate()
        .map(|(id, name)| Candidate { id, name: name.to_string() })
        .collect()
}

#[test]
fn hits_are_ranked_by_descending_score() {
    let names = candidates(&["nonsense", "c_o_m_m_I_T", "c_ommIT", "commIT"]);
    let hits = rank("commIT", &names, 10);
    let ids: Vec<usize> = hits.iter().map(|hit| hit.id).collect();
    let scores: Vec<u32> = hits.iter().map(|hit| hit.result.score()).collect();
    assert_eq!(vec![3, 2, 1], ids);
    assert_eq!(vec![21, 16, 6], scores);
}

#[test]
fn equal_scores_keep_their_order() {
    let names = candidates(&["x_y", "xy", "y_x", "xay", "xy!", "x-y"]);
    let hits = rank("xy", &names, 10);
    let ids: Vec<usize> = hits.iter().map(|hit| hit.id).collect();
    // "xy" and "xy!" score 3; the others that match score 2.
    assert_eq!(vec![1, 4, 0, 3, 5], ids);
    for pair in hits.windows(2) {
        assert!(pair[0].result.score() >= pair[1].result.score());
    }
}

#[test]
fn only_the_first_matches_up_to_the_limit_are_ranked() {
    let names = candidates(&["a_b", "zzz", "ab", "a__b", "ab_"]);
    let hits = rank("ab", &names, 2);
    let ids: Vec<usize> = hits.iter().map(|hit| hit.id).collect();
    assert_eq!(vec![2, 0], ids);
    assert!(rank("ab", &names, 0).is_empty());
    assert_eq!(4, rank("ab", &names, 10).len());
}

#[test]
fn hits_carry_the_result_of_the_comparison() {
    let names = candidates(&["something commit"]);
    let hits = rank("commit", &names, 10);
    let expected = compare("commit", "something commit").unwrap();
    assert_eq!(1, hits.len());
    assert_eq!(expected.score(), hits[0].result.score());
    assert_eq!(expected.matches(), hits[0].result.matches());
    assert_eq!(expected.target(), hits[0].result.target());
}

#[test]
fn nothing_matches_an_empty_search() {
    let names = candidates(&["a", "b"]);
    assert!(rank("", &names, 10).is_empty());
    assert!(rank("a", &Vec::new(), 10).is_empty());
}

#[test]
fn highlights_mark_the_matched_positions() {
    let result = compare("xy", "somex somey").unwrap();
    let mask = result.highlights();
    let marked: Vec<usize> = (0..mask.len()).filter(|i| mask[*i]).collect();
    assert_eq!(11, mask.len());
    assert_eq!(vec![4, 10], marked);

    let result = compare("something", "İ SomeThing İ").unwrap();
    let mask = result.highlights();
    let marked: Vec<usize> = (0..mask.len()).filter(|i| mask[*i]).collect();
    assert_eq!(15, mask.len());
    assert_eq!(vec![3, 4, 5, 6, 7, 8, 9, 10, 11], marked);
}
