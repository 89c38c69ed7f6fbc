use sort_by_search_score::sort_by_ranking_score;
use sort_by_search_score::calculate_substring_score;
use sort_by_search_score::score::MatchScore;

#[test]
fn it_returns_empty_vector_when_empty_source_is_provided() {
    let search_term = String::from("berlin");
    let source: Vec<String> = vec![];

    let sorted = sort_by_ranking_score(&search_term, source);
    let expected: Vec<String> = vec![];

    assert_eq!(sorted, expected);
}

#[test]
fn it_returns_same_sorting_order_when_source_does_not_contain_provided_search_term() {
    let search_term = String::from("berlin");
    let source: Vec<String> = vec![
        String::from("washington"),
        String::from("london"),
        String::from("chicago"),
        String::from("rio"),
        String::from("moscow"),
        String::from("mumbai"),
        String::from("tokyo"),
    ];

    let sorted = sort_by_ranking_score(&search_term, source);
    let expected: Vec<String> = vec![
        String::from("washington"),
        String::from("london"),
        String::from("chicago"),
        String::from("rio"),
        String::from("moscow"),
        String::from("mumbai"),
        String::from("tokyo"),
    ];

    assert_eq!(sorted, expected);
}

#[test]
fn it_returns_sorted_source_when_the_source_contains_the_search_term() {
    let search_term = String::from("berlin");
    let source = vec![
        String::from("berlino"),
        String::from("mo-berlin"),
        String::from("potsdam"),
        String::from("berlin wannsee"),
        String::from("berlin"),
        String::from("weder"),
        String::from("alt berlin"),
    ];

    let sorted = sort_by_ranking_score(&search_term, source);

    let expected = vec![
        String::from("berlin"),
        String::from("berlino"),
        String::from("berlin wannsee"),
        String::from("mo-berlin"),
        String::from("alt berlin"),
        String::from("potsdam"),
        String::from("weder"),
    ];

    assert_eq!(sorted, expected)
}

#[test]
fn it_keeps_duplicate_candidates() {
    let search_term = String::from("rio");
    let source = vec![
        String::from("ontario"),
        String::from("rio"),
        String::from("ontario"),
        String::from("rio grande"),
    ];

    let sorted = sort_by_ranking_score(&search_term, source);

    let expected = vec![
        String::from("rio"),
        String::from("rio grande"),
        String::from("ontario"),
        String::from("ontario"),
    ];

    assert_eq!(sorted, expected);
}

#[test]
fn it_scores_prefix_containment_and_miss() {
    let search_term = String::from("berlin");

    assert_eq!(
        calculate_substring_score(&search_term, &String::from("berlino")),
        MatchScore::Prefix { source_len: 7 },
    );
    assert_eq!(
        calculate_substring_score(&search_term, &String::from("mo-berlin")),
        MatchScore::Containment { source_len: 9 },
    );
    assert_eq!(
        calculate_substring_score(&search_term, &String::from("potsdam")),
        MatchScore::NoMatch,
    );
    assert_eq!(
        calculate_substring_score(&search_term, &String::from("berlin")),
        MatchScore::Prefix { source_len: 6 },
    );
}
