use sort_by_search_score::calculate_jaccard_index;
use sort_by_search_score::calculate_levenshtein_distance;
use sort_by_search_score::levenshtein::edit_dist_chars;

fn jaccard_value(search_term: &String, source: &String) -> f32 {
    let (intersection, union_size) = calculate_jaccard_index(search_term, source);
    if union_size == 0 {
        0f32
    } else {
        intersection as f32 / union_size as f32
    }
}

#[test]
fn it_correctly_calculates_jaccard_index_of_given_strings() {
    let test_cases: Vec<(String, String, f32)> = vec![
        (
            String::from("berlin"),
            String::from("berlino"),
            0.85714287f32,
        ),
        (String::from("berlin"), String::from("berlin"), 1f32),
        (String::from("berlin"), String::from("berl"), 0.6666667f32),
        (String::from("berlin"), String::from("ber"), 0.5f32),
        (String::from("berlin"), String::from("be"), 0.33333333f32),
        (String::from("berlin"), String::from("b"), 0.16666667f32),
        (
            String::from("berlin"),
            String::from("berlins"),
            0.85714287f32,
        ),
        (String::from("hello"), String::from("hello"), 1f32),
        (String::from("hello"), String::from("helo"), 1f32),
        (String::from("hello"), String::from("world"), 0.2857143f32),
        (String::from("pumpkin"), String::from("world"), 0f32),
        (
            String::from("pumpkin"),
            String::from("pumpin"),
            0.8333333f32,
        ),
        (String::from("pumpkin"), String::from("pumpkin"), 1f32),
    ];

    for (search_term, source, expected) in test_cases.iter() {
        let score = jaccard_value(search_term, source);
        assert_eq!(score, *expected);
    }
}

#[test]
fn it_correctly_calculates_levenshtein_distance_of_given_strings() {
    let test_cases: Vec<(String, String, usize)> = vec![
        (String::from("berlin"), String::from("berlino"), 1),
        (String::from("berlin"), String::from("berlin"), 0),
        (String::from("berlin"), String::from("berl"), 2),
        (String::from("berlin"), String::from("ber"), 3),
        (String::from("berlin"), String::from("be"), 4),
        (String::from("berlin"), String::from("b"), 5),
        (String::from("berlin"), String::from("berlins"), 1),
        (String::from("hello"), String::from("hello"), 0),
        (String::from("hello"), String::from("helo"), 1),
        (String::from("hello"), String::from("world"), 4),
        (String::from("pumpkin"), String::from("world"), 7),
        (String::from("pumpkin"), String::from("pumpin"), 1),
        (String::from("pumpkin"), String::from("pumpkin"), 0),
    ];

    for (search_term, source, expected) in test_cases.iter() {
        let score = calculate_levenshtein_distance(search_term, source);
        assert_eq!(score, *expected);
    }
}

#[test]
fn jaccard_is_symmetric_on_sample_pairs() {
    let pairs = vec![
        (String::from("berlin"), String::from("potsdam")),
        (String::from("hello"), String::from("world")),
        (String::from("pumpkin"), String::from("pumpin")),
    ];
    for (a, b) in pairs.iter() {
        assert_eq!(jaccard_value(a, b), jaccard_value(b, a));
        assert_eq!(calculate_jaccard_index(a, b), calculate_jaccard_index(b, a));
    }
}

#[test]
fn jaccard_of_a_string_with_itself_is_one() {
    assert_eq!(jaccard_value(&String::from("berlin"), &String::from("berlin")), 1f32);
    assert_eq!(jaccard_value(&String::from("aaaa"), &String::from("aaaa")), 1f32);
}

#[test]
fn jaccard_with_an_empty_string_is_zero() {
    assert_eq!(jaccard_value(&String::from(""), &String::from("anything")), 0f32);
    assert_eq!(jaccard_value(&String::from("anything"), &String::from("")), 0f32);
    assert_eq!(jaccard_value(&String::from(""), &String::from("")), 0f32);
}

#[test]
fn levenshtein_distance_of_equal_and_empty_strings() {
    assert_eq!(
        calculate_levenshtein_distance(&String::from("berlin"), &String::from("berlin")),
        0,
    );
    assert_eq!(
        calculate_levenshtein_distance(&String::from(""), &String::from("berlin")),
        6,
    );
    assert_eq!(
        calculate_levenshtein_distance(&String::from("berlin"), &String::from("")),
        6,
    );
}

#[test]
fn levenshtein_distance_is_symmetric_on_sample_pairs() {
    let pairs = vec![
        (String::from("berlin"), String::from("berlino")),
        (String::from("hello"), String::from("world")),
        (String::from("pumpkin"), String::from("pumpin")),
    ];
    for (a, b) in pairs.iter() {
        assert_eq!(
            calculate_levenshtein_distance(a, b),
            calculate_levenshtein_distance(b, a),
        );
    }
}

#[test]
fn edit_dist_chars_matches_known_distances() {
    assert_eq!(
        edit_dist_chars(&vec!['h', 'e', 'l', 'l', 'o'], &vec!['w', 'o', 'r', 'l', 'd']),
        4,
    );
    assert_eq!(
        edit_dist_chars(&vec!['b', 'e', 'r', 'l', 'i', 'n'], &vec![]),
        6,
    );
    assert_eq!(edit_dist_chars(&vec!['a', 'b'], &vec!['a', 'c']), 1);
}

#[test]
fn levenshtein_distance_lowercases_both_inputs() {
    assert_eq!(
        calculate_levenshtein_distance(&String::from("BERLIN"), &String::from("berlin")),
        0,
    );
    assert_eq!(
        calculate_levenshtein_distance(&String::from("Hello"), &String::from("hELLO")),
        0,
    );
    assert_eq!(
        calculate_levenshtein_distance(&String::from("BERLIN"), &String::from("berlino")),
        1,
    );
}
