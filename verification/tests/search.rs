//! In-document search.

use chronogit::app::search::{match_starts, matching_indices, SearchDirection, SearchState};
use chronogit::domain::source::SourcePosition;

#[test]
fn matching_is_case_insensitive_unless_the_query_contains_uppercase() {
    let values = ["alpha", "ALPHA", "Alpha"];
    assert_eq!(
        matching_indices(&values, "alpha")
            .into_iter()
            .map(|found| found.line)
            .collect::<Vec<_>>(),
        vec![0, 1, 2]
    );
    assert_eq!(
        matching_indices(&values, "Alpha")
            .into_iter()
            .map(|found| found.line)
            .collect::<Vec<_>>(),
        vec![2]
    );
}

#[test]
fn forward_and_backward_search_wrap_and_repeat() {
    let values = ["zero", "match one", "two", "match three"];
    let mut search = SearchState::new();
    search.begin(SearchDirection::Forward);
    for character in "match".chars() {
        search.push(character);
    }
    assert_eq!(search.confirm(&values, 2), Some(3));
    assert_eq!(search.select_next(SearchDirection::Forward), Some(1));
    assert_eq!(search.select_next(SearchDirection::Backward), Some(3));
}

#[test]
fn an_empty_prompt_repeats_the_previous_query() {
    let values = ["first hit", "second hit"];
    let mut search = SearchState::new();
    search.begin(SearchDirection::Forward);
    for character in "hit".chars() {
        search.push(character);
    }
    assert_eq!(search.confirm(&values, 0), Some(0));
    search.begin(SearchDirection::Backward);
    assert_eq!(search.confirm(&values, 1), Some(1));
    assert_eq!(search.query(), "hit");
}

#[test]
fn positional_search_starts_after_or_before_the_cursor() {
    let values = ["cat cat"];
    let mut search = SearchState::new();
    search.begin(SearchDirection::Forward);
    for character in "cat".chars() {
        search.push(character);
    }
    assert_eq!(
        search.confirm_position(&values, SourcePosition::new(0, 0)),
        Some(SourcePosition::new(0, 4))
    );

    search.begin(SearchDirection::Backward);
    assert_eq!(
        search.confirm_position(&values, SourcePosition::new(0, 4)),
        Some(SourcePosition::new(0, 0))
    );
}

#[test]
fn oversized_search_counts_wrap_without_iterating_the_count() {
    let mut search = SearchState::new();
    assert_eq!(
        search.search_word(
            &["cat cat cat"],
            "cat",
            true,
            SourcePosition::new(0, 0),
            SearchDirection::Forward,
            usize::MAX
        ),
        Some(SourcePosition::new(0, (usize::MAX % 3) * 4))
    );
    assert_eq!(
        search.repeat_position(
            &["cat cat cat"],
            SourcePosition::new(0, 0),
            SearchDirection::Backward,
            usize::MAX
        ),
        Some(SourcePosition::new(
            0,
            ((3 - usize::MAX % 3) % 3) * 4
        ))
    );
}

#[test]
fn smart_case_matches_keep_unicode_offsets_and_overlapping_hits() {
    assert_eq!(
        match_starts("界İ cat CAT", "cat", false),
        vec![(6, 9), (10, 13)]
    );
    assert_eq!(match_starts("İi", "i\u{307}", false), vec![(0, 2)]);
    assert_eq!(
        match_starts("aaa", "aa", false),
        vec![(0, 2), (1, 3)]
    );
    assert_eq!(match_starts("AAA", "AA", true), vec![(0, 2), (1, 3)]);
    let line = "a".repeat(100_000);
    let query = format!("{}b", "a".repeat(1_000));
    assert!(match_starts(&line, &query, false).is_empty());
}

#[test]
fn word_search_distinguishes_same_line_matches_and_word_boundaries() {
    let values = ["cat concatenate cat", "CAT"];
    let mut search = SearchState::new();
    assert_eq!(
        search.search_word(
            &values,
            "cat",
            true,
            SourcePosition::new(0, 0),
            SearchDirection::Forward,
            1,
        ),
        Some(SourcePosition::new(0, 16))
    );
    assert_eq!(
        search.select_next_position(SearchDirection::Forward, 1),
        Some(SourcePosition::new(1, 0))
    );

    assert_eq!(
        search.search_word(
            &values,
            "cat",
            false,
            SourcePosition::new(0, 0),
            SearchDirection::Forward,
            1,
        ),
        Some(SourcePosition::new(0, 7))
    );
}

#[test]
fn cancelling_an_edited_prompt_keeps_the_confirmed_search() {
    let values = ["one match", "two", "three match"];
    let mut search = SearchState::new();
    search.begin(SearchDirection::Forward);
    for character in "match".chars() {
        search.push(character);
    }
    assert_eq!(search.confirm(&values, 1), Some(2));
    let (count, ordinal, position) =
        (search.match_count(), search.current_ordinal(), search.current_position());
    search.begin(SearchDirection::Backward);
    search.push('x');
    search.push('y');
    search.pop();
    search.cancel_input();
    assert!(!search.is_input_active());
    assert!(search.prompt_text().is_none());
    assert_eq!(search.query(), "match");
    assert_eq!(search.direction(), SearchDirection::Forward);
    assert_eq!(search.match_count(), count);
    assert_eq!(search.current_ordinal(), ordinal);
    assert_eq!(search.current_position(), position);
}
