//! Vim motions over read-only text.

use chronogit::app::action::{VimMotion, VimMotionKind};
use chronogit::app::vim::{apply, Viewport};
use chronogit::domain::source::SourcePosition;

fn motion(kind: VimMotionKind, count: usize) -> VimMotion {
    VimMotion::new(kind).counted(count, count != 1)
}

#[test]
fn word_and_big_word_motions_follow_vim_boundaries() {
    let lines = ["one.two  three", "", "four-five"];
    let mut viewport = Viewport::new(0, 0, 10, 80, 0);
    let mut cursor = SourcePosition::new(0, 0);
    cursor = apply(
        &lines,
        cursor,
        &mut viewport,
        motion(VimMotionKind::WordForward, 1),
    );
    assert_eq!(cursor, SourcePosition::new(0, 3));
    cursor = apply(
        &lines,
        cursor,
        &mut viewport,
        motion(VimMotionKind::WordForward, 2),
    );
    assert_eq!(cursor, SourcePosition::new(0, 9));
    cursor = apply(
        &lines,
        cursor,
        &mut viewport,
        motion(VimMotionKind::BigWordForward, 1),
    );
    assert_eq!(cursor, SourcePosition::new(1, 0));
    cursor = apply(
        &lines,
        cursor,
        &mut viewport,
        motion(VimMotionKind::WordEndForward, 1),
    );
    assert_eq!(cursor, SourcePosition::new(2, 3));
    cursor = apply(
        &lines,
        cursor,
        &mut viewport,
        motion(VimMotionKind::WordEndBackward, 1),
    );
    assert_eq!(cursor, SourcePosition::new(1, 0));
}

#[test]
fn oversized_counts_stop_at_text_boundaries() {
    let lines = ["one 界", "two"];
    for kind in [
        VimMotionKind::Left,
        VimMotionKind::Right,
        VimMotionKind::LeftWrap,
        VimMotionKind::RightWrap,
        VimMotionKind::WordForward,
        VimMotionKind::WordBackward,
        VimMotionKind::WordEndForward,
        VimMotionKind::WordEndBackward,
    ] {
        let mut viewport = Viewport::new(0, 0, 10, 80, 0);
        let cursor = apply(
            &lines,
            SourcePosition::new(0, 0),
            &mut viewport,
            motion(kind, usize::MAX),
        );
        let expected = match kind {
            VimMotionKind::Right => SourcePosition::new(0, 4),
            VimMotionKind::RightWrap
            | VimMotionKind::WordForward
            | VimMotionKind::WordEndForward => SourcePosition::new(1, 2),
            _ => SourcePosition::new(0, 0),
        };
        assert_eq!(cursor, expected, "{kind:?}");
    }
}

#[test]
fn character_search_and_matching_pairs_keep_utf8_boundaries() {
    let lines = ["a界(b(c)d)e"];
    let mut viewport = Viewport::new(0, 0, 4, 20, 0);
    let find = VimMotion::new(VimMotionKind::FindForward)
        .counted(2, true)
        .targeting('c');
    let cursor = apply(&lines, SourcePosition::new(0, 0), &mut viewport, find);
    assert_eq!(cursor, SourcePosition::new(0, 0));
    let cursor = apply(
        &lines,
        SourcePosition::new(0, "a界".len()),
        &mut viewport,
        motion(VimMotionKind::MatchingPair, 1),
    );
    assert_eq!(cursor, SourcePosition::new(0, "a界(b(c)d".len()));

    let cursor = apply(
        &lines,
        SourcePosition::new(0, "a界(b(c)".len()),
        &mut viewport,
        motion(VimMotionKind::MatchingPairBackward, 1),
    );
    assert_eq!(cursor, SourcePosition::new(0, "a界(b".len()));
}

#[test]
fn space_and_backspace_wrap_lines_without_changing_h_and_l() {
    let lines = ["ab", "", "界x"];
    let mut viewport = Viewport::new(0, 0, 4, 20, 0);
    let cursor = apply(
        &lines,
        SourcePosition::new(0, 1),
        &mut viewport,
        motion(VimMotionKind::RightWrap, 2),
    );
    assert_eq!(cursor, SourcePosition::new(2, 0));
    let cursor = apply(
        &lines,
        cursor,
        &mut viewport,
        motion(VimMotionKind::LeftWrap, 2),
    );
    assert_eq!(cursor, SourcePosition::new(0, 1));

    assert_eq!(
        apply(
            &lines,
            SourcePosition::new(0, 1),
            &mut viewport,
            motion(VimMotionKind::Right, 1),
        ),
        SourcePosition::new(0, 1)
    );
    assert_eq!(
        apply(
            &lines,
            SourcePosition::new(2, 0),
            &mut viewport,
            motion(VimMotionKind::Left, 1),
        ),
        SourcePosition::new(2, 0)
    );
}

#[test]
fn percent_matches_comments_and_nested_preprocessor_conditionals() {
    let comments = ["a /* one", "two */ b"];
    let mut viewport = Viewport::new(0, 0, 8, 40, 0);
    let cursor = apply(
        &comments,
        SourcePosition::new(0, 2),
        &mut viewport,
        motion(VimMotionKind::MatchingPair, 1),
    );
    assert_eq!(cursor, SourcePosition::new(1, 5));
    let cursor = apply(
        &comments,
        SourcePosition::new(1, 4),
        &mut viewport,
        motion(VimMotionKind::MatchingPair, 1),
    );
    assert_eq!(cursor, SourcePosition::new(0, 2));

    let directives = ["#if A", "#if B", "#else", "#endif", "#else", "#endif"];
    let cursor = apply(
        &directives,
        SourcePosition::new(0, 0),
        &mut viewport,
        motion(VimMotionKind::MatchingPair, 1),
    );
    assert_eq!(cursor, SourcePosition::new(4, 0));
    let cursor = apply(
        &directives,
        SourcePosition::new(5, 0),
        &mut viewport,
        motion(VimMotionKind::MatchingPair, 1),
    );
    assert_eq!(cursor, SourcePosition::new(0, 0));

    let cursor = apply(
        &directives,
        SourcePosition::new(3, 0),
        &mut viewport,
        motion(VimMotionKind::PreprocessorBackward, 1),
    );
    assert_eq!(cursor, SourcePosition::new(2, 0));
    let cursor = apply(
        &directives,
        SourcePosition::new(1, 0),
        &mut viewport,
        motion(VimMotionKind::PreprocessorForward, 1),
    );
    assert_eq!(cursor, SourcePosition::new(2, 0));
}

#[test]
fn an_explicit_half_page_count_is_a_line_count() {
    let owned = (0..30).map(|line| line.to_string()).collect::<Vec<_>>();
    let lines = owned.iter().map(String::as_str).collect::<Vec<_>>();
    let mut viewport = Viewport::new(0, 0, 10, 80, 0);
    let cursor = apply(
        &lines,
        SourcePosition::new(0, 0),
        &mut viewport,
        VimMotion::new(VimMotionKind::HalfPageDown).counted(2, true),
    );
    assert_eq!(cursor, SourcePosition::new(2, 0));

    let cursor = apply(
        &lines,
        cursor,
        &mut viewport,
        VimMotion::new(VimMotionKind::HalfPageDown),
    );
    assert_eq!(cursor, SourcePosition::new(7, 0));
}

#[test]
fn paragraph_motions_cross_runs_of_empty_lines_like_vim() {
    let lines = ["one", "two", "", "", "three", "four", "", "five"];
    let mut viewport = Viewport::new(0, 0, 8, 40, 0);
    let forward = |line, viewport: &mut Viewport| {
        apply(
            &lines,
            SourcePosition::new(line, 0),
            viewport,
            motion(VimMotionKind::ParagraphForward, 1),
        )
    };
    assert_eq!(forward(0, &mut viewport), SourcePosition::new(2, 0));
    assert_eq!(forward(2, &mut viewport), SourcePosition::new(6, 0));
    let backward = |line, viewport: &mut Viewport| {
        apply(
            &lines,
            SourcePosition::new(line, 0),
            viewport,
            motion(VimMotionKind::ParagraphBackward, 1),
        )
    };
    assert_eq!(backward(4, &mut viewport), SourcePosition::new(3, 0));
    assert_eq!(backward(3, &mut viewport), SourcePosition::new(0, 0));

    let no_trailing_blank = ["one", "two"];
    let cursor = apply(
        &no_trailing_blank,
        SourcePosition::new(0, 0),
        &mut viewport,
        motion(VimMotionKind::ParagraphForward, 1),
    );
    assert_eq!(cursor, SourcePosition::new(1, 2));
}

#[test]
fn page_and_window_motions_use_the_actual_viewport() {
    let owned = (0..40)
        .map(|line| format!("line {line}"))
        .collect::<Vec<_>>();
    let lines = owned.iter().map(String::as_str).collect::<Vec<_>>();
    let mut viewport = Viewport::new(10, 0, 8, 40, 0);
    let cursor = apply(
        &lines,
        SourcePosition::new(12, 0),
        &mut viewport,
        motion(VimMotionKind::WindowBottom, 1),
    );
    assert_eq!(cursor.line(), 17);
    let cursor = apply(
        &lines,
        cursor,
        &mut viewport,
        motion(VimMotionKind::PageDown, 1),
    );
    assert_eq!(cursor.line(), 23);
    assert_eq!(viewport.top, 16);
}

#[test]
fn z_commands_preserve_or_reset_columns_and_horizontal_scroll_follows_cursor() {
    let lines = ["  zero", "    one", "  two", "three", "four", "five"];
    let mut viewport = Viewport::new(0, 0, 5, 4, 0);
    let cursor = apply(
        &lines,
        SourcePosition::new(0, 4),
        &mut viewport,
        VimMotion::new(VimMotionKind::CursorToWindowTop).counted(2, true),
    );
    assert_eq!(cursor, SourcePosition::new(1, 4));
    assert_eq!(viewport.top, 1);

    let cursor = apply(
        &lines,
        cursor,
        &mut viewport,
        VimMotion::new(VimMotionKind::CursorToWindowMiddleFirstNonBlank).counted(3, true),
    );
    assert_eq!(cursor, SourcePosition::new(2, 2));
    assert_eq!(viewport.top, 0);

    let cursor = apply(
        &lines,
        cursor,
        &mut viewport,
        VimMotion::new(VimMotionKind::PreviousWindowBottom).counted(6, true),
    );
    assert_eq!(cursor, SourcePosition::new(1, 4));
    assert_eq!(viewport.top, 0);

    let horizontal = ["abcdefghij"];
    let mut viewport = Viewport::new(0, 0, 1, 4, 0);
    let cursor = apply(
        &horizontal,
        SourcePosition::new(0, 0),
        &mut viewport,
        VimMotion::new(VimMotionKind::ScrollColumnRight).counted(3, true),
    );
    assert_eq!(viewport.left, 3);
    assert_eq!(cursor, SourcePosition::new(0, 3));
}

#[test]
fn vertical_motions_preserve_the_wanted_display_column_across_short_lines() {
    let lines = ["abcdef", "x", "abcdef"];
    let mut viewport = Viewport::new(0, 0, 3, 20, 0);
    let cursor = apply(
        &lines,
        SourcePosition::new(0, 4),
        &mut viewport,
        motion(VimMotionKind::Down, 1),
    );
    assert_eq!(cursor, SourcePosition::new(1, 0));
    let cursor = apply(
        &lines,
        cursor,
        &mut viewport,
        motion(VimMotionKind::Down, 1),
    );
    assert_eq!(cursor, SourcePosition::new(2, 4));

    let cursor = apply(
        &lines,
        cursor,
        &mut viewport,
        motion(VimMotionKind::LineEnd, 1),
    );
    let cursor = apply(&lines, cursor, &mut viewport, motion(VimMotionKind::Up, 1));
    assert_eq!(cursor, SourcePosition::new(1, 0));
    let cursor = apply(&lines, cursor, &mut viewport, motion(VimMotionKind::Up, 1));
    assert_eq!(cursor, SourcePosition::new(0, 5));
}

#[test]
fn counted_screen_end_motions_move_down_before_selecting_the_column() {
    let lines = ["first", "second   ", "third"];
    let mut viewport = Viewport::new(0, 0, 3, 20, 0);
    let cursor = apply(
        &lines,
        SourcePosition::new(0, 0),
        &mut viewport,
        VimMotion::new(VimMotionKind::ScreenLineEnd).counted(2, true),
    );
    assert_eq!(cursor, SourcePosition::new(1, 8));

    let cursor = apply(
        &lines,
        SourcePosition::new(0, 0),
        &mut viewport,
        VimMotion::new(VimMotionKind::ScreenLastNonBlank).counted(2, true),
    );
    assert_eq!(cursor, SourcePosition::new(1, 5));
}

#[test]
fn screen_column_motions_account_for_a_partly_scrolled_gutter() {
    let lines = ["  abcdefghijklmnop  "];
    let mut viewport = Viewport::new(0, 10, 1, 10, 8);
    let start = apply(
        &lines,
        SourcePosition::new(0, 8),
        &mut viewport,
        motion(VimMotionKind::ScreenLineStart, 1),
    );
    assert_eq!(start, SourcePosition::new(0, 2));
    let middle = apply(
        &lines,
        start,
        &mut viewport,
        motion(VimMotionKind::ScreenMiddle, 1),
    );
    assert_eq!(middle, SourcePosition::new(0, 7));
    let end = apply(
        &lines,
        middle,
        &mut viewport,
        motion(VimMotionKind::ScreenLineEnd, 1),
    );
    assert_eq!(end, SourcePosition::new(0, 11));
    let non_blank = apply(
        &lines,
        middle,
        &mut viewport,
        motion(VimMotionKind::ScreenLastNonBlank, 1),
    );
    assert_eq!(non_blank, SourcePosition::new(0, 11));
}

#[test]
fn byte_offsets_and_diff_change_motions_are_count_aware() {
    let lines = ["abc", "+first", "+more", " context", "-second"];
    let mut viewport = Viewport::new(0, 0, 4, 40, 0);
    let cursor = apply(
        &lines,
        SourcePosition::new(0, 0),
        &mut viewport,
        motion(VimMotionKind::ByteOffset, 6),
    );
    assert_eq!(cursor, SourcePosition::new(1, 1));
    let cursor = apply(
        &lines,
        SourcePosition::new(0, 0),
        &mut viewport,
        motion(VimMotionKind::DiffChangeForward, 2),
    );
    assert_eq!(cursor, SourcePosition::new(4, 0));

    let cursor = apply(
        &lines,
        SourcePosition::new(2, 2),
        &mut viewport,
        motion(VimMotionKind::DiffChangeBackward, 1),
    );
    assert_eq!(cursor, SourcePosition::new(1, 0));
}

#[test]
fn matching_pair_jumps_back_to_the_bracket_it_came_from() {
    let lines = ["f(a[b](c)", "  {x}) + (y)"];
    let mut viewport = Viewport::new(0, 0, 10, 80, 0);
    let start = SourcePosition::new(0, 1);
    let there = apply(&lines, start, &mut viewport, motion(VimMotionKind::MatchingPair, 1));
    assert_eq!(there, SourcePosition::new(1, 5));
    let back = apply(&lines, there, &mut viewport, motion(VimMotionKind::MatchingPair, 1));
    assert_eq!(back, start);
    let inner = SourcePosition::new(0, 3);
    let close = apply(&lines, inner, &mut viewport, motion(VimMotionKind::MatchingPair, 1));
    assert_eq!(close, SourcePosition::new(0, 5));
    assert_eq!(apply(&lines, close, &mut viewport, motion(VimMotionKind::MatchingPair, 1)), inner);
}

#[test]
fn the_viewport_top_stays_on_a_line_of_the_document() {
    let lines = ["one", "two", "three"];
    let mut viewport = Viewport::new(40, 0, 10, 80, 0);
    let _cursor = apply(
        &lines,
        SourcePosition::new(0, 0),
        &mut viewport,
        motion(VimMotionKind::ScrollLineDown, 5),
    );
    let mut probe = Viewport::new(0, 0, 10, 80, 0);
    let _cursor = apply(&lines, SourcePosition::new(9, 0), &mut probe, motion(VimMotionKind::PageDown, 3));
    assert!(viewport.top <= 2);
    assert!(probe.top <= 2);
}
