use lex_core::location::{compute_location_from_locations, Position, Range};


fn mk_range(span: std::ops::Range<usize>, start: (usize, usize), end: (usize, usize)) -> Range {
    Range::new(
        span,
        Position::new(start.0, start.1),
        Position::new(end.0, end.1),
    )
}

#[test]
fn compute_location_respects_order() {
    let locations = vec![
        mk_range(5..10, (2, 3), (2, 7)),
        mk_range(1..4, (1, 0), (1, 4)),
        mk_range(10..15, (3, 0), (3, 2)),
    ];

    let result = compute_location_from_locations(&locations);

    assert_eq!(result.start, Position::new(1, 0));
    assert_eq!(result.end, Position::new(3, 2));
    assert_eq!(result.span, 1..15);
}

#[test]
fn compute_location_handles_ties() {
    let locations = vec![
        mk_range(2..5, (0, 2), (0, 5)),
        mk_range(1..3, (0, 2), (0, 3)),
    ];

    let result = compute_location_from_locations(&locations);
    assert_eq!(result.start, Position::new(0, 2));
    assert_eq!(result.span.start, 1);
    assert_eq!(result.end, Position::new(0, 5));
    assert_eq!(result.span.end, 5);
}

#[test]
fn compute_location_empty_returns_default() {
    let result = compute_location_from_locations(&[]);
    assert_eq!(result, Range::default());
}
