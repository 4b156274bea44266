use cad_solver::span::{Location, Span};

#[test]
fn merge_takes_lowest_start_and_highest_end() {
    let a = Span::new(3, 7);
    let b = Span::new(5, 12);
    assert_eq!(a.merge(b), Span::new(3, 12));
    assert_eq!(b.merge(a), Span::new(3, 12));
}

#[test]
fn merge_is_associative_and_idempotent() {
    let a = Span::new(4, 6);
    let b = Span::new(1, 5);
    let c = Span::new(8, 9);
    assert_eq!(a.merge(b).merge(c), a.merge(b.merge(c)));
    assert_eq!(a.merge(a), a);
}

#[test]
fn location_counts_lines_and_columns_from_one() {
    let source = "let x = 1;\nlet y = 2;\n  z";
    assert_eq!(Span::new(0, 1).to_location(source), Location { line: 1, col: 1 });
    assert_eq!(Span::new(4, 5).to_location(source), Location { line: 1, col: 5 });
    assert_eq!(Span::new(11, 12).to_location(source), Location { line: 2, col: 1 });
    assert_eq!(Span::new(24, 25).to_location(source), Location { line: 3, col: 3 });
}

#[test]
fn location_counts_characters_not_bytes() {
    let source = "é=1";
    assert_eq!(Span::new(2, 3).to_location(source), Location { line: 1, col: 2 });
}

#[test]
fn location_text_is_line_colon_column() {
    assert_eq!(Location { line: 12, col: 3 }.to_text(), "12:3");
}

#[test]
fn span_into_range() {
    assert_eq!(Span::new(2, 9).into_range(), 2..9);
}
