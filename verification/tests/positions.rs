use marquage::parse::span::Span;
use marquage::parser::position::Position;
use marquage::parser::source_map::SourceMap;

#[test]
fn position_moves() {
    let mut p = Position(3, 4);
    assert_eq!(p.add_column_by(2), Position(3, 4));
    assert_eq!(p, Position(3, 6));
    assert_eq!(p.subtract_column_by(2), Position(3, 6));
    assert_eq!(p, Position(3, 4));
    assert_eq!(p.add_line_by(2), Position(3, 4));
    assert_eq!(p, Position(5, 1));
    p.subtract_line_by(1);
    assert_eq!(p, Position(4, 1));
    p.add_column();
    assert_eq!(p, Position(4, 2));
    assert_eq!(Position::from((7, 8)), Position(7, 8));
}

#[test]
fn source_map_walks_characters() {
    let mut m = SourceMap::new("aé\nb");
    assert_eq!(m.peek(), Some('a'));
    assert_eq!(m.advance(), Some(('a', 0)));
    assert_eq!(m.advance(), Some(('é', 1)));
    assert_eq!(m.get_offset(), 2);
    m.back();
    assert_eq!(m.get_offset(), 1);
    m.consume();
    assert_eq!(m.peek(), Some('\n'));
    assert_eq!(m.get_by_offset(0, 2), "aé");
    m.move_to(3);
    assert_eq!(m.advance(), Some(('b', 3)));
    assert!(m.is_end());
    assert_eq!(m.advance(), None);
    assert_eq!(m.peek(), None);
}

#[test]
fn spans_combine_when_they_overlap() {
    let a = Span::new(Position(1, 1), Position(1, 3), (0, 2));
    let b = Span::new(Position(1, 3), Position(1, 5), (2, 4));
    let c = Span::new(Position(2, 1), Position(2, 2), (9, 10));
    let d = Span::new(Position(1, 2), Position(1, 4), (1, 3));
    assert_eq!(a.combine(&b), None);
    assert_eq!(b.combine(&a), None);
    assert_eq!(a.combine(&d), Some(Span::new(Position(1, 1), Position(1, 4), (0, 3))));
    assert_eq!(d.combine(&b), Some(Span::new(Position(1, 2), Position(1, 5), (1, 4))));
    assert_eq!(b.combine(&d), d.combine(&b));
    assert_eq!(a.combine(&c), None);
    assert!(a.is_same_line(&b));
    assert!(!a.is_same_line(&c));
}
