use rowdy::location::{Location, Source, Span};

fn loc(line: usize, col: usize, char_num: usize) -> Location {
    Location { line, col, char_num }
}

#[test]
fn combine_takes_earliest_start_and_latest_end() {
    let a = Span::from_start_end(loc(1, 3, 2), loc(1, 5, 4));
    let b = Span::from_start_end(loc(1, 1, 0), loc(1, 4, 3));
    let c = a.combine(b);
    assert_eq!(c.start, loc(1, 1, 0));
    assert_eq!(c.end, loc(1, 5, 4));
}

#[test]
fn combine_is_commutative_and_associative() {
    let a = Span::from_start_end(loc(1, 3, 2), loc(1, 5, 4));
    let b = Span::from_start_end(loc(1, 1, 0), loc(1, 4, 3));
    let c = Span::from_start_end(loc(2, 1, 7), loc(2, 2, 8));
    assert_eq!(a.combine(b), b.combine(a));
    assert_eq!(a.combine(b).combine(c), a.combine(b.combine(c)));
}

#[test]
fn from_loc_covers_one_character() {
    let s = Span::from_loc(loc(2, 4, 9));
    assert_eq!(s.start, s.end);
    assert_eq!(s.start.char_num, 9);
}

#[test]
fn slice_is_inclusive() {
    let s = Span::from_start_end(loc(1, 2, 1), loc(1, 4, 3));
    assert_eq!(s.slice("abcdef"), "bcd");
}

#[test]
fn slice_counts_characters_not_bytes() {
    let s = Span::from_start_end(loc(1, 2, 1), loc(1, 3, 2));
    assert_eq!(s.slice("éxyz"), "xy");
}

#[test]
fn spans_from_source_locations() {
    let a = loc(1, 1, 0).add_source(Source::File("a.ry".to_string()));
    let b = loc(1, 4, 3).add_source(Source::File("a.ry".to_string()));
    assert!(a.file.is_same(&b.file));
    assert!(!a.file.is_same(&Source::Anonymous));
    let s = Span::from_source_start_end(a.clone(), b);
    assert_eq!(s.start.char_num, 0);
    assert_eq!(s.end.char_num, 3);
    assert_eq!(Span::from_source_loc(a), Span::from_loc(loc(1, 1, 0)));
}
