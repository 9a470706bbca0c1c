use roc_can::state::{BadInputError, Progress, State};

#[test]
fn state_size() {
    // State should always be under 8 machine words, so it fits in a typical
    // cache line.
    let state_size = std::mem::size_of::<State>();
    let maximum = std::mem::size_of::<usize>() * 8;
    assert!(state_size <= maximum, "{:?} <= {:?}", state_size, maximum);
}

#[test]
fn advance_consumes_bytes() {
    let input = b"hello world";
    let s = State::new(input);
    assert_eq!(s.bytes(), b"hello world");
    assert!(!s.has_reached_end());
    let t = s.advance(6);
    assert_eq!(t.bytes(), b"world");
    assert_eq!(t.pos().offset, 6);
    assert!(t.advance(5).has_reached_end());
    assert_eq!(t.advance(5).pos().offset, 11);
}

#[test]
fn advance_without_indenting_moves_the_column() {
    let s = State::new(b"abcdef");
    let t = s.advance_without_indenting_ee(4, |p| p.offset).ok().unwrap();
    assert_eq!(t.xyzlcol.column, 4);
    assert_eq!(t.bytes(), b"ef");
    let r = t.len_region(2);
    assert_eq!((r.start.offset, r.end.offset), (4, 6));
}

#[test]
fn advance_without_indenting_refuses_long_lines() {
    let mut s = State::new(b"abc");
    s.xyzlcol.column = u16::MAX - 1;
    match s.advance_without_indenting_e(2, |e, p| (e, p.offset)) {
        Err((progress, (e, offset), back)) => {
            assert_eq!(progress, Progress::NoProgress);
            assert_eq!(e, BadInputError::LineTooLong);
            assert_eq!(offset, 0);
            assert_eq!(back.bytes(), b"abc");
        }
        Ok(_) => panic!("expected an error"),
    }
}

#[test]
fn advance_without_indenting_refuses_past_the_end_when_the_line_is_too_long() {
    let mut s = State::new(b"ab");
    s.xyzlcol.column = u16::MAX;
    match s.advance_without_indenting_ee(usize::MAX, |p| p.offset) {
        Err((progress, offset, back)) => {
            assert_eq!(progress, Progress::NoProgress);
            assert_eq!(offset, 0);
            assert_eq!(back.bytes(), b"ab");
        }
        Ok(_) => panic!("expected an error"),
    }
}

#[test]
fn state_clone_keeps_position() {
    let s = State::new(b"abc").advance(1);
    let t = s.clone();
    assert_eq!(t.bytes(), b"bc");
    assert_eq!(t.pos().offset, 1);
}
