use life_grid::gol::{Board, Mask, Point};
use life_grid::session::{placed, scroll_inc, DrawError, Key, Session};

#[test]
fn scroll_is_a_tenth_of_the_longer_side() {
    assert_eq!(scroll_inc(80, 24), 8);
    assert_eq!(scroll_inc(24, 80), 8);
    assert_eq!(scroll_inc(9, 5), 0);
    assert_eq!(scroll_inc(119, 119), 11);
    assert_eq!(scroll_inc(-1, -25), 0);
    assert_eq!(scroll_inc(-25, -31), -2);
    assert_eq!(scroll_inc(i32::MAX, i32::MIN), 214748364);
}

#[test]
fn a_session_starts_at_the_origin() {
    let s = Session::new();
    assert_eq!(s.offset, Point { x: 0, y: 0 });
    assert_eq!(s.turn, 0);
    assert!(s.running);
}

#[test]
fn keys_move_the_view() {
    let mut s = Session::new();
    s.key_press(Key::Left, 8);
    assert_eq!(s.offset, Point { x: -8, y: 0 });
    s.key_press(Key::Up, 8);
    assert_eq!(s.offset, Point { x: -8, y: -8 });
    s.key_press(Key::Right, 3);
    assert_eq!(s.offset, Point { x: -5, y: -8 });
    s.key_press(Key::Down, 10);
    assert_eq!(s.offset, Point { x: -5, y: 2 });
    s.key_press(Key::Other, 10);
    assert_eq!(
        s,
        Session {
            offset: Point { x: -5, y: 2 },
            turn: 0,
            running: true
        }
    );
    s.key_press(Key::Quit, 10);
    assert_eq!(
        s,
        Session {
            offset: Point { x: -5, y: 2 },
            turn: 0,
            running: false
        }
    );
}

#[test]
fn a_turn_wraps_the_view_onto_the_board() {
    let board = Board::new(10, vec![false; 50]);
    let mut s = Session {
        offset: Point { x: -3, y: 26 },
        turn: 41,
        running: true,
    };
    let view = s.turn_end(&board, 80, 24);
    assert_eq!(
        s,
        Session {
            offset: Point { x: 7, y: 1 },
            turn: 42,
            running: true
        }
    );
    assert_eq!((view.x, view.y, view.w, view.h), (7, 1, 80, 24));
}

#[test]
fn a_refused_glyph_matters_except_in_the_last_cell() {
    let screen = Mask {
        x: 0,
        y: 0,
        w: 80,
        h: 24,
    };
    let at = |x: i64, y: i64| Point { x, y };
    assert_eq!(placed(&screen, &at(3, 4), 80, 24, 0), Ok(()));
    assert_eq!(
        placed(&screen, &at(3, 4), 80, 24, -1),
        Err(DrawError::Refused(-1))
    );
    assert_eq!(placed(&screen, &at(79, 23), 80, 24, -1), Ok(()));
    assert_eq!(
        placed(&screen, &at(79, 22), 80, 24, 7),
        Err(DrawError::Refused(7))
    );
    assert_eq!(placed(&screen, &at(80, 24), 80, 24, 0), Ok(()));
    assert_eq!(
        placed(&screen, &at(81, 24), 80, 24, 0),
        Err(DrawError::Outside)
    );
    assert_eq!(
        placed(&screen, &at(-1, 0), 80, 24, -1),
        Err(DrawError::Outside)
    );
}
