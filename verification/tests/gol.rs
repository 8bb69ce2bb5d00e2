use life_grid::gol::{wrap, Board, Mask, Point, SliceError};

#[test]
fn gol_test_slice_board() -> Result<(), SliceError> {
    let init = Board::new(4, (0..16).map(|_| false).collect());
    let mut whole = init.clone();
    whole.set(Point { x: 1, y: 1 }, true);
    let sliced = whole.slice(&Mask {
        x: 1,
        y: 1,
        w: 2,
        h: 2,
    })?;
    assert_eq!(sliced[Point { x: 0, y: 0 }], true);
    assert_eq!(sliced.width(), 2);
    assert_eq!(sliced.height(), 2);
    Ok(())
}

#[test]
fn mod_test_slice_board() -> Result<(), SliceError> {
    let init = Board::new(4, (0..16).map(|_| false).collect());
    let mut whole = init.clone();
    whole.set(Point { x: 1, y: 1 }, true);
    let sliced = whole.slice(&Mask {
        x: 1,
        y: 1,
        w: 2,
        h: 2,
    })?;
    assert_eq!(sliced[Point { x: 0, y: 0 }], true);
    assert_eq!(sliced.width(), 2);
    assert_eq!(sliced.height(), 2);
    Ok(())
}

#[test]
fn test_remap() {
    let w = 10 as i64;
    let h = 10 as i64;
    let mut pt = Point { x: w * 2, y: 0 };
    pt.remap(w, h);
    assert!(w * pt.x + pt.y < w * h);

    pt.x = 1;
    pt.y = -2;
    pt.remap(w, h);
    assert_eq!(pt.x, 1);
    assert_eq!(pt.y, h - 2);
}

fn board_from(width: u32, rows: &[&str]) -> Board {
    let cells: Vec<bool> = rows
        .iter()
        .flat_map(|row| row.chars().map(|c| c == '#'))
        .collect();
    Board::new(width, cells)
}

#[test]
fn access_wraps_around_every_edge() {
    let board = board_from(3, &["#..", "...", "..#", ".#."]);
    for y in -9i64..9 {
        for x in -7i64..7 {
            let nx = x.rem_euclid(3);
            let ny = y.rem_euclid(4);
            assert_eq!(
                board.get(Point { x, y }),
                board.get(Point { x: nx, y: ny })
            );
            assert_eq!(board[Point { x, y }], board.get(Point { x: nx, y: ny }));
            assert_eq!(
                board.pt_to_index(Point { x, y }),
                (ny * 3 + nx) as usize
            );
        }
    }
    assert!(board.get(Point { x: -1, y: -2 }));
    assert!(board.get(Point { x: 3, y: 4 }));
    assert!(board.get(Point { x: 4, y: -1 }));
    assert!(!board.get(Point { x: 1, y: 1 }));
}

#[test]
fn access_at_the_far_ends_of_the_coordinate_range() {
    let board = board_from(3, &["#..", "...", "..#", ".#."]);
    let x = i64::MAX;
    let y = i64::MIN;
    assert_eq!(
        board.get(Point { x, y }),
        board.get(Point {
            x: x.rem_euclid(3),
            y: y.rem_euclid(4)
        })
    );
    assert_eq!(board.neighbors(&Point { x, y }).len(), 8);
}

#[test]
fn remap_reduces_far_coordinates() {
    let mut pt = Point { x: -21, y: 47 };
    pt.remap(10, 5);
    assert_eq!(pt, Point { x: 9, y: 2 });
    let mut pt = Point { x: -20, y: 0 };
    pt.remap(10, 5);
    assert_eq!(pt, Point { x: 0, y: 0 });
    let mut pt = Point {
        x: i64::MIN,
        y: i64::MAX,
    };
    pt.remap(7, 7);
    assert_eq!(pt.x, i64::MIN.rem_euclid(7));
    assert_eq!(pt.y, i64::MAX.rem_euclid(7));
    assert_eq!(wrap(-1, 4), 3);
    assert_eq!(wrap(8, 4), 0);
}

#[test]
fn set_replaces_one_wrapped_cell() {
    let mut board = board_from(3, &["...", "..."]);
    board.set(Point { x: -1, y: 3 }, true);
    assert_eq!(
        board.clone().into_cells(),
        vec![false, false, false, false, false, true]
    );
    board.set(Point { x: 2, y: 1 }, false);
    assert_eq!(board.alive(), 0);
}

#[test]
fn dimensions_and_live_count() {
    let board = board_from(3, &["#.#", "...", "..#", ".#."]);
    assert_eq!(board.width(), 3);
    assert_eq!(board.height(), 4);
    assert_eq!(board.alive(), 4);
    let empty = Board::new(5, Vec::new());
    assert_eq!(empty.width(), 5);
    assert_eq!(empty.height(), 0);
    assert_eq!(empty.alive(), 0);
    assert_eq!(empty.pixels().len(), 0);
}

#[test]
fn neighbors_come_in_compass_order() {
    // Each of the eight cells around the middle is alive in a board of its own.
    let around = [
        (2, 1),
        (0, 1),
        (1, 2),
        (1, 0),
        (2, 0),
        (2, 2),
        (0, 0),
        (0, 2),
    ];
    for (slot, (x, y)) in around.iter().enumerate() {
        let mut board = board_from(3, &["...", "...", "..."]);
        board.set(Point { x: *x, y: *y }, true);
        let got = board.neighbors(&Point { x: 1, y: 1 });
        for k in 0..8 {
            assert_eq!(got[k], k == slot);
        }
    }
}

#[test]
fn neighbors_wrap_at_the_corner() {
    let board = board_from(4, &["....", "....", "....", "...#"]);
    let got = board.neighbors(&Point { x: 0, y: 0 });
    assert_eq!(
        got,
        [false, false, false, false, false, false, true, false]
    );
}

#[test]
fn pixels_are_row_major() {
    let board = board_from(3, &["#..", ".#."]);
    let got = board.pixels();
    let want = vec![
        (Point { x: 0, y: 0 }, true),
        (Point { x: 1, y: 0 }, false),
        (Point { x: 2, y: 0 }, false),
        (Point { x: 0, y: 1 }, false),
        (Point { x: 1, y: 1 }, true),
        (Point { x: 2, y: 1 }, false),
    ];
    assert_eq!(got, want);
}

#[test]
fn slice_reads_across_the_seam() {
    let board = board_from(3, &["#..", ".#.", "..#"]);
    let cut = board
        .slice(&Mask {
            x: 2,
            y: 2,
            w: 3,
            h: 2,
        })
        .unwrap();
    assert_eq!(cut.width(), 3);
    assert_eq!(cut.height(), 2);
    assert_eq!(
        cut.into_cells(),
        vec![true, false, false, false, true, false]
    );
}

#[test]
fn slice_of_no_rows_is_an_empty_board() {
    let board = board_from(3, &["#..", ".#.", "..#"]);
    let cut = board
        .slice(&Mask {
            x: 0,
            y: 0,
            w: 2,
            h: 0,
        })
        .unwrap();
    assert_eq!(cut.width(), 2);
    assert_eq!(cut.height(), 0);
}

#[test]
fn slice_rejects_what_cannot_be_a_board() {
    let board = board_from(3, &["#..", ".#.", "..#"]);
    assert_eq!(
        board
            .slice(&Mask {
                x: 0,
                y: 0,
                w: 0,
                h: 2
            })
            .err(),
        Some(SliceError::EmptyWidth)
    );
    assert_eq!(
        board
            .slice(&Mask {
                x: 0,
                y: 0,
                w: 65536,
                h: 65536
            })
            .err(),
        Some(SliceError::TooLarge)
    );
}

#[test]
fn mask_contains_all_four_edges() {
    let m = Mask {
        x: 2,
        y: 3,
        w: 4,
        h: 5,
    };
    assert_eq!(m.right(), 6);
    assert_eq!(m.bottom(), 8);
    for y in 3..=8 {
        assert!(m.contains(&Point { x: 2, y }));
        assert!(m.contains(&Point { x: 6, y }));
        assert!(!m.contains(&Point { x: 1, y }));
        assert!(!m.contains(&Point { x: 7, y }));
    }
    for x in 2..=6 {
        assert!(m.contains(&Point { x, y: 3 }));
        assert!(m.contains(&Point { x, y: 8 }));
        assert!(!m.contains(&Point { x, y: 2 }));
        assert!(!m.contains(&Point { x, y: 9 }));
    }
    assert!(m.contains(&Point { x: 4, y: 5 }));
    assert!(!m.contains(&Point { x: -1, y: -1 }));
}

#[test]
fn mask_contains_does_not_overflow() {
    let m = Mask {
        x: u32::MAX,
        y: u32::MAX,
        w: u32::MAX,
        h: u32::MAX,
    };
    let far = 2 * (u32::MAX as i64);
    assert!(m.contains(&Point { x: far, y: far }));
    assert!(!m.contains(&Point { x: far + 1, y: far }));
}

#[test]
fn mask_scale_keeps_the_origin() {
    let m = Mask {
        x: 2,
        y: 3,
        w: 4,
        h: 5,
    };
    let s = m.scale((2, 4));
    assert_eq!((s.x, s.y, s.w, s.h), (2, 3, 8, 20));
    assert_eq!(m.dx(), 2);
    assert_eq!(m.dy(), 2);
    let n = Mask {
        x: 9,
        y: 1,
        w: 4,
        h: 5,
    };
    assert_eq!(n.dx(), 5);
    assert_eq!(n.dy(), 4);
}

#[test]
fn points_add_and_convert() {
    let p = Point { x: 3, y: -4 } + Point { x: -5, y: 6 };
    assert_eq!(p, Point { x: -2, y: 2 });
    let q: Point = (7i64, -8i64).into();
    assert_eq!(q, Point { x: 7, y: -8 });
    assert!(Point { x: 1, y: 9 } < Point { x: 2, y: 0 });
}

#[test]
fn cells_handed_out_are_written_through() {
    let mut board = board_from(3, &["#..", ".#."]);
    {
        let all = board.pixels_mut();
        assert_eq!(all.len(), 6);
        let seen: Vec<(Point, bool)> = all.iter().map(|(p, c)| (*p, **c)).collect();
        assert_eq!(
            seen,
            vec![
                (Point { x: 0, y: 0 }, true),
                (Point { x: 1, y: 0 }, false),
                (Point { x: 2, y: 0 }, false),
                (Point { x: 0, y: 1 }, false),
                (Point { x: 1, y: 1 }, true),
                (Point { x: 2, y: 1 }, false),
            ]
        );
        for (pt, cell) in all {
            *cell = pt.x == 2 || pt.y == 1;
        }
    }
    assert_eq!(board.width(), 3);
    assert_eq!(
        board.into_cells(),
        vec![false, false, true, true, true, true]
    );
    let mut empty = Board::new(2, Vec::new());
    assert_eq!(empty.pixels_mut().len(), 0);
}
