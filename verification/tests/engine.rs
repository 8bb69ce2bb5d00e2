use life_grid::engine::{calc_px, run_turn, step_chunk, TurnError};
use life_grid::gol::{Board, Point};

fn board_of(width: u32, rows: &[&str]) -> Board {
    let cells: Vec<bool> = rows
        .iter()
        .flat_map(|row| row.chars().map(|c| c == '#'))
        .collect();
    Board::new(width, cells)
}

fn cells_of(rows: &[&str]) -> Vec<bool> {
    rows.iter()
        .flat_map(|row| row.chars().map(|c| c == '#'))
        .collect()
}

#[test]
fn lone_cell_dies() {
    let board = board_of(5, &[".....", ".....", "..#..", ".....", "....."]);
    let next = run_turn(board, 2).unwrap();
    assert_eq!(next.alive(), 0);
    assert_eq!(next.width(), 5);
    assert_eq!(next.height(), 5);
}

#[test]
fn block_is_a_still_life() {
    let rows = ["......", "..##..", "..##..", "......", "......", "......"];
    let next = run_turn(board_of(6, &rows), 3).unwrap();
    assert_eq!(next.into_cells(), cells_of(&rows));
}

#[test]
fn blinker_has_period_two() {
    let flat = [".....", ".....", ".###.", ".....", "....."];
    let tall = [".....", "..#..", "..#..", "..#..", "....."];
    let one = run_turn(board_of(5, &flat), 2).unwrap();
    assert_eq!(one.clone().into_cells(), cells_of(&tall));
    let two = run_turn(one, 2).unwrap();
    assert_eq!(two.into_cells(), cells_of(&flat));
}

#[test]
fn blinker_turns_on_a_board_that_is_not_square() {
    let flat = [".......", ".###...", ".......", "......."];
    let tall = ["..#....", "..#....", "..#....", "......."];
    let next = run_turn(board_of(7, &flat), 3).unwrap();
    assert_eq!(next.width(), 7);
    assert_eq!(next.height(), 4);
    assert_eq!(next.into_cells(), cells_of(&tall));
}

#[test]
fn a_turn_applies_the_rule_to_every_cell() {
    let board = board_of(4, &["....", "...#", ".#.#", "..##"]);
    let mut expect = Vec::new();
    for y in 0..4 {
        for x in 0..4 {
            expect.push(calc_px(&board, &Point { x, y }));
        }
    }
    let next = run_turn(board, 4).unwrap();
    assert_eq!(next.into_cells(), expect);
}

#[test]
fn every_worker_count_gives_the_same_generation() {
    let rows = [
        "#..#.#.", ".##..#.", "..#.##.", "#.#...#", ".#.#.#.", "##...##", "...#...", "#.#.#.#",
        ".......",
    ];
    let first = run_turn(board_of(7, &rows), 1).unwrap().into_cells();
    assert_ne!(first, cells_of(&rows));
    for k in 2..=9 {
        let next = run_turn(board_of(7, &rows), k).unwrap();
        assert_eq!(next.width(), 7);
        assert_eq!(next.into_cells(), first);
    }
    for k in [10, 64, 1000, u32::MAX] {
        assert_eq!(run_turn(board_of(7, &rows), k).unwrap().into_cells(), first);
    }
}

#[test]
fn zero_workers_are_refused() {
    let board = board_of(3, &["...", ".#.", "..."]);
    assert_eq!(run_turn(board, 0).err(), Some(TurnError::NoWorkers));
    assert_eq!(
        run_turn(Board::new(3, Vec::new()), 0).err(),
        Some(TurnError::NoWorkers)
    );
}

#[test]
fn an_empty_board_stays_empty() {
    let next = run_turn(Board::new(3, Vec::new()), 4).unwrap();
    assert_eq!(next.width(), 3);
    assert_eq!(next.height(), 0);
}

#[test]
fn rule_by_neighbor_count() {
    // The middle cell with n live neighbors, dead and alive.
    let around = [
        (0, 0),
        (1, 0),
        (2, 0),
        (0, 1),
        (2, 1),
        (0, 2),
        (1, 2),
        (2, 2),
    ];
    for n in 0..=8usize {
        for alive in [false, true] {
            let mut board = Board::new(5, vec![false; 25]);
            for (x, y) in around.iter().take(n) {
                board.set(Point { x: *x + 1, y: *y + 1 }, true);
            }
            board.set(Point { x: 2, y: 2 }, alive);
            let want = n == 3 || (alive && n == 2);
            assert_eq!(calc_px(&board, &Point { x: 2, y: 2 }), want);
            assert_eq!(calc_px(&board, &Point { x: -3, y: 7 }), want);
        }
    }
}

#[test]
fn a_cell_on_a_one_cell_torus_is_its_own_neighbor() {
    let board = Board::new(1, vec![true]);
    assert_eq!(board.neighbors(&Point { x: 0, y: 0 }), [true; 8]);
    assert_eq!(run_turn(board, 1).unwrap().into_cells(), vec![false]);
}

#[test]
fn a_chunk_holds_its_own_run_of_cells() {
    let flat = [".....", ".....", ".###.", ".....", "....."];
    let tall = cells_of(&[".....", "..#..", "..#..", "..#..", "....."]);
    let board = board_of(5, &flat);
    let mut chunk = vec![false; 10];
    step_chunk(&board, 1, 10, &mut chunk);
    assert_eq!(chunk, tall[10..20].to_vec());
    let mut last = vec![true; 5];
    step_chunk(&board, 2, 10, &mut last);
    assert_eq!(last, tall[20..25].to_vec());
}
