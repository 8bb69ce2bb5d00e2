use life_grid::gol::Point;
use life_grid::pgm::{read_pgm, LoadError};

fn image(header: &str, pixels: &[u8]) -> Vec<u8> {
    let mut bytes = header.as_bytes().to_vec();
    bytes.extend_from_slice(pixels);
    bytes
}

#[test]
fn decodes_a_two_by_two_image() {
    let board = read_pgm(&image("P5\n2 2\n255\n", &[255, 0, 1, 255])).unwrap();
    assert_eq!(board.width(), 2);
    assert_eq!(board.height(), 2);
    assert_eq!(board.into_cells(), vec![true, false, false, true]);
}

#[test]
fn height_comes_from_the_pixel_count() {
    let board = read_pgm(&image("P5 3 99 7 ", &[7, 7, 0, 8, 7, 255])).unwrap();
    assert_eq!(board.width(), 3);
    assert_eq!(board.height(), 2);
    assert_eq!(
        board.into_cells(),
        vec![true, true, false, false, true, false]
    );
}

#[test]
fn header_tokens_end_at_any_of_four_whitespace_bytes() {
    let board = read_pgm(&image("P5\t1\r1 7\n", &[7])).unwrap();
    assert_eq!(board.width(), 1);
    assert!(board.get(Point { x: 0, y: 0 }));
}

#[test]
fn a_leading_plus_is_read() {
    let board = read_pgm(&image("P5 +2 2 +255 ", &[255, 255])).unwrap();
    assert_eq!(board.width(), 2);
    assert_eq!(board.alive(), 2);
}

#[test]
fn pixels_that_look_like_whitespace_are_pixels() {
    let board = read_pgm(&image("P5 2 4 255 ", &[255, 10, 0, 32, 13, 255, 9, 0])).unwrap();
    assert_eq!(board.width(), 2);
    assert_eq!(board.height(), 4);
    assert_eq!(
        board.into_cells(),
        vec![true, false, false, false, false, true, false, false]
    );
}

#[test]
fn a_single_pixel_that_is_a_space_is_one_dead_cell() {
    let board = read_pgm(&image("P5 1 1 1\n", &[0x20])).unwrap();
    assert_eq!(board.width(), 1);
    assert_eq!(board.height(), 1);
    assert_eq!(board.into_cells(), vec![false]);
}

#[test]
fn the_brightest_grey_may_be_a_whitespace_value() {
    for grey in [9u8, 10, 13, 32] {
        let header = format!("P5 3 1 {}\n", grey);
        let board = read_pgm(&image(&header, &[grey, 0, grey, 32, grey, 10])).unwrap();
        assert_eq!(board.width(), 3);
        assert_eq!(board.height(), 2);
        let want: Vec<bool> = [grey, 0, grey, 32, grey, 10]
            .iter()
            .map(|p| *p == grey)
            .collect();
        assert_eq!(board.into_cells(), want);
    }
}

#[test]
fn only_one_whitespace_byte_ends_the_header() {
    // The second line feed is the first pixel.
    let board = read_pgm(&image("P5 2 1 10\n", &[10, 0])).unwrap();
    assert_eq!(board.into_cells(), vec![true, false]);
    assert_eq!(
        read_pgm(&image("P5 2 1 255\n", &[10, 255, 0])).err(),
        Some(LoadError::Shape)
    );
}

#[test]
fn an_image_without_pixels_is_an_empty_board() {
    let board = read_pgm(b"P5 4 4 255").unwrap();
    assert_eq!(board.width(), 4);
    assert_eq!(board.height(), 0);
    let board = read_pgm(b"P5 4 4 255\n").unwrap();
    assert_eq!(board.height(), 0);
}

#[test]
fn grey_zero_marks_black_pixels() {
    let board = read_pgm(&image("P5 2 1 0 ", &[0, 255])).unwrap();
    assert_eq!(board.into_cells(), vec![true, false]);
}

#[test]
fn too_few_header_tokens() {
    assert_eq!(read_pgm(b"").err(), Some(LoadError::Sections));
    assert_eq!(read_pgm(b"P5").err(), Some(LoadError::Sections));
    assert_eq!(read_pgm(b"P5 2 2").err(), Some(LoadError::Sections));
    assert_eq!(read_pgm(b"P6 2 2").err(), Some(LoadError::Sections));
}

#[test]
fn wrong_magic() {
    assert_eq!(
        read_pgm(&image("P6 2 2 255 ", &[0, 0, 0, 0])).err(),
        Some(LoadError::Magic)
    );
    assert_eq!(
        read_pgm(&image("P55 2 2 255 ", &[0, 0, 0, 0])).err(),
        Some(LoadError::Magic)
    );
    assert_eq!(
        read_pgm(&image("p5 2 2 255 ", &[0, 0, 0, 0])).err(),
        Some(LoadError::Magic)
    );
    assert_eq!(
        read_pgm(&image(" P5 2 2 255 ", &[0, 0, 0, 0])).err(),
        Some(LoadError::Magic)
    );
}

#[test]
fn numbers_that_do_not_parse() {
    for header in [
        "P5 x 2 255 ",
        "P5 -2 2 255 ",
        "P5 2 2 25a ",
        "P5 2 2 65536 ",
        "P5 4294967296 2 255 ",
        "P5  2 2 255 ",
        "P5 + 2 255 ",
        "P5 2 2  ",
        "P5 2.0 2 255 ",
    ] {
        assert_eq!(
            read_pgm(&image(header, &[0, 0, 0, 0])).err(),
            Some(LoadError::Number),
            "{:?}",
            header
        );
    }
}

#[test]
fn the_largest_width_parses() {
    assert_eq!(
        read_pgm(&image("P5 4294967295 2 255 ", &[0, 0, 0, 0])).err(),
        Some(LoadError::Shape)
    );
    assert_eq!(
        read_pgm(&image("P5 0004 1 0255 ", &[0, 0, 0, 0]))
            .unwrap()
            .width(),
        4
    );
}

#[test]
fn grey_out_of_range() {
    assert_eq!(
        read_pgm(&image("P5 2 2 256 ", &[0, 0, 0, 0])).err(),
        Some(LoadError::GreyRange)
    );
    assert_eq!(
        read_pgm(&image("P5 2 2 65535 ", &[0, 0, 0, 0])).err(),
        Some(LoadError::GreyRange)
    );
    assert!(read_pgm(&image("P5 2 2 255 ", &[0, 0, 0, 0])).is_ok());
}

#[test]
fn pixels_that_do_not_fill_rows() {
    assert_eq!(
        read_pgm(&image("P5 2 2 255 ", &[0, 0, 0])).err(),
        Some(LoadError::Shape)
    );
    assert_eq!(
        read_pgm(&image("P5 0 2 255 ", &[])).err(),
        Some(LoadError::Shape)
    );
    assert_eq!(
        read_pgm(&image("P5 0 0 255 ", &[0])).err(),
        Some(LoadError::Shape)
    );
}

#[test]
fn header_tokens_must_be_text() {
    assert_eq!(
        read_pgm(&image("P5 2 ", &[0xff, 32, 55, 32, 7, 7])).err(),
        Some(LoadError::Encoding)
    );
    assert_eq!(read_pgm(&[0xc3]).err(), Some(LoadError::Encoding));
    assert_eq!(
        read_pgm(&[b'P', b'5', b' ', 0xe2, 0x82]).err(),
        Some(LoadError::Encoding)
    );
    // Well-formed text that is not a number is no encoding fault.
    assert_eq!(
        read_pgm(&image("P5 2 \u{2801} 7 ", &[7, 7])).map(|b| b.alive()),
        Ok(2)
    );
    assert_eq!(
        read_pgm(&image("P5 \u{e9} 2 9 ", &[9, 9])).err(),
        Some(LoadError::Number)
    );
}

#[test]
fn faults_are_reported_in_order() {
    // Encoding before the token count, the count before the magic, the
    // magic before the numbers, the numbers before the grey range, the
    // grey range before the shape.
    assert_eq!(read_pgm(&[0xff, b' ', b'2']).err(), Some(LoadError::Encoding));
    assert_eq!(read_pgm(b"P6 x").err(), Some(LoadError::Sections));
    assert_eq!(read_pgm(b"P6 x 2 999 ").err(), Some(LoadError::Magic));
    assert_eq!(read_pgm(b"P5 x 2 999 ").err(), Some(LoadError::Number));
    assert_eq!(read_pgm(b"P5 0 2 999 ").err(), Some(LoadError::GreyRange));
    assert_eq!(read_pgm(b"P5 0 2 99 ").err(), Some(LoadError::Shape));
}
