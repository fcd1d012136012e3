use snake::gfx::{Canvas, Sprite, TILE_SIZE};

fn pixel(canvas: &Canvas, x: u32, y: u32) -> (u8, u8, u8, u8) {
    let frame = canvas.draw();
    let at = (y * canvas.line_length() + x * 4) as usize;
    (frame[at], frame[at + 1], frame[at + 2], frame[at + 3])
}

fn painted_pixels(canvas: &Canvas) -> Vec<(u32, u32)> {
    let mut found = Vec::new();
    for y in 0..canvas.height() {
        for x in 0..canvas.width() {
            if pixel(canvas, x, y) != (0, 0, 0, 0) {
                found.push((x, y));
            }
        }
    }
    found
}

fn tile_pixel(sprite: &Sprite, x: usize, y: usize) -> (u8, u8, u8, u8) {
    let row = &sprite.rows()[y];
    (row[4 * x], row[4 * x + 1], row[4 * x + 2], row[4 * x + 3])
}

#[test]
fn new_canvas_is_blank_and_draws_white() {
    let mut canvas = Canvas::new(10, 6, 48);

    assert_eq!(canvas.width(), 10);
    assert_eq!(canvas.height(), 6);
    assert_eq!(canvas.line_length(), 48);
    assert_eq!(canvas.draw().len(), 48 * 6);
    assert!(canvas.draw().iter().all(|&byte| byte == 0));

    canvas.point(0, 0);
    assert_eq!(pixel(&canvas, 0, 0), (255, 255, 255, 0));
}

#[test]
fn point_writes_blue_green_red_at_the_pixel_offset() {
    let mut canvas = Canvas::new(10, 6, 48);
    canvas.color(1, 2, 3);

    canvas.point(2, 3);

    let frame = canvas.draw();
    assert_eq!(&frame[152..156], &[3, 2, 1, 0]);
    for (i, &byte) in frame.iter().enumerate() {
        if i < 152 || i > 154 {
            assert_eq!(byte, 0);
        }
    }
}

#[test]
fn point_writes_three_bytes_of_the_last_pixel() {
    let mut canvas = Canvas::new(4, 4, 16);
    canvas.color(10, 20, 30);

    canvas.point(3, 3);

    let frame = canvas.draw();
    assert_eq!(frame.len(), 64);
    assert_eq!(&frame[60..64], &[30, 20, 10, 0]);
    assert!(frame[..60].iter().all(|&byte| byte == 0));
}

#[test]
fn point_respects_the_row_stride() {
    let mut canvas = Canvas::new(3, 3, 20);
    canvas.color(200, 100, 50);

    canvas.point(2, 1);
    canvas.point(0, 2);

    let frame = canvas.draw();
    assert_eq!(&frame[28..32], &[50, 100, 200, 0]);
    assert_eq!(&frame[40..44], &[50, 100, 200, 0]);
    assert_eq!(frame.iter().filter(|&&byte| byte != 0).count(), 6);
}

#[test]
fn color_changes_later_points_only() {
    let mut canvas = Canvas::new(4, 1, 16);
    canvas.color(1, 1, 1);
    canvas.point(0, 0);
    canvas.color(2, 3, 4);
    canvas.point(1, 0);

    assert_eq!(pixel(&canvas, 0, 0), (1, 1, 1, 0));
    assert_eq!(pixel(&canvas, 1, 0), (4, 3, 2, 0));
}

#[test]
fn clear_zeroes_the_whole_frame() {
    let mut canvas = Canvas::new(30, 30, 128);
    canvas.color(5, 6, 7);
    canvas.rect((0, 0), (30, 30));
    canvas.sprite_to(2, 3, &Sprite::head_up());
    assert!(canvas.draw().iter().any(|&byte| byte != 0));

    canvas.clear();

    assert_eq!(canvas.draw().len(), 128 * 30);
    assert!(canvas.draw().iter().all(|&byte| byte == 0));
    assert_eq!(canvas.width(), 30);
    assert_eq!(canvas.height(), 30);
    assert_eq!(canvas.line_length(), 128);
}

#[test]
fn clear_keeps_the_drawing_colour() {
    let mut canvas = Canvas::new(4, 4, 16);
    canvas.color(5, 6, 7);
    canvas.clear();
    canvas.point(0, 0);

    assert_eq!(pixel(&canvas, 0, 0), (7, 6, 5, 0));
}

#[test]
fn vline_paints_a_column_without_its_last_row() {
    let mut canvas = Canvas::new(8, 8, 32);
    canvas.color(1, 2, 3);

    canvas.vline((5, 2), (5, 6));

    assert_eq!(painted_pixels(&canvas), vec![(5, 2), (5, 3), (5, 4), (5, 5)]);
    assert_eq!(pixel(&canvas, 5, 4), (3, 2, 1, 0));
}

#[test]
fn vline_goes_by_the_column_of_its_first_point() {
    let mut canvas = Canvas::new(8, 8, 32);

    canvas.vline((1, 0), (6, 2));

    assert_eq!(painted_pixels(&canvas), vec![(1, 0), (1, 1)]);
}

#[test]
fn vline_draws_nothing_for_an_empty_span() {
    let mut canvas = Canvas::new(8, 8, 32);

    canvas.vline((5, 4), (5, 4));
    canvas.vline((5, 6), (5, 2));
    canvas.vline((100, 9), (100, 3));

    assert!(painted_pixels(&canvas).is_empty());
}

#[test]
fn rect_fills_the_half_open_rectangle() {
    let mut canvas = Canvas::new(8, 8, 40);
    canvas.color(11, 22, 33);

    canvas.rect((2, 1), (5, 3));

    assert_eq!(
        painted_pixels(&canvas),
        vec![(2, 1), (3, 1), (4, 1), (2, 2), (3, 2), (4, 2)]
    );
    assert_eq!(pixel(&canvas, 4, 2), (33, 22, 11, 0));
}

#[test]
fn rect_can_fill_the_whole_canvas() {
    let mut canvas = Canvas::new(3, 2, 16);
    canvas.color(1, 1, 1);

    canvas.rect((0, 0), (3, 2));

    assert_eq!(painted_pixels(&canvas).len(), 6);
    let frame = canvas.draw();
    assert_eq!(&frame[12..16], &[0, 0, 0, 0]);
    assert_eq!(&frame[28..32], &[0, 0, 0, 0]);
}

#[test]
fn rect_draws_nothing_for_an_empty_rectangle() {
    let mut canvas = Canvas::new(8, 8, 32);

    canvas.rect((3, 3), (3, 7));
    canvas.rect((3, 3), (7, 3));
    canvas.rect((7, 7), (2, 2));
    canvas.rect((50, 1), (40, 90));

    assert!(painted_pixels(&canvas).is_empty());
}

#[test]
fn line_draws_a_level_line_without_its_last_pixel() {
    let mut canvas = Canvas::new(8, 8, 32);
    canvas.color(66, 134, 244);

    canvas.line((1, 3), (6, 3));

    assert_eq!(painted_pixels(&canvas), vec![(1, 3), (2, 3), (3, 3), (4, 3), (5, 3)]);
    assert_eq!(pixel(&canvas, 1, 3), (244, 134, 66, 0));
}

#[test]
fn line_rounds_a_rising_line_down() {
    let mut canvas = Canvas::new(10, 10, 40);

    canvas.line((0, 0), (4, 2));

    assert_eq!(painted_pixels(&canvas), vec![(0, 0), (1, 0), (2, 1), (3, 1)]);
}

#[test]
fn line_follows_a_diagonal() {
    let mut canvas = Canvas::new(10, 10, 40);

    canvas.line((2, 3), (6, 7));

    assert_eq!(painted_pixels(&canvas), vec![(2, 3), (3, 4), (4, 5), (5, 6)]);
}

#[test]
fn line_leaves_gaps_on_a_steep_slope() {
    let mut canvas = Canvas::new(10, 10, 40);

    canvas.line((1, 0), (3, 8));

    assert_eq!(painted_pixels(&canvas), vec![(1, 0), (2, 4)]);
}

#[test]
fn line_follows_a_falling_line() {
    let mut canvas = Canvas::new(10, 10, 40);

    canvas.line((0, 3), (3, 0));

    assert_eq!(painted_pixels(&canvas), vec![(2, 1), (1, 2), (0, 3)]);
}

#[test]
fn line_draws_nothing_from_right_to_left_or_upright() {
    let mut canvas = Canvas::new(10, 10, 40);

    canvas.line((5, 1), (5, 9));
    canvas.line((6, 1), (2, 1));

    assert!(painted_pixels(&canvas).is_empty());
}

#[test]
fn cell_fills_the_tile_with_its_bytes_in_order() {
    let sprite = Sprite::cell((1, 2, 3));
    let rows = sprite.rows();

    assert_eq!(rows.len(), 25);
    for row in rows {
        assert_eq!(row.len(), 100);
        for quad in row.chunks(4) {
            assert_eq!(quad, &[1, 2, 3, 0]);
        }
    }
}

#[test]
fn body_tile_is_green() {
    let sprite = Sprite::body();

    assert_eq!(TILE_SIZE, 25);
    for y in 0..25 {
        for x in 0..25 {
            assert_eq!(tile_pixel(&sprite, x, y), (0, 255, 0, 0));
        }
    }
}

fn assert_head(sprite: &Sprite, marked: &dyn Fn(usize, usize) -> bool) {
    assert_eq!(sprite.rows().len(), 25);
    for y in 0..25 {
        assert_eq!(sprite.rows()[y].len(), 100);
        for x in 0..25 {
            let expected = if marked(x, y) { (255, 0, 0, 0) } else { (0, 255, 255, 0) };
            assert_eq!(tile_pixel(sprite, x, y), expected, "pixel ({}, {})", x, y);
        }
    }
}

#[test]
fn head_left_has_its_marks_near_the_left_edge() {
    assert_head(&Sprite::head_left(), &|x, y| {
        (5..9).contains(&x) && ((5..9).contains(&y) || (17..21).contains(&y))
    });
}

#[test]
fn head_right_has_its_marks_near_the_right_edge() {
    assert_head(&Sprite::head_right(), &|x, y| {
        (16..20).contains(&x) && ((5..9).contains(&y) || (17..21).contains(&y))
    });
}

#[test]
fn head_up_has_its_marks_near_the_top_edge() {
    assert_head(&Sprite::head_up(), &|x, y| {
        ((5..9).contains(&x) || (16..20).contains(&x)) && (5..9).contains(&y)
    });
}

#[test]
fn head_down_has_its_marks_near_the_bottom_edge() {
    assert_head(&Sprite::head_down(), &|x, y| {
        ((5..9).contains(&x) || (16..20).contains(&x)) && (17..21).contains(&y)
    });
}

#[test]
fn the_tiles_all_differ() {
    let tiles = [
        Sprite::head_left(),
        Sprite::head_right(),
        Sprite::head_up(),
        Sprite::head_down(),
        Sprite::body(),
    ];
    for i in 0..tiles.len() {
        for j in 0..tiles.len() {
            if i != j {
                assert_ne!(tiles[i].rows(), tiles[j].rows());
            }
        }
    }
    for head in &tiles[..4] {
        for y in 0..25 {
            for x in 0..25 {
                assert_ne!(tile_pixel(head, x, y), (0, 255, 0, 0));
            }
        }
    }
}

#[test]
fn sprite_to_copies_the_rows_of_the_tile() {
    let mut canvas = Canvas::new(40, 30, 172);
    let sprite = Sprite::head_left();

    canvas.sprite_to(10, 3, &sprite);

    let frame = canvas.draw();
    for y in 0..30usize {
        for b in 0..172usize {
            let byte = frame[y * 172 + b];
            if (3..28).contains(&y) && (40..140).contains(&b) {
                assert_eq!(byte, sprite.rows()[y - 3][b - 40]);
            } else {
                assert_eq!(byte, 0);
            }
        }
    }
    assert_eq!(pixel(&canvas, 15, 8), (255, 0, 0, 0));
    assert_eq!(pixel(&canvas, 10, 3), (0, 255, 255, 0));
}

#[test]
fn sprite_to_fits_into_the_last_corner() {
    let mut canvas = Canvas::new(25, 25, 100);

    canvas.sprite_to(0, 0, &Sprite::body());

    let frame = canvas.draw();
    assert_eq!(frame.len(), 2500);
    for quad in frame.chunks(4) {
        assert_eq!(quad, &[0, 255, 0, 0]);
    }
}

#[test]
fn sprite_to_zeroes_the_fourth_byte_and_ignores_the_colour() {
    let mut canvas = Canvas::new(30, 30, 120);
    canvas.color(9, 9, 9);
    canvas.rect((0, 0), (30, 30));

    canvas.sprite_to(5, 5, &Sprite::body());

    assert_eq!(pixel(&canvas, 5, 5), (0, 255, 0, 0));
    assert_eq!(pixel(&canvas, 29, 29), (0, 255, 0, 0));
    assert_eq!(pixel(&canvas, 4, 5), (9, 9, 9, 0));
    assert_eq!(pixel(&canvas, 5, 4), (9, 9, 9, 0));
}

#[test]
fn a_later_sprite_covers_an_earlier_one() {
    let mut canvas = Canvas::new(60, 30, 240);

    canvas.sprite_to(0, 0, &Sprite::head_right());
    canvas.sprite_to(10, 2, &Sprite::body());

    assert_eq!(pixel(&canvas, 0, 0), (0, 255, 255, 0));
    assert_eq!(pixel(&canvas, 9, 5), (0, 255, 255, 0));
    assert_eq!(pixel(&canvas, 16, 5), (0, 255, 0, 0));
    assert_eq!(pixel(&canvas, 16, 1), (0, 255, 255, 0));
    assert_eq!(pixel(&canvas, 34, 26), (0, 255, 0, 0));
}
