use mandelbrot::raster::{draw_mandelbrot_set, image_len, iter_area, put_pixel};

#[test]
fn cells_of_two_by_one() {
    assert_eq!(iter_area(2, 1), vec![(0, 0), (1, 0)]);
}

#[test]
fn cells_run_row_by_row() {
    assert_eq!(iter_area(3, 2), vec![(0, 0), (1, 0), (2, 0), (0, 1), (1, 1), (2, 1)]);
    assert_eq!(iter_area(1, 3), vec![(0, 0), (0, 1), (0, 2)]);
}

#[test]
fn cell_is_column_and_row_of_its_index() {
    let (w, h) = (7, 5);
    let cells = iter_area(w, h);
    assert_eq!(cells.len(), 35);
    for (i, cell) in cells.iter().enumerate() {
        assert_eq!(*cell, ((i as i32) % w, (i as i32) / w));
    }
}

#[test]
fn every_cell_once() {
    let (w, h) = (6, 4);
    let cells = iter_area(w, h);
    for y in 0..h {
        for x in 0..w {
            assert_eq!(cells.iter().filter(|c| **c == (x, y)).count(), 1);
            assert_eq!(cells[(y * w + x) as usize], (x, y));
        }
    }
}

#[test]
fn no_cells_without_a_positive_size() {
    assert_eq!(iter_area(0, 5), Vec::new());
    assert_eq!(iter_area(5, 0), Vec::new());
    assert_eq!(iter_area(0, 0), Vec::new());
    assert_eq!(iter_area(-1, 3), Vec::new());
    assert_eq!(iter_area(3, -1), Vec::new());
    assert_eq!(iter_area(-2, -3), Vec::new());
    assert_eq!(iter_area(i32::MIN, i32::MAX), Vec::new());
}

#[test]
fn image_len_is_four_bytes_a_pixel() {
    assert_eq!(image_len(800, 600), Some(1_920_000));
    assert_eq!(image_len(2, 1), Some(8));
    assert_eq!(image_len(1, 1), Some(4));
    assert_eq!(image_len(40000, 40000), Some(6_400_000_000));
}

#[test]
fn image_len_refuses_sizes_that_are_not_positive() {
    assert_eq!(image_len(0, 600), None);
    assert_eq!(image_len(800, 0), None);
    assert_eq!(image_len(-1, 600), None);
    assert_eq!(image_len(800, -1), None);
    assert_eq!(image_len(-2, -3), None);
}

#[test]
fn image_len_of_the_largest_grid() {
    let side = i32::MAX as u128;
    let bytes = side * side * 4;
    let expected = if bytes <= usize::MAX as u128 { Some(bytes as usize) } else { None };
    assert_eq!(image_len(i32::MAX, i32::MAX), expected);
}

#[test]
fn put_pixel_writes_four_bytes() {
    let mut img = vec![9u8; 12];
    put_pixel(&mut img, 1, [1, 2, 3, 4]);
    assert_eq!(img, vec![9, 9, 9, 9, 1, 2, 3, 4, 9, 9, 9, 9]);
    put_pixel(&mut img, 0, [5, 6, 7, 8]);
    assert_eq!(img, vec![5, 6, 7, 8, 1, 2, 3, 4, 9, 9, 9, 9]);
    put_pixel(&mut img, 2, [0, 0, 0, 255]);
    assert_eq!(img, vec![5, 6, 7, 8, 1, 2, 3, 4, 0, 0, 0, 255]);
}

#[test]
fn draws_each_count_in_its_colour() {
    let counts = vec![0, 1, 2, 16, 17, 10, 11];
    let mut img = vec![0u8; 28];
    draw_mandelbrot_set(10, &counts, &mut img);
    assert_eq!(
        img,
        vec![
            0, 0, 0, 255, 25, 7, 26, 255, 9, 1, 47, 255, 0, 0, 0, 255, 0, 0, 0, 255, 0, 0, 0,
            255, 0, 0, 0, 255,
        ]
    );
}

#[test]
fn draws_over_what_was_there() {
    let counts = vec![3, 0];
    let mut img = vec![77u8; 8];
    draw_mandelbrot_set(100, &counts, &mut img);
    assert_eq!(img, vec![4, 4, 73, 255, 0, 0, 0, 255]);
}

#[test]
fn bytes_behind_the_picture_stay() {
    let counts = vec![5];
    let mut img = vec![1u8, 2, 3, 4, 5, 6, 7];
    draw_mandelbrot_set(100, &counts, &mut img);
    assert_eq!(img, vec![12, 44, 138, 255, 5, 6, 7]);
}

#[test]
fn no_counts_draw_nothing() {
    let mut img = vec![1u8, 2, 3];
    draw_mandelbrot_set(100, &Vec::new(), &mut img);
    assert_eq!(img, vec![1, 2, 3]);
    let mut empty: Vec<u8> = Vec::new();
    draw_mandelbrot_set(100, &Vec::new(), &mut empty);
    assert_eq!(empty, Vec::<u8>::new());
}

#[test]
fn drawing_twice_gives_the_same_bytes() {
    let counts: Vec<i32> = (0..64).map(|i| (i * 7) % 40).collect();
    let mut first = vec![0u8; 256];
    let mut second = vec![255u8; 256];
    draw_mandelbrot_set(33, &counts, &mut first);
    draw_mandelbrot_set(33, &counts, &mut second);
    assert_eq!(first, second);
    let again = first.clone();
    draw_mandelbrot_set(33, &counts, &mut first);
    assert_eq!(first, again);
}

#[test]
fn picture_fills_a_buffer_of_image_len() {
    let (w, h) = (5, 3);
    let cells = iter_area(w, h);
    let counts: Vec<i32> = cells.iter().map(|&(x, y)| x + y).collect();
    let mut img = vec![7u8; image_len(w, h).unwrap()];
    assert_eq!(img.len(), 4 * counts.len());
    draw_mandelbrot_set(1000, &counts, &mut img);
    for (i, v) in counts.iter().enumerate() {
        assert_eq!(&img[4 * i..4 * i + 4], &mandelbrot::color(*v, 1000)[..]);
    }
}
