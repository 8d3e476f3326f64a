use game_of_life::grid::Grid;
use game_of_life::render::update_buffer;
use game_of_life::render::CELL_SIZE;
use game_of_life::render::DEAD_COLOR;
use game_of_life::render::LIVE_COLOR;

#[test]
fn colors_and_cell_size_are_fixed() {
    assert_eq!(CELL_SIZE, 10);
    assert_eq!(DEAD_COLOR, 0x393E46);
    assert_eq!(LIVE_COLOR, 0x00ADB5);
}

#[test]
fn every_pixel_shows_its_cell() {
    let mut grid = Grid::new(3, 2).unwrap();
    grid.set_alive(1, 0);
    grid.set_alive(2, 1);
    let width = 3 * CELL_SIZE;
    let height = 2 * CELL_SIZE;
    let mut buffer = vec![0u32; width * height];
    update_buffer(&mut buffer, &grid);
    for py in 0..height {
        for px in 0..width {
            let cell = (px / CELL_SIZE, py / CELL_SIZE);
            let expected = if cell == (1, 0) || cell == (2, 1) { LIVE_COLOR } else { DEAD_COLOR };
            assert_eq!(buffer[py * width + px], expected, "pixel ({}, {})", px, py);
        }
    }
}

#[test]
fn block_edges_fall_on_multiples_of_the_cell_size() {
    let mut grid = Grid::new(2, 2).unwrap();
    grid.set_alive(1, 1);
    let mut buffer = vec![7u32; 400];
    update_buffer(&mut buffer, &grid);
    assert_eq!(buffer[9 * 20 + 9], DEAD_COLOR);
    assert_eq!(buffer[10 * 20 + 9], DEAD_COLOR);
    assert_eq!(buffer[9 * 20 + 10], DEAD_COLOR);
    assert_eq!(buffer[10 * 20 + 10], LIVE_COLOR);
    assert_eq!(buffer[19 * 20 + 19], LIVE_COLOR);
    assert_eq!(buffer.iter().filter(|&&c| c == LIVE_COLOR).count(), 100);
    assert_eq!(buffer.iter().filter(|&&c| c == DEAD_COLOR).count(), 300);
}

#[test]
fn what_lies_beyond_the_picture_is_kept() {
    let grid = Grid::new(1, 1).unwrap();
    let mut buffer = vec![42u32; 105];
    update_buffer(&mut buffer, &grid);
    assert_eq!(buffer.len(), 105);
    for i in 0..100 {
        assert_eq!(buffer[i], DEAD_COLOR);
    }
    for i in 100..105 {
        assert_eq!(buffer[i], 42);
    }
}

#[test]
fn repainting_follows_the_grid() {
    let mut grid = Grid::new(1, 1).unwrap();
    let mut buffer = vec![0u32; 100];
    grid.set_alive(0, 0);
    update_buffer(&mut buffer, &grid);
    assert!(buffer.iter().all(|&c| c == LIVE_COLOR));
    grid.step();
    update_buffer(&mut buffer, &grid);
    assert!(buffer.iter().all(|&c| c == DEAD_COLOR));
}
