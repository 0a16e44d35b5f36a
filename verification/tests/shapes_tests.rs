use tetris_cli::game::Tetromino;
use tetris_cli::shapes::{color_from_index, generate_bag, shape};

#[test]
fn test_generate_bag_is_permutation() {
    for _ in 0..20 {
        let bag = generate_bag();
        assert_eq!(bag.len(), 7);
        let mut counts = [0usize; 7];
        for &k in bag.iter() {
            assert!(k < 7);
            counts[k] += 1;
        }
        for k in 0..7 {
            assert_eq!(counts[k], 1);
        }
    }
}

#[test]
fn test_color_palette_mapping() {
    assert_eq!(color_from_index(0), crossterm::style::Color::Cyan);
    assert_eq!(color_from_index(1), crossterm::style::Color::Yellow);
    assert_eq!(color_from_index(2), crossterm::style::Color::Magenta);
    assert_eq!(color_from_index(3), crossterm::style::Color::Green);
    assert_eq!(color_from_index(4), crossterm::style::Color::Red);
    assert_eq!(color_from_index(5), crossterm::style::Color::Blue);
    assert_eq!(color_from_index(6), crossterm::style::Color::DarkYellow);
    assert_eq!(color_from_index(9), crossterm::style::Color::White);
}

#[test]
fn test_shape_catalog() {
    let i_shape = shape(0);
    assert_eq!(i_shape.name, 'I');
    assert_eq!(i_shape.color_index, 0);
    assert_eq!(i_shape.orientations.len(), 4);
    assert_eq!(i_shape.orientations[0], vec![(0, 1), (1, 1), (2, 1), (3, 1)]);
    assert_eq!(i_shape.orientations[1], vec![(2, 0), (2, 1), (2, 2), (2, 3)]);
    let o_shape = shape(1);
    assert_eq!(o_shape.name, 'O');
    assert_eq!(o_shape.orientations[0], vec![(0, 0), (1, 0), (0, 1), (1, 1)]);
    let names: Vec<char> = (0..7).map(|k| shape(k).name).collect();
    assert_eq!(names, vec!['I', 'O', 'T', 'S', 'Z', 'J', 'L']);
    // Each kind has a distinct color code.
    let mut codes: Vec<u8> = (0..7).map(|k| shape(k).color_index).collect();
    codes.sort();
    codes.dedup();
    assert_eq!(codes.len(), 7);
}

#[test]
fn test_piece_positions_and_rotation() {
    let mut p = Tetromino { shape_idx: 0, orientation: 0, x: 3, y: 5 };
    assert_eq!(p.positions(), vec![(3, 6), (4, 6), (5, 6), (6, 6)]);
    assert_eq!(p.name(), 'I');
    p.rotate_cw();
    assert_eq!(p.orientation, 1);
    p.rotate_cw();
    p.rotate_cw();
    p.rotate_cw();
    assert_eq!(p.orientation, 0);
    p.rotate_ccw();
    assert_eq!(p.orientation, 3);
    assert_eq!(p.positions(), vec![(4, 5), (4, 6), (4, 7), (4, 8)]);
}
