use biosimrust::challenge_area::{challenge_area_marks, stroke_pixel_list, AreaMark, Stroke};
use biosimrust::params::Params;
use biosimrust::simulator::{
    CHALLENGE_CORNER, CHALLENGE_EAST_WEST_EIGHTHS, CHALLENGE_PAIRS, CHALLENGE_RADIOACTIVE_WALLS, CHALLENGE_RIGHT_QUARTER,
};

fn small_params() -> Params {
    let mut p = Params::default();
    p.size_x = 4;
    p.size_y = 3;
    p.display_scale = 2;
    p
}

#[test]
fn challenge_marks_follow_the_challenge() {
    let mut p = Params::default();
    p.size_x = 128;
    p.size_y = 64;
    p.challenge = CHALLENGE_RIGHT_QUARTER;
    assert_eq!(challenge_area_marks(&p), vec![AreaMark::Stroke(Stroke::Column(96))]);
    p.challenge = CHALLENGE_EAST_WEST_EIGHTHS;
    assert_eq!(
        challenge_area_marks(&p),
        vec![AreaMark::Stroke(Stroke::Column(16)), AreaMark::Stroke(Stroke::Column(112))]
    );
    p.challenge = CHALLENGE_CORNER;
    let marks = challenge_area_marks(&p);
    assert_eq!(marks.len(), 4);
    assert_eq!(marks[3], AreaMark::Circle { x: 127, y: 63, radius_num: 128, radius_den: 8, gradient: false });
    p.challenge = CHALLENGE_RADIOACTIVE_WALLS;
    assert_eq!(challenge_area_marks(&p).len(), 4);
    p.challenge = CHALLENGE_PAIRS;
    assert!(challenge_area_marks(&p).is_empty());
}

#[test]
fn a_column_stroke_covers_three_pixels_around_each_row() {
    let p = small_params();
    let px = stroke_pixel_list(Stroke::Column(2), &p);
    // Rows 0, 1, 2 sit at pixel rows 4, 2, 0; the last loses the row above the frame.
    assert_eq!(px.len(), 9 + 9 + 6);
    assert_eq!(px[0], (3, 3));
    assert_eq!(px[8], (5, 5));
    assert_eq!(px[18], (3, 0));
    assert!(px.iter().all(|&(x, y)| (3..=5).contains(&x) && y < 6));
}

#[test]
fn the_border_strokes_stay_inside_the_frame() {
    let p = small_params();
    let top = stroke_pixel_list(Stroke::Top, &p);
    let bottom = stroke_pixel_list(Stroke::Bottom, &p);
    let left = stroke_pixel_list(Stroke::Left, &p);
    let right = stroke_pixel_list(Stroke::Right, &p);
    assert_eq!((top.len(), bottom.len(), left.len(), right.len()), (33, 33, 24, 24));
    assert_eq!(top[0], (0, 0));
    assert!(top.iter().all(|&(x, y)| x < 8 && y < 3));
    assert!(bottom.iter().all(|&(x, y)| x < 8 && (3..6).contains(&y)));
    assert!(left.iter().all(|&(x, y)| x < 3 && y < 6));
    assert!(right.iter().all(|&(x, y)| (5..8).contains(&x) && y < 6));
    let mut empty = small_params();
    empty.display_scale = 0;
    assert!(stroke_pixel_list(Stroke::Top, &empty).is_empty());
}
