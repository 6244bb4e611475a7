use prime_spiral::generator::{prime_points_of, PointGenerator, PolarPoint};
use prime_spiral::render::render_marks;

/// Buffer position of a prime point, scaled to the canvas and centred.
fn canvas_position(p: &PolarPoint, width: u32, height: u32, num_points: u32) -> (u32, u32) {
    let canvas_size = width.min(height) as f32;
    let scale = canvas_size / (2.0 * num_points as f32);
    let r = p.radius as f32;
    let t = p.theta as f32;
    let x = r * t.cos();
    let y = r * t.sin();
    (
        ((x * scale) + canvas_size / 2.0) as u32,
        ((y * scale) + canvas_size / 2.0) as u32,
    )
}

fn render(width: u32, height: u32, num_points: u32) -> Vec<u8> {
    let marks: Vec<(u32, u32)> = prime_points_of(num_points)
        .iter()
        .map(|p| canvas_position(p, width, height, num_points))
        .collect();
    render_marks(width, height, &marks, 1)
}

#[test]
fn generator_state_is_the_step_count() {
    let mut generator = PointGenerator::default();
    for k in 1..=1000u32 {
        let p = generator.next_point();
        assert_eq!(p, PolarPoint { radius: k, theta: k });
    }
}

#[test]
fn prime_points_of_first_ten_steps() {
    let radii: Vec<u32> = prime_points_of(10).iter().map(|p| p.radius).collect();
    assert_eq!(radii, vec![2, 3, 5, 7]);
    assert!(prime_points_of(0).is_empty());
    assert!(prime_points_of(1).is_empty());
}

#[test]
fn render_without_points_is_blank() {
    let data = render(10, 10, 0);
    assert_eq!(data.len(), 400);
    assert!(data.iter().all(|b| *b == 0));
}

#[test]
fn render_five_points_snapshot() {
    let data = render(10, 10, 5);
    assert_eq!(data.len(), 400);
    let mut expected = vec![0u8; 400];
    for (x, y) in [(4usize, 6usize), (2, 5), (6, 0)] {
        let i = (y * 10 + x) * 4;
        expected[i..i + 4].copy_from_slice(&[85, 239, 196, 255]);
    }
    assert_eq!(data, expected);
}

#[test]
fn render_is_repeatable() {
    assert_eq!(render(10, 10, 5), render(10, 10, 5));
    assert_eq!(render(64, 48, 500), render(64, 48, 500));
}

#[test]
fn render_marks_draws_squares() {
    let data = render_marks(4, 4, &vec![(0, 0), (3, 3)], 2);
    let lit = [(0usize, 0usize), (1, 0), (0, 1), (1, 1), (3, 3)];
    for y in 0..4usize {
        for x in 0..4usize {
            let i = (y * 4 + x) * 4;
            if lit.contains(&(x, y)) {
                assert_eq!(&data[i..i + 4], &[85, 239, 196, 255][..]);
            } else {
                assert_eq!(&data[i..i + 4], &[0, 0, 0, 0][..]);
            }
        }
    }
}
