use fractal_explorer::color::Rgb;
use fractal_explorer::render::{render_chunk, CoordinateColor, Renderer, DEFAULT_CHUNK_COUNT};
use fractal_explorer::utils::Direction;

fn expected_color(x: usize, y: usize) -> Rgb {
    Rgb((x % 256) as u8, (y % 256) as u8, ((x + y) % 256) as u8)
}

#[test]
fn single_worker_render_equals_scalar_computation() {
    let width = 10;
    let height = 7;
    let frame = Renderer::with_chunk_count(1).render(width, height, &CoordinateColor);
    assert_eq!(frame.len(), width * height);
    for y in 0..height {
        for x in 0..width {
            assert_eq!(frame[y * width + x], expected_color(x, y));
        }
    }
}

#[test]
fn worker_count_does_not_change_the_frame() {
    let width = 33;
    let height = 21;
    let reference = Renderer::with_chunk_count(1).render(width, height, &CoordinateColor);
    for workers in [2, 3, 5, 8, 64] {
        let frame = Renderer::with_chunk_count(workers).render(width, height, &CoordinateColor);
        assert_eq!(frame, reference);
    }
    let default_frame = Renderer::new().render(width, height, &CoordinateColor);
    assert_eq!(default_frame, reference);
}

#[test]
fn rendering_twice_is_deterministic() {
    let renderer = Renderer::new();
    let first = renderer.render(64, 48, &CoordinateColor);
    let second = renderer.render(64, 48, &CoordinateColor);
    assert_eq!(first, second);
}

#[test]
fn more_workers_than_rows_is_fine() {
    let width = 5;
    let height = 3;
    let frame = Renderer::with_chunk_count(DEFAULT_CHUNK_COUNT).render(
        width,
        height,
        &CoordinateColor,
    );
    assert_eq!(frame.len(), width * height);
    for y in 0..height {
        for x in 0..width {
            assert_eq!(frame[y * width + x], expected_color(x, y));
        }
    }
}

#[test]
fn partial_trailing_batch_is_truncated() {
    // 3 x 3 = 9 pixels: one full lane batch plus a single-pixel remainder.
    let width = 3;
    let height = 3;
    let frame = Renderer::with_chunk_count(1).render(width, height, &CoordinateColor);
    assert_eq!(frame.len(), 9);
    assert_eq!(frame[8], expected_color(2, 2));
}

#[test]
fn render_chunk_produces_exactly_its_band() {
    let width = 5;
    let band = render_chunk(&CoordinateColor, width, 2, 4);
    assert_eq!(band.len(), 2 * width);
    for row in 0..2 {
        for x in 0..width {
            assert_eq!(band[row * width + x], expected_color(x, row + 2));
        }
    }
}

#[test]
fn direction_units_span_the_axes() {
    assert_eq!(Direction::Up.unit(), (0, 1));
    assert_eq!(Direction::Down.unit(), (0, -1));
    assert_eq!(Direction::Left.unit(), (-1, 0));
    assert_eq!(Direction::Right.unit(), (1, 0));
}
