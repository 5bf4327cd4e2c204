use raytracer::frame::{check_viewport, render, render_pixels, RenderError};
use raytracer::hit::DistanceError;

const RED: [u8; 4] = [255, 0, 0, 255];
const GREEN: [u8; 4] = [0, 255, 0, 255];

fn hit(d: f64) -> Option<u64> {
    Some(d.to_bits())
}

#[test]
fn landscape_viewport_is_accepted() {
    assert_eq!(check_viewport(200, 100), Ok(()));
    assert_eq!(check_viewport(2, 1), Ok(()));
}

#[test]
fn square_or_portrait_viewport_is_refused() {
    assert_eq!(check_viewport(100, 100), Err(RenderError::NotLandscape));
    assert_eq!(check_viewport(50, 100), Err(RenderError::NotLandscape));
    assert_eq!(check_viewport(0, 0), Err(RenderError::NotLandscape));
}

#[test]
fn pixels_take_nearest_colour_or_background() {
    let rows = vec![
        vec![hit(3.0), hit(7.0)],
        vec![None, None],
        vec![hit(9.0), hit(2.0)],
        vec![None, hit(1.0)],
    ];
    let palette = vec![RED, GREEN];
    let bytes = render_pixels(&rows, &palette).unwrap();
    assert_eq!(
        bytes,
        vec![255, 0, 0, 255, 0, 0, 0, 0, 0, 255, 0, 255, 0, 255, 0, 255]
    );
}

#[test]
fn black_object_differs_from_background() {
    let rows = vec![vec![hit(1.0)], vec![None]];
    let bytes = render_pixels(&rows, &vec![[0, 0, 0, 255]]).unwrap();
    assert_eq!(bytes, vec![0, 0, 0, 255, 0, 0, 0, 0]);
}

#[test]
fn empty_scene_renders_background() {
    let rows: Vec<Vec<Option<u64>>> = vec![vec![]; 6];
    let img = render(3, 2, &rows, &vec![]).unwrap();
    let buf = img.as_rgba8().unwrap();
    assert_eq!(buf.width(), 3);
    assert_eq!(buf.height(), 2);
    assert!(buf.as_raw().iter().all(|b| *b == 0));
    assert_eq!(buf.as_raw().len(), 24);
}

#[test]
fn first_faulty_pixel_fails_the_frame() {
    let rows = vec![
        vec![hit(1.0)],
        vec![hit(f64::NAN)],
        vec![hit(-1.0)],
    ];
    assert_eq!(render_pixels(&rows, &vec![RED]), Err(DistanceError::NotANumber));
    let r = render(3, 1, &rows, &vec![RED]);
    assert_eq!(r.err(), Some(RenderError::Distance(DistanceError::NotANumber)));
}

#[test]
fn portrait_frame_is_refused_before_rendering() {
    let rows = vec![vec![hit(1.0)]; 2];
    let r = render(1, 2, &rows, &vec![RED]);
    assert_eq!(r.err(), Some(RenderError::NotLandscape));
}

#[test]
fn image_holds_pixels_in_row_major_order() {
    // 3 by 2: only pixel (2, 0) and pixel (1, 1) hit something.
    let mut rows = vec![vec![None, None]; 6];
    rows[2] = vec![hit(4.0), None];
    rows[4] = vec![hit(6.0), hit(5.0)];
    let img = render(3, 2, &rows, &vec![RED, GREEN]).unwrap();
    let buf = img.as_rgba8().unwrap();
    assert_eq!(buf.get_pixel(2, 0).0, RED);
    assert_eq!(buf.get_pixel(1, 1).0, GREEN);
    assert_eq!(buf.get_pixel(0, 0).0, [0, 0, 0, 0]);
    assert_eq!(buf.get_pixel(2, 1).0, [0, 0, 0, 0]);
}

fn primary_direction(x: u32, y: u32, width: u32, height: u32, fov: f64) -> [f64; 3] {
    let aspect = width as f64 / height as f64;
    let adj = (fov.to_radians() / 2.0).tan();
    let sx = ((x as f64 + 0.5) / width as f64 * 2.0 - 1.0) * aspect * adj;
    let sy = -((y as f64 + 0.5) / height as f64 * 2.0 - 1.0) * adj;
    let len = (sx * sx + sy * sy + 1.0).sqrt();
    [sx / len, sy / len, -1.0 / len]
}

fn sphere_distance(dir: [f64; 3], centre: [f64; 3], radius: f64) -> Option<f64> {
    let tca = dir[0] * centre[0] + dir[1] * centre[1] + dir[2] * centre[2];
    let c2 = centre[0] * centre[0] + centre[1] * centre[1] + centre[2] * centre[2];
    let d2 = c2 - tca * tca;
    if d2 > radius * radius {
        return None;
    }
    let thc = (radius * radius - d2).sqrt();
    let t0 = tca - thc;
    let t1 = tca + thc;
    if t0 > 0.0 {
        Some(t0)
    } else if t1 > 0.0 {
        Some(t1)
    } else {
        None
    }
}

#[test]
fn sphere_on_axis_end_to_end() {
    let (width, height) = (100u32, 50u32);
    let mut rows = Vec::new();
    for y in 0..height {
        for x in 0..width {
            let dir = primary_direction(x, y, width, height, 90.0);
            let d = sphere_distance(dir, [0.0, 0.0, -5.0], 1.0);
            rows.push(vec![d.map(f64::to_bits)]);
        }
    }
    let img = render(width, height, &rows, &vec![RED]).unwrap();
    let buf = img.as_rgba8().unwrap();
    assert_eq!(buf.get_pixel(50, 25).0, [255, 0, 0, 255]);
    assert_eq!(buf.get_pixel(0, 0).0, [0, 0, 0, 0]);
}
