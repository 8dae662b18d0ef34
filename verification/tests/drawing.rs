use renderer::color::Color32;
use renderer::depth::DepthBuffer;
use renderer::drawing;
use renderer::drawing::{line_from_vertices, plot, triangle, Texture};
use renderer::point::{Point2D, Point3D};
use renderer::tga::TGAFile;

const BLACK: u32 = 0x0000_00ff;
const WHITE: u32 = 0xffff_ffff;
const RED: u32 = 0xff00_00ff;

fn white() -> Color32 {
    Color32::new(255, 255, 255, 255)
}

fn point(x: i32, y: i32, z: i32) -> Point3D {
    Point3D { x, y, z }
}

fn drawn(image: &TGAFile, value: u32) -> Vec<(u16, u16)> {
    let mut all = Vec::new();
    for y in 0..image.get_height() {
        for x in 0..image.get_width() {
            if image.get(x, y).unwrap().get_pixel_value() == value {
                all.push((x, y));
            }
        }
    }
    all.sort();
    all
}

fn sorted(mut points: Vec<(u16, u16)>) -> Vec<(u16, u16)> {
    points.sort();
    points
}

fn line_pixels(x0: u16, y0: u16, x1: u16, y1: u16) -> Vec<(u16, u16)> {
    let mut image = TGAFile::new(32, 32);
    drawing::line(x0, y0, x1, y1, &mut image, &white());
    drawn(&image, WHITE)
}

#[test]
fn shallow_line_steps_at_its_last_pixel() {
    assert_eq!(line_pixels(0, 0, 4, 1), sorted(vec![(0, 0), (1, 0), (2, 0), (3, 0), (4, 1)]));
}

#[test]
fn diagonal_line_steps_with_every_pixel() {
    assert_eq!(line_pixels(0, 0, 3, 3), sorted(vec![(0, 0), (1, 1), (2, 2), (3, 3)]));
}

#[test]
fn steep_line_is_driven_by_y() {
    assert_eq!(line_pixels(0, 0, 1, 4), sorted(vec![(0, 0), (0, 1), (0, 2), (0, 3), (1, 4)]));
}

#[test]
fn line_runs_toward_smaller_coordinates() {
    assert_eq!(line_pixels(4, 1, 0, 0), sorted(vec![(4, 1), (3, 1), (2, 1), (1, 1), (0, 0)]));
    assert_eq!(line_pixels(3, 0, 0, 3), sorted(vec![(3, 0), (2, 1), (1, 2), (0, 3)]));
}

#[test]
fn line_of_one_pixel() {
    assert_eq!(line_pixels(5, 6, 5, 6), vec![(5, 6)]);
}

#[test]
fn horizontal_and_vertical_lines() {
    assert_eq!(line_pixels(2, 3, 5, 3), sorted(vec![(2, 3), (3, 3), (4, 3), (5, 3)]));
    assert_eq!(line_pixels(3, 5, 3, 2), sorted(vec![(3, 2), (3, 3), (3, 4), (3, 5)]));
}

#[test]
fn line_steps_when_the_slopes_add_up_to_one() {
    let pixels = line_pixels(0, 0, 20, 2);
    assert_eq!(pixels.len(), 21);
    assert!(pixels.contains(&(9, 0)));
    assert!(pixels.contains(&(10, 1)));
    assert!(pixels.contains(&(19, 1)));
    assert!(pixels.contains(&(20, 2)));
}

#[test]
fn line_of_slope_two_thirds() {
    assert_eq!(
        line_pixels(0, 0, 6, 4),
        sorted(vec![(0, 0), (1, 0), (2, 1), (3, 2), (4, 2), (5, 3), (6, 4)])
    );
}

#[test]
fn line_leaves_other_pixels_alone() {
    let mut image = TGAFile::new(6, 3);
    image.set(5, 2, &Color32::new(1, 2, 3, 4)).unwrap();
    drawing::line(0, 0, 4, 1, &mut image, &white());
    assert_eq!(drawn(&image, WHITE).len(), 5);
    assert_eq!(drawn(&image, BLACK).len(), 12);
    assert_eq!(image.get(5, 2).unwrap(), Color32::new(1, 2, 3, 4));
}

#[test]
fn line_between_vertices_uses_their_pixels() {
    let mut image = TGAFile::new(8, 8);
    line_from_vertices(point(0, 0, 9), point(3, 3, -9), &mut image, &white());
    assert_eq!(drawn(&image, WHITE), sorted(vec![(0, 0), (1, 1), (2, 2), (3, 3)]));
}

#[test]
fn flat_triangle_fills_what_it_covers() {
    let mut image = TGAFile::new(6, 6);
    triangle(point(0, 0, 0), point(4, 0, 0), point(0, 4, 0), None, &mut image, None, &white());
    assert_eq!(image.get(1, 1).unwrap().get_pixel_value(), WHITE);
    assert_eq!(image.get(4, 4).unwrap().get_pixel_value(), BLACK);
    let mut expected = Vec::new();
    for y in 0..=4u16 {
        for x in 0..=4u16 {
            if x + y <= 4 {
                expected.push((x, y));
            }
        }
    }
    assert_eq!(drawn(&image, WHITE), sorted(expected));
}

#[test]
fn triangle_fills_the_same_whichever_way_it_winds() {
    let mut one = TGAFile::new(8, 8);
    let mut other = TGAFile::new(8, 8);
    triangle(point(1, 1, 0), point(6, 2, 0), point(3, 7, 0), None, &mut one, None, &white());
    triangle(point(1, 1, 0), point(3, 7, 0), point(6, 2, 0), None, &mut other, None, &white());
    assert_eq!(drawn(&one, WHITE), drawn(&other, WHITE));
    assert!(drawn(&one, WHITE).contains(&(3, 3)));
    assert!(drawn(&one, WHITE).contains(&(1, 1)));
    assert!(!drawn(&one, WHITE).contains(&(6, 6)));
}

#[test]
fn triangle_is_cut_at_the_edge_of_the_image() {
    let mut image = TGAFile::new(3, 3);
    triangle(point(-2, -2, 0), point(10, -2, 0), point(-2, 10, 0), None, &mut image, None, &white());
    assert_eq!(drawn(&image, WHITE).len(), 9);
    let mut outside = TGAFile::new(3, 3);
    triangle(point(5, 5, 0), point(9, 5, 0), point(5, 9, 0), None, &mut outside, None, &white());
    assert_eq!(drawn(&outside, WHITE).len(), 0);
}

#[test]
fn nearer_triangle_wins_and_ties_lose() {
    let mut image = TGAFile::new(6, 6);
    let mut depths = DepthBuffer::new(6, 6);
    let first = Color32::new(10, 0, 0, 255);
    let second = Color32::new(0, 20, 0, 255);
    let third = Color32::new(0, 0, 30, 255);
    let tie = Color32::new(40, 40, 40, 255);
    triangle(point(0, 0, 5), point(4, 0, 5), point(0, 4, 5), None, &mut image, Some(&mut depths), &first);
    assert_eq!(image.get(1, 1).unwrap(), first);
    assert_eq!(depths.get(1, 1).unwrap(), 5);
    triangle(point(0, 0, 3), point(4, 0, 3), point(0, 4, 3), None, &mut image, Some(&mut depths), &second);
    assert_eq!(image.get(1, 1).unwrap(), first);
    assert_eq!(depths.get(1, 1).unwrap(), 5);
    triangle(point(0, 0, 5), point(4, 0, 5), point(0, 4, 5), None, &mut image, Some(&mut depths), &tie);
    assert_eq!(image.get(1, 1).unwrap(), first);
    triangle(point(0, 0, 7), point(4, 0, 7), point(0, 4, 7), None, &mut image, Some(&mut depths), &third);
    assert_eq!(image.get(1, 1).unwrap(), third);
    assert_eq!(depths.get(1, 1).unwrap(), 7);
    assert_eq!(depths.get(4, 4).unwrap(), i64::MIN);
    assert_eq!(image.get(4, 4).unwrap().get_pixel_value(), BLACK);
}

#[test]
fn depth_is_the_weighted_mean_of_the_vertices() {
    let mut image = TGAFile::new(6, 6);
    let mut depths = DepthBuffer::new(6, 6);
    triangle(point(0, 0, 0), point(4, 0, 40), point(0, 4, 80), None, &mut image, Some(&mut depths), &white());
    assert_eq!(depths.get(0, 0).unwrap(), 0);
    assert_eq!(depths.get(4, 0).unwrap(), 40);
    assert_eq!(depths.get(0, 4).unwrap(), 80);
    assert_eq!(depths.get(1, 1).unwrap(), 30);
    assert_eq!(depths.get(2, 1).unwrap(), 40);
    let mut rounded = DepthBuffer::new(6, 6);
    triangle(point(0, 0, 0), point(3, 0, 1), point(0, 3, 1), None, &mut image, Some(&mut rounded), &white());
    assert_eq!(rounded.get(1, 0).unwrap(), 0);
    assert_eq!(rounded.get(1, 1).unwrap(), 0);
    assert_eq!(rounded.get(2, 1).unwrap(), 1);
    let mut negative = DepthBuffer::new(6, 6);
    triangle(point(0, 0, 0), point(3, 0, -1), point(0, 3, -1), None, &mut image, Some(&mut negative), &white());
    assert_eq!(negative.get(1, 0).unwrap(), -1);
    assert_eq!(negative.get(0, 0).unwrap(), 0);
}

#[test]
fn degenerate_triangle_is_outlined_in_red() {
    let mut image = TGAFile::new(8, 8);
    let mut depths = DepthBuffer::new(8, 8);
    triangle(point(1, 2, 9), point(5, 2, 9), point(3, 2, 9), None, &mut image, Some(&mut depths), &white());
    assert_eq!(drawn(&image, RED), sorted(vec![(1, 2), (2, 2), (3, 2), (4, 2), (5, 2)]));
    assert_eq!(drawn(&image, WHITE).len(), 0);
    for y in 0..8 {
        for x in 0..8 {
            assert_eq!(depths.get(x, y).unwrap(), i64::MIN);
        }
    }
    let mut upright = TGAFile::new(8, 8);
    triangle(point(4, 0, 0), point(4, 6, 0), point(4, 3, 0), None, &mut upright, None, &white());
    assert_eq!(drawn(&upright, RED).len(), 7);
    assert_eq!(drawn(&upright, WHITE).len(), 0);
    let mut slanted = TGAFile::new(8, 8);
    triangle(point(0, 0, 0), point(2, 2, 0), point(5, 5, 0), None, &mut slanted, None, &white());
    assert_eq!(
        drawn(&slanted, RED),
        sorted(vec![(0, 0), (1, 1), (2, 2), (3, 3), (4, 4), (5, 5)])
    );
}

#[test]
fn outline_skips_edges_that_leave_the_image() {
    let mut image = TGAFile::new(4, 4);
    triangle(point(1, 1, 0), point(3, 1, 0), point(9, 1, 0), None, &mut image, None, &white());
    assert_eq!(drawn(&image, RED), sorted(vec![(1, 1), (2, 1), (3, 1)]));
}

#[test]
fn texture_is_sampled_at_the_weighted_mean() {
    let mut texture = TGAFile::new(5, 5);
    for y in 0..5 {
        for x in 0..5 {
            texture.set(x, y, &Color32::new(x as u8, y as u8, 7, 255)).unwrap();
        }
    }
    let mut image = TGAFile::new(5, 5);
    let mapped = Texture {
        image: &texture,
        t0: Point2D { x: 0, y: 0 },
        t1: Point2D { x: 4, y: 0 },
        t2: Point2D { x: 0, y: 4 },
    };
    triangle(point(0, 0, 0), point(4, 0, 0), point(0, 4, 0), Some(&mapped), &mut image, None, &white());
    for y in 0..5u16 {
        for x in 0..5u16 {
            let expected = if x + y <= 4 {
                Color32::new(x as u8, y as u8, 7, 255)
            } else {
                Color32::new(0, 0, 0, 255)
            };
            assert_eq!(image.get(x, y).unwrap(), expected);
        }
    }
    let mut halved = TGAFile::new(5, 5);
    let small = Texture {
        image: &texture,
        t0: Point2D { x: 0, y: 0 },
        t1: Point2D { x: 2, y: 0 },
        t2: Point2D { x: 0, y: 2 },
    };
    triangle(point(0, 0, 0), point(4, 0, 0), point(0, 4, 0), Some(&small), &mut halved, None, &white());
    assert_eq!(halved.get(3, 1).unwrap(), Color32::new(1, 0, 7, 255));
    assert_eq!(halved.get(2, 2).unwrap(), Color32::new(1, 1, 7, 255));
}

#[test]
fn plot_draws_only_what_is_nearer() {
    let mut image = TGAFile::new(2, 2);
    let mut depths = DepthBuffer::new(2, 2);
    let near = Color32::new(1, 1, 1, 255);
    let far = Color32::new(2, 2, 2, 255);
    assert!(plot(&mut image, &mut depths, 1, 0, i64::MIN + 1, &far));
    assert_eq!(image.get(1, 0).unwrap(), far);
    assert!(plot(&mut image, &mut depths, 1, 0, 4, &near));
    assert!(!plot(&mut image, &mut depths, 1, 0, 4, &far));
    assert!(!plot(&mut image, &mut depths, 1, 0, -4, &far));
    assert_eq!(image.get(1, 0).unwrap(), near);
    assert_eq!(depths.get(1, 0).unwrap(), 4);
    assert_eq!(depths.get(0, 0).unwrap(), i64::MIN);
}

#[test]
fn depth_buffer_starts_farthest_and_checks_its_bounds() {
    let mut depths = DepthBuffer::new(3, 2);
    assert_eq!(depths.get_width(), 3);
    assert_eq!(depths.get_height(), 2);
    assert_eq!(depths.get(2, 1).unwrap(), i64::MIN);
    assert!(depths.set(2, 1, 9).is_ok());
    assert_eq!(depths.get(2, 1).unwrap(), 9);
    assert_eq!(depths.get(1, 1).unwrap(), i64::MIN);
    assert_eq!(
        depths.set(3, 0, 1).unwrap_err(),
        "Invalid x value 3. It is greater than the width of the image."
    );
    assert_eq!(
        depths.get(0, 2).unwrap_err(),
        "Invalid y value 2. It is greater than the height of the image."
    );
}

#[test]
fn triangle_with_far_apart_vertices() {
    let mut image = TGAFile::new(4, 4);
    let mut depths = DepthBuffer::new(4, 4);
    triangle(
        point(i32::MIN, i32::MIN, i32::MIN),
        point(i32::MAX, i32::MIN, i32::MAX),
        point(i32::MAX, i32::MAX, i32::MAX),
        None,
        &mut image,
        Some(&mut depths),
        &white(),
    );
    let mut expected = Vec::new();
    for y in 0..4u16 {
        for x in y..4u16 {
            expected.push((x, y));
        }
    }
    assert_eq!(drawn(&image, WHITE), sorted(expected));
    assert_eq!(depths.get(0, 0).unwrap(), 0);
    assert_eq!(depths.get(3, 0).unwrap(), 3);
    assert_eq!(depths.get(0, 3).unwrap(), i64::MIN);
}
