use softraster::draw::clear::ClearPipeline;
use softraster::draw::triangle::{
    rasterize_triangle, shade_triangles, DeviceTriangle, DeviceVertex, TrianglePipeline, COORD_LIMIT,
};
use softraster::math::{Lerp, Ratio};
use softraster::pixelformat::{Depth, Rgba};
use softraster::shader::{LinearDepth, PassThrough, Prepared, ReversedDepth, SolidColor};
use softraster::surface::Surface;
use softraster::varying::Varying;
use softraster::vertex::{Position, Viewport, CLIP_ONE};

fn v<V>(x: i32, y: i32, z: i32, var: V) -> DeviceVertex<V> {
    DeviceVertex { x, y, z, var }
}

fn tri<V: Copy>(a: DeviceVertex<V>, b: DeviceVertex<V>, c: DeviceVertex<V>) -> DeviceTriangle<V> {
    (a, b, c)
}

const RED: Rgba = Rgba { r: 255, g: 0, b: 0, a: 255 };
const BLUE: Rgba = Rgba { r: 0, g: 0, b: 255, a: 255 };
const NONE: Rgba = Rgba { r: 0, g: 0, b: 0, a: 0 };

fn draw(color: &mut Surface<Rgba>, depth: Option<&mut Surface<Depth>>, t: DeviceTriangle<()>, c: Rgba) {
    TrianglePipeline {
        color_attachment: color,
        depth_attachment: depth,
        fragment_shader: SolidColor { color: c },
    }
    .run(&vec![t]);
}

#[test]
fn vary_meets_its_ends() {
    let r0 = Ratio { num: 0, den: 4 };
    let r1 = Ratio { num: 4, den: 4 };
    assert_eq!(5i32.vary(9, r0), 5);
    assert_eq!(5i32.vary(9, r1), 9);
    assert_eq!((1i32, Depth(-3)).vary((7, Depth(40)), r0), (1, Depth(-3)));
    assert_eq!((1i32, Depth(-3)).vary((7, Depth(40)), r1), (7, Depth(40)));
}

#[test]
fn vary_blends_each_part_with_the_same_coefficient() {
    let half = Ratio { num: 1, den: 2 };
    assert_eq!((0i32, 10i32, 100i32).vary((2, 20, 200), half), (1, 15, 150));
    assert_eq!((0i32, 10i32).vary((2, 20), half), (0i32.vary(2, half), 10i32.vary(20, half)));
}

#[test]
fn lerp_rounds_down() {
    let third = Ratio { num: 1, den: 3 };
    assert_eq!(0i32.lerp(10, third), 3);
    assert_eq!(10i32.lerp(0, third), 6);
    assert_eq!(i32::MIN.lerp(i32::MAX, Ratio { num: 1, den: 2 }), -1);
    assert_eq!(i32::MIN.lerp(i32::MAX, Ratio { num: 1, den: 1 }), i32::MAX);
}

#[test]
fn right_triangle_is_filled() {
    let mut color: Surface<Rgba> = Surface::new(8, 8);
    draw(&mut color, None, tri(v(0, 0, 0, ()), v(4, 0, 0, ()), v(0, 4, 0, ())), RED);
    assert_eq!(color.get(1, 1), Some(RED));
    assert_eq!(color.get(0, 0), Some(RED));
    assert_eq!(color.get(3, 0), Some(RED));
    assert_eq!(color.get(0, 3), Some(RED));
    assert_eq!(color.get(3, 3), Some(NONE));
    assert_eq!(color.get(4, 0), Some(NONE));
    assert_eq!(color.get(0, 4), Some(NONE));
    let filled = color.data().iter().filter(|p| **p == RED).count();
    assert_eq!(filled, 4 + 3 + 2 + 1);
}

#[test]
fn right_triangle_fill_does_not_depend_on_vertex_order() {
    let orders = [
        tri(v(0, 0, 0, ()), v(4, 0, 0, ()), v(0, 4, 0, ())),
        tri(v(0, 4, 0, ()), v(0, 0, 0, ()), v(4, 0, 0, ())),
        tri(v(4, 0, 0, ()), v(0, 4, 0, ()), v(0, 0, 0, ())),
        tri(v(0, 0, 0, ()), v(0, 4, 0, ()), v(4, 0, 0, ())),
    ];
    let mut first: Option<Vec<Rgba>> = None;
    for t in orders {
        let mut color: Surface<Rgba> = Surface::new(8, 8);
        draw(&mut color, None, t, RED);
        let data = color.data().to_vec();
        if let Some(f) = &first {
            assert!(f == &data);
        } else {
            first = Some(data);
        }
    }
}

#[test]
fn attribute_varies_monotonically_across_the_triangle() {
    let mut out: Surface<Depth> = Surface::new(8, 8);
    TrianglePipeline {
        color_attachment: &mut out,
        depth_attachment: None,
        fragment_shader: PassThrough,
    }
    .run(&vec![tri(v(0, 0, 0, Depth(0)), v(4, 0, 0, Depth(1000)), v(0, 4, 0, Depth(0)))]);
    let row0: Vec<i32> = (0..4).map(|x| out.get(x, 0).unwrap().0).collect();
    assert_eq!(row0, vec![0, 250, 500, 750]);
    for y in 0..4u32 {
        let mut last = -1;
        for x in 0..(4 - y) {
            let value = out.get(x, y).unwrap().0;
            assert!((0..=1000).contains(&value));
            assert!(value >= last);
            last = value;
        }
    }
    let frags = rasterize_triangle(v(0, 0, 0, Depth(0)), v(4, 0, 0, Depth(1000)), v(0, 4, 0, Depth(0)));
    assert_eq!(frags.len(), 10);
    assert!(frags.iter().all(|f| f.var.0 >= 0 && f.var.0 <= 1000));
}

#[test]
fn depth_interpolates_along_the_rows() {
    let frags = rasterize_triangle(v(0, 0, 0, ()), v(4, 0, 8, ()), v(0, 4, 0, ()));
    let row0: Vec<i32> = frags.iter().filter(|f| f.y == 0).map(|f| f.z).collect();
    assert_eq!(row0, vec![0, 2, 4, 6]);
}

#[test]
fn near_triangle_wins_in_either_order() {
    for near_first in [false, true] {
        let mut color: Surface<Rgba> = Surface::new(8, 8);
        let mut depth: Surface<Depth> = Surface::new(8, 8);
        ClearPipeline { surface: &mut depth, value: Depth(i32::MAX) }.run();
        let far_t = tri(v(0, 0, 10, ()), v(4, 0, 10, ()), v(0, 4, 10, ()));
        let near_t = tri(v(0, 0, 1, ()), v(4, 0, 1, ()), v(0, 4, 1, ()));
        if near_first {
            draw(&mut color, Some(&mut depth), near_t, BLUE);
            draw(&mut color, Some(&mut depth), far_t, RED);
        } else {
            draw(&mut color, Some(&mut depth), far_t, RED);
            draw(&mut color, Some(&mut depth), near_t, BLUE);
        }
        for (x, y) in [(0, 0), (1, 1), (3, 0), (0, 3)] {
            assert_eq!(color.get(x, y), Some(BLUE));
            assert_eq!(depth.get(x, y), Some(Depth(1)));
        }
        assert_eq!(color.get(3, 3), Some(NONE));
        assert_eq!(depth.get(3, 3), Some(Depth(i32::MAX)));
    }
}

#[test]
fn equal_depth_passes() {
    let mut color: Surface<Rgba> = Surface::new(8, 8);
    let mut depth: Surface<Depth> = Surface::new(8, 8);
    ClearPipeline { surface: &mut depth, value: Depth(5) }.run();
    draw(&mut color, Some(&mut depth), tri(v(0, 0, 5, ()), v(4, 0, 5, ()), v(0, 4, 5, ())), RED);
    assert_eq!(color.get(1, 1), Some(RED));
    draw(&mut color, Some(&mut depth), tri(v(0, 0, 6, ()), v(4, 0, 6, ()), v(0, 4, 6, ())), BLUE);
    assert_eq!(color.get(1, 1), Some(RED));
}

#[test]
fn zero_area_triangles_draw_nothing() {
    let degenerate = [
        tri(v(0, 0, 0, ()), v(2, 2, 0, ()), v(4, 4, 0, ())),
        tri(v(1, 1, 0, ()), v(1, 1, 0, ()), v(1, 1, 0, ())),
        tri(v(0, 3, 0, ()), v(5, 3, 0, ()), v(2, 3, 0, ())),
        tri(v(2, 0, 0, ()), v(2, 5, 0, ()), v(2, 7, 0, ())),
        tri(v(0, 0, 0, ()), v(6, 3, 0, ()), v(2, 1, 0, ())),
    ];
    for t in degenerate {
        assert_eq!(rasterize_triangle(t.0, t.1, t.2).len(), 0);
        let mut color: Surface<Rgba> = Surface::new(8, 8);
        draw(&mut color, None, t, RED);
        assert!(color.data().iter().all(|p| *p == NONE));
    }
}

#[test]
fn triangles_outside_the_surface_draw_nothing() {
    let outside = [
        tri(v(100, 100, 0, ()), v(104, 100, 0, ()), v(100, 104, 0, ())),
        tri(v(-10, -10, 0, ()), v(-6, -10, 0, ()), v(-10, -6, 0, ())),
        tri(v(-10, 2, 0, ()), v(-1, 2, 0, ()), v(-10, 6, 0, ())),
        tri(v(2, 8, 0, ()), v(6, 8, 0, ()), v(2, 12, 0, ())),
    ];
    for t in outside {
        let mut color: Surface<Rgba> = Surface::new(8, 8);
        let mut depth: Surface<Depth> = Surface::new(8, 8);
        draw(&mut color, Some(&mut depth), t, RED);
        draw(&mut color, None, t, RED);
        assert!(color.data().iter().all(|p| *p == NONE));
        assert!(depth.data().iter().all(|p| *p == Depth(0)));
    }
}

#[test]
fn straddling_triangle_is_clipped_by_discard() {
    let mut color: Surface<Rgba> = Surface::new(4, 4);
    draw(&mut color, None, tri(v(-4, -4, 0, ()), v(12, -4, 0, ()), v(-4, 12, 0, ())), RED);
    assert!(color.data().iter().all(|p| *p == RED));
}

#[test]
fn several_triangles_are_drawn_in_order() {
    let mut out: Surface<Depth> = Surface::new(8, 8);
    let tris = vec![
        tri(v(0, 0, 0, Depth(1)), v(4, 0, 0, Depth(1)), v(0, 4, 0, Depth(1))),
        tri(v(0, 0, 0, Depth(2)), v(2, 0, 0, Depth(2)), v(0, 2, 0, Depth(2))),
    ];
    TrianglePipeline { color_attachment: &mut out, depth_attachment: None, fragment_shader: PassThrough }
        .run(&tris);
    assert_eq!(out.get(0, 0), Some(Depth(2)));
    assert_eq!(out.get(1, 0), Some(Depth(2)));
    assert_eq!(out.get(2, 0), Some(Depth(1)));
    assert_eq!(out.get(0, 2), Some(Depth(1)));
}

#[test]
fn clip_space_maps_onto_the_viewport() {
    let one = CLIP_ONE as i32;
    let vp = Viewport { x: 0, y: 0, width: 640, height: 480 };
    let at = |x: i32, y: i32| Position { x, y, z: 7, w: one }.to_device_coordinates(&vp);
    assert_eq!(at(0, 0), Some((320, 240, 7)));
    assert_eq!(at(-one, one), Some((0, 0, 7)));
    assert_eq!(at(one, -one), Some((640, 480, 7)));
    assert_eq!(at(-one - one / 2, 0), Some((-160, 240, 7)));
    assert_eq!(at(-one - 1, 0), Some((0, 240, 7)));
    let shifted = Viewport { x: 10, y: -5, width: 100, height: 50 };
    let p = Position { x: one / 2, y: one / 2, z: -3, w: one };
    assert_eq!(p.to_device_coordinates(&shifted), Some((85, 7, -3)));
    let edge = Viewport { x: i32::MAX, y: 0, width: 640, height: 480 };
    assert_eq!(Position { x: one, y: 0, z: 0, w: one }.to_device_coordinates(&edge), None);
}

#[test]
fn textured_triangle_samples_by_its_coordinates() {
    let tex = Surface::from_buffer(2, 1, vec![RED, BLUE]).unwrap();
    let mut color: Surface<Rgba> = Surface::new(8, 8);
    let one = softraster::texture::UV_ONE as i32;
    TrianglePipeline {
        color_attachment: &mut color,
        depth_attachment: None,
        fragment_shader: softraster::texture::Sampler::new(&tex),
    }
    .run(&vec![tri(v(0, 0, 0, (0, 0)), v(8, 0, 0, (one, 0)), v(0, 8, 0, (0, 0)))]);
    assert_eq!(color.get(0, 0), Some(RED));
    assert_eq!(color.get(3, 0), Some(RED));
    assert_eq!(color.get(4, 0), Some(BLUE));
    assert_eq!(color.get(7, 0), Some(BLUE));
    assert_eq!(color.get(7, 7), Some(NONE));
}

#[test]
fn row_blend_is_measured_from_the_exact_edge_crossings() {
    // Row 1 runs from x = 0.5 (attribute 300) to x = 3.5 (attribute 0).
    let frags = rasterize_triangle(v(0, 0, 0, Depth(0)), v(1, 2, 600, Depth(600)), v(7, 2, 0, Depth(0)));
    let row1: Vec<(i32, i32, i32)> = frags.iter().filter(|f| f.y == 1).map(|f| (f.x, f.var.0, f.z)).collect();
    assert_eq!(row1, vec![(0, 350, 350), (1, 250, 250), (2, 150, 150)]);
    assert_eq!(frags.len(), 3);
}

#[test]
fn rows_end_at_the_rounded_down_crossing() {
    // Row 1 of this triangle runs from x = 0.5 to x = 1.5: one column, x = 0.
    let frags = rasterize_triangle(v(0, 0, 0, ()), v(1, 2, 0, ()), v(3, 2, 0, ()));
    let row1: Vec<i32> = frags.iter().filter(|f| f.y == 1).map(|f| f.x).collect();
    assert_eq!(row1, vec![0]);
}

#[test]
fn lerp_extrapolates_and_saturates() {
    assert_eq!(0i32.lerp(10, Ratio { num: -1, den: 2 }), -5);
    assert_eq!(0i32.lerp(10, Ratio { num: 3, den: 2 }), 15);
    assert_eq!(0i32.lerp(i32::MAX, Ratio { num: 3, den: 1 }), i32::MAX);
    assert_eq!(0i32.lerp(i32::MIN, Ratio { num: 3, den: 1 }), i32::MIN);
}

#[test]
fn device_coordinates_are_refused_only_beyond_i32() {
    let one = CLIP_ONE as i32;
    let vp = Viewport { x: COORD_LIMIT, y: 0, width: 640, height: 480 };
    assert_eq!(Position { x: 0, y: 0, z: 0, w: one }.to_device_coordinates(&vp), Some((COORD_LIMIT + 320, 240, 0)));
    let edge = Viewport { x: i32::MAX - 320, y: i32::MIN, width: 640, height: 480 };
    assert_eq!(Position { x: 0, y: one, z: 0, w: one }.to_device_coordinates(&edge), Some((i32::MAX, i32::MIN, 0)));
    assert_eq!(Position { x: 205, y: one, z: 0, w: one }.to_device_coordinates(&edge), None);
}

#[test]
fn reversed_depth_map_keeps_the_farther_triangle() {
    let mut color: Surface<Rgba> = Surface::new(8, 8);
    let mut depth: Surface<Depth> = Surface::new(8, 8);
    ClearPipeline { surface: &mut depth, value: Depth(i32::MAX) }.run();
    let far_t = tri(v(0, 0, 10, ()), v(4, 0, 10, ()), v(0, 4, 10, ()));
    let near_t = tri(v(0, 0, 1, ()), v(4, 0, 1, ()), v(0, 4, 1, ()));
    for (t, c) in [(far_t, RED), (near_t, BLUE)] {
        TrianglePipeline {
            color_attachment: &mut color,
            depth_attachment: Some(&mut depth),
            fragment_shader: SolidColor { color: c },
        }
        .run_with_depth_map(&vec![t], &ReversedDepth);
    }
    assert_eq!(color.get(1, 1), Some(RED));
    assert_eq!(depth.get(1, 1), Some(Depth(-11)));
}

#[test]
fn mesh_is_shaded_placed_and_drawn() {
    let one = CLIP_ONE as i32;
    let half = one / 2;
    let vp = Viewport { x: 0, y: 0, width: 8, height: 8 };
    let p = |x: i32, y: i32| Position { x, y, z: 0, w: one };
    // Clip (-1, 1), (0, 1), (-1, 0) land on device (0, 0), (4, 0), (0, 4).
    let vertices = vec![(p(-one, one), ()), (p(0, one), ()), (p(-one, 0), ()), (p(half, half), ())];
    let mesh = (vertices, vec![0usize, 1, 2]);
    let mut color: Surface<Rgba> = Surface::new(8, 8);
    TrianglePipeline { color_attachment: &mut color, depth_attachment: None, fragment_shader: SolidColor { color: RED } }
        .run_mesh(&mesh, &vp, &Prepared, &LinearDepth);
    let filled = color.data().iter().filter(|c| **c == RED).count();
    assert_eq!(filled, 10);
    assert_eq!(color.get(1, 1), Some(RED));
    assert_eq!(color.get(3, 3), Some(NONE));
}

#[test]
fn triangles_with_a_vertex_beyond_the_limit_are_left_out() {
    let one = CLIP_ONE as i32;
    let vp = Viewport { x: COORD_LIMIT - 4, y: 0, width: 8, height: 8 };
    let p = |x: i32, y: i32| Position { x, y, z: 0, w: one };
    let tris = vec![
        ((p(-one, one), ()), (p(0, one), ()), (p(-one, 0), ())),
        ((p(-one, one), ()), (p(one, one), ()), (p(-one, 0), ())),
    ];
    let placed = shade_triangles(&tris, &vp, &Prepared);
    assert_eq!(placed.len(), 1);
    assert_eq!((placed[0].0.x, placed[0].1.x, placed[0].2.x), (COORD_LIMIT - 4, COORD_LIMIT, COORD_LIMIT - 4));
}
