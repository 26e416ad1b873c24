use softraster::draw::clear::ClearPipeline;
use softraster::mesh::Mesh;
use softraster::pixelformat::{Depth, Pixel, Rgba};
use softraster::surface::{Surface, SurfaceError};
use softraster::texture::{Sampler, UV_ONE};

fn rgba(r: u8, g: u8, b: u8, a: u8) -> Rgba {
    Rgba { r, g, b, a }
}

#[test]
fn new_surface_holds_width_times_height_blank_pixels() {
    let s: Surface<Rgba> = Surface::new(3, 2);
    assert_eq!(s.width(), 3);
    assert_eq!(s.height(), 2);
    assert_eq!(s.data().len(), 6);
    assert!(s.data().iter().all(|p| *p == rgba(0, 0, 0, 0)));
    let d: Surface<Depth> = Surface::new(4, 5);
    assert_eq!(d.data().len(), 20);
    assert!(d.data().iter().all(|p| *p == Depth(0)));
}

#[test]
fn empty_surface_has_no_pixels() {
    let s: Surface<Depth> = Surface::new(0, 7);
    assert_eq!(s.data().len(), 0);
    assert_eq!(s.get(0, 0), None);
}

#[test]
fn get_outside_is_absent() {
    let s: Surface<Depth> = Surface::new(3, 2);
    assert_eq!(s.get(2, 1), Some(Depth(0)));
    assert_eq!(s.get(3, 0), None);
    assert_eq!(s.get(0, 2), None);
    assert_eq!(s.get(u32::MAX, u32::MAX), None);
}

#[test]
fn set_inside_is_read_back_and_outside_is_ignored() {
    let mut s: Surface<Depth> = Surface::new(3, 2);
    s.set(1, 1, Depth(7));
    assert_eq!(s.get(1, 1), Some(Depth(7)));
    assert_eq!(s.data()[4], Depth(7));
    let before: Vec<Depth> = s.data().to_vec();
    s.set(3, 0, Depth(9));
    s.set(0, 2, Depth(9));
    s.set(u32::MAX, 0, Depth(9));
    assert_eq!(s.data().to_vec(), before);
}

#[test]
fn from_buffer_checks_the_length() {
    let ok = Surface::from_buffer(2, 2, vec![Depth(1), Depth(2), Depth(3), Depth(4)]);
    let s = ok.unwrap();
    assert_eq!(s.get(1, 1), Some(Depth(4)));
    assert_eq!(s.get(0, 1), Some(Depth(3)));
    let short = Surface::from_buffer(2, 2, vec![Depth(1)]);
    assert!(matches!(short, Err(SurfaceError::BufferSize { expected: 4, actual: 1 })));
    let long = Surface::from_buffer(1, 1, vec![Depth(1), Depth(2)]);
    assert!(matches!(long, Err(SurfaceError::BufferSize { expected: 1, actual: 2 })));
}

#[test]
fn data_mut_writes_through() {
    let mut s: Surface<Depth> = Surface::new(2, 2);
    s.data_mut()[3] = Depth(5);
    assert_eq!(s.get(1, 1), Some(Depth(5)));
}

#[test]
fn clear_then_every_cell_reads_the_value() {
    let mut s: Surface<Rgba> = Surface::new(4, 3);
    s.set(2, 2, rgba(9, 9, 9, 9));
    ClearPipeline { surface: &mut s, value: rgba(1, 2, 3, 255) }.run();
    for y in 0..3 {
        for x in 0..4 {
            assert_eq!(s.get(x, y), Some(rgba(1, 2, 3, 255)));
        }
    }
}

#[test]
fn zeroed_pixels() {
    assert_eq!(Rgba::zeroed(), rgba(0, 0, 0, 0));
    assert_eq!(Depth::zeroed(), Depth(0));
}

#[test]
fn sampler_picks_the_nearest_texel_and_zero_outside() {
    let tex = Surface::from_buffer(
        2,
        2,
        vec![rgba(1, 0, 0, 0), rgba(2, 0, 0, 0), rgba(3, 0, 0, 0), rgba(4, 0, 0, 0)],
    )
    .unwrap();
    let sampler = Sampler::new(&tex);
    let half = (UV_ONE / 2) as i32;
    let one = UV_ONE as i32;
    assert_eq!(sampler.sample(0, 0), rgba(1, 0, 0, 0));
    assert_eq!(sampler.sample(half - 1, 0), rgba(1, 0, 0, 0));
    assert_eq!(sampler.sample(half, 0), rgba(2, 0, 0, 0));
    assert_eq!(sampler.sample(half, half), rgba(4, 0, 0, 0));
    assert_eq!(sampler.sample(0, one - 1), rgba(3, 0, 0, 0));
    assert_eq!(sampler.sample(one, 0), rgba(0, 0, 0, 0));
    assert_eq!(sampler.sample(-1, 0), rgba(0, 0, 0, 0));
}

#[test]
fn flat_mesh_takes_vertices_three_at_a_time() {
    let vs: Vec<u8> = vec![1, 2, 3, 4, 5, 6, 7];
    assert_eq!(vs.triangles(), vec![(1, 2, 3), (4, 5, 6)]);
}

#[test]
fn indexed_mesh_follows_the_indices() {
    let mesh: (Vec<char>, Vec<usize>) = (vec!['a', 'b', 'c', 'd'], vec![0, 1, 2, 1, 2, 3, 0]);
    assert_eq!(mesh.triangles(), vec![('a', 'b', 'c'), ('b', 'c', 'd')]);
}

#[test]
fn default_pixels_are_blank() {
    assert_eq!(Rgba::default(), rgba(0, 0, 0, 0));
    assert_eq!(Depth::default(), Depth(0));
}
