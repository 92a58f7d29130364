//! The transform-and-project stage, from raw points to pixel rectangles.

use jive::rat::Scalar;
use jive::screen::{project_vertex, PixelRect, ScreenData};
use jive::surface::{JiveSurface, SurfaceKind, TrigSample};

fn r(n: i64, d: i64) -> Scalar {
    Scalar::ratio(n, d)
}

fn i(n: i64) -> Scalar {
    Scalar::from_int(n)
}

fn sample(x: f64) -> Scalar {
    Scalar::ratio((x * 1024.0).round() as i64, 1024)
}

fn angle_samples(v: f64, u: f64, root: f64) -> TrigSample {
    let vr = v.to_radians();
    let ur = u.to_radians();
    TrigSample {
        cos_v: sample(vr.cos()),
        sin_v: sample(vr.sin()),
        cos_u: sample(ur.cos()),
        sin_u: sample(ur.sin()),
        root: sample(root),
    }
}

#[test]
fn projection_matrix_entries_are_the_documented_ones() {
    let screen = ScreenData {
        screen_width: i(800),
        screen_height: i(600),
        field_of_view: i(90),
        f_near: i(1),
        f_far: i(101),
    };
    let focal = i(2);
    let m = screen.projection_matrix(&focal).unwrap();
    // a*f = (600/800)*2 = 3/2.
    assert!(m.e[0].eq_rat(&r(3, 2)));
    assert!(m.e[5].eq_rat(&i(2)));
    // q = 101/100.
    assert!(m.e[10].eq_rat(&r(101, 100)));
    assert!(m.e[11].eq_rat(&i(1)));
    // -far*near/(far - near) = -101/100.
    assert!(m.e[14].eq_rat(&r(-101, 100)));
    for k in [1, 2, 3, 4, 6, 7, 8, 9, 12, 13, 15] {
        assert!(m.e[k].is_zero());
    }
}

#[test]
fn projection_matrix_needs_distinct_planes() {
    let screen = ScreenData {
        screen_width: i(800),
        screen_height: i(600),
        field_of_view: i(90),
        f_near: i(5),
        f_far: i(5),
    };
    assert!(screen.projection_matrix(&i(2)).is_none());
}

#[test]
fn end_to_end_sphere_render() {
    // A sphere with coefficients [0,0,0,0,0,4] rendered through a
    // 800x600 viewport with a 60-degree field of view.
    let zero = Scalar::zero();
    let surface = JiveSurface::new(
        SurfaceKind::Sphere,
        [zero, zero, zero, zero, zero, i(4)],
    );
    let screen = ScreenData {
        screen_width: i(800),
        screen_height: i(600),
        field_of_view: i(60),
        f_near: r(1, 10),
        f_far: i(100),
    };
    // focal = 1/tan(30 degrees), sampled to five decimal places.
    let focal = r(173205, 100000);
    let projection = screen.projection_matrix(&focal).unwrap();
    let params = surface.sample_params();
    assert_eq!(params.len(), 540);
    let samples: Vec<TrigSample> = params
        .iter()
        .map(|(v, u)| angle_samples(*v as f64, *u as f64, 2.0))
        .collect();
    let points = surface.surface_data(&samples).unwrap();
    assert_eq!(points.len(), 540);
    let mut rects: Vec<PixelRect> = Vec::new();
    for p in points.iter() {
        let rect = project_vertex(p, &surface.surface_transformation, &projection, &screen)
            .unwrap();
        assert_eq!(rect.width, 4);
        assert_eq!(rect.height, 4);
        rects.push(rect);
    }
    // Sample 270 is (v, u) = (90, 0): the point (1/20, 0, 0). Its
    // homogeneous component is z = 0, so the divide is skipped and the
    // point maps to x = trunc((1 + (3/4)*focal*(1/20)) * 400) = 425,
    // y = trunc((1 + 0) * 300) = 300.
    assert_eq!(params[270], (90, 0));
    assert_eq!(rects[270].x, 425);
    assert_eq!(rects[270].y, 300);
    // Sample 0 is (v, u) = (0, 0): the pole (0, 0, 1/20). Here w > 0 and
    // x and y project to the screen center.
    assert_eq!(rects[0].x, 400);
    assert_eq!(rects[0].y, 300);
}
