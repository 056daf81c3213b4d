use geo_rasterize::dispatch::{parse_algorithm, parse_pixel_kind, PixelKind};
use geo_rasterize::fixed::SCALE;
use geo_rasterize::geom::{FixedPoint, Geometry, PolygonShape};
use geo_rasterize::grid::MergeAlgorithm;
use geo_rasterize::raster::{rasterize, rasterize_binary, rasterize_generic, RasterError};
use geo_rasterize::transform::AffineTransform;

fn fp(x: i64, y: i64) -> FixedPoint {
    FixedPoint::from_units(x, y)
}

#[test]
fn unit_square_polygon_replace() {
    let square = Geometry::polygon(vec![fp(1, 1), fp(3, 1), fp(3, 3), fp(1, 3)], vec![]);
    let grid = rasterize::<u8>(
        &vec![square],
        &vec![5u8],
        4,
        4,
        0u8,
        MergeAlgorithm::Replace,
        None,
    )
    .unwrap();
    for y in 0..4 {
        for x in 0..4 {
            let expected = if (1..=2).contains(&x) && (1..=2).contains(&y) { 5 } else { 0 };
            assert_eq!(grid.value_at(x, y), expected, "pixel ({}, {})", x, y);
        }
    }
}

#[test]
fn crossing_lines_add_counts_each_shape_once() {
    let diag_down = Geometry::line_string(vec![fp(0, 0), fp(4, 4)]);
    let diag_up = Geometry::line_string(vec![fp(4, 0), fp(0, 4)]);
    let grid = rasterize::<u32>(
        &vec![diag_down, diag_up],
        &vec![1u32, 1u32],
        4,
        4,
        0u32,
        MergeAlgorithm::Add,
        None,
    )
    .unwrap();
    assert_eq!(grid.value_at(2, 2), 2);
    assert_eq!(grid.value_at(0, 0), 1);
    assert_eq!(grid.value_at(1, 1), 1);
    assert_eq!(grid.value_at(3, 3), 1);
    assert_eq!(grid.value_at(3, 1), 1);
    assert_eq!(grid.value_at(1, 3), 1);
    assert_eq!(grid.value_at(0, 1), 0);
}

#[test]
fn scaling_transform_maps_world_to_pixel() {
    let point = Geometry::point(FixedPoint::new(50_000, 50_000)); // world (0.05, 0.05)
    let scale_by_ten = AffineTransform {
        a: 10 * SCALE,
        b: 0,
        c: 0,
        d: 0,
        e: 10 * SCALE,
        f: 0,
    };
    let grid = rasterize::<u8>(
        &vec![point],
        &vec![1u8],
        2,
        2,
        0u8,
        MergeAlgorithm::Replace,
        Some(scale_by_ten),
    )
    .unwrap();
    assert_eq!(grid.value_at(0, 0), 1);
    assert_eq!(grid.value_at(1, 0), 0);
    assert_eq!(grid.value_at(0, 1), 0);
    assert_eq!(grid.value_at(1, 1), 0);
}

#[test]
fn zero_shapes_equal_fresh_background_grid() {
    let grid = rasterize::<u16>(
        &vec![],
        &vec![],
        3,
        3,
        7u16,
        MergeAlgorithm::Add,
        None,
    )
    .unwrap();
    assert_eq!(grid.width, 3);
    assert_eq!(grid.height, 3);
    for y in 0..3 {
        for x in 0..3 {
            assert_eq!(grid.value_at(x, y), 7);
        }
    }
}

#[test]
fn point_outside_grid_is_clipped() {
    let far = Geometry::point(fp(10, 10));
    let grid = rasterize::<i16>(
        &vec![far],
        &vec![9i16],
        4,
        4,
        3i16,
        MergeAlgorithm::Replace,
        None,
    )
    .unwrap();
    for y in 0..4 {
        for x in 0..4 {
            assert_eq!(grid.value_at(x, y), 3);
        }
    }
}

#[test]
fn mismatched_counts_are_rejected() {
    let p = Geometry::point(fp(0, 0));
    let res = rasterize::<u8>(
        &vec![p],
        &vec![1u8, 2u8],
        4,
        4,
        0u8,
        MergeAlgorithm::Replace,
        None,
    );
    match res {
        Ok(_) => panic!("mismatched counts must be rejected"),
        Err(e) => assert_eq!(e, RasterError::InputMismatch),
    }
}

#[test]
fn replace_last_shape_wins() {
    let a = Geometry::polygon(vec![fp(0, 0), fp(3, 0), fp(3, 3), fp(0, 3)], vec![]);
    let b = Geometry::polygon(vec![fp(1, 1), fp(4, 1), fp(4, 4), fp(1, 4)], vec![]);
    let grid = rasterize::<i64>(
        &vec![a, b],
        &vec![10i64, 20i64],
        4,
        4,
        0i64,
        MergeAlgorithm::Replace,
        None,
    )
    .unwrap();
    assert_eq!(grid.value_at(0, 0), 10);
    assert_eq!(grid.value_at(2, 2), 20); // overlap: later shape wins
    assert_eq!(grid.value_at(3, 3), 20);
}

#[test]
fn add_wraps_at_the_numeric_type() {
    let p1 = Geometry::point(fp(1, 1));
    let p2 = Geometry::point(fp(1, 1));
    let grid = rasterize::<u8>(
        &vec![p1, p2],
        &vec![5u8, 10u8],
        2,
        2,
        250u8,
        MergeAlgorithm::Add,
        None,
    )
    .unwrap();
    assert_eq!(grid.value_at(1, 1), 9); // 250 + 5 + 10 wraps modulo 256
    assert_eq!(grid.value_at(0, 0), 250);
}

#[test]
fn one_shape_never_double_counts_itself() {
    // The same segment twice inside one multi-line geometry: one update.
    let seg = vec![fp(0, 1), fp(3, 1)];
    let doubled = Geometry::multi_line_string(vec![seg.clone(), seg.clone()]);
    let separate1 = Geometry::line_string(seg.clone());
    let separate2 = Geometry::line_string(seg);
    let one_shape = rasterize::<u32>(
        &vec![doubled],
        &vec![1u32],
        4,
        4,
        0u32,
        MergeAlgorithm::Add,
        None,
    )
    .unwrap();
    let two_shapes = rasterize::<u32>(
        &vec![separate1, separate2],
        &vec![1u32, 1u32],
        4,
        4,
        0u32,
        MergeAlgorithm::Add,
        None,
    )
    .unwrap();
    assert_eq!(one_shape.value_at(1, 1), 1);
    assert_eq!(two_shapes.value_at(1, 1), 2);
}

#[test]
fn polygon_hole_is_left_out() {
    let outer = vec![fp(0, 0), fp(5, 0), fp(5, 5), fp(0, 5)];
    let hole = vec![fp(2, 2), fp(4, 2), fp(4, 4), fp(2, 4)];
    let donut = Geometry::polygon(outer, vec![hole]);
    let grid = rasterize::<u8>(
        &vec![donut],
        &vec![1u8],
        6,
        6,
        0u8,
        MergeAlgorithm::Replace,
        None,
    )
    .unwrap();
    assert_eq!(grid.value_at(0, 0), 1);
    assert_eq!(grid.value_at(1, 2), 1);
    assert_eq!(grid.value_at(2, 1), 1);
    assert_eq!(grid.value_at(2, 2), 0); // inside the hole
    assert_eq!(grid.value_at(3, 3), 0); // inside the hole
    assert_eq!(grid.value_at(5, 5), 0); // outside the polygon
    let total: u32 = (0..6)
        .flat_map(|y| (0..6).map(move |x| (x, y)))
        .map(|(x, y)| grid.value_at(x, y) as u32)
        .sum();
    assert_eq!(total, 25 - 4);
}

#[test]
fn fast_path_output_matches_generic_path() {
    let shapes = || {
        vec![
            Geometry::polygon(vec![fp(0, 0), fp(3, 0), fp(3, 3), fp(0, 3)], vec![]),
            Geometry::line_string(vec![fp(0, 4), fp(4, 4)]),
            Geometry::point(fp(4, 0)),
        ]
    };
    let fgs_u8 = vec![1u8, 1u8, 1u8];
    let fast = rasterize::<u8>(
        &shapes(),
        &fgs_u8,
        5,
        5,
        0u8,
        MergeAlgorithm::Replace,
        None,
    )
    .unwrap();
    let ident = AffineTransform::identity();
    let generic = rasterize_generic::<u8>(
        &shapes(),
        &fgs_u8,
        5,
        5,
        0u8,
        MergeAlgorithm::Replace,
        &ident,
    )
    .unwrap();
    let binary = rasterize_binary::<u8>(&shapes(), 5, 5, &ident);
    for y in 0..5 {
        for x in 0..5 {
            assert_eq!(fast.value_at(x, y), generic.value_at(x, y));
            assert_eq!(binary.value_at(x, y), generic.value_at(x, y));
        }
    }
    let fgs_i64 = vec![1i64, 1i64, 1i64];
    let fast_i64 = rasterize::<i64>(
        &shapes(),
        &fgs_i64,
        5,
        5,
        0i64,
        MergeAlgorithm::Replace,
        None,
    )
    .unwrap();
    let generic_i64 = rasterize_generic::<i64>(
        &shapes(),
        &fgs_i64,
        5,
        5,
        0i64,
        MergeAlgorithm::Replace,
        &ident,
    )
    .unwrap();
    for y in 0..5 {
        for x in 0..5 {
            assert_eq!(fast_i64.value_at(x, y), generic_i64.value_at(x, y));
        }
    }
}

#[test]
fn collection_parts_share_one_foreground() {
    let c = Geometry::collection(vec![
        Geometry::point(fp(0, 0)),
        Geometry::point(fp(0, 0)),
        Geometry::point(fp(2, 2)),
    ]);
    let grid = rasterize::<u8>(
        &vec![c],
        &vec![4u8],
        3,
        3,
        0u8,
        MergeAlgorithm::Add,
        None,
    )
    .unwrap();
    // two identical member points still merge once: one shape, one update
    assert_eq!(grid.value_at(0, 0), 4);
    assert_eq!(grid.value_at(2, 2), 4);
    assert_eq!(grid.value_at(1, 1), 0);
}

#[test]
fn multi_point_and_multi_polygon_cover_members() {
    let mp = Geometry::multi_point(vec![fp(0, 0), fp(2, 1)]);
    let squares = Geometry::multi_polygon(vec![
        PolygonShape {
            exterior: vec![fp(0, 2), fp(2, 2), fp(2, 3), fp(0, 3)],
            holes: vec![],
        },
    ]);
    let grid = rasterize::<u8>(
        &vec![mp, squares],
        &vec![1u8, 2u8],
        3,
        3,
        0u8,
        MergeAlgorithm::Replace,
        None,
    )
    .unwrap();
    assert_eq!(grid.value_at(0, 0), 1);
    assert_eq!(grid.value_at(2, 1), 1);
    assert_eq!(grid.value_at(0, 2), 2);
    assert_eq!(grid.value_at(1, 2), 2);
    assert_eq!(grid.value_at(2, 2), 0); // center 2.5 lies right of the box
}

#[test]
fn vertical_and_horizontal_lines_have_no_gaps() {
    let vertical = Geometry::line_string(vec![fp(1, 0), fp(1, 4)]);
    let horizontal = Geometry::line_string(vec![fp(0, 3), fp(4, 3)]);
    let grid = rasterize::<u8>(
        &vec![vertical, horizontal],
        &vec![1u8, 1u8],
        5,
        5,
        0u8,
        MergeAlgorithm::Add,
        None,
    )
    .unwrap();
    for y in 0..5 {
        assert!(grid.value_at(1, y) >= 1, "vertical gap at y={}", y);
    }
    for x in 0..5 {
        assert!(grid.value_at(x, 3) >= 1, "horizontal gap at x={}", x);
    }
    assert_eq!(grid.value_at(1, 3), 2);
}

#[test]
fn degenerate_shapes_yield_empty_pixel_sets() {
    let empty_polygon = Geometry::polygon(vec![], vec![]);
    let single_vertex_line = Geometry::line_string(vec![fp(1, 1)]);
    let zero_area_polygon = Geometry::polygon(vec![fp(1, 1), fp(3, 1), fp(1, 1)], vec![]);
    let grid = rasterize::<u8>(
        &vec![empty_polygon, single_vertex_line, zero_area_polygon],
        &vec![1u8, 1u8, 1u8],
        4,
        4,
        0u8,
        MergeAlgorithm::Add,
        None,
    )
    .unwrap();
    for y in 0..4 {
        for x in 0..4 {
            assert_eq!(grid.value_at(x, y), 0, "pixel ({}, {})", x, y);
        }
    }
}

#[test]
fn translation_transform_shifts_shapes() {
    // px = x - 2, py = y - 1
    let shift = AffineTransform {
        a: SCALE,
        b: 0,
        c: -2 * SCALE,
        d: 0,
        e: SCALE,
        f: -SCALE,
    };
    let p = Geometry::point(fp(3, 2));
    let grid = rasterize::<u8>(
        &vec![p],
        &vec![8u8],
        3,
        3,
        0u8,
        MergeAlgorithm::Replace,
        Some(shift),
    )
    .unwrap();
    assert_eq!(grid.value_at(1, 1), 8);
    assert_eq!(grid.value_at(0, 0), 0);
}

#[test]
fn polygon_partially_off_grid_is_clipped() {
    let big = Geometry::polygon(vec![fp(-2, -2), fp(2, -2), fp(2, 2), fp(-2, 2)], vec![]);
    let grid = rasterize::<u8>(
        &vec![big],
        &vec![1u8],
        4,
        4,
        0u8,
        MergeAlgorithm::Replace,
        None,
    )
    .unwrap();
    for y in 0..4 {
        for x in 0..4 {
            let expected = if x < 2 && y < 2 { 1 } else { 0 };
            assert_eq!(grid.value_at(x, y), expected, "pixel ({}, {})", x, y);
        }
    }
}

#[test]
fn signed_add_wraps_below_minimum() {
    let p1 = Geometry::point(fp(0, 0));
    let grid = rasterize::<i8>(
        &vec![p1],
        &vec![-100i8],
        1,
        1,
        -100i8,
        MergeAlgorithm::Add,
        None,
    )
    .unwrap();
    assert_eq!(grid.value_at(0, 0), 56); // -200 wraps modulo 256 into 56
}

#[test]
fn nested_collections_flatten() {
    let inner = Geometry::collection(vec![Geometry::point(fp(0, 0))]);
    let outer = Geometry::collection(vec![inner, Geometry::point(fp(1, 1))]);
    let grid = rasterize::<u8>(
        &vec![outer],
        &vec![3u8],
        2,
        2,
        0u8,
        MergeAlgorithm::Replace,
        None,
    )
    .unwrap();
    assert_eq!(grid.value_at(0, 0), 3);
    assert_eq!(grid.value_at(1, 1), 3);
    assert_eq!(grid.value_at(1, 0), 0);
}

#[test]
fn algorithm_selectors_parse_exactly() {
    assert_eq!(parse_algorithm(b"replace"), Ok(MergeAlgorithm::Replace));
    assert_eq!(parse_algorithm(b"add"), Ok(MergeAlgorithm::Add));
    assert_eq!(parse_algorithm(b"maximum"), Err(RasterError::UnsupportedAlgorithm));
    assert_eq!(parse_algorithm(b""), Err(RasterError::UnsupportedAlgorithm));
    assert_eq!(parse_algorithm(b"Replace"), Err(RasterError::UnsupportedAlgorithm));
}

#[test]
fn dtype_selectors_parse_exactly() {
    assert_eq!(parse_pixel_kind(b"uint8"), Ok(PixelKind::U8));
    assert_eq!(parse_pixel_kind(b"uint16"), Ok(PixelKind::U16));
    assert_eq!(parse_pixel_kind(b"uint32"), Ok(PixelKind::U32));
    assert_eq!(parse_pixel_kind(b"uint64"), Ok(PixelKind::U64));
    assert_eq!(parse_pixel_kind(b"int8"), Ok(PixelKind::I8));
    assert_eq!(parse_pixel_kind(b"int16"), Ok(PixelKind::I16));
    assert_eq!(parse_pixel_kind(b"int32"), Ok(PixelKind::I32));
    assert_eq!(parse_pixel_kind(b"int64"), Ok(PixelKind::I64));
    assert_eq!(parse_pixel_kind(b"float32"), Err(RasterError::UnsupportedType));
    assert_eq!(parse_pixel_kind(b"float64"), Err(RasterError::UnsupportedType));
    assert_eq!(parse_pixel_kind(b"complex64"), Err(RasterError::UnsupportedType));
}
