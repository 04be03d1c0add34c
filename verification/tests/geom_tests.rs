use geos::{Coord, CoordSeq, Error, GContextHandle, GGeom, GGeomTypes, PredicateType, Scalar};

fn point(x: i64, y: i64) -> GGeom {
    let seq = CoordSeq::new_from_coords(vec![Coord { x, y }]).expect("in-bounds coordinate");
    GGeom::create_point(seq).expect("point construction")
}

#[test]
fn point_from_wkt_has_zero_area() {
    let g = GGeom::new_from_wkt("POINT (2.5 2.5)").expect("Invalid geometry");
    assert_eq!(g.area().unwrap().units(), 0);
}

#[test]
fn square_from_wkt_has_area_sixteen() {
    let g = GGeom::new_from_wkt("POLYGON ((0 0, 4 0, 4 4, 0 4, 0 0))").expect("Invalid geometry");
    // 16.0 in thousandths
    assert_eq!(g.area().unwrap().units(), 16_000);
}

#[test]
fn three_four_five_distance() {
    let a = GGeom::new_from_wkt("POINT (0 0)").expect("Invalid geometry");
    let b = GGeom::new_from_wkt("POINT (3 4)").expect("Invalid geometry");
    // 5.0 in thousandths
    assert_eq!(a.distance(&b).unwrap().units(), 5_000);
}

#[test]
fn hex_round_trip_compares_equal() {
    let g = GGeom::new_from_wkt("POINT (2.5 2.5)").expect("Invalid geometry");
    let hex_buf = g.to_hex().expect("conversion to HEX failed");
    let back = GGeom::new_from_hex(hex_buf.as_ref()).expect("conversion from HEX failed");
    assert_eq!(g.equals(&back), Ok(true));
}

#[test]
fn wkb_round_trip_compares_equal() {
    let g = GGeom::new_from_wkt("POLYGON ((0 0, 4 0, 4 4, 0 4, 0 0))").expect("Invalid geometry");
    let wkb_buf = g.to_wkb().expect("conversion to WKB failed");
    let back = GGeom::new_from_wkb(wkb_buf.as_ref()).expect("conversion from WKB failed");
    assert_eq!(g.equals(&back), Ok(true));
}

#[test]
fn wkt_round_trip_compares_equal() {
    let texts = [
        "POINT (2.5 2.5)",
        "LINESTRING (0 0, 1 1, 2 0.25)",
        "POLYGON ((0 0, 4 0, 4 4, 0 4, 0 0))",
        "MULTIPOINT (0 0, 1 1)",
        "MULTILINESTRING ((0 0, 1 1), (2 2, 3 3))",
        "MULTIPOLYGON (((0 0, 1 0, 1 1, 0 1, 0 0)))",
        "GEOMETRYCOLLECTION (POINT (1 1), LINESTRING (0 0, 1 1))",
    ];
    for t in texts {
        let g = GGeom::new_from_wkt(t).expect("Invalid geometry");
        let printed = g.to_wkt();
        let back = GGeom::new_from_wkt(&printed).expect("printed form must parse");
        assert_eq!(g.equals(&back), Ok(true), "round trip failed for {t}");
    }
}

#[test]
fn to_wkt_prints_three_fraction_digits() {
    let g = GGeom::new_from_wkt("POINT (2.5 2.5)").expect("Invalid geometry");
    assert_eq!(g.to_wkt(), "POINT (2.500 2.500)");
}

#[test]
fn to_wkt_precision_truncates_fraction() {
    let g = GGeom::new_from_wkt("POINT (2.5 -1.25)").expect("Invalid geometry");
    assert_eq!(g.to_wkt_precision(Some(1)), "POINT (2.5 -1.2)");
    assert_eq!(g.to_wkt_precision(Some(0)), "POINT (2 -1)");
    assert_eq!(g.to_wkt_precision(None), "POINT (2.500 -1.250)");
}

#[test]
fn multipoint_from_points_succeeds() {
    let m = GGeom::create_multipoint(vec![point(0, 0), point(1_000, 1_000)])
        .expect("multipoint from points");
    assert_eq!(m.geometry_type(), GGeomTypes::MultiPoint);
}

#[test]
fn multipoint_kind_check_is_transactional() {
    let p = point(0, 0);
    let line_seq = CoordSeq::new_from_coords(vec![
        Coord { x: 0, y: 0 },
        Coord { x: 1_000, y: 1_000 },
    ])
    .expect("in-bounds coordinates");
    let l = GGeom::create_line_string(line_seq).expect("line construction");
    let r = GGeom::create_multipoint(vec![p.clone(), l.clone()]);
    assert!(matches!(r, Err(Error::ImpossibleOperation(_))));
    // both inputs remain valid, independently usable geometries afterwards
    assert_eq!(p.geometry_type(), GGeomTypes::Point);
    assert_eq!(l.geometry_type(), GGeomTypes::LineString);
    assert_eq!(p.intersects(&l), Ok(true));
}

#[test]
fn create_multilinestring_checks_kinds() {
    let r = GGeom::create_multilinestring(vec![point(0, 0)]);
    assert!(matches!(r, Err(Error::ImpossibleOperation(_))));
}

#[test]
fn create_multipolygon_checks_kinds() {
    let r = GGeom::create_multipolygon(vec![point(0, 0)]);
    assert!(matches!(r, Err(Error::ImpossibleOperation(_))));
}

fn ring(coords: &[(i64, i64)]) -> GGeom {
    let v: Vec<Coord> = coords.iter().map(|&(x, y)| Coord { x, y }).collect();
    let seq = CoordSeq::new_from_coords(v).expect("in-bounds coordinates");
    GGeom::create_linear_ring(seq).expect("ring construction")
}

#[test]
fn polygon_adopts_exterior_and_holes() {
    let exterior = ring(&[(0, 0), (10_000, 0), (10_000, 10_000), (0, 10_000), (0, 0)]);
    let hole = ring(&[(1_000, 1_000), (2_000, 1_000), (2_000, 2_000), (1_000, 2_000), (1_000, 1_000)]);
    let poly = GGeom::create_polygon(exterior, vec![hole]).expect("polygon construction");
    assert_eq!(poly.geometry_type(), GGeomTypes::Polygon);
    // 10 x 10 outer, 1 x 1 hole, in thousandths of the squared unit scale
    assert_eq!(poly.area().unwrap().units(), 99_000);
    // after the drop of `poly` every adopted ring is released exactly once,
    // by the polygon that owns it now
}

#[test]
fn create_polygon_refuses_non_rings() {
    let exterior = point(0, 0);
    let r = GGeom::create_polygon(exterior, vec![]);
    assert_eq!(r.err(), Some(Error::NoConstructionFromNullPtr));
}

#[test]
fn clone_is_deep_and_keeps_context() {
    let g = GGeom::new_from_wkt("POLYGON ((0 0, 0 4, 4 4, 4 0, 0 0))").expect("Invalid geometry");
    let mut c = g.clone();
    assert_eq!(c.equals(&g), Ok(true));
    // normalising the clone must not affect the source
    let before = g.to_wkt();
    assert_eq!(c.normalize(), Ok(false));
    assert_eq!(g.to_wkt(), before);
    // normal form still compares equal: orientation does not distinguish values
    assert_eq!(c.equals(&g), Ok(true));
}

#[test]
fn equals_distinguishes_values() {
    let geom1 = GGeom::new_from_wkt("POINT (2.5 2.5)").expect("Invalid geometry");
    let geom2 = GGeom::new_from_wkt("POINT (3.8 3.8)").expect("Invalid geometry");
    let geom3 = GGeom::new_from_wkt("POINT (2.5 2.5)").expect("Invalid geometry");
    assert_eq!(geom1.equals(&geom2), Ok(false));
    assert_eq!(geom1.equals(&geom3), Ok(true));
    assert!(geom1 != geom2);
    assert!(geom1 == geom3);
}

#[test]
fn intersects_is_symmetric() {
    let a = GGeom::new_from_wkt("POLYGON ((0 0, 2 0, 2 2, 0 2, 0 0))").expect("Invalid geometry");
    let b = GGeom::new_from_wkt("POLYGON ((1 1, 3 1, 3 3, 1 3, 1 1))").expect("Invalid geometry");
    let c = GGeom::new_from_wkt("POINT (9 9)").expect("Invalid geometry");
    assert_eq!(a.intersects(&b), b.intersects(&a));
    assert_eq!(a.intersects(&b), Ok(true));
    assert_eq!(a.intersects(&c), c.intersects(&a));
    assert_eq!(a.intersects(&c), Ok(false));
    assert_eq!(a.disjoint(&c), Ok(true));
}

#[test]
fn containment_family() {
    let outer = GGeom::new_from_wkt("POLYGON ((0 0, 4 0, 4 4, 0 4, 0 0))").expect("geometry");
    let inner = GGeom::new_from_wkt("POINT (2 2)").expect("geometry");
    assert_eq!(inner.within(&outer), Ok(true));
    assert_eq!(outer.contains(&inner), Ok(true));
    assert_eq!(outer.covers(&inner), Ok(true));
    assert_eq!(inner.covered_by(&outer), Ok(true));
    assert_eq!(outer.within(&inner), Ok(false));
}

#[test]
fn touches_and_overlaps() {
    let a = GGeom::new_from_wkt("POLYGON ((0 0, 2 0, 2 2, 0 2, 0 0))").expect("geometry");
    let touching = GGeom::new_from_wkt("POLYGON ((2 0, 4 0, 4 2, 2 2, 2 0))").expect("geometry");
    let overlapping = GGeom::new_from_wkt("POLYGON ((1 1, 3 1, 3 3, 1 3, 1 1))").expect("geometry");
    assert_eq!(a.touches(&touching), Ok(true));
    assert_eq!(a.overlaps(&touching), Ok(false));
    assert_eq!(a.overlaps(&overlapping), Ok(true));
    assert_eq!(a.crosses(&overlapping), Ok(true));
}

#[test]
fn equals_exact_respects_tolerance() {
    let a = GGeom::new_from_wkt("POINT (0 0)").expect("geometry");
    let b = GGeom::new_from_wkt("POINT (0.4 0)").expect("geometry");
    assert_eq!(a.equals_exact(&b, Scalar::from_units(500)), Ok(true));
    assert_eq!(a.equals_exact(&b, Scalar::from_units(100)), Ok(false));
    assert_eq!(
        a.equals_exact(&b, Scalar::from_units(-1)),
        Err(Error::GeosError(PredicateType::EqualsExact, 2))
    );
}

#[test]
fn predicate_queries_on_shapes() {
    let line = GGeom::new_from_wkt("LINESTRING (0 0, 1 0, 1 1, 0 1, 0 0)").expect("geometry");
    assert_eq!(line.is_ring(), Ok(true));
    assert_eq!(line.is_closed(), Ok(true));
    assert_eq!(line.is_simple(), Ok(true));
    assert!(line.is_valid());
    assert_eq!(line.is_empty(), Ok(false));
    assert_eq!(line.has_z(), Ok(false));
    let open_line = GGeom::new_from_wkt("LINESTRING (0 0, 1 1)").expect("geometry");
    assert_eq!(open_line.is_ring(), Ok(false));
    assert_eq!(open_line.is_closed(), Ok(false));
    let p = GGeom::new_from_wkt("POINT (1 1)").expect("geometry");
    assert_eq!(p.is_closed(), Err(Error::GeosError(PredicateType::IsClosed, 2)));
}

#[test]
fn length_and_get_length() {
    let line = GGeom::new_from_wkt("LINESTRING (0 0, 3 4)").expect("geometry");
    assert_eq!(line.length().unwrap().units(), 5_000);
    assert_eq!(line.get_length().unwrap().units(), 5_000);
    let p = GGeom::new_from_wkt("POINT (0 0)").expect("geometry");
    assert_eq!(p.length().unwrap().units(), 0);
    assert!(matches!(p.get_length(), Err(Error::GeosError(PredicateType::Length, 0))));
}

#[test]
fn distance_variants_and_errors() {
    let a = GGeom::new_from_wkt("POINT (0 0)").expect("geometry");
    let b = GGeom::new_from_wkt("POINT (3 4)").expect("geometry");
    assert_eq!(a.distance_indexed(&b), a.distance(&b));
    assert_eq!(a.hausdorff_distance(&b).unwrap().units(), 5_000);
    assert_eq!(
        a.hausdorff_distance_densify(&b, Scalar::from_units(500)).unwrap().units(),
        5_000
    );
    assert!(matches!(
        a.hausdorff_distance_densify(&b, Scalar::from_units(0)),
        Err(Error::GeosError(PredicateType::Distance, 2))
    ));
    let empty = GGeom::new_from_wkt("LINESTRING EMPTY").expect("geometry");
    assert!(matches!(a.distance(&empty), Err(Error::GeosError(PredicateType::Distance, 0))));
}

#[test]
fn derived_geometries() {
    let square = GGeom::new_from_wkt("POLYGON ((0 0, 4 0, 4 4, 0 4, 0 0))").expect("geometry");
    let env = square.envelope().expect("envelope");
    assert_eq!(env.geometry_type(), GGeomTypes::Polygon);
    assert_eq!(env.area().unwrap().units(), 16_000);
    assert_eq!(square.convex_hull().unwrap().equals(&env), Ok(true));
    let centroid = square.get_centroid().expect("centroid");
    assert_eq!(centroid.to_wkt(), "POINT (1.600 1.600)");
    let buffered = square.buffer(Scalar::from_units(1_000), 8).expect("buffer");
    assert_eq!(buffered.area().unwrap().units(), 36_000);
    let boundary = square.boundary().expect("boundary");
    assert_eq!(boundary.geometry_type(), GGeomTypes::MultiLineString);
    let uniq = square.extract_unique_points().expect("unique points");
    assert_eq!(uniq.geometry_type(), GGeomTypes::MultiPoint);
    assert_eq!(uniq.to_wkt(), "MULTIPOINT (0.000 0.000, 4.000 0.000, 4.000 4.000, 0.000 4.000)");
    assert!(matches!(
        square.voronoi(None, Scalar::from_units(0), false),
        Err(Error::NoConstructionFromNullPtr)
    ));
}

#[test]
fn overlay_component_algebra() {
    let a = GGeom::new_from_wkt("POINT (0 0)").expect("geometry");
    let b = GGeom::new_from_wkt("POINT (1 1)").expect("geometry");
    let u = a.union(&b).expect("union");
    assert_eq!(u.geometry_type(), GGeomTypes::GeometryCollection);
    let inter = u.intersection(&a).expect("intersection");
    assert_eq!(inter.to_wkt(), "GEOMETRYCOLLECTION (POINT (0.000 0.000))");
    let diff = u.difference(&a).expect("difference");
    assert_eq!(diff.to_wkt(), "GEOMETRYCOLLECTION (POINT (1.000 1.000))");
    let sym = a.sym_difference(&b).expect("sym difference");
    assert_eq!(
        sym.to_wkt(),
        "GEOMETRYCOLLECTION (POINT (0.000 0.000), POINT (1.000 1.000))"
    );
    let doubled = a.union(&a).expect("self union");
    let dissolved = doubled.unary_union().expect("unary union");
    assert_eq!(dissolved.to_wkt(), "GEOMETRYCOLLECTION (POINT (0.000 0.000))");
}

#[test]
fn snap_moves_close_vertices() {
    let a = GGeom::new_from_wkt("POINT (0.9 0)").expect("geometry");
    let b = GGeom::new_from_wkt("POINT (1 0)").expect("geometry");
    let snapped = a.snap(&b, Scalar::from_units(200)).expect("snap");
    assert_eq!(snapped.to_wkt(), "POINT (1.000 0.000)");
    let unsnapped = a.snap(&b, Scalar::from_units(50)).expect("snap");
    assert_eq!(unsnapped.to_wkt(), "POINT (0.900 0.000)");
}

#[test]
fn nearest_points_realise_distance() {
    let a = GGeom::new_from_wkt("LINESTRING (0 0, 0 10)").expect("geometry");
    let b = GGeom::new_from_wkt("POINT (3 4)").expect("geometry");
    let seq = a.nearest_points(&b).expect("nearest points");
    assert_eq!(seq.size(), 2);
}

#[test]
fn get_coord_seq_for_line_kinds_only() {
    let line = GGeom::new_from_wkt("LINESTRING (0 0, 1 1)").expect("geometry");
    let seq = line.get_coord_seq().expect("coordinates of a line");
    assert_eq!(seq.size(), 2);
    let poly = GGeom::new_from_wkt("POLYGON ((0 0, 1 0, 1 1, 0 1, 0 0))").expect("geometry");
    assert!(matches!(poly.get_coord_seq(), Err(Error::ImpossibleOperation(_))));
}

#[test]
fn context_handle_is_shared_and_replaceable() {
    let context_handle = GContextHandle::init().expect("invalid init");
    let mut g = GGeom::new_from_wkt("POINT (2.5 2.5)").expect("Invalid geometry");
    g.set_context_handle(context_handle);
    assert_eq!(g.get_context_handle().notice_handler(), None);
    let mut fresh = GContextHandle::init().expect("invalid init");
    fresh.set_notice_message_handler(Some(7));
    fresh.set_error_message_handler(Some(9));
    assert_eq!(fresh.notice_handler(), Some(7));
    assert_eq!(fresh.error_handler(), Some(9));
}

#[test]
fn translator_maps_the_engine_conventions() {
    assert_eq!(geos::check_geos_predicate(0, PredicateType::Intersects), Ok(false));
    assert_eq!(geos::check_geos_predicate(1, PredicateType::Intersects), Ok(true));
    assert_eq!(
        geos::check_geos_predicate(2, PredicateType::Intersects),
        Err(Error::GeosError(PredicateType::Intersects, 2))
    );
    assert_eq!(geos::check_ret(1, PredicateType::Normalize), Ok(()));
    assert_eq!(
        geos::check_ret(0, PredicateType::Normalize),
        Err(Error::GeosError(PredicateType::Normalize, 0))
    );
}

#[test]
fn malformed_text_is_a_null_construction() {
    assert_eq!(
        GGeom::new_from_wkt("POINT (a b)").err(),
        Some(Error::NoConstructionFromNullPtr)
    );
    assert_eq!(GGeom::new_from_wkt("NONSENSE").err(), Some(Error::NoConstructionFromNullPtr));
    assert_eq!(GGeom::new_from_hex(b"zz").err(), Some(Error::NoConstructionFromNullPtr));
    assert_eq!(GGeom::new_from_wkb(&[9, 9, 9]).err(), Some(Error::NoConstructionFromNullPtr));
}

#[test]
fn coordinates_beyond_the_engine_bounds_are_refused() {
    let r = CoordSeq::new_from_coords(vec![Coord { x: 2_000_000_000_000, y: 0 }]);
    assert!(r.is_err());
    let s = GGeom::new_from_wkt("POINT (2000000000 0)");
    assert_eq!(s.err(), Some(Error::NoConstructionFromNullPtr));
}

#[test]
fn frechet_distance_of_point_pair_and_lines() {
    let a = GGeom::new_from_wkt("POINT (0 0)").expect("geometry");
    let b = GGeom::new_from_wkt("POINT (3 4)").expect("geometry");
    assert_eq!(a.frechet_distance(&b).unwrap().units(), 5_000);
    // two parallel segments, one unit apart: every coupling pair is 1.0
    let l1 = GGeom::new_from_wkt("LINESTRING (0 0, 1 0)").expect("geometry");
    let l2 = GGeom::new_from_wkt("LINESTRING (0 1, 1 1)").expect("geometry");
    assert_eq!(l1.frechet_distance(&l2).unwrap().units(), 1_000);
    assert_eq!(
        l1.frechet_distance_densify(&l2, Scalar::from_units(500)).unwrap().units(),
        1_000
    );
    assert!(matches!(
        l1.frechet_distance_densify(&l2, Scalar::from_units(0)),
        Err(Error::GeosError(PredicateType::Distance, 2))
    ));
    let empty = GGeom::new_from_wkt("LINESTRING EMPTY").expect("geometry");
    assert!(matches!(
        a.frechet_distance(&empty),
        Err(Error::GeosError(PredicateType::Distance, 0))
    ));
}

#[test]
fn nearest_points_on_empty_is_a_null_construction() {
    let a = GGeom::new_from_wkt("POINT (0 0)").expect("geometry");
    let empty = GGeom::new_from_wkt("LINESTRING EMPTY").expect("geometry");
    assert!(matches!(a.nearest_points(&empty), Err(Error::NoConstructionFromNullPtr)));
}

#[test]
fn boundary_of_collection_is_a_null_construction() {
    let g = GGeom::create_geometrycollection(vec![point(0, 0)]).expect("collection");
    assert!(matches!(g.boundary(), Err(Error::NoConstructionFromNullPtr)));
}

#[test]
fn snap_applies_to_area_kinds_too() {
    let square = GGeom::new_from_wkt("POLYGON ((0 0, 4 0, 4 4, 0 4, 0 0))").expect("geometry");
    let target = GGeom::new_from_wkt("POINT (4.1 0)").expect("geometry");
    let snapped = square.snap(&target, Scalar::from_units(200)).expect("snap");
    assert_eq!(
        snapped.to_wkt(),
        "POLYGON ((0.000 0.000, 4.100 0.000, 4.000 4.000, 0.000 4.000, 0.000 0.000))"
    );
}

#[test]
fn voronoi_of_one_site_is_empty() {
    let p = GGeom::new_from_wkt("POINT (1 1)").expect("geometry");
    let d = p.voronoi(None, Scalar::from_units(0), false).expect("diagram");
    assert_eq!(d.geometry_type(), GGeomTypes::GeometryCollection);
    assert_eq!(d.is_empty(), Ok(true));
    let e = p.voronoi(None, Scalar::from_units(0), true).expect("diagram");
    assert_eq!(e.geometry_type(), GGeomTypes::MultiLineString);
    let two = GGeom::new_from_wkt("MULTIPOINT (0 0, 1 1)").expect("geometry");
    assert!(matches!(
        two.voronoi(None, Scalar::from_units(0), false),
        Err(Error::NoConstructionFromNullPtr)
    ));
}

#[test]
fn geometrycollection_adopts_collection_members() {
    let inner = GGeom::create_geometrycollection(vec![point(0, 0), point(1_000, 0)])
        .expect("inner collection");
    let outer = GGeom::create_geometrycollection(vec![inner, point(2_000, 0)])
        .expect("outer collection");
    assert_eq!(
        outer.to_wkt(),
        "GEOMETRYCOLLECTION (POINT (0.000 0.000), POINT (1.000 0.000), POINT (2.000 0.000))"
    );
}

#[test]
fn geometrycollection_construction() {
    let g = GGeom::create_geometrycollection(vec![point(0, 0), point(1_000, 0)])
        .expect("collection");
    assert_eq!(g.geometry_type(), GGeomTypes::GeometryCollection);
    assert_eq!(g.to_wkt(), "GEOMETRYCOLLECTION (POINT (0.000 0.000), POINT (1.000 0.000))");
}

#[test]
fn equality_matches_normalized_text() {
    // the same square, wound in opposite directions
    let mut a = GGeom::new_from_wkt("POLYGON ((0 0, 4 0, 4 4, 0 4, 0 0))").expect("geometry");
    let mut b = GGeom::new_from_wkt("POLYGON ((0 0, 0 4, 4 4, 4 0, 0 0))").expect("geometry");
    assert_eq!(a.equals(&b), Ok(true));
    assert_eq!(a.normalize(), Ok(false));
    assert_eq!(b.normalize(), Ok(false));
    assert_eq!(a.to_wkt(), b.to_wkt());
    // and two different values print differently after normalisation
    let mut c = GGeom::new_from_wkt("POLYGON ((0 0, 5 0, 5 4, 0 4, 0 0))").expect("geometry");
    assert_eq!(a.equals(&c), Ok(false));
    assert_eq!(c.normalize(), Ok(false));
    assert_ne!(a.to_wkt(), c.to_wkt());
}
