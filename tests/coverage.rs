use mesh_dcel::bbox::{BBox3, NEGATIVE_INFINITY_BITS, POSITIVE_INFINITY_BITS};
use mesh_dcel::coverage::MeshCoverage;
use mesh_dcel::entities::{Face, Node};

fn bits(v: f64) -> u64 {
    v.to_bits()
}

fn node(cov: &mut MeshCoverage, x: f64, y: f64, z: f64) -> u32 {
    cov.create_node(bits(x), bits(y), bits(z))
}

fn half_edge_along(cov: &MeshCoverage, face: u32, start: u32, end: u32) -> u32 {
    let set = cov.face_half_edge_adj().get_face_adj_half_edges(face).unwrap();
    let mut found = 0;
    for &h in set {
        let e = cov.query_half_edge_by_id(h).unwrap();
        if e.start_id == start && e.end_id == end {
            found = h;
        }
    }
    assert_ne!(found, 0);
    found
}

#[test]
fn lookup_returns_created_coordinates() {
    let mut cov = MeshCoverage::new("c".to_string());
    let a = node(&mut cov, 1.5, -2.25, 3.0);
    let b = node(&mut cov, -0.0, 1e300, f64::MIN_POSITIVE);
    assert_eq!(a, 1);
    assert_eq!(b, 2);
    assert_eq!(cov.query_node_by_id(a), Some(Node::new(bits(1.5), bits(-2.25), bits(3.0))));
    let nb = cov.query_node_by_id(b).unwrap();
    assert_eq!(f64::from_bits(nb.x).to_bits(), (-0.0f64).to_bits());
    assert_eq!(f64::from_bits(nb.y), 1e300);
    assert_eq!(f64::from_bits(nb.z), f64::MIN_POSITIVE);
    assert_eq!(cov.query_node_by_id(3), None);
    assert_eq!(cov.node_count(), 2);
}

#[test]
fn triangle_binds_each_corner_once_and_not_zero() {
    let mut cov = MeshCoverage::new("c".to_string());
    let a = node(&mut cov, 0.0, 0.0, 0.0);
    let b = node(&mut cov, 1.0, 0.0, 0.0);
    let c = node(&mut cov, 0.0, 1.0, 0.0);
    let f = cov.create_face(a, b, c, 0);
    assert_eq!(f, 1);
    assert_eq!(cov.query_face_by_id(f), Some(Face::new(a, b, c, 0)));
    for n in [a, b, c] {
        let set = cov.node_face_adj().get_node_adj_faces(n).unwrap();
        assert_eq!(set.len(), 1);
        assert!(set.contains(&f));
    }
    assert!(cov.node_face_adj().get_node_adj_faces(0).is_none());
}

#[test]
fn quad_binds_fourth_corner() {
    let mut cov = MeshCoverage::new("c".to_string());
    let ids: Vec<u32> = (0..4).map(|k| node(&mut cov, k as f64, 0.0, 0.0)).collect();
    let f = cov.create_face(ids[0], ids[1], ids[2], ids[3]);
    let g = cov.create_face(ids[0], ids[1], ids[2], 0);
    assert_eq!(cov.node_face_adj().get_node_adj_faces(ids[3]).unwrap().len(), 1);
    assert_eq!(cov.node_face_adj().get_node_adj_faces(ids[0]).unwrap().len(), 2);
    assert!(cov.node_face_adj().get_node_adj_faces(ids[0]).unwrap().contains(&g));
    assert!(cov.node_face_adj().get_node_adj_faces(ids[3]).unwrap().contains(&f));
}

#[test]
fn remove_face_unbinds_everything() {
    let mut cov = MeshCoverage::new("c".to_string());
    let a = node(&mut cov, 0.0, 0.0, 0.0);
    let b = node(&mut cov, 1.0, 0.0, 0.0);
    let c = node(&mut cov, 0.0, 1.0, 0.0);
    let d = node(&mut cov, 1.0, 1.0, 0.0);
    let f1 = cov.create_face(a, b, c, 0);
    let f2 = cov.create_face(b, d, c, 0);
    cov.create_face_half_edges(a, b, c, 0, f1);
    assert!(cov.face_half_edge_adj().get_face_adj_half_edges(f1).is_some());
    cov.remove_face(f1);
    assert_eq!(cov.query_face_by_id(f1), None);
    assert!(cov.face_half_edge_adj().get_face_adj_half_edges(f1).is_none());
    for n in [a, b, c] {
        assert!(!cov.node_face_adj().get_node_adj_faces(n).unwrap().contains(&f1));
    }
    assert!(cov.node_face_adj().get_node_adj_faces(b).unwrap().contains(&f2));
    assert_eq!(cov.face_count(), 1);
    // half-edge records stay in the store
    assert!(cov.query_half_edge_by_id(1).is_some());
    // removing an absent face changes nothing
    cov.remove_face(99);
    assert_eq!(cov.face_count(), 1);
}

#[test]
fn remove_node_cascades_to_faces() {
    let mut cov = MeshCoverage::new("c".to_string());
    let a = node(&mut cov, 0.0, 0.0, 0.0);
    let b = node(&mut cov, 1.0, 0.0, 0.0);
    let c = node(&mut cov, 0.0, 1.0, 0.0);
    let d = node(&mut cov, 1.0, 1.0, 0.0);
    let f1 = cov.create_face(a, b, c, 0);
    let f2 = cov.create_face(b, d, c, 0);
    cov.create_face_half_edges(a, b, c, 0, f1);
    cov.remove_node(a);
    assert_eq!(cov.query_node_by_id(a), None);
    assert_eq!(cov.query_face_by_id(f1), None);
    assert!(cov.query_face_by_id(f2).is_some());
    assert!(cov.node_face_adj().get_node_adj_faces(a).is_none());
    assert!(cov.face_half_edge_adj().get_face_adj_half_edges(f1).is_none());
    assert!(!cov.node_face_adj().get_node_adj_faces(b).unwrap().contains(&f1));
    assert!(!cov.node_face_adj().get_node_adj_faces(c).unwrap().contains(&f1));
    assert!(cov.node_face_adj().get_node_adj_faces(b).unwrap().contains(&f2));
}

#[test]
fn removing_shared_vertex_removes_both_faces() {
    let mut cov = MeshCoverage::new("c".to_string());
    let x = node(&mut cov, 0.0, 0.0, 0.0);
    let p = node(&mut cov, 1.0, 0.0, 0.0);
    let q = node(&mut cov, 1.0, 1.0, 0.0);
    let r = node(&mut cov, -1.0, 0.0, 0.0);
    let s = node(&mut cov, -1.0, -1.0, 0.0);
    let f1 = cov.create_face(x, p, q, 0);
    let f2 = cov.create_face(x, r, s, 0);
    cov.remove_node(x);
    assert_eq!(cov.query_face_by_id(f1), None);
    assert_eq!(cov.query_face_by_id(f2), None);
    assert_eq!(cov.face_count(), 0);
    assert_eq!(cov.node_count(), 4);
}

#[test]
fn buffer_lengths_and_indices() {
    let mut cov = MeshCoverage::new("c".to_string());
    let a = node(&mut cov, 0.0, 0.0, 0.0);
    let b = node(&mut cov, 1.0, 0.0, 0.0);
    let c = node(&mut cov, 1.0, 1.0, 0.0);
    let d = node(&mut cov, 0.0, 1.0, 0.0);
    let e = node(&mut cov, 2.0, 0.0, 5.0);
    cov.create_face(a, b, c, d);
    cov.create_face(b, e, c, 0);
    let (coords, indexes) = cov.generate_buffer();
    assert_eq!(coords.len(), 15);
    assert_eq!(indexes.len(), 14);
    for &i in &indexes {
        assert!(i < 5);
    }
    // every index points at the coordinates of the node it stands for
    let ids = cov.generate_half_edge_buffer();
    assert_eq!(ids.len(), 14);
    let mut seen: Vec<(u32, [u64; 3])> = Vec::new();
    for id in [a, b, c, d, e] {
        let n = cov.query_node_by_id(id).unwrap();
        seen.push((id, [n.x, n.y, n.z]));
    }
    for k in 0..ids.len() {
        let want = seen.iter().find(|s| s.0 == ids[k]).unwrap().1;
        let p = indexes[k] as usize;
        assert_eq!([coords[3 * p], coords[3 * p + 1], coords[3 * p + 2]], want);
    }
}

#[test]
fn empty_coverage_buffers() {
    let cov = MeshCoverage::new("empty".to_string());
    let (coords, indexes) = cov.generate_buffer();
    assert!(coords.is_empty());
    assert!(indexes.is_empty());
    assert!(cov.generate_face_buffer().is_empty());
    let bbox = cov.get_bbox3();
    assert_eq!(bbox, BBox3::new());
    assert_eq!(bbox.min_x, POSITIVE_INFINITY_BITS);
    assert_eq!(bbox.max_z, NEGATIVE_INFINITY_BITS);
    assert_eq!(f64::from_bits(POSITIVE_INFINITY_BITS), f64::INFINITY);
    assert_eq!(f64::from_bits(NEGATIVE_INFINITY_BITS), f64::NEG_INFINITY);
}

#[test]
fn face_buffer_splits_quads() {
    let mut cov = MeshCoverage::new("c".to_string());
    let a = node(&mut cov, 0.0, 0.0, 0.0);
    let b = node(&mut cov, 1.0, 0.0, 0.0);
    let c = node(&mut cov, 1.0, 1.0, 0.0);
    let d = node(&mut cov, 0.0, 1.0, 0.0);
    cov.create_face(a, b, c, d);
    assert_eq!(cov.generate_face_buffer(), vec![a, b, c, c, d, a]);
    assert_eq!(cov.generate_half_edge_buffer(), vec![a, b, b, c, c, d, d, a]);
}

#[test]
fn triangle_buffers() {
    let mut cov = MeshCoverage::new("c".to_string());
    let a = node(&mut cov, 0.0, 0.0, 0.0);
    let b = node(&mut cov, 1.0, 0.0, 0.0);
    let c = node(&mut cov, 1.0, 1.0, 0.0);
    cov.create_face(a, b, c, 0);
    assert_eq!(cov.generate_face_buffer(), vec![a, b, c]);
    assert_eq!(cov.generate_half_edge_buffer(), vec![a, b, b, c, c, a]);
}

#[test]
fn quad_bounding_box() {
    let mut cov = MeshCoverage::new("c".to_string());
    let a = node(&mut cov, 0.0, 0.0, 0.0);
    let b = node(&mut cov, 1.0, 0.0, 0.0);
    let c = node(&mut cov, 1.0, 1.0, 0.0);
    let d = node(&mut cov, 0.0, 1.0, 0.0);
    cov.create_face(a, b, c, d);
    let bbox = cov.get_bbox3();
    assert_eq!(f64::from_bits(bbox.min_x), 0.0);
    assert_eq!(f64::from_bits(bbox.min_y), 0.0);
    assert_eq!(f64::from_bits(bbox.min_z), 0.0);
    assert_eq!(f64::from_bits(bbox.max_x), 1.0);
    assert_eq!(f64::from_bits(bbox.max_y), 1.0);
    assert_eq!(f64::from_bits(bbox.max_z), 0.0);
}

#[test]
fn bounding_box_with_negative_coordinates() {
    let mut cov = MeshCoverage::new("c".to_string());
    node(&mut cov, -3.5, 2.0, 10.0);
    node(&mut cov, 4.0, -7.25, -1.0);
    node(&mut cov, 0.5, 0.0, 100.0);
    let bbox = cov.get_bbox3();
    assert_eq!(f64::from_bits(bbox.min_x), -3.5);
    assert_eq!(f64::from_bits(bbox.max_x), 4.0);
    assert_eq!(f64::from_bits(bbox.min_y), -7.25);
    assert_eq!(f64::from_bits(bbox.max_y), 2.0);
    assert_eq!(f64::from_bits(bbox.min_z), -1.0);
    assert_eq!(f64::from_bits(bbox.max_z), 100.0);
}

#[test]
fn eat_widens_box() {
    let mut bbox = BBox3::new();
    bbox.eat(Node::new(bits(2.0), bits(-1.0), bits(0.5)));
    assert_eq!(f64::from_bits(bbox.min_x), 2.0);
    assert_eq!(f64::from_bits(bbox.max_x), 2.0);
    bbox.eat(Node::new(bits(-2.0), bits(3.0), bits(0.25)));
    assert_eq!(f64::from_bits(bbox.min_x), -2.0);
    assert_eq!(f64::from_bits(bbox.max_x), 2.0);
    assert_eq!(f64::from_bits(bbox.min_y), -1.0);
    assert_eq!(f64::from_bits(bbox.max_y), 3.0);
    assert_eq!(f64::from_bits(bbox.min_z), 0.25);
    assert_eq!(f64::from_bits(bbox.max_z), 0.5);
}

#[test]
fn twin_found_only_by_later_face() {
    let mut cov = MeshCoverage::new("c".to_string());
    let a = node(&mut cov, 0.0, 0.0, 0.0);
    let b = node(&mut cov, 1.0, 0.0, 0.0);
    let c = node(&mut cov, 0.0, 1.0, 0.0);
    let d = node(&mut cov, 1.0, -1.0, 0.0);
    let t1 = cov.create_face(a, b, c, 0);
    let t2 = cov.create_face(b, a, d, 0);
    cov.create_face_half_edges(a, b, c, 0, t1);
    cov.create_face_half_edges(b, a, d, 0, t2);
    let ab = half_edge_along(&cov, t1, a, b);
    let ba = half_edge_along(&cov, t2, b, a);
    assert_eq!(cov.query_half_edge_by_id(ba).unwrap().twin_id, ab);
    assert_eq!(cov.query_half_edge_by_id(ab).unwrap().twin_id, 0);
    assert_eq!(cov.find_twin(a, b, t1), ba);
    assert_eq!(cov.find_twin(b, c, t1), 0);
}

#[test]
fn half_edge_loop_links() {
    let mut cov = MeshCoverage::new("c".to_string());
    let ids: Vec<u32> = (0..4).map(|k| node(&mut cov, k as f64, 0.0, 0.0)).collect();
    let f = cov.create_face(ids[0], ids[1], ids[2], ids[3]);
    cov.create_face_half_edges(ids[0], ids[1], ids[2], ids[3], f);
    assert_eq!(cov.face_half_edge_adj().get_face_adj_half_edges(f).unwrap().len(), 4);
    let e0 = cov.query_half_edge_by_id(1).unwrap();
    let e1 = cov.query_half_edge_by_id(2).unwrap();
    let e2 = cov.query_half_edge_by_id(3).unwrap();
    let e3 = cov.query_half_edge_by_id(4).unwrap();
    assert_eq!((e0.start_id, e0.end_id, e0.prev_id, e0.next_id), (ids[0], ids[1], 4, 2));
    assert_eq!((e1.start_id, e1.end_id, e1.prev_id, e1.next_id), (ids[1], ids[2], 1, 3));
    assert_eq!((e2.start_id, e2.end_id, e2.prev_id, e2.next_id), (ids[2], ids[3], 2, 4));
    assert_eq!((e3.start_id, e3.end_id, e3.prev_id, e3.next_id), (ids[3], ids[0], 3, 1));
    for e in [e0, e1, e2, e3] {
        assert_eq!(e.face_id, f);
        assert_eq!(e.twin_id, 0);
    }
}

#[test]
fn triangle_half_edge_loop() {
    let mut cov = MeshCoverage::new("c".to_string());
    let ids: Vec<u32> = (0..3).map(|k| node(&mut cov, k as f64, 0.0, 0.0)).collect();
    let f = cov.create_face(ids[0], ids[1], ids[2], 0);
    cov.create_face_half_edges(ids[0], ids[1], ids[2], 0, f);
    let e2 = cov.query_half_edge_by_id(3).unwrap();
    assert_eq!((e2.start_id, e2.end_id, e2.prev_id, e2.next_id), (ids[2], ids[0], 2, 1));
    assert!(cov.query_half_edge_by_id(4).is_none());
    assert_eq!(cov.half_edge_ids_left(), u32::MAX - 3);
}

#[test]
fn generate_half_edges_builds_every_face() {
    let mut cov = MeshCoverage::new("c".to_string());
    let a = node(&mut cov, 0.0, 0.0, 0.0);
    let b = node(&mut cov, 1.0, 0.0, 0.0);
    let c = node(&mut cov, 1.0, 1.0, 0.0);
    let d = node(&mut cov, 0.0, 1.0, 0.0);
    let f1 = cov.create_face(a, b, c, 0);
    let f2 = cov.create_face(a, c, d, 0);
    cov.generate_half_edges();
    assert_eq!(cov.face_half_edge_adj().get_face_adj_half_edges(f1).unwrap().len(), 3);
    assert_eq!(cov.face_half_edge_adj().get_face_adj_half_edges(f2).unwrap().len(), 3);
    let ac = half_edge_along(&cov, f1, c, a);
    let ca = half_edge_along(&cov, f2, a, c);
    let twins = (
        cov.query_half_edge_by_id(ac).unwrap().twin_id,
        cov.query_half_edge_by_id(ca).unwrap().twin_id,
    );
    assert!(twins == (ca, 0) || twins == (0, ac));
}

#[test]
fn ids_left_counts_down() {
    let mut cov = MeshCoverage::new("c".to_string());
    assert_eq!(cov.node_ids_left(), u32::MAX);
    assert_eq!(cov.face_ids_left(), u32::MAX);
    let a = node(&mut cov, 0.0, 0.0, 0.0);
    assert!(cov.has_node(a));
    assert!(!cov.has_node(0));
    assert_eq!(cov.node_ids_left(), u32::MAX - 1);
}

#[test]
fn coverages_issue_ids_independently() {
    let mut one = MeshCoverage::new("one".to_string());
    let mut two = MeshCoverage::new("two".to_string());
    assert_eq!(node(&mut one, 0.0, 0.0, 0.0), 1);
    assert_eq!(node(&mut one, 0.0, 0.0, 0.0), 2);
    assert_eq!(node(&mut two, 0.0, 0.0, 0.0), 1);
    assert_eq!(one.id, "one");
}
