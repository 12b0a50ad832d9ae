use mesh_dcel::adjacency::{FaceHalfEdgeAdj, NodeFaceAdj};
use mesh_dcel::bbox::precedes;
use mesh_dcel::entities::HalfEdge;
use mesh_dcel::ids::generate_id;
use mesh_dcel::message::{Message, MessageId};

#[test]
fn generate_id_counts_from_one() {
    let mut counter: u32 = 0;
    assert_eq!(generate_id(&mut counter), 1);
    assert_eq!(generate_id(&mut counter), 2);
    assert_eq!(counter, 2);
    let mut high: u32 = u32::MAX - 1;
    assert_eq!(generate_id(&mut high), u32::MAX);
}

#[test]
fn node_face_adj_bind_is_idempotent() {
    let mut adj = NodeFaceAdj::new();
    assert!(adj.get_node_adj_faces(1).is_none());
    adj.bind(1, 10);
    adj.bind(1, 10);
    adj.bind(1, 11);
    assert_eq!(adj.get_node_adj_faces(1).unwrap().len(), 2);
    adj.unbind(1, 10);
    adj.unbind(1, 99);
    adj.unbind(2, 10);
    let set = adj.get_node_adj_faces(1).unwrap();
    assert_eq!(set.len(), 1);
    assert!(set.contains(&11));
    assert!(adj.get_node_adj_faces(2).is_none());
    adj.unbind(1, 11);
    assert!(adj.get_node_adj_faces(1).unwrap().is_empty());
    adj.remove_node(1);
    assert!(adj.get_node_adj_faces(1).is_none());
}

#[test]
fn face_half_edge_adj_operations() {
    let mut adj = FaceHalfEdgeAdj::new();
    adj.bind(5, 1);
    adj.bind(5, 2);
    adj.bind(6, 3);
    assert_eq!(adj.get_face_adj_half_edges(5).unwrap().len(), 2);
    adj.unbind(5, 1);
    assert!(!adj.get_face_adj_half_edges(5).unwrap().contains(&1));
    adj.remove_face(5);
    assert!(adj.get_face_adj_half_edges(5).is_none());
    assert!(adj.get_face_adj_half_edges(6).unwrap().contains(&3));
}

#[test]
fn total_order_on_bit_patterns() {
    let b = |v: f64| v.to_bits();
    assert!(precedes(b(-1.0), b(1.0)));
    assert!(precedes(b(-2.0), b(-1.0)));
    assert!(!precedes(b(-1.0), b(-2.0)));
    assert!(precedes(b(-0.0), b(0.0)));
    assert!(precedes(b(f64::NEG_INFINITY), b(f64::MIN)));
    assert!(precedes(b(f64::MAX), b(f64::INFINITY)));
    assert!(!precedes(b(3.0), b(3.0)));
    assert!(precedes(b(0.5), b(0.75)));
}

#[test]
fn message_holds_its_parts() {
    let m = Message::new(MessageId::Resized, (640u32, 480u32));
    assert_eq!(m.message_id, MessageId::Resized);
    assert_eq!(m.data, (640, 480));
}

#[test]
fn half_edge_new_keeps_fields() {
    let h = HalfEdge::new(1, 2, 3, 4, 5, 6);
    assert_eq!((h.start_id, h.end_id, h.face_id, h.prev_id, h.next_id, h.twin_id), (1, 2, 3, 4, 5, 6));
}
