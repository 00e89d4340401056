use mindbase::allegation::{Allegation, Body};
use mindbase::ids::{AgentId, AllegationId};

fn alleg(n: u8) -> Allegation {
    let mut b = [0u8; 16];
    b[0] = n;
    Allegation { id: AllegationId::from_bytes(b), by: AgentId::from_bytes([1u8; 32]), body: Body::Unit, signature: [0u8; 64] }
}

#[test]
fn base64_is_standard_without_padding() {
    let mut b = [0u8; 16];
    for i in 0..16 {
        b[i] = i as u8;
    }
    assert_eq!(AllegationId::from_bytes(b).base64(), "AAECAwQFBgcICQoLDA0ODw");
    assert_eq!(AllegationId::from_bytes([255u8; 16]).base64(), "/////////////////////w");
}

#[test]
fn narrow_concept_points_only_at_the_allegation() {
    let a = alleg(9);
    let c = a.narrow_concept();
    assert_eq!(c.members.len(), 1);
    assert!(c.members[0] == *a.id());
    assert_eq!(a.id().as_bytes()[0], 9);
}

#[test]
fn new_ids_are_fresh() {
    let agent = AgentId::from_bytes([0u8; 32]);
    let a = AllegationId::new(&agent, Body::Unit);
    let b = AllegationId::new(&agent, Body::Unit);
    assert!(a != b);
}
