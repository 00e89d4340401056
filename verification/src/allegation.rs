//! Allegations: signed statements an agent makes, each with its own id.
use vstd::prelude::*;

use crate::ids::{lemma_allegation_id_len, AgentId, AllegationId, ArtifactId};
use crate::symbol::{Analogy, Concept};
use crate::wrappers::{base64_standard_no_pad, encode_standard_no_pad, generate_ulid_bytes};

verus! {

impl AllegationId {
    /// A fresh id for an allegation of `body` by `agent`: the bytes of a new ULID, made of
    /// the clock and a random number, whatever the agent and body.
    pub fn new(agent: &AgentId, body: Body) -> (r: Self) {
        AllegationId(generate_ulid_bytes())
    }

    /// The id in standard base64 without padding, as it is displayed.
    pub fn base64(&self) -> (r: String)
        ensures
            r@ == base64_standard_no_pad(self@),
    {
        proof {
            lemma_allegation_id_len(*self);
        }
        let b = self.as_bytes();
        encode_standard_no_pad(b)
    }
}

/// What an allegation states.
pub enum Body {
    Unit,
    Agent(AgentId),
    Analogy(Analogy),
    Artifact(ArtifactId),
}

/// A statement made and signed by an agent.
pub struct Allegation {
    pub id: AllegationId,
    pub by: AgentId,
    pub body: Body,
    pub signature: [u8; 64],
}

impl Allegation {
    /// A concept that points exclusively to this allegation.
    ///
    /// Narrow concepts should be created only when referring to entities just created;
    /// otherwise the graph does not converge.
    pub fn narrow_concept(&self) -> (r: Concept)
        ensures
            r.members@ == seq![self.id],
    {
        let mut members: Vec<AllegationId> = Vec::new();
        members.push(*self.id());
        Concept { members }
    }

    /// The id of this allegation.
    pub fn id(&self) -> (r: &AllegationId)
        ensures
            *r == self.id,
    {
        &self.id
    }
}

} // verus!
