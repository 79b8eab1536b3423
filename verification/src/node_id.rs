//! Node identities.

use vstd::prelude::*;
use vstd::std_specs::cmp::{PartialEqSpec, PartialEqSpecImpl};
use vstd::std_specs::convert::FromSpecImpl;

use crate::bytes::{be_bytes, bytes_equal, copy_of, lemma_be_bytes_injective, lemma_be_bytes_len, push_be};

verus! {

/// Maximum length of a [`NodeId`]. It prevents accidental misconfiguration with
/// oversized identities.
pub const MAX_NODE_ID_LEN: usize = 512;

/// Returned by [`NodeId::try_from_bytes`] when the byte vector exceeds
/// [`MAX_NODE_ID_LEN`]. The inner value is the rejected length.
#[derive(Debug, Clone, Copy, PartialEq, Eq, Structural)]
pub struct NodeIdTooLong(pub usize);

/// Opaque byte string that uniquely identifies a node in the cluster.
///
/// Constructed from a raw byte vector via [`NodeId::try_from_bytes`] (bounded to
/// [`MAX_NODE_ID_LEN`] bytes), or from integers (big-endian encoded). The bytes are
/// opaque; callers choose a globally unique identity scheme.
#[derive(Debug)]
pub struct NodeId(Vec<u8>);

impl View for NodeId {
    type V = Seq<u8>;

    closed spec fn view(&self) -> Seq<u8> {
        self.0@
    }
}

impl NodeId {
    #[verifier::type_invariant]
    spec fn within_limit(self) -> bool {
        self.0@.len() <= MAX_NODE_ID_LEN
    }

    /// The node id that `bytes` are, unless they are too many.
    pub fn try_from_bytes(bytes: Vec<u8>) -> (r: Result<Self, NodeIdTooLong>)
        ensures
            match r {
                Ok(id) => bytes@.len() <= MAX_NODE_ID_LEN && id@ == bytes@,
                Err(e) => bytes@.len() > MAX_NODE_ID_LEN && e == NodeIdTooLong(
                    bytes@.len() as usize,
                ),
            },
    {
        if bytes.len() > MAX_NODE_ID_LEN {
            Err(NodeIdTooLong(bytes.len()))
        } else {
            Ok(Self(bytes))
        }
    }

    /// The bytes of the node id; never more than [`MAX_NODE_ID_LEN`].
    pub fn as_bytes(&self) -> (bytes: &[u8])
        ensures
            bytes@ == self@,
            self@.len() <= MAX_NODE_ID_LEN,
    {
        proof {
            use_type_invariant(self);
        }
        self.0.as_slice()
    }
}

impl Clone for NodeId {
    fn clone(&self) -> (r: Self)
        ensures
            r@ == self@,
    {
        proof {
            use_type_invariant(self);
        }
        NodeId(copy_of(self.0.as_slice()))
    }
}

impl PartialEq for NodeId {
    fn eq(&self, other: &Self) -> (r: bool) {
        bytes_equal(self.0.as_slice(), other.0.as_slice())
    }
}

impl PartialEqSpecImpl for NodeId {
    open spec fn obeys_eq_spec() -> bool {
        true
    }

    open spec fn eq_spec(&self, other: &Self) -> bool {
        self@ == other@
    }
}

impl Eq for NodeId {

}

impl From<u64> for NodeId {
    fn from(value: u64) -> (id: Self)
        ensures
            id@ == be_bytes(value as nat, 8),
    {
        proof {
            lemma_be_bytes_len(value as nat, 8);
        }
        let mut bytes: Vec<u8> = Vec::new();
        push_be(&mut bytes, value, 8);
        NodeId(bytes)
    }
}

impl FromSpecImpl<u64> for NodeId {
    open spec fn obeys_from_spec() -> bool {
        false
    }

    open spec fn from_spec(value: u64) -> Self {
        arbitrary()
    }
}

impl From<u32> for NodeId {
    fn from(value: u32) -> (id: Self)
        ensures
            id@ == be_bytes(value as nat, 4),
    {
        proof {
            lemma_be_bytes_len(value as nat, 4);
        }
        let mut bytes: Vec<u8> = Vec::new();
        push_be(&mut bytes, value as u64, 4);
        NodeId(bytes)
    }
}

impl FromSpecImpl<u32> for NodeId {
    open spec fn obeys_from_spec() -> bool {
        false
    }

    open spec fn from_spec(value: u32) -> Self {
        arbitrary()
    }
}

/// Different integers of one width give different node ids, and an integer of 32 bits
/// never gives the node id of one of 64 bits.
pub proof fn lemma_integer_ids_differ(a: nat, b: nat, width: nat, other_width: nat)
    requires
        width == 4 || width == 8,
        other_width == 4 || other_width == 8,
        a < crate::bytes::byte_range(width),
        b < crate::bytes::byte_range(other_width),
        be_bytes(a, width) == be_bytes(b, other_width),
    ensures
        width == other_width,
        a == b,
{
    lemma_be_bytes_len(a, width);
    lemma_be_bytes_len(b, other_width);
    lemma_be_bytes_injective(a, b, width);
}

/// Two node ids are equal exactly if their bytes are.
pub proof fn lemma_node_id_equality(a: NodeId, b: NodeId)
    ensures
        <NodeId as PartialEqSpec>::obeys_eq_spec(),
        PartialEqSpec::eq_spec(&a, &b) <==> a@ == b@,
{
}

/// `From` of a type for itself, which std documents to return its argument unchanged.
pub assume_specification<Any>[ <Any as std::convert::From<Any>>::from ](value: Any) -> (r: Any)
    ensures
        r == value,
;

} // verus!
