use vstd::prelude::*;

verus! {

/// Everything that can make an import fail.
#[derive(Debug, Clone, PartialEq, Eq)]
pub enum Error {
    /// The binary-container blob was referenced but is absent or already taken.
    MissingEmbeddedData,
    /// A resolved buffer is shorter than its declared length.
    CorruptBufferData,
    /// A mesh primitive has no position attribute.
    PrimitiveMissingPositions,
    /// A texture stored in a buffer view declares a byte stride.
    UnsupportedStridedImage,
    /// An optional collaborator is not available.
    CapabilityMissing(Capability),
    /// The document graph is malformed (for instance, its node hierarchy has a cycle).
    DocumentParseError,
    /// The asset store holds no entry under a requested path.
    AssetNotFound,
}

/// An optional collaborator that an import may need.
#[derive(Debug, Clone, Copy, PartialEq, Eq)]
pub enum Capability {
    /// Decoding image bytes into pixels.
    Image,
}

impl Capability {
    /// The collaborator's name.
    pub fn name(&self) -> (r: &'static str)
        ensures
            r@ == seq!['i', 'm', 'a', 'g', 'e'],
    {
        proof {
            reveal_strlit("image");
        }
        "image"
    }
}

} // verus!
