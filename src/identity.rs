use vstd::prelude::*;

use crate::descriptor::{DescriptorView, ElementMap};

verus! {

/// The value that `rustc_hash::FxHasher` finishes with after it has been fed
/// the seed, then the tag, the attribute pairs and the optional text content,
/// each through `std::hash::Hash`.
pub uninterp spec fn fx_identity(
    seed: i64,
    tag: Seq<char>,
    attributes: Seq<(Seq<char>, Seq<char>)>,
    inner: Option<Seq<char>>,
) -> u64;

/// The identity of a descriptor under a seed: the key by which equal requests
/// are recognised.
pub open spec fn identity_of(seed: i64, d: DescriptorView) -> u64 {
    fx_identity(seed, d.tag, d.attributes, d.inner)
}

/// Relies on `rustc_hash::FxHasher` (its `Default`, `Hasher::write*` and
/// `finish`): a hasher that starts from a zero state and mixes in each word it
/// is fed with a fixed constant, so that what it finishes with depends on the
/// values fed alone (for the word size and byte order that the build targets).
#[verifier::external_body]
fn fx_hash(seed: i64, d: &ElementMap) -> (r: u64)
    ensures
        r == fx_identity(seed, d@.tag, d@.attributes, d@.inner),
{
    let mut hasher = rustc_hash::FxHasher::default();
    std::hash::Hash::hash(&seed, &mut hasher);
    std::hash::Hash::hash(&d.tag, &mut hasher);
    std::hash::Hash::hash(&d.attributes, &mut hasher);
    std::hash::Hash::hash(&d.inner_html, &mut hasher);
    std::hash::Hasher::finish(&hasher)
}

/// The identity of `d` under `seed`; the same seed and an equal descriptor
/// always give the same identity.
pub fn identity(seed: i64, d: &ElementMap) -> (r: u64)
    ensures
        r == identity_of(seed, d@),
{
    fx_hash(seed, d)
}

} // verus!
