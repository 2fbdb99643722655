//! Transform spaces, backed by `feo_math`.
//!
//! A node's local transform and the scene's world space are `feo_math`
//! spaces.  The verifier treats a space as an opaque value: what the tree
//! code proves is *which* spaces are composed and in what order, while the
//! numeric composition itself is done by `feo_math`.

use vstd::prelude::*;

verus! {

/// `feo_math`'s transform space, declared so it can stand in signatures
/// and fields.  Its contents stay opaque to verification.
#[verifier::external_type_specification]
#[verifier::external_body]
pub struct ExSpace(feo_math::utils::space::Space);

/// Relies on `feo_math::utils::space::Space::new`: a space with default
/// position, rotation and scale.
#[verifier::external_body]
pub(crate) fn space_default() -> feo_math::utils::space::Space {
    feo_math::utils::space::Space::new(None, None, None)
}

/// Relies on `feo_math::utils::space::Space` being `Copy`: hands back a
/// copy of the given space.
#[verifier::external_body]
pub(crate) fn space_copy(s: &feo_math::utils::space::Space) -> feo_math::utils::space::Space {
    *s
}

/// Relies on `feo_math::utils::space::Space::identity`: the identity
/// space.
#[verifier::external_body]
pub(crate) fn space_identity() -> feo_math::utils::space::Space {
    feo_math::utils::space::Space::identity()
}

/// Relies on `feo_math::utils::space::Space::join`: the composition that
/// places `inner` within `outer`.
#[verifier::external_body]
pub(crate) fn space_join(
    inner: &feo_math::utils::space::Space,
    outer: &feo_math::utils::space::Space,
) -> feo_math::utils::space::Space {
    inner.join(*outer)
}

/// Relies on `feo_math::utils::space::Space::join_reverse`: the inverse
/// composition, used to leave `outer` from `inner`.
#[verifier::external_body]
pub(crate) fn space_join_reverse(
    inner: &feo_math::utils::space::Space,
    outer: &feo_math::utils::space::Space,
) -> feo_math::utils::space::Space {
    inner.join_reverse(*outer)
}

} // verus!
