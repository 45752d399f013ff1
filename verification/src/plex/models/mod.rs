//! The documents that the target library answers with.

pub mod extras;
pub mod metadata;
pub mod providers;

use vstd::prelude::*;

verus! {

/// The envelope of every answer: one container.
#[derive(Debug, Clone)]
pub struct MediaContainerWrapper<T> {
    pub media_container: T,
}

} // verus!
