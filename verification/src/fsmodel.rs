//! A snapshot of the parts of the filesystem that planning reads.

use vstd::prelude::*;

verus! {

/// One node of a filesystem snapshot, taken without following symlinks.
///
/// Paths inside the snapshot are addressed by the names on the edges; a
/// directory's children appear in directory-read order.  A `Link`
/// records the link's canonical resolution, or `None` when the link is
/// broken.  On the source side of a mapping anything that is not a
/// directory is planned like a file, so a plain `File` stands for it.
pub enum FsNode {
    File,
    Dir(Vec<(String, FsNode)>),
    Link(Option<String>),
}

} // verus!

