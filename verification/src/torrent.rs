//! Read-only description of the torrent, shared by every worker.

use vstd::prelude::*;

verus! {

/// One file of the torrent's content.
pub struct FileInfo {
    pub path: String,
    pub size: usize,
}

/// What the metainfo says about the torrent: the piece length, the expected
/// SHA-1 digest of every piece, and the files the content is split into.
pub struct TorrentData {
    pub piece_length: usize,
    pub pieces: Vec<Vec<u8>>,
    pub files: Vec<FileInfo>,
}

impl TorrentData {
    /// Every piece digest is 20 bytes long.
    pub open spec fn wf(self) -> bool {
        forall|i: int| 0 <= i < self.pieces@.len() ==> (#[trigger] self.pieces@[i])@.len() == 20
    }
}

} // verus!
