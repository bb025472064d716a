//! Download progress: a monotonic counter of verified pieces and the
//! human-readable progress line emitted for each.

use vstd::prelude::*;
use vstd::string::StringExecFns;
use crate::text::spec_decimal;
use crate::text::u64_to_decimal;

verus! {

/// Progress of the whole download.
pub struct DownloadStatus {
    pub total_pieces: u32,
    pub pieces_downloaded: u32,
}

/// The progress line for `st` after piece `index` was counted:
/// `[done/total, pct%] Piece <index> downloaded`.
pub open spec fn spec_progress_line(st: DownloadStatus, index: nat) -> Seq<char> {
    "["@ + spec_decimal(st.pieces_downloaded as nat) + "/"@ + spec_decimal(st.total_pieces as nat)
        + ", "@ + spec_decimal(
        (100 * st.pieces_downloaded as nat) / st.total_pieces as nat,
    ) + "%] Piece "@ + spec_decimal(index) + " downloaded"@
}

impl DownloadStatus {
    /// The counter never runs past the number of pieces of the torrent.
    pub open spec fn wf(self) -> bool {
        self.pieces_downloaded <= self.total_pieces
    }

    /// A fresh counter: nothing downloaded yet.
    pub fn new(total_pieces: u32) -> (s: DownloadStatus)
        ensures
            s.wf(),
            s.total_pieces == total_pieces,
            s.pieces_downloaded == 0,
    {
        DownloadStatus { total_pieces, pieces_downloaded: 0 }
    }

    /// Counts one newly verified piece. The count strictly increases on every
    /// counted piece and never exceeds `total_pieces`; a delivery beyond the
    /// total is refused rather than counted twice.
    pub fn record_piece(&mut self) -> (counted: bool)
        requires
            old(self).wf(),
        ensures
            final(self).wf(),
            final(self).total_pieces == old(self).total_pieces,
            counted == (old(self).pieces_downloaded < old(self).total_pieces),
            counted ==> final(self).pieces_downloaded == old(self).pieces_downloaded + 1,
            !counted ==> final(self).pieces_downloaded == old(self).pieces_downloaded,
    {
        if self.pieces_downloaded < self.total_pieces {
            self.pieces_downloaded = self.pieces_downloaded + 1;
            true
        } else {
            false
        }
    }

    /// Whole percentage of pieces downloaded.
    pub fn percent(&self) -> (p: u32)
        requires
            self.wf(),
            self.total_pieces > 0,
        ensures
            p == (100 * self.pieces_downloaded as nat) / self.total_pieces as nat,
            p <= 100,
    {
        let p64: u64 = (100u64 * self.pieces_downloaded as u64) / (self.total_pieces as u64);
        proof {
            assert(100 * self.pieces_downloaded as nat <= 100 * self.total_pieces as nat)
                by (nonlinear_arith)
                requires
                    self.pieces_downloaded <= self.total_pieces,
            ;
            assert((100 * self.pieces_downloaded as nat) / self.total_pieces as nat <= 100)
                by (nonlinear_arith)
                requires
                    self.total_pieces > 0,
                    self.pieces_downloaded <= self.total_pieces,
            ;
        }
        p64 as u32
    }

    /// The progress line for the piece that was just counted.
    pub fn progress_line(&self, index: usize) -> (s: String)
        requires
            self.wf(),
            self.total_pieces > 0,
        ensures
            s@ == spec_progress_line(*self, index as nat),
    {
        let mut s = String::new();
        s.append("[");
        let done = u64_to_decimal(self.pieces_downloaded as u64);
        s.append(done.as_str());
        s.append("/");
        let total = u64_to_decimal(self.total_pieces as u64);
        s.append(total.as_str());
        s.append(", ");
        let pct = u64_to_decimal(self.percent() as u64);
        s.append(pct.as_str());
        s.append("%] Piece ");
        let idx = u64_to_decimal(index as u64);
        s.append(idx.as_str());
        s.append(" downloaded");
        s
    }
}

} // verus!
