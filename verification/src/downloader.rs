//! The decisions of a download: which addresses are fetched, which responses
//! are accepted, how received data is counted, and when a download counts as
//! empty.
use vstd::prelude::*;
use crate::installer::fails_with;
use crate::text::{starts_with, string_of, to_chars};

verus! {

/// Only `https://` and `http://` addresses are downloaded.
pub open spec fn downloadable(url: Seq<char>) -> bool {
    starts_with(url, "https://"@) || starts_with(url, "http://"@)
}

/// Checks the address of a download and gives the first progress line.
pub fn start_download(url: &str, name: &str) -> (r: Result<String, String>)
    ensures
        downloadable(url@) ==> r is Ok && r->Ok_0@ == "Downloading "@ + name@ + "..."@,
        !downloadable(url@) ==> fails_with(r, "Only http:// and https:// downloads are allowed."@),
{
    let u = to_chars(url);
    if !(crate::text::starts_with_str(&u, "https://") || crate::text::starts_with_str(&u, "http://")) {
        return Err(string_of("Only http:// and https:// downloads are allowed."));
    }
    Ok(crate::text::concat3("Downloading ", name, "..."))
}

/// A download in progress.
#[derive(Clone, Copy, Debug)]
pub struct DownloadSession {
    /// Bytes received so far.
    pub downloaded: u64,
    /// The announced length, 0 when the server announced none.
    pub total: u64,
}

/// What to do with a received piece of data.
#[derive(Clone, Copy, Debug, PartialEq, Eq, Structural)]
pub enum ChunkAction {
    /// An empty piece: nothing to write.
    Skip,
    /// Write the piece, then report progress when `report_progress` holds.
    Write { report_progress: bool },
}

impl DownloadSession {
    /// Accepts or rejects the server's response: a response that is not a
    /// success fails with its status (as `status_text` shows it).
    pub fn on_response(success: bool, status_text: &str, content_length: Option<u64>) -> (r: Result<DownloadSession, String>)
        ensures
            success ==> r is Ok && r->Ok_0.downloaded == 0 && r->Ok_0.total == match content_length {
                Some(n) => n,
                None => 0,
            },
            !success ==> r is Err && r->Err_0@ == "Download failed with HTTP status "@ + status_text@ + "."@,
    {
        if !success {
            return Err(crate::text::concat3("Download failed with HTTP status ", status_text, "."));
        }
        let total = match content_length {
            Some(n) => n,
            None => 0,
        };
        Ok(DownloadSession { downloaded: 0, total })
    }

    /// Counts a received piece of `len` bytes.
    pub fn on_chunk(&mut self, len: u64) -> (r: ChunkAction)
        requires
            old(self).downloaded + len <= u64::MAX,
        ensures
            final(self).total == old(self).total,
            final(self).downloaded == old(self).downloaded + len,
            len == 0 ==> r == ChunkAction::Skip,
            len > 0 ==> r == (ChunkAction::Write { report_progress: old(self).total > 0 }),
    {
        if len == 0 {
            return ChunkAction::Skip;
        }
        self.downloaded = self.downloaded + len;
        ChunkAction::Write { report_progress: self.total > 0 }
    }

    /// Whether one more piece of `len` bytes can be counted.
    pub fn can_count(&self, len: u64) -> (r: bool)
        ensures
            r == (self.downloaded + len <= u64::MAX),
    {
        len <= u64::MAX - self.downloaded
    }

    /// Ends the transfer: a download that received no data fails.
    pub fn finish(&self) -> (r: Result<(), String>)
        ensures
            self.downloaded == 0 ==> fails_with(r, "Download completed with no data."@),
            self.downloaded > 0 ==> r is Ok,
    {
        if self.downloaded == 0 {
            Err(string_of("Download completed with no data."))
        } else {
            Ok(())
        }
    }
}

} // verus!
