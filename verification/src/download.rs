//! Downloads with progress: the partial file a download is written to, when
//! progress is reported, and when a finished download is accepted.

use vstd::prelude::*;
use crate::paths::{file_name, file_name_spec, strip_tail};
use crate::text::concat;

verus! {

/// Progress is reported at most once per this many bytes.
pub const NOTIFY_EVERY: u64 = 4 * 1024 * 1024;

/// The file a download is written to before it is renamed to `dest`: the
/// same path with `.part` after its file name; an error when `dest` has no
/// file name.
pub fn partial_path(dest: &str) -> (r: Result<String, String>)
    ensures
        match file_name_spec(dest@) {
            None => r matches Err(e) && e@ == "Ruta de descarga inválida."@,
            Some(_) => r matches Ok(p) && p@ == strip_tail(dest@) + ".part"@,
        },
{
    match file_name(dest) {
        None => Err("Ruta de descarga inválida.".to_owned()),
        Some(_) => {
            let base = crate::paths::without_tail(dest);
            Ok(concat(base.as_str(), ".part"))
        },
    }
}

/// The bytes received so far and when progress was last reported.
#[derive(Debug)]
pub struct DownloadProgress {
    downloaded: u64,
    last_notified: u64,
}

impl DownloadProgress {
    pub closed spec fn downloaded_spec(&self) -> u64 {
        self.downloaded
    }

    pub closed spec fn last_notified_spec(&self) -> u64 {
        self.last_notified
    }

    /// Nothing received yet.
    pub fn new() -> (p: Self)
        ensures
            p.downloaded_spec() == 0,
            p.last_notified_spec() == 0,
    {
        DownloadProgress { downloaded: 0, last_notified: 0 }
    }

    /// Counts `read` more bytes; returns the total to report when at least
    /// `NOTIFY_EVERY` bytes came since the last report.
    pub fn record(&mut self, read: u64) -> (r: Option<u64>)
        requires
            old(self).last_notified_spec() <= old(self).downloaded_spec(),
            old(self).downloaded_spec() + read <= u64::MAX,
        ensures
            final(self).downloaded_spec() == old(self).downloaded_spec() + read,
            final(self).last_notified_spec() <= final(self).downloaded_spec(),
            final(self).downloaded_spec() - old(self).last_notified_spec() >= NOTIFY_EVERY ==> {
                &&& r == Some(final(self).downloaded_spec())
                &&& final(self).last_notified_spec() == final(self).downloaded_spec()
            },
            final(self).downloaded_spec() - old(self).last_notified_spec() < NOTIFY_EVERY ==> {
                &&& r is None
                &&& final(self).last_notified_spec() == old(self).last_notified_spec()
            },
    {
        self.downloaded = self.downloaded + read;
        if self.downloaded - self.last_notified >= NOTIFY_EVERY {
            self.last_notified = self.downloaded;
            Some(self.downloaded)
        } else {
            None
        }
    }

    /// The bytes received so far.
    pub fn downloaded(&self) -> (r: u64)
        ensures
            r == self.downloaded_spec(),
    {
        self.downloaded
    }

    /// Accepts the finished download: an error when nothing came.
    pub fn finish(&self) -> (r: Result<u64, String>)
        ensures
            self.downloaded_spec() == 0 ==> (r matches Err(e) && e@
                == "La descarga llegó vacía; reintenta."@),
            self.downloaded_spec() > 0 ==> r == Ok::<u64, String>(self.downloaded_spec()),
    {
        if self.downloaded == 0 {
            Err("La descarga llegó vacía; reintenta.".to_owned())
        } else {
            Ok(self.downloaded)
        }
    }
}

} // verus!
