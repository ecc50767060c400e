//! Outcome rules of a single transfer: which responses count as success,
//! what can go wrong, and how written bytes are accounted for.

use vstd::prelude::*;

verus! {

/// Why a download, or one attempt at it, failed.
#[derive(Clone, Debug, PartialEq, Eq)]
pub enum TransferError {
    /// The source locator could not be parsed; nothing was sent.
    InvalidSource { source: String, message: String },
    /// The server answered with a status outside the success range.
    BadStatus { source: String, status: u16 },
    /// The connection or the response stream failed.
    Network { source: String, message: String },
    /// Creating, writing or flushing the local file failed.
    Io { path: String, message: String },
}

/// An HTTP status in the success range `200..=299`.
pub open spec fn is_success_status(status: u16) -> bool {
    200 <= status <= 299
}

/// Decides whether a response with `status` may be written out.
pub fn check_status(source: &String, status: u16) -> (r: Result<(), TransferError>)
    ensures
        r is Ok <==> is_success_status(status),
        r is Err ==> (match r {
            Err(TransferError::BadStatus { source: s, status: c }) => s@ == source@ && c == status,
            _ => false,
        }),
{
    if 200 <= status && status <= 299 {
        Ok(())
    } else {
        Err(TransferError::BadStatus { source: source.clone(), status })
    }
}

/// Byte accounting of one streaming transfer, fed to a progress sink.
pub struct TransferProgress {
    /// Size announced by the server, when it announced one.
    pub total_hint: Option<u64>,
    /// Bytes written to the target so far.
    pub written: u64,
}

impl TransferProgress {
    /// Accounting for a transfer that has written nothing yet.
    pub fn new(total_hint: Option<u64>) -> (r: TransferProgress)
        ensures
            r.total_hint == total_hint,
            r.written == 0,
    {
        TransferProgress { total_hint, written: 0 }
    }

    /// Records a chunk of `len` bytes written to the target and returns the
    /// increment to report. The running total saturates at `u64::MAX`.
    pub fn record_chunk(&mut self, len: usize) -> (r: u64)
        ensures
            r == len as u64,
            final(self).total_hint == old(self).total_hint,
            final(self).written == if old(self).written + len <= u64::MAX {
                (old(self).written + len) as u64
            } else {
                u64::MAX
            },
    {
        let n = len as u64;
        self.written = self.written.saturating_add(n);
        n
    }

    /// The size to show as the transfer's total; zero when it is unknown.
    pub fn total_or_zero(&self) -> (r: u64)
        ensures
            r == match self.total_hint {
                Some(t) => t,
                None => 0,
            },
    {
        match self.total_hint {
            Some(t) => t,
            None => 0,
        }
    }
}

} // verus!
