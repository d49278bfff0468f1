//! The decisions of the loop that waits for the control channel and for the
//! notification handle.
use crate::kernel;
use crate::record::{decode, spec_decode, ByteOrder, ProtocolError, RawRecord};
use vstd::prelude::*;

verus! {

/// One of the two sources that the loop waits for.
#[derive(Clone, Copy, Debug, PartialEq, Eq, Structural)]
pub enum Source {
    /// The control channel of the operator.
    Control,
    /// The notification handle of the kernel.
    Notification,
}

/// Why a read of the notification handle ends the loop.
#[derive(Clone, Copy, Debug, PartialEq, Eq, Structural)]
pub enum ReadError {
    /// The records cannot be trusted.
    Protocol(ProtocolError),
    /// The read failed with this error code of the operating system.
    Io(i32),
}

/// The error code of a read that would have blocked.
pub const WOULD_BLOCK: i32 = 11;

/// The error code of a read that a signal interrupted.
pub const INTERRUPTED: i32 = 4;

/// Whether a read that failed with `code` is tried again: it would have
/// blocked, or a signal interrupted it.
pub open spec fn spec_is_transient(code: i32) -> bool {
    code == WOULD_BLOCK || code == INTERRUPTED
}

/// The sources to serve after a wait that reported `ready` sources, in the
/// order in which they are served: the control channel before the notification
/// handle, each only where the wait reported something for it.
pub open spec fn spec_dispatch(ready: i32, control: i16, notification: i16) -> Seq<Source> {
    if ready > 0 {
        (if control > 0 {
            seq![Source::Control]
        } else {
            Seq::empty()
        }) + (if notification > 0 {
            seq![Source::Notification]
        } else {
            Seq::empty()
        })
    } else {
        Seq::empty()
    }
}

/// What a read of the notification handle yields.
///
/// A failed read that is tried again yields no record; another failed read is
/// an error. A read of `nread` bytes yields what these bytes decode to.
pub open spec fn spec_handle_fanotify(
    bytes: Seq<u8>,
    outcome: Result<usize, i32>,
    order: ByteOrder,
) -> Result<Seq<RawRecord>, ReadError> {
    match outcome {
        Err(code) => if spec_is_transient(code) {
            Ok(Seq::empty())
        } else {
            Err(ReadError::Io(code))
        },
        Ok(nread) => match spec_decode(bytes, nread as int, order) {
            Ok(records) => Ok(records),
            Err(error) => Err(ReadError::Protocol(error)),
        },
    }
}

/// Whether a read that failed with `code` is tried again.
pub fn is_transient(code: i32) -> (again: bool)
    ensures
        again == spec_is_transient(code),
{
    code == kernel::eagain() || code == kernel::eintr()
}

/// The sources to serve after a wait, in the order in which they are served.
///
/// `ready` is what the wait returned; `control` and `notification` are the
/// events that it reported for the two sources.
pub fn dispatch(ready: i32, control: i16, notification: i16) -> (sources: Vec<Source>)
    ensures
        sources@ == spec_dispatch(ready, control, notification),
{
    let mut sources: Vec<Source> = Vec::new();
    if ready > 0 {
        if control > 0 {
            sources.push(Source::Control);
        }
        if notification > 0 {
            sources.push(Source::Notification);
        }
    }
    assert(sources@ =~= spec_dispatch(ready, control, notification));
    sources
}

/// Turns the outcome of one read of the notification handle into records.
///
/// `outcome` is the number of bytes that the read put into `buf`, or the error
/// code of the operating system with which it failed.
pub fn handle_fanotify(buf: &[u8], outcome: Result<usize, i32>, order: ByteOrder) -> (handled:
    Result<Vec<RawRecord>, ReadError>)
    requires
        outcome matches Ok(nread) ==> nread <= buf.len(),
    ensures
        match handled {
            Ok(records) => spec_handle_fanotify(buf@, outcome, order) == Ok::<
                Seq<RawRecord>,
                ReadError,
            >(records@),
            Err(error) => spec_handle_fanotify(buf@, outcome, order) == Err::<
                Seq<RawRecord>,
                ReadError,
            >(error),
        },
{
    match outcome {
        Err(code) => {
            if is_transient(code) {
                Ok(Vec::new())
            } else {
                Err(ReadError::Io(code))
            }
        },
        Ok(nread) => match decode(buf, nread, order) {
            Ok(records) => Ok(records),
            Err(error) => Err(ReadError::Protocol(error)),
        },
    }
}

} // verus!
