//! The kernel's constants, read from the `libc` crate.
//!
//! Every function here is trusted: its body reads one item of `libc`, and its
//! contract states the value that `libc` declares for Linux. Nothing in this
//! file is proved; the rest of the crate is proved from these contracts.
use vstd::prelude::*;

verus! {

/// Reads `libc::FAN_ACCESS`: a file was read. Trusted to be `0x0000_0001`, the
/// value that `libc` declares for Linux.
#[verifier::external_body]
pub(crate) fn fan_access() -> (bits: u64)
    ensures
        bits == 0x0000_0001u64,
{
    libc::FAN_ACCESS
}

/// Reads `libc::FAN_MODIFY`: a file was written. Trusted to be `0x0000_0002`,
/// the value that `libc` declares for Linux.
#[verifier::external_body]
pub(crate) fn fan_modify() -> (bits: u64)
    ensures
        bits == 0x0000_0002u64,
{
    libc::FAN_MODIFY
}

/// Reads `libc::FAN_CLOSE_WRITE`: a file that was open for writing was closed.
/// Trusted to be `0x0000_0008`, the value that `libc` declares for Linux.
#[verifier::external_body]
pub(crate) fn fan_close_write() -> (bits: u64)
    ensures
        bits == 0x0000_0008u64,
{
    libc::FAN_CLOSE_WRITE
}

/// Reads `libc::FAN_CLOSE_NOWRITE`: a file that was open for reading only was
/// closed. Trusted to be `0x0000_0010`, the value that `libc` declares for
/// Linux.
#[verifier::external_body]
pub(crate) fn fan_close_nowrite() -> (bits: u64)
    ensures
        bits == 0x0000_0010u64,
{
    libc::FAN_CLOSE_NOWRITE
}

/// Reads `libc::FAN_OPEN`: a file was opened. Trusted to be `0x0000_0020`, the
/// value that `libc` declares for Linux.
#[verifier::external_body]
pub(crate) fn fan_open() -> (bits: u64)
    ensures
        bits == 0x0000_0020u64,
{
    libc::FAN_OPEN
}

/// Reads `libc::FAN_Q_OVERFLOW`: the queue of events overflowed. Trusted to be
/// `0x0000_4000`, the value that `libc` declares for Linux.
#[verifier::external_body]
pub(crate) fn fan_q_overflow() -> (bits: u64)
    ensures
        bits == 0x0000_4000u64,
{
    libc::FAN_Q_OVERFLOW
}

/// Reads `libc::FAN_OPEN_PERM`: an open waits for an answer. Trusted to be
/// `0x0001_0000`, the value that `libc` declares for Linux.
#[verifier::external_body]
pub(crate) fn fan_open_perm() -> (bits: u64)
    ensures
        bits == 0x0001_0000u64,
{
    libc::FAN_OPEN_PERM
}

/// Reads `libc::FAN_ACCESS_PERM`: a read waits for an answer. Trusted to be
/// `0x0002_0000`, the value that `libc` declares for Linux.
#[verifier::external_body]
pub(crate) fn fan_access_perm() -> (bits: u64)
    ensures
        bits == 0x0002_0000u64,
{
    libc::FAN_ACCESS_PERM
}

/// Reads `libc::FAN_EVENT_ON_CHILD`: the events of the children of a directory
/// are wanted. Trusted to be `0x0800_0000`, the value that `libc` declares for
/// Linux.
#[verifier::external_body]
pub(crate) fn fan_event_on_child() -> (bits: u64)
    ensures
        bits == 0x0800_0000u64,
{
    libc::FAN_EVENT_ON_CHILD
}

/// Reads `libc::FAN_ONDIR`: the event is about a directory. Trusted to be
/// `0x4000_0000`, the value that `libc` declares for Linux.
#[verifier::external_body]
pub(crate) fn fan_ondir() -> (bits: u64)
    ensures
        bits == 0x4000_0000u64,
{
    libc::FAN_ONDIR
}

/// Reads `libc::FAN_ALLOW`: the answer that lets the operation go on. Trusted
/// to be `0x01`, the value that `libc` declares for Linux.
#[verifier::external_body]
pub(crate) fn fan_allow() -> (bits: u32)
    ensures
        bits == 0x01u32,
{
    libc::FAN_ALLOW
}

/// Reads `libc::FAN_DENY`: the answer that refuses the operation. Trusted to be
/// `0x02`, the value that `libc` declares for Linux.
#[verifier::external_body]
pub(crate) fn fan_deny() -> (bits: u32)
    ensures
        bits == 0x02u32,
{
    libc::FAN_DENY
}

/// Reads `libc::FANOTIFY_METADATA_VERSION`: the one version of the event
/// record that the kernel writes. Trusted to be `3`, the value that `libc`
/// declares for Linux.
#[verifier::external_body]
pub(crate) fn metadata_version() -> (version: u8)
    ensures
        version == 3u8,
{
    libc::FANOTIFY_METADATA_VERSION
}

/// Asks `core::mem::size_of` for the size of `libc::fanotify_event_metadata`
/// in bytes. Trusted to be `24`: `libc` declares the struct with the layout of
/// C, fields of 4, 1, 1, 2, 8, 4 and 4 bytes in this order, and an alignment
/// of 8.
#[verifier::external_body]
pub(crate) fn metadata_len() -> (len: usize)
    ensures
        len == 24usize,
{
    core::mem::size_of::<libc::fanotify_event_metadata>()
}

/// Reads `libc::EAGAIN`: the error code of a read that would block. Trusted to
/// be `11`, the value that `libc` declares for Linux.
#[verifier::external_body]
pub(crate) fn eagain() -> (code: i32)
    ensures
        code == 11i32,
{
    libc::EAGAIN
}

/// Reads `libc::EINTR`: the error code of a read that a signal interrupted.
/// Trusted to be `4`, the value that `libc` declares for Linux.
#[verifier::external_body]
pub(crate) fn eintr() -> (code: i32)
    ensures
        code == 4i32,
{
    libc::EINTR
}

} // verus!
