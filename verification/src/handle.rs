//! The open-file handle the adapter gives to the SQL engine.

use vstd::prelude::*;

verus! {

/// One open instance of a file. Several handles may be open on one path;
/// the identity tells them apart.
#[derive(Clone, Debug)]
pub struct GrpcVfsHandle {
    pub path: String,
    pub readonly: bool,
    pub handle_id: u64,
}

/// A handle as a plain value.
pub struct HandleView {
    pub path: Seq<char>,
    pub readonly: bool,
    pub handle_id: u64,
}

impl View for GrpcVfsHandle {
    type V = HandleView;

    open spec fn view(&self) -> HandleView {
        HandleView { path: self.path@, readonly: self.readonly, handle_id: self.handle_id }
    }
}

impl GrpcVfsHandle {
    /// A handle on `path` with the identity `handle_id`.
    pub fn new(path: String, readonly: bool, handle_id: u64) -> (handle: Self)
        ensures
            handle.path == path,
            handle.readonly == readonly,
            handle.handle_id == handle_id,
    {
        Self { path, readonly, handle_id }
    }

    /// Whether the file was opened for reading only.
    pub fn readonly(&self) -> (readonly: bool)
        ensures
            readonly == self.readonly,
    {
        self.readonly
    }

    /// Whether the file lives in memory only. It never does: its pages are
    /// in the store.
    pub fn in_memory(&self) -> (in_memory: bool)
        ensures
            !in_memory,
    {
        false
    }
}

} // verus!
