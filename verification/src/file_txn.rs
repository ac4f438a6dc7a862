//! File-processing bookkeeping: the ordered operation list of one
//! processing transaction, and the integrity snapshot that detects a file
//! changing underneath the pipeline. Performing the operations and reading
//! file metadata stay with the caller.

use vstd::prelude::*;

use vstd::string::StringExecFns;

verus! {

/// One planned file operation.
pub enum TransactionOperation {
    /// Write an NFO file at a path with the given content.
    CreateNfo(String, String),
    /// Move a file from one path to another.
    MoveFile(String, String),
    /// Create a directory at a path.
    CreateDirectory(String),
}

/// The ordered plan of operations for processing one file. Operations are
/// only ever appended, so the plan replays in the order it was built.
pub struct FileProcessingTransaction {
    pub original_path: String,
    pub operations: Vec<TransactionOperation>,
    pub completed: bool,
}

impl FileProcessingTransaction {
    /// An empty plan for the given file.
    pub fn new(original_path: &str) -> (r: FileProcessingTransaction)
        ensures
            r.original_path@ == original_path@,
            r.operations@.len() == 0,
            r.completed == false,
    {
        let mut owned = String::new();
        owned.append(original_path);
        FileProcessingTransaction { original_path: owned, operations: Vec::new(), completed: false }
    }

    /// Plan writing an NFO file.
    pub fn add_nfo_creation(&mut self, path: String, content: String)
        ensures
            final(self).operations@ == old(self).operations@.push(
                TransactionOperation::CreateNfo(path, content),
            ),
            final(self).original_path == old(self).original_path,
            final(self).completed == old(self).completed,
    {
        self.operations.push(TransactionOperation::CreateNfo(path, content));
    }

    /// Plan moving a file.
    pub fn add_file_move(&mut self, from: String, to: String)
        ensures
            final(self).operations@ == old(self).operations@.push(
                TransactionOperation::MoveFile(from, to),
            ),
            final(self).original_path == old(self).original_path,
            final(self).completed == old(self).completed,
    {
        self.operations.push(TransactionOperation::MoveFile(from, to));
    }

    /// Plan creating a directory.
    pub fn add_directory_creation(&mut self, path: String)
        ensures
            final(self).operations@ == old(self).operations@.push(
                TransactionOperation::CreateDirectory(path),
            ),
            final(self).original_path == old(self).original_path,
            final(self).completed == old(self).completed,
    {
        self.operations.push(TransactionOperation::CreateDirectory(path));
    }
}

/// A snapshot of a file's size and modification time, and the decision
/// whether a later observation still matches it.
pub struct FileIntegrityChecker {
    pub path: String,
    pub initial_size: u64,
    pub initial_modified_nanos: u128,
}

impl FileIntegrityChecker {
    /// A snapshot from observed metadata.
    pub fn new(path: &str, size: u64, modified_nanos: u128) -> (r: FileIntegrityChecker)
        ensures
            r.path@ == path@,
            r.initial_size == size,
            r.initial_modified_nanos == modified_nanos,
    {
        let mut owned = String::new();
        owned.append(path);
        FileIntegrityChecker { path: owned, initial_size: size, initial_modified_nanos: modified_nanos }
    }

    /// Whether a later observation still matches the snapshot: a missing
    /// file, a size change, or a modification-time change all fail.
    pub fn verify_integrity(&self, current: Option<(u64, u128)>) -> (r: bool)
        ensures
            r == (current matches Some(c) && c.0 == self.initial_size && c.1
                == self.initial_modified_nanos),
    {
        match current {
            None => false,
            Some((size, modified)) => size == self.initial_size && modified
                == self.initial_modified_nanos,
        }
    }
}

} // verus!
