//! Fixed names and messages.

use vstd::prelude::*;

verus! {

/// Name of the storage directory, below the system's temporary directory.
pub const TEMP_DIR: &'static str = "temp";

/// Name of the registry file, inside the storage directory.
pub const FILE_LIST_FILE: &'static str = "temp_files";

/// What the name of every slot file starts with; the time of its creation, in
/// milliseconds, follows.
pub const TEMPFILE_PREFIX: &'static str = "tempfile_";

/// Said when the input selector names no slot.
pub const ERR_INVALID_INFILE: &'static str = "invalid input file";

/// Said when the output selector names no slot.
pub const ERR_INVALID_OUTFILE: &'static str = "invalid output file";

/// Said when a file that a run has to read cannot be read.
pub const ERR_UNREADABLE: &'static str = "cannot read file";

} // verus!
