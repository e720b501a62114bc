//! The core of a directory-listing command: how the command line becomes a
//! configuration, which names of a directory are printed, and with which
//! status the command ends.
//!
//! Nothing here touches the file system or the process: the caller reads the
//! directory and hands over plain names.

use vstd::prelude::*;

pub mod args;
pub mod listing;
pub mod status;

verus! {

/// The characters of each string, in order.
pub open spec fn texts(strings: Seq<String>) -> Seq<Seq<char>> {
    Seq::new(strings.len(), |i: int| strings[i]@)
}

} // verus!
