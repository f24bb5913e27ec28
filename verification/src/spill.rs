//! The spill store: a privately owned temporary file behind a
//! megabyte-scale write buffer.  The accumulator that trades memory
//! for storage appends one encoded record per line here; the file is
//! created on construction and deleted when the store is dropped.
//!
//! Everything here is a thin trusted layer over the `tempfile` crate
//! and std's buffered I/O: the contracts state what those do, and the
//! verified accumulator on top is proved against them.

use vstd::prelude::*;
use std::io::{BufRead, BufReader, BufWriter, Write};

verus! {

/// The write buffer in front of the temporary file.
pub const SPILL_BUFFER_SIZE: usize = 8 * 1024 * 1024;

/// A self-deleting temporary file behind a buffered writer.  Verus
/// sees it only through `store_lines`, `store_synced` and
/// `store_clean` and the operations below.
#[verifier::external_body]
pub struct SpillStore {
    writer: BufWriter<tempfile::NamedTempFile>,
}

/// The lines held by a spill store — every line appended whole so
/// far, whether still in the buffer or already in the file, in order.
/// The partial line a failed append can leave behind is not among
/// them.
pub uninterp spec fn store_lines(s: SpillStore) -> Seq<Seq<char>>;

/// Whether everything appended has reached the file, so that reading
/// the file sees all of it.
pub uninterp spec fn store_synced(s: SpillStore) -> bool;

/// Whether the store ends at a line boundary.  A failed append can
/// leave part of a line behind; from then on the store is dirty and
/// nothing more is promised of what later appends make of it.
pub uninterp spec fn store_clean(s: SpillStore) -> bool;

/// Relies on `tempfile::NamedTempFile::new`: a fresh, empty temporary
/// file, deleted when the value is dropped; and on std's `BufWriter`,
/// which holds bytes it has not yet written.
#[verifier::external_body]
pub fn spill_new() -> (r: Result<SpillStore, String>)
    ensures
        match r {
            Ok(s) => store_lines(s) == Seq::<Seq<char>>::empty() && store_synced(s)
                && store_clean(s),
            Err(_) => true,
        },
{
    let temp_file = tempfile::NamedTempFile::new().map_err(
        |e| format!("Failed to create temporary file for accumulator: {}", e),
    )?;
    let writer = BufWriter::with_capacity(SPILL_BUFFER_SIZE, temp_file);
    Ok(SpillStore { writer })
}

/// Relies on std's `writeln!` over a `BufWriter`: on success the line
/// and its newline are taken in full, and on failure whatever prefix
/// was taken stays in place, so the lines already stored keep their
/// order and content either way.
#[verifier::external_body]
pub fn spill_append(s: &mut SpillStore, line: &str) -> (r: Result<(), String>)
    requires
        forall|k: int| 0 <= k < line@.len() ==> line@[k] != '\n' && line@[k] != '\r',
    ensures
        match r {
            Ok(_) => (store_clean(*old(s)) ==> store_lines(*final(s)) == store_lines(
                *old(s),
            ).push(line@) && store_clean(*final(s))),
            Err(_) => store_lines(*old(s)).is_prefix_of(store_lines(*final(s))),
        },
{
    writeln!(s.writer, "{}", line).map_err(|e| format!("Failed to write to temporary file: {}", e))
}

/// Relies on `BufWriter::flush`: bytes move from the buffer to the
/// file and nothing else changes; when it succeeds, everything
/// appended is in the file.
#[verifier::external_body]
pub fn spill_flush(s: &mut SpillStore) -> (r: Result<(), String>)
    ensures
        store_lines(*final(s)) == store_lines(*old(s)),
        store_clean(*final(s)) == store_clean(*old(s)),
        r is Ok ==> store_synced(*final(s)),
{
    s.writer.flush().map_err(|e| format!("Failed to flush writer: {}", e))
}

/// Relies on `tempfile::NamedTempFile::reopen` and std's `BufRead`
/// lines: an independent read handle on the same file, split at
/// newlines.  When everything appended has reached the file and the
/// store ends at a line boundary, that is exactly the stored lines; a
/// dirty store read in full yields the stored lines and then at most
/// the trailing fragment of the failed append.  Reading stops with an
/// error otherwise than by dropping lines.
#[verifier::external_body]
pub fn spill_read_lines(s: &SpillStore) -> (r: Result<Vec<String>, String>)
    ensures
        match r {
            Ok(v) => {
                &&& (store_synced(*s) && store_clean(*s)) ==> v@.map_values(|l: String| l@)
                    == store_lines(*s)
                &&& store_synced(*s) ==> store_lines(*s).is_prefix_of(
                    v@.map_values(|l: String| l@),
                ) && v@.len() <= store_lines(*s).len() + 1
            },
            Err(_) => true,
        },
{
    let file = s.writer.get_ref().reopen().map_err(
        |e| format!("Failed to open temporary file for reading: {}", e),
    )?;
    let reader = BufReader::new(file);
    let lines: Result<Vec<String>, _> = reader.lines().collect();
    lines.map_err(|e| format!("Failed to read temporary file: {}", e))
}

} // verus!
