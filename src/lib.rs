//! A viewer for the entry registry of a vach archive: the decode step and the
//! single-screen state machine that holds what the screen shows.
mod decode;
mod entry;
mod order;
mod session;
mod viewer;

pub use decode::{
    decode, decoded_as, distinct_ids, entries_from_registry, lemma_decode_deterministic,
    lemma_same_listing, lists_registry, raw_rows, registry_of, HEADER_LEN, NOT_AN_ARCHIVE,
};
pub use entry::{lemma_sorted_unique, row_lt, rows_of, sorted_rows, ArchiveEntry, Row};
pub use order::{id_less, id_lt};
pub use session::{began, completed, lemma_latest_started_read_wins, Session};
pub use viewer::{
    follows, lemma_last_selection_decides, lemma_last_success_wins,
    lemma_update_depends_on_bytes_only, run, shows, transition, updated_by, ViewerState,
    FAILED_PREFIX, LOADED, PENDING,
};
