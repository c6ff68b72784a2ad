use vstd::prelude::*;

pub mod classify;
pub mod cli;
pub mod parse;
pub mod record;
pub mod sequence;
pub mod text;

pub use classify::{filter_records, is_affirmative, partition_by_owner, resolve_identity};
pub use cli::{normalize_port, parse_args, Invocation};
pub use parse::{parse_listing, parse_lsof_line};
pub use record::ProcessInfo;
pub use sequence::{Action, Phase, Sequencer};

use crate::parse::spec_parse_listing;
use crate::record::process_models;
use crate::text::pid_value;

verus! {

/// One run of the utility: the colon-prefixed port it was asked about and
/// the deduplicated records the listing collaborator reported for it.
pub struct Zap {
    pub processes: Vec<ProcessInfo>,
    pub port: String,
}

impl Zap {
    /// Builds the run state from the port and the text the listing
    /// collaborator returned for it.
    pub fn new(port: &str, listing: &str) -> (z: Zap)
        ensures
            z.port@ == port@,
            process_models(z.processes@) == spec_parse_listing(listing@),
            forall|i: int, j: int|
                0 <= i < j < z.processes@.len() ==> pid_value(z.processes@[i]@.pid) != pid_value(
                    z.processes@[j]@.pid,
                ),
    {
        let processes = parse_listing(listing);
        Zap { processes, port: String::from_str(port) }
    }
}

} // verus!
