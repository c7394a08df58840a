//! Vocabulary of the job system: the state a job run persists between steps,
//! and the arguments of the jobs this crate's callers start.

use vstd::prelude::*;
use std::collections::VecDeque;

use crate::primitives::Algorithm;

verus! {

/// Progress of a job run under the compatibility shim.
#[derive(Debug, Clone, Copy, PartialEq, Eq, Structural)]
pub enum ModernJobCompatState {
    Init,
    Step(usize),
    Complete,
}

/// A stateful job: the arguments it starts from, the data its initialisation
/// builds, and the steps it works through one by one.
pub trait StatefulJob {
    type Init;
    type Data;
    type Step;
}

/// The persisted state of one stateful job run.
pub struct ModernJobCompat<Job: StatefulJob> {
    pub state: ModernJobCompatState,
    pub init: Job::Init,
    pub data: Option<Job::Data>,
    pub steps: VecDeque<Job::Step>,
    pub step_number: usize,
}

/// Arguments to start a file-encryption job. The key is named by the 128 bits
/// of its unique identifier.
#[derive(Debug, Clone, PartialEq, Eq)]
pub struct FileEncryptorJobInit {
    pub location_id: i32,
    pub path_id: i32,
    pub key_uuid: u128,
    pub algorithm: Algorithm,
    pub metadata: bool,
    pub preview_media: bool,
    pub output_path: Option<String>,
}

} // verus!
