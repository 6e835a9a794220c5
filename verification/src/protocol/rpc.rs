//! Requests about tasks and their answers.

use vstd::prelude::*;

verus! {

#[derive(Clone, Debug, Eq, Hash, PartialEq)]
pub enum DkRequest {
    Spawn { path: String, cmd: Vec<String>, cwd: Option<String> },
    Ls { glob: Option<String> },
    Start { path: String },
    Stop { path: String },
    Kill { path: String },
    Restart { path: String },
    Screen { path: String },
    Inspect { path: String },
}

#[derive(Clone, Debug)]
pub enum DkResponse {
    /// The request was carried out.
    Done,
    TaskList(Vec<DkTaskInfo>),
    Screen(Option<String>),
    TaskDetail(Option<DkTaskDetail>),
    Error(String),
}

#[derive(Clone, Debug)]
pub struct DkTaskInfo {
    pub path: String,
    pub status: String,
}

#[derive(Clone, Debug)]
pub struct DkTaskDetail {
    pub path: String,
    pub status: String,
    pub deps: Vec<DkTaskInfo>,
    pub children: Vec<DkTaskInfo>,
}

} // verus!
