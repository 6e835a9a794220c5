//! What the console asks of the rest of the system.

use crate::config::health::HookEvent;
use crate::kernel::path::{path_view, TaskPath};
use crate::kernel::screen_cmd::TaskScreenCmd;
use crate::kernel::task::TaskId;
use crate::task::proc_task::{ProcTaskConfig, TaskSettings};
use crate::term::key::Key;
use vstd::prelude::*;

verus! {

/// A message to a task.
pub enum TaskOp {
    Start,
    Stop,
    Kill,
    Screen(TaskScreenCmd),
    RerunHook(HookEvent),
    RerunCheck(usize),
    /// Run another process like this one, under the given name.
    Duplicate(String),
    Input(Key),
}

pub enum TaskOpModel {
    Start,
    Stop,
    Kill,
    Screen(TaskScreenCmd),
    RerunHook(HookEvent),
    RerunCheck(usize),
    Duplicate(Seq<char>),
    Input(Key),
}

impl View for TaskOp {
    type V = TaskOpModel;

    open spec fn view(&self) -> TaskOpModel {
        match self {
            TaskOp::Start => TaskOpModel::Start,
            TaskOp::Stop => TaskOpModel::Stop,
            TaskOp::Kill => TaskOpModel::Kill,
            TaskOp::Screen(cmd) => TaskOpModel::Screen(*cmd),
            TaskOp::RerunHook(event) => TaskOpModel::RerunHook(*event),
            TaskOp::RerunCheck(i) => TaskOpModel::RerunCheck(*i),
            TaskOp::Duplicate(name) => TaskOpModel::Duplicate(name@),
            TaskOp::Input(key) => TaskOpModel::Input(*key),
        }
    }
}

/// How a process is taken down.
#[derive(Clone, Copy, Debug, PartialEq, Eq, Structural)]
pub enum Down {
    Stop,
    Kill,
}

impl Down {
    pub open spec fn op(self) -> TaskOpModel {
        match self {
            Down::Stop => TaskOpModel::Stop,
            Down::Kill => TaskOpModel::Kill,
        }
    }

    pub fn message(self) -> (r: TaskOp)
        ensures
            r@ == self.op(),
    {
        match self {
            Down::Stop => TaskOp::Stop,
            Down::Kill => TaskOp::Kill,
        }
    }
}

pub enum Effect {
    Task(TaskId, TaskOp),
    RemoveTask(TaskId),
    SetLabel(TaskId, String),
    Spawn { task_id: TaskId, path: Option<TaskPath>, config: ProcTaskConfig },
    /// Put a text on the clipboard.
    Copy(String),
}

#[verifier::ext_equal]
pub enum EffectModel {
    Task(TaskId, TaskOpModel),
    RemoveTask(TaskId),
    SetLabel(TaskId, Seq<char>),
    Spawn(TaskId, Option<Seq<char>>, TaskSettings),
    Copy(Seq<char>),
}

impl View for Effect {
    type V = EffectModel;

    open spec fn view(&self) -> EffectModel {
        match self {
            Effect::Task(id, op) => EffectModel::Task(*id, op@),
            Effect::RemoveTask(id) => EffectModel::RemoveTask(*id),
            Effect::SetLabel(id, name) => EffectModel::SetLabel(*id, name@),
            Effect::Spawn { task_id, path, config } => EffectModel::Spawn(
                *task_id,
                path_view(*path),
                config@,
            ),
            Effect::Copy(text) => EffectModel::Copy(text@),
        }
    }
}

pub open spec fn effects_view(effects: Seq<Effect>) -> Seq<EffectModel> {
    effects.map_values(|e: Effect| e@)
}

} // verus!
