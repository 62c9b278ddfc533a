use vstd::prelude::*;
use vstd::string::*;
use crate::protocol::{CommandInfo, CommandModel};

verus! {

/// What the presence channel is asked to show.
#[derive(Clone, Debug, PartialEq, Eq)]
pub struct Activity {
    pub details: String,
    pub state: String,
    pub start: Option<u64>,
    pub end: Option<u64>,
}

pub struct ActivityModel {
    pub details: Seq<char>,
    pub state: Seq<char>,
    pub start: Option<u64>,
    pub end: Option<u64>,
}

impl View for Activity {
    type V = ActivityModel;

    open spec fn view(&self) -> ActivityModel {
        ActivityModel {
            details: self.details@,
            state: self.state@,
            start: self.start,
            end: self.end,
        }
    }
}

/// One operation on the presence channel.
#[derive(Clone, Debug, PartialEq, Eq)]
pub enum PresenceOp {
    Clear,
    Show(Activity),
}

pub enum PresenceOpModel {
    Clear,
    Show(ActivityModel),
}

impl View for PresenceOp {
    type V = PresenceOpModel;

    open spec fn view(&self) -> PresenceOpModel {
        match self {
            PresenceOp::Clear => PresenceOpModel::Clear,
            PresenceOp::Show(a) => PresenceOpModel::Show(a@),
        }
    }
}

pub open spec fn working_on(info: CommandModel) -> Seq<char> {
    "Working on "@ + info.crate_name
}

/// The activity shown while a run goes on: it counts up from the run's start.
pub open spec fn running_activity(info: CommandModel, start_time: u64) -> ActivityModel {
    ActivityModel {
        details: working_on(info),
        state: "Running `"@ + info.command + "` for"@,
        start: Some(start_time),
        end: None,
    }
}

/// The activity shown once a run is over: it spans the run's length.
pub open spec fn finished_activity(info: CommandModel, elapsed: u64) -> ActivityModel {
    ActivityModel {
        details: working_on(info),
        state: "Last ran `"@ + info.command + "` for"@,
        start: Some(1),
        end: Some(if elapsed < u64::MAX { (elapsed + 1) as u64 } else { u64::MAX }),
    }
}

/// Each activity is shown on a channel cleared just before.
pub open spec fn clears_before_sets(plan: Seq<PresenceOpModel>) -> bool {
    forall|i: int| 0 <= i < plan.len() && (#[trigger] plan[i]) is Show ==> i >= 1 && plan[i - 1] is Clear
}

fn working_on_text(info: &CommandInfo) -> (r: String)
    ensures
        r@ == working_on(info@),
{
    String::from_str("Working on ").concat(info.crate_name.as_str())
}

/// The activity for a run that began at `start_time`.
pub fn running(info: &CommandInfo, start_time: u64) -> (r: Activity)
    ensures
        r@ == running_activity(info@, start_time),
{
    let state = String::from_str("Running `").concat(info.command.as_str()).concat("` for");
    Activity { details: working_on_text(info), state, start: Some(start_time), end: None }
}

/// The activity for a run that lasted `elapsed` seconds.
pub fn finished(info: &CommandInfo, elapsed: u64) -> (r: Activity)
    ensures
        r@ == finished_activity(info@, elapsed),
{
    let state = String::from_str("Last ran `").concat(info.command.as_str()).concat("` for");
    let end = if elapsed < u64::MAX {
        elapsed + 1
    } else {
        u64::MAX
    };
    Activity { details: working_on_text(info), state, start: Some(1), end: Some(end) }
}

/// Shows `activity` on a freshly cleared channel.
pub fn show(activity: Activity) -> (r: Vec<PresenceOp>)
    ensures
        r@.len() == 2,
        r@[0]@ == PresenceOpModel::Clear,
        r@[1]@ == PresenceOpModel::Show(activity@),
        clears_before_sets(r@.map_values(|op: PresenceOp| op@)),
{
    let r = vec![PresenceOp::Clear, PresenceOp::Show(activity)];
    assert(r@.map_values(|op: PresenceOp| op@) =~= seq![PresenceOpModel::Clear, PresenceOpModel::Show(activity@)]);
    r
}

} // verus!
