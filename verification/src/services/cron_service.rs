//! Requests of the cron page of the dashboard.

use vstd::prelude::*;
use crate::text::str_eq;

verus! {

/// A request to act on a cron job.
#[derive(Debug, Clone)]
pub struct CronActionRequest {
    pub action: String,
    pub job_id: String,
    pub enabled: Option<bool>,
}

/// What a cron action request asks for.
#[derive(Debug, Clone, Copy, PartialEq, Eq)]
pub enum CronCommand {
    /// Switch the job on or off.
    Toggle(bool),
    Delete,
    RunNow,
    /// An action that is not known.
    Invalid,
}

/// The command of the action `action`; a toggle without a flag switches on.
pub open spec fn cron_command_spec(action: Seq<char>, enabled: Option<bool>) -> CronCommand {
    if action == "toggle"@ {
        CronCommand::Toggle(
            match enabled {
                Some(b) => b,
                None => true,
            },
        )
    } else if action == "delete"@ {
        CronCommand::Delete
    } else if action == "run_now"@ {
        CronCommand::RunNow
    } else {
        CronCommand::Invalid
    }
}

impl CronActionRequest {
    /// What the request asks for; see [`cron_command_spec`].
    pub fn command(&self) -> (c: CronCommand)
        ensures
            c == cron_command_spec(self.action@, self.enabled),
    {
        let action = self.action.as_str();
        if str_eq(action, "toggle") {
            CronCommand::Toggle(
                match self.enabled {
                    Some(b) => b,
                    None => true,
                },
            )
        } else if str_eq(action, "delete") {
            CronCommand::Delete
        } else if str_eq(action, "run_now") {
            CronCommand::RunNow
        } else {
            CronCommand::Invalid
        }
    }
}

/// A toggle request switches the job to the flag it carries, whichever it
/// is, and on when it carries none.
pub proof fn law_toggle_follows_flag(b: bool)
    ensures
        cron_command_spec("toggle"@, Some(b)) == CronCommand::Toggle(b),
        cron_command_spec("toggle"@, None) == CronCommand::Toggle(true),
{
}

} // verus!
