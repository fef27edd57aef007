//! Extension points: hooks that observe the agent, and skills that add to
//! its prompt and its tools.

use vstd::prelude::*;

use crate::error::Error;
use crate::json::Json;
use crate::traits::ToolSpec;

verus! {

/// Lifecycle events on which hooks can fire.
#[derive(Debug, Clone, Copy, PartialEq, Eq, Structural)]
pub enum HookPoint {
    BeforeAgent,
    AfterAgent,
    BeforeModel,
    AfterModel,
    BeforeTool,
    AfterTool,
    OnMessage,
    OnError,
    OnSessionStart,
    OnSessionEnd,
}

/// A hook observes the points of the pipeline. Payloads are JSON, so that
/// hooks do not depend on a protocol.
pub trait Hook {
    fn name(&self) -> &str;

    fn on(&self, point: HookPoint, payload: &Json) -> Result<(), Error>;
}

/// A skill contributes a fragment of the system prompt and, optionally,
/// further tools.
pub trait Skill {
    fn name(&self) -> &str;

    fn description(&self) -> &str;

    /// Text for the system prompt while the skill is active.
    fn prompt_fragment(&self) -> &str;

    /// Further tools; none unless the skill says otherwise.
    fn tool_specs(&self) -> (r: Vec<ToolSpec>)
        default_ensures
            r@.len() == 0,
    {
        Vec::new()
    }
}

} // verus!
