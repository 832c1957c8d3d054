//! A delegated conversation's acknowledged control state, as the durable owner reports it.
//!
//! Snapshots are presentation facts, never runtime authority: a newer revision replaces an older
//! one, a stale one is refused, and two different snapshots under one revision conflict.
use vstd::prelude::*;

use crate::ids::AgentId;

verus! {

/// Who holds a delegated conversation.
#[derive(Clone, Copy, Debug, PartialEq, Eq, Structural)]
pub enum ChildControl {
    Main,
    HandoffPending,
    User,
}

/// One acknowledged snapshot of a child's controller.
#[derive(Clone, Copy, Debug, PartialEq, Eq, Structural)]
pub struct ChildControlSnapshot {
    pub revision: u64,
    pub control: ChildControl,
}

/// Why a snapshot was refused; the previous controller stays as it was.
#[derive(Clone, Debug, PartialEq, Eq)]
pub enum ChildControlRefusal {
    /// The primary conversation's controller is not a child's.
    Primary,
    /// No child is known by this identity.
    UnknownChild(AgentId),
    /// The snapshot is older than the one held.
    Stale,
    /// A different snapshot was already acknowledged at the same revision.
    Conflict,
}

/// What the refusal says.
pub open spec fn refusal_text(refusal: ChildControlRefusal) -> Seq<char> {
    match refusal {
        ChildControlRefusal::Primary => "child control cannot replace the primary controller"@,
        ChildControlRefusal::UnknownChild(id) => "unknown child: "@ + id@,
        ChildControlRefusal::Stale => "stale child control revision"@,
        ChildControlRefusal::Conflict => "conflicting child control at the same revision"@,
    }
}

/// How a held snapshot answers a new one: refused as stale or conflicting, or taken, reporting
/// whether who holds the conversation changed.
pub open spec fn control_answer(held: Option<ChildControlSnapshot>, snapshot: ChildControlSnapshot) -> Result<bool, ChildControlRefusal> {
    match held {
        Some(previous) => if snapshot.revision < previous.revision {
            Err(ChildControlRefusal::Stale)
        } else if snapshot.revision == previous.revision {
            if snapshot == previous {
                Ok(false)
            } else {
                Err(ChildControlRefusal::Conflict)
            }
        } else {
            Ok(previous.control != snapshot.control)
        },
        None => Ok(true),
    }
}

impl ChildControlRefusal {
    /// What the refusal says.
    pub fn message(&self) -> (text: String)
        ensures
            text@ == refusal_text(*self),
    {
        match self {
            ChildControlRefusal::Primary => "child control cannot replace the primary controller".to_string(),
            ChildControlRefusal::UnknownChild(id) => {
                let mut text = "unknown child: ".to_string();
                text.append(id.as_str());
                text
            },
            ChildControlRefusal::Stale => "stale child control revision".to_string(),
            ChildControlRefusal::Conflict => "conflicting child control at the same revision".to_string(),
        }
    }
}

/// Takes `snapshot` into the control `held` for `child`, whose slot is `None` when no child is
/// known by that identity. The primary conversation and unknown children are refused; a refusal
/// leaves what was held intact.
pub fn set_child_control(
    child: &AgentId,
    is_primary: bool,
    held: Option<&mut Option<ChildControlSnapshot>>,
    snapshot: ChildControlSnapshot,
) -> (answer: Result<bool, ChildControlRefusal>)
    ensures
        is_primary ==> answer == Err::<bool, ChildControlRefusal>(ChildControlRefusal::Primary),
        !is_primary && held is None ==> (answer matches Err(ChildControlRefusal::UnknownChild(id))
            && id@ == child@),
        !is_primary ==> (held matches Some(slot) ==> {
            &&& answer == control_answer(*slot, snapshot)
            &&& answer is Ok ==> *final(slot) == Some(snapshot)
            &&& answer is Err ==> *final(slot) == *slot
        }),
        is_primary ==> (held matches Some(slot) ==> *final(slot) == *slot),
{
    if is_primary {
        return Err(ChildControlRefusal::Primary);
    }
    let slot = match held {
        Some(slot) => slot,
        None => {
            return Err(ChildControlRefusal::UnknownChild(child.duplicate()));
        },
    };
    if let Some(previous) = *slot {
        if snapshot.revision < previous.revision {
            return Err(ChildControlRefusal::Stale);
        }
        if snapshot.revision == previous.revision {
            return if snapshot == previous {
                Ok(false)
            } else {
                Err(ChildControlRefusal::Conflict)
            };
        }
    }
    let changed = match *slot {
        Some(previous) => previous.control != snapshot.control,
        None => true,
    };
    *slot = Some(snapshot);
    Ok(changed)
}

/// Control never goes back: whatever is held after a snapshot is answered is at least as new as
/// what was held before.
pub proof fn law_control_never_goes_back(held: Option<ChildControlSnapshot>, snapshot: ChildControlSnapshot)
    ensures
        control_answer(held, snapshot) is Ok && held is Some ==> held->0.revision <= snapshot.revision,
        control_answer(held, snapshot) is Err ==> held is Some,
{
}

} // verus!
