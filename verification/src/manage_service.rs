//! Dispatch of lifecycle actions on a supervised service.
//!
//! An action word is first validated against the closed set of five known
//! actions; nothing is attempted for any other word.  A valid action maps
//! to exactly one external side effect: a control-command invocation for
//! `start`/`stop`/`restart`, or one symlink mutation in the active-services
//! directory for `enable`/`disable`.  The caller performs the side effect
//! and hands its outcome back; the classification of the outcome into a
//! success message or a typed error is decided here.

use vstd::prelude::*;
use vstd::string::StringExecFns;

verus! {

/// The closed set of lifecycle actions a caller may request.
#[derive(Clone, Copy, Debug, PartialEq, Eq, Structural)]
pub enum ServiceAction {
    Start,
    Stop,
    Restart,
    Enable,
    Disable,
}

/// Why a requested action did not happen.
#[derive(Debug)]
pub enum ActionError {
    /// The action word is none of the five known ones; no side effect was
    /// planned for it.
    InvalidAction,
    /// The control command could not be launched at all.
    LaunchFailure,
    /// The control command ran and reported failure; the supervisor's own
    /// diagnostic text is carried verbatim.
    CommandFailed { diagnostic: String },
    /// The activation link to create already exists, or the one to remove
    /// is missing.
    FilesystemConflict,
    /// A filesystem operation failed for another reason.
    IoFailure,
}

/// The one external side effect a valid action stands for.
#[derive(Debug)]
pub enum ActionPlan {
    /// Run the control command with this verb and the service name.
    RunControl { verb: String },
    /// Create the activation symlink at `target` pointing to `source`.
    CreateLink { source: String, target: String },
    /// Remove the activation symlink at `target`.
    RemoveLink { target: String },
}

/// The action a word names, if any.
pub open spec fn action_of(w: Seq<char>) -> Option<ServiceAction> {
    if w == "start"@ {
        Some(ServiceAction::Start)
    } else if w == "stop"@ {
        Some(ServiceAction::Stop)
    } else if w == "restart"@ {
        Some(ServiceAction::Restart)
    } else if w == "enable"@ {
        Some(ServiceAction::Enable)
    } else if w == "disable"@ {
        Some(ServiceAction::Disable)
    } else {
        None
    }
}

/// Whether the action is carried out by the control command rather than a
/// symlink mutation.
pub open spec fn is_control_action(a: ServiceAction) -> bool {
    a == ServiceAction::Start || a == ServiceAction::Stop || a == ServiceAction::Restart
}

/// The verb the control command takes for a control action.
pub open spec fn control_verb(a: ServiceAction) -> Seq<char> {
    match a {
        ServiceAction::Start => "up"@,
        ServiceAction::Stop => "down"@,
        ServiceAction::Restart => "restart"@,
        _ => Seq::<char>::empty(),
    }
}

/// The success message reported once an action's side effect happened.
pub open spec fn message_of(name: Seq<char>, a: ServiceAction) -> Seq<char> {
    match a {
        ServiceAction::Start => "Service "@ + name + " started."@,
        ServiceAction::Stop => "Service "@ + name + " stopped."@,
        ServiceAction::Restart => "Service "@ + name + " restarted."@,
        ServiceAction::Enable => "Service "@ + name + " enabled."@,
        ServiceAction::Disable => "Service "@ + name + " disabled."@,
    }
}

/// Whether `p` is the side effect that action `a` on service `name`
/// stands for.
pub open spec fn plan_matches(p: ActionPlan, name: Seq<char>, a: ServiceAction) -> bool {
    match a {
        ServiceAction::Start | ServiceAction::Stop | ServiceAction::Restart => (p matches
            ActionPlan::RunControl { verb } && verb@ == control_verb(a)),
        ServiceAction::Enable => (p matches ActionPlan::CreateLink { source, target }
            && source@ == "/etc/sv/"@ + name && target@ == "/etc/service/"@ + name),
        ServiceAction::Disable => (p matches ActionPlan::RemoveLink { target } && target@
            == "/etc/service/"@ + name),
    }
}

fn str_eq(a: &str, b: &str) -> (r: bool)
    ensures
        r == (a@ == b@),
{
    let ao = String::from_str(a);
    let bo = String::from_str(b);
    ao.eq(&bo)
}

impl ServiceAction {
    /// The action a word names: exactly the five known words are accepted,
    /// any other word yields `None`.
    pub fn from_str(action: &str) -> (r: Option<Self>)
        ensures
            r == action_of(action@),
    {
        if str_eq(action, "start") {
            Some(ServiceAction::Start)
        } else if str_eq(action, "stop") {
            Some(ServiceAction::Stop)
        } else if str_eq(action, "restart") {
            Some(ServiceAction::Restart)
        } else if str_eq(action, "enable") {
            Some(ServiceAction::Enable)
        } else if str_eq(action, "disable") {
            Some(ServiceAction::Disable)
        } else {
            None
        }
    }
}

/// The side effect that a validated action stands for.
pub fn action_plan(name: &str, action: ServiceAction) -> (r: ActionPlan)
    ensures
        plan_matches(r, name@, action),
{
    match action {
        ServiceAction::Start => ActionPlan::RunControl { verb: String::from_str("up") },
        ServiceAction::Stop => ActionPlan::RunControl { verb: String::from_str("down") },
        ServiceAction::Restart => ActionPlan::RunControl { verb: String::from_str("restart") },
        ServiceAction::Enable => {
            let source = String::from_str("/etc/sv/").concat(name);
            let target = String::from_str("/etc/service/").concat(name);
            ActionPlan::CreateLink { source, target }
        },
        ServiceAction::Disable => {
            let target = String::from_str("/etc/service/").concat(name);
            ActionPlan::RemoveLink { target }
        },
    }
}

/// Validate an action word and name its side effect.  An unknown word is
/// refused here, before any side effect exists that a caller could
/// perform.
pub fn plan_action(name: &str, action: &str) -> (r: Result<ActionPlan, ActionError>)
    ensures
        r is Ok <==> action_of(action@) is Some,
        r matches Err(e) ==> e is InvalidAction,
        r matches Ok(p) ==> plan_matches(p, name@, action_of(action@)->Some_0),
{
    match ServiceAction::from_str(action) {
        Some(a) => Ok(action_plan(name, a)),
        None => Err(ActionError::InvalidAction),
    }
}

/// The success message for one performed action.
pub fn success_message(name: &str, action: ServiceAction) -> (r: String)
    ensures
        r@ == message_of(name@, action),
{
    let head = String::from_str("Service ").concat(name);
    match action {
        ServiceAction::Start => head.concat(" started."),
        ServiceAction::Stop => head.concat(" stopped."),
        ServiceAction::Restart => head.concat(" restarted."),
        ServiceAction::Enable => head.concat(" enabled."),
        ServiceAction::Disable => head.concat(" disabled."),
    }
}

/// What a control-command run reported, as classified into the action's
/// result.  A non-zero exit is a genuine failure here: the caller asked
/// for a state transition and must learn that it did not happen.
pub fn interpret_control_outcome(
    name: &str,
    action: ServiceAction,
    exit_ok: bool,
    diagnostic: &str,
) -> (r: Result<String, ActionError>)
    requires
        is_control_action(action),
    ensures
        exit_ok ==> (r matches Ok(m) && m@ == message_of(name@, action)),
        !exit_ok ==> (r matches Err(e) && e matches ActionError::CommandFailed { diagnostic: d }
            && d@ == diagnostic@),
{
    if exit_ok {
        Ok(success_message(name, action))
    } else {
        Err(ActionError::CommandFailed { diagnostic: String::from_str(diagnostic) })
    }
}

/// What the filesystem reported for a symlink mutation, as classified by
/// the caller.
#[derive(Clone, Copy, Debug, PartialEq, Eq, Structural)]
pub enum LinkOutcome {
    /// The link was created or removed.
    Done,
    /// A link was already present where one was to be created.
    AlreadyExists,
    /// No link was present where one was to be removed.
    Missing,
    /// The operation failed for another reason.
    Failed,
}

/// A symlink mutation's outcome classified into the action's result.  An
/// existing link on enable, or a missing one on disable, is reported as a
/// conflict, never silently ignored: the caller can tell "already
/// enabled" from "enabled now".
pub fn interpret_link_outcome(name: &str, action: ServiceAction, outcome: LinkOutcome) -> (r:
    Result<String, ActionError>)
    requires
        action == ServiceAction::Enable || action == ServiceAction::Disable,
    ensures
        outcome == LinkOutcome::Done ==> (r matches Ok(m) && m@ == message_of(name@, action)),
        outcome == LinkOutcome::AlreadyExists || outcome == LinkOutcome::Missing ==> (r matches
            Err(e) && e is FilesystemConflict),
        outcome == LinkOutcome::Failed ==> (r matches Err(e) && e is IoFailure),
{
    match outcome {
        LinkOutcome::Done => Ok(success_message(name, action)),
        LinkOutcome::AlreadyExists => Err(ActionError::FilesystemConflict),
        LinkOutcome::Missing => Err(ActionError::FilesystemConflict),
        LinkOutcome::Failed => Err(ActionError::IoFailure),
    }
}

/// Whether one of `names` reads `name`.
pub open spec fn links_have(names: Seq<Seq<char>>, name: Seq<char>) -> bool {
    exists|i: int| 0 <= i < names.len() && names[i] == name
}

/// Model of the active-services directory: the names whose activation
/// symlink exists.  `enable` and `disable` follow exactly the contract the
/// filesystem gives those mutations — creating an existing link or
/// removing a missing one is a conflict — so laws about repeated actions
/// can be stated and checked against this model.
#[derive(Debug)]
pub struct ActiveLinks {
    pub names: Vec<String>,
}

impl ActiveLinks {
    /// The link names as sequences of characters.
    pub open spec fn names_view(self) -> Seq<Seq<char>> {
        Seq::new(self.names@.len(), |i: int| self.names@[i]@)
    }

    /// Each link exists once: directory entries are unique.
    pub open spec fn wf(self) -> bool {
        forall|i: int, j: int|
            0 <= i < j < self.names_view().len() ==> self.names_view()[i] != self.names_view()[j]
    }

    pub open spec fn has(self, name: Seq<char>) -> bool {
        links_have(self.names_view(), name)
    }

    /// A directory with no active links.
    pub fn new() -> (r: Self)
        ensures
            r.wf(),
            r.names_view() == Seq::<Seq<char>>::empty(),
    {
        let r = ActiveLinks { names: Vec::new() };
        proof {
            assert(r.names_view() =~= Seq::<Seq<char>>::empty());
        }
        r
    }

    fn find(&self, name: &str) -> (r: Option<usize>)
        ensures
            r matches Some(i) ==> i < self.names_view().len() && self.names_view()[i as int]
                == name@,
            r is None ==> !self.has(name@),
    {
        let target = String::from_str(name);
        let mut i: usize = 0;
        while i < self.names.len()
            invariant
                i <= self.names@.len(),
                forall|j: int| 0 <= j < i ==> self.names_view()[j] != name@,
                target@ == name@,
            decreases self.names@.len() - i,
        {
            if self.names[i].eq(&target) {
                return Some(i);
            }
            i = i + 1;
        }
        None
    }

    /// Create the activation link for `name`.  Refused as a conflict when
    /// the link already exists.
    pub fn enable(&mut self, name: &str) -> (r: Result<(), ActionError>)
        requires
            old(self).wf(),
        ensures
            final(self).wf(),
            old(self).has(name@) ==> (r matches Err(e) && e is FilesystemConflict)
                && final(self).names_view() == old(self).names_view(),
            !old(self).has(name@) ==> r is Ok && final(self).names_view() == old(
                self,
            ).names_view().push(name@),
    {
        match self.find(name) {
            Some(_) => Err(ActionError::FilesystemConflict),
            None => {
                let ghost before = self.names_view();
                self.names.push(String::from_str(name));
                proof {
                    assert(self.names_view() =~= before.push(name@));
                }
                Ok(())
            },
        }
    }

    /// Remove the activation link for `name`.  Refused as a conflict when
    /// no such link exists.
    pub fn disable(&mut self, name: &str) -> (r: Result<(), ActionError>)
        requires
            old(self).wf(),
        ensures
            final(self).wf(),
            !old(self).has(name@) ==> (r matches Err(e) && e is FilesystemConflict)
                && final(self).names_view() == old(self).names_view(),
            old(self).has(name@) ==> r is Ok && !final(self).has(name@) && (exists|i: int|
                0 <= i < old(self).names_view().len() && old(self).names_view()[i] == name@
                    && final(self).names_view() == old(self).names_view().remove(i)),
    {
        match self.find(name) {
            None => Err(ActionError::FilesystemConflict),
            Some(i) => {
                let ghost before = self.names_view();
                self.names.remove(i);
                proof {
                    assert(self.names_view() =~= before.remove(i as int));
                    assert forall|k: int|
                        0 <= k < self.names_view().len() implies self.names_view()[k]
                        != name@ by {
                        if k < i {
                            assert(before[k] != before[i as int]);
                        } else {
                            assert(before[k + 1] != before[i as int]);
                        }
                    }
                }
                Ok(())
            },
        }
    }
}

/// Law: enabling a service puts its name among the active links, so a
/// second enable of the same name, with no disable in between, finds the
/// link present and is refused as a filesystem conflict by `enable`'s
/// contract.
pub proof fn lemma_enable_twice_conflicts(names: Seq<Seq<char>>, name: Seq<char>)
    ensures
        links_have(names.push(name), name),
{
    assert(names.push(name)[names.len() as int] == name);
}

} // verus!
