//! The actions that a surface declares.

use vstd::prelude::*;

use crate::caller::ActionAudience;
use crate::json::{Json, JsonView};
use crate::text::same;

verus! {

/// The declared half of an action: what it is called, what it takes, and who
/// may discover it.
#[derive(Debug, PartialEq)]
pub struct ActionDef {
    pub name: String,
    pub description: String,
    /// The JSON schema of the action's arguments.
    pub parameters: Json,
    pub audience: ActionAudience,
    /// Whether the surface's picture goes with the action's result.
    pub include_state_snapshot: bool,
}

/// An action in contracts.
pub struct ActionView {
    pub name: Seq<char>,
    pub description: Seq<char>,
    pub parameters: JsonView,
    pub audience: ActionAudience,
    pub include_state_snapshot: bool,
}

impl View for ActionDef {
    type V = ActionView;

    open spec fn view(&self) -> ActionView {
        ActionView {
            name: self.name@,
            description: self.description@,
            parameters: self.parameters@,
            audience: self.audience,
            include_state_snapshot: self.include_state_snapshot,
        }
    }
}

/// The actions of a list.
pub open spec fn action_views(actions: Seq<ActionDef>) -> Seq<ActionView> {
    Seq::new(actions.len(), |i: int| actions[i]@)
}

impl ActionDef {
    /// An action for everybody, without a picture.
    pub fn new(name: String, description: String, parameters: Json) -> (action: ActionDef)
        ensures
            action@ == (ActionView {
                name: name@,
                description: description@,
                parameters: parameters@,
                audience: ActionAudience::Both,
                include_state_snapshot: false,
            }),
    {
        ActionDef {
            name,
            description,
            parameters,
            audience: ActionAudience::Both,
            include_state_snapshot: false,
        }
    }

    /// The same action for another audience.
    pub fn audience(self, audience: ActionAudience) -> (action: ActionDef)
        ensures
            action@ == (ActionView { audience, ..self@ }),
    {
        let mut action: ActionDef = self;
        action.audience = audience;
        action
    }

    /// The same action for the person alone.
    pub fn human_only(self) -> (action: ActionDef)
        ensures
            action@ == (ActionView { audience: ActionAudience::Human, ..self@ }),
    {
        self.audience(ActionAudience::Human)
    }

    /// The same action for models alone.
    pub fn agent_only(self) -> (action: ActionDef)
        ensures
            action@ == (ActionView { audience: ActionAudience::Agent, ..self@ }),
    {
        self.audience(ActionAudience::Agent)
    }

    /// The same action, with the surface's picture in its result.
    pub fn with_state_snapshot(self) -> (action: ActionDef)
        ensures
            action@ == (ActionView { include_state_snapshot: true, ..self@ }),
    {
        let mut action: ActionDef = self;
        action.include_state_snapshot = true;
        action
    }
}

/// Whether an action of that name is declared.
pub open spec fn declares(actions: Seq<ActionView>, name: Seq<char>) -> bool {
    exists|i: int| 0 <= i < actions.len() && #[trigger] actions[i].name == name
}

/// The first declared action of that name.
pub open spec fn find_action(actions: Seq<ActionView>, name: Seq<char>) -> Option<ActionView>
    decreases actions.len(),
{
    if actions.len() == 0 {
        None
    } else if actions[0].name == name {
        Some(actions[0])
    } else {
        find_action(actions.skip(1), name)
    }
}

/// The index of the first declared action of that name.
pub fn action_index(actions: &Vec<ActionDef>, name: &str) -> (result: Option<usize>)
    ensures
        result is Some <==> declares(action_views(actions@), name@),
        match result {
            Some(i) => i < actions@.len() && find_action(action_views(actions@), name@) == Some(
                actions@[i as int]@,
            ),
            None => find_action(action_views(actions@), name@) is None,
        },
{
    let ghost all = action_views(actions@);
    let mut i: usize = 0;
    proof {
        assert(all.skip(0) =~= all);
    }
    while i < actions.len()
        invariant
            i <= actions@.len(),
            all == action_views(actions@),
            find_action(all, name@) == find_action(all.skip(i as int), name@),
            forall|k: int| 0 <= k < i ==> #[trigger] all[k].name != name@,
        decreases actions@.len() - i,
    {
        if same(&actions[i].name, name) {
            proof {
                assert(all[i as int].name == name@);
            }
            return Some(i);
        }
        proof {
            assert(all.skip(i as int).skip(1) =~= all.skip(i + 1));
        }
        i += 1;
    }
    None
}

/// Whether any action is for the person, so that a browser needs the human
/// session credential.
pub open spec fn any_human(actions: Seq<ActionView>) -> bool {
    exists|i: int| 0 <= i < actions.len() && (#[trigger] actions[i]).audience.admits_human()
}

/// Whether a browser needs the human session credential.
pub fn needs_human_route_cookie(actions: &Vec<ActionDef>) -> (needed: bool)
    ensures
        needed == any_human(action_views(actions@)),
{
    let mut i: usize = 0;
    while i < actions.len()
        invariant
            i <= actions@.len(),
            forall|k: int|
                0 <= k < i ==> !(#[trigger] action_views(actions@)[k]).audience.admits_human(),
        decreases actions@.len() - i,
    {
        if actions[i].audience.human() {
            proof {
                assert(action_views(actions@)[i as int].audience.admits_human());
            }
            return true;
        }
        i += 1;
    }
    false
}

} // verus!
