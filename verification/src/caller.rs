//! Who may call an action, who is calling, and whose name a write carries.

use vstd::prelude::*;

use crate::json::{opt_json, Json, JsonView};
use crate::text::{
    ascii_lowered, copy_opt, opt_str, opt_text, same, to_ascii_lowercase, trim, trimmed,
};

verus! {

/// Who may discover an action.
#[derive(Clone, Copy, Debug, PartialEq, Eq, Structural)]
pub enum ActionAudience {
    Human,
    Agent,
    Both,
}

impl ActionAudience {
    pub open spec fn admits_human(self) -> bool {
        self is Human || self is Both
    }

    pub open spec fn admits_agent(self) -> bool {
        self is Agent || self is Both
    }

    /// Whether the action is for the person.
    pub fn human(self) -> (admitted: bool)
        ensures
            admitted == self.admits_human(),
    {
        matches!(self, ActionAudience::Human | ActionAudience::Both)
    }

    /// Whether the action is for a model.
    pub fn agent(self) -> (admitted: bool)
        ensures
            admitted == self.admits_agent(),
    {
        matches!(self, ActionAudience::Agent | ActionAudience::Both)
    }
}

/// Who is asking to run an action.
#[derive(Clone, Copy, Debug, PartialEq, Eq, Structural)]
pub enum Caller {
    /// The person, through the browser.
    Human,
    /// The surface's own model.
    Agent,
    /// A model that is not the surface's own agent.
    Companion,
    /// A caller whose identity was not established.
    Unknown,
}

impl Caller {
    pub open spec fn allowed(self, audience: ActionAudience) -> bool {
        match self {
            Caller::Human => audience.admits_human(),
            Caller::Agent | Caller::Companion => audience.admits_agent(),
            Caller::Unknown => false,
        }
    }

    pub open spec fn name(self) -> Seq<char> {
        match self {
            Caller::Human => "the human"@,
            Caller::Agent => "this agent"@,
            Caller::Companion => "the companion agent"@,
            Caller::Unknown => "an unknown caller"@,
        }
    }

    pub open spec fn role(self) -> Seq<char> {
        match self {
            Caller::Human => "human"@,
            Caller::Agent => "agent"@,
            Caller::Companion => "companion"@,
            Caller::Unknown => "unknown"@,
        }
    }

    /// How much a caller can speak for: the person above any model, any model
    /// above nobody.
    pub open spec fn rank(self) -> nat {
        match self {
            Caller::Human => 2,
            Caller::Agent | Caller::Companion => 1,
            Caller::Unknown => 0,
        }
    }

    /// Whether this caller may run an action declared for `audience`.
    pub fn may_call(self, audience: ActionAudience) -> (allowed: bool)
        ensures
            allowed == self.allowed(audience),
    {
        match self {
            Caller::Human => audience.human(),
            Caller::Agent | Caller::Companion => audience.agent(),
            Caller::Unknown => false,
        }
    }

    /// How to name this caller in a refusal the other side will read.
    pub fn label(self) -> (label: &'static str)
        ensures
            label@ == self.name(),
    {
        match self {
            Caller::Human => "the human",
            Caller::Agent => "this agent",
            Caller::Companion => "the companion agent",
            Caller::Unknown => "an unknown caller",
        }
    }

    /// The caller that an optional identity field names: the person where the
    /// field is absent, and nobody where it is not one of the known names.
    pub open spec fn parsed(value: Option<Seq<char>>) -> Caller {
        match value {
            None => Caller::Human,
            Some(value) => {
                let name = ascii_lowered(trimmed(value));
                if name == "human"@ {
                    Caller::Human
                } else if name == "companion"@ {
                    Caller::Companion
                } else {
                    Caller::Unknown
                }
            },
        }
    }

    /// Parse the identity field of an action request.
    pub fn parse(value: Option<&str>) -> (caller: Caller)
        ensures
            caller == Caller::parsed(opt_str(value)),
    {
        match value {
            None => Caller::Human,
            Some(value) => {
                let name: String = to_ascii_lowercase(trim(value));
                if same(&name, "human") {
                    Caller::Human
                } else if same(&name, "companion") {
                    Caller::Companion
                } else {
                    Caller::Unknown
                }
            },
        }
    }
}

/// The caller that a request's credentials establish. A valid agent credential
/// and the human's session credential each establish one caller; no
/// credential, an invalid one, or both at once establish none.
pub open spec fn established_caller(
    authorization_present: bool,
    agent: bool,
    human: bool,
) -> Caller {
    if authorization_present && agent && !human {
        Caller::Agent
    } else if !authorization_present && !agent && human {
        Caller::Human
    } else {
        Caller::Unknown
    }
}

/// The caller that a request's credentials establish.
pub fn establish_caller(authorization_present: bool, agent: bool, human: bool) -> (caller: Caller)
    ensures
        caller == established_caller(authorization_present, agent, human),
{
    match (authorization_present, agent, human) {
        (true, true, false) => Caller::Agent,
        (false, false, true) => Caller::Human,
        _ => Caller::Unknown,
    }
}

/// The caller after a request has named the role it wants to act in.
pub open spec fn narrowed_caller(established: Caller, requested: Option<JsonView>) -> Caller {
    match requested {
        None => established,
        Some(requested) => match requested.text() {
            None => Caller::Unknown,
            Some(requested) => {
                let role = ascii_lowered(trimmed(requested));
                if established is Human && role == "human"@ {
                    Caller::Human
                } else if !(established is Unknown) && role == "agent"@ {
                    Caller::Agent
                } else if !(established is Unknown) && role == "companion"@ {
                    Caller::Companion
                } else {
                    Caller::Unknown
                }
            },
        },
    }
}

/// Apply the role a request names, after the transport has established the
/// caller.
pub fn narrow_action_route_caller(established: Caller, requested: Option<&Json>) -> (caller: Caller)
    ensures
        caller == narrowed_caller(established, opt_json(requested)),
{
    let requested: &Json = match requested {
        None => {
            return established;
        },
        Some(requested) => requested,
    };
    let requested: &str = match requested.as_str() {
        None => {
            return Caller::Unknown;
        },
        Some(requested) => requested,
    };
    let role: String = to_ascii_lowercase(trim(requested));
    proof {
        reveal_strlit("human");
        reveal_strlit("agent");
        reveal_strlit("companion");
    }
    match established {
        Caller::Unknown => Caller::Unknown,
        Caller::Human => if same(&role, "human") {
            Caller::Human
        } else if same(&role, "agent") {
            Caller::Agent
        } else if same(&role, "companion") {
            Caller::Companion
        } else {
            Caller::Unknown
        },
        Caller::Agent | Caller::Companion => if same(&role, "agent") {
            Caller::Agent
        } else if same(&role, "companion") {
            Caller::Companion
        } else {
            Caller::Unknown
        },
    }
}

/// A caller of unknown identity may call nothing.
pub proof fn law_unknown_may_call_nothing(audience: ActionAudience)
    ensures
        !Caller::Unknown.allowed(audience),
{
}

/// The person never reaches an action that is for models alone, no model
/// reaches one that is for the person alone, and every known caller reaches
/// one that is for both.
pub proof fn law_audience_is_a_boundary(caller: Caller)
    ensures
        caller.allowed(ActionAudience::Human) <==> caller is Human,
        caller.allowed(ActionAudience::Agent) <==> caller is Agent || caller is Companion,
        caller.allowed(ActionAudience::Both) <==> !(caller is Unknown),
{
}

/// Credentials of two kinds at once, or an invalid one, establish nobody.
pub proof fn law_ambiguous_credentials_establish_nobody(
    authorization_present: bool,
    agent: bool,
    human: bool,
)
    requires
        (agent && human) || (authorization_present && !agent) || (authorization_present && human)
            || (!authorization_present && !human),
    ensures
        established_caller(authorization_present, agent, human) is Unknown,
{
}

/// The role that a request names never raises the caller above what its
/// credentials established.
pub proof fn law_narrowing_never_widens(established: Caller, requested: Option<JsonView>)
    ensures
        narrowed_caller(established, requested).rank() <= established.rank(),
        narrowed_caller(established, requested).allowed(ActionAudience::Human) ==> established is Human,
        established is Unknown ==> narrowed_caller(established, requested) is Unknown,
{
}

/// An agent that attached over the tool protocol and announced itself.
#[derive(Debug, PartialEq, Eq)]
pub struct AttachedAgent {
    /// The connection's session id.
    pub session: String,
    /// Host-minted participant id.
    pub participant_id: String,
    /// Room-unique display name.
    pub label: String,
    /// The name the client gave itself.
    pub client_name: String,
    /// The version the client gave itself.
    pub client_version: Option<String>,
    /// The key of the person who brought it.
    pub responsible: Option<String>,
}

/// A person whom the host admitted.
#[derive(Debug, PartialEq, Eq)]
pub struct Person {
    /// Host-minted participant id.
    pub participant_id: String,
    /// Room-unique display name.
    pub name: String,
    /// Display colour.
    pub hue: u16,
    /// The key of the principal behind the person.
    pub principal_key: String,
}

/// Who is acting, for attribution; what they may do is the [`Caller`]'s matter.
#[derive(Debug, PartialEq, Eq)]
pub struct Actor {
    pub caller: Caller,
    /// Room-unique display name, when this actor announced itself.
    pub label: Option<String>,
    /// Host-minted participant id.
    pub participant_id: Option<String>,
    /// Display colour.
    pub hue: Option<u16>,
    /// The key of the person behind this actor.
    pub responsible: Option<String>,
}

/// An actor in contracts.
pub struct ActorView {
    pub caller: Caller,
    pub label: Option<Seq<char>>,
    pub participant_id: Option<Seq<char>>,
    pub hue: Option<u16>,
    pub responsible: Option<Seq<char>>,
}

impl View for Actor {
    type V = ActorView;

    open spec fn view(&self) -> ActorView {
        ActorView {
            caller: self.caller,
            label: opt_text(self.label),
            participant_id: opt_text(self.participant_id),
            hue: self.hue,
            responsible: opt_text(self.responsible),
        }
    }
}

impl ActorView {
    /// The name to sign a write with: the label where there is one that says
    /// something, else the role.
    pub open spec fn signature(self) -> Seq<char> {
        match self.label {
            Some(label) => if label.len() > 0 {
                label
            } else {
                self.caller.role()
            },
            None => self.caller.role(),
        }
    }
}

impl Actor {
    /// An actor that never said who it is.
    pub fn anonymous(caller: Caller) -> (actor: Actor)
        ensures
            actor@ == (ActorView {
                caller,
                label: None,
                participant_id: None,
                hue: None,
                responsible: None,
            }),
    {
        Actor { caller, label: None, participant_id: None, hue: None, responsible: None }
    }

    /// An agent that attached and announced itself.
    pub fn attached(caller: Caller, agent: &AttachedAgent) -> (actor: Actor)
        ensures
            actor@ == (ActorView {
                caller,
                label: Some(agent.label@),
                participant_id: Some(agent.participant_id@),
                hue: None,
                responsible: opt_text(agent.responsible),
            }),
    {
        Actor {
            caller,
            label: Some(agent.label.clone()),
            participant_id: Some(agent.participant_id.clone()),
            hue: None,
            responsible: copy_opt(&agent.responsible),
        }
    }

    /// A person who joined and holds a resume token.
    pub fn person(caller: Caller, person: &Person) -> (actor: Actor)
        ensures
            actor@ == (ActorView {
                caller,
                label: Some(person.name@),
                participant_id: Some(person.participant_id@),
                hue: Some(person.hue),
                responsible: Some(person.principal_key@),
            }),
    {
        Actor {
            caller,
            label: Some(person.name.clone()),
            participant_id: Some(person.participant_id.clone()),
            hue: Some(person.hue),
            responsible: Some(person.principal_key.clone()),
        }
    }

    /// The name to sign a write with: the announced label when there is one,
    /// otherwise the generic role. Never empty.
    pub fn byline(&self) -> (byline: &str)
        ensures
            byline@ == self@.signature(),
            byline@.len() > 0,
    {
        proof {
            law_a_byline_is_never_empty(self@);
        }
        match &self.label {
            Some(label) => {
                let label: &str = label.as_str();
                if !label.is_empty() {
                    return label;
                }
            },
            None => {},
        }
        match self.caller {
            Caller::Human => "human",
            Caller::Agent => "agent",
            Caller::Companion => "companion",
            Caller::Unknown => "unknown",
        }
    }
}

/// Everybody signs with a name, never with nothing: with the label that they
/// announced, or with their role.
pub proof fn law_a_byline_is_never_empty(actor: ActorView)
    ensures
        actor.signature().len() > 0,
{
    reveal_strlit("human");
    reveal_strlit("agent");
    reveal_strlit("companion");
    reveal_strlit("unknown");
}

} // verus!
