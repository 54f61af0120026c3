//! What the runtime keeps beside the conversation: whether attached agents are
//! still there, the models that were chosen, and the token of the agents'
//! endpoint.

use vstd::prelude::*;

use crate::providers::{provider_views, Provider, ProviderView};
use crate::text::{opt_str, same, trim, trimmed};
use crate::textmap::TextMap;

verus! {

/// The longest that one call can run and still show that somebody is there, in
/// nanoseconds.
pub const MAX_CALL_LIFETIME: u64 = 660_000_000_000;

/// What shows that an attached agent is still there. Moments are nanoseconds of
/// a clock that never runs backwards.
#[derive(Debug, PartialEq, Eq)]
pub struct AgentLiveness {
    last_seen: u64,
    in_flight: usize,
    started: u64,
}

/// An agent's liveness in contracts.
#[verifier::ext_equal]
pub struct LivenessView {
    /// When the agent last spoke.
    pub last_seen: u64,
    /// How many of its calls run.
    pub in_flight: usize,
    /// When the newest of them began.
    pub started: u64,
}

impl View for AgentLiveness {
    type V = LivenessView;

    closed spec fn view(&self) -> LivenessView {
        LivenessView {
            last_seen: self.last_seen,
            in_flight: self.in_flight,
            started: self.started,
        }
    }
}

/// How long ago a moment was.
pub open spec fn elapsed(since: u64, now: u64) -> u64 {
    if now > since {
        (now - since) as u64
    } else {
        0
    }
}

impl LivenessView {
    /// An agent whose call began.
    pub open spec fn called(self, now: u64) -> LivenessView {
        LivenessView { last_seen: now, in_flight: (self.in_flight + 1) as usize, started: now }
    }

    /// An agent whose call ended.
    pub open spec fn ended(self, now: u64) -> LivenessView {
        LivenessView { last_seen: now, in_flight: (self.in_flight - 1) as usize, ..self }
    }

    /// For how long an agent has been quiet. One in a call is not quiet, unless
    /// the call has run for longer than any call may.
    pub open spec fn quiet(self, now: u64) -> Option<u64> {
        if self.in_flight == 0 {
            Some(elapsed(self.last_seen, now))
        } else if elapsed(self.started, now) > MAX_CALL_LIFETIME {
            Some(elapsed(self.started, now))
        } else {
            None
        }
    }
}

impl AgentLiveness {
    /// An agent that last spoke at some moment.
    pub fn seen_at(when: u64) -> (liveness: AgentLiveness)
        ensures
            liveness@ == (LivenessView { last_seen: when, in_flight: 0, started: when }),
    {
        AgentLiveness { last_seen: when, in_flight: 0, started: when }
    }

    /// Notes that the agent spoke.
    pub fn touch(&mut self, now: u64)
        ensures
            final(self)@ == (LivenessView { last_seen: now, ..old(self)@ }),
    {
        self.last_seen = now;
    }

    /// How many calls of the agent run.
    pub fn in_flight(&self) -> (count: usize)
        ensures
            count == self@.in_flight,
    {
        self.in_flight
    }

    /// Whether the agent is in a call, a blocking read among them.
    pub fn listening(&self) -> (result: bool)
        ensures
            result == (self@.in_flight > 0),
    {
        self.in_flight > 0
    }

    /// For how long the agent has been quiet, if it is.
    pub fn quiet_for(&self, now: u64) -> (quiet: Option<u64>)
        ensures
            quiet == self@.quiet(now),
    {
        if self.in_flight == 0 {
            return Some(now.saturating_sub(self.last_seen));
        }
        let running: u64 = now.saturating_sub(self.started);
        if running > MAX_CALL_LIFETIME {
            Some(running)
        } else {
            None
        }
    }

    /// Moves the beginning of the current call.
    pub fn pretend_call_started(&mut self, when: u64)
        ensures
            final(self)@ == (LivenessView { started: when, ..old(self)@ }),
    {
        self.started = when;
    }

    /// Notes that a call began.
    pub fn begin_call(&mut self, now: u64)
        requires
            old(self)@.in_flight < usize::MAX,
        ensures
            final(self)@ == old(self)@.called(now),
    {
        self.last_seen = now;
        self.started = now;
        self.in_flight = self.in_flight + 1;
    }

    /// Notes that a call ended, or that its connection went away.
    pub fn end_call(&mut self, now: u64)
        requires
            old(self)@.in_flight > 0,
        ensures
            final(self)@ == old(self)@.ended(now),
    {
        self.in_flight = self.in_flight - 1;
        self.last_seen = now;
    }
}

/// An agent in a call is not quiet until the longest lifetime of a call has
/// passed, and counts from the end of its last call on.
pub proof fn law_a_call_is_heard_until_it_has_hung(
    before: LivenessView,
    start: u64,
    end: u64,
    now: u64,
)
    requires
        before.in_flight == 0,
        start <= end <= now,
    ensures
        ({
            let during = before.called(start);
            let after = during.ended(end);
            &&& now - start <= MAX_CALL_LIFETIME ==> during.quiet(now) is None
            &&& now - start > MAX_CALL_LIFETIME ==> during.quiet(now) == Some(
                (now - start) as u64,
            )
            &&& after.quiet(now) == Some((now - end) as u64)
        }),
{
}

/// The models that were stored for the first `n` providers. The single
/// connection slot keeps its model elsewhere.
pub open spec fn overrides_among(
    providers: Seq<ProviderView>,
    stored: Seq<Option<Seq<char>>>,
    n: nat,
) -> Map<Seq<char>, Seq<char>>
    decreases n,
{
    if n == 0 {
        Map::empty()
    } else {
        let rest = overrides_among(providers, stored, (n - 1) as nat);
        let id = providers[n - 1].id;
        match stored[n - 1] {
            Some(model) => if id != "openai"@ && model.len() > 0 {
                rest.insert(id, model)
            } else {
                rest
            },
            None => rest,
        }
    }
}

/// The texts that some entries hold.
pub open spec fn opt_text_list(list: Seq<Option<String>>) -> Seq<Option<Seq<char>>> {
    Seq::new(list.len(), |i: int| crate::text::opt_text(list[i]))
}

/// The models that were stored for some providers. `stored` holds what was
/// stored for each.
pub fn model_overrides(providers: &Vec<Provider>, stored: &Vec<Option<String>>) -> (overrides:
    TextMap)
    requires
        stored@.len() == providers@.len(),
    ensures
        overrides@ == overrides_among(
            provider_views(providers@),
            opt_text_list(stored@),
            providers@.len(),
        ),
{
    let ghost list = provider_views(providers@);
    let ghost models = opt_text_list(stored@);
    let mut overrides: TextMap = TextMap::new();
    let mut i: usize = 0;
    while i < providers.len()
        invariant
            i <= providers@.len(),
            stored@.len() == providers@.len(),
            list == provider_views(providers@),
            models == opt_text_list(stored@),
            overrides@ == overrides_among(list, models, i as nat),
        decreases providers@.len() - i,
    {
        proof {
            assert(list[i as int] == providers@[i as int]@);
            assert(models[i as int] == crate::text::opt_text(stored@[i as int]));
        }
        match &stored[i] {
            Some(model) => {
                if !same(&providers[i].id, "openai") && model.as_str().unicode_len() > 0 {
                    overrides.insert(&providers[i].id, model);
                }
            },
            None => {},
        }
        i += 1;
    }
    overrides
}

/// The token of the agents' endpoint: what the environment names, or a fresh
/// one.
pub open spec fn token_text(configured: Option<Seq<char>>, fresh: Seq<char>) -> Seq<char> {
    match configured {
        Some(token) => if trimmed(token).len() > 0 {
            trimmed(token)
        } else {
            fresh
        },
        None => fresh,
    }
}

/// The token of the agents' endpoint, given a fresh one.
pub fn mcp_token(configured: Option<&str>, fresh: &str) -> (token: String)
    ensures
        token@ == token_text(opt_str(configured), fresh@),
{
    match configured {
        Some(token) => {
            let token: &str = trim(token);
            if token.is_empty() {
                fresh.to_owned()
            } else {
                token.to_owned()
            }
        },
        None => fresh.to_owned(),
    }
}

} // verus!
