//! The request agent's settings: the endpoint of the service under test and
//! the name that the agent gives itself.
use crate::benchmark::ConfigError;
use vstd::prelude::*;
use vstd::string::StringExecFns;

verus! {

/// Whether `text` is an absolute URL, as the `url` crate's parser judges it.
pub uninterp spec fn is_absolute_url(text: Seq<char>) -> bool;

/// Runs `url::Url::parse` on `text` and says whether it accepted it. The
/// parser is not verified: the contract only names its verdict.
#[verifier::external_body]
fn parses_as_url(text: &str) -> (accepted: bool)
    ensures
        accepted == is_absolute_url(text@),
{
    url::Url::parse(text).is_ok()
}

/// The mathematical content of an [`Agent`].
pub struct AgentView {
    pub base_url: Seq<char>,
    pub user_agent: Seq<char>,
}

/// The settings of the agent that sends the requests of a benchmark.
pub struct Agent {
    base_url: String,
    user_agent: String,
}

impl View for Agent {
    type V = AgentView;

    closed spec fn view(&self) -> AgentView {
        AgentView { base_url: self.base_url@, user_agent: self.user_agent@ }
    }
}

impl Clone for Agent {
    fn clone(&self) -> (copy: Agent)
        ensures
            copy@ == self@,
    {
        proof {
            use_type_invariant(self);
        }
        Agent { base_url: self.base_url.clone(), user_agent: self.user_agent.clone() }
    }
}

impl Agent {
    #[verifier::type_invariant]
    spec fn base_url_is_absolute(&self) -> bool {
        is_absolute_url(self.base_url@)
    }

    /// An agent for the service at `base_url`, with an empty user agent.
    pub fn new(base_url: &str) -> (agent: Agent)
        requires
            is_absolute_url(base_url@),
        ensures
            agent@.base_url == base_url@,
            agent@.user_agent == Seq::<char>::empty(),
    {
        Agent { base_url: String::from_str(base_url), user_agent: String::new() }
    }

    /// An agent for the service at `base_url` if that is an absolute URL,
    /// and the reason for refusing it if it is not.
    pub fn try_new(base_url: &str) -> (agent: Result<Agent, ConfigError>)
        ensures
            match agent {
                Ok(agent) => {
                    &&& is_absolute_url(base_url@)
                    &&& agent@.base_url == base_url@
                    &&& agent@.user_agent == Seq::<char>::empty()
                },
                Err(error) => !is_absolute_url(base_url@) && error == ConfigError::InvalidEndpoint,
            },
    {
        if parses_as_url(base_url) {
            Ok(Agent::new(base_url))
        } else {
            Err(ConfigError::InvalidEndpoint)
        }
    }

    /// Sets the name that the agent sends as its `User-Agent`.
    pub fn set_user_agent(&mut self, user_agent: &str)
        ensures
            final(self)@.user_agent == user_agent@,
            final(self)@.base_url == old(self)@.base_url,
    {
        proof {
            use_type_invariant(&*self);
        }
        self.user_agent = String::from_str(user_agent);
    }

    /// The endpoint of the service under test, which is an absolute URL.
    pub fn base_url(&self) -> (base_url: &str)
        ensures
            base_url@ == self@.base_url,
            is_absolute_url(base_url@),
    {
        proof {
            use_type_invariant(self);
        }
        self.base_url.as_str()
    }

    /// The name that the agent sends as its `User-Agent`.
    pub fn user_agent(&self) -> (user_agent: &str)
        ensures
            user_agent@ == self@.user_agent,
    {
        self.user_agent.as_str()
    }
}

} // verus!
