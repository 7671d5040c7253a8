//! The entity model: agents, windows, sessions and projects as plain data
//! with identity, relationships and lifecycle transitions. No I/O happens
//! here; every operation that touches the clock takes the current time as a
//! plain `i64` of seconds since the Unix epoch.

use vstd::prelude::*;
use vstd::string::StringExecFns;
use crate::ident;
use crate::strutil::str_eq;

verus! {

/// Per-token price of the `AssistantCli` model, in nanodollars.
pub const RATE_ASSISTANT_CLI: u64 = 3000;

/// Per-token price of the `Sonnet35` model, in nanodollars.
pub const RATE_SONNET_35: u64 = 3000;

/// Per-token price of the `Haiku35` model, in nanodollars.
pub const RATE_HAIKU_35: u64 = 250;

/// Per-token price of the `Gpt4o` model, in nanodollars.
pub const RATE_GPT_4O: u64 = 15000;

/// Per-token price of the `Gpt4oMini` model, in nanodollars.
pub const RATE_GPT_4O_MINI: u64 = 150;

/// Per-token price assumed for custom models, in nanodollars.
pub const RATE_CUSTOM: u64 = 2000;

/// The model an agent runs: one of the known hosted models, or an arbitrary
/// custom string (optionally encoding a literal shell command with a `cmd:`
/// prefix).
#[derive(Debug, Clone, PartialEq)]
pub enum AgentModel {
    AssistantCli,
    Sonnet35,
    Haiku35,
    Gpt4o,
    Gpt4oMini,
    Custom(String),
}

impl AgentModel {
    /// The per-token price of this model in nanodollars.
    pub open spec fn spec_rate(&self) -> u64 {
        match self {
            AgentModel::AssistantCli => RATE_ASSISTANT_CLI,
            AgentModel::Sonnet35 => RATE_SONNET_35,
            AgentModel::Haiku35 => RATE_HAIKU_35,
            AgentModel::Gpt4o => RATE_GPT_4O,
            AgentModel::Gpt4oMini => RATE_GPT_4O_MINI,
            AgentModel::Custom(_) => RATE_CUSTOM,
        }
    }

    /// The per-token price of this model in nanodollars.
    pub fn rate(&self) -> (r: u64)
        ensures
            r == self.spec_rate(),
    {
        match self {
            AgentModel::AssistantCli => RATE_ASSISTANT_CLI,
            AgentModel::Sonnet35 => RATE_SONNET_35,
            AgentModel::Haiku35 => RATE_HAIKU_35,
            AgentModel::Gpt4o => RATE_GPT_4O,
            AgentModel::Gpt4oMini => RATE_GPT_4O_MINI,
            AgentModel::Custom(_) => RATE_CUSTOM,
        }
    }

    /// The display name of this model.
    pub open spec fn spec_name(&self) -> Seq<char> {
        match self {
            AgentModel::AssistantCli => "assistant-cli"@,
            AgentModel::Sonnet35 => "sonnet-3.5"@,
            AgentModel::Haiku35 => "haiku-3.5"@,
            AgentModel::Gpt4o => "gpt-4o"@,
            AgentModel::Gpt4oMini => "gpt-4o-mini"@,
            AgentModel::Custom(name) => name@,
        }
    }

    /// The display name of this model.
    pub fn name_string(&self) -> (r: String)
        ensures
            r@ == self.spec_name(),
    {
        match self {
            AgentModel::AssistantCli => String::from_str("assistant-cli"),
            AgentModel::Sonnet35 => String::from_str("sonnet-3.5"),
            AgentModel::Haiku35 => String::from_str("haiku-3.5"),
            AgentModel::Gpt4o => String::from_str("gpt-4o"),
            AgentModel::Gpt4oMini => String::from_str("gpt-4o-mini"),
            AgentModel::Custom(name) => name.clone(),
        }
    }

    /// Which model a user-supplied name denotes; unrecognized names denote a
    /// custom model of that name.
    pub open spec fn spec_parses_to(s: Seq<char>, m: AgentModel) -> bool {
        if s == "assistant-cli"@ {
            m == AgentModel::AssistantCli
        } else if s == "sonnet-3.5"@ || s == "sonnet-35"@ {
            m == AgentModel::Sonnet35
        } else if s == "haiku-3.5"@ {
            m == AgentModel::Haiku35
        } else if s == "gpt-4o"@ {
            m == AgentModel::Gpt4o
        } else if s == "gpt-4o-mini"@ {
            m == AgentModel::Gpt4oMini
        } else {
            m matches AgentModel::Custom(name) && name@ == s
        }
    }

    /// Parse a user-supplied model name.
    pub fn parse_name(s: &str) -> (m: AgentModel)
        ensures
            Self::spec_parses_to(s@, m),
    {
        if str_eq(s, "assistant-cli") {
            AgentModel::AssistantCli
        } else if str_eq(s, "sonnet-3.5") || str_eq(s, "sonnet-35") {
            AgentModel::Sonnet35
        } else if str_eq(s, "haiku-3.5") {
            AgentModel::Haiku35
        } else if str_eq(s, "gpt-4o") {
            AgentModel::Gpt4o
        } else if str_eq(s, "gpt-4o-mini") {
            AgentModel::Gpt4oMini
        } else {
            AgentModel::Custom(s.to_owned())
        }
    }
}

/// A copy of a model.
pub fn clone_model(m: &AgentModel) -> (r: AgentModel)
    ensures
        r == *m,
{
    match m {
        AgentModel::AssistantCli => AgentModel::AssistantCli,
        AgentModel::Sonnet35 => AgentModel::Sonnet35,
        AgentModel::Haiku35 => AgentModel::Haiku35,
        AgentModel::Gpt4o => AgentModel::Gpt4o,
        AgentModel::Gpt4oMini => AgentModel::Gpt4oMini,
        AgentModel::Custom(name) => AgentModel::Custom(name.clone()),
    }
}

impl std::str::FromStr for AgentModel {
    type Err = String;

    fn from_str(s: &str) -> Result<AgentModel, String> {
        Ok(AgentModel::parse_name(s))
    }
}

/// The lifecycle state of an agent.
#[derive(Debug, Clone, PartialEq)]
pub enum AgentState {
    Starting,
    Running,
    Idle,
    Stopping,
    Stopped,
    Error(String),
}

/// One supervised instance of an AI coding assistant (or custom command),
/// with cost and token accounting and a lifecycle state. Timestamps are
/// seconds since the Unix epoch; costs are nanodollars.
#[derive(Debug, Clone, PartialEq)]
pub struct Agent {
    pub id: String,
    pub name: String,
    pub window_id: String,
    pub session_id: String,
    pub model: AgentModel,
    pub state: AgentState,
    pub project: Option<String>,
    pub labels: Vec<String>,
    pub pid: Option<u32>,
    pub tokens_used: u64,
    pub estimated_cost: u64,
    pub uptime_start: Option<i64>,
    pub task_description: Option<String>,
    pub tools: Vec<String>,
    pub artifacts_path: Option<String>,
    pub created_at: i64,
    pub last_activity: i64,
}

/// What `add_tokens` adds to an agent's estimated cost, in nanodollars:
/// the token count times the model's per-token rate.
pub open spec fn cost_increment(model: AgentModel, tokens: u64) -> int {
    tokens * model.spec_rate()
}

impl Agent {
    /// Whether this agent has the fields of a freshly allocated, stopped
    /// agent (everything but the identifier).
    pub open spec fn spec_fresh(
        &self,
        name: String,
        window_id: String,
        session_id: String,
        model: AgentModel,
        now: i64,
    ) -> bool {
        &&& self.spec_fresh_data(name, model, now)
        &&& self.window_id == window_id
        &&& self.session_id == session_id
    }

    /// Whether this agent has the fields of a freshly allocated, stopped
    /// agent, leaving its identifier and owner references unconstrained.
    pub open spec fn spec_fresh_data(&self, name: String, model: AgentModel, now: i64) -> bool {
        &&& self.name == name
        &&& self.model == model
        &&& self.state == AgentState::Stopped
        &&& self.project is None
        &&& self.labels@ == Seq::<String>::empty()
        &&& self.pid is None
        &&& self.tokens_used == 0
        &&& self.estimated_cost == 0
        &&& self.uptime_start is None
        &&& self.task_description is None
        &&& self.tools@ == Seq::<String>::empty()
        &&& self.artifacts_path is None
        &&& self.created_at == now
        &&& self.last_activity == now
    }

    /// A freshly allocated, stopped agent carrying the given identifier.
    pub fn with_id(
        id: String,
        name: String,
        window_id: String,
        session_id: String,
        model: AgentModel,
        now: i64,
    ) -> (a: Agent)
        ensures
            a.id == id,
            a.spec_fresh(name, window_id, session_id, model, now),
    {
        let a = Agent {
            id,
            name,
            window_id,
            session_id,
            model,
            state: AgentState::Stopped,
            project: None,
            labels: Vec::new(),
            pid: None,
            tokens_used: 0,
            estimated_cost: 0,
            uptime_start: None,
            task_description: None,
            tools: Vec::new(),
            artifacts_path: None,
            created_at: now,
            last_activity: now,
        };
        proof {
            assert(a.labels@ =~= Seq::<String>::empty());
            assert(a.tools@ =~= Seq::<String>::empty());
        }
        a
    }

    /// A freshly allocated, stopped agent with a generated identifier of the
    /// form `a-` plus four random characters.
    pub fn new(
        name: String,
        window_id: String,
        session_id: String,
        model: AgentModel,
        now: i64,
    ) -> (a: Agent)
        ensures
            a.spec_fresh(name, window_id, session_id, model, now),
            a.id@.len() == 6,
            a.id@.subrange(0, 2) == "a-"@,
    {
        let id = ident::gen_id("a-", 4);
        proof {
            reveal_strlit("a-");
        }
        Agent::with_id(id, name, window_id, session_id, model, now)
    }

    /// Begin starting the agent: record the start of its uptime and touch its
    /// activity timestamp.
    pub fn start(&mut self, now: i64)
        ensures
            *final(self) == (Agent {
                state: AgentState::Starting,
                uptime_start: Some(now),
                last_activity: now,
                ..*old(self)
            }),
    {
        self.state = AgentState::Starting;
        self.uptime_start = Some(now);
        self.last_activity = now;
    }

    /// Record that the agent's process is up, with its OS pid.
    pub fn set_running(&mut self, pid: u32, now: i64)
        ensures
            *final(self) == (Agent {
                state: AgentState::Running,
                pid: Some(pid),
                last_activity: now,
                ..*old(self)
            }),
    {
        self.state = AgentState::Running;
        self.pid = Some(pid);
        self.last_activity = now;
    }

    /// Record that the agent has gone idle.
    pub fn set_idle(&mut self, now: i64)
        ensures
            *final(self) == (Agent { state: AgentState::Idle, last_activity: now, ..*old(self) }),
    {
        self.state = AgentState::Idle;
        self.last_activity = now;
    }

    /// Stop the agent: clear its pid and uptime.
    pub fn stop(&mut self)
        ensures
            *final(self) == (Agent {
                state: AgentState::Stopped,
                pid: None,
                uptime_start: None,
                ..*old(self)
            }),
    {
        self.state = AgentState::Stopped;
        self.pid = None;
        self.uptime_start = None;
    }

    /// Record a failure; leaving the error state takes an explicit `stop` or
    /// `start`.
    pub fn set_error(&mut self, error: String, now: i64)
        ensures
            *final(self) == (Agent {
                state: AgentState::Error(error),
                last_activity: now,
                ..*old(self)
            }),
    {
        self.state = AgentState::Error(error);
        self.last_activity = now;
    }

    /// Account for `tokens` more tokens: the token total grows by `tokens`
    /// and the estimated cost by `tokens` times the model's per-token rate.
    pub fn add_tokens(&mut self, tokens: u64, now: i64)
        requires
            old(self).tokens_used + tokens <= u64::MAX,
            old(self).estimated_cost + cost_increment(old(self).model, tokens) <= u64::MAX,
        ensures
            *final(self) == (Agent {
                tokens_used: (old(self).tokens_used + tokens) as u64,
                estimated_cost: (old(self).estimated_cost + cost_increment(
                    old(self).model,
                    tokens,
                )) as u64,
                last_activity: now,
                ..*old(self)
            }),
    {
        let rate = self.model.rate();
        self.tokens_used = self.tokens_used + tokens;
        self.estimated_cost = self.estimated_cost + tokens * rate;
        self.last_activity = now;
    }

    /// How long the agent has been up, in seconds, if it was started.
    pub fn uptime(&self, now: i64) -> (r: Option<i64>)
        requires
            self.uptime_start matches Some(start) ==> i64::MIN <= now - start <= i64::MAX,
        ensures
            r == match self.uptime_start {
                Some(start) => Some((now - start) as i64),
                None => None::<i64>,
            },
    {
        match self.uptime_start {
            Some(start) => Some(now - start),
            None => None,
        }
    }
}

/// Accounting tokens is additive and order-independent: two `add_tokens`
/// calls that add `x` and `y` tokens leave the same token total and the same
/// estimated cost as one call adding `x + y`, in either order. The first two
/// hypotheses restate exactly what `add_tokens` ensures for each call.
pub proof fn lemma_add_tokens_additive(
    a0: Agent,
    a1: Agent,
    a2: Agent,
    x: u64,
    y: u64,
    n1: i64,
    n2: i64,
)
    requires
        a0.tokens_used + x + y <= u64::MAX,
        a0.estimated_cost + cost_increment(a0.model, x) + cost_increment(a0.model, y)
            <= u64::MAX,
        a1 == (Agent {
            tokens_used: (a0.tokens_used + x) as u64,
            estimated_cost: (a0.estimated_cost + cost_increment(a0.model, x)) as u64,
            last_activity: n1,
            ..a0
        }),
        a2 == (Agent {
            tokens_used: (a1.tokens_used + y) as u64,
            estimated_cost: (a1.estimated_cost + cost_increment(a1.model, y)) as u64,
            last_activity: n2,
            ..a1
        }),
    ensures
        a2.tokens_used == a0.tokens_used + x + y,
        a2.tokens_used == a0.tokens_used + y + x,
        a2.estimated_cost == a0.estimated_cost + cost_increment(a0.model, y) + cost_increment(
            a0.model,
            x,
        ),
        x + y <= u64::MAX ==> a2.estimated_cost == a0.estimated_cost + cost_increment(
            a0.model,
            ((x + y) as u64),
        ),
{
    let r = a0.model.spec_rate();
    if x + y <= u64::MAX {
        let s: u64 = (x + y) as u64;
        assert(x * r + y * r == s * r) by (nonlinear_arith)
            requires
                s == x + y,
        ;
    }
}

/// Whether two optional strings hold the same characters.
pub open spec fn spec_same_opt_str(a: Option<String>, b: Option<String>) -> bool {
    match (a, b) {
        (Option::None, Option::None) => true,
        (Option::Some(x), Option::Some(y)) => x@ == y@,
        _ => false,
    }
}

/// Whether two vectors of strings hold the same character sequences.
pub open spec fn spec_same_str_seq(a: Seq<String>, b: Seq<String>) -> bool {
    a.len() == b.len() && forall|t: int| 0 <= t < a.len() ==> (#[trigger] a[t])@ == b[t]@
}

/// Whether two models denote the same model.
pub open spec fn spec_same_model(a: AgentModel, b: AgentModel) -> bool {
    match (a, b) {
        (AgentModel::AssistantCli, AgentModel::AssistantCli) => true,
        (AgentModel::Sonnet35, AgentModel::Sonnet35) => true,
        (AgentModel::Haiku35, AgentModel::Haiku35) => true,
        (AgentModel::Gpt4o, AgentModel::Gpt4o) => true,
        (AgentModel::Gpt4oMini, AgentModel::Gpt4oMini) => true,
        (AgentModel::Custom(x), AgentModel::Custom(y)) => x@ == y@,
        _ => false,
    }
}

/// Whether two states denote the same lifecycle state.
pub open spec fn spec_same_state(a: AgentState, b: AgentState) -> bool {
    match (a, b) {
        (AgentState::Starting, AgentState::Starting) => true,
        (AgentState::Running, AgentState::Running) => true,
        (AgentState::Idle, AgentState::Idle) => true,
        (AgentState::Stopping, AgentState::Stopping) => true,
        (AgentState::Stopped, AgentState::Stopped) => true,
        (AgentState::Error(x), AgentState::Error(y)) => x@ == y@,
        _ => false,
    }
}

/// Whether two agents agree on every field, comparing strings by their
/// characters.
pub open spec fn spec_same_agent(a: Agent, b: Agent) -> bool {
    &&& a.id@ == b.id@
    &&& a.name@ == b.name@
    &&& a.window_id@ == b.window_id@
    &&& a.session_id@ == b.session_id@
    &&& spec_same_model(a.model, b.model)
    &&& spec_same_state(a.state, b.state)
    &&& spec_same_opt_str(a.project, b.project)
    &&& spec_same_str_seq(a.labels@, b.labels@)
    &&& a.pid == b.pid
    &&& a.tokens_used == b.tokens_used
    &&& a.estimated_cost == b.estimated_cost
    &&& a.uptime_start == b.uptime_start
    &&& spec_same_opt_str(a.task_description, b.task_description)
    &&& spec_same_str_seq(a.tools@, b.tools@)
    &&& spec_same_opt_str(a.artifacts_path, b.artifacts_path)
    &&& a.created_at == b.created_at
    &&& a.last_activity == b.last_activity
}

/// Whether two windows agree on every field, agents included.
pub open spec fn spec_same_window(a: Window, b: Window) -> bool {
    &&& a.id@ == b.id@
    &&& a.name@ == b.name@
    &&& a.session_id@ == b.session_id@
    &&& a.agents@.len() == b.agents@.len()
    &&& forall|k: int|
        0 <= k < a.agents@.len() ==> spec_same_agent(#[trigger] a.agents@[k], b.agents@[k])
    &&& spec_same_opt_str(a.project, b.project)
    &&& spec_same_str_seq(a.labels@, b.labels@)
    &&& spec_same_opt_str(a.worktree_path, b.worktree_path)
    &&& spec_same_opt_str(a.branch, b.branch)
    &&& a.created_at == b.created_at
}

/// Whether two sessions agree on every field, windows included.
pub open spec fn spec_same_session(a: BunshinSession, b: BunshinSession) -> bool {
    &&& a.id@ == b.id@
    &&& a.name@ == b.name@
    &&& a.windows@.len() == b.windows@.len()
    &&& forall|j: int|
        0 <= j < a.windows@.len() ==> spec_same_window(#[trigger] a.windows@[j], b.windows@[j])
    &&& a.created_at == b.created_at
    &&& a.last_accessed == b.last_accessed
    &&& a.is_active == b.is_active
}

/// Whether two projects agree on every field.
pub open spec fn spec_same_project(a: Project, b: Project) -> bool {
    &&& a.name@ == b.name@
    &&& spec_same_opt_str(a.description, b.description)
    &&& spec_same_opt_str(a.repository, b.repository)
    &&& spec_same_str_seq(a.labels@, b.labels@)
    &&& a.created_at == b.created_at
}

/// Whether some agent in `agents` carries the identifier `id`.
pub open spec fn spec_has_agent_id(agents: Seq<Agent>, id: Seq<char>) -> bool {
    exists|j: int| 0 <= j < agents.len() && agents[j].id@ == id
}

/// Whether some window in `windows` carries the identifier `id`.
pub open spec fn spec_has_window_id(windows: Seq<Window>, id: Seq<char>) -> bool {
    exists|j: int| 0 <= j < windows.len() && windows[j].id@ == id
}

/// A grouping of agents within a session, optionally bound to a project and
/// an isolated worktree.
#[derive(Debug, Clone, PartialEq)]
pub struct Window {
    pub id: String,
    pub name: String,
    pub session_id: String,
    pub agents: Vec<Agent>,
    pub project: Option<String>,
    pub labels: Vec<String>,
    pub worktree_path: Option<String>,
    pub branch: Option<String>,
    pub created_at: i64,
}

impl Window {
    /// A freshly allocated window with no agents, owned by the session with
    /// identifier `session_id`.
    pub fn new(name: String, session_id: String, now: i64) -> (w: Window)
        ensures
            w.id@.len() == 10,
            w.id@.subrange(0, 2) == "w-"@,
            w.name == name,
            w.session_id == session_id,
            w.agents@ == Seq::<Agent>::empty(),
            w.project is None,
            w.labels@ == Seq::<String>::empty(),
            w.worktree_path is None,
            w.branch is None,
            w.created_at == now,
    {
        let id = ident::gen_id("w-", 8);
        proof {
            reveal_strlit("w-");
        }
        let w = Window {
            id,
            name,
            session_id,
            agents: Vec::new(),
            project: None,
            labels: Vec::new(),
            worktree_path: None,
            branch: None,
            created_at: now,
        };
        proof {
            assert(w.agents@ =~= Seq::<Agent>::empty());
            assert(w.labels@ =~= Seq::<String>::empty());
        }
        w
    }

    /// The identifiers of all agents in this window, in order.
    fn agent_ids(&self) -> (ids: Vec<String>)
        ensures
            ids@.len() == self.agents@.len(),
            forall|j: int| 0 <= j < ids@.len() ==> (#[trigger] ids@[j])@ == self.agents@[j].id@,
    {
        let mut ids: Vec<String> = Vec::new();
        let mut i: usize = 0;
        while i < self.agents.len()
            invariant
                i <= self.agents@.len(),
                ids@.len() == i,
                forall|j: int| 0 <= j < i ==> (#[trigger] ids@[j])@ == self.agents@[j].id@,
            decreases self.agents@.len() - i,
        {
            ids.push(self.agents[i].id.clone());
            i += 1;
        }
        ids
    }

    /// Add a freshly allocated agent; its identifier is new within this
    /// window and is returned.
    pub fn add_agent(&mut self, name: String, model: AgentModel, now: i64) -> (id: String)
        ensures
            !spec_has_agent_id(old(self).agents@, id@),
            id@.len() >= 6,
            id@.subrange(0, 2) == "a-"@,
            final(self).agents@.len() == old(self).agents@.len() + 1,
            final(self).agents@ == old(self).agents@.push(final(self).agents@.last()),
            final(self).agents@.last().id == id,
            final(self).agents@.last().spec_fresh(
                name,
                old(self).id,
                old(self).session_id,
                model,
                now,
            ),
            *final(self) == (Window { agents: final(self).agents, ..*old(self) }),
    {
        let ids = self.agent_ids();
        let id = ident::fresh_id("a-", 4, &ids);
        proof {
            reveal_strlit("a-");
            if spec_has_agent_id(self.agents@, id@) {
                let j = choose|j: int|
                    0 <= j < self.agents@.len() && self.agents@[j].id@ == id@;
                assert(ids@[j]@ == id@);
                assert(ident::spec_contains_string(ids@, id@));
            }
        }
        let agent = Agent::with_id(
            id.clone(),
            name,
            self.id.clone(),
            self.session_id.clone(),
            model,
            now,
        );
        self.agents.push(agent);
        id
    }

    /// Where the agent with identifier `agent_id` sits in this window.
    pub fn agent_index(&self, agent_id: &str) -> (r: Option<usize>)
        ensures
            match r {
                Some(k) => k < self.agents@.len() && self.agents@[k as int].id@ == agent_id@,
                None => !spec_has_agent_id(self.agents@, agent_id@),
            },
    {
        let mut i: usize = 0;
        while i < self.agents.len()
            invariant
                i <= self.agents@.len(),
                forall|j: int| 0 <= j < i ==> self.agents@[j].id@ != agent_id@,
            decreases self.agents@.len() - i,
        {
            if str_eq(self.agents[i].id.as_str(), agent_id) {
                return Some(i);
            }
            i += 1;
        }
        None
    }
}

/// The measure that sums an agent's token count.
pub open spec fn agent_tokens_fn() -> spec_fn(Agent) -> int {
    |a: Agent| a.tokens_used as int
}

/// The measure that sums an agent's estimated cost.
pub open spec fn agent_cost_fn() -> spec_fn(Agent) -> int {
    |a: Agent| a.estimated_cost as int
}

/// The tokens used by all agents of a window.
pub open spec fn spec_window_tokens(w: Window) -> int {
    crate::seqsum::sum_by(w.agents@, agent_tokens_fn())
}

/// The estimated cost of all agents of a window, in nanodollars.
pub open spec fn spec_window_cost(w: Window) -> int {
    crate::seqsum::sum_by(w.agents@, agent_cost_fn())
}

/// The measure that sums a window's token total.
pub open spec fn window_tokens_fn() -> spec_fn(Window) -> int {
    |w: Window| spec_window_tokens(w)
}

/// The measure that sums a window's cost total.
pub open spec fn window_cost_fn() -> spec_fn(Window) -> int {
    |w: Window| spec_window_cost(w)
}

/// The measure that counts a window's agents.
pub open spec fn window_count_fn() -> spec_fn(Window) -> int {
    |w: Window| w.agents@.len() as int
}

/// A top-level named container of windows.
#[derive(Debug, Clone, PartialEq)]
pub struct BunshinSession {
    pub id: String,
    pub name: String,
    pub windows: Vec<Window>,
    pub created_at: i64,
    pub last_accessed: i64,
    pub is_active: bool,
}

impl BunshinSession {
    /// A freshly allocated session with no windows.
    pub fn new(name: String, now: i64) -> (s: BunshinSession)
        ensures
            s.id@.len() == 10,
            s.id@.subrange(0, 2) == "s-"@,
            s.name == name,
            s.windows@ == Seq::<Window>::empty(),
            s.created_at == now,
            s.last_accessed == now,
            !s.is_active,
    {
        let id = ident::gen_id("s-", 8);
        proof {
            reveal_strlit("s-");
        }
        let s = BunshinSession {
            id,
            name,
            windows: Vec::new(),
            created_at: now,
            last_accessed: now,
            is_active: false,
        };
        proof {
            assert(s.windows@ =~= Seq::<Window>::empty());
        }
        s
    }

    /// The identifiers of all windows of this session, in order.
    pub(crate) fn window_ids(&self) -> (ids: Vec<String>)
        ensures
            ids@.len() == self.windows@.len(),
            forall|j: int| 0 <= j < ids@.len() ==> (#[trigger] ids@[j])@ == self.windows@[j].id@,
    {
        let mut ids: Vec<String> = Vec::new();
        let mut i: usize = 0;
        while i < self.windows.len()
            invariant
                i <= self.windows@.len(),
                ids@.len() == i,
                forall|j: int| 0 <= j < i ==> (#[trigger] ids@[j])@ == self.windows@[j].id@,
            decreases self.windows@.len() - i,
        {
            ids.push(self.windows[i].id.clone());
            i += 1;
        }
        ids
    }

    /// Add a freshly allocated, empty window; its identifier is new within
    /// this session and is returned.
    pub fn add_window(&mut self, name: String, now: i64) -> (id: String)
        ensures
            !spec_has_window_id(old(self).windows@, id@),
            id@.len() >= 10,
            id@.subrange(0, 2) == "w-"@,
            final(self).windows@.len() == old(self).windows@.len() + 1,
            final(self).windows@ == old(self).windows@.push(final(self).windows@.last()),
            final(self).windows@.last().id == id,
            final(self).windows@.last().name == name,
            final(self).windows@.last().session_id == old(self).id,
            final(self).windows@.last().agents@ == Seq::<Agent>::empty(),
            final(self).windows@.last().project is None,
            final(self).windows@.last().labels@ == Seq::<String>::empty(),
            final(self).windows@.last().worktree_path is None,
            final(self).windows@.last().branch is None,
            final(self).windows@.last().created_at == now,
            *final(self) == (BunshinSession { windows: final(self).windows, ..*old(self) }),
    {
        let ids = self.window_ids();
        let id = ident::fresh_id("w-", 8, &ids);
        proof {
            reveal_strlit("w-");
            if spec_has_window_id(self.windows@, id@) {
                let j = choose|j: int|
                    0 <= j < self.windows@.len() && self.windows@[j].id@ == id@;
                assert(ids@[j]@ == id@);
                assert(ident::spec_contains_string(ids@, id@));
            }
        }
        let mut window = Window::new(name, self.id.clone(), now);
        window.id = id.clone();
        self.windows.push(window);
        id
    }

    /// Where the window with identifier `window_id` sits in this session.
    pub fn window_index(&self, window_id: &str) -> (r: Option<usize>)
        ensures
            match r {
                Some(k) => k < self.windows@.len() && self.windows@[k as int].id@ == window_id@,
                None => !spec_has_window_id(self.windows@, window_id@),
            },
    {
        let mut i: usize = 0;
        while i < self.windows.len()
            invariant
                i <= self.windows@.len(),
                forall|j: int| 0 <= j < i ==> self.windows@[j].id@ != window_id@,
            decreases self.windows@.len() - i,
        {
            if str_eq(self.windows[i].id.as_str(), window_id) {
                return Some(i);
            }
            i += 1;
        }
        None
    }

    /// How many agents all windows of this session hold together.
    pub open spec fn spec_total_agents(&self) -> int {
        crate::seqsum::sum_by(self.windows@, window_count_fn())
    }

    /// The tokens used by all agents of this session.
    pub open spec fn spec_total_tokens(&self) -> int {
        crate::seqsum::sum_by(self.windows@, window_tokens_fn())
    }

    /// The estimated cost of all agents of this session, in nanodollars.
    pub open spec fn spec_total_cost(&self) -> int {
        crate::seqsum::sum_by(self.windows@, window_cost_fn())
    }

    /// How many agents all windows of this session hold together.
    pub fn total_agents(&self) -> (t: usize)
        requires
            self.spec_total_agents() <= usize::MAX,
        ensures
            t == self.spec_total_agents(),
    {
        proof {
            lemma_window_measure_nonneg(self.windows@, window_count_fn());
        }
        let mut total: usize = 0;
        let mut i: usize = 0;
        while i < self.windows.len()
            invariant
                i <= self.windows@.len(),
                total == crate::seqsum::sum_by(self.windows@.take(i as int), window_count_fn()),
                self.spec_total_agents() <= usize::MAX,
                forall|j: int|
                    0 <= j < self.windows@.len() ==> window_count_fn()(
                        #[trigger] self.windows@[j],
                    ) >= 0,
            decreases self.windows@.len() - i,
        {
            proof {
                crate::seqsum::lemma_sum_by_take_step(self.windows@, window_count_fn(), i as int);
                crate::seqsum::lemma_sum_by_prefix_bound(
                    self.windows@,
                    window_count_fn(),
                    i as int + 1,
                );
            }
            total = total + self.windows[i].agents.len();
            i += 1;
        }
        proof {
            crate::seqsum::lemma_sum_by_take_all(self.windows@, window_count_fn());
        }
        total
    }

    /// The tokens used by all agents of this session.
    pub fn total_tokens(&self) -> (t: u64)
        requires
            self.spec_total_tokens() <= u64::MAX,
        ensures
            t == self.spec_total_tokens(),
    {
        proof {
            lemma_window_measure_nonneg(self.windows@, window_tokens_fn());
        }
        let mut total: u64 = 0;
        let mut i: usize = 0;
        while i < self.windows.len()
            invariant
                i <= self.windows@.len(),
                total == crate::seqsum::sum_by(self.windows@.take(i as int), window_tokens_fn()),
                self.spec_total_tokens() <= u64::MAX,
                forall|j: int|
                    0 <= j < self.windows@.len() ==> window_tokens_fn()(
                        #[trigger] self.windows@[j],
                    ) >= 0,
            decreases self.windows@.len() - i,
        {
            proof {
                crate::seqsum::lemma_sum_by_take_step(self.windows@, window_tokens_fn(), i as int);
                crate::seqsum::lemma_sum_by_prefix_bound(
                    self.windows@,
                    window_tokens_fn(),
                    i as int + 1,
                );
            }
            let wt = window_tokens(&self.windows[i]);
            total = total + wt;
            i += 1;
        }
        proof {
            crate::seqsum::lemma_sum_by_take_all(self.windows@, window_tokens_fn());
        }
        total
    }

    /// The estimated cost of all agents of this session, in nanodollars.
    pub fn total_cost(&self) -> (t: u64)
        requires
            self.spec_total_cost() <= u64::MAX,
        ensures
            t == self.spec_total_cost(),
    {
        proof {
            lemma_window_measure_nonneg(self.windows@, window_cost_fn());
        }
        let mut total: u64 = 0;
        let mut i: usize = 0;
        while i < self.windows.len()
            invariant
                i <= self.windows@.len(),
                total == crate::seqsum::sum_by(self.windows@.take(i as int), window_cost_fn()),
                self.spec_total_cost() <= u64::MAX,
                forall|j: int|
                    0 <= j < self.windows@.len() ==> window_cost_fn()(
                        #[trigger] self.windows@[j],
                    ) >= 0,
            decreases self.windows@.len() - i,
        {
            proof {
                crate::seqsum::lemma_sum_by_take_step(self.windows@, window_cost_fn(), i as int);
                crate::seqsum::lemma_sum_by_prefix_bound(
                    self.windows@,
                    window_cost_fn(),
                    i as int + 1,
                );
            }
            let wc = window_cost(&self.windows[i]);
            total = total + wc;
            i += 1;
        }
        proof {
            crate::seqsum::lemma_sum_by_take_all(self.windows@, window_cost_fn());
        }
        total
    }
}

/// Each of the window measures used here is non-negative.
proof fn lemma_window_measure_nonneg(ws: Seq<Window>, f: spec_fn(Window) -> int)
    requires
        f == window_count_fn() || f == window_tokens_fn() || f == window_cost_fn(),
    ensures
        forall|j: int| 0 <= j < ws.len() ==> f(#[trigger] ws[j]) >= 0,
{
    assert forall|j: int| 0 <= j < ws.len() implies f(#[trigger] ws[j]) >= 0 by {
        if f == window_tokens_fn() {
            crate::seqsum::lemma_sum_by_nonneg(ws[j].agents@, agent_tokens_fn());
        } else if f == window_cost_fn() {
            crate::seqsum::lemma_sum_by_nonneg(ws[j].agents@, agent_cost_fn());
        }
    }
}

/// The tokens used by all agents of one window.
fn window_tokens(w: &Window) -> (t: u64)
    requires
        spec_window_tokens(*w) <= u64::MAX,
    ensures
        t == spec_window_tokens(*w),
{
    let mut total: u64 = 0;
    let mut j: usize = 0;
    while j < w.agents.len()
        invariant
            j <= w.agents@.len(),
            total == crate::seqsum::sum_by(w.agents@.take(j as int), agent_tokens_fn()),
            spec_window_tokens(*w) <= u64::MAX,
        decreases w.agents@.len() - j,
    {
        proof {
            crate::seqsum::lemma_sum_by_take_step(w.agents@, agent_tokens_fn(), j as int);
            crate::seqsum::lemma_sum_by_prefix_bound(w.agents@, agent_tokens_fn(), j as int + 1);
        }
        total = total + w.agents[j].tokens_used;
        j += 1;
    }
    proof {
        crate::seqsum::lemma_sum_by_take_all(w.agents@, agent_tokens_fn());
    }
    total
}

/// The estimated cost of all agents of one window, in nanodollars.
fn window_cost(w: &Window) -> (t: u64)
    requires
        spec_window_cost(*w) <= u64::MAX,
    ensures
        t == spec_window_cost(*w),
{
    let mut total: u64 = 0;
    let mut j: usize = 0;
    while j < w.agents.len()
        invariant
            j <= w.agents@.len(),
            total == crate::seqsum::sum_by(w.agents@.take(j as int), agent_cost_fn()),
            spec_window_cost(*w) <= u64::MAX,
        decreases w.agents@.len() - j,
    {
        proof {
            crate::seqsum::lemma_sum_by_take_step(w.agents@, agent_cost_fn(), j as int);
            crate::seqsum::lemma_sum_by_prefix_bound(w.agents@, agent_cost_fn(), j as int + 1);
        }
        total = total + w.agents[j].estimated_cost;
        j += 1;
    }
    proof {
        crate::seqsum::lemma_sum_by_take_all(w.agents@, agent_cost_fn());
    }
    total
}

/// A named, independent grouping entity referenced by name from windows and
/// agents.
#[derive(Debug, Clone, PartialEq)]
pub struct Project {
    pub name: String,
    pub description: Option<String>,
    pub repository: Option<String>,
    pub labels: Vec<String>,
    pub created_at: i64,
}

impl Project {
    /// A freshly described project.
    pub fn new(
        name: String,
        description: Option<String>,
        repository: Option<String>,
        labels: Vec<String>,
        now: i64,
    ) -> (p: Project)
        ensures
            p == (Project { name, description, repository, labels, created_at: now }),
    {
        Project { name, description, repository, labels, created_at: now }
    }
}

} // verus!
