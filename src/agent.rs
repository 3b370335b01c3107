//! Role-specialised chat agents, keyed by id.

use vstd::prelude::*;

verus! {

/// A chat agent: the model it runs on and what it is for.
#[derive(Clone, Debug)]
pub struct Agent {
    pub id: String,
    pub name: String,
    pub role: String,
    pub description: String,
    pub capabilities: Vec<String>,
    pub model: String,
}

/// A one-off request to an agent.
#[derive(Debug)]
pub struct Task {
    pub id: String,
    pub agent_id: String,
    pub prompt: String,
    pub status: TaskStatus,
    pub result: Option<String>,
}

#[derive(Clone, Copy, Debug, PartialEq, Eq, Structural)]
pub enum TaskStatus {
    Pending,
    Running,
    Completed,
    Failed,
}

/// Some agent has this id.
pub open spec fn has_agent(s: Seq<Agent>, id: Seq<char>) -> bool {
    exists|i: int| 0 <= i < s.len() && #[trigger] s[i].id@ == id
}

/// Ids are pairwise distinct.
pub open spec fn agent_ids_unique(s: Seq<Agent>) -> bool {
    forall|i: int, j: int|
        0 <= i < s.len() && 0 <= j < s.len() && i != j ==> #[trigger] s[i].id@ != #[trigger] s[j].id@
}

/// `a` stands in `list` at or after `from`, and no later element has its id.
pub open spec fn last_of_id_from(list: Seq<Agent>, from: int, a: Agent) -> bool {
    exists|j: int|
        from <= j < list.len() && list[j] == a && forall|k: int|
            j < k < list.len() ==> list[k].id@ != list[j].id@
}

/// The agents, one per id.
pub struct AgentManager {
    agents: Vec<Agent>,
}

impl Agent {
    fn make(
        id: &str,
        name: &str,
        description: &str,
        capabilities: Vec<String>,
        model: &str,
    ) -> (r: Agent)
        ensures
            r.id@ == id@,
            r.role@ == id@,
            r.name@ == name@,
            r.description@ == description@,
            r.capabilities == capabilities,
            r.model@ == model@,
    {
        Agent {
            id: id.to_owned(),
            name: name.to_owned(),
            role: id.to_owned(),
            description: description.to_owned(),
            capabilities,
            model: model.to_owned(),
        }
    }
}

impl AgentManager {
    /// The agents, in no meaningful order.
    pub closed spec fn agent_list(&self) -> Seq<Agent> {
        self.agents@
    }

    pub open spec fn wf(&self) -> bool {
        agent_ids_unique(self.agent_list())
    }

    /// The built-in agents: a general assistant, a code assistant and a data
    /// analyst.
    pub fn new() -> (r: AgentManager)
        ensures
            r.wf(),
            r.agent_list().len() == 3,
            r.agent_list()[0].id@ == "general"@,
            r.agent_list()[1].id@ == "coder"@,
            r.agent_list()[2].id@ == "analyst"@,
            r.agent_list()[0].model@ == "llama3.2"@,
            r.agent_list()[1].model@ == "codellama"@,
            r.agent_list()[2].model@ == "llama3.2"@,
    {
        let general = Agent::make(
            "general",
            "General Assistant",
            "General purpose AI assistant for various tasks",
            vec!["conversation".to_owned(), "reasoning".to_owned(), "analysis".to_owned()],
            "llama3.2",
        );
        let coder = Agent::make(
            "coder",
            "Code Assistant",
            "Specialized in programming, code review, and debugging",
            vec![
                "code_generation".to_owned(),
                "code_review".to_owned(),
                "debugging".to_owned(),
                "refactoring".to_owned(),
            ],
            "codellama",
        );
        let analyst = Agent::make(
            "analyst",
            "Data Analyst",
            "Analyzes data, files, and provides insights",
            vec![
                "file_analysis".to_owned(),
                "data_processing".to_owned(),
                "visualization".to_owned(),
            ],
            "llama3.2",
        );
        proof {
            reveal_strlit("general");
            reveal_strlit("coder");
            reveal_strlit("analyst");
        }
        assert(general.id@[0] == 'g' && coder.id@[0] == 'c' && analyst.id@[0] == 'a');
        let r = AgentManager { agents: vec![general, coder, analyst] };
        assert(r.agents@[0].id@ != r.agents@[1].id@);
        assert(r.agents@[0].id@ != r.agents@[2].id@);
        assert(r.agents@[1].id@ != r.agents@[2].id@);
        r
    }

    /// A manager holding the agents of `list`; where several share an id, the
    /// last of them is kept.
    pub fn from_agents(list: Vec<Agent>) -> (r: AgentManager)
        ensures
            r.wf(),
            forall|j: int| 0 <= j < list@.len() ==> has_agent(r.agent_list(), #[trigger] list@[j].id@),
            forall|i: int|
                0 <= i < r.agent_list().len() ==> last_of_id_from(list@, 0, #[trigger] r.agent_list()[i]),
    {
        let ghost all = list@;
        let n = list.len();
        let mut rest = list;
        let mut m = AgentManager { agents: Vec::new() };
        while rest.len() > 0
            invariant
                n == all.len(),
                rest.len() <= n,
                rest@ == all.subrange(0, rest.len() as int),
                m.wf(),
                forall|j: int| rest.len() <= j < n ==> has_agent(m.agent_list(), #[trigger] all[j].id@),
                forall|i: int|
                    0 <= i < m.agent_list().len() ==> last_of_id_from(
                        all,
                        rest.len() as int,
                        #[trigger] m.agent_list()[i],
                    ),
            decreases rest.len(),
        {
            let ghost at = rest.len() - 1;
            let a = rest.pop().unwrap();
            assert(a == all[at]);
            assert(rest@ =~= all.subrange(0, rest.len() as int));
            if m.position(a.id.as_str()).is_none() {
                let ghost before = m.agents@;
                m.agents.push(a);
                proof {
                    assert forall|x: int, y: int|
                        0 <= x < m.agents@.len() && 0 <= y < m.agents@.len() && x != y implies #[trigger] m.agents@[x].id@
                            != #[trigger] m.agents@[y].id@ by {
                        if x < before.len() && y < before.len() {
                            assert(m.agents@[x] == before[x]);
                            assert(m.agents@[y] == before[y]);
                        } else if x < before.len() {
                            assert(m.agents@[x] == before[x]);
                        } else if y < before.len() {
                            assert(m.agents@[y] == before[y]);
                        }
                    }
                    assert forall|j: int| rest.len() <= j < n implies has_agent(
                        m.agent_list(),
                        #[trigger] all[j].id@,
                    ) by {
                        if j > at {
                            let w = choose|w: int| 0 <= w < before.len() && #[trigger] before[w].id@ == all[j].id@;
                            assert(m.agents@[w] == before[w]);
                        } else {
                            assert(m.agents@[before.len() as int] == a);
                        }
                    }
                    assert forall|i: int| 0 <= i < m.agent_list().len() implies last_of_id_from(
                        all,
                        rest.len() as int,
                        #[trigger] m.agent_list()[i],
                    ) by {
                        if i < before.len() {
                            assert(m.agents@[i] == before[i]);
                            assert(last_of_id_from(all, at + 1, before[i]));
                            let j = choose|j: int|
                                at < j < all.len() && all[j] == before[i] && forall|k: int|
                                    j < k < all.len() ==> all[k].id@ != all[j].id@;
                            assert(rest.len() <= j < n && all[j] == m.agent_list()[i]);
                        } else {
                            assert(m.agents@[i] == all[at]);
                            assert forall|k: int| at < k < n implies all[k].id@ != all[at].id@ by {
                                assert(has_agent(before, all[k].id@));
                            }
                            assert(all[at] == m.agent_list()[i]);
                        }
                    }
                }
            }
        }
        assert forall|i: int| 0 <= i < m.agent_list().len() implies last_of_id_from(
            list@,
            0,
            #[trigger] m.agent_list()[i],
        ) by {
            assert(last_of_id_from(all, rest.len() as int, m.agent_list()[i]));
        }
        m
    }

    /// The position of the agent with this id.
    fn position(&self, id: &str) -> (r: Option<usize>)
        ensures
            match r {
                Some(i) => i < self.agent_list().len() && self.agent_list()[i as int].id@ == id@,
                None => !has_agent(self.agent_list(), id@),
            },
    {
        let key = id.to_owned();
        let mut i: usize = 0;
        while i < self.agents.len()
            invariant
                0 <= i <= self.agents.len(),
                key@ == id@,
                forall|k: int| 0 <= k < i ==> self.agents@[k].id@ != id@,
            decreases self.agents.len() - i,
        {
            if self.agents[i].id == key {
                return Some(i);
            }
            i = i + 1;
        }
        None
    }

    /// The agent with this id, if any.
    pub fn get_agent(&self, id: &str) -> (r: Option<&Agent>)
        ensures
            r is None <==> !has_agent(self.agent_list(), id@),
            r matches Some(a) ==> a.id@ == id@ && exists|i: int|
                0 <= i < self.agent_list().len() && #[trigger] self.agent_list()[i] == *a,
    {
        match self.position(id) {
            Some(i) => Some(&self.agents[i]),
            None => None,
        }
    }

    /// The model for a chat with the agent `agent_id`: the override when one
    /// is given, else the agent's own model; nothing when neither is known.
    pub fn chat_model(&self, agent_id: &str, model_override: Option<String>) -> (r: Option<String>)
        ensures
            model_override is Some ==> r == model_override,
            model_override is None ==> (r is None <==> !has_agent(self.agent_list(), agent_id@)),
            model_override is None && r is Some ==> exists|i: int|
                0 <= i < self.agent_list().len() && #[trigger] self.agent_list()[i].id@ == agent_id@
                    && r == Some(self.agent_list()[i].model),
    {
        match model_override {
            Some(m) => Some(m),
            None => match self.position(agent_id) {
                Some(i) => Some(self.agents[i].model.clone()),
                None => None,
            },
        }
    }

    /// All agents.
    pub fn list_agents(&self) -> (r: Vec<&Agent>)
        ensures
            r@.len() == self.agent_list().len(),
            forall|i: int| 0 <= i < r@.len() ==> *#[trigger] r@[i] == self.agent_list()[i],
    {
        let mut out: Vec<&Agent> = Vec::new();
        let mut i: usize = 0;
        while i < self.agents.len()
            invariant
                0 <= i <= self.agents.len(),
                out@.len() == i,
                forall|k: int| 0 <= k < i ==> *#[trigger] out@[k] == self.agents@[k],
            decreases self.agents.len() - i,
        {
            out.push(&self.agents[i]);
            i = i + 1;
        }
        out
    }

    /// Stores `agent`, in place of the one with the same id if there is one.
    pub fn add_agent(&mut self, agent: Agent)
        requires
            old(self).wf(),
        ensures
            final(self).wf(),
            has_agent(old(self).agent_list(), agent.id@) ==> exists|i: int|
                0 <= i < old(self).agent_list().len() && #[trigger] old(self).agent_list()[i].id@
                    == agent.id@ && final(self).agent_list() == old(self).agent_list().update(i, agent),
            !has_agent(old(self).agent_list(), agent.id@) ==> final(self).agent_list() == old(
                self,
            ).agent_list().push(agent),
    {
        match self.position(agent.id.as_str()) {
            Some(i) => {
                let ghost before = self.agents@;
                self.agents.set(i, agent);
                assert forall|a: int, b: int|
                    0 <= a < self.agents@.len() && 0 <= b < self.agents@.len() && a != b implies #[trigger] self.agents@[a].id@
                        != #[trigger] self.agents@[b].id@ by {
                    assert(self.agents@[a].id@ == before[a].id@);
                    assert(self.agents@[b].id@ == before[b].id@);
                }
            },
            None => {
                let ghost before = self.agents@;
                self.agents.push(agent);
                assert forall|a: int, b: int|
                    0 <= a < self.agents@.len() && 0 <= b < self.agents@.len() && a != b implies #[trigger] self.agents@[a].id@
                        != #[trigger] self.agents@[b].id@ by {
                    if a < before.len() && b < before.len() {
                        assert(self.agents@[a] == before[a]);
                        assert(self.agents@[b] == before[b]);
                    }
                }
            },
        }
    }

    /// Removes the agent with this id; says whether there was one.
    pub fn remove_agent(&mut self, id: &str) -> (r: bool)
        requires
            old(self).wf(),
        ensures
            final(self).wf(),
            r == has_agent(old(self).agent_list(), id@),
            !r ==> final(self).agent_list() == old(self).agent_list(),
            r ==> exists|i: int|
                0 <= i < old(self).agent_list().len() && #[trigger] old(self).agent_list()[i].id@
                    == id@ && final(self).agent_list() == old(self).agent_list().remove(i),
    {
        match self.position(id) {
            Some(i) => {
                let ghost before = self.agents@;
                self.agents.remove(i);
                assert forall|a: int, b: int|
                    0 <= a < self.agents@.len() && 0 <= b < self.agents@.len() && a != b implies #[trigger] self.agents@[a].id@
                        != #[trigger] self.agents@[b].id@ by {
                    let a0 = if a < i { a } else { a + 1 };
                    let b0 = if b < i { b } else { b + 1 };
                    assert(self.agents@[a] == before[a0]);
                    assert(self.agents@[b] == before[b0]);
                }
                true
            },
            None => false,
        }
    }

    /// Replaces the agent with the same id as `agent`; says whether there was
    /// one. Nothing changes when there was none.
    pub fn update_agent(&mut self, agent: Agent) -> (r: bool)
        requires
            old(self).wf(),
        ensures
            final(self).wf(),
            r == has_agent(old(self).agent_list(), agent.id@),
            !r ==> final(self).agent_list() == old(self).agent_list(),
            r ==> exists|i: int|
                0 <= i < old(self).agent_list().len() && #[trigger] old(self).agent_list()[i].id@
                    == agent.id@ && final(self).agent_list() == old(self).agent_list().update(i, agent),
    {
        if self.position(agent.id.as_str()).is_some() {
            self.add_agent(agent);
            true
        } else {
            false
        }
    }
}

} // verus!
