//! The stateful agent session: the conversation, the registered models, tools and
//! skills, and what a run builds from them.

use crate::cache::{CacheStrategy, CacheStrategyView};
use crate::collections;
use crate::collections::{new_slots, set_slot, slot_for};
use crate::error::AgentError;
use crate::json::{Json, JsonView, Members};
use crate::loop_event::{ToolOutcome, ToolOutcomeView};
use crate::message::{Message, MessageView, SystemPrompt, SystemPromptView};
use crate::provider::{
    ChatRequest, ChatRequestView, ThinkingConfig, ToolChoice, ToolChoiceView, ToolDef, ToolDefView,
};
use crate::retry;
use crate::retry::RetryPolicy;
use crate::skill::{Skill, SkillContent, SkillContentView, SkillView};
use crate::step::{ToolPlan, ToolPlanView};
use crate::text;
use crate::text::{contains_text, to_lowercase};
use crate::usage::Usage;
use crate::views;
use std::time::Duration;
use vstd::prelude::*;

verus! {

/// Name of the built-in tool that loads a skill.
pub const LOAD_SKILL: &'static str = "load_skill";

/// Name of the built-in tool that searches the skills.
pub const SEARCH_SKILLS: &'static str = "search_skills";

/// A stateful agent session.
///
/// Models, tools and middleware are known to it by their names and positions;
/// the host keeps what stands behind them.
pub struct Agent {
    providers: indexmap::IndexMap<String, usize>,
    current_model: String,
    tools: Vec<ToolDef>,
    skills: Vec<Skill>,
    skills_listed: bool,
    has_loader: bool,
    middleware: usize,
    system: Option<String>,
    messages: Vec<Message>,
    cache: CacheStrategy,
    retry: RetryPolicy,
    usage: Usage,
    max_tokens: u32,
}

/// What an [`Agent`] stands for.
#[verifier::ext_equal]
pub struct AgentView {
    /// Registered models, each with the position of its provider.
    pub providers: Seq<(Seq<char>, usize)>,
    /// The active model.
    pub model: Seq<char>,
    /// Tool definitions, in registration order.
    pub tools: Seq<ToolDefView>,
    /// The listed skills.
    pub skills: Seq<SkillView>,
    /// Whether the skills were listed.
    pub skills_listed: bool,
    /// Whether a skill loader is set.
    pub has_loader: bool,
    /// How many middlewares are registered.
    pub middleware: usize,
    /// The base system prompt.
    pub system: Option<Seq<char>>,
    /// The conversation.
    pub messages: Seq<MessageView>,
    /// The prompt-cache strategy.
    pub cache: CacheStrategyView,
    /// The retry policy.
    pub retry: RetryPolicy,
    /// Accumulated usage.
    pub usage: Usage,
    /// Token limit per step.
    pub max_tokens: u32,
}

impl View for Agent {
    type V = AgentView;

    closed spec fn view(&self) -> AgentView {
        AgentView {
            providers: collections::slots_of(self.providers),
            model: self.current_model@,
            tools: views::each(self.tools@),
            skills: views::each(self.skills@),
            skills_listed: self.skills_listed,
            has_loader: self.has_loader,
            middleware: self.middleware,
            system: views::optional(self.system),
            messages: views::each(self.messages@),
            cache: self.cache@,
            retry: self.retry,
            usage: self.usage,
            max_tokens: self.max_tokens,
        }
    }
}

impl Agent {
    /// A new agent with nothing registered and an empty conversation.
    pub fn new() -> (agent: Agent)
        ensures
            agent@ == (AgentView {
                providers: Seq::empty(),
                model: Seq::empty(),
                tools: Seq::empty(),
                skills: Seq::empty(),
                skills_listed: false,
                has_loader: false,
                middleware: 0,
                system: None,
                messages: Seq::empty(),
                cache: CacheStrategyView::Auto,
                retry: agent@.retry,
                usage: Usage::nothing(),
                max_tokens: 4096,
            }),
            agent@.retry.max_retries == 2,
            retry::nanos(agent@.retry.timeout) == 60_000_000_000,
            retry::nanos(agent@.retry.base_backoff) == 250_000_000,
            retry::nanos(agent@.retry.max_backoff) == 30_000_000_000,
    {
        let agent = Agent {
            providers: new_slots(),
            current_model: String::new(),
            tools: Vec::new(),
            skills: Vec::new(),
            skills_listed: false,
            has_loader: false,
            middleware: 0,
            system: None,
            messages: Vec::new(),
            cache: CacheStrategy::Auto,
            retry: RetryPolicy::default(),
            usage: Usage::zero(),
            max_tokens: 4096,
        };
        proof {
            assert(agent@.providers =~= Seq::empty());
            assert(agent@.model =~= Seq::empty());
            assert(agent@.tools =~= Seq::empty());
            assert(agent@.skills =~= Seq::empty());
            assert(agent@.messages =~= Seq::empty());
        }
        agent
    }

    /// Registers the provider at `slot` for its model, and makes that the
    /// active model if none is set yet.
    #[must_use]
    pub fn provider(self, model: String, slot: usize) -> (agent: Agent)
        ensures
            agent@ == (AgentView {
                providers: collections::with_entry(self@.providers, model@, slot),
                model: if self@.model.len() == 0 {
                    model@
                } else {
                    self@.model
                },
                ..self@
            }),
    {
        let mut agent = self;
        if agent.current_model.as_str().is_empty() {
            agent.current_model = model.clone();
        }
        set_slot(&mut agent.providers, model, slot);
        agent
    }

    /// Registers one more provider for its model.
    #[must_use]
    pub fn register_provider(self, model: String, slot: usize) -> (agent: Agent)
        ensures
            agent@ == (AgentView {
                providers: collections::with_entry(self@.providers, model@, slot),
                ..self@
            }),
    {
        let mut agent = self;
        set_slot(&mut agent.providers, model, slot);
        agent
    }

    /// Sets the active model id.
    #[must_use]
    pub fn model(self, model: String) -> (agent: Agent)
        ensures
            agent@ == (AgentView { model: model@, ..self@ }),
    {
        let mut agent = self;
        agent.current_model = model;
        agent
    }

    /// Sets the base system prompt.
    #[must_use]
    pub fn system(self, system: String) -> (agent: Agent)
        ensures
            agent@ == (AgentView { system: Some(system@), ..self@ }),
    {
        let mut agent = self;
        agent.system = Some(system);
        agent
    }

    /// Registers a tool by its definition.
    #[must_use]
    pub fn register_tool(self, def: ToolDef) -> (agent: Agent)
        ensures
            agent@ == (AgentView { tools: self@.tools.push(def@), ..self@ }),
    {
        let mut agent = self;
        agent.tools.push(def);
        assert(agent@.tools =~= self@.tools.push(def@));
        agent
    }

    /// Registers many tools by their definitions.
    #[must_use]
    pub fn register_tools(self, defs: Vec<ToolDef>) -> (agent: Agent)
        ensures
            agent@ == (AgentView { tools: self@.tools + views::each(defs@), ..self@ }),
    {
        let mut agent = self;
        let mut defs = defs;
        let ghost added = defs@;
        agent.tools.append(&mut defs);
        assert(agent@.tools =~= self@.tools + views::each(added));
        agent
    }

    /// Registers a middleware; they run in registration order.
    #[must_use]
    pub fn register_middleware(self) -> (agent: Agent)
        requires
            self@.middleware < usize::MAX,
        ensures
            agent@ == (AgentView { middleware: (self@.middleware + 1) as usize, ..self@ }),
    {
        let mut agent = self;
        agent.middleware = agent.middleware + 1;
        agent
    }

    /// Tells the agent that there is a skill loader.
    #[must_use]
    pub fn skills(self) -> (agent: Agent)
        ensures
            agent@ == (AgentView { has_loader: true, ..self@ }),
    {
        let mut agent = self;
        agent.has_loader = true;
        agent
    }

    /// Seeds the conversation.
    #[must_use]
    pub fn with_context(self, messages: Vec<Message>) -> (agent: Agent)
        ensures
            agent@ == (AgentView { messages: views::each(messages@), ..self@ }),
    {
        let mut agent = self;
        agent.messages = messages;
        agent
    }

    /// Sets the prompt-cache strategy.
    #[must_use]
    pub fn cache(self, cache: CacheStrategy) -> (agent: Agent)
        ensures
            agent@ == (AgentView { cache: cache@, ..self@ }),
    {
        let mut agent = self;
        agent.cache = cache;
        agent
    }

    /// Sets the retries after the first try.
    #[must_use]
    pub fn with_retries(self, n: u32) -> (agent: Agent)
        ensures
            agent@ == (AgentView {
                retry: RetryPolicy { max_retries: n, ..self@.retry },
                ..self@
            }),
    {
        let mut agent = self;
        agent.retry.max_retries = n;
        agent
    }

    /// Sets the per-attempt timeout.
    #[must_use]
    pub fn with_timeout(self, d: Duration) -> (agent: Agent)
        ensures
            agent@ == (AgentView { retry: RetryPolicy { timeout: d, ..self@.retry }, ..self@ }),
    {
        let mut agent = self;
        agent.retry.timeout = d;
        agent
    }

    /// Sets the token limit per step.
    #[must_use]
    pub fn max_tokens(self, max_tokens: u32) -> (agent: Agent)
        ensures
            agent@ == (AgentView { max_tokens, ..self@ }),
    {
        let mut agent = self;
        agent.max_tokens = max_tokens;
        agent
    }

    /// Appends a message to the conversation.
    pub fn push(&mut self, message: Message)
        ensures
            final(self)@ == (AgentView {
                messages: old(self)@.messages.push(message@),
                ..old(self)@
            }),
    {
        let ghost before = self.messages@;
        self.messages.push(message);
        assert(views::each(self.messages@) =~= views::each(before).push(message@));
    }

    /// The active model id.
    #[must_use]
    pub fn current_model(&self) -> (model: &str)
        ensures
            model@ == self@.model,
    {
        self.current_model.as_str()
    }

    /// The conversation so far.
    #[must_use]
    pub fn messages(&self) -> (messages: &Vec<Message>)
        ensures
            views::each(messages@) == self@.messages,
    {
        &self.messages
    }

    /// Accumulated token usage across runs.
    #[must_use]
    pub fn usage(&self) -> (usage: &Usage)
        ensures
            *usage == self@.usage,
    {
        &self.usage
    }

    /// The retry policy.
    pub fn retry_policy(&self) -> (policy: RetryPolicy)
        ensures
            policy == self@.retry,
    {
        self.retry
    }

    /// Whether a provider is registered for `model`.
    #[must_use]
    pub fn has_provider(&self, model: &str) -> (found: bool)
        ensures
            found == (collections::lookup(self@.providers, model@) is Some),
    {
        slot_for(&self.providers, model).is_some()
    }

    /// The position of the provider of the active model.
    pub fn active_provider(&self) -> (slot: Option<usize>)
        ensures
            slot == collections::lookup(self@.providers, self@.model),
    {
        slot_for(&self.providers, self.current_model.as_str())
    }

    /// What a middleware may change: the conversation, the active model and the
    /// system prompt.
    pub fn parts_mut(
        &mut self,
    ) -> (parts: (&mut Vec<Message>, &mut String, &mut Option<String>))
        ensures
            views::each(parts.0@) == old(self)@.messages,
            parts.1@ == old(self)@.model,
            views::optional(*parts.2) == old(self)@.system,
            final(self)@ == (AgentView {
                messages: views::each(final(parts.0)@),
                model: final(parts.1)@,
                system: views::optional(*final(parts.2)),
                ..old(self)@
            }),
    {
        (&mut self.messages, &mut self.current_model, &mut self.system)
    }

    /// Keeps the listed skills.
    pub(crate) fn set_skills(&mut self, skills: Vec<Skill>)
        ensures
            final(self)@ == (AgentView {
                skills: views::each(skills@),
                skills_listed: true,
                ..old(self)@
            }),
    {
        self.skills = skills;
        self.skills_listed = true;
    }

    /// Adds the usage of a step.
    pub(crate) fn add_usage(&mut self, usage: &Usage)
        ensures
            final(self)@ == (AgentView { usage: old(self)@.usage.plus(*usage), ..old(self)@ }),
    {
        self.usage.merge(usage);
    }

    /// Whether there is any skill.
    pub(crate) fn has_skills(&self) -> (any: bool)
        ensures
            any == (self@.skills.len() > 0),
    {
        self.skills.len() > 0
    }

    /// Whether the skills were listed.
    pub(crate) fn skills_listed(&self) -> (listed: bool)
        ensures
            listed == self@.skills_listed,
    {
        self.skills_listed
    }

    /// Whether a skill loader is set.
    pub(crate) fn loader_set(&self) -> (set: bool)
        ensures
            set == self@.has_loader,
    {
        self.has_loader
    }

    /// How many middlewares are registered.
    pub(crate) fn middleware_count(&self) -> (count: usize)
        ensures
            count == self@.middleware,
    {
        self.middleware
    }
}

/// The definition of the built-in tool that loads a skill.
pub open spec fn load_skill_def() -> ToolDefView {
    ToolDefView {
        name: LOAD_SKILL@,
        description: "Load a skill's full instructions by id (from the available-skills list)."@,
        parameters: JsonView::Object(
            map![
                "type"@ => JsonView::Text("object"@),
                "properties"@ => JsonView::Object(
                    map![
                        "id"@ => JsonView::Object(
                            map![
                                "type"@ => JsonView::Text("string"@),
                                "description"@ => JsonView::Text("Skill id"@),
                            ],
                        ),
                    ],
                ),
                "required"@ => JsonView::Array(seq![JsonView::Text("id"@)]),
            ],
        ),
        strict: false,
        cache: false,
    }
}

/// The definition of the built-in tool that searches the skills.
pub open spec fn search_skills_def() -> ToolDefView {
    ToolDefView {
        name: SEARCH_SKILLS@,
        description:
            "Search available skills by keyword; returns matching ids, names and descriptions."@,
        parameters: JsonView::Object(
            map![
                "type"@ => JsonView::Text("object"@),
                "properties"@ => JsonView::Object(
                    map![
                        "query"@ => JsonView::Object(map!["type"@ => JsonView::Text("string"@)]),
                    ],
                ),
                "required"@ => JsonView::Array(seq![JsonView::Text("query"@)]),
            ],
        ),
        strict: false,
        cache: false,
    }
}

fn only(text: &str) -> (json: Json)
    ensures
        json@ == JsonView::Array(seq![JsonView::Text(text@)]),
{
    let mut items: Vec<Json> = Vec::new();
    items.push(Json::text(text));
    assert(views::each(items@) =~= seq![JsonView::Text(text@)]);
    Json::array(items)
}

/// The definitions of the built-in skill tools.
pub fn skill_tool_defs() -> (defs: Vec<ToolDef>)
    ensures
        views::each(defs@) == seq![load_skill_def(), search_skills_def()],
{
    let load = ToolDef::new(
        LOAD_SKILL.to_owned(),
        "Load a skill's full instructions by id (from the available-skills list).".to_owned(),
        Json::object3(
            "type",
            Json::text("object"),
            "properties",
            Json::object1(
                "id",
                Json::object2(
                    "type",
                    Json::text("string"),
                    "description",
                    Json::text("Skill id"),
                ),
            ),
            "required",
            only("id"),
        ),
    );
    let search = ToolDef::new(
        SEARCH_SKILLS.to_owned(),
        "Search available skills by keyword; returns matching ids, names and \
            descriptions.".to_owned(),
        Json::object3(
            "type",
            Json::text("object"),
            "properties",
            Json::object1("query", Json::object1("type", Json::text("string"))),
            "required",
            only("query"),
        ),
    );
    let mut defs: Vec<ToolDef> = Vec::new();
    defs.push(load);
    defs.push(search);
    assert(views::each(defs@) =~= seq![load_skill_def(), search_skills_def()]);
    defs
}

/// The tools that a run offers.
pub open spec fn offered_tools(tools: Seq<ToolDefView>, skills: bool) -> Seq<ToolDefView> {
    if skills {
        tools + seq![load_skill_def(), search_skills_def()]
    } else {
        tools
    }
}

/// One line of the skill manifest.
pub open spec fn manifest_line(skill: SkillView) -> Seq<char> {
    "- "@ + skill.name + " ("@ + skill.id + "): "@ + skill.description + "\n"@
}

/// The first lines of the skill manifest.
pub const MANIFEST_HEAD: &'static str = "## Available skills\nUse `load_skill(id)` to load a \
    skill's full instructions, or `search_skills(query)` to find one.\n";

/// The skills as a block of the system prompt.
pub open spec fn manifest(skills: Seq<SkillView>) -> Seq<char>
    decreases skills.len(),
{
    if skills.len() == 0 {
        MANIFEST_HEAD@
    } else {
        manifest(skills.drop_last()) + manifest_line(skills.last())
    }
}

/// The system prompt of a step: the base prompt, then the manifest where there
/// are skills.
pub open spec fn step_system(
    base: Option<Seq<char>>,
    skills: Seq<SkillView>,
    active: bool,
) -> Option<SystemPromptView> {
    let shown = match (base, active) {
        (Some(b), false) => Some(b),
        (Some(b), true) => Some(b + "\n\n"@ + manifest(skills)),
        (None, true) => Some(manifest(skills)),
        (None, false) => None,
    };
    match shown {
        Some(t) => Some(SystemPromptView { text: t, cache: false }),
        None => None,
    }
}

/// The request of a step.
pub open spec fn step_request(
    agent: AgentView,
    tools: Seq<ToolDefView>,
    skills_active: bool,
    cache_key: Option<Seq<char>>,
) -> ChatRequestView {
    ChatRequestView {
        model: agent.model,
        system: step_system(agent.system, agent.skills, skills_active),
        messages: agent.messages,
        tools,
        tool_choice: ToolChoiceView::Auto,
        max_tokens: agent.max_tokens,
        temperature: None,
        stop_sequences: Seq::empty(),
        thinking: ThinkingConfig::Off,
        cache: agent.cache,
        cache_key,
        extra: Map::empty(),
    }
}

impl Agent {
    /// The tools that a run offers, which stay the same throughout.
    pub fn run_tools(&self, skills_active: bool) -> (tools: Vec<ToolDef>)
        ensures
            views::each(tools@) == offered_tools(self@.tools, skills_active),
    {
        let mut tools = self.tools.clone();
        assert(views::each(tools@) =~= self@.tools);
        if skills_active {
            let mut defs = skill_tool_defs();
            let ghost before = tools@;
            let ghost added = defs@;
            tools.append(&mut defs);
            assert(views::each(tools@) =~= views::each(before) + views::each(added));
        }
        tools
    }

    /// Renders the listed skills as a block of the system prompt.
    pub fn skill_manifest(&self) -> (shown: String)
        ensures
            shown@ == manifest(self@.skills),
    {
        let ghost all = self@.skills;
        let mut shown = MANIFEST_HEAD.to_owned();
        let mut i: usize = 0;
        assert(all.take(0) =~= Seq::empty());
        while i < self.skills.len()
            invariant
                i <= self.skills@.len(),
                all == self@.skills,
                shown@ == manifest(all.take(i as int)),
            decreases self.skills@.len() - i,
        {
            let ghost before = shown@;
            let skill = &self.skills[i];
            shown.append("- ");
            shown.append(skill.name.as_str());
            shown.append(" (");
            shown.append(skill.id.as_str());
            shown.append("): ");
            shown.append(skill.description.as_str());
            shown.append("\n");
            proof {
                assert(all.take(i + 1).drop_last() =~= all.take(i as int));
                assert(all.take(i + 1).last() == skill@);
                assert(shown@ =~= before + manifest_line(skill@));
            }
            i = i + 1;
        }
        assert(all.take(i as int) =~= all);
        shown
    }

    /// Builds the system prompt of a step, so that a change of the base prompt
    /// takes effect on the next request.
    pub fn build_system(&self, skills_active: bool) -> (system: Option<SystemPrompt>)
        ensures
            views::optional(system) == step_system(self@.system, self@.skills, skills_active),
    {
        match &self.system {
            Some(base) => if skills_active {
                let mut shown = base.clone();
                shown.append("\n\n");
                shown.append(self.skill_manifest().as_str());
                Some(SystemPrompt { text: shown, cache: false })
            } else {
                Some(SystemPrompt { text: base.clone(), cache: false })
            },
            None => if skills_active {
                Some(SystemPrompt { text: self.skill_manifest(), cache: false })
            } else {
                None
            },
        }
    }

    /// Builds the request of a step.
    pub fn build_request(
        &self,
        tools: &Vec<ToolDef>,
        skills_active: bool,
        cache_key: &Option<String>,
    ) -> (request: ChatRequest)
        ensures
            request@ == step_request(
                self@,
                views::each(tools@),
                skills_active,
                views::optional(*cache_key),
            ),
    {
        let request = ChatRequest {
            model: self.current_model.clone(),
            system: self.build_system(skills_active),
            messages: self.messages.clone(),
            tools: tools.clone(),
            tool_choice: ToolChoice::Auto,
            max_tokens: self.max_tokens,
            temperature: None,
            stop_sequences: Vec::new(),
            thinking: ThinkingConfig::Off,
            cache: self.cache.clone(),
            cache_key: cache_key.clone(),
            extra: Members::new(),
        };
        proof {
            assert(request@.messages =~= self@.messages);
            assert(request@.tools =~= views::each(tools@));
            assert(request@.stop_sequences =~= Seq::empty());
        }
        request
    }
}

/// The text in which a search for a skill looks.
pub open spec fn searched_text(skill: SkillView) -> Seq<char> {
    skill.id + " "@ + skill.name + " "@ + skill.description
}

/// A skill as a search reports it.
pub open spec fn skill_json(skill: SkillView) -> JsonView {
    JsonView::Object(
        map![
            "id"@ => JsonView::Text(skill.id),
            "name"@ => JsonView::Text(skill.name),
            "description"@ => JsonView::Text(skill.description),
        ],
    )
}

/// The skills in whose searched text the query stands, in order. `lowered` holds
/// the searched texts in lower case.
pub open spec fn matching_skills(
    skills: Seq<SkillView>,
    lowered: Seq<Seq<char>>,
    query: Seq<char>,
) -> Seq<JsonView>
    decreases skills.len(),
{
    if skills.len() == 0 {
        Seq::empty()
    } else {
        let before = matching_skills(skills.drop_last(), lowered, query);
        if text::holds_text(lowered[skills.len() - 1], query) {
            before.push(skill_json(skills.last()))
        } else {
            before
        }
    }
}

/// Reports the skills in whose lower-cased text the query stands.
pub fn report_matches(
    skills: &Vec<Skill>,
    lowered: &Vec<String>,
    query: &str,
) -> (report: Json)
    requires
        lowered@.len() == skills@.len(),
    ensures
        report@ == JsonView::Object(
            map![
                "matches"@ => JsonView::Array(
                    matching_skills(views::each(skills@), views::each(lowered@), query@),
                ),
            ],
        ),
{
    let ghost all = views::each(skills@);
    let ghost low = views::each(lowered@);
    let mut items: Vec<Json> = Vec::new();
    let mut i: usize = 0;
    assert(views::each(items@) =~= matching_skills(all.take(0), low, query@));
    while i < skills.len()
        invariant
            i <= skills@.len(),
            lowered@.len() == skills@.len(),
            all == views::each(skills@),
            low == views::each(lowered@),
            views::each(items@) == matching_skills(all.take(i as int), low, query@),
        decreases skills@.len() - i,
    {
        let ghost before = items@;
        let skill = &skills[i];
        assert(all.take(i + 1).drop_last() =~= all.take(i as int));
        assert(low[i as int] == lowered@[i as int]@);
        if contains_text(lowered[i].as_str(), query) {
            items.push(
                Json::object3(
                    "id",
                    Json::text(skill.id.as_str()),
                    "name",
                    Json::text(skill.name.as_str()),
                    "description",
                    Json::text(skill.description.as_str()),
                ),
            );
            assert(views::each(items@) =~= views::each(before).push(skill_json(skill@)));
        }
        i = i + 1;
    }
    assert(all.take(i as int) =~= all);
    Json::object1("matches", Json::array(items))
}

/// The searched texts of skills, in lower case.
pub open spec fn lowered_texts(skills: Seq<SkillView>) -> Seq<Seq<char>> {
    skills.map_values(|s: SkillView| text::lowercase(searched_text(s)))
}

impl Agent {
    /// Runs the built-in skill search: case-insensitive, over id, name and
    /// description.
    pub fn run_search_skills(&self, args: &Json) -> (report: Json)
        ensures
            report@ == JsonView::Object(
                map![
                    "matches"@ => JsonView::Array(
                        matching_skills(
                            self@.skills,
                            lowered_texts(self@.skills),
                            text::lowercase(JsonView::text_or_empty(args@.text_at("query"@))),
                        ),
                    ),
                ],
            ),
    {
        let query = to_lowercase(
            crate::json::text_or_empty(args.str_at("query")).as_str(),
        );
        let mut lowered: Vec<String> = Vec::new();
        let mut i: usize = 0;
        while i < self.skills.len()
            invariant
                i <= self.skills@.len(),
                lowered@.len() == i,
                forall|j: int|
                    0 <= j < i ==> (#[trigger] lowered@[j])@ == text::lowercase(
                        searched_text(self.skills@[j]@),
                    ),
            decreases self.skills@.len() - i,
        {
            let skill = &self.skills[i];
            let mut searched = skill.id.clone();
            searched.append(" ");
            searched.append(skill.name.as_str());
            searched.append(" ");
            searched.append(skill.description.as_str());
            lowered.push(to_lowercase(searched.as_str()));
            i = i + 1;
        }
        assert(views::each(lowered@) =~= lowered_texts(self@.skills));
        report_matches(&self.skills, &lowered, query.as_str())
    }
}

/// What has to be done for a planned tool call.
pub enum Job {
    /// Nothing: the call was denied, or its arguments were malformed.
    Settled(ToolOutcome),
    /// Nothing outside: the outcome is known.
    Answer(ToolOutcome),
    /// Load the body of the skill with this id.
    LoadSkill(String),
    /// Call the tool at this position.
    Call(usize),
}

/// What a [`Job`] stands for.
#[verifier::ext_equal]
pub enum JobView {
    /// Nothing: the call was denied, or its arguments were malformed.
    Settled(ToolOutcomeView),
    /// Nothing outside: the outcome is known.
    Answer(ToolOutcomeView),
    /// Load the body of the skill with this id.
    LoadSkill(Seq<char>),
    /// Call the tool at this position.
    Call(usize),
}

impl View for Job {
    type V = JobView;

    open spec fn view(&self) -> JobView {
        match *self {
            Job::Settled(o) => JobView::Settled(o@),
            Job::Answer(o) => JobView::Answer(o@),
            Job::LoadSkill(id) => JobView::LoadSkill(id@),
            Job::Call(slot) => JobView::Call(slot),
        }
    }
}

/// The position of the first tool with this name.
pub open spec fn tool_position(tools: Seq<ToolDefView>, name: Seq<char>) -> Option<usize>
    decreases tools.len(),
{
    if tools.len() == 0 {
        None
    } else {
        match tool_position(tools.drop_last(), name) {
            Some(i) => Some(i),
            None => if tools.last().name == name {
                Some((tools.len() - 1) as usize)
            } else {
                None
            },
        }
    }
}

/// What to do for a call: built-in tools first, then the registered ones.
pub open spec fn dispatch(agent: AgentView, name: Seq<char>, args: JsonView) -> JobView {
    if name == SEARCH_SKILLS@ {
        JobView::Answer(
            ToolOutcomeView::Success(
                JsonView::Object(
                    map![
                        "matches"@ => JsonView::Array(
                            matching_skills(
                                agent.skills,
                                lowered_texts(agent.skills),
                                text::lowercase(
                                    JsonView::text_or_empty(args.text_at("query"@)),
                                ),
                            ),
                        ),
                    ],
                ),
            ),
        )
    } else if name == LOAD_SKILL@ {
        let id = JsonView::text_or_empty(args.text_at("id"@));
        if !agent.has_loader {
            JobView::Answer(ToolOutcomeView::Error("skill error: no skill loader configured"@))
        } else if id.len() == 0 {
            JobView::Answer(ToolOutcomeView::Error("skill error: missing required argument: id"@))
        } else {
            JobView::LoadSkill(id)
        }
    } else {
        match tool_position(agent.tools, name) {
            Some(slot) => JobView::Call(slot),
            None => JobView::Answer(ToolOutcomeView::Error("unknown tool: "@ + name)),
        }
    }
}

/// What to do for a plan: a denied call and malformed arguments never reach a
/// tool.
pub open spec fn job_for(agent: AgentView, plan: ToolPlanView) -> JobView {
    match (plan.denied, plan.parse_error) {
        (Some(message), _) => JobView::Settled(ToolOutcomeView::Denied { message }),
        (None, Some(message)) => JobView::Settled(ToolOutcomeView::Error(message)),
        (None, None) => dispatch(agent, plan.name, plan.args),
    }
}

impl Agent {
    fn find_tool(&self, name: &str) -> (slot: Option<usize>)
        ensures
            slot == tool_position(self@.tools, name@),
    {
        let ghost all = self@.tools;
        let mut i: usize = 0;
        assert(all.take(0) =~= Seq::empty());
        while i < self.tools.len()
            invariant
                i <= self.tools@.len(),
                all == self@.tools,
                tool_position(all.take(i as int), name@) is None,
            decreases self.tools@.len() - i,
        {
            assert(all.take(i + 1).drop_last() =~= all.take(i as int));
            assert(all.take(i + 1).last() == self.tools@[i as int]@);
            if *self.tools[i].name.as_str() == *name {
                proof {
                    lemma_tool_position_kept(all, i + 1, name@);
                }
                return Some(i);
            }
            i = i + 1;
        }
        assert(all.take(i as int) =~= all);
        None
    }

    /// Decides what a call needs: built-in tools first, then the registered
    /// ones.
    pub fn dispatch_tool(&self, name: &str, args: &Json) -> (job: Job)
        ensures
            job@ == dispatch(self@, name@, args@),
    {
        if *name == *SEARCH_SKILLS {
            return Job::Answer(ToolOutcome::Success(self.run_search_skills(args)));
        }
        if *name == *LOAD_SKILL {
            let id = crate::json::text_or_empty(args.str_at("id"));
            return if !self.has_loader {
                let error = AgentError::Skill("no skill loader configured".to_owned());
                proof {
                    reveal_strlit("skill error: ");
                    reveal_strlit("no skill loader configured");
                    reveal_strlit("skill error: no skill loader configured");
                    assert(error.shown() =~= "skill error: no skill loader configured"@);
                }
                Job::Answer(ToolOutcome::Error(error.to_text()))
            } else if id.as_str().is_empty() {
                let error = AgentError::Skill("missing required argument: id".to_owned());
                proof {
                    reveal_strlit("skill error: ");
                    reveal_strlit("missing required argument: id");
                    reveal_strlit("skill error: missing required argument: id");
                    assert(error.shown() =~= "skill error: missing required argument: id"@);
                }
                Job::Answer(ToolOutcome::Error(error.to_text()))
            } else {
                Job::LoadSkill(id)
            };
        }
        match self.find_tool(name) {
            Some(slot) => Job::Call(slot),
            None => Job::Answer(
                ToolOutcome::Error("unknown tool: ".to_owned().concat(name)),
            ),
        }
    }

    /// Decides what a plan needs.
    pub fn job(&self, plan: &ToolPlan) -> (job: Job)
        ensures
            job@ == job_for(self@, plan@),
    {
        match &plan.denied {
            Some(message) => Job::Settled(ToolOutcome::Denied { message: message.clone() }),
            None => match &plan.parse_error {
                Some(message) => Job::Settled(ToolOutcome::Error(message.clone())),
                None => self.dispatch_tool(plan.name.as_str(), &plan.args),
            },
        }
    }
}

/// A tool found among the first ones is found among all.
proof fn lemma_tool_position_kept(tools: Seq<ToolDefView>, n: int, name: Seq<char>)
    requires
        0 <= n <= tools.len(),
        tool_position(tools.take(n), name) is Some,
    ensures
        tool_position(tools, name) == tool_position(tools.take(n), name),
    decreases tools.len() - n,
{
    if n < tools.len() {
        assert(tools.take(n + 1).drop_last() =~= tools.take(n));
        lemma_tool_position_kept(tools, n + 1, name);
    } else {
        assert(tools.take(n) =~= tools);
    }
}

/// The result of loading a skill, as the outcome of the call that asked for it.
pub open spec fn loaded_outcome(
    loaded: Result<SkillContentView, Seq<char>>,
) -> ToolOutcomeView {
    match loaded {
        Ok(content) => ToolOutcomeView::Success(
            JsonView::Object(
                map![
                    "body"@ => JsonView::Text(content.body),
                    "references"@ => JsonView::Array(crate::json::text_views(content.references)),
                ],
            ),
        ),
        Err(message) => ToolOutcomeView::Error(message),
    }
}

/// Turns what a skill loader returned into the outcome of the call.
pub fn loaded_skill(loaded: Result<SkillContent, AgentError>) -> (outcome: ToolOutcome)
    ensures
        outcome@ == loaded_outcome(
            match loaded {
                Ok(content) => Ok(content@),
                Err(e) => Err(e.shown()),
            },
        ),
{
    match loaded {
        Ok(content) => ToolOutcome::Success(
            Json::object2(
                "body",
                Json::text(content.body.as_str()),
                "references",
                Json::texts(&content.references),
            ),
        ),
        Err(e) => ToolOutcome::Error(e.to_text()),
    }
}

proof fn lemma_builtin_names_differ()
    ensures
        "load_skill"@ != "search_skills"@,
{
    reveal_strlit("load_skill");
    reveal_strlit("search_skills");
    assert("load_skill"@.len() == 10);
    assert("search_skills"@.len() == 13);
}

proof fn lemma_skill_keys_differ()
    ensures
        "id"@ != "name"@,
        "id"@ != "description"@,
        "id"@ != "type"@,
        "id"@ != "properties"@,
        "id"@ != "required"@,
        "id"@ != "query"@,
        "id"@ != "body"@,
        "id"@ != "references"@,
        "name"@ != "description"@,
        "name"@ != "type"@,
        "name"@ != "properties"@,
        "name"@ != "required"@,
        "name"@ != "query"@,
        "name"@ != "body"@,
        "name"@ != "references"@,
        "description"@ != "type"@,
        "description"@ != "properties"@,
        "description"@ != "required"@,
        "description"@ != "query"@,
        "description"@ != "body"@,
        "description"@ != "references"@,
        "type"@ != "properties"@,
        "type"@ != "required"@,
        "type"@ != "query"@,
        "type"@ != "body"@,
        "type"@ != "references"@,
        "properties"@ != "required"@,
        "properties"@ != "query"@,
        "properties"@ != "body"@,
        "properties"@ != "references"@,
        "required"@ != "query"@,
        "required"@ != "body"@,
        "required"@ != "references"@,
        "query"@ != "body"@,
        "query"@ != "references"@,
        "body"@ != "references"@,
{
    reveal_strlit("id");
    reveal_strlit("name");
    reveal_strlit("description");
    reveal_strlit("type");
    reveal_strlit("properties");
    reveal_strlit("required");
    reveal_strlit("query");
    reveal_strlit("body");
    reveal_strlit("references");
    assert("id"@.len() == 2);
    assert("name"@.len() == 4);
    assert("description"@.len() == 11);
    assert("type"@.len() == 4);
    assert("properties"@.len() == 10);
    assert("required"@.len() == 8);
    assert("query"@.len() == 5);
    assert("body"@.len() == 4);
    assert("references"@.len() == 10);
    assert("name"@[0] != "type"@[0]);
    assert("name"@[0] != "body"@[0]);
    assert("type"@[0] != "body"@[0]);
    assert("properties"@[0] != "references"@[0]);
}


proof fn lemma_tool_position(tools: Seq<ToolDefView>, name: Seq<char>)
    requires
        tools.len() <= usize::MAX,
    ensures
        match tool_position(tools, name) {
            Some(at) => {
                &&& at < tools.len()
                &&& tools[at as int].name == name
                &&& forall|i: int| 0 <= i < at ==> (#[trigger] tools[i]).name != name
            },
            None => forall|i: int| 0 <= i < tools.len() ==> (#[trigger] tools[i]).name != name,
        },
    decreases tools.len(),
{
    if tools.len() > 0 {
        let shorter = tools.drop_last();
        lemma_tool_position(shorter, name);
        if tool_position(shorter, name) is None {
            assert forall|i: int| 0 <= i < tools.len() - 1 implies (#[trigger] tools[i]).name
                != name by {
                assert(tools[i] == shorter[i]);
            }
        } else {
            let at = tool_position(shorter, name)->0;
            assert(tools[at as int] == shorter[at as int]);
            assert forall|i: int| 0 <= i < at implies (#[trigger] tools[i]).name != name by {
                assert(tools[i] == shorter[i]);
            }
        }
    }
}

/// A call of a registered tool reaches the first tool of that name, and a call of an
/// unknown one reaches none and is answered with an error that names it.
pub proof fn a_call_reaches_the_tool_it_names(agent: AgentView, name: Seq<char>, args: JsonView)
    requires
        agent.tools.len() <= usize::MAX,
        name != "load_skill"@,
        name != "search_skills"@,
    ensures
        dispatch(agent, name, args) matches JobView::Call(at) ==> {
            &&& at < agent.tools.len()
            &&& agent.tools[at as int].name == name
            &&& forall|i: int| 0 <= i < at ==> (#[trigger] agent.tools[i]).name != name
        },
        (exists|i: int| 0 <= i < agent.tools.len() && (#[trigger] agent.tools[i]).name == name)
            ==> dispatch(agent, name, args) is Call,
        (forall|i: int| 0 <= i < agent.tools.len() ==> (#[trigger] agent.tools[i]).name != name)
            ==> dispatch(agent, name, args) == JobView::Answer(
            ToolOutcomeView::Error("unknown tool: "@ + name),
        ),
{
    lemma_tool_position(agent.tools, name);
}

/// A call of the skill loader loads the skill with the id it gives; without a loader,
/// and without an id, it is answered with an error. No registered tool is reached.
pub proof fn a_skill_is_loaded_by_its_id(agent: AgentView, args: JsonView, id: Seq<char>)
    ensures
        agent.has_loader && args.text_at("id"@) == Some(id) && id.len() > 0 ==> dispatch(
            agent,
            "load_skill"@,
            args,
        ) == JobView::LoadSkill(id),
        !agent.has_loader ==> (dispatch(agent, "load_skill"@, args) matches JobView::Answer(o)
            && o is Error),
        args.text_at("id"@) is None ==> (dispatch(agent, "load_skill"@, args)
            matches JobView::Answer(o) && o is Error),
        args.text_at("id"@) == Some(Seq::<char>::empty()) ==> (dispatch(
            agent,
            "load_skill"@,
            args,
        ) matches JobView::Answer(o) && o is Error),
{
    lemma_builtin_names_differ();
}

/// A search report shows a skill.
pub open spec fn shows_skill(report: JsonView, skill: SkillView) -> bool {
    &&& report.text_at("id"@) == Some(skill.id)
    &&& report.text_at("name"@) == Some(skill.name)
    &&& report.text_at("description"@) == Some(skill.description)
}

/// A skill search looks in the id, the name and the description of each skill,
/// whatever the case, and reports the skills in whose text the query stands, in
/// order, each once.
pub proof fn a_skill_search_finds_by_id_name_and_description(
    agent: AgentView,
    args: JsonView,
    query: Seq<char>,
    i: int,
)
    requires
        args.text_at("query"@) == Some(query),
    ensures
        0 <= i < agent.skills.len() ==> {
            let searched = searched_text(agent.skills[i]);
            &&& lowered_texts(agent.skills)[i] == text::lowercase(searched)
            &&& text::holds_text(searched, agent.skills[i].id)
            &&& text::holds_text(searched, agent.skills[i].name)
            &&& text::holds_text(searched, agent.skills[i].description)
        },
        dispatch(agent, "search_skills"@, args) matches JobView::Answer(
            ToolOutcomeView::Success(report),
        ) && report.elements_at("matches"@) is Some,
        ({
            let hits = dispatch(agent, "search_skills"@, args)->Answer_0->Success_0.elements_at(
                "matches"@,
            )->0;
            let picked = Seq::new(agent.skills.len(), |k: int| k).filter(
                |k: int| text::holds_text(lowered_texts(agent.skills)[k], text::lowercase(query)),
            );
            &&& hits.len() == picked.len()
            &&& forall|k: int|
                0 <= k < hits.len() ==> shows_skill(#[trigger] hits[k], agent.skills[picked[k]])
        }),
{
    let none = Seq::<char>::empty();
    if 0 <= i < agent.skills.len() {
        let skill = agent.skills[i];
        let searched = searched_text(skill);
        text::a_text_holds_its_parts(none, skill.id, " "@ + skill.name + " "@ + skill.description);
        assert(skill.id + (" "@ + skill.name + " "@ + skill.description) =~= searched);
        text::a_text_holds_its_parts(skill.id + " "@, skill.name, " "@ + skill.description);
        assert(skill.id + " "@ + skill.name + (" "@ + skill.description) =~= searched);
        text::a_text_holds_its_parts(
            skill.id + " "@ + skill.name + " "@,
            skill.description,
            none,
        );
    }
    let n = agent.skills.len() as int;
    lemma_matches_by_position(
        agent.skills,
        n,
        lowered_texts(agent.skills),
        text::lowercase(query),
    );
    assert(agent.skills.take(n) =~= agent.skills);
}

proof fn lemma_matches_by_position(
    skills: Seq<SkillView>,
    n: int,
    lowered: Seq<Seq<char>>,
    query: Seq<char>,
)
    requires
        0 <= n <= skills.len(),
    ensures
        ({
            let hits = matching_skills(skills.take(n), lowered, query);
            let picked = Seq::new(n as nat, |k: int| k).filter(
                |k: int| text::holds_text(lowered[k], query),
            );
            &&& hits.len() == picked.len()
            &&& forall|k: int|
                0 <= k < hits.len() ==> shows_skill(#[trigger] hits[k], skills[picked[k]])
        }),
    decreases n,
{
    reveal(Seq::filter);
    lemma_skill_keys_differ();
    if n > 0 {
        lemma_matches_by_position(skills, n - 1, lowered, query);
        assert(skills.take(n).drop_last() =~= skills.take(n - 1));
        assert(Seq::new(n as nat, |k: int| k).drop_last() =~= Seq::new((n - 1) as nat, |k: int| k));
        assert(shows_skill(skill_json(skills[n - 1]), skills[n - 1]));
    }
}

/// A call that was denied, or whose arguments are malformed, is settled with that
/// reason and reaches no tool; a denial comes first. Any other call is done as its
/// name and its arguments say.
pub proof fn a_refused_call_reaches_no_tool(agent: AgentView, plan: ToolPlanView)
    ensures
        job_for(agent, plan) is Settled <==> plan.denied is Some || plan.parse_error is Some,
        plan.denied matches Some(reason) ==> job_for(agent, plan) == JobView::Settled(
            ToolOutcomeView::Denied { message: reason },
        ),
        plan.denied is None ==> (plan.parse_error matches Some(reason) ==> job_for(agent, plan)
            == JobView::Settled(ToolOutcomeView::Error(reason))),
        plan.denied is None && plan.parse_error is None ==> job_for(agent, plan) == dispatch(
            agent,
            plan.name,
            plan.args,
        ),
{
}

/// A run offers every registered tool, in order, and with skills the two built-in
/// tools behind them, each of which requires its one argument.
pub proof fn a_run_offers_every_tool(tools: Seq<ToolDefView>)
    ensures
        offered_tools(tools, false) == tools,
        offered_tools(tools, true).len() == tools.len() + 2,
        tools.is_prefix_of(offered_tools(tools, true)),
        ({
            let load = offered_tools(tools, true)[tools.len() as int];
            let search = offered_tools(tools, true)[tools.len() as int + 1];
            &&& load.name == "load_skill"@
            &&& requires_text(load.parameters, "id"@)
            &&& search.name == "search_skills"@
            &&& requires_text(search.parameters, "query"@)
        }),
{
    lemma_skill_keys_differ();
}

/// A schema of an object that requires one text under this key.
pub open spec fn requires_text(schema: JsonView, key: Seq<char>) -> bool {
    &&& schema.text_at("type"@) == Some("object"@)
    &&& schema.elements_at("required"@) matches Some(keys)
    &&& keys == seq![JsonView::Text(key)]
    &&& schema.member("properties"@) matches Some(properties)
    &&& properties.member(key) matches Some(property)
    &&& property.text_at("type"@) == Some("string"@)
}

proof fn lemma_manifest_lists(skills: Seq<SkillView>, i: int)
    requires
        0 <= i < skills.len(),
    ensures
        text::holds_text(
            manifest(skills),
            "- "@ + skills[i].name + " ("@ + skills[i].id + "): "@ + skills[i].description + "\n"@,
        ),
    decreases skills.len(),
{
    let none = Seq::<char>::empty();
    let before = manifest(skills.drop_last());
    let line = manifest_line(skills.last());
    if i == skills.len() - 1 {
        text::a_text_holds_its_parts(before, line, none);
    } else {
        lemma_manifest_lists(skills.drop_last(), i);
        let shown = "- "@ + skills[i].name + " ("@ + skills[i].id + "): "@ + skills[i].description
            + "\n"@;
        text::what_a_part_holds_the_text_holds(none, before, line, shown);
    }
}

/// The system prompt of a step starts with the base prompt, is the base prompt alone
/// where no skills are active, and otherwise lists every skill by name, id and
/// description, in order.
pub proof fn a_step_tells_of_the_skills(
    base: Option<Seq<char>>,
    skills: Seq<SkillView>,
    skill: SkillView,
    i: int,
)
    ensures
        base is None ==> step_system(base, skills, false) is None,
        base matches Some(b) ==> (step_system(base, skills, false) matches Some(p) && p.text == b),
        step_system(base, skills, true) is Some,
        base matches Some(b) ==> b.is_prefix_of(step_system(base, skills, true)->0.text),
        0 <= i < skills.len() ==> text::holds_text(
            step_system(base, skills, true)->0.text,
            "- "@ + skills[i].name + " ("@ + skills[i].id + "): "@ + skills[i].description + "\n"@,
        ),
        step_system(base, skills.push(skill), true)->0.text == step_system(
            base,
            skills,
            true,
        )->0.text + ("- "@ + skill.name + " ("@ + skill.id + "): "@ + skill.description + "\n"@),
        !step_system(base, skills, true)->0.cache,
{
    let none = Seq::<char>::empty();
    let shown = manifest(skills);
    if let Some(b) = base {
        assert((b + "\n\n"@ + shown).take(b.len() as int) =~= b);
    }
    if 0 <= i < skills.len() {
        lemma_manifest_lists(skills, i);
        let line = "- "@ + skills[i].name + " ("@ + skills[i].id + "): "@ + skills[i].description
            + "\n"@;
        if let Some(b) = base {
            text::what_a_part_holds_the_text_holds(b + "\n\n"@, shown, none, line);
        }
    }
    assert(skills.push(skill).drop_last() =~= skills);
    if let Some(b) = base {
        assert(b + "\n\n"@ + (shown + manifest_line(skill)) =~= b + "\n\n"@ + shown
            + manifest_line(skill));
    }
}

/// The request of a step carries the session: the active model, the whole
/// conversation, the tools, the token limit and the caching, and leaves the choice of
/// tools to the model.
pub proof fn a_step_request_carries_the_session(
    agent: AgentView,
    tools: Seq<ToolDefView>,
    skills_active: bool,
    cache_key: Option<Seq<char>>,
)
    ensures
        ({
            let request = step_request(agent, tools, skills_active, cache_key);
            &&& request.model == agent.model
            &&& request.messages == agent.messages
            &&& request.tools == tools
            &&& request.tool_choice is Auto
            &&& request.max_tokens == agent.max_tokens
            &&& request.cache == agent.cache
            &&& request.cache_key == cache_key
            &&& request.system == step_system(agent.system, agent.skills, skills_active)
            &&& request.temperature is None
            &&& request.stop_sequences.len() == 0
            &&& request.thinking is Off
            &&& request.extra == Map::<Seq<char>, JsonView>::empty()
        }),
{
}

/// A loaded skill is answered whole: its body and all its references, in order. A
/// loader that failed is answered with its message.
pub proof fn a_loaded_skill_is_answered_whole(content: SkillContentView, message: Seq<char>)
    ensures
        loaded_outcome(Ok(content)) matches ToolOutcomeView::Success(answer) && {
            &&& answer.text_at("body"@) == Some(content.body)
            &&& answer.elements_at("references"@) matches Some(items)
            &&& items.len() == content.references.len()
            &&& forall|i: int|
                0 <= i < items.len() ==> #[trigger] items[i] == JsonView::Text(
                    content.references[i],
                )
        },
        loaded_outcome(Err(message)) == ToolOutcomeView::Error(message),
{
    lemma_skill_keys_differ();
}

} // verus!
