//! The context handed to middleware during a run.

use crate::loop_event::Step;
use crate::message::Message;
use crate::usage::Usage;
use vstd::prelude::*;

verus! {

/// Context handed to a middleware hook: the app context, and the part of the
/// session that the hook may read and change.
pub struct AgentCx<'a, Ctx> {
    ctx: &'a Ctx,
    messages: &'a mut Vec<Message>,
    model: &'a mut String,
    system: &'a mut Option<String>,
    usage: &'a Usage,
    index: u32,
    last_step: Option<&'a Step>,
    cancelled: bool,
}

/// What a hook sees of the session, besides the app context.
#[verifier::ext_equal]
pub struct Session {
    /// The conversation.
    pub messages: Seq<Message>,
    /// The active model.
    pub model: Seq<char>,
    /// The base system prompt.
    pub system: Option<Seq<char>>,
    /// Accumulated usage.
    pub usage: Usage,
    /// Current step index.
    pub index: u32,
    /// The last completed step.
    pub last_step: Option<Step>,
    /// Whether the run was cancelled when the hook was called.
    pub cancelled: bool,
}

impl<'a, Ctx> AgentCx<'a, Ctx> {
    /// The app context.
    pub closed spec fn app(self) -> Ctx {
        *self.ctx
    }

    /// What the hook sees of the session now.
    pub closed spec fn session(self) -> Session {
        Session {
            messages: self.messages@,
            model: self.model@,
            system: crate::views::optional(*self.system),
            usage: *self.usage,
            index: self.index,
            last_step: match self.last_step {
                Some(step) => Some(*step),
                None => None,
            },
            cancelled: self.cancelled,
        }
    }

    /// A context over the borrowed parts of a session.
    pub fn new(
        ctx: &'a Ctx,
        messages: &'a mut Vec<Message>,
        model: &'a mut String,
        system: &'a mut Option<String>,
        usage: &'a Usage,
        index: u32,
        last_step: Option<&'a Step>,
        cancelled: bool,
    ) -> (cx: Self)
        ensures
            cx.app() == *ctx,
            cx.session() == (Session {
                messages: old(messages)@,
                model: old(model)@,
                system: crate::views::optional(*old(system)),
                usage: *usage,
                index,
                last_step: match last_step {
                    Some(step) => Some(*step),
                    None => None,
                },
                cancelled,
            }),
    {
        AgentCx { ctx, messages, model, system, usage, index, last_step, cancelled }
    }

    /// The app context.
    pub fn ctx(&self) -> (ctx: &Ctx)
        ensures
            *ctx == self.app(),
    {
        self.ctx
    }

    /// The conversation.
    pub fn messages(&self) -> (messages: &Vec<Message>)
        ensures
            messages@ == self.session().messages,
    {
        &*self.messages
    }

    /// The conversation, to load, inject or compact.
    pub fn messages_mut(&mut self) -> (messages: &mut Vec<Message>)
        ensures
            messages@ == old(self).session().messages,
            final(self).session() == (Session {
                messages: final(messages)@,
                ..old(self).session()
            }),
            final(self).app() == old(self).app(),
    {
        &mut *self.messages
    }

    /// Accumulated usage.
    pub fn usage(&self) -> (usage: &Usage)
        ensures
            *usage == self.session().usage,
    {
        self.usage
    }

    /// Current step index.
    pub fn index(&self) -> (index: u32)
        ensures
            index == self.session().index,
    {
        self.index
    }

    /// The last completed step.
    pub fn step(&self) -> (step: Option<&Step>)
        ensures
            match step {
                Some(s) => self.session().last_step == Some(*s),
                None => self.session().last_step is None,
            },
    {
        self.last_step
    }

    /// The active model id.
    pub fn model(&self) -> (model: &str)
        ensures
            model@ == self.session().model,
    {
        self.model.as_str()
    }

    /// Switches the model for the rest of the run.
    pub fn set_model(&mut self, id: String)
        ensures
            final(self).session() == (Session { model: id@, ..old(self).session() }),
            final(self).app() == old(self).app(),
    {
        *self.model = id;
    }

    /// Switches the system prompt for the rest of the run.
    pub fn set_system(&mut self, text: String)
        ensures
            final(self).session() == (Session { system: Some(text@), ..old(self).session() }),
            final(self).app() == old(self).app(),
    {
        *self.system = Some(text);
    }

    /// Whether the run was cancelled when the hook was called.
    pub fn is_cancelled(&self) -> (cancelled: bool)
        ensures
            cancelled == self.session().cancelled,
    {
        self.cancelled
    }
}

} // verus!
