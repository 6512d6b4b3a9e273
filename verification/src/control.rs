//! Middleware control flow.

use crate::views;
use vstd::prelude::*;

verus! {

/// What a conversation-phase middleware hook returns.
#[derive(Debug)]
pub enum Flow {
    /// Keep running.
    Continue,
    /// Halt the run; the string becomes the final response text.
    Stop(String),
}

/// What a [`Flow`] stands for.
#[verifier::ext_equal]
pub enum FlowView {
    /// Keep running.
    Continue,
    /// Halt the run; the string becomes the final response text.
    Stop(Seq<char>),
}

impl View for Flow {
    type V = FlowView;

    open spec fn view(&self) -> FlowView {
        match *self {
            Flow::Continue => FlowView::Continue,
            Flow::Stop(x) => FlowView::Stop(x@),
        }
    }
}

impl Clone for Flow {
    fn clone(&self) -> (copy: Self)
        ensures
            copy@ == self@,
    {
        match self {
            Flow::Continue => Flow::Continue,
            Flow::Stop(x) => Flow::Stop(x.clone()),
        }
    }
}

/// What a middleware decides on a tool call.
#[derive(Debug)]
pub enum Approval {
    /// Run the tool.
    Allow,
    /// Skip it and feed the message to the model as the tool result.
    Deny {
        /// Reason returned to the model.
        message: String,
    },
    /// Halt the whole agent.
    Stop {
        /// Optional final response text.
        message: Option<String>,
    },
}

/// What a [`Approval`] stands for.
#[verifier::ext_equal]
pub enum ApprovalView {
    /// Run the tool.
    Allow,
    /// Skip it and feed the message to the model as the tool result.
    Deny {
        /// Reason returned to the model.
        message: Seq<char>,
    },
    /// Halt the whole agent.
    Stop {
        /// Optional final response text.
        message: Option<Seq<char>>,
    },
}

impl View for Approval {
    type V = ApprovalView;

    open spec fn view(&self) -> ApprovalView {
        match *self {
            Approval::Allow => ApprovalView::Allow,
            Approval::Deny { message } => ApprovalView::Deny {
                message: message@,
            },
            Approval::Stop { message } => ApprovalView::Stop {
                message: views::optional(message),
            },
        }
    }
}

impl Clone for Approval {
    fn clone(&self) -> (copy: Self)
        ensures
            copy@ == self@,
    {
        match self {
            Approval::Allow => Approval::Allow,
            Approval::Deny { message } => Approval::Deny {
                message: message.clone(),
            },
            Approval::Stop { message } => Approval::Stop {
                message: message.clone(),
            },
        }
    }
}

impl Flow {
    /// Stop with a final message.
    pub fn stop(msg: String) -> (flow: Self)
        ensures
            flow == Flow::Stop(msg),
    {
        Flow::Stop(msg)
    }
}

} // verus!
