use vstd::prelude::*;

verus! {

/// A message the dashboard component reacts to.
#[derive(Clone, Copy, Debug, PartialEq, Eq, Structural)]
pub enum Msg {
    AddOne,
}

/// State of the dashboard component: a click counter.
pub struct Model {
    pub value: i64,
}

impl Model {
    /// The state after `msg` is handled in state `self`.
    pub open spec fn next(self, msg: Msg) -> Model {
        match msg {
            Msg::AddOne => Model { value: (self.value + 1) as i64 },
        }
    }

    /// A fresh component counts nothing yet.
    pub fn create() -> (m: Model)
        ensures
            m.value == 0,
    {
        Model { value: 0 }
    }

    /// Handles a message; the component is always redrawn afterwards.
    pub fn update(&mut self, msg: Msg) -> (render: bool)
        requires
            old(self).value < i64::MAX,
        ensures
            *final(self) == old(self).next(msg),
            render,
    {
        match msg {
            Msg::AddOne => self.value = self.value + 1,
        }
        true
    }

    /// The component has no properties, so a change of them never asks for a redraw.
    pub fn change(&mut self) -> (render: bool)
        ensures
            *final(self) == *old(self),
            !render,
    {
        false
    }
}

/// The state reached from `m` by handling `msgs` in order.
pub open spec fn run(m: Model, msgs: Seq<Msg>) -> Model
    decreases msgs.len(),
{
    if msgs.len() == 0 {
        m
    } else {
        run(m, msgs.drop_last()).next(msgs.last())
    }
}

/// The counter counts: starting from a fresh component, handling any number
/// of messages leaves the number of messages handled as its value.
pub proof fn lemma_counter_counts(msgs: Seq<Msg>)
    requires
        msgs.len() <= i64::MAX,
    ensures
        run(Model { value: 0 }, msgs).value == msgs.len(),
    decreases msgs.len(),
{
    if msgs.len() > 0 {
        lemma_counter_counts(msgs.drop_last());
    }
}

} // verus!
