//! Panes: each holds its own copy of a layer's settings, and a shared layer
//! answers for all of them at once.
use vstd::prelude::*;
use crate::json::{
    bool_member, empty_object, get_bool, json_is_object, json_members, no_members, put_bool, Member,
};

verus! {

/// The panes a question is asked on behalf of: one pane's own state, where there
/// is one, and the states of the others.
#[derive(Debug)]
pub struct Pane<S> {
    pub state: Option<S>,
    pub peers: Vec<S>,
}

impl<S: Copy> Pane<S> {
    /// No pane at all: the layer answers from its defaults.
    pub fn bare() -> (pane: Pane<S>)
        ensures
            pane.state is None,
            pane.peers@ == Seq::<S>::empty(),
    {
        Pane { state: None, peers: Vec::new() }
    }

    /// One pane on its own.
    pub fn of(state: S) -> (pane: Pane<S>)
        ensures
            pane.state == Some(state),
            pane.peers@ == Seq::<S>::empty(),
    {
        Pane { state: Some(state), peers: Vec::new() }
    }

    /// All panes at once, none of them singled out.
    pub fn across(states: Vec<S>) -> (pane: Pane<S>)
        ensures
            pane.state is None,
            pane.peers@ == states@,
    {
        Pane { state: None, peers: states }
    }

    /// Every pane's state, this one's first.
    pub open spec fn all(&self) -> Seq<S> {
        match self.state {
            Some(own) => seq![own] + self.peers@,
            None => self.peers@,
        }
    }

    /// This pane's state, or what is used where there is none.
    pub open spec fn own_or(&self, defaults: S) -> S {
        match self.state {
            Some(own) => own,
            None => defaults,
        }
    }

    pub fn view_or(&self, defaults: &S) -> (state: S)
        ensures
            state == self.own_or(*defaults),
    {
        match self.state {
            Some(own) => own,
            None => *defaults,
        }
    }

    /// Every pane's state, this one's first.
    pub fn states(&self) -> (states: Vec<S>)
        ensures
            states@ == self.all(),
    {
        let mut states: Vec<S> = Vec::new();
        if let Some(own) = self.state {
            states.push(own);
        }
        let ghost first = states@;
        let mut at: usize = 0;
        assert(first + self.peers@.take(0) =~= first);
        while at < self.peers.len()
            invariant
                at <= self.peers@.len(),
                states@ == first + self.peers@.take(at as int),
            decreases self.peers@.len() - at,
        {
            states.push(self.peers[at]);
            assert(states@ =~= first + self.peers@.take(at + 1));
            at = at + 1;
        }
        assert(states@ =~= self.all());
        states
    }

    /// Replaces this pane's state, or the defaults where there is no pane.
    pub fn put(&mut self, defaults: &mut S, state: S)
        ensures
            final(self).peers == old(self).peers,
            old(self).state is Some ==> final(self).state == Some(state) && *final(defaults)
                == *old(defaults),
            old(self).state is None ==> final(self).state is None && *final(defaults) == state,
    {
        if self.state.is_some() {
            self.state = Some(state);
        } else {
            *defaults = state;
        }
    }
}

/// A layer whose only setting is whether the pane draws it.
#[derive(Clone, Copy, Debug, PartialEq, Eq, Structural)]
pub struct PaneToggle {
    pub enabled: bool,
}

impl PaneToggle {
    /// Whether a pane draws the layer, by its own word or else by the layer's.
    pub open spec fn on(pane: Pane<PaneToggle>, fallback: bool) -> bool {
        pane.own_or(PaneToggle { enabled: fallback }).enabled
    }

    pub fn is_on(pane: &Pane<PaneToggle>, fallback: bool) -> (on: bool)
        ensures
            on == PaneToggle::on(*pane, fallback),
    {
        pane.view_or(&PaneToggle { enabled: fallback }).enabled
    }

    /// Turns the layer on or off in a pane, and says whether there was one.
    pub fn set(pane: &mut Pane<PaneToggle>, enabled: bool) -> (taken: bool)
        ensures
            taken == (old(pane).state is Some),
            taken ==> final(pane).state == Some(PaneToggle { enabled }),
            !taken ==> final(pane).state is None,
            final(pane).peers == old(pane).peers,
    {
        if pane.state.is_some() {
            pane.state = Some(PaneToggle { enabled });
            return true;
        }
        false
    }

    /// The settings as they are kept between runs.
    pub fn save(&self) -> (value: serde_json::Value)
        ensures
            json_is_object(value),
            json_members(value) == no_members().insert("enabled"@, Member::Bool(self.enabled)),
    {
        let mut value = empty_object();
        put_bool(&mut value, "enabled", self.enabled);
        value
    }

    /// The settings as they were kept, or on and off as `fallback` says where they
    /// do not say.
    pub fn restore(value: &serde_json::Value, fallback: bool) -> (toggle: PaneToggle)
        ensures
            toggle.enabled == match bool_member(*value, "enabled"@) {
                Some(enabled) => enabled,
                None => fallback,
            },
    {
        match get_bool(value, "enabled") {
            Some(enabled) => PaneToggle { enabled },
            None => PaneToggle { enabled: fallback },
        }
    }
}

/// A toggle that was kept comes back as it was, whatever the fallback.
pub proof fn law_toggle_reopens(toggle: PaneToggle, value: serde_json::Value)
    requires
        json_members(value) == no_members().insert("enabled"@, Member::Bool(toggle.enabled)),
    ensures
        bool_member(value, "enabled"@) == Some(toggle.enabled),
{
}

/// A question is asked on behalf of every pane: the one singled out, where one is,
/// and each of the others, and no pane is left out or made up.
pub proof fn law_every_pane_is_asked<S: Copy>(pane: Pane<S>, state: S)
    ensures
        pane.all().contains(state) == (pane.state == Some(state) || pane.peers@.contains(state)),
        pane.all().len() == pane.peers@.len() + (if pane.state is Some {
            1int
        } else {
            0
        }),
        pane.state is Some ==> pane.all()[0] == pane.state->0,
        pane.state is Some ==> pane.own_or(state) == pane.all()[0],
        pane.state is None ==> pane.own_or(state) == state,
{
    let all = pane.all();
    if let Some(own) = pane.state {
        assert(all[0] == own);
        if pane.peers@.contains(state) {
            assert(all[pane.peers@.index_of(state) + 1] == state);
        }
        if all.contains(state) {
            let i = all.index_of(state);
            if i > 0 {
                assert(pane.peers@[i - 1] == state);
            }
        }
    }
}

} // verus!
