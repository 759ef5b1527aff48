//! The animator: a state graph of animations played frame by frame.

use crate::error::AnimationError;
use crate::number::Number;
use crate::state_graph::{node_views, GraphView, NodeView, StateGraph};
use crate::texture_iterator::{Sequencer, TextureIterator};
use std::time::Duration;
use vstd::prelude::*;

verus! {

/// A run of frames of a texture atlas.
#[derive(Debug)]
pub struct Animation<H> {
    /// The index of the first frame of the animation.
    pub first_frame: usize,
    /// The index of the last frame of the animation.
    pub last_frame: usize,
    /// The handle of the texture atlas that holds the frames.
    pub texture: H,
    /// How long each frame is shown.
    pub frame_duration: Duration,
}

impl<H: Clone> Clone for Animation<H> {
    /// The same frames and duration, with a clone of the texture handle.
    fn clone(&self) -> (copy: Animation<H>)
        ensures
            copy.first_frame == self.first_frame,
            copy.last_frame == self.last_frame,
            copy.frame_duration == self.frame_duration,
            cloned(self.texture, copy.texture),
    {
        Animation {
            first_frame: self.first_frame,
            last_frame: self.last_frame,
            texture: self.texture.clone(),
            frame_duration: self.frame_duration,
        }
    }
}

/// An animation as the data of a graph node.
#[derive(Debug)]
pub struct AnimationData<H> {
    /// The animation that plays while the node is active.
    pub animation: Animation<H>,
    /// Whether the animation plays to its last frame before a requested
    /// animation takes its place.
    pub has_exit_time: bool,
}

impl<H: Clone> Clone for AnimationData<H> {
    /// The same exit time, with a clone of the animation.
    fn clone(&self) -> (copy: AnimationData<H>)
        ensures
            copy.has_exit_time == self.has_exit_time,
            copy.animation.first_frame == self.animation.first_frame,
            copy.animation.last_frame == self.animation.last_frame,
            copy.animation.frame_duration == self.animation.frame_duration,
            cloned(self.animation.texture, copy.animation.texture),
    {
        AnimationData { animation: self.animation.clone(), has_exit_time: self.has_exit_time }
    }
}

impl<H> AnimationData<H> {
    /// The node data made of `animation` and `has_exit_time`.
    pub fn new(animation: Animation<H>, has_exit_time: bool) -> (data: AnimationData<H>)
        ensures
            data.animation == animation,
            data.has_exit_time == has_exit_time,
    {
        AnimationData { animation, has_exit_time }
    }

    /// The sequencer at the start of the animation.
    pub open spec fn start(self) -> Sequencer {
        Sequencer::start(self.animation.first_frame as nat, self.animation.last_frame as nat)
    }
}

/// Whether the first frame of every node's animation is at or before its last.
pub open spec fn ranges_valid<H>(nodes: Map<Seq<char>, NodeView<AnimationData<H>>>) -> bool {
    forall|name: Seq<char>|
        nodes.contains_key(name) ==> (#[trigger] nodes[name]).data.animation.first_frame
            <= nodes[name].data.animation.last_frame
}

/// What a tick shows.
pub struct Shown {
    /// The index of the frame to show.
    pub frame: nat,
    /// Whether the resolution of transitions ran into a cycle, and was
    /// taken as if no transition had been enabled.
    pub cycle_detected: bool,
}

/// An animator as a value.
pub struct AnimatorView<H> {
    /// The graph of animations.
    pub graph: GraphView<AnimationData<H>>,
    /// The position in the animation that plays; none before the first tick.
    pub sequencer: Option<Sequencer>,
    /// The time of the first tick; none before it.
    pub last_frame_time: Option<Duration>,
    /// The node that was asked for and has not become active yet.
    pub pending: Option<Seq<char>>,
}

impl<H> AnimatorView<H> {
    /// The graph is well formed, every animation has a valid range, the
    /// sequencer is inside its range, and the node asked for is a node.
    pub open spec fn wf(self) -> bool {
        &&& self.graph.wf()
        &&& ranges_valid(self.graph.nodes)
        &&& self.sequencer is Some ==> self.sequencer.unwrap().wf()
        &&& self.pending is Some ==> self.graph.nodes.contains_key(self.pending.unwrap())
    }

    /// The animator with `name` asked for, unless `name` is active already.
    pub open spec fn asked_for(self, name: Seq<char>) -> AnimatorView<H> {
        if name == self.graph.active {
            self
        } else {
            AnimatorView { pending: Some(name), ..self }
        }
    }

    /// The animator with the sequencer at the start of the active node's animation.
    pub open spec fn resynced(self) -> AnimatorView<H> {
        AnimatorView { sequencer: Some(self.graph.active_node().data.start()), ..self }
    }

    /// The animator as a tick first makes it: with a sequencer and a time
    /// of first tick, where it had none.
    pub open spec fn begun(self, now: Duration) -> AnimatorView<H> {
        AnimatorView {
            sequencer: if self.sequencer is None {
                Some(self.graph.active_node().data.start())
            } else {
                self.sequencer
            },
            last_frame_time: if self.last_frame_time is None {
                Some(now)
            } else {
                self.last_frame_time
            },
            ..self
        }
    }

    /// The graph with the node asked for active, if one was asked for.
    pub open spec fn forced(self) -> GraphView<AnimationData<H>> {
        match self.pending {
            Some(name) => self.graph.with_active(name),
            None => self.graph,
        }
    }

    /// A tick's switch of animation for an active node without exit time,
    /// and whether the resolution ran into a cycle.
    ///
    /// The node asked for becomes active at once, then transitions are
    /// resolved from there. Where a node was asked for or the resolution
    /// made a transition, the sequencer starts the active node's animation.
    pub open spec fn cut(self) -> (AnimatorView<H>, bool) {
        let (graph, outcome) = self.forced().resolve();
        let switched = AnimatorView { graph, pending: None, ..self };
        if self.pending is Some || outcome == Ok::<bool, AnimationError>(true) {
            (switched.resynced(), outcome is Err)
        } else {
            (switched, outcome is Err)
        }
    }

    /// A tick's switch of animation for an active node with exit time, and
    /// whether the resolution ran into a cycle.
    ///
    /// Transitions are resolved only while no node is asked for. On the
    /// last frame the node asked for becomes active, if there is one, and
    /// the sequencer starts the active node's animation; on any other
    /// frame the sequencer stays and the node asked for stays pending.
    pub open spec fn finish(self) -> (AnimatorView<H>, bool) {
        let (graph, outcome) = if self.pending is None {
            self.graph.resolve()
        } else {
            (self.graph, Ok::<bool, AnimationError>(false))
        };
        let resolved = AnimatorView { graph, ..self };
        if self.sequencer.unwrap().is_last_frame() {
            (
                AnimatorView { graph: resolved.forced(), pending: None, ..self }.resynced(),
                outcome is Err,
            )
        } else {
            (resolved, outcome is Err)
        }
    }

    /// The animator at the moment a tick shows its frame, and whether the
    /// resolution ran into a cycle.
    pub open spec fn switched(self, now: Duration) -> (AnimatorView<H>, bool) {
        let begun = self.begun(now);
        if begun.graph.active_node().data.has_exit_time {
            begun.finish()
        } else {
            begun.cut()
        }
    }

    /// What a tick at time `now` shows.
    pub open spec fn shown(self, now: Duration) -> Shown {
        let (switched, cycle_detected) = self.switched(now);
        Shown { frame: switched.sequencer.unwrap().current(), cycle_detected }
    }

    /// The animator after a tick at time `now`: switched as its policy
    /// says, and one frame on from the frame shown.
    pub open spec fn tick(self, now: Duration) -> AnimatorView<H> {
        let (switched, _) = self.switched(now);
        AnimatorView { sequencer: Some(switched.sequencer.unwrap().next()), ..switched }
    }

    /// A tick leaves a well-formed animator with the same nodes and the
    /// same values of the variables.
    pub proof fn lemma_tick_keeps(self, now: Duration)
        requires
            self.wf(),
        ensures
            self.switched(now).0.wf(),
            self.switched(now).0.sequencer is Some,
            self.tick(now).wf(),
            self.tick(now).graph.nodes == self.graph.nodes,
            self.tick(now).graph.variables.floats == self.graph.variables.floats,
    {
        let begun = self.begun(now);
        assert(begun.wf());
        begun.graph.lemma_resolve_keeps();
        begun.forced().lemma_resolve_keeps();
        let switched = self.switched(now).0;
        assert(switched.wf());
        switched.sequencer.unwrap().lemma_next();
    }

    /// With exit time a request waits for the last frame: a tick that
    /// finds the animation on an earlier frame shows that frame, leaves the
    /// graph as it is and keeps the request.
    pub proof fn lemma_exit_time_defers(self, now: Duration)
        requires
            self.wf(),
            self.sequencer is Some,
            !self.sequencer.unwrap().is_last_frame(),
            self.graph.active_node().data.has_exit_time,
            self.pending is Some,
        ensures
            self.tick(now).graph == self.graph,
            self.tick(now).pending == self.pending,
            self.tick(now).sequencer == Some(self.sequencer.unwrap().next()),
            self.shown(now).frame == self.sequencer.unwrap().current(),
            !self.shown(now).cycle_detected,
    {
    }

    /// With exit time a request is served on the last frame: the tick that
    /// finds the animation there makes the node asked for active and shows
    /// the first frame of its animation.
    pub proof fn lemma_exit_time_switches(self, now: Duration)
        requires
            self.wf(),
            self.sequencer is Some,
            self.sequencer.unwrap().is_last_frame(),
            self.graph.active_node().data.has_exit_time,
            self.pending is Some,
        ensures
            self.tick(now).graph == self.graph.with_active(self.pending.unwrap()),
            self.tick(now).pending is None,
            self.shown(now).frame == self.graph.nodes[self.pending.unwrap()].data.start().current(),
    {
    }

    /// Without exit time a request is served at once: the tick spends the
    /// request and shows the first frame of the animation of the node that
    /// it leaves active.
    pub proof fn lemma_cut_switches(self, now: Duration)
        requires
            self.wf(),
            !self.graph.active_node().data.has_exit_time,
            self.pending is Some,
        ensures
            self.tick(now).pending is None,
            self.tick(now).graph == self.forced().resolve().0,
            self.shown(now).frame == self.tick(now).graph.active_node().data.start().current(),
    {
    }
}

/// What a tick hands to whoever draws: the frame to show and the data of
/// the active node.
pub struct Frame<'a, H> {
    /// The index of the frame to show.
    pub frame: usize,
    /// The data of the active node.
    pub data: &'a AnimationData<H>,
    /// Whether the resolution of transitions ran into a cycle, and was
    /// taken as if no transition had been enabled.
    pub cycle_detected: bool,
}

/// A state graph of animations together with the position in the
/// animation that plays.
pub struct Animator<H> {
    state_graph: StateGraph<AnimationData<H>>,
    frame_iterator: Option<TextureIterator>,
    last_frame_time: Option<Duration>,
    play_next: Option<String>,
}

impl<H> View for Animator<H> {
    type V = AnimatorView<H>;

    closed spec fn view(&self) -> AnimatorView<H> {
        AnimatorView {
            graph: self.state_graph@,
            sequencer: match self.frame_iterator {
                Some(iterator) => Some(iterator@),
                None => None,
            },
            last_frame_time: self.last_frame_time,
            pending: match self.play_next {
                Some(name) => Some(name@),
                None => None,
            },
        }
    }
}

impl<H> Animator<H> {
    /// The animator's invariant holds: its view is well formed.
    pub closed spec fn wf(&self) -> bool {
        &&& self.state_graph.wf()
        &&& self@.wf()
    }

    /// A well-formed animator has a well-formed view.
    pub proof fn lemma_view_wf(&self)
        requires
            self.wf(),
        ensures
            self@.wf(),
    {
    }

    /// An animator over `state_graph`, before its first tick.
    ///
    /// Refused with `InvalidRange` where the first frame of a node's
    /// animation lies after its last.
    pub fn new(state_graph: StateGraph<AnimationData<H>>) -> (created: Result<
        Animator<H>,
        AnimationError,
    >)
        requires
            state_graph.wf(),
        ensures
            match created {
                Ok(animator) => {
                    &&& ranges_valid(state_graph@.nodes)
                    &&& animator.wf()
                    &&& animator@ == (AnimatorView {
                        graph: state_graph@,
                        sequencer: None,
                        last_frame_time: None,
                        pending: None,
                    })
                },
                Err(error) => !ranges_valid(state_graph@.nodes) && error
                    == AnimationError::InvalidRange,
            },
    {
        let nodes = state_graph.nodes();
        let count = nodes.len();
        let mut index: usize = 0;
        while index < count
            invariant
                nodes.wf(),
                node_views(nodes@) == state_graph@.nodes,
                count == nodes.keys().len(),
                index <= count,
                forall|i: int|
                    0 <= i < index ==> (#[trigger] nodes.entries()[i]).data.animation.first_frame
                        <= nodes.entries()[i].data.animation.last_frame,
            decreases count - index,
        {
            let animation = &nodes.value_at(index).data.animation;
            if animation.first_frame > animation.last_frame {
                proof {
                    nodes.lemma_view();
                    let name = nodes.keys()[index as int];
                    assert(node_views(nodes@).contains_key(name));
                    assert(node_views(nodes@)[name] == nodes.entries()[index as int]@);
                }
                return Err(AnimationError::InvalidRange);
            }
            index += 1;
        }
        proof {
            nodes.lemma_view();
            assert forall|name: Seq<char>| state_graph@.nodes.contains_key(name) implies (
            #[trigger] state_graph@.nodes[name]).data.animation.first_frame
                <= state_graph@.nodes[name].data.animation.last_frame by {
                let i = choose|i: int| 0 <= i < nodes.keys().len() && nodes.keys()[i] == name;
                assert(nodes@[nodes.keys()[i]] == nodes.entries()[i]);
            }
            state_graph.lemma_view_wf();
        }
        Ok(Animator { state_graph, frame_iterator: None, last_frame_time: None, play_next: None })
    }

    /// Asks for the node `name` to become active: at the next tick where
    /// the active node has no exit time, else at the tick that finds the
    /// active animation on its last frame. A later request replaces an
    /// earlier one, and a request for the active node changes nothing.
    ///
    /// Refused with `UnknownNode` where `name` names no node; the animator
    /// then stays as it is.
    pub fn transition_to(&mut self, name: String) -> (outcome: Result<(), AnimationError>)
        requires
            old(self).wf(),
        ensures
            final(self).wf(),
            match outcome {
                Ok(_) => old(self)@.graph.nodes.contains_key(name@) && final(self)@ == old(
                    self,
                )@.asked_for(name@),
                Err(error) => !old(self)@.graph.nodes.contains_key(name@) && final(self)@ == old(
                    self,
                )@ && error == AnimationError::UnknownNode(name),
            },
    {
        if !self.state_graph.contains_node(&name) {
            return Err(AnimationError::UnknownNode(name));
        }
        let (active_name, _) = self.state_graph.get_active();
        if *active_name == name {
            return Ok(());
        }
        self.play_next = Some(name);
        Ok(())
    }

    /// Gives the variable `name` the value `value`.
    pub fn set_float(&mut self, name: String, value: Number)
        requires
            old(self).wf(),
        ensures
            final(self).wf(),
            final(self)@ == (AnimatorView {
                graph: old(self)@.graph.with_variables(
                    old(self)@.graph.variables.with_float(name@, value),
                ),
                ..old(self)@
            }),
    {
        self.state_graph.set_float(name, value);
    }

    /// Arms the trigger `name`.
    pub fn set_trigger(&mut self, name: String)
        requires
            old(self).wf(),
        ensures
            final(self).wf(),
            final(self)@ == (AnimatorView {
                graph: old(self)@.graph.with_variables(
                    old(self)@.graph.variables.with_trigger(name@),
                ),
                ..old(self)@
            }),
    {
        self.state_graph.set_trigger(name);
    }

    /// Disarms every trigger.
    pub fn reset_triggers(&mut self)
        requires
            old(self).wf(),
        ensures
            final(self).wf(),
            final(self)@ == (AnimatorView {
                graph: old(self)@.graph.with_variables(
                    old(self)@.graph.variables.without_triggers(),
                ),
                ..old(self)@
            }),
    {
        self.state_graph.reset_triggers();
    }

    /// The graph of animations.
    pub fn state_graph(&self) -> (graph: &StateGraph<AnimationData<H>>)
        requires
            self.wf(),
        ensures
            graph.wf(),
            graph@ == self@.graph,
    {
        &self.state_graph
    }

    /// The position in the animation that plays; none before the first tick.
    pub fn frame_iterator(&self) -> (iterator: Option<&TextureIterator>)
        requires
            self.wf(),
        ensures
            match iterator {
                Some(iterator) => iterator.wf() && self@.sequencer == Some(iterator@),
                None => self@.sequencer is None,
            },
    {
        self.frame_iterator.as_ref()
    }

    /// The time of the first tick; none before it.
    pub fn last_frame_time(&self) -> (time: Option<Duration>)
        ensures
            time == self@.last_frame_time,
    {
        self.last_frame_time
    }

    /// The node that was asked for and has not become active yet.
    pub fn play_next(&self) -> (name: Option<&String>)
        ensures
            match name {
                Some(name) => self@.pending == Some(name@),
                None => self@.pending is None,
            },
    {
        self.play_next.as_ref()
    }

    /// Makes the node asked for active, if one was asked for, and returns
    /// whether one was.
    fn play_pending(&mut self) -> (played: bool)
        requires
            old(self).wf(),
        ensures
            final(self).wf(),
            played == old(self)@.pending is Some,
            final(self)@ == (AnimatorView {
                graph: old(self)@.forced(),
                pending: None,
                ..old(self)@
            }),
    {
        match self.play_next.take() {
            Some(next) => {
                let _ = self.state_graph.set_active(next);
                true
            },
            None => false,
        }
    }

    /// Resolves the transitions of the graph. Returns whether a transition
    /// was made and whether the resolution ran into a cycle, which counts
    /// as no transition.
    fn resolve(&mut self) -> (outcome: (bool, bool))
        requires
            old(self).wf(),
        ensures
            final(self).wf(),
            final(self)@ == (AnimatorView { graph: old(self)@.graph.resolve().0, ..old(self)@ }),
            outcome.0 == (old(self)@.graph.resolve().1 == Ok::<bool, AnimationError>(true)),
            outcome.1 == old(self)@.graph.resolve().1 is Err,
    {
        proof {
            self@.graph.lemma_resolve_keeps();
        }
        match self.state_graph.transition_until_halt() {
            Ok(moved) => (moved, false),
            Err(_) => (false, true),
        }
    }

    /// Plays one tick at time `now`, and returns the frame to show with
    /// the data of the active node.
    ///
    /// The first tick starts the active node's animation. Where the active
    /// node has no exit time, the node asked for becomes active at once,
    /// transitions are resolved, and a switch of node starts the new
    /// animation. Where it has exit time, transitions are resolved only
    /// while no node is asked for, and only a tick that finds the
    /// animation on its last frame makes the node asked for active and
    /// starts the active node's animation. The frame shown is the current
    /// one after that; the tick ends by moving one frame on.
    ///
    /// A resolution that runs into a cycle counts as one that made no
    /// transition, and is reported in the frame.
    pub fn tick(&mut self, now: Duration) -> (shown: Frame<'_, H>)
        requires
            old(self).wf(),
        ensures
            final(self).wf(),
            final(self)@ == old(self)@.tick(now),
            shown.frame == old(self)@.shown(now).frame,
            shown.cycle_detected == old(self)@.shown(now).cycle_detected,
            *shown.data == final(self)@.graph.active_node().data,
    {
        proof {
            self@.lemma_tick_keeps(now);
        }
        if self.frame_iterator.is_none() {
            self.sync_frame_iterator();
        }
        if self.last_frame_time.is_none() {
            self.last_frame_time = Some(now);
        }
        assert(self@ == old(self)@.begun(now));
        let has_exit_time = self.state_graph.get_active().1.has_exit_time;
        let mut cycle_detected = false;
        if !has_exit_time {
            let played = self.play_pending();
            let (moved, cycle) = self.resolve();
            cycle_detected = cycle;
            if played || moved {
                self.sync_frame_iterator();
            }
        } else {
            if self.play_next.is_none() {
                let (_, cycle) = self.resolve();
                cycle_detected = cycle;
            }
            if self.on_last_frame() {
                self.play_pending();
                self.sync_frame_iterator();
            }
        }
        assert(self@ == old(self)@.switched(now).0);
        let frame = self.advance();
        let (_, data) = self.state_graph.get_active();
        Frame { frame, data, cycle_detected }
    }

    /// Whether the animation that plays is on its last frame.
    fn on_last_frame(&self) -> (last: bool)
        requires
            self.wf(),
            self@.sequencer is Some,
        ensures
            last == self@.sequencer.unwrap().is_last_frame(),
    {
        match &self.frame_iterator {
            Some(iterator) => iterator.is_last_frame(),
            None => false,
        }
    }

    /// Moves the sequencer one frame on and returns the frame that it was on.
    fn advance(&mut self) -> (frame: usize)
        requires
            old(self).wf(),
            old(self)@.sequencer is Some,
        ensures
            final(self).wf(),
            frame == old(self)@.sequencer.unwrap().current(),
            final(self)@ == (AnimatorView {
                sequencer: Some(old(self)@.sequencer.unwrap().next()),
                ..old(self)@
            }),
    {
        match &mut self.frame_iterator {
            Some(iterator) => {
                let frame = iterator.current();
                iterator.next();
                frame
            },
            None => 0,
        }
    }

    /// Puts the sequencer at the start of the active node's animation.
    fn sync_frame_iterator(&mut self)
        requires
            old(self).wf(),
        ensures
            final(self).wf(),
            final(self)@ == old(self)@.resynced(),
    {
        let (_, active_animation) = self.state_graph.get_active();
        let first_frame = active_animation.animation.first_frame;
        let last_frame = active_animation.animation.last_frame;
        if let Ok(iterator) = TextureIterator::new(first_frame, last_frame) {
            self.frame_iterator = Some(iterator);
        }
    }
}

} // verus!
