//! The frame driver: the state machine that input actions move, and the tick
//! that advances the chain, unless paused, and composes the next frame.
//!
//! The driver owns the chain for the whole run. It decides when the caller's
//! integrator runs, and asks the caller's geometry where each joint lies at
//! the extent of the viewport in force.

use vstd::prelude::*;
use crate::chain::Chain;
use crate::paint::{paints, PaintOp};
use crate::scene::{frame_paints, render};
use crate::viewport::Viewport;

verus! {

/// A decoded input action. `Idle` stands for a tick on which no input was
/// pending.
#[derive(Clone, Copy, Debug, PartialEq, Eq, Structural)]
pub enum Action {
    Quit,
    TogglePause,
    SelectLink(usize),
    Resize(u16, u16),
    Idle,
}

/// The state of the run. `Terminated` is final.
#[derive(Clone, Copy, Debug, PartialEq, Eq, Structural)]
pub enum RunState {
    Running,
    Paused,
    Terminated,
}

/// What the state machine holds, as plain values.
pub struct ControlView {
    pub state: RunState,
    pub link_count: nat,
    pub selected_link: nat,
    pub viewport: Viewport,
}

impl ControlView {
    /// There is at least one link, and the selected link is one of them.
    pub open spec fn valid(self) -> bool {
        1 <= self.link_count && self.selected_link < self.link_count
    }

    /// The transition that an action causes.
    ///
    /// Nothing leaves `Terminated`. From the other states, `Quit` terminates,
    /// `TogglePause` switches between `Running` and `Paused`, a selection
    /// takes effect where it names a link and is ignored otherwise, and a
    /// change of size replaces the viewport and keeps its margin.
    pub open spec fn after(self, action: Action) -> ControlView {
        if self.state is Terminated {
            self
        } else {
            match action {
                Action::Quit => ControlView { state: RunState::Terminated, ..self },
                Action::TogglePause => ControlView {
                    state: if self.state is Running {
                        RunState::Paused
                    } else {
                        RunState::Running
                    },
                    ..self
                },
                Action::SelectLink(index) => if index < self.link_count {
                    ControlView { selected_link: index as nat, ..self }
                } else {
                    self
                },
                Action::Resize(width, height) => ControlView {
                    viewport: Viewport { width, height, margin: self.viewport.margin },
                    ..self
                },
                Action::Idle => self,
            }
        }
    }

    /// Whether a tick that ends in this state advances the chain.
    pub open spec fn advances(self) -> bool {
        self.state is Running
    }

    /// Whether a tick that ends in this state draws a frame.
    pub open spec fn draws(self) -> bool {
        !(self.state is Terminated)
    }
}

/// A transition keeps the state machine valid and the number of links.
pub proof fn lemma_after_keeps_valid(control: ControlView, action: Action)
    requires
        control.valid(),
    ensures
        control.after(action).valid(),
        control.after(action).link_count == control.link_count,
        control.after(action).viewport.margin == control.viewport.margin,
{
}

/// Nothing leaves `Terminated`, and `Quit` leads there from every state.
pub proof fn lemma_terminated_is_final(control: ControlView, action: Action)
    ensures
        control.state is Terminated ==> control.after(action) == control,
        control.after(Action::Quit).state is Terminated,
{
}

/// Pausing twice in a row changes nothing.
pub proof fn lemma_toggle_twice(control: ControlView)
    ensures
        control.after(Action::TogglePause).after(Action::TogglePause) == control,
{
}

/// A selection outside the chain is ignored: the state machine stays as it
/// is, selected link included.
pub proof fn lemma_invalid_selection_ignored(control: ControlView, index: usize)
    requires
        index >= control.link_count,
    ensures
        control.after(Action::SelectLink(index)) == control,
{
}

/// A selection inside the chain takes effect while the run goes on, and
/// changes nothing else.
pub proof fn lemma_valid_selection_taken(control: ControlView, index: usize)
    requires
        index < control.link_count,
        control.draws(),
    ensures
        control.after(Action::SelectLink(index)) == (ControlView {
            selected_link: index as nat,
            ..control
        }),
{
}

/// While the run goes on, a change of size replaces centre and extent by
/// those of the new size at once, and leaves run state and selection alone.
pub proof fn lemma_resize_replaces_viewport(control: ControlView, width: u16, height: u16)
    requires
        control.draws(),
    ensures
        ({
            let resized = control.after(Action::Resize(width, height));
            let viewport = Viewport { width, height, margin: control.viewport.margin };
            &&& resized == (ControlView { viewport, ..control })
            &&& resized.viewport.center_point() == (width as int / 2, height as int / 2)
            &&& resized.viewport.extent() == viewport.extent()
        }),
{
}

/// The state machine of the frame driver: run state, selection and viewport.
#[derive(Clone, Copy, Debug)]
pub struct Control {
    state: RunState,
    link_count: usize,
    selected_link: usize,
    viewport: Viewport,
}

impl View for Control {
    type V = ControlView;

    closed spec fn view(&self) -> ControlView {
        ControlView {
            state: self.state,
            link_count: self.link_count as nat,
            selected_link: self.selected_link as nat,
            viewport: self.viewport,
        }
    }
}

impl Control {
    #[verifier::type_invariant]
    spec fn well_formed(self) -> bool {
        1 <= self.link_count && self.selected_link < self.link_count
    }

    /// A running state machine for a chain of `link_count` links, with the
    /// first link selected. There is none for a chain without links.
    pub fn new(link_count: usize, viewport: Viewport) -> (control: Option<Control>)
        ensures
            link_count == 0 <==> control is None,
            control matches Some(c) ==> c@ == (ControlView {
                state: RunState::Running,
                link_count: link_count as nat,
                selected_link: 0,
                viewport,
            }),
    {
        if link_count == 0 {
            None
        } else {
            Some(Control { state: RunState::Running, link_count, selected_link: 0, viewport })
        }
    }

    /// The state of the run.
    pub fn state(&self) -> (state: RunState)
        ensures
            state == self@.state,
    {
        self.state
    }

    /// The number of links that a selection may name.
    pub fn link_count(&self) -> (count: usize)
        ensures
            count == self@.link_count,
            count >= 1,
    {
        proof {
            use_type_invariant(self);
        }
        self.link_count
    }

    /// The link that is drawn highlighted.
    pub fn selected_link(&self) -> (index: usize)
        ensures
            index == self@.selected_link,
            index < self@.link_count,
    {
        proof {
            use_type_invariant(self);
        }
        self.selected_link
    }

    /// The viewport in force.
    pub fn viewport(&self) -> (viewport: Viewport)
        ensures
            viewport == self@.viewport,
    {
        self.viewport
    }

    /// Whether the run is paused.
    pub fn is_paused(&self) -> (paused: bool)
        ensures
            paused == (self@.state is Paused),
    {
        match self.state {
            RunState::Paused => true,
            _ => false,
        }
    }

    /// Applies the transition that the action causes.
    pub fn apply(&mut self, action: Action)
        ensures
            final(self)@ == old(self)@.after(action),
            final(self)@.valid(),
    {
        proof {
            use_type_invariant(&*self);
        }
        match self.state {
            RunState::Terminated => {},
            _ => {
                match action {
                    Action::Quit => {
                        self.state = RunState::Terminated;
                    },
                    Action::TogglePause => {
                        self.state = match self.state {
                            RunState::Running => RunState::Paused,
                            _ => RunState::Running,
                        };
                    },
                    Action::SelectLink(index) => {
                        if index < self.link_count {
                            self.selected_link = index;
                        }
                    },
                    Action::Resize(width, height) => {
                        self.viewport = self.viewport.resized(width, height);
                    },
                    Action::Idle => {},
                }
            },
        }
    }
}

/// What the driver holds: the state machine and the chain.
pub struct DriverView<C> {
    pub control: ControlView,
    pub chain: C,
}

impl<C> DriverView<C> {
    /// The driver after one tick with the given action, where `stepped` is
    /// what the integrator returns for the stored chain. The integrator's
    /// result is kept where the tick ends in `Running`, and only there.
    pub open spec fn ticked(self, action: Action, stepped: C) -> DriverView<C> {
        let control = self.control.after(action);
        DriverView { control, chain: if control.advances() { stepped } else { self.chain } }
    }

    /// The driver after one tick for each of `actions`, in order, where
    /// `stepped[i]` is what the integrator returns on tick `i`.
    pub open spec fn run(self, actions: Seq<Action>, stepped: Seq<C>) -> DriverView<C>
        decreases actions.len(),
    {
        if actions.len() == 0 {
            self
        } else {
            self.run(actions.drop_last(), stepped.drop_last()).ticked(
                actions.last(),
                stepped.last(),
            )
        }
    }
}

/// However many ticks pass while the run does not go on and no action
/// resumes it, the chain stays exactly as it was, whatever the integrator
/// would have returned, and the run still does not go on.
pub proof fn lemma_paused_run_keeps_chain<C>(
    driver: DriverView<C>,
    actions: Seq<Action>,
    stepped: Seq<C>,
)
    requires
        !driver.control.advances(),
        forall|i: int| 0 <= i < actions.len() ==> actions[i] != Action::TogglePause,
    ensures
        driver.run(actions, stepped).chain == driver.chain,
        !driver.run(actions, stepped).control.advances(),
    decreases actions.len(),
{
    if actions.len() > 0 {
        lemma_paused_run_keeps_chain(driver, actions.drop_last(), stepped.drop_last());
    }
}

/// A run of ticks can be cut anywhere: the ticks after the cut go on from
/// the state that the ticks before it have left.
pub proof fn lemma_run_splits<C>(
    driver: DriverView<C>,
    first: Seq<Action>,
    first_stepped: Seq<C>,
    rest: Seq<Action>,
    rest_stepped: Seq<C>,
)
    requires
        first.len() == first_stepped.len(),
        rest.len() == rest_stepped.len(),
    ensures
        driver.run(first + rest, first_stepped + rest_stepped) == driver.run(
            first,
            first_stepped,
        ).run(rest, rest_stepped),
    decreases rest.len(),
{
    if rest.len() == 0 {
        assert(first + rest =~= first);
        assert(first_stepped + rest_stepped =~= first_stepped);
    } else {
        lemma_run_splits(
            driver,
            first,
            first_stepped,
            rest.drop_last(),
            rest_stepped.drop_last(),
        );
        assert((first + rest).drop_last() =~= first + rest.drop_last());
        assert((first_stepped + rest_stepped).drop_last() =~= first_stepped
            + rest_stepped.drop_last());
    }
}

/// Resuming after a pause continues from exactly the chain that was paused:
/// the ticks spent paused leave no trace in what the later ticks compute.
pub proof fn lemma_resume_continues<C>(
    driver: DriverView<C>,
    paused: Seq<Action>,
    paused_stepped: Seq<C>,
    rest: Seq<Action>,
    rest_stepped: Seq<C>,
)
    requires
        !driver.control.advances(),
        forall|i: int| 0 <= i < paused.len() ==> paused[i] != Action::TogglePause,
        paused.len() == paused_stepped.len(),
        rest.len() == rest_stepped.len(),
    ensures
        driver.run(paused + rest, paused_stepped + rest_stepped) == (DriverView {
            control: driver.run(paused, paused_stepped).control,
            chain: driver.chain,
        }).run(rest, rest_stepped),
{
    lemma_paused_run_keeps_chain(driver, paused, paused_stepped);
    lemma_run_splits(driver, paused, paused_stepped, rest, rest_stepped);
}

/// The chain after `times` applications of `step`.
pub open spec fn iterated<C>(step: spec_fn(C) -> C, times: nat, chain: C) -> C
    decreases times,
{
    if times == 0 {
        chain
    } else {
        step(iterated(step, (times - 1) as nat, chain))
    }
}

/// While the run goes on unpaused, every tick applies the integrator exactly
/// once to what the tick before has left: after `n` ticks the chain is the
/// `n`-th iterate of the integrator on the chain at the start, with no step
/// skipped and none taken twice.
pub proof fn lemma_running_ticks_iterate<C>(
    driver: DriverView<C>,
    step: spec_fn(C) -> C,
    actions: Seq<Action>,
    stepped: Seq<C>,
)
    requires
        driver.control.advances(),
        actions.len() == stepped.len(),
        forall|i: int|
            0 <= i < actions.len() ==> actions[i] != Action::TogglePause && actions[i]
                != Action::Quit,
        forall|i: int|
            0 <= i < stepped.len() ==> #[trigger] stepped[i] == step(
                driver.run(actions.take(i), stepped.take(i)).chain,
            ),
    ensures
        driver.run(actions, stepped).control.advances(),
        driver.run(actions, stepped).chain == iterated(step, actions.len(), driver.chain),
    decreases actions.len(),
{
    if actions.len() > 0 {
        let n = actions.len() - 1;
        let front = actions.drop_last();
        let front_stepped = stepped.drop_last();
        assert forall|i: int| 0 <= i < front_stepped.len() implies #[trigger] front_stepped[i]
            == step(driver.run(front.take(i), front_stepped.take(i)).chain) by {
            assert(front.take(i) =~= actions.take(i));
            assert(front_stepped.take(i) =~= stepped.take(i));
            assert(front_stepped[i] == stepped[i]);
        }
        lemma_running_ticks_iterate(driver, step, front, front_stepped);
        assert(actions.take(n) =~= front);
        assert(stepped.take(n) =~= front_stepped);
        assert(stepped[n] == step(driver.run(front, front_stepped).chain));
    }
}

impl<T> DriverView<Chain<T>> {
    /// The state machine counts the links that the chain has.
    pub open spec fn valid(self) -> bool {
        &&& self.control.valid()
        &&& self.chain@.valid()
        &&& self.control.link_count == self.chain@.link_count()
    }

    /// Whether `next` may be the chain after a tick with the given action and
    /// integrator: where the tick ends in `Running`, the chain has taken one
    /// step; otherwise it is the stored chain.
    pub open spec fn steps_to<F: Fn(usize, &T, &T) -> (T, T)>(
        self,
        action: Action,
        update: F,
        next: Chain<T>,
    ) -> bool {
        if self.control.after(action).advances() {
            self.chain@.steps_to(update, next@)
        } else {
            next == self.chain
        }
    }
}

/// Whether `offsets` holds, for each link of the chain in order, an offset
/// that `locate` gives for the link's joint at the given extent.
pub open spec fn located<T, L: Fn(&Chain<T>, usize, i32) -> (i16, i16)>(
    chain: Chain<T>,
    extent: i32,
    locate: L,
    offsets: Seq<(i16, i16)>,
) -> bool {
    &&& offsets.len() == chain@.link_count()
    &&& forall|link: int|
        0 <= link < offsets.len() ==> locate.ensures(
            (&chain, link as usize, extent),
            #[trigger] offsets[link],
        )
}

/// The frame driver. It owns the chain for the whole run.
pub struct Driver<T> {
    control: Control,
    chain: Chain<T>,
}

impl<T> View for Driver<T> {
    type V = DriverView<Chain<T>>;

    closed spec fn view(&self) -> DriverView<Chain<T>> {
        DriverView { control: self.control@, chain: self.chain }
    }
}

impl<T> Driver<T> {
    #[verifier::type_invariant]
    spec fn well_formed(self) -> bool {
        self.control@.link_count == self.chain@.link_count()
    }

    /// A running driver for the chain, with the first link selected.
    pub fn new(chain: Chain<T>, viewport: Viewport) -> (driver: Driver<T>)
        ensures
            driver@.valid(),
            driver@ == (DriverView {
                control: ControlView {
                    state: RunState::Running,
                    link_count: chain@.link_count(),
                    selected_link: 0,
                    viewport,
                },
                chain,
            }),
    {
        let link_count = chain.link_count();
        Driver {
            control: Control { state: RunState::Running, link_count, selected_link: 0, viewport },
            chain,
        }
    }

    /// The state machine: run state, selection and viewport.
    pub fn control(&self) -> (control: &Control)
        ensures
            control@ == self@.control,
    {
        &self.control
    }

    /// The number of links, which the chain and the state machine agree on.
    pub fn link_count(&self) -> (count: usize)
        ensures
            count == self@.chain@.link_count(),
            self@.valid(),
    {
        proof {
            use_type_invariant(self);
            use_type_invariant(&self.control);
        }
        self.chain.link_count()
    }

    /// The chain as the last tick has left it.
    pub fn chain(&self) -> (chain: &Chain<T>)
        ensures
            *chain == self@.chain,
    {
        &self.chain
    }

    /// One tick: applies the action's transition; then, unless the run has
    /// terminated, lets the chain take one step with `update` if the run is
    /// not paused, and composes the frame from the offsets that `locate`
    /// gives for each joint of the chain at the viewport's extent.
    ///
    /// The result is the frame, or `None` once the run has terminated.
    pub fn tick<F, L>(&mut self, action: Action, update: F, locate: L) -> (frame: Option<
        Vec<PaintOp>,
    >) where F: Fn(usize, &T, &T) -> (T, T), L: Fn(&Chain<T>, usize, i32) -> (i16, i16)
        requires
            old(self)@.control.after(action).advances() ==> old(self)@.chain@.steppable(update),
            forall|next: Chain<T>, link: usize|
                old(self)@.control.after(action).draws() && #[trigger] old(self)@.steps_to(
                    action,
                    update,
                    next,
                ) && link < next@.link_count() ==> #[trigger] locate.requires(
                    (&next, link, old(self)@.control.after(action).viewport.extent() as i32),
                ),
        ensures
            final(self)@ == old(self)@.ticked(action, final(self)@.chain),
            final(self)@.valid(),
            old(self)@.steps_to(action, update, final(self)@.chain),
            frame is Some <==> final(self)@.control.draws(),
            frame matches Some(ops) ==> exists|offsets: Seq<(i16, i16)>|
                {
                    &&& located(
                        final(self)@.chain,
                        final(self)@.control.viewport.extent() as i32,
                        locate,
                        offsets,
                    )
                    &&& paints(ops@) == frame_paints(
                        final(self)@.control.viewport,
                        offsets,
                        final(self)@.control.selected_link as int,
                    )
                },
    {
        proof {
            use_type_invariant(&*self);
        }
        let count = self.chain.link_count();
        let mut control = self.control;
        control.apply(action);
        self.control = control;
        match self.control.state() {
            RunState::Terminated => None,
            state => {
                match state {
                    RunState::Running => {
                        let next = self.chain.stepped(update);
                        self.chain = next;
                    },
                    _ => {},
                }
                let viewport = self.control.viewport();
                let extent = viewport.render_extent();
                assert forall|l: usize| l < count implies #[trigger] locate.requires(
                    (&self.chain, l, extent),
                ) by {
                    assert(old(self)@.steps_to(action, update, self.chain));
                    assert(extent == old(self)@.control.after(action).viewport.extent() as i32);
                }
                let mut offsets: Vec<(i16, i16)> = Vec::new();
                let mut link: usize = 0;
                while link < count
                    invariant
                        0 <= link <= count,
                        count == self.chain@.link_count(),
                        offsets@.len() == link,
                        forall|l: usize|
                            l < count ==> #[trigger] locate.requires((&self.chain, l, extent)),
                        forall|l: int|
                            0 <= l < link ==> locate.ensures(
                                (&self.chain, l as usize, extent),
                                #[trigger] offsets@[l],
                            ),
                    decreases count - link,
                {
                    offsets.push(locate(&self.chain, link, extent));
                    link += 1;
                }
                proof {
                    assert(located(self.chain, extent, locate, offsets@));
                }
                Some(render(&viewport, &offsets, self.control.selected_link()))
            },
        }
    }
}

} // verus!
