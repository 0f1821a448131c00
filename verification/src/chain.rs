//! The state of the chain: one angle and one angular velocity per link.
//!
//! The library never computes with these values. It keeps the two sequences
//! parallel, hands them to the caller's integrator link by link, and stores
//! what comes back. Their type is the caller's choice.

use vstd::prelude::*;

verus! {

/// The state of a chain as two sequences.
pub struct ChainView<T> {
    pub angles: Seq<T>,
    pub angular_velocities: Seq<T>,
}

impl<T> ChainView<T> {
    /// The chain has at least one link, and an angle and an angular velocity
    /// for each.
    pub open spec fn valid(self) -> bool {
        1 <= self.angles.len() == self.angular_velocities.len()
    }

    /// The number of links.
    pub open spec fn link_count(self) -> nat {
        self.angles.len()
    }

    /// Whether `update` may be called for every link of the chain.
    pub open spec fn steppable<F: Fn(usize, &T, &T) -> (T, T)>(self, update: F) -> bool {
        forall|i: int|
            0 <= i < self.angles.len() ==> update.requires(
                (i as usize, &#[trigger] self.angles[i], &self.angular_velocities[i]),
            )
    }

    /// Whether `next` may be the chain after one step with `update`: it has
    /// the same links, and the new angle and angular velocity of each link
    /// are what `update` returns for that link's index and its old angle and
    /// angular velocity. No link's step depends on another link.
    pub open spec fn steps_to<F: Fn(usize, &T, &T) -> (T, T)>(
        self,
        update: F,
        next: ChainView<T>,
    ) -> bool {
        &&& next.angles.len() == self.angles.len()
        &&& next.angular_velocities.len() == self.angles.len()
        &&& forall|i: int|
            0 <= i < self.angles.len() ==> update.ensures(
                (i as usize, &#[trigger] self.angles[i], &self.angular_velocities[i]),
                (next.angles[i], next.angular_velocities[i]),
            )
    }

    /// Whether `end` may be the chain after `count` steps with `update`.
    pub open spec fn reaches<F: Fn(usize, &T, &T) -> (T, T)>(
        self,
        update: F,
        count: nat,
        end: ChainView<T>,
    ) -> bool
        decreases count,
    {
        if count == 0 {
            end == self
        } else {
            exists|before: ChainView<T>|
                self.reaches(update, (count - 1) as nat, before) && #[trigger] before.steps_to(
                    update,
                    end,
                )
        }
    }

    /// Whether `total` may come of adding the first `count` links to `start`
    /// with `extend`, one by one from the first link on, each to what the
    /// links before it have come to.
    pub open spec fn accumulates<A, F: Fn(A, usize, &T) -> A>(
        self,
        extend: F,
        start: A,
        count: nat,
        total: A,
    ) -> bool
        decreases count,
    {
        if count == 0 {
            total == start
        } else {
            exists|before: A|
                self.accumulates(extend, start, (count - 1) as nat, before)
                    && #[trigger] extend.ensures(
                    (before, (count - 1) as usize, &self.angles[count - 1]),
                    total,
                )
        }
    }
}

/// Whether `update` returns one result for each argument.
pub open spec fn single_valued<T, F: Fn(usize, &T, &T) -> (T, T)>(update: F) -> bool {
    forall|link: usize, angle: T, velocity: T, first: (T, T), second: (T, T)|
        #[trigger] update.ensures((link, &angle, &velocity), first) && #[trigger] update.ensures(
            (link, &angle, &velocity),
            second,
        ) ==> first == second
}

/// A step adds no chance of its own: where the integrator returns one result
/// for each argument, a chain has one successor.
pub proof fn lemma_step_deterministic<T, F: Fn(usize, &T, &T) -> (T, T)>(
    chain: ChainView<T>,
    update: F,
    first: ChainView<T>,
    second: ChainView<T>,
)
    requires
        single_valued(update),
        chain.steps_to(update, first),
        chain.steps_to(update, second),
    ensures
        first == second,
{
    assert forall|i: int| 0 <= i < chain.angles.len() implies first.angles[i] == second.angles[i]
        && first.angular_velocities[i] == second.angular_velocities[i] by {
        let angle = chain.angles[i];
        let velocity = chain.angular_velocities[i];
        assert(update.ensures(
            (i as usize, &angle, &velocity),
            (first.angles[i], first.angular_velocities[i]),
        ));
        assert(update.ensures(
            (i as usize, &angle, &velocity),
            (second.angles[i], second.angular_velocities[i]),
        ));
    }
    assert(first.angles =~= second.angles);
    assert(first.angular_velocities =~= second.angular_velocities);
}

/// Any number of steps from one chain with one integrator that returns one
/// result for each argument lead to one chain, value for value.
pub proof fn lemma_steps_deterministic<T, F: Fn(usize, &T, &T) -> (T, T)>(
    chain: ChainView<T>,
    update: F,
    count: nat,
    first: ChainView<T>,
    second: ChainView<T>,
)
    requires
        single_valued(update),
        chain.reaches(update, count, first),
        chain.reaches(update, count, second),
    ensures
        first == second,
    decreases count,
{
    if count > 0 {
        let before_first = choose|before: ChainView<T>|
            chain.reaches(update, (count - 1) as nat, before) && #[trigger] before.steps_to(
                update,
                first,
            );
        let before_second = choose|before: ChainView<T>|
            chain.reaches(update, (count - 1) as nat, before) && #[trigger] before.steps_to(
                update,
                second,
            );
        lemma_steps_deterministic(chain, update, (count - 1) as nat, before_first, before_second);
        lemma_step_deterministic(before_first, update, first, second);
    }
}

/// Steps keep the number of links, and the two sequences parallel.
pub proof fn lemma_steps_keep_links<T, F: Fn(usize, &T, &T) -> (T, T)>(
    chain: ChainView<T>,
    update: F,
    count: nat,
    end: ChainView<T>,
)
    requires
        chain.valid(),
        chain.reaches(update, count, end),
    ensures
        end.valid(),
        end.link_count() == chain.link_count(),
    decreases count,
{
    if count > 0 {
        let before = choose|before: ChainView<T>|
            chain.reaches(update, (count - 1) as nat, before) && #[trigger] before.steps_to(
                update,
                end,
            );
        lemma_steps_keep_links(chain, update, (count - 1) as nat, before);
    }
}

/// The simulated chain.
#[derive(Debug, PartialEq)]
pub struct Chain<T> {
    angles: Vec<T>,
    angular_velocities: Vec<T>,
}

impl<T> View for Chain<T> {
    type V = ChainView<T>;

    closed spec fn view(&self) -> ChainView<T> {
        ChainView { angles: self.angles@, angular_velocities: self.angular_velocities@ }
    }
}

impl<T> Chain<T> {
    #[verifier::type_invariant]
    spec fn well_formed(self) -> bool {
        1 <= self.angles@.len() == self.angular_velocities@.len()
    }

    /// The chain with the given angles and angular velocities, one of each
    /// per link. There is none where the two differ in length or are empty.
    pub fn new(angles: Vec<T>, angular_velocities: Vec<T>) -> (chain: Option<Chain<T>>)
        ensures
            chain is Some <==> 1 <= angles@.len() == angular_velocities@.len(),
            chain matches Some(c) ==> c@ == (ChainView {
                angles: angles@,
                angular_velocities: angular_velocities@,
            }),
    {
        if angles.len() >= 1 && angles.len() == angular_velocities.len() {
            Some(Chain { angles, angular_velocities })
        } else {
            None
        }
    }

    /// The number of links.
    pub fn link_count(&self) -> (count: usize)
        ensures
            count == self@.link_count(),
            self@.valid(),
    {
        proof {
            use_type_invariant(self);
        }
        self.angles.len()
    }

    /// The angle of each link, measured from the downward vertical at the
    /// link's own pivot.
    pub fn angles(&self) -> (angles: &Vec<T>)
        ensures
            angles@ == self@.angles,
    {
        &self.angles
    }

    /// The angular velocity of each link.
    pub fn angular_velocities(&self) -> (angular_velocities: &Vec<T>)
        ensures
            angular_velocities@ == self@.angular_velocities,
    {
        &self.angular_velocities
    }

    /// Adds the links from the first up to `up_to_link`, that one included,
    /// to `start`: one by one in order, each to what the links before it have
    /// come to. `extend` is given the sum so far, the link's index and its
    /// angle. There is no result for a link that the chain does not have.
    pub fn accumulate<A, F: Fn(A, usize, &T) -> A>(
        &self,
        up_to_link: usize,
        start: A,
        extend: F,
    ) -> (total: Option<A>)
        requires
            forall|sum: A, link: usize|
                link <= up_to_link && link < self@.link_count() ==> #[trigger] extend.requires(
                    (sum, link, &self@.angles[link as int]),
                ),
        ensures
            total is Some <==> up_to_link < self@.link_count(),
            total matches Some(sum) ==> self@.accumulates(
                extend,
                start,
                (up_to_link + 1) as nat,
                sum,
            ),
    {
        if up_to_link >= self.angles.len() {
            return None;
        }
        let count: usize = up_to_link + 1;
        let mut sum = start;
        let mut link: usize = 0;
        while link < count
            invariant
                count == up_to_link + 1,
                count <= self.angles@.len(),
                0 <= link <= count,
                forall|sum: A, link: usize|
                    link <= up_to_link ==> #[trigger] extend.requires(
                        (sum, link, &self@.angles[link as int]),
                    ),
                self@.accumulates(extend, start, link as nat, sum),
            decreases count - link,
        {
            let ghost before = sum;
            sum = extend(sum, link, &self.angles[link]);
            proof {
                let count = (link + 1) as nat;
                assert((count - 1) as usize == link);
                assert(self@.accumulates(extend, start, (count - 1) as nat, before));
                assert(extend.ensures(
                    (before, (count - 1) as usize, &self@.angles[count - 1]),
                    sum,
                ));
            }
            link += 1;
        }
        Some(sum)
    }

    /// The chain after one step: every link has the angle and the angular
    /// velocity that `update` returns for the link's index and its present
    /// angle and angular velocity. The links are taken in order.
    pub(crate) fn stepped<F: Fn(usize, &T, &T) -> (T, T)>(&self, update: F) -> (next: Chain<T>)
        requires
            self@.steppable(update),
        ensures
            self@.steps_to(update, next@),
            next@.valid(),
    {
        proof {
            use_type_invariant(self);
        }
        let count = self.angles.len();
        let mut angles: Vec<T> = Vec::new();
        let mut angular_velocities: Vec<T> = Vec::new();
        let mut link: usize = 0;
        while link < count
            invariant
                count == self.angles@.len() == self.angular_velocities@.len(),
                self@.steppable(update),
                0 <= link <= count,
                angles@.len() == link,
                angular_velocities@.len() == link,
                forall|i: int|
                    0 <= i < link ==> update.ensures(
                        (i as usize, &#[trigger] self.angles@[i], &self.angular_velocities@[i]),
                        (angles@[i], angular_velocities@[i]),
                    ),
            decreases count - link,
        {
            assert(update.requires(
                (link, &self@.angles[link as int], &self@.angular_velocities[link as int]),
            ));
            let (angle, angular_velocity) = update(
                link,
                &self.angles[link],
                &self.angular_velocities[link],
            );
            angles.push(angle);
            angular_velocities.push(angular_velocity);
            link += 1;
        }
        Chain { angles, angular_velocities }
    }

    /// Advances the chain by one step, in place: every link gets the angle
    /// and the angular velocity that `update` returns for the link's index
    /// and its present angle and angular velocity. No link's step sees
    /// another link, stepped or not.
    pub fn step<F: Fn(usize, &T, &T) -> (T, T)>(&mut self, update: F)
        requires
            old(self)@.steppable(update),
        ensures
            old(self)@.steps_to(update, final(self)@),
            final(self)@.valid(),
    {
        let next = self.stepped(update);
        *self = next;
    }
}

} // verus!
