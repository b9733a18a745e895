//! The time-boxed local search: keep the best route seen until the time is
//! up.
//!
//! The optimizer does not read a clock and does not wait. Its caller tells
//! it how much time has passed, and between two such readings lets it try
//! a batch of candidates. It adopts a candidate only where the candidate
//! scores strictly higher than the best route so far, so what it hands out
//! in the end never scores lower than what it was started with.

use vstd::prelude::*;
use crate::geometry::Point;
use crate::moves::Proposer;
use crate::order::Order;
use crate::route::Route;
use crate::score::{rejection, route_score, score_route};

verus! {

/// The two states of the search.
#[derive(Debug, Clone, Copy, PartialEq, Eq, Structural)]
pub enum Phase {
    Running,
    Finished,
}

/// The optimizer as contracts see it.
pub struct OptimizerView {
    pub orders: Seq<Order>,
    pub depot: Point,
    pub deadline_ms: u128,
    pub phase: Phase,
    pub best_ids: Seq<usize>,
    pub best_path: Seq<Point>,
    pub best_score: u32,
    pub initial_score: u32,
}

impl OptimizerView {
    /// The recorded score is the score of the best route, and is no lower
    /// than the score of the route the search began with.
    pub open spec fn consistent(self) -> bool {
        &&& self.best_score == route_score(self.orders, self.best_ids, self.best_path, self.depot)
        &&& self.best_score >= self.initial_score
    }
}

/// A route together with its score.
struct Scored {
    route: Route,
    score: u32,
}

/// A search in progress. It owns the order list and the best route for as
/// long as it runs. Every optimizer is consistent at all times: see
/// `OptimizerView::consistent`.
pub struct Optimizer {
    orders: Vec<Order>,
    depot: Point,
    deadline_ms: u128,
    phase: Phase,
    best: Scored,
    initial_score: u32,
}

impl View for Optimizer {
    type V = OptimizerView;

    closed spec fn view(&self) -> OptimizerView {
        OptimizerView {
            orders: self.orders@,
            depot: self.depot,
            deadline_ms: self.deadline_ms,
            phase: self.phase,
            best_ids: self.best.route.0@,
            best_path: self.best.route.1@,
            best_score: self.best.score,
            initial_score: self.initial_score,
        }
    }
}

/// The phase after the clock has been read: finished for good once the
/// time that has passed reaches the deadline.
pub open spec fn phase_after(phase: Phase, deadline_ms: u128, elapsed_ms: u128) -> Phase {
    if phase == Phase::Finished || elapsed_ms >= deadline_ms {
        Phase::Finished
    } else {
        Phase::Running
    }
}

impl Optimizer {
    #[verifier::type_invariant]
    spec fn inv(self) -> bool {
        self@.consistent()
    }

    /// Starts a search from `initial`. The deadline is counted in
    /// milliseconds from the moment the caller measures time from.
    pub fn new(orders: Vec<Order>, depot: Point, initial: Route, deadline_ms: u128) -> (opt:
        Optimizer)
        ensures
            opt@ == (OptimizerView {
                orders: orders@,
                depot,
                deadline_ms,
                phase: Phase::Running,
                best_ids: initial.0@,
                best_path: initial.1@,
                best_score: route_score(orders@, initial.0@, initial.1@, depot) as u32,
                initial_score: route_score(orders@, initial.0@, initial.1@, depot) as u32,
            }),
            opt@.consistent(),
    {
        let score: u32 = score_route(&orders, &initial.0, &initial.1, depot);
        Optimizer {
            orders,
            depot,
            deadline_ms,
            phase: Phase::Running,
            best: Scored { route: initial, score },
            initial_score: score,
        }
    }

    /// Tells the optimizer how many milliseconds have passed. Once that
    /// reaches the deadline the search is finished and stays so.
    pub fn tick(&mut self, elapsed_ms: u128) -> (phase: Phase)
        ensures
            phase == phase_after(old(self)@.phase, old(self)@.deadline_ms, elapsed_ms),
            final(self)@ == (OptimizerView { phase, ..old(self)@ }),
            final(self)@.consistent(),
    {
        proof {
            use_type_invariant(&*self);
        }
        if elapsed_ms >= self.deadline_ms {
            self.phase = Phase::Finished;
        }
        self.phase
    }

    /// Judges one candidate. While the search runs, a candidate that
    /// scores strictly higher than the best route becomes the best route.
    /// Any other candidate is dropped, and the best route stays as it is.
    /// A rejected candidate scores zero, so it is never adopted.
    pub fn consider(&mut self, candidate: Route) -> (adopted: bool)
        ensures
            adopted == (old(self)@.phase == Phase::Running && route_score(
                old(self)@.orders,
                candidate.0@,
                candidate.1@,
                old(self)@.depot,
            ) > old(self)@.best_score),
            adopted ==> final(self)@ == (OptimizerView {
                best_ids: candidate.0@,
                best_path: candidate.1@,
                best_score: route_score(
                    old(self)@.orders,
                    candidate.0@,
                    candidate.1@,
                    old(self)@.depot,
                ) as u32,
                ..old(self)@
            }),
            !adopted ==> final(self)@ == old(self)@,
            adopted ==> rejection(
                old(self)@.orders,
                candidate.0@,
                candidate.1@,
                old(self)@.depot,
            ) is None,
            final(self)@.consistent(),
    {
        proof {
            use_type_invariant(&*self);
        }
        match self.phase {
            Phase::Finished => false,
            Phase::Running => {
                let score: u32 = score_route(&self.orders, &candidate.0, &candidate.1, self.depot);
                if score > self.best.score {
                    self.best = Scored { route: candidate, score };
                    true
                } else {
                    false
                }
            },
        }
    }

    /// Tries `rounds` candidates of the proposer, one after the other,
    /// each made from the best route at that moment, and says how many
    /// were adopted. This is the work between two readings of the clock.
    pub fn improve<P: Proposer>(&mut self, proposer: &mut P, rounds: usize) -> (adopted: usize)
        ensures
            adopted <= rounds,
            old(self)@.phase == Phase::Finished ==> adopted == 0,
            adopted == 0 ==> final(self)@ == old(self)@,
            adopted > 0 ==> final(self)@.best_score > old(self)@.best_score,
            final(self)@.orders == old(self)@.orders,
            final(self)@.depot == old(self)@.depot,
            final(self)@.deadline_ms == old(self)@.deadline_ms,
            final(self)@.phase == old(self)@.phase,
            final(self)@.initial_score == old(self)@.initial_score,
            final(self)@.consistent(),
    {
        proof {
            use_type_invariant(&*self);
        }
        let mut adopted: usize = 0;
        let mut round: usize = 0;
        while round < rounds
            invariant
                adopted <= round <= rounds,
                old(self)@.phase == Phase::Finished ==> adopted == 0,
                adopted == 0 ==> self@ == old(self)@,
                adopted > 0 ==> self@.best_score > old(self)@.best_score,
                self@.orders == old(self)@.orders,
                self@.depot == old(self)@.depot,
                self@.deadline_ms == old(self)@.deadline_ms,
                self@.phase == old(self)@.phase,
                self@.initial_score == old(self)@.initial_score,
                self@.consistent(),
            decreases rounds - round,
        {
            let candidate: Route = proposer.propose(&self.best.route);
            if self.consider(candidate) {
                adopted += 1;
            }
            round += 1;
        }
        adopted
    }

    /// The state the search is in.
    pub fn phase(&self) -> (phase: Phase)
        ensures
            phase == self@.phase,
    {
        self.phase
    }

    /// The best route seen so far.
    pub fn best(&self) -> (route: &Route)
        ensures
            route.0@ == self@.best_ids,
            route.1@ == self@.best_path,
            self@.consistent(),
    {
        proof {
            use_type_invariant(self);
        }
        &self.best.route
    }

    /// The score of the best route seen so far.
    pub fn best_score(&self) -> (score: u32)
        ensures
            score == self@.best_score,
            score == route_score(self@.orders, self@.best_ids, self@.best_path, self@.depot),
            score >= self@.initial_score,
    {
        proof {
            use_type_invariant(self);
        }
        self.best.score
    }

    /// The score of the route the search began with.
    pub fn initial_score(&self) -> (score: u32)
        ensures
            score == self@.initial_score,
    {
        self.initial_score
    }

    /// Ends the search and hands out the best route seen. Its score is no
    /// lower than that of the route the search began with.
    pub fn finish(self) -> (route: Route)
        ensures
            route.0@ == self@.best_ids,
            route.1@ == self@.best_path,
            route_score(self@.orders, route.0@, route.1@, self@.depot) == self@.best_score,
            route_score(self@.orders, route.0@, route.1@, self@.depot) >= self@.initial_score,
    {
        proof {
            use_type_invariant(&self);
        }
        self.best.route
    }
}

} // verus!
