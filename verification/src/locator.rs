use vstd::prelude::*;

use crate::error::QueryError;
use crate::probe::BlockInfo;

use vstd::arithmetic::div_mod::{
    lemma_div_denominator, lemma_div_pos_is_pos, lemma_fundamental_div_mod,
    lemma_fundamental_div_mod_converse, lemma_mod_pos_bound,
};
use vstd::arithmetic::power2::{lemma2_to64, lemma_pow2_pos, lemma_pow2_unfold, pow2};

verus! {

/// The locator recorded a probe of block `n` that reported version `v` and
/// migration flag `fl`.
pub open spec fn observed(hist: Seq<(u32, u16, bool)>, n: u32, v: u16, fl: bool) -> bool {
    exists|i: int| 0 <= i < hist.len() && #[trigger] hist[i] == (n, v, fl)
}

/// The locator recorded a probe of block `n` whose state differs from the
/// pair `(v, fl)`.
pub open spec fn observed_other(hist: Seq<(u32, u16, bool)>, n: u32, v: u16, fl: bool) -> bool {
    exists|i: int|
        0 <= i < hist.len() && (#[trigger] hist[i]).0 == n && !(hist[i].1 == v && hist[i].2
            == fl)
}

proof fn lemma_observed_push(hist: Seq<(u32, u16, bool)>, e: (u32, u16, bool), n: u32, v: u16, fl: bool)
    requires
        observed(hist, n, v, fl),
    ensures
        observed(hist.push(e), n, v, fl),
{
    let i = choose|i: int| 0 <= i < hist.len() && #[trigger] hist[i] == (n, v, fl);
    assert(hist.push(e)[i] == (n, v, fl));
}

proof fn lemma_observed_other_push(
    hist: Seq<(u32, u16, bool)>,
    e: (u32, u16, bool),
    n: u32,
    v: u16,
    fl: bool,
)
    requires
        observed_other(hist, n, v, fl),
    ensures
        observed_other(hist.push(e), n, v, fl),
{
    let i = choose|i: int|
        0 <= i < hist.len() && (#[trigger] hist[i]).0 == n && !(hist[i].1 == v && hist[i].2
            == fl);
    assert(hist.push(e)[i] == hist[i]);
}

/// One bisection step at most halves the bracket, so the bound
/// `bracket <= N / 2^probes + 1` survives the step.
proof fn lemma_halving_step(init: int, k: nat, g: int, g2: int)
    requires
        init >= 1,
        g <= init / pow2(k) as int + 1,
        2 * g2 <= g + 1,
    ensures
        g2 <= init / pow2(k + 1) as int + 1,
{
    let p = pow2(k) as int;
    let p2 = pow2(k + 1) as int;
    lemma_pow2_pos(k);
    lemma_pow2_unfold(k + 1);
    lemma_div_pos_is_pos(init, p);
    let d = init / p;
    lemma_div_denominator(init, p, 2);
    lemma_fundamental_div_mod(d, 2);
    lemma_mod_pos_bound(d, 2);
    lemma_fundamental_div_mod_converse(d + 2, 2, d / 2 + 1, d % 2);
    assert(p * 2 == p2);
    assert(d / 2 == init / p2);
    assert(g2 <= d / 2 + 1);
}

/// A bracket still two blocks wide leaves room in the window: two to the
/// number of probes has not yet outgrown the window's top block.
proof fn lemma_room_for_next(init: int, k: nat, g2: int)
    requires
        init >= 1,
        g2 >= 2,
        g2 <= init / pow2(k) as int + 1,
    ensures
        pow2(k) <= init,
{
    let p = pow2(k) as int;
    lemma_pow2_pos(k);
    lemma_div_pos_is_pos(init, p);
    assert(init / p >= 1);
    lemma_fundamental_div_mod(init, p);
    lemma_mod_pos_bound(init, p);
    assert(init >= p) by (nonlinear_arith)
        requires
            init == p * (init / p) + init % p,
            init / p >= 1,
            init % p >= 0,
            p > 0,
    ;
}

/// Where the bisection stands.
#[derive(Clone, Copy, Debug)]
pub enum LocatorPhase {
    /// The bracket is still wide; the midpoint is being probed.
    Bisect,
    /// The bracket has narrowed to adjacent blocks and the block at its low
    /// end still matched; one further probe, one block back, remains.
    StepBack,
    /// The search has produced its answer.
    Done,
}

/// Bisection search over block numbers for the most recent transition into
/// the initial state.
///
/// Starting from a snapshot `initial`, the locator directs a binary search
/// over `[0, initial.block_number]` for the oldest block whose state
/// (version and migration flag) equals `initial`'s, then steps one block
/// further back, so that the state it returns is the one immediately
/// preceding the transition.  The driver repeatedly probes the block that
/// `pending_probe` names and hands the snapshot to `feed`; the search is
/// correct when the chain's state is monotone over the window (once probing
/// backward crosses from "equal to initial" to "different", it never
/// crosses back).
///
/// Each step halves the bracket, so a search over `[0, N]` costs about
/// `log2(N) + 2` probes.
pub struct MigrationBoundaryLocator {
    pub init_number: u32,
    pub init_version: u16,
    pub init_flag: bool,
    pub lower: u32,
    pub upper: u32,
    pub pending: u32,
    pub phase: LocatorPhase,
    pub hist: Ghost<Seq<(u32, u16, bool)>>,
    pub result_obs: Ghost<(u32, u16, bool)>,
}

impl MigrationBoundaryLocator {
    /// The state pair being searched for.
    pub open spec fn init_pair(&self) -> (u16, bool) {
        (self.init_version, self.init_flag)
    }

    pub open spec fn is_done(&self) -> bool {
        self.phase is Done
    }

    /// The width of the current search bracket.
    pub open spec fn gap(&self) -> int {
        self.upper - self.lower
    }

    pub open spec fn wf(&self) -> bool {
        &&& self.init_number >= 1
        &&& match self.phase {
            LocatorPhase::Bisect => {
                &&& self.lower < self.upper <= self.init_number
                &&& self.pending == (self.lower + self.upper) as int / 2
                &&& (self.upper - self.lower >= 2 || (self.lower == 0 && self.upper == 1))
                &&& self.gap() <= self.init_number as int / pow2(self.hist@.len()) as int + 1
                &&& pow2(self.hist@.len()) <= self.init_number
                &&& (self.upper == self.init_number || observed(
                    self.hist@,
                    self.upper,
                    self.init_version,
                    self.init_flag,
                ))
                &&& (self.lower == 0 || observed_other(
                    self.hist@,
                    self.lower,
                    self.init_version,
                    self.init_flag,
                ))
            },
            LocatorPhase::StepBack => {
                &&& self.pending < self.init_number
                &&& pow2(self.hist@.len()) <= 2 * self.init_number
                &&& (self.pending + 1 == self.init_number || observed(
                    self.hist@,
                    (self.pending + 1) as u32,
                    self.init_version,
                    self.init_flag,
                ))
                &&& (self.pending == 0 || observed_other(
                    self.hist@,
                    self.pending,
                    self.init_version,
                    self.init_flag,
                ))
            },
            LocatorPhase::Done => {
                let (n, v, fl) = self.result_obs@;
                &&& observed(self.hist@, n, v, fl)
                &&& n < self.init_number
                &&& pow2(self.hist@.len()) <= 4 * self.init_number
                &&& (n + 1 == self.init_number || observed(
                    self.hist@,
                    (n + 1) as u32,
                    self.init_version,
                    self.init_flag,
                ))
                &&& (n == 0 || observed_other(self.hist@, n, self.init_version, self.init_flag))
            },
        }
    }

    /// Begin the search below `initial`.  A window that contains no block
    /// before `initial` (block number zero) is rejected at once.
    pub fn new(initial: &BlockInfo) -> (r: Result<Self, QueryError>)
        ensures
            match r {
                Ok(loc) => {
                    &&& initial.block_number >= 1
                    &&& loc.wf()
                    &&& !loc.is_done()
                    &&& loc.init_number == initial.block_number
                    &&& loc.init_pair() == initial.state_pair()
                    &&& loc.hist@ == Seq::<(u32, u16, bool)>::empty()
                },
                Err(e) => e == QueryError::InvalidRange && initial.block_number == 0,
            },
    {
        if initial.block_number == 0 {
            return Err(QueryError::InvalidRange);
        }
        proof {
            lemma2_to64();
            lemma_fundamental_div_mod_converse(
                initial.block_number as int,
                1,
                initial.block_number as int,
                0,
            );
        }
        Ok(
            MigrationBoundaryLocator {
                init_number: initial.block_number,
                init_version: initial.version,
                init_flag: initial.migration_in_progress,
                lower: 0,
                upper: initial.block_number,
                pending: initial.block_number / 2,
                phase: LocatorPhase::Bisect,
                hist: Ghost(Seq::empty()),
                result_obs: Ghost((0u32, 0u16, false)),
            },
        )
    }

    /// The block whose snapshot the search needs next, or nothing once the
    /// search has finished.
    pub fn pending_probe(&self) -> (r: Option<u32>)
        ensures
            r == if self.is_done() {
                None::<u32>
            } else {
                Some(self.pending)
            },
    {
        match self.phase {
            LocatorPhase::Done => None,
            _ => Some(self.pending),
        }
    }

    /// Advance the search with the snapshot probed at the requested block.
    ///
    /// Returns the answer once the search finishes: the snapshot of the
    /// block immediately preceding the most recent transition into the
    /// initial state (or of block zero when the whole window matches).  The
    /// answer's block always lies strictly below the starting block, and
    /// while the bisection continues each step at least halves the bracket.
    pub fn feed(&mut self, info: BlockInfo) -> (r: Option<BlockInfo>)
        requires
            old(self).wf(),
            !old(self).is_done(),
            info.block_number == old(self).pending,
        ensures
            final(self).wf(),
            final(self).init_number == old(self).init_number,
            final(self).init_version == old(self).init_version,
            final(self).init_flag == old(self).init_flag,
            final(self).hist@ == old(self).hist@.push(
                (info.block_number, info.version, info.migration_in_progress),
            ),
            final(self).is_done() == (r is Some),
            match r {
                Some(out) => {
                    &&& out == info
                    &&& final(self).result_obs@ == (
                        info.block_number,
                        info.version,
                        info.migration_in_progress,
                    )
                    &&& out.block_number < old(self).init_number
                },
                None => (final(self).phase is Bisect && 2 * final(self).gap() <= old(self).gap()
                    + 1) || final(self).phase is StepBack,
            },
    {
        let n = info.block_number;
        let v = info.version;
        let fl = info.migration_in_progress;
        let ghost old_hist = self.hist@;
        let ghost old_gap = self.gap();
        let ghost k0 = old_hist.len();
        self.hist = Ghost(self.hist@.push((n, v, fl)));
        proof {
            assert(self.hist@[old_hist.len() as int] == (n, v, fl));
            assert(self.hist@.len() == k0 + 1);
            lemma_pow2_unfold(k0 + 1);
        }
        match self.phase {
            LocatorPhase::Bisect => {
                proof {
                    let l = self.lower as int;
                    let u = self.upper as int;
                    lemma_fundamental_div_mod(l + u, 2);
                    lemma_mod_pos_bound(l + u, 2);
                    if self.upper == old(self).init_number {
                    } else {
                        lemma_observed_push(
                            old_hist,
                            (n, v, fl),
                            self.upper,
                            self.init_version,
                            self.init_flag,
                        );
                    }
                    if self.lower == 0 {
                    } else {
                        lemma_observed_other_push(
                            old_hist,
                            (n, v, fl),
                            self.lower,
                            self.init_version,
                            self.init_flag,
                        );
                    }
                }
                let equiv = v == self.init_version && fl == self.init_flag;
                if equiv {
                    self.upper = n;
                } else {
                    self.lower = n;
                }
                if self.upper - self.lower <= 1 {
                    if equiv {
                        if n == 0 {
                            self.phase = LocatorPhase::Done;
                            self.result_obs = Ghost((n, v, fl));
                            Some(info)
                        } else {
                            self.phase = LocatorPhase::StepBack;
                            self.pending = n - 1;
                            None
                        }
                    } else {
                        self.phase = LocatorPhase::Done;
                        self.result_obs = Ghost((n, v, fl));
                        Some(info)
                    }
                } else {
                    proof {
                        let l = self.lower as int;
                        let u = self.upper as int;
                        lemma_fundamental_div_mod(u - l, 2);
                        lemma_mod_pos_bound(u - l, 2);
                        lemma_fundamental_div_mod_converse(
                            l + u,
                            2,
                            l + (u - l) / 2,
                            (u - l) % 2,
                        );
                        assert(2 * self.gap() <= old_gap + 1);
                        lemma_halving_step(self.init_number as int, k0, old_gap, self.gap());
                        lemma_room_for_next(self.init_number as int, k0 + 1, self.gap());
                    }
                    self.pending = self.lower + (self.upper - self.lower) / 2;
                    None
                }
            },
            LocatorPhase::StepBack => {
                proof {
                    if self.pending + 1 == self.init_number {
                    } else {
                        lemma_observed_push(
                            old_hist,
                            (n, v, fl),
                            (self.pending + 1) as u32,
                            self.init_version,
                            self.init_flag,
                        );
                    }
                    if self.pending == 0 {
                    } else {
                        lemma_observed_other_push(
                            old_hist,
                            (n, v, fl),
                            self.pending,
                            self.init_version,
                            self.init_flag,
                        );
                    }
                }
                self.phase = LocatorPhase::Done;
                self.result_obs = Ghost((n, v, fl));
                Some(info)
            },
            LocatorPhase::Done => {
                proof {
                    assert(false);
                }
                None
            },
        }
    }
}

/// Every probe the locator recorded reports exactly what the synthetic
/// state schedule `sched` assigns to that block.
pub open spec fn agrees(hist: Seq<(u32, u16, bool)>, sched: spec_fn(u32) -> (u16, bool)) -> bool {
    forall|i: int|
        0 <= i < hist.len() ==> sched((#[trigger] hist[i]).0) == (hist[i].1, hist[i].2)
}

/// Within the window ending at `init_number`, `b` is the oldest block whose
/// state equals `pair`: every block from `b` up to the window's end is
/// equivalent, every block below `b` differs.  This is the monotonicity
/// assumption the bisection relies on.
pub open spec fn lone_boundary(
    sched: spec_fn(u32) -> (u16, bool),
    init_number: u32,
    pair: (u16, bool),
    b: u32,
) -> bool {
    &&& b <= init_number
    &&& forall|n: u32| n <= init_number ==> ((#[trigger] sched(n) == pair) <==> n >= b)
}

/// Locator correctness.  If every recorded probe agrees with a schedule
/// that changes, within the search window, at exactly one (unknown) block
/// `b`, then the finished search has answered with the state of block
/// `b - 1` — the block immediately preceding the transition — or with the
/// state of block 0 when no transition exists in the window.
pub proof fn lemma_boundary_location(
    loc: &MigrationBoundaryLocator,
    sched: spec_fn(u32) -> (u16, bool),
    b: u32,
)
    requires
        loc.wf(),
        loc.is_done(),
        agrees(loc.hist@, sched),
        lone_boundary(sched, loc.init_number, loc.init_pair(), b),
    ensures
        loc.result_obs@.0 == if b == 0 {
            0int
        } else {
            b - 1
        },
        (loc.result_obs@.1, loc.result_obs@.2) == sched(loc.result_obs@.0),
{
    let hist = loc.hist@;
    let pair = loc.init_pair();
    let (n, v, fl) = loc.result_obs@;
    // The answer itself was observed, so it agrees with the schedule.
    let i = choose|i: int| 0 <= i < hist.len() && #[trigger] hist[i] == (n, v, fl);
    assert(sched(hist[i].0) == (hist[i].1, hist[i].2));
    assert(sched(n) == (v, fl));
    // The block above the answer carries the initial state.
    if n + 1 == loc.init_number {
        assert(sched(loc.init_number) == pair);
    } else {
        let j = choose|j: int|
            0 <= j < hist.len() && #[trigger] hist[j] == (
                (n + 1) as u32,
                loc.init_version,
                loc.init_flag,
            );
        assert(sched(hist[j].0) == (hist[j].1, hist[j].2));
        assert(sched((n + 1) as u32) == pair);
    }
    assert((n + 1) as u32 >= b);
    // The answer's own block differs from the initial state, unless the
    // window bottomed out at block zero.
    if n == 0 {
        assert(b <= 1);
    } else {
        let k = choose|k: int|
            0 <= k < hist.len() && (#[trigger] hist[k]).0 == n && !(hist[k].1
                == loc.init_version && hist[k].2 == loc.init_flag);
        assert(sched(hist[k].0) == (hist[k].1, hist[k].2));
        assert(sched(n) != pair);
        assert(n < b);
    }
}

/// Repetition walks strictly backward: the answer of a finished search
/// names a block strictly below the block the search started from, so
/// feeding answers back in as new starting points strictly decreases the
/// block number.
pub proof fn lemma_locator_walks_backward(loc: &MigrationBoundaryLocator)
    requires
        loc.wf(),
        loc.is_done(),
    ensures
        loc.result_obs@.0 < loc.init_number,
{
}

/// Logarithmic cost: a finished search over the window `[0, N]` recorded
/// probes numbering at most `log2(N) + 2` — stated as two to the number of
/// probes never exceeding four times the starting block number.
pub proof fn lemma_probe_count(loc: &MigrationBoundaryLocator)
    requires
        loc.wf(),
        loc.is_done(),
    ensures
        pow2(loc.hist@.len()) <= 4 * loc.init_number,
{
}

} // verus!
