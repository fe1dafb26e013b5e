//! Prospecting trails: the search that lays a trail of crumbs from the
//! prospecting point to a prize, backtracking when a crumb leads nowhere,
//! and the crumb a player is currently led to.
use vstd::prelude::*;
use vstd::arithmetic::power::{lemma_pow_positive, pow};

verus! {

/// Attempts at placing the next crumb from one crumb before giving it up.
pub const MAX_ATTEMPTS: i32 = 10;

/// Attempts at placing the prize from the last crumb before giving it up.
pub const FINAL_PRIZE_MAX_ATTEMPTS: i32 = 30;

/// A tile, in offset coordinates.
#[derive(Clone, Copy, Debug, PartialEq, Eq, Structural)]
pub struct OffsetCoordinates {
    pub x: i32,
    pub z: i32,
    pub dimension: u32,
}

/// One point of a trail being laid, with the attempts made from it.
#[derive(Clone, Copy, Debug, PartialEq, Eq, Structural)]
pub struct TrailNode {
    pub location: OffsetCoordinates,
    pub attempts: i32,
}

/// The trail laid so far: the prospecting point, then the crumbs.
pub struct TrailSearch {
    pub nodes: Vec<TrailNode>,
    pub target_crumb_count: i32,
}

/// What the search does next.
#[derive(Clone, Copy, Debug, PartialEq, Eq, Structural)]
pub enum TrailStep {
    /// Every way out of the prospecting point failed: no trail.
    Failed,
    /// The last point ran out of attempts and was dropped.
    Backtracked,
    /// Try to place a crumb from the last point.
    TryCrumb,
    /// Try to place the prize from the last crumb.
    TryPrize,
}

/// Whether the last point of a trail with `len` points places the prize.
pub open spec fn at_prize(len: int, target_crumb_count: int) -> bool {
    len > target_crumb_count
}

/// Attempts allowed from the last point of a trail with `len` points.
pub open spec fn attempt_limit(len: int, target_crumb_count: int) -> int {
    if at_prize(len, target_crumb_count) {
        FINAL_PRIZE_MAX_ATTEMPTS as int
    } else {
        MAX_ATTEMPTS as int
    }
}

/// The search after one step, and the step.
pub open spec fn stepped(nodes: Seq<TrailNode>, target_crumb_count: int) -> (Seq<TrailNode>, TrailStep) {
    if nodes.len() == 0 {
        (nodes, TrailStep::Failed)
    } else {
        let last = nodes.last();
        let tries = last.attempts + 1;
        if tries > attempt_limit(nodes.len() as int, target_crumb_count) {
            (nodes.drop_last(), TrailStep::Backtracked)
        } else {
            (
                nodes.update(nodes.len() - 1, TrailNode { attempts: tries as i32, ..last }),
                if at_prize(nodes.len() as int, target_crumb_count) { TrailStep::TryPrize } else { TrailStep::TryCrumb },
            )
        }
    }
}

/// Never more points than the crumbs plus the prospecting point, and no
/// point past its limit of attempts.
pub open spec fn nodes_well_formed(nodes: Seq<TrailNode>, target_crumb_count: int) -> bool {
    &&& nodes.len() <= target_crumb_count + 1
    &&& forall|i: int| 0 <= i < nodes.len() ==> 0 <= (#[trigger] nodes[i]).attempts <= attempt_limit(i + 1, target_crumb_count)
}

/// What is left of the search's attempts, point by point, the points
/// nearer the start weighing more (each a base of 32 above the next): over
/// the first `n` points.
pub open spec fn budget(nodes: Seq<TrailNode>, target_crumb_count: int, n: int) -> int
    decreases n,
{
    if n <= 0 {
        0
    } else {
        budget(nodes, target_crumb_count, n - 1) + (attempt_limit(n, target_crumb_count) + 1 - nodes[n - 1].attempts)
            * pow(32, (target_crumb_count + 1 - (n - 1)) as nat)
    }
}

impl TrailSearch {
    /// The search is well formed: a non-negative target, never more points
    /// than the crumbs plus the prospecting point, and no point past its
    /// limit of attempts.
    pub open spec fn well_formed(&self) -> bool {
        &&& self.target_crumb_count >= 0
        &&& nodes_well_formed(self.nodes@, self.target_crumb_count as int)
    }

    /// A search starting at the prospecting point, aiming for
    /// `target_crumb_count` crumbs before the prize.
    pub fn new(location: OffsetCoordinates, target_crumb_count: i32) -> (r: Self)
        requires
            target_crumb_count >= 0,
        ensures
            r.well_formed(),
            r.nodes@ == seq![TrailNode { location, attempts: 0 }],
            r.target_crumb_count == target_crumb_count,
    {
        let mut nodes: Vec<TrailNode> = Vec::new();
        nodes.push(TrailNode { location, attempts: 0 });
        TrailSearch { nodes, target_crumb_count }
    }

    /// Counts an attempt from the last point: drops the point once it has
    /// used up its attempts, and says what to try otherwise.
    pub fn next_attempt(&mut self) -> (r: TrailStep)
        requires
            old(self).well_formed(),
        ensures
            final(self).well_formed(),
            final(self).target_crumb_count == old(self).target_crumb_count,
            (final(self).nodes@, r) == stepped(old(self).nodes@, old(self).target_crumb_count as int),
    {
        let len = self.nodes.len();
        if len == 0 {
            return TrailStep::Failed;
        }
        let is_prize_node = len as i64 > self.target_crumb_count as i64;
        let last = self.nodes[len - 1];
        assert(last.attempts <= attempt_limit(len as int, self.target_crumb_count as int));
        let tries = last.attempts + 1;
        let limit = if is_prize_node { FINAL_PRIZE_MAX_ATTEMPTS } else { MAX_ATTEMPTS };
        if tries > limit {
            self.nodes.pop();
            return TrailStep::Backtracked;
        }
        self.nodes.set(len - 1, TrailNode { attempts: tries, ..last });
        if is_prize_node {
            TrailStep::TryPrize
        } else {
            TrailStep::TryCrumb
        }
    }

    /// Adds a crumb where the attempt just tried landed.
    pub fn accept_crumb(&mut self, location: OffsetCoordinates)
        requires
            old(self).well_formed(),
            old(self).nodes@.len() > 0,
            !at_prize(old(self).nodes@.len() as int, old(self).target_crumb_count as int),
        ensures
            final(self).well_formed(),
            final(self).target_crumb_count == old(self).target_crumb_count,
            final(self).nodes@ == old(self).nodes@.push(TrailNode { location, attempts: 0 }),
    {
        self.nodes.push(TrailNode { location, attempts: 0 });
    }

    /// The crumbs laid: every point but the prospecting point.
    pub fn crumb_locations(&self) -> (r: Vec<OffsetCoordinates>)
        ensures
            r@.len() == if self.nodes@.len() == 0 { 0 } else { self.nodes@.len() - 1 },
            forall|i: int| 0 <= i < r@.len() ==> #[trigger] r@[i] == self.nodes@[i + 1].location,
    {
        let mut r: Vec<OffsetCoordinates> = Vec::new();
        let n = self.nodes.len();
        let mut i: usize = 1;
        while i < n
            invariant
                1 <= i <= n || n == 0,
                n == self.nodes@.len(),
                r@.len() == if n == 0 { 0 } else { i - 1 },
                forall|k: int| 0 <= k < r@.len() ==> #[trigger] r@[k] == self.nodes@[k + 1].location,
            decreases n - i,
        {
            r.push(self.nodes[i].location);
            i = i + 1;
        }
        r
    }
}

impl TrailSearch {
    /// The laid trail once the prize is placed at `prize_location`: it starts
    /// at the prospecting point, its crumbs are the points after it, each with
    /// its radius (rolled by the caller within the prospecting's range), and
    /// the player is at its start.
    pub fn into_trail(
        &self,
        entity_id: u64,
        prize_location: OffsetCoordinates,
        crumb_radiuses: Vec<i32>,
        prize_entity_ids: Vec<u64>,
        join_radius: i32,
    ) -> (r: CrumbTrailState)
        requires
            self.nodes@.len() > 0,
            crumb_radiuses@.len() == self.nodes@.len() - 1,
        ensures
            r.entity_id == entity_id,
            r.original_location == self.nodes@[0].location,
            r.crumb_locations@.len() == self.nodes@.len() - 1,
            forall|i: int| 0 <= i < r.crumb_locations@.len() ==> #[trigger] r.crumb_locations@[i] == self.nodes@[i + 1].location,
            r.crumb_radiuses@ == crumb_radiuses@,
            r.prize_location == prize_location,
            r.active_step == 0,
            r.prize_entity_ids@ == prize_entity_ids@,
            r.join_radius == join_radius,
            r.clean_up_counter == 0,
    {
        CrumbTrailState {
            entity_id,
            original_location: self.nodes[0].location,
            crumb_locations: self.crumb_locations(),
            crumb_radiuses,
            prize_location,
            active_step: 0,
            prize_entity_ids,
            join_radius,
            clean_up_counter: 0,
        }
    }
}

/// Whether a site found for the next point of a trail may take it: over
/// water only where aquatic crumbs are allowed (the prize may be over
/// water), in an allowed biome, and a herd prize never over water.
pub fn trail_site_allowed(
    is_prize_node: bool,
    submerged: bool,
    biome_allowed: bool,
    allow_aquatic_bread_crumb: bool,
    herd_prize: bool,
) -> (r: bool)
    ensures
        r == (!(submerged && !is_prize_node && !allow_aquatic_bread_crumb) && biome_allowed && !(is_prize_node && herd_prize
            && submerged)),
{
    if submerged && !is_prize_node && !allow_aquatic_bread_crumb {
        return false;
    }
    if !biome_allowed {
        return false;
    }
    if is_prize_node && herd_prize && submerged {
        return false;
    }
    true
}

/// A laid trail: where it starts, its crumbs, its prize, and how far along
/// the player is.
pub struct CrumbTrailState {
    pub entity_id: u64,
    pub original_location: OffsetCoordinates,
    pub crumb_locations: Vec<OffsetCoordinates>,
    pub crumb_radiuses: Vec<i32>,
    pub prize_location: OffsetCoordinates,
    pub active_step: i32,
    pub prize_entity_ids: Vec<u64>,
    pub join_radius: i32,
    pub clean_up_counter: i32,
}

impl CrumbTrailState {
    /// Where the trail currently leads from: the prospecting point before
    /// the first step, else the crumb last reached.
    pub fn location(&self) -> (r: OffsetCoordinates)
        requires
            0 <= self.active_step <= self.crumb_locations@.len(),
        ensures
            r == if self.active_step == 0 {
                self.original_location
            } else {
                self.crumb_locations@[self.active_step - 1]
            },
    {
        if self.active_step == 0 {
            self.original_location
        } else {
            self.crumb_locations[(self.active_step - 1) as usize]
        }
    }
}

/// One step of the search: it fails only with no point left; it drops the
/// last point once that point has used up its attempts (ten from a crumb
/// or the prospecting point, thirty from the last crumb towards the
/// prize); otherwise it counts one more attempt from the last point and
/// tries the prize once all the crumbs are laid, a crumb before that.
pub proof fn law_search_step(nodes: Seq<TrailNode>, target_crumb_count: int)
    requires
        nodes_well_formed(nodes, target_crumb_count),
    ensures
        ({
            let (after, step) = stepped(nodes, target_crumb_count);
            &&& (step == TrailStep::Failed <==> nodes.len() == 0)
            &&& step == TrailStep::Backtracked ==> {
                &&& after == nodes.drop_last()
                &&& nodes.last().attempts >= (if nodes.len() > target_crumb_count { 30int } else { 10int })
            }
            &&& (step == TrailStep::TryCrumb || step == TrailStep::TryPrize) ==> {
                &&& after.len() == nodes.len()
                &&& after.last().attempts == nodes.last().attempts + 1
                &&& after.last().location == nodes.last().location
                &&& after.drop_last() == nodes.drop_last()
                &&& nodes.last().attempts < (if nodes.len() > target_crumb_count { 30int } else { 10int })
            }
            &&& (step == TrailStep::TryPrize ==> nodes.len() > target_crumb_count)
            &&& (step == TrailStep::TryCrumb ==> nodes.len() <= target_crumb_count)
        }),
{
    let (after, step) = stepped(nodes, target_crumb_count);
    if nodes.len() > 0 && step != TrailStep::Backtracked {
        assert(after.drop_last() =~= nodes.drop_last());
    }
}

/// Budgets agree over a common prefix of points.
proof fn lemma_budget_prefix(a: Seq<TrailNode>, b: Seq<TrailNode>, target_crumb_count: int, n: int)
    requires
        0 <= n <= a.len(),
        n <= b.len(),
        forall|i: int| 0 <= i < n ==> a[i] == b[i],
    ensures
        budget(a, target_crumb_count, n) == budget(b, target_crumb_count, n),
    decreases n,
{
    if n > 0 {
        lemma_budget_prefix(a, b, target_crumb_count, n - 1);
    }
}

/// The budget of a well-formed search is never negative.
proof fn lemma_budget_nonnegative(nodes: Seq<TrailNode>, target_crumb_count: int, n: int)
    requires
        nodes_well_formed(nodes, target_crumb_count),
        0 <= n <= nodes.len(),
    ensures
        budget(nodes, target_crumb_count, n) >= 0,
    decreases n,
{
    if n > 0 {
        lemma_budget_nonnegative(nodes, target_crumb_count, n - 1);
        let e = (target_crumb_count + 1 - (n - 1)) as nat;
        lemma_pow_positive(32, e);
        let k = attempt_limit(n, target_crumb_count) + 1 - nodes[n - 1].attempts;
        assert(k >= 1);
        assert(k * pow(32, e) >= 0) by (nonlinear_arith)
            requires
                k >= 1,
                pow(32, e) > 0,
        ;
    }
}

/// The search always ends: its budget is never negative, every step that
/// does not fail spends some of it, and so does a step that places a crumb
/// together with the new crumb's own attempts.
pub proof fn law_trail_search_ends(nodes: Seq<TrailNode>, target_crumb_count: int, location: OffsetCoordinates)
    requires
        target_crumb_count >= 0,
        nodes_well_formed(nodes, target_crumb_count),
        nodes.len() > 0,
    ensures
        budget(nodes, target_crumb_count, nodes.len() as int) >= 0,
        ({
            let (after, step) = stepped(nodes, target_crumb_count);
            &&& budget(after, target_crumb_count, after.len() as int) < budget(nodes, target_crumb_count, nodes.len() as int)
            &&& step == TrailStep::TryCrumb ==> {
                let grown = after.push(TrailNode { location, attempts: 0 });
                budget(grown, target_crumb_count, grown.len() as int) < budget(nodes, target_crumb_count, nodes.len() as int)
            }
        }),
{
    let n = nodes.len() as int;
    lemma_budget_nonnegative(nodes, target_crumb_count, n);
    let (after, step) = stepped(nodes, target_crumb_count);
    let e = (target_crumb_count + 1 - (n - 1)) as nat;
    lemma_pow_positive(32, e);
    let w = pow(32, e);
    let last = nodes.last();
    let lim = attempt_limit(n, target_crumb_count);
    assert(0 <= last.attempts <= lim);
    if last.attempts + 1 > lim {
        lemma_budget_prefix(after, nodes, target_crumb_count, n - 1);
        assert(budget(nodes, target_crumb_count, n) == budget(nodes, target_crumb_count, n - 1) + (lim + 1 - last.attempts) * w);
        assert((lim + 1 - last.attempts) * w > 0) by (nonlinear_arith)
            requires
                lim + 1 - last.attempts >= 1,
                w > 0,
        ;
    } else {
        lemma_budget_prefix(after, nodes, target_crumb_count, n - 1);
        assert(after[n - 1].attempts == last.attempts + 1);
        assert(budget(after, target_crumb_count, n) == budget(nodes, target_crumb_count, n - 1) + (lim - last.attempts) * w);
        assert(budget(nodes, target_crumb_count, n) == budget(nodes, target_crumb_count, n - 1) + (lim + 1 - last.attempts) * w);
        assert((lim - last.attempts) * w + w == (lim + 1 - last.attempts) * w) by (nonlinear_arith);
        if step == TrailStep::TryCrumb {
            let grown = after.push(TrailNode { location, attempts: 0 });
            lemma_budget_prefix(grown, after, target_crumb_count, n);
            let e2 = (target_crumb_count + 1 - n) as nat;
            assert(e == e2 + 1);
            reveal(pow);
            assert(w == 32 * pow(32, e2));
            lemma_pow_positive(32, e2);
            let lim2 = attempt_limit(n + 1, target_crumb_count);
            let p = pow(32, e2);
            assert(0 < lim2 + 1 <= 31);
            assert(budget(grown, target_crumb_count, n + 1) == budget(after, target_crumb_count, n) + (lim2 + 1) * p);
            assert((lim2 + 1) * p < w) by (nonlinear_arith)
                requires
                    0 < lim2 + 1 <= 31,
                    p > 0,
                    w == 32 * p,
            ;
        }
    }
}

} // verus!
