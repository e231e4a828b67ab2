//! The Monte Carlo tree search engine.
//!
//! `search` builds a fresh tree rooted at the caller's state, runs a
//! fixed number of iterations of selection (by UCT priority),
//! expansion, uniformly-random simulation, and backpropagation, and
//! returns the action of the most-visited root child.
//!
//! The tree lives in a flat, append-only arena: nodes are addressed by
//! index, a child's index is always greater than its parent's, and the
//! arena is rebuilt from empty on every call.

use vstd::prelude::*;

pub mod rng;
pub mod uct;

use crate::game::{Game, GameResult, Player, MAX_ABS_REWARD};
use crate::mcts::rng::{rng_new, rng_usize_below, rng_with_seed};
use crate::mcts::uct::{spec_uct, uct_le, uct_le_exec, uct_score, UctScore};

verus! {

/// One vertex of the search tree.
struct Node<G> {
    /// The game state this node stands for; owned by the arena and
    /// never mutated after the node is created.
    state: G,
    /// The action that led from the parent here; `None` for the root.
    action: Option<usize>,
    /// The index of the parent node; `None` for the root.
    parent: Option<usize>,
    /// Indices of the children, in order of expansion.
    children: Vec<usize>,
    /// How many backpropagation passes touched this node.
    visits: u64,
    /// The reward mass accumulated by those passes.
    reward: i64,
    /// The legal actions not yet expanded into a child; expansion pops
    /// from the end, so this stays a prefix of the state's actions.
    untried_actions: Vec<usize>,
}

/// The `k`-th child reference of node `i` is consistent: it points
/// forward in the arena, back-links to `i`, carries the action it was
/// expanded with, and comes after all earlier children.
spec fn child_ok<G: Game>(ns: Seq<Node<G>>, i: int, k: int) -> bool {
    let n = ns[i];
    let acts = n.state.spec_actions();
    let c = n.children@[k];
    &&& i < c < ns.len()
    &&& ns[c as int].parent matches Some(p) && p as int == i
    &&& ns[c as int].action == Some(acts[acts.len() - 1 - k])
    &&& forall|j: int| 0 <= j < k ==> n.children@[j] < c
}

/// Local well-formedness of node `i`: a valid state, untried actions
/// forming a prefix of the state's legal actions, exactly one child
/// per already-tried action, consistent child references, and visit
/// and reward counters within the bounds backpropagation maintains.
spec fn node_wf<G: Game>(ns: Seq<Node<G>>, i: int) -> bool {
    let n = ns[i];
    let acts = n.state.spec_actions();
    &&& n.state.inv()
    &&& n.untried_actions@ == acts.take(n.untried_actions@.len() as int)
    &&& n.untried_actions@.len() + n.children@.len() == acts.len()
    &&& n.visits <= ns[0].visits
    &&& -2 * MAX_ABS_REWARD * n.visits <= n.reward <= 2 * MAX_ABS_REWARD * n.visits
    &&& forall|k: int| 0 <= k < n.children@.len() ==> #[trigger] child_ok(ns, i, k)
}

/// Well-formedness of the whole arena.
spec fn arena_wf<G: Game>(ns: Seq<Node<G>>) -> bool {
    &&& 1 <= ns.len()
    &&& ns[0].parent is None
    &&& ns[0].action is None
    &&& ns[0].visits <= u32::MAX
    &&& forall|i: int|
        1 <= i < ns.len() ==> ((#[trigger] ns[i].parent) matches Some(p) && (p as int) < i)
    &&& forall|i: int| 0 <= i < ns.len() ==> node_wf(ns, i)
}

/// The sum of the visit counters of the nodes listed in `cs`.
spec fn visits_sum<G>(ns: Seq<Node<G>>, cs: Seq<usize>) -> int
    decreases cs.len(),
{
    if cs.len() == 0 {
        0
    } else {
        visits_sum(ns, cs.drop_last()) + ns[cs.last() as int].visits
    }
}

/// If the listed nodes have the same visit counters in two arenas, the
/// sums agree.
proof fn lemma_visits_sum_same<G>(ns1: Seq<Node<G>>, ns2: Seq<Node<G>>, cs: Seq<usize>)
    requires
        forall|k: int|
            0 <= k < cs.len() ==> ns2[#[trigger] cs[k] as int].visits == ns1[cs[k] as int].visits,
    ensures
        visits_sum(ns2, cs) == visits_sum(ns1, cs),
    decreases cs.len(),
{
    if cs.len() > 0 {
        lemma_visits_sum_same(ns1, ns2, cs.drop_last());
    }
}

/// Appending a node index adds its visit counter to the sum.
proof fn lemma_visits_sum_push<G>(ns: Seq<Node<G>>, cs: Seq<usize>, c: usize)
    ensures
        visits_sum(ns, cs.push(c)) == visits_sum(ns, cs) + ns[c as int].visits,
{
    assert(cs.push(c).drop_last() =~= cs);
    assert(cs.push(c).last() == c);
}

/// If at most one of the listed nodes gained one visit and the others
/// kept theirs, the sum grows by at most one.
proof fn lemma_visits_sum_le_bump<G>(ns1: Seq<Node<G>>, ns2: Seq<Node<G>>, cs: Seq<usize>)
    requires
        forall|k: int|
            0 <= k < cs.len() ==> ns2[#[trigger] cs[k] as int].visits == ns1[cs[k] as int].visits
                || ns2[cs[k] as int].visits == ns1[cs[k] as int].visits + 1,
        forall|k1: int, k2: int|
            0 <= k1 < cs.len() && 0 <= k2 < cs.len() && k1 != k2 ==> !(ns2[#[trigger] cs[k1] as int].visits
                != ns1[cs[k1] as int].visits && ns2[#[trigger] cs[k2] as int].visits != ns1[cs[k2]
                as int].visits),
    ensures
        visits_sum(ns2, cs) <= visits_sum(ns1, cs) + 1,
    decreases cs.len(),
{
    if cs.len() > 0 {
        let rest = cs.drop_last();
        let last = cs.last();
        if ns2[last as int].visits == ns1[last as int].visits + 1 {
            assert forall|k: int| 0 <= k < rest.len() implies ns2[#[trigger] rest[k] as int].visits
                == ns1[rest[k] as int].visits by {
                assert(cs[k] == rest[k]);
                assert(cs[cs.len() - 1] == last);
            }
            lemma_visits_sum_same(ns1, ns2, rest);
        } else {
            lemma_visits_sum_le_bump(ns1, ns2, rest);
        }
    }
}

/// Node `i` gained a visit between the two arena snapshots.
spec fn bumped<G>(ns1: Seq<Node<G>>, ns2: Seq<Node<G>>, i: int) -> bool {
    ns2[i].visits != ns1[i].visits
}

/// What backpropagation of outcome `o` may do to node `i`: every field
/// but the counters is untouched, the visit counter grows by at most
/// one, and the reward moves exactly by the outcome's increment when
/// it does.
spec fn backup_frame<G: Game>(
    ns0: Seq<Node<G>>,
    ns: Seq<Node<G>>,
    i: int,
    o: GameResult,
    r0: int,
) -> bool {
    &&& ns[i].state == ns0[i].state
    &&& ns[i].action == ns0[i].action
    &&& ns[i].parent == ns0[i].parent
    &&& ns[i].children == ns0[i].children
    &&& ns[i].untried_actions == ns0[i].untried_actions
    &&& (ns[i].visits == ns0[i].visits || ns[i].visits == ns0[i].visits + 1)
    &&& (ns[i].visits == ns0[i].visits ==> ns[i].reward == ns0[i].reward)
    &&& (ns[i].visits == ns0[i].visits + 1 ==> ns[i].reward == ns0[i].reward + reward_delta(
        o,
        node_actor(ns0, i),
        r0,
    ))
}

/// The actor credited at a node during backpropagation: the player
/// who made the move leading into the node, i.e. the opponent of the
/// player to move at the node.
spec fn node_actor<G: Game>(ns: Seq<Node<G>>, i: int) -> Player {
    ns[i].state.spec_player().spec_opponent()
}

/// The reward increment backpropagation adds at a node with actor
/// `actor`, for outcome `o`, given the reward `r0` observed at the
/// root when the iteration started.  A win for the actor is worth 2
/// units (half-win fixed point), a draw 1; a reward-bearing end
/// contributes the delta against `r0`.
pub open spec fn reward_delta(o: GameResult, actor: Player, r0: int) -> int {
    match o {
        GameResult::Win(w) => if w == actor {
            2
        } else {
            0
        },
        GameResult::Draw => 1,
        GameResult::End(x) => x - r0,
    }
}

/// For adversarial outcomes the backpropagated increment is exactly 0,
/// a half win, or a full win; for reward-bearing outcomes it is
/// exactly the delta between the terminal reward and the reward at the
/// start of the iteration.
pub proof fn lemma_reward_delta_bounds(o: GameResult, actor: Player, r0: int)
    ensures
        o is Win ==> reward_delta(o, actor, r0) == 0 || reward_delta(o, actor, r0) == 2,
        o is Draw ==> reward_delta(o, actor, r0) == 1,
        o matches GameResult::End(x) ==> reward_delta(o, actor, r0) == x - r0,
{
}

/// A Monte Carlo tree search agent: an iteration budget, a seedable
/// random generator for simulations, and the node arena, rebuilt on
/// every call to `search`.
pub struct Mcts<G: Game> {
    nodes: Vec<Node<G>>,
    iters: u32,
    rng: fastrand::Rng,
}

/// The sum of a sequence of counters.
pub open spec fn seq_sum(s: Seq<u64>) -> int
    decreases s.len(),
{
    if s.len() == 0 {
        0
    } else {
        seq_sum(s.drop_last()) + s.last()
    }
}

impl<G: Game> Mcts<G> {
    /// The iteration budget this agent runs per search.
    pub closed spec fn iterations(&self) -> u32 {
        self.iters
    }

    /// The search tree left by the last `search` call is well formed.
    pub closed spec fn tree_wf(&self) -> bool {
        arena_wf(self.nodes@)
    }

    /// The number of backpropagation passes through the root of the
    /// last search tree (0 before any search).
    pub closed spec fn root_visits(&self) -> int {
        if self.nodes@.len() == 0 {
            0
        } else {
            self.nodes@[0].visits as int
        }
    }

    /// The total visits of the root's children in the last search
    /// tree.
    pub closed spec fn root_children_visit_total(&self) -> int {
        if self.nodes@.len() == 0 {
            0
        } else {
            visits_sum(self.nodes@, self.nodes@[0].children@)
        }
    }

    /// The reward mass accumulated at the root of the last search tree
    /// (0 before any search), in the half-win fixed-point units of
    /// [`reward_delta`].
    pub closed spec fn root_reward(&self) -> int {
        if self.nodes@.len() == 0 {
            0
        } else {
            self.nodes@[0].reward as int
        }
    }

    /// A new agent with the given iteration budget, seeded from the
    /// thread-local generator.
    pub fn new(iters: u32) -> (s: Self)
        ensures
            s.iterations() == iters,
    {
        Mcts { nodes: Vec::new(), iters, rng: rng_new() }
    }

    /// A new agent with the given iteration budget and an explicit
    /// seed, for reproducible searches.
    pub fn with_seed(iters: u32, seed: u64) -> (s: Self)
        ensures
            s.iterations() == iters,
    {
        Mcts { nodes: Vec::new(), iters, rng: rng_with_seed(seed) }
    }

    /// The number of backpropagation passes through the root of the
    /// last search tree (0 before any search).
    pub fn root_visit_count(&self) -> (v: u64)
        requires
            self.tree_wf(),
        ensures
            v as int == self.root_visits(),
    {
        if self.nodes.len() == 0 {
            0
        } else {
            self.nodes[0].visits
        }
    }

    /// The reward mass accumulated at the root of the last search
    /// tree, in half-win units.
    pub fn root_reward_total(&self) -> (v: i64)
        requires
            self.tree_wf(),
        ensures
            v as int == self.root_reward(),
    {
        if self.nodes.len() == 0 {
            0
        } else {
            self.nodes[0].reward
        }
    }

    /// The visit counters of the root's children of the last search
    /// tree, in expansion order; their sum is the total the contract
    /// of `search` bounds by the iteration budget.
    pub fn root_child_visits(&self) -> (v: Vec<u64>)
        requires
            self.tree_wf(),
        ensures
            seq_sum(v@) == self.root_children_visit_total(),
    {
        proof {
            assert(node_wf(self.nodes@, 0));
        }
        let mut v: Vec<u64> = Vec::new();
        let n_children = self.nodes[0].children.len();
        let mut k: usize = 0;
        while k < n_children
            invariant
                arena_wf(self.nodes@),
                n_children == self.nodes@[0].children@.len(),
                k <= n_children,
                seq_sum(v@) == visits_sum(
                    self.nodes@,
                    self.nodes@[0].children@.take(k as int),
                ),
            decreases n_children - k,
        {
            proof {
                assert(node_wf(self.nodes@, 0));
                assert(child_ok(self.nodes@, 0, k as int));
            }
            let child = self.nodes[0].children[k];
            let ghost old_v = v@;
            let ghost cs = self.nodes@[0].children@;
            v.push(self.nodes[child].visits);
            proof {
                assert(v@.drop_last() =~= old_v);
                assert(cs.take(k + 1).drop_last() =~= cs.take(k as int));
                assert(cs.take(k + 1).last() == cs[k as int]);
            }
            k = k + 1;
        }
        proof {
            assert(self.nodes@[0].children@.take(n_children as int) =~= self.nodes@[0].children@);
        }
        v
    }

    /// Walks from the root to the first node that is terminal or still
    /// has untried actions, descending into the child with the highest
    /// UCT priority.
    fn select(&self) -> (idx: usize)
        requires
            arena_wf(self.nodes@),
        ensures
            idx < self.nodes@.len(),
            self.nodes@[idx as int].state.spec_result() is Some || self.nodes@[idx as int]
                .untried_actions@.len() > 0,
            idx != 0 ==> self.nodes@[0].children@.len() >= 1,
    {
        let mut idx: usize = 0;
        loop
            invariant
                arena_wf(self.nodes@),
                idx < self.nodes@.len(),
                idx != 0 ==> self.nodes@[0].children@.len() >= 1,
            decreases self.nodes@.len() - idx,
        {
            proof {
                assert(node_wf(self.nodes@, idx as int));
            }
            let terminal = self.nodes[idx].state.result().is_some();
            if terminal {
                return idx;
            }
            if self.nodes[idx].untried_actions.len() > 0 {
                return idx;
            }
            proof {
                let ghost st = self.nodes@[idx as int].state;
                st.lemma_well_formed();
            }
            idx = self.best_child(idx);
        }
    }

    /// The child of `idx` with the highest UCT priority; on ties the
    /// last highest-scoring child wins.
    fn best_child(&self, idx: usize) -> (c: usize)
        requires
            arena_wf(self.nodes@),
            idx < self.nodes@.len(),
            self.nodes@[idx as int].children@.len() > 0,
        ensures
            idx < c < self.nodes@.len(),
            self.nodes@[c as int].parent matches Some(p) && p == idx,
            exists|k: int|
                0 <= k < self.nodes@[idx as int].children@.len() && c == self.nodes@[idx as int]
                    .children@[k],
            forall|k: int|
                0 <= k < self.nodes@[idx as int].children@.len() ==> uct_le(
                    #[trigger] spec_uct(
                        self.nodes@[self.nodes@[idx as int].children@[k] as int].reward as int,
                        self.nodes@[self.nodes@[idx as int].children@[k] as int].visits as int,
                        self.nodes@[idx as int].visits as int,
                    ),
                    spec_uct(
                        self.nodes@[c as int].reward as int,
                        self.nodes@[c as int].visits as int,
                        self.nodes@[idx as int].visits as int,
                    ),
                ),
    {
        proof {
            assert(node_wf(self.nodes@, idx as int));
            assert(child_ok(self.nodes@, idx as int, 0));
        }
        let node_visits = self.nodes[idx].visits;
        let first = self.nodes[idx].children[0];
        proof {
            assert(node_wf(self.nodes@, first as int));
        }
        let mut best_idx = first;
        let mut best_score = uct_score(
            self.nodes[first].reward,
            self.nodes[first].visits,
            node_visits,
        );
        let mut k: usize = 1;
        let n_children = self.nodes[idx].children.len();
        while k < n_children
            invariant
                arena_wf(self.nodes@),
                idx < self.nodes@.len(),
                n_children == self.nodes@[idx as int].children@.len(),
                node_visits == self.nodes@[idx as int].visits,
                1 <= n_children,
                1 <= k <= n_children,
                idx < best_idx < self.nodes@.len(),
                self.nodes@[best_idx as int].parent matches Some(p) && p == idx,
                exists|j: int|
                    0 <= j < n_children && best_idx == self.nodes@[idx as int].children@[j],
                best_score == spec_uct(
                    self.nodes@[best_idx as int].reward as int,
                    self.nodes@[best_idx as int].visits as int,
                    node_visits as int,
                ),
                forall|j: int|
                    0 <= j < k ==> uct_le(
                        #[trigger] spec_uct(
                            self.nodes@[self.nodes@[idx as int].children@[j] as int].reward as int,
                            self.nodes@[self.nodes@[idx as int].children@[j] as int].visits as int,
                            node_visits as int,
                        ),
                        best_score,
                    ),
            decreases n_children - k,
        {
            proof {
                assert(node_wf(self.nodes@, idx as int));
                assert(child_ok(self.nodes@, idx as int, k as int));
            }
            let cand = self.nodes[idx].children[k];
            proof {
                assert(node_wf(self.nodes@, cand as int));
            }
            let score = uct_score(self.nodes[cand].reward, self.nodes[cand].visits, node_visits);
            if uct_le_exec(best_score, score) {
                best_idx = cand;
                best_score = score;
            }
            k = k + 1;
        }
        best_idx
    }

    /// Expands `node_idx` by applying one untried action and appending
    /// the resulting child; a no-op returning `node_idx` itself when
    /// the node is terminal or fully expanded.
    fn expand(&mut self, node_idx: usize) -> (r: usize)
        requires
            arena_wf(old(self).nodes@),
            node_idx < old(self).nodes@.len(),
            old(self).nodes@.len() < usize::MAX,
        ensures
            arena_wf(final(self).nodes@),
            final(self).iters == old(self).iters,
            old(self).nodes@.len() <= final(self).nodes@.len() <= old(self).nodes@.len() + 1,
            r < final(self).nodes@.len(),
            forall|i: int|
                0 <= i < old(self).nodes@.len() ==> #[trigger] final(self).nodes@[i].visits == old(self).nodes@[i].visits,
            forall|i: int|
                0 <= i < old(self).nodes@.len() ==> #[trigger] final(self).nodes@[i].reward == old(self).nodes@[i].reward,
            forall|i: int|
                0 <= i < old(self).nodes@.len() ==> #[trigger] final(self).nodes@[i].state == old(self).nodes@[i].state,
            forall|i: int|
                0 <= i < old(self).nodes@.len() ==> #[trigger] final(self).nodes@[i].parent == old(self).nodes@[i].parent,
            visits_sum(final(self).nodes@, final(self).nodes@[0].children@) == visits_sum(
                old(self).nodes@,
                old(self).nodes@[0].children@,
            ),
            (final(self).nodes@.len() == old(self).nodes@.len() + 1) <==> old(self).nodes@[node_idx
                as int].untried_actions@.len() > 0,
            final(self).nodes@.len() == old(self).nodes@.len() ==> *final(self) == *old(self) && r
                == node_idx,
            node_idx == 0 && old(self).nodes@[0].untried_actions@.len() > 0 ==> final(self).nodes@[0].children@.len() == old(self).nodes@[0].children@.len() + 1,
            node_idx != 0 ==> final(self).nodes@[0].children@ == old(self).nodes@[0].children@,
    {
        proof {
            assert(node_wf(self.nodes@, node_idx as int));
        }
        let terminal = self.nodes[node_idx].state.result().is_some();
        if terminal {
            proof {
                let ghost st = self.nodes@[node_idx as int].state;
                st.lemma_well_formed();
                assert(self.nodes@[node_idx as int].untried_actions@.len() == 0);
            }
            return node_idx;
        }
        if self.nodes[node_idx].untried_actions.len() == 0 {
            return node_idx;
        }
        let node = &mut self.nodes[node_idx];
        let maybe_action = node.untried_actions.pop();
        let action = match maybe_action {
            Some(a) => a,
            None => {
                proof {
                    assert(false);
                }
                return node_idx;
            },
        };
        let ghost acts = old(self).nodes@[node_idx as int].state.spec_actions();
        let ghost u = old(self).nodes@[node_idx as int].untried_actions@.len() as int;
        proof {
            // The popped action is the last of the untried prefix.
            assert(old(self).nodes@[node_idx as int].untried_actions@ == acts.take(u));
            assert(action == acts.take(u)[u - 1]);
            assert(acts.contains(action)) by {
                assert(acts[u - 1] == action);
            }
        }
        let mut state = self.nodes[node_idx].state.duplicate();
        let step_result = state.step(action);
        match step_result {
            Ok(()) => {},
            Err(_) => {
                proof {
                    assert(false);
                }
                return node_idx;
            },
        }
        let untried = state.allowed_actions();
        let child_idx = self.nodes.len();
        self.nodes.push(
            Node {
                state,
                action: Some(action),
                parent: Some(node_idx),
                children: Vec::new(),
                visits: 0,
                reward: 0,
                untried_actions: untried,
            },
        );
        let node2 = &mut self.nodes[node_idx];
        node2.children.push(child_idx);
        proof {
            let ns1 = old(self).nodes@;
            let ns2 = self.nodes@;
            let nlen = ns1.len() as int;
            assert(ns2.len() == nlen + 1);
            // Unchanged fields of untouched nodes.
            assert(forall|i: int|
                0 <= i < nlen && i != node_idx ==> ns2[i] == ns1[i]);
            // The expanded node lost one untried action and gained one child.
            assert(ns2[node_idx as int].untried_actions@ == acts.take(u).drop_last());
            assert(acts.take(u).drop_last() =~= acts.take(u - 1));
            assert(ns2[node_idx as int].children@ == ns1[node_idx as int].children@.push(
                child_idx as usize,
            ));
            // The new child is well formed.
            assert(ns2[nlen].untried_actions@ == ns2[nlen].state.spec_actions().take(
                ns2[nlen].untried_actions@.len() as int,
            )) by {
                assert(ns2[nlen].untried_actions@ =~= ns2[nlen].state.spec_actions().take(
                    ns2[nlen].state.spec_actions().len() as int,
                ));
            }
            assert(ns2[nlen].state.inv());
            assert(ns2[nlen].untried_actions@.len() + ns2[nlen].children@.len() == ns2[nlen].state.spec_actions().len());
            assert(ns2[nlen].visits <= ns2[0].visits);
            assert(ns2[nlen].visits == 0 && ns2[nlen].reward == 0);
            assert(-2 * MAX_ABS_REWARD * ns2[nlen].visits <= ns2[nlen].reward <= 2 * MAX_ABS_REWARD
                * ns2[nlen].visits) by (nonlinear_arith)
                requires
                    ns2[nlen].visits == 0,
                    ns2[nlen].reward == 0,
            ;
            assert(forall|k: int| 0 <= k < ns2[nlen].children@.len() ==> #[trigger] child_ok(ns2, nlen, k));
            assert(node_wf(ns2, nlen));
            // Old child references still hold in the grown arena.
            assert forall|i: int| 0 <= i < nlen implies node_wf(ns2, i) by {
                assert(node_wf(ns1, i));
                if i == node_idx {
                    let n2 = ns2[i];
                    assert forall|k: int| 0 <= k < n2.children@.len() implies #[trigger] child_ok(
                        ns2,
                        i,
                        k,
                    ) by {
                        if k < n2.children@.len() - 1 {
                            assert(child_ok(ns1, i, k));
                            assert(n2.children@[k] == ns1[i].children@[k]);
                            let c = n2.children@[k];
                            assert(i < c < ns1.len());
                            assert(ns2[c as int] == ns1[c as int]);
                            assert(n2.state == ns1[i].state);
                            assert forall|j: int| 0 <= j < k implies n2.children@[j] < c by {
                                assert(ns1[i].children@[j] < ns1[i].children@[k]);
                            }
                            assert(child_ok(ns2, i, k));
                        } else {
                            assert(n2.children@[k] == child_idx);
                            assert(k == acts.len() - u);
                            assert(ns2[child_idx as int].action == Some(acts[u - 1]));
                            assert(acts.take(u)[u - 1] == acts[u - 1]);
                            assert forall|j: int| 0 <= j < k implies n2.children@[j] < child_idx
                                as usize by {
                                assert(child_ok(ns1, i, j));
                            }
                        }
                    }
                } else {
                    assert forall|k: int| 0 <= k < ns2[i].children@.len() implies #[trigger]
                        child_ok(ns2, i, k) by {
                        assert(child_ok(ns1, i, k));
                    }
                }
            }
            assert(arena_wf(ns2));
            // Root children visit sum is unchanged: a new child starts
            // with zero visits.
            assert forall|k: int| 0 <= k < ns1[0].children@.len() implies ns2[#[trigger] ns1[0]
                .children@[k] as int].visits == ns1[ns1[0].children@[k] as int].visits by {
                assert(node_wf(ns1, 0));
                assert(child_ok(ns1, 0, k));
            }
            if node_idx == 0 {
                lemma_visits_sum_same(ns1, ns2, ns1[0].children@);
                lemma_visits_sum_push(ns2, ns1[0].children@, child_idx as usize);
            } else {
                lemma_visits_sum_same(ns1, ns2, ns1[0].children@);
            }
        }
        child_idx
    }

    /// Plays uniformly-random legal actions from the state of
    /// `node_idx` until the game ends, and returns the outcome.
    fn simulate(&mut self, node_idx: usize) -> (o: GameResult)
        requires
            arena_wf(old(self).nodes@),
            node_idx < old(self).nodes@.len(),
        ensures
            final(self).nodes == old(self).nodes,
            final(self).iters == old(self).iters,
            o matches GameResult::End(x) ==> -MAX_ABS_REWARD <= x <= MAX_ABS_REWARD,
    {
        proof {
            assert(node_wf(self.nodes@, node_idx as int));
        }
        let mut game = self.nodes[node_idx].state.duplicate();
        loop
            invariant
                game.inv(),
                self.nodes == old(self).nodes,
                self.iters == old(self).iters,
            decreases game.measure(),
        {
            proof {
                game.lemma_well_formed();
            }
            let maybe_result = game.result();
            match maybe_result {
                Some(outcome) => {
                    return outcome;
                },
                None => {},
            }
            let actions = game.allowed_actions();
            let j = rng_usize_below(&mut self.rng, actions.len());
            let action = actions[j];
            proof {
                assert(game.spec_actions()[j as int] == action);
                assert(game.spec_actions().contains(action));
            }
            let step_result = game.step(action);
            match step_result {
                Ok(()) => {},
                Err(_) => {
                    proof {
                        assert(false);
                    }
                },
            }
        }
    }

    /// Walks from `node_idx` up to the root, incrementing each node's
    /// visit counter and adding the outcome's reward increment.
    fn backup(&mut self, node_idx: usize, outcome: GameResult, initial_reward: i64)
        requires
            arena_wf(old(self).nodes@),
            node_idx < old(self).nodes@.len(),
            old(self).nodes@[0].visits < u32::MAX,
            -MAX_ABS_REWARD <= initial_reward <= MAX_ABS_REWARD,
            outcome matches GameResult::End(x) ==> -MAX_ABS_REWARD <= x <= MAX_ABS_REWARD,
        ensures
            arena_wf(final(self).nodes@),
            final(self).iters == old(self).iters,
            final(self).nodes@.len() == old(self).nodes@.len(),
            forall|i: int|
                0 <= i < old(self).nodes@.len() ==> #[trigger] backup_frame(
                    old(self).nodes@,
                    final(self).nodes@,
                    i,
                    outcome,
                    initial_reward as int,
                ),
            final(self).nodes@[0].visits == old(self).nodes@[0].visits + 1,
            forall|i: int, j: int|
                #![trigger bumped(old(self).nodes@, final(self).nodes@, i), bumped(old(self).nodes@, final(self).nodes@, j)]
                0 <= i < old(self).nodes@.len() && 0 <= j < old(self).nodes@.len() && i != j
                    && old(self).nodes@[i].parent == Some(0usize) && old(self).nodes@[j].parent
                    == Some(0usize) ==> !(bumped(old(self).nodes@, final(self).nodes@, i) && bumped(
                    old(self).nodes@,
                    final(self).nodes@,
                    j,
                )),
    {
        let ghost ns0 = old(self).nodes@;
        let ghost r0 = initial_reward as int;
        let mut current: Option<usize> = Some(node_idx);
        loop
            invariant
                arena_wf(ns0),
                ns0[0].visits < u32::MAX,
                -MAX_ABS_REWARD <= initial_reward <= MAX_ABS_REWARD,
                outcome matches GameResult::End(x) ==> -MAX_ABS_REWARD <= x <= MAX_ABS_REWARD,
                r0 == initial_reward as int,
                self.nodes@.len() == ns0.len(),
                self.iters == old(self).iters,
                forall|i: int|
                    0 <= i < ns0.len() ==> #[trigger] backup_frame(ns0, self.nodes@, i, outcome, r0),
                forall|i: int, j: int|
                    #![trigger bumped(ns0, self.nodes@, i), bumped(ns0, self.nodes@, j)]
                    0 <= i < ns0.len() && 0 <= j < ns0.len() && i != j && ns0[i].parent
                        == Some(0usize) && ns0[j].parent == Some(0usize) ==> !(bumped(
                        ns0,
                        self.nodes@,
                        i,
                    ) && bumped(ns0, self.nodes@, j)),
                match current {
                    Some(c) => c < ns0.len() && (forall|i: int|
                        0 <= i < ns0.len() && #[trigger] bumped(ns0, self.nodes@, i) ==> i > c) && (
                    (exists|i: int|
                        0 <= i < ns0.len() && #[trigger] bumped(ns0, self.nodes@, i)
                            && ns0[i].parent == Some(0usize)) ==> c == 0),
                    None => self.nodes@[0].visits == ns0[0].visits + 1,
                },
            ensures
                current is None,
            decreases (match current {
                Some(c) => c + 2int,
                None => 0int,
            }),
        {
            let idx = match current {
                Some(i) => i,
                None => {
                    break ;
                },
            };
            proof {
                assert(node_wf(ns0, idx as int));
                assert(backup_frame(ns0, self.nodes@, idx as int, outcome, r0));
                assert(!bumped(ns0, self.nodes@, idx as int));
            }
            let ghost ns_prev = self.nodes@;
            let node = &mut self.nodes[idx];
            let actor = node.state.current_player().opponent();
            node.visits = node.visits + 1;
            let delta: i64 = match outcome {
                GameResult::Win(w) => if w == actor {
                    2
                } else {
                    0
                },
                GameResult::Draw => 1,
                GameResult::End(x) => x - initial_reward,
            };
            proof {
                assert(-2 * MAX_ABS_REWARD <= delta <= 2 * MAX_ABS_REWARD);
                assert(delta == reward_delta(outcome, node_actor(ns0, idx as int), r0));
                assert(-2 * MAX_ABS_REWARD * ns0[idx as int].visits <= node.reward <= 2
                    * MAX_ABS_REWARD * ns0[idx as int].visits);
                assert(i64::MIN <= node.reward + delta <= i64::MAX) by (nonlinear_arith)
                    requires
                        -2 * MAX_ABS_REWARD * ns0[idx as int].visits <= node.reward <= 2
                            * MAX_ABS_REWARD * ns0[idx as int].visits,
                        ns0[idx as int].visits < 0x1_0000_0000,
                        -2 * MAX_ABS_REWARD <= delta <= 2 * MAX_ABS_REWARD,
                        MAX_ABS_REWARD == 1_000_000,
                ;
            }
            node.reward = node.reward + delta;
            current = node.parent;
            proof {
                assert forall|i: int| 0 <= i < ns0.len() implies #[trigger] backup_frame(
                    ns0,
                    self.nodes@,
                    i,
                    outcome,
                    r0,
                ) by {
                    assert(backup_frame(ns0, ns_prev, i, outcome, r0));
                    if i != idx {
                        assert(self.nodes@[i] == ns_prev[i]);
                    }
                }
                assert(bumped(ns0, self.nodes@, idx as int));
                assert forall|i: int|
                    0 <= i < ns0.len() && #[trigger] bumped(ns0, self.nodes@, i) && i != idx
                        implies bumped(ns0, ns_prev, i) by {
                    assert(self.nodes@[i] == ns_prev[i]);
                }
                assert forall|i: int, j: int|
                    0 <= i < ns0.len() && 0 <= j < ns0.len() && i != j && ns0[i].parent
                        == Some(0usize) && ns0[j].parent == Some(0usize) implies !(#[trigger]
                bumped(ns0, self.nodes@, i) && #[trigger] bumped(ns0, self.nodes@, j)) by {
                    if bumped(ns0, self.nodes@, i) && bumped(ns0, self.nodes@, j) {
                        // One of the two must be the node just bumped; the
                        // other was bumped earlier, which would have forced
                        // the walk to the root already.
                        if i != idx && j != idx {
                            assert(bumped(ns0, ns_prev, i));
                            assert(bumped(ns0, ns_prev, j));
                        } else if i == idx {
                            assert(bumped(ns0, ns_prev, j));
                            assert(idx == 0);
                            assert(ns0[i].parent is None);
                        } else {
                            assert(bumped(ns0, ns_prev, i));
                            assert(idx == 0);
                            assert(ns0[j].parent is None);
                        }
                    }
                }
            }
        }
        proof {
            let ns2 = self.nodes@;
            assert(backup_frame(ns0, ns2, 0, outcome, r0));
            assert forall|i: int|
                1 <= i < ns2.len() implies ((#[trigger] ns2[i].parent) matches Some(p) && (p
                as int) < i) by {
                assert(backup_frame(ns0, ns2, i, outcome, r0));
            }
            assert forall|i: int| 0 <= i < ns2.len() implies node_wf(ns2, i) by {
                assert(node_wf(ns0, i));
                assert(backup_frame(ns0, ns2, i, outcome, r0));
                assert(backup_frame(ns0, ns2, 0, outcome, r0));
                assert forall|k: int| 0 <= k < ns2[i].children@.len() implies #[trigger] child_ok(
                    ns2,
                    i,
                    k,
                ) by {
                    assert(child_ok(ns0, i, k));
                    assert(backup_frame(ns0, ns2, ns0[i].children@[k] as int, outcome, r0));
                }
                assert(-2 * MAX_ABS_REWARD * ns2[i].visits <= ns2[i].reward <= 2 * MAX_ABS_REWARD
                    * ns2[i].visits) by (nonlinear_arith)
                    requires
                        ns2[i].visits == ns0[i].visits || ns2[i].visits == ns0[i].visits + 1,
                        -2 * MAX_ABS_REWARD * ns0[i].visits <= ns0[i].reward <= 2 * MAX_ABS_REWARD
                            * ns0[i].visits,
                        ns2[i].visits == ns0[i].visits ==> ns2[i].reward == ns0[i].reward,
                        ns2[i].visits != ns0[i].visits ==> ns2[i].reward - ns0[i].reward <= 2
                            * MAX_ABS_REWARD && ns0[i].reward - ns2[i].reward <= 2 * MAX_ABS_REWARD,
                        MAX_ABS_REWARD > 0,
                ;
            }
        }
    }

    /// The action of the most-visited root child, or `None` if the
    /// root has no children (terminal root or a zero iteration
    /// budget).
    fn best_action(&self) -> (r: Option<usize>)
        requires
            arena_wf(self.nodes@),
        ensures
            r is Some <==> self.nodes@[0].children@.len() > 0,
            r matches Some(a) ==> exists|k: int|
                0 <= k < self.nodes@[0].children@.len() && self.nodes@[#[trigger] self.nodes@[0]
                    .children@[k] as int].action == Some(a) && forall|j: int|
                    0 <= j < self.nodes@[0].children@.len() ==> self.nodes@[#[trigger] self.nodes@[0].children@[j] as int].visits
                        <= self.nodes@[self.nodes@[0].children@[k] as int].visits,
    {
        proof {
            assert(node_wf(self.nodes@, 0));
        }
        let n_children = self.nodes[0].children.len();
        if n_children == 0 {
            return None;
        }
        proof {
            assert(child_ok(self.nodes@, 0, 0));
        }
        let mut best_k: usize = 0;
        let mut best_idx = self.nodes[0].children[0];
        let mut best_visits = self.nodes[best_idx].visits;
        let mut k: usize = 1;
        while k < n_children
            invariant
                arena_wf(self.nodes@),
                n_children == self.nodes@[0].children@.len(),
                1 <= k <= n_children,
                best_k < k,
                best_idx == self.nodes@[0].children@[best_k as int],
                best_idx < self.nodes@.len(),
                best_visits == self.nodes@[best_idx as int].visits,
                forall|j: int|
                    0 <= j < k ==> self.nodes@[#[trigger] self.nodes@[0].children@[j] as int].visits
                        <= best_visits,
            decreases n_children - k,
        {
            proof {
                assert(node_wf(self.nodes@, 0));
                assert(child_ok(self.nodes@, 0, k as int));
            }
            let cand = self.nodes[0].children[k];
            let cand_visits = self.nodes[cand].visits;
            if best_visits <= cand_visits {
                best_k = k;
                best_idx = cand;
                best_visits = cand_visits;
            }
            k = k + 1;
        }
        proof {
            assert(child_ok(self.nodes@, 0, best_k as int));
        }
        let node = &self.nodes[best_idx];
        match node.action {
            Some(a) => Some(a),
            None => {
                proof {
                    assert(false);
                }
                None
            },
        }
    }

    /// Runs the full iteration budget of Monte Carlo tree search from
    /// `state` and returns the most promising action.
    ///
    /// The tree is rebuilt from scratch: afterwards the root has been
    /// visited exactly once per iteration and its children share at
    /// most that many visits.  The result is `None` exactly when no
    /// action was expanded (a terminal `state`, or a zero budget); any
    /// returned action is legal in `state`, and a lone legal action is
    /// always returned.
    pub fn search(&mut self, state: &G) -> (r: Option<usize>)
        requires
            state.inv(),
            old(self).iterations() as int <= usize::MAX - 1,
        ensures
            final(self).iterations() == old(self).iterations(),
            final(self).tree_wf(),
            final(self).root_visits() == old(self).iterations() as int,
            final(self).root_children_visit_total() <= old(self).iterations() as int,
            state.spec_result() is Some ==> r is None,
            r matches Some(a) ==> state.spec_actions().contains(a),
            state.spec_result() is None && old(self).iterations() >= 1 ==> r is Some,
            state.spec_actions().len() == 1 && old(self).iterations() >= 1 ==> r == Some(
                state.spec_actions()[0],
            ),
    {
        self.nodes.clear();
        let root_state = state.duplicate();
        let untried = root_state.allowed_actions();
        self.nodes.push(
            Node {
                state: root_state,
                action: None,
                parent: None,
                children: Vec::new(),
                visits: 0,
                reward: 0,
                untried_actions: untried,
            },
        );
        proof {
            let ns = self.nodes@;
            assert(ns[0].untried_actions@ =~= ns[0].state.spec_actions().take(
                ns[0].state.spec_actions().len() as int,
            ));
            assert(node_wf(ns, 0));
            assert(arena_wf(ns));
        }
        let iters = self.iters;
        let mut it: u32 = 0;
        while it < iters
            invariant
                state.inv(),
                arena_wf(self.nodes@),
                self.iters == iters,
                iters as int <= usize::MAX - 1,
                it <= iters,
                self.nodes@[0].visits == it,
                self.nodes@.len() <= 1 + it,
                visits_sum(self.nodes@, self.nodes@[0].children@) <= it as int,
                self.nodes@[0].state.spec_result() == state.spec_result(),
                self.nodes@[0].state.spec_actions() == state.spec_actions(),
                it >= 1 && state.spec_actions().len() >= 1 ==> self.nodes@[0].children@.len() >= 1,
            decreases iters - it,
        {
            let initial_reward = state.current_reward();
            proof {
                state.lemma_well_formed();
            }
            let ghost ns_start = self.nodes@;
            let selected = self.select();
            let expanded = self.expand(selected);
            let ghost ns_mid = self.nodes@;
            let outcome = self.simulate(expanded);
            self.backup(expanded, outcome, initial_reward);
            proof {
                let ns_end = self.nodes@;
                let ghost r0 = initial_reward as int;
                // The root children after expansion keep their sum under
                // backpropagation: at most one of them is on the path.
                let cs = ns_mid[0].children@;
                assert(backup_frame(ns_mid, ns_end, 0, outcome, r0));
                assert(ns_end[0].children == ns_mid[0].children);
                assert(node_wf(ns_mid, 0));
                assert forall|k: int| 0 <= k < cs.len() implies cs[k] < ns_mid.len() && (ns_end[
                #[trigger] cs[k] as int].visits == ns_mid[cs[k] as int].visits || ns_end[cs[k]
                    as int].visits == ns_mid[cs[k] as int].visits + 1) by {
                    assert(child_ok(ns_mid, 0, k));
                    assert(backup_frame(ns_mid, ns_end, cs[k] as int, outcome, r0));
                }
                assert forall|k1: int, k2: int|
                    0 <= k1 < cs.len() && 0 <= k2 < cs.len() && k1 != k2 implies !(ns_end[
                #[trigger] cs[k1] as int].visits != ns_mid[cs[k1] as int].visits && ns_end[
                #[trigger] cs[k2] as int].visits != ns_mid[cs[k2] as int].visits) by {
                    assert(child_ok(ns_mid, 0, k1));
                    assert(child_ok(ns_mid, 0, k2));
                    if k1 < k2 {
                        assert(cs[k1] < cs[k2]);
                    } else {
                        assert(cs[k2] < cs[k1]);
                    }
                    assert(ns_mid[cs[k1] as int].parent == Some(0usize));
                    assert(ns_mid[cs[k2] as int].parent == Some(0usize));
                    assert(!(bumped(ns_mid, ns_end, cs[k1] as int) && bumped(
                        ns_mid,
                        ns_end,
                        cs[k2] as int,
                    )));
                }
                lemma_visits_sum_le_bump(ns_mid, ns_end, cs);
            }
            it = it + 1;
        }
        let result = self.best_action();
        proof {
            let ns = self.nodes@;
            assert(node_wf(ns, 0));
            let acts = state.spec_actions();
            let ghost gst = *state;
            gst.lemma_well_formed();
            if state.spec_result() is Some {
                let ghost rst = ns[0].state;
                rst.lemma_well_formed();
                assert(ns[0].children@.len() == 0);
            }
            if result is Some {
                let k = choose|k: int|
                    0 <= k < ns[0].children@.len() && ns[#[trigger] ns[0].children@[k] as int].action
                        == result;
                assert(child_ok(ns, 0, k));
                assert(result == Some(acts[acts.len() - 1 - k]));
                assert(acts.contains(acts[acts.len() - 1 - k]));
                if acts.len() == 1 {
                    assert(k == 0);
                    assert(result == Some(acts[0]));
                }
            }
        }
        result
    }
}

} // verus!
