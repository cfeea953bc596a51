//! The transaction tree: the composition unit of partial proofs. A tree
//! carries the transactions it proves, a shared execution environment, and
//! a state transition that is either fully applied (two commitment
//! endpoints), purely logged (a raw state-access log), or hybrid.
//!
//! Merging is deliberately not commutative: the left-hand tree must
//! temporally precede the right-hand tree, and the left-hand transition
//! must be fully applied before the right-hand transition can be anything
//! other than purely logged.

use vstd::prelude::*;

use crate::primitives::{block_env_default, BlockEnv, Hash256};
use crate::verifiable_state::evm::EvmStateLog;
use crate::verifiable_state::MergeableLog;
use crate::MergeError;

verus! {

/// A commitment to the whole state at one point in time, comparable in
/// executable code.
pub trait StateCommitment: Sized {
    fn sc_eq(&self, other: &Self) -> (r: bool)
        ensures
            r == (self == other),
    ;
}

/// A shared execution environment, comparable in executable code.
pub trait Environment: Sized {
    fn env_eq(&self, other: &Self) -> (r: bool)
        ensures
            r == (self == other),
    ;
}

impl StateCommitment for Hash256 {
    fn sc_eq(&self, other: &Self) -> (r: bool) {
        *self == *other
    }
}

impl Environment for BlockEnv {
    fn env_eq(&self, other: &Self) -> (r: bool) {
        *self == *other
    }
}

/// The state transition a tree carries.
pub enum Transition<S, L> {
    /// The transition has been evaluated at the commitment level; only the
    /// pre and post commitments remain.
    Applied(S, S),
    /// The transition is witnessed by a raw state-access log; its
    /// endpoints are not yet determined.
    Logged(L),
    /// Partially evaluated: state advanced from the first commitment to
    /// the second, with further changes carried as a log.
    Hybrid(S, S, L),
}

/// A composition unit: the transactions it proves (in execution order),
/// the transition they effect, and the shared environment.
pub struct TxTree<S, Tx, L, Env> {
    pub includes: Vec<Tx>,
    pub state_change: Transition<S, L>,
    pub env: Env,
}

/// Any log carried by the transition is in canonical form.
pub open spec fn transition_wf<S, L: MergeableLog>(t: Transition<S, L>) -> bool {
    match t {
        Transition::Applied(_, _) => true,
        Transition::Logged(l) => l.wf_log(),
        Transition::Hybrid(_, _, l) => l.wf_log(),
    }
}

/// The transition-level merge table. The left transition must reach a
/// concrete post-state before the right transition can be anything other
/// than purely logged; mismatched endpoints are causality violations.
pub open spec fn transition_merge_rel<S, L: MergeableLog<Merged = L>>(
    lt: Transition<S, L>,
    rt: Transition<S, L>,
    res: Result<Transition<S, L>, MergeError>,
) -> bool {
    match (lt, rt) {
        (Transition::Applied(a, b), Transition::Applied(c, d)) => if b == c {
            res == Ok::<Transition<S, L>, MergeError>(Transition::Applied(a, d))
        } else {
            res == Err::<Transition<S, L>, MergeError>(MergeError::CausalityViolation)
        },
        (Transition::Applied(a, b), Transition::Logged(r)) => res == Ok::<
            Transition<S, L>,
            MergeError,
        >(Transition::Hybrid(a, b, r)),
        (Transition::Applied(a, b), Transition::Hybrid(c, d, r)) => if b == c {
            res == Ok::<Transition<S, L>, MergeError>(Transition::Hybrid(a, d, r))
        } else {
            res == Err::<Transition<S, L>, MergeError>(MergeError::CausalityViolation)
        },
        (Transition::Logged(l), Transition::Logged(r)) => match res {
            Ok(t) => match t {
                Transition::Logged(m) => l.merge_defined(r) && l.merge_rel(r, m),
                _ => false,
            },
            Err(e) => !l.merge_defined(r) && e == MergeError::CausalityViolation,
        },
        (Transition::Hybrid(a, b, l), Transition::Logged(r)) => match res {
            Ok(t) => match t {
                Transition::Hybrid(a2, b2, m) => a2 == a && b2 == b && l.merge_defined(r)
                    && l.merge_rel(r, m),
                _ => false,
            },
            Err(e) => !l.merge_defined(r) && e == MergeError::CausalityViolation,
        },
        (Transition::Logged(_), Transition::Applied(_, _)) => res == Err::<
            Transition<S, L>,
            MergeError,
        >(MergeError::OrderingViolation),
        (Transition::Logged(_), Transition::Hybrid(_, _, _)) => res == Err::<
            Transition<S, L>,
            MergeError,
        >(MergeError::OrderingViolation),
        (Transition::Hybrid(_, _, _), Transition::Applied(_, _)) => res == Err::<
            Transition<S, L>,
            MergeError,
        >(MergeError::OrderingViolation),
        (Transition::Hybrid(_, _, _), Transition::Hybrid(_, _, _)) => res == Err::<
            Transition<S, L>,
            MergeError,
        >(MergeError::OrderingViolation),
    }
}

/// The tree-level merge relation: environments must agree, transitions
/// combine per the transition table, and the merged tree proves the
/// left-hand transactions followed by the right-hand transactions.
pub open spec fn tree_merge_rel<S, Tx, L: MergeableLog<Merged = L>, Env>(
    lhs: TxTree<S, Tx, L, Env>,
    rhs: TxTree<S, Tx, L, Env>,
    r: Result<TxTree<S, Tx, L, Env>, MergeError>,
) -> bool {
    match r {
        Ok(t) => {
            &&& lhs.env == rhs.env
            &&& t.env == lhs.env
            &&& t.includes@ == lhs.includes@ + rhs.includes@
            &&& transition_merge_rel(
                lhs.state_change,
                rhs.state_change,
                Ok::<Transition<S, L>, MergeError>(t.state_change),
            )
        },
        Err(e) => {
            ||| (lhs.env != rhs.env && e == MergeError::EnvMismatch)
            ||| (lhs.env == rhs.env && transition_merge_rel(
                lhs.state_change,
                rhs.state_change,
                Err::<Transition<S, L>, MergeError>(e),
            ))
        },
    }
}

impl<S, Tx, L, Env> TxTree<S, Tx, L, Env> where
    L: MergeableLog<Merged = L>,
    S: StateCommitment,
    Env: Environment,
 {
    pub open spec fn wf(self) -> bool {
        transition_wf(self.state_change)
    }

    /// Merge two sibling trees, the left temporally preceding the right.
    pub fn merge(lhs: Self, rhs: Self) -> (r: Result<Self, MergeError>)
        requires
            lhs.wf(),
            rhs.wf(),
        ensures
            tree_merge_rel(lhs, rhs, r),
    {
        let TxTree { includes: mut includes, state_change: lsc, env: lenv } = lhs;
        let TxTree { includes: rinc, state_change: rsc, env: renv } = rhs;
        if !lenv.env_eq(&renv) {
            return Err(MergeError::EnvMismatch);
        }
        let transition = match (lsc, rsc) {
            (Transition::Applied(a, b), Transition::Applied(c, d)) => {
                if b.sc_eq(&c) {
                    Transition::Applied(a, d)
                } else {
                    return Err(MergeError::CausalityViolation);
                }
            },
            (Transition::Applied(a, b), Transition::Logged(r)) => Transition::Hybrid(a, b, r),
            (Transition::Applied(a, b), Transition::Hybrid(c, d, r)) => {
                if b.sc_eq(&c) {
                    Transition::Hybrid(a, d, r)
                } else {
                    return Err(MergeError::CausalityViolation);
                }
            },
            (Transition::Logged(l), Transition::Logged(r)) => {
                match l.merge(r) {
                    Ok(m) => Transition::Logged(m),
                    Err(e) => {
                        return Err(e);
                    },
                }
            },
            (Transition::Hybrid(a, b, l), Transition::Logged(r)) => {
                match l.merge(r) {
                    Ok(m) => Transition::Hybrid(a, b, m),
                    Err(e) => {
                        return Err(e);
                    },
                }
            },
            (Transition::Logged(_), Transition::Applied(_, _)) => {
                return Err(MergeError::OrderingViolation);
            },
            (Transition::Logged(_), Transition::Hybrid(_, _, _)) => {
                return Err(MergeError::OrderingViolation);
            },
            (Transition::Hybrid(_, _, _), Transition::Applied(_, _)) => {
                return Err(MergeError::OrderingViolation);
            },
            (Transition::Hybrid(_, _, _), Transition::Hybrid(_, _, _)) => {
                return Err(MergeError::OrderingViolation);
            },
        };
        let mut rhs_includes = rinc;
        includes.append(&mut rhs_includes);
        Ok(TxTree { includes, state_change: transition, env: lenv })
    }
}

/// Merging trees is order-sensitive: with the operands swapped, the merge
/// either fails or proves the transactions in the opposite order, so two
/// trees with different non-empty transaction sequences never merge to the
/// same tree both ways.
pub proof fn lemma_merge_order_sensitive<S, Tx, L: MergeableLog<Merged = L>, Env>(
    a: TxTree<S, Tx, L, Env>,
    b: TxTree<S, Tx, L, Env>,
    rab: Result<TxTree<S, Tx, L, Env>, MergeError>,
    rba: Result<TxTree<S, Tx, L, Env>, MergeError>,
)
    requires
        tree_merge_rel(a, b, rab),
        tree_merge_rel(b, a, rba),
    ensures
        rba is Ok ==> (rba->Ok_0).includes@ == b.includes@ + a.includes@,
        rab is Ok && rba is Ok && a.includes@ + b.includes@ != b.includes@ + a.includes@
            ==> (rab->Ok_0).includes@ != (rba->Ok_0).includes@,
{
}

/// The concrete tree the EVM rollup aggregates: state commitments are
/// 256-bit hashes, the log is the EVM state log, and the environment is
/// the block environment.
pub type EvmTxTree<Tx> = TxTree<Hash256, Tx, EvmStateLog, BlockEnv>;

impl<Tx> EvmTxTree<Tx> {
    /// A leaf tree covering `transactions`: its transition is a fresh,
    /// still-empty log, and its environment is the default one.
    pub fn with_transactions(transactions: Vec<Tx>) -> (r: Self)
        ensures
            r.includes == transactions,
            r.env == block_env_default(),
            (match r.state_change {
                Transition::Logged(l) => l.wf() && l.is_empty_log(),
                _ => false,
            }),
            r.wf(),
    {
        TxTree {
            includes: transactions,
            state_change: Transition::Logged(EvmStateLog::new()),
            env: BlockEnv::default(),
        }
    }
}

} // verus!
