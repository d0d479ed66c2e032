use vstd::prelude::*;
use std::collections::HashMap;
use crate::objects::node::Node;
use crate::objects::pod::Pod;

verus! {

/// A step that rescales the scores a scorer gave to the candidate nodes.
pub trait IScoreNormalizePlugin {
    /// Whether the plugin can rescale these scores.
    spec fn accepts(&self, scores: Seq<i64>) -> bool;

    /// The rescaled scores.
    spec fn normalized(&self, scores: Seq<i64>) -> Seq<i64>;

    fn name(&self) -> String;

    fn normalize(
        &self,
        running_pods: &HashMap<u64, Pod>,
        pending_pods: &HashMap<u64, Pod>,
        all_nodes: &HashMap<u64, Node>,
        pod: &Pod,
        score_nodes: &Vec<Node>,
        scores: &mut Vec<i64>,
    )
        requires
            self.accepts(old(scores)@),
        ensures
            final(scores)@ == self.normalized(old(scores)@),
    ;
}

/// Leaves the scores as they are.
#[derive(Debug, Clone, Copy)]
pub struct ScoreNormalizeSkip;

/// Negates every score.
#[derive(Debug, Clone, Copy)]
pub struct ScoreNormalizeNeg;

impl IScoreNormalizePlugin for ScoreNormalizeSkip {
    open spec fn accepts(&self, scores: Seq<i64>) -> bool {
        true
    }

    open spec fn normalized(&self, scores: Seq<i64>) -> Seq<i64> {
        scores
    }

    fn name(&self) -> (r: String)
        ensures
            r@ == "ScoreNormalizeSkip"@,
    {
        String::from_str("ScoreNormalizeSkip")
    }

    fn normalize(
        &self,
        _running_pods: &HashMap<u64, Pod>,
        _pending_pods: &HashMap<u64, Pod>,
        _all_nodes: &HashMap<u64, Node>,
        _pod: &Pod,
        _score_nodes: &Vec<Node>,
        _scores: &mut Vec<i64>,
    ) {
    }
}

impl IScoreNormalizePlugin for ScoreNormalizeNeg {
    /// No score is `i64::MIN`, which has no negation.
    open spec fn accepts(&self, scores: Seq<i64>) -> bool {
        forall|i: int| 0 <= i < scores.len() ==> scores[i] != i64::MIN
    }

    open spec fn normalized(&self, scores: Seq<i64>) -> Seq<i64> {
        scores.map_values(|s: i64| (-s) as i64)
    }

    fn name(&self) -> (r: String)
        ensures
            r@ == "ScoreNormalizeNeg"@,
    {
        String::from_str("ScoreNormalizeNeg")
    }

    fn normalize(
        &self,
        _running_pods: &HashMap<u64, Pod>,
        _pending_pods: &HashMap<u64, Pod>,
        _all_nodes: &HashMap<u64, Node>,
        _pod: &Pod,
        _score_nodes: &Vec<Node>,
        scores: &mut Vec<i64>,
    ) {
        let ghost before = scores@;
        let mut i: usize = 0;
        while i < scores.len()
            invariant
                i <= scores.len(),
                scores@.len() == before.len(),
                before == old(scores)@,
                forall|j: int| 0 <= j < before.len() ==> before[j] != i64::MIN,
                forall|j: int| 0 <= j < i ==> scores@[j] == -before[j],
                forall|j: int| i <= j < scores@.len() ==> scores@[j] == before[j],
            decreases scores.len() - i,
        {
            let v = scores[i];
            assert(v == before[i as int]);
            assert(before[i as int] != i64::MIN);
            scores.set(i, -v);
            i = i + 1;
        }
        assert(scores@ =~= before.map_values(|s: i64| (-s) as i64));
    }
}

} // verus!
