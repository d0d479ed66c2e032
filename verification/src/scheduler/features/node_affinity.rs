use vstd::prelude::*;
use crate::objects::node::Node;
use crate::objects::labels::lookup;
use crate::text::{parse_i64, parse_i64_spec};

verus! {

/// Whether a node affinity must hold for scheduling, or is only preferred.
#[derive(Debug, Clone, Copy, PartialEq, Eq, Structural)]
pub enum NodeAffinityType {
    Required,
    Preferred,
}

/// How an affinity expression tests a node label.
#[derive(Debug, Clone, Copy, PartialEq, Eq, Structural)]
pub enum NodeAffinityOperator {
    /// The label's value is one of the given values.
    In,
    /// The label's value is none of the given values.
    NotIn,
    /// The node has the label.
    Exists,
    /// The node does not have the label.
    DoesNotExist,
    /// The label's value, read as an integer, is greater than the first given value.
    Gt,
    /// The label's value, read as an integer, is less than the first given value.
    Lt,
}

/// Whether the expressions of a term are all required (`MatchExpression`) or
/// any term suffices (`NodeSelectorTerms`).
#[derive(Debug, Clone, Copy, PartialEq, Eq, Structural)]
pub enum NodeAffinityExpressionType {
    MatchExpression,
    NodeSelectorTerms,
}

#[derive(Debug)]
pub struct NodeAffinityExpression {
    pub key: String,
    pub operator: NodeAffinityOperator,
    pub values: Vec<String>,
}

/// A term of a node affinity: it holds when all its expressions hold.
#[derive(Debug)]
pub struct MatchExpression {
    pub match_expression: Vec<NodeAffinityExpression>,
}

/// A node affinity: a list of terms, of which any may hold.
#[derive(Debug)]
pub struct NodeAffinity {
    pub node_selector_terms: Vec<MatchExpression>,
    pub schedule_type: NodeAffinityType,
}

/// The model of an expression: its key, operator and values as strings.
pub struct ExpressionView {
    pub key: Seq<char>,
    pub operator: NodeAffinityOperator,
    pub values: Seq<Seq<char>>,
}

/// The model of a node affinity: its terms, each a list of expressions.
pub struct NodeAffinityView {
    pub terms: Seq<Seq<ExpressionView>>,
    pub schedule_type: NodeAffinityType,
}

impl View for NodeAffinityExpression {
    type V = ExpressionView;

    open spec fn view(&self) -> ExpressionView {
        ExpressionView {
            key: self.key@,
            operator: self.operator,
            values: self.values@.map_values(|v: String| v@),
        }
    }
}

impl View for MatchExpression {
    type V = Seq<ExpressionView>;

    open spec fn view(&self) -> Seq<ExpressionView> {
        self.match_expression@.map_values(|e: NodeAffinityExpression| e@)
    }
}

impl View for NodeAffinity {
    type V = NodeAffinityView;

    open spec fn view(&self) -> NodeAffinityView {
        NodeAffinityView {
            terms: self.node_selector_terms@.map_values(|t: MatchExpression| t@),
            schedule_type: self.schedule_type,
        }
    }
}

impl Clone for NodeAffinityExpression {
    fn clone(&self) -> (r: Self)
        ensures
            r@ == self@,
    {
        let values = self.values.clone();
        assert(values@ =~= self.values@);
        let r = NodeAffinityExpression { key: self.key.clone(), operator: self.operator, values };
        assert(r@.values =~= self@.values);
        r
    }
}

impl Clone for MatchExpression {
    fn clone(&self) -> (r: Self)
        ensures
            r@ == self@,
    {
        let mut v: Vec<NodeAffinityExpression> = Vec::new();
        let mut i: usize = 0;
        while i < self.match_expression.len()
            invariant
                i <= self.match_expression.len(),
                v.len() == i,
                forall|k: int| 0 <= k < i ==> #[trigger] v@[k]@ == self.match_expression@[k]@,
            decreases self.match_expression.len() - i,
        {
            v.push(self.match_expression[i].clone());
            i = i + 1;
        }
        let r = MatchExpression { match_expression: v };
        assert(r@ =~= self@);
        r
    }
}

impl Clone for NodeAffinity {
    fn clone(&self) -> (r: Self)
        ensures
            r@ == self@,
    {
        let mut v: Vec<MatchExpression> = Vec::new();
        let mut i: usize = 0;
        while i < self.node_selector_terms.len()
            invariant
                i <= self.node_selector_terms.len(),
                v.len() == i,
                forall|k: int| 0 <= k < i ==> #[trigger] v@[k]@ == self.node_selector_terms@[k]@,
            decreases self.node_selector_terms.len() - i,
        {
            v.push(self.node_selector_terms[i].clone());
            i = i + 1;
        }
        let r = NodeAffinity { node_selector_terms: v, schedule_type: self.schedule_type };
        assert(r@.terms =~= self@.terms);
        r
    }
}

/// Some value of the list equals `v`.
pub open spec fn values_contain(values: Seq<Seq<char>>, v: Seq<char>) -> bool {
    exists|i: int| 0 <= i < values.len() && #[trigger] values[i] == v
}

/// Whether evaluating the expression against a node with label value
/// `label` is defined: `Gt` and `Lt` need a first value that reads as an
/// integer, where the node has the label.
pub open spec fn expression_defined(e: ExpressionView, label: Option<Seq<char>>) -> bool {
    (label is Some && (e.operator == NodeAffinityOperator::Gt || e.operator == NodeAffinityOperator::Lt))
        ==> (e.values.len() > 0 && parse_i64_spec(e.values[0]) is Some)
}

/// What an expression says of a node whose label under the expression's key
/// is `label`.
pub open spec fn expression_holds(e: ExpressionView, label: Option<Seq<char>>) -> bool {
    match label {
        Some(v) => match e.operator {
            NodeAffinityOperator::Exists => true,
            NodeAffinityOperator::DoesNotExist => false,
            NodeAffinityOperator::In => values_contain(e.values, v),
            NodeAffinityOperator::NotIn => !values_contain(e.values, v),
            NodeAffinityOperator::Gt => match parse_i64_spec(v) {
                Some(n) => parse_i64_spec(e.values[0]).unwrap() < n,
                None => false,
            },
            NodeAffinityOperator::Lt => match parse_i64_spec(v) {
                Some(n) => parse_i64_spec(e.values[0]).unwrap() > n,
                None => false,
            },
        },
        None => e.operator == NodeAffinityOperator::NotIn || e.operator
            == NodeAffinityOperator::DoesNotExist,
    }
}

pub open spec fn node_label(labels: Seq<(Seq<char>, Seq<char>)>, key: Seq<char>) -> Option<Seq<char>> {
    lookup(labels, key)
}

/// Evaluating the expressions of a term in order, stopping at the first that
/// fails, never reaches an undefined one.
pub open spec fn term_defined(es: Seq<ExpressionView>, labels: Seq<(Seq<char>, Seq<char>)>) -> bool
    decreases es.len(),
{
    if es.len() == 0 {
        true
    } else {
        let l = node_label(labels, es[0].key);
        expression_defined(es[0], l) && (expression_holds(es[0], l) ==> term_defined(es.drop_first(), labels))
    }
}

/// All expressions of a term hold on the node.
pub open spec fn term_holds(es: Seq<ExpressionView>, labels: Seq<(Seq<char>, Seq<char>)>) -> bool {
    forall|j: int|
        0 <= j < es.len() ==> #[trigger] expression_holds(es[j], node_label(labels, es[j].key))
}

/// Number of terms among the first `n` that hold on the node.
pub open spec fn count_holding(terms: Seq<Seq<ExpressionView>>, labels: Seq<(Seq<char>, Seq<char>)>, n: int) -> nat
    decreases n,
{
    if n <= 0 {
        0
    } else {
        count_holding(terms, labels, n - 1) + if term_holds(terms[n - 1], labels) {
            1nat
        } else {
            0nat
        }
    }
}

pub open spec fn affinity_defined(a: NodeAffinityView, labels: Seq<(Seq<char>, Seq<char>)>) -> bool {
    forall|i: int| 0 <= i < a.terms.len() ==> #[trigger] term_defined(a.terms[i], labels)
}

impl NodeAffinityExpression {
    /// Whether the expression holds on the node. Undefined, and not accepted,
    /// when a `Gt` or `Lt` expression meets a labelled node and has no first
    /// value that reads as an integer.
    pub fn matches(&self, node: &Node) -> (r: bool)
        requires
            expression_defined(self@, node_label(node.metadata.labels@, self.key@)),
        ensures
            r == expression_holds(self@, node_label(node.metadata.labels@, self.key@)),
    {
        let value = node.metadata.labels.get(&self.key);
        match value {
            Some(node_value) => match self.operator {
                NodeAffinityOperator::Exists => true,
                NodeAffinityOperator::DoesNotExist => false,
                NodeAffinityOperator::In => self.values_contain(node_value),
                NodeAffinityOperator::NotIn => !self.values_contain(node_value),
                NodeAffinityOperator::Gt => {
                    let pod_int = parse_i64(&self.values[0]).unwrap();
                    match parse_i64(node_value) {
                        Some(node_int) => pod_int < node_int,
                        None => false,
                    }
                },
                NodeAffinityOperator::Lt => {
                    let pod_int = parse_i64(&self.values[0]).unwrap();
                    match parse_i64(node_value) {
                        Some(node_int) => pod_int > node_int,
                        None => false,
                    }
                },
            },
            None => match self.operator {
                NodeAffinityOperator::In | NodeAffinityOperator::Exists | NodeAffinityOperator::Gt
                | NodeAffinityOperator::Lt => false,
                NodeAffinityOperator::NotIn | NodeAffinityOperator::DoesNotExist => true,
            },
        }
    }

    /// Whether evaluating the expression on the node is defined.
    pub fn is_defined_on(&self, node: &Node) -> (r: bool)
        ensures
            r == expression_defined(self@, node_label(node.metadata.labels@, self.key@)),
    {
        match node.metadata.labels.get(&self.key) {
            None => true,
            Some(_) => match self.operator {
                NodeAffinityOperator::Gt | NodeAffinityOperator::Lt => {
                    if self.values.len() == 0 {
                        false
                    } else {
                        assert(self@.values[0] == self.values@[0]@);
                        parse_i64(&self.values[0]).is_some()
                    }
                },
                _ => true,
            },
        }
    }

    fn values_contain(&self, v: &String) -> (r: bool)
        ensures
            r == values_contain(self@.values, v@),
    {
        let mut i: usize = 0;
        while i < self.values.len()
            invariant
                i <= self.values.len(),
                forall|j: int| 0 <= j < i ==> #[trigger] self@.values[j] != v@,
            decreases self.values.len() - i,
        {
            if self.values[i] == *v {
                assert(self@.values[i as int] == v@);
                return true;
            }
            i = i + 1;
        }
        false
    }
}

proof fn lemma_term_defined_suffix(es: Seq<ExpressionView>, labels: Seq<(Seq<char>, Seq<char>)>, j: int)
    requires
        term_defined(es, labels),
        0 <= j <= es.len(),
        forall|k: int| 0 <= k < j ==> #[trigger] expression_holds(es[k], node_label(labels, es[k].key)),
    ensures
        term_defined(es.subrange(j, es.len() as int), labels),
    decreases j,
{
    if j > 0 {
        assert forall|k: int| 0 <= k < j - 1 implies #[trigger] expression_holds(
            es.drop_first()[k],
            node_label(labels, es.drop_first()[k].key),
        ) by {
            assert(es.drop_first()[k] == es[k + 1]);
        }
        assert(expression_holds(es[0], node_label(labels, es[0].key)));
        lemma_term_defined_suffix(es.drop_first(), labels, j - 1);
        assert(es.drop_first().subrange(j - 1, es.drop_first().len() as int) =~= es.subrange(
            j,
            es.len() as int,
        ));
    } else {
        assert(es.subrange(0, es.len() as int) =~= es);
    }
}

/// Whether every expression of a term holds on the node, evaluated in order
/// and stopping at the first that fails.
fn term_matches(es: &Vec<NodeAffinityExpression>, node: &Node) -> (r: bool)
    requires
        term_defined(es@.map_values(|e: NodeAffinityExpression| e@), node.metadata.labels@),
    ensures
        r == term_holds(es@.map_values(|e: NodeAffinityExpression| e@), node.metadata.labels@),
{
    let ghost esv = es@.map_values(|e: NodeAffinityExpression| e@);
    let ghost labels = node.metadata.labels@;
    let mut j: usize = 0;
    while j < es.len()
        invariant
            j <= es.len(),
            esv == es@.map_values(|e: NodeAffinityExpression| e@),
            labels == node.metadata.labels@,
            term_defined(esv, labels),
            forall|k: int| 0 <= k < j ==> #[trigger] expression_holds(esv[k], node_label(labels, esv[k].key)),
        decreases es.len() - j,
    {
        proof {
            lemma_term_defined_suffix(esv, labels, j as int);
            let rest = esv.subrange(j as int, esv.len() as int);
            assert(rest[0] == esv[j as int]);
        }
        if !es[j].matches(node) {
            return false;
        }
        j = j + 1;
    }
    true
}

/// Whether evaluating the expressions of a term from the `j`-th on, in
/// order and stopping at the first that fails, is defined.
fn term_defined_from(es: &Vec<NodeAffinityExpression>, node: &Node, j: usize) -> (r: bool)
    requires
        j <= es.len(),
    ensures
        r == term_defined(
            es@.map_values(|e: NodeAffinityExpression| e@).subrange(j as int, es@.len() as int),
            node.metadata.labels@,
        ),
    decreases es.len() - j,
{
    let ghost esv = es@.map_values(|e: NodeAffinityExpression| e@);
    let ghost rest = esv.subrange(j as int, esv.len() as int);
    if j == es.len() {
        return true;
    }
    assert(rest[0] == es@[j as int]@);
    assert(rest.drop_first() =~= esv.subrange(j as int + 1, esv.len() as int));
    if !es[j].is_defined_on(node) {
        return false;
    }
    if !es[j].matches(node) {
        return true;
    }
    term_defined_from(es, node, j + 1)
}

impl NodeAffinity {
    /// Whether evaluating the affinity on the node is defined, as scoring a
    /// preferred affinity needs.
    pub fn is_defined_on(&self, node: &Node) -> (r: bool)
        ensures
            r == affinity_defined(self@, node.metadata.labels@),
    {
        let mut i: usize = 0;
        while i < self.node_selector_terms.len()
            invariant
                i <= self.node_selector_terms.len(),
                forall|k: int| 0 <= k < i ==> #[trigger] term_defined(self@.terms[k], node.metadata.labels@),
            decreases self.node_selector_terms.len() - i,
        {
            let es = &self.node_selector_terms[i].match_expression;
            let d = term_defined_from(es, node, 0);
            assert(es@.map_values(|e: NodeAffinityExpression| e@).subrange(0, es@.len() as int)
                =~= self@.terms[i as int]);
            if !d {
                return false;
            }
            i = i + 1;
        }
        true
    }
}

impl Default for NodeAffinity {
    /// No terms, required.
    fn default() -> (r: Self)
        ensures
            r@.terms.len() == 0,
            r@.schedule_type == NodeAffinityType::Required,
    {
        let r = NodeAffinity { node_selector_terms: Vec::new(), schedule_type: NodeAffinityType::Required };
        assert(r@.terms =~= Seq::<Seq<ExpressionView>>::empty());
        r
    }
}

impl NodeAffinity {
    /// The number of terms all of whose expressions hold on the node.
    pub fn matches(&self, node: &Node) -> (r: usize)
        requires
            affinity_defined(self@, node.metadata.labels@),
        ensures
            r == count_holding(self@.terms, node.metadata.labels@, self@.terms.len() as int),
    {
        let ghost labels = node.metadata.labels@;
        let mut match_count: usize = 0;
        let mut i: usize = 0;
        while i < self.node_selector_terms.len()
            invariant
                i <= self.node_selector_terms.len(),
                labels == node.metadata.labels@,
                affinity_defined(self@, labels),
                match_count == count_holding(self@.terms, labels, i as int),
                match_count <= i,
            decreases self.node_selector_terms.len() - i,
        {
            let es = &self.node_selector_terms[i].match_expression;
            assert(self@.terms[i as int] == es@.map_values(|e: NodeAffinityExpression| e@));
            if term_matches(es, node) {
                match_count = match_count + 1;
            }
            i = i + 1;
        }
        match_count
    }
}

/// `Gt` and `Lt` compare the node's label, read as an integer `n`, with the
/// expression's first value, read as an integer `v`: `Gt` holds when the
/// node's value is the greater (`v < n`), `Lt` when it is the smaller
/// (`v > n`). A label that does not read as an integer, or no label, fails
/// both.
pub proof fn lemma_gt_lt_compare(e: ExpressionView, label: Seq<char>, v: i64, n: i64)
    requires
        e.values.len() > 0,
        parse_i64_spec(e.values[0]) == Some(v),
        parse_i64_spec(label) == Some(n),
    ensures
        e.operator == NodeAffinityOperator::Gt ==> (expression_holds(e, Some(label)) <==> v < n),
        e.operator == NodeAffinityOperator::Lt ==> (expression_holds(e, Some(label)) <==> v > n),
        e.operator == NodeAffinityOperator::Gt || e.operator == NodeAffinityOperator::Lt ==> !expression_holds(
            e,
            None,
        ),
{
}

/// A label that does not read as an integer fails `Gt` and `Lt`.
pub proof fn lemma_gt_lt_need_integer_label(e: ExpressionView, label: Seq<char>)
    requires
        parse_i64_spec(label) is None,
        e.operator == NodeAffinityOperator::Gt || e.operator == NodeAffinityOperator::Lt,
    ensures
        !expression_holds(e, Some(label)),
{
}

} // verus!
