//! Rule tables: detection rules, which score a text, and rewrite rules,
//! which redact parts of it.

use vstd::prelude::*;
use crate::config::STAGE_SCORE_MAX;
use crate::pattern::{pattern_accepted, Pattern};

verus! {

/// A pattern whose occurrence in a text counts as evidence of injection.
pub struct DetectionRule {
    pub id: String,
    pub weight: u32,
    pub pattern: Pattern,
}

/// A pattern whose occurrences are replaced in a text.
pub struct RewriteRule {
    pub pattern: Pattern,
    pub replacement: String,
}

/// The mathematical content of a `DetectionRule`.
pub struct DetectionRuleView {
    pub id: Seq<char>,
    pub weight: nat,
    pub pattern: Seq<char>,
}

/// The mathematical content of a `RewriteRule`.
pub struct RewriteRuleView {
    pub pattern: Seq<char>,
    pub replacement: Seq<char>,
}

impl View for DetectionRule {
    type V = DetectionRuleView;

    open spec fn view(&self) -> DetectionRuleView {
        DetectionRuleView { id: self.id@, weight: self.weight as nat, pattern: self.pattern@ }
    }
}

impl View for RewriteRule {
    type V = RewriteRuleView;

    open spec fn view(&self) -> RewriteRuleView {
        RewriteRuleView { pattern: self.pattern@, replacement: self.replacement@ }
    }
}

/// Why a rule or a rule table could not be built.
#[derive(Debug, Clone, Copy, PartialEq, Eq, Structural)]
pub enum RuleError {
    /// A pattern is not a regular expression the engine accepts.
    InvalidPattern,
    /// A detection rule has weight zero.
    ZeroWeight,
    /// Two detection rules share an identifier.
    DuplicateId,
    /// The weights of the detection rules add up to more than a score can
    /// hold.
    WeightOverflow,
}

/// Builds a detection rule.
pub fn rule(id: &str, weight: u32, pattern: &str) -> (r: Result<DetectionRule, RuleError>)
    ensures
        r is Ok <==> pattern_accepted(pattern@),
        r matches Ok(d) ==> d@ == (DetectionRuleView {
            id: id@,
            weight: weight as nat,
            pattern: pattern@,
        }),
        r matches Err(e) ==> e == RuleError::InvalidPattern,
{
    match Pattern::new(pattern) {
        Ok(compiled) => Ok(DetectionRule { id: id.to_owned(), weight, pattern: compiled }),
        Err(_) => Err(RuleError::InvalidPattern),
    }
}

/// Builds a rewrite rule.
pub fn rewrite(pattern: &str, replacement: &str) -> (r: Result<RewriteRule, RuleError>)
    ensures
        r is Ok <==> pattern_accepted(pattern@),
        r matches Ok(w) ==> w@ == (RewriteRuleView {
            pattern: pattern@,
            replacement: replacement@,
        }),
        r matches Err(e) ==> e == RuleError::InvalidPattern,
{
    match Pattern::new(pattern) {
        Ok(compiled) => Ok(RewriteRule { pattern: compiled, replacement: replacement.to_owned() }),
        Err(_) => Err(RuleError::InvalidPattern),
    }
}

/// The sum of the weights of `rules`.
pub open spec fn total_weight(rules: Seq<DetectionRuleView>) -> nat
    decreases rules.len(),
{
    if rules.len() == 0 {
        0
    } else {
        total_weight(rules.drop_last()) + rules.last().weight
    }
}

/// No two rules of the table share an identifier.
pub open spec fn distinct_ids(rules: Seq<DetectionRuleView>) -> bool {
    forall|i: int, j: int|
        0 <= i < j < rules.len() ==> (#[trigger] rules[i]).id != (#[trigger] rules[j]).id
}

/// Every rule of the table has a positive weight.
pub open spec fn positive_weights(rules: Seq<DetectionRuleView>) -> bool {
    forall|i: int| 0 <= i < rules.len() ==> (#[trigger] rules[i]).weight > 0
}

/// Every score that the table can produce fits in a `u32`.
pub open spec fn weights_fit(rules: Seq<DetectionRuleView>) -> bool {
    total_weight(rules) + STAGE_SCORE_MAX <= u32::MAX
}

/// The mathematical content of a `RuleSet`.
pub struct RuleSetView {
    pub detection: Seq<DetectionRuleView>,
    pub rewrites: Seq<RewriteRuleView>,
}

impl RuleSetView {
    /// What holds of every rule table: its detection rules have distinct
    /// identifiers and positive weights, and its scores cannot overflow.
    pub open spec fn well_formed(self) -> bool {
        &&& distinct_ids(self.detection)
        &&& positive_weights(self.detection)
        &&& weights_fit(self.detection)
    }
}

/// An immutable table of detection and rewrite rules, built once and passed
/// by reference to the sanitizer.
pub struct RuleSet {
    detection: Vec<DetectionRule>,
    rewrites: Vec<RewriteRule>,
}

/// The views of a list of detection rules.
pub open spec fn detection_views(rules: Seq<DetectionRule>) -> Seq<DetectionRuleView> {
    Seq::new(rules.len(), |i: int| rules[i]@)
}

/// The views of a list of rewrite rules.
pub open spec fn rewrite_views(rules: Seq<RewriteRule>) -> Seq<RewriteRuleView> {
    Seq::new(rules.len(), |i: int| rules[i]@)
}

impl View for RuleSet {
    type V = RuleSetView;

    closed spec fn view(&self) -> RuleSetView {
        RuleSetView {
            detection: detection_views(self.detection@),
            rewrites: rewrite_views(self.rewrites@),
        }
    }
}

/// The weights of a prefix of a table add up to no more than those of the
/// whole table.
pub proof fn lemma_total_weight_prefix(rules: Seq<DetectionRuleView>, k: int)
    requires
        0 <= k <= rules.len(),
    ensures
        total_weight(rules.take(k)) <= total_weight(rules),
    decreases rules.len() - k,
{
    if k == rules.len() {
        assert(rules.take(k) == rules);
    } else {
        lemma_total_weight_prefix(rules, k + 1);
        assert(rules.take(k + 1).drop_last() == rules.take(k));
    }
}

fn check_weights(detection: &Vec<DetectionRule>) -> (r: Result<(), RuleError>)
    ensures
        r is Ok <==> positive_weights(detection_views(detection@)) && weights_fit(
            detection_views(detection@),
        ),
        r matches Err(e) ==> e == (if !positive_weights(detection_views(detection@)) {
            RuleError::ZeroWeight
        } else {
            RuleError::WeightOverflow
        }),
{
    let ghost views = detection_views(detection@);
    let n = detection.len();
    let mut i: usize = 0;
    while i < n
        invariant
            n == detection.len(),
            i <= n,
            views == detection_views(detection@),
            forall|j: int| 0 <= j < i ==> (#[trigger] views[j]).weight > 0,
        decreases n - i,
    {
        if detection[i].weight == 0 {
            assert(views[i as int].weight == 0);
            return Err(RuleError::ZeroWeight);
        }
        i += 1;
    }
    let limit: u32 = u32::MAX - STAGE_SCORE_MAX;
    let mut total: u32 = 0;
    let mut k: usize = 0;
    while k < n
        invariant
            n == detection.len(),
            k <= n,
            views == detection_views(detection@),
            positive_weights(views),
            limit == u32::MAX - STAGE_SCORE_MAX,
            total == total_weight(views.take(k as int)),
            total <= limit,
        decreases n - k,
    {
        let w = detection[k].weight;
        proof {
            assert(views.take(k + 1).drop_last() == views.take(k as int));
            assert(views.take(k + 1).last().weight == w);
        }
        if w > limit - total {
            proof {
                lemma_total_weight_prefix(views, k + 1);
            }
            return Err(RuleError::WeightOverflow);
        }
        total = total + w;
        k += 1;
    }
    assert(views.take(n as int) == views);
    Ok(())
}

fn check_ids(detection: &Vec<DetectionRule>) -> (r: bool)
    ensures
        r == distinct_ids(detection_views(detection@)),
{
    let ghost views = detection_views(detection@);
    let n = detection.len();
    let mut j: usize = 0;
    while j < n
        invariant
            n == detection.len(),
            j <= n,
            views == detection_views(detection@),
            forall|a: int, b: int|
                0 <= a < b < j ==> (#[trigger] views[a]).id != (#[trigger] views[b]).id,
        decreases n - j,
    {
        let mut i: usize = 0;
        while i < j
            invariant
                n == detection.len(),
                i <= j < n,
                views == detection_views(detection@),
                forall|a: int| 0 <= a < i ==> (#[trigger] views[a]).id != views[j as int].id,
            decreases j - i,
        {
            if detection[i].id == detection[j].id {
                assert(views[i as int].id == views[j as int].id);
                return false;
            }
            i += 1;
        }
        j += 1;
    }
    true
}

impl RuleSet {
    #[verifier::type_invariant]
    spec fn valid(self) -> bool {
        self@.well_formed()
    }

    /// Builds a rule table, which is refused where a detection rule has
    /// weight zero, two of them share an identifier, or their weights add
    /// up to more than a score can hold. A zero weight is reported first,
    /// then an overflow, then a duplicate.
    pub fn new(detection: Vec<DetectionRule>, rewrites: Vec<RewriteRule>) -> (r: Result<
        RuleSet,
        RuleError,
    >)
        ensures
            r is Ok <==> {
                &&& positive_weights(detection_views(detection@))
                &&& weights_fit(detection_views(detection@))
                &&& distinct_ids(detection_views(detection@))
            },
            r matches Ok(set) ==> {
                &&& set@.detection == detection_views(detection@)
                &&& set@.rewrites == rewrite_views(rewrites@)
                &&& set@.well_formed()
            },
            r matches Err(e) ==> e == (if !positive_weights(detection_views(detection@)) {
                RuleError::ZeroWeight
            } else if !weights_fit(detection_views(detection@)) {
                RuleError::WeightOverflow
            } else {
                RuleError::DuplicateId
            }),
    {
        match check_weights(&detection) {
            Err(e) => {
                return Err(e);
            },
            Ok(_) => {},
        }
        if !check_ids(&detection) {
            return Err(RuleError::DuplicateId);
        }
        Ok(RuleSet { detection, rewrites })
    }

    /// The detection rules, in table order.
    pub fn detection(&self) -> (r: &Vec<DetectionRule>)
        ensures
            detection_views(r@) == self@.detection,
            self@.well_formed(),
    {
        proof {
            use_type_invariant(self);
        }
        &self.detection
    }

    /// The rewrite rules, in table order.
    pub fn rewrites(&self) -> (r: &Vec<RewriteRule>)
        ensures
            rewrite_views(r@) == self@.rewrites,
            self@.well_formed(),
    {
        proof {
            use_type_invariant(self);
        }
        &self.rewrites
    }
}

} // verus!
