//! The text sanitizer: an ordered pipeline that normalizes a comment, strips
//! dangerous characters, scores it against the detection rules, redacts it
//! with the rewrite rules and decides whether to block it.

use vstd::prelude::*;
use crate::config::{
    BLOCKED_COMMENT_TOKEN, BLOCK_SCORE_THRESHOLD, COMMENT_MAX_CHARS, EMPTY_COMMENT_TOKEN,
    STAGE_SCORE_MAX,
};
use crate::normalize::{nfkc, nfkc_form};
use crate::pattern::{pattern_matches, pattern_rewrite};
use crate::rules::{
    detection_views, lemma_total_weight_prefix, rewrite_views, total_weight, DetectionRuleView,
    RewriteRuleView, RuleSet, RuleSetView,
};
use crate::scrub::{
    cap_chars, capped, compact_whitespace, compact_whitespace_chars, remove_control_chars,
    remove_zero_width_chars, trim, trim_chars, without_control_chars, without_zero_width_chars,
};
use crate::tags::{
    ascending, insert_sorted, lemma_insert_sorted_ascending, lemma_insert_sorted_contains, TagSet,
};
use crate::text::{chars_of, same_chars, string_of, string_texts};

verus! {

/// What the character-level stages make of an input: the text they leave and
/// which of them altered it.
pub struct Scrubbed {
    pub text: Seq<char>,
    pub normalized: bool,
    pub control_removed: bool,
    pub zero_width_removed: bool,
    pub compacted: bool,
    pub trimmed: bool,
    pub truncated: bool,
}

/// The character-level stages, in order: normalization, removal of control
/// characters, removal of zero-width characters, whitespace compaction,
/// trimming and the length cap. Each flag says whether the output of its
/// stage differs from its input.
pub open spec fn scrubbed(input: Seq<char>) -> Scrubbed {
    let normal = nfkc_form(input);
    let printable = without_control_chars(normal);
    let visible = without_zero_width_chars(printable);
    let compact = compact_whitespace(visible);
    let trimmed = trim(compact);
    Scrubbed {
        text: capped(trimmed, COMMENT_MAX_CHARS as nat),
        normalized: normal != input,
        control_removed: printable != normal,
        zero_width_removed: visible != printable,
        compacted: compact != visible,
        trimmed: trimmed != compact,
        truncated: trimmed.len() > COMMENT_MAX_CHARS,
    }
}

/// The points that the character-level stages contribute to the score.
pub open spec fn scrub_score(s: Scrubbed) -> nat {
    (if s.normalized { 1nat } else { 0 }) + (if s.control_removed { 1nat } else { 0 }) + (
    if s.zero_width_removed { 1nat } else { 0 }) + (if s.truncated { 2nat } else { 0 })
}

/// Whether one of the character-level stages altered the text.
pub open spec fn scrub_changed(s: Scrubbed) -> bool {
    s.normalized || s.control_removed || s.zero_width_removed || s.compacted || s.trimmed
        || s.truncated
}

/// Whether a detection rule matches a text.
pub open spec fn rule_hits(rule: DetectionRuleView, text: Seq<char>) -> bool {
    pattern_matches(rule.pattern, text)
}

/// Whether at least one detection rule matches a text.
pub open spec fn any_rule_hits(rules: Seq<DetectionRuleView>, text: Seq<char>) -> bool {
    exists|i: int| 0 <= i < rules.len() && rule_hits(#[trigger] rules[i], text)
}

/// The sum of the weights of the detection rules that match a text.
pub open spec fn detection_score(rules: Seq<DetectionRuleView>, text: Seq<char>) -> nat
    decreases rules.len(),
{
    if rules.len() == 0 {
        0
    } else {
        detection_score(rules.drop_last(), text) + if rule_hits(rules.last(), text) {
            rules.last().weight
        } else {
            0
        }
    }
}

/// The text after the rewrite rules were applied in table order, each to the
/// output of the one before it.
pub open spec fn rewritten(rewrites: Seq<RewriteRuleView>, text: Seq<char>) -> Seq<char>
    decreases rewrites.len(),
{
    if rewrites.len() == 0 {
        text
    } else {
        pattern_rewrite(
            rewrites.last().pattern,
            rewritten(rewrites.drop_last(), text),
            rewrites.last().replacement,
        )
    }
}

/// Whether some rewrite rule, applied in its turn, altered the text.
pub open spec fn rewrite_changed(rewrites: Seq<RewriteRuleView>, text: Seq<char>) -> bool
    decreases rewrites.len(),
{
    if rewrites.len() == 0 {
        false
    } else {
        rewrite_changed(rewrites.drop_last(), text) || rewritten(rewrites, text) != rewritten(
            rewrites.drop_last(),
            text,
        )
    }
}

/// The text that is left for the block decision: what scrubbing and
/// rewriting leave.
pub open spec fn redacted(rules: RuleSetView, input: Seq<char>) -> Seq<char> {
    rewritten(rules.rewrites, scrubbed(input).text)
}

/// Whether a detection rule matches the scrubbed input.
pub open spec fn injection_detected(rules: RuleSetView, input: Seq<char>) -> bool {
    any_rule_hits(rules.detection, scrubbed(input).text)
}

/// The risk score of an input.
pub open spec fn risk_score(rules: RuleSetView, input: Seq<char>) -> nat {
    scrub_score(scrubbed(input)) + detection_score(rules.detection, scrubbed(input).text) + (
    if redacted(rules, input).len() == 0 {
        1nat
    } else {
        0
    })
}

/// Whether an input is blocked: a detection rule matches, or the score
/// reaches the threshold.
pub open spec fn is_blocked(rules: RuleSetView, input: Seq<char>) -> bool {
    injection_detected(rules, input) || risk_score(rules, input) >= BLOCK_SCORE_THRESHOLD
}

/// The text that replaces an input.
pub open spec fn sanitized_text(rules: RuleSetView, input: Seq<char>) -> Seq<char> {
    if is_blocked(rules, input) {
        BLOCKED_COMMENT_TOKEN@
    } else if redacted(rules, input).len() == 0 {
        EMPTY_COMMENT_TOKEN@
    } else {
        redacted(rules, input)
    }
}

/// Whether some stage altered the text on its way through the pipeline.
pub open spec fn is_changed(rules: RuleSetView, input: Seq<char>) -> bool {
    ||| scrub_changed(scrubbed(input))
    ||| rewrite_changed(rules.rewrites, scrubbed(input).text)
    ||| redacted(rules, input).len() == 0
    ||| is_blocked(rules, input)
}

/// The tag that reports a match of the detection rule `id`.
pub open spec fn detected_tag(id: Seq<char>) -> Seq<char> {
    "detected:"@ + id
}

/// `tags` with `tag` added where `applies`.
pub open spec fn with_tag(tags: Seq<Seq<char>>, applies: bool, tag: Seq<char>) -> Seq<Seq<char>> {
    if applies {
        insert_sorted(tags, tag)
    } else {
        tags
    }
}

/// The tags of the character-level stages that altered the text.
pub open spec fn stage_reasons(s: Scrubbed) -> Seq<Seq<char>> {
    with_tag(
        with_tag(
            with_tag(
                with_tag(
                    with_tag(
                        with_tag(Seq::empty(), s.normalized, "unicode_normalized_nfkc"@),
                        s.control_removed,
                        "control_chars_removed"@,
                    ),
                    s.zero_width_removed,
                    "zero_width_removed"@,
                ),
                s.compacted,
                "whitespace_compacted"@,
            ),
            s.trimmed,
            "trimmed"@,
        ),
        s.truncated,
        "max_length_truncated"@,
    )
}

/// `tags` with the tag of every detection rule that matches `text`.
pub open spec fn detection_reasons(
    tags: Seq<Seq<char>>,
    rules: Seq<DetectionRuleView>,
    text: Seq<char>,
) -> Seq<Seq<char>>
    decreases rules.len(),
{
    if rules.len() == 0 {
        tags
    } else {
        with_tag(
            detection_reasons(tags, rules.drop_last(), text),
            rule_hits(rules.last(), text),
            detected_tag(rules.last().id),
        )
    }
}

/// The reasons reported for an input, in strictly increasing order: the
/// tags of the stages that altered the text, of the rules that matched, of
/// an empty result, and of the block decision.
pub open spec fn reasons_of(rules: RuleSetView, input: Seq<char>) -> Seq<Seq<char>> {
    let s = scrubbed(input);
    let found = with_tag(
        detection_reasons(stage_reasons(s), rules.detection, s.text),
        redacted(rules, input).len() == 0,
        "empty_after_scrub"@,
    );
    if !is_blocked(rules, input) {
        found
    } else if injection_detected(rules, input) {
        insert_sorted(found, "blocked_by_detected_injection_rule"@)
    } else {
        insert_sorted(found, "blocked_by_score_threshold"@)
    }
}

/// The result of sanitizing one text.
#[derive(Debug)]
pub struct SanitizationOutcome {
    pub sanitized: String,
    pub blocked: bool,
    pub changed: bool,
    pub score: u32,
    pub reasons: Vec<String>,
    pub original_length: usize,
    pub sanitized_length: usize,
}

/// The mathematical content of a `SanitizationOutcome`.
pub struct OutcomeView {
    pub sanitized: Seq<char>,
    pub blocked: bool,
    pub changed: bool,
    pub score: nat,
    pub reasons: Seq<Seq<char>>,
    pub original_length: nat,
    pub sanitized_length: nat,
}

impl View for SanitizationOutcome {
    type V = OutcomeView;

    open spec fn view(&self) -> OutcomeView {
        OutcomeView {
            sanitized: self.sanitized@,
            blocked: self.blocked,
            changed: self.changed,
            score: self.score as nat,
            reasons: string_texts(self.reasons@),
            original_length: self.original_length as nat,
            sanitized_length: self.sanitized_length as nat,
        }
    }
}

/// What the pipeline makes of `input` under `rules`. Lengths are counted in
/// characters.
pub open spec fn outcome_of(rules: RuleSetView, input: Seq<char>) -> OutcomeView {
    OutcomeView {
        sanitized: sanitized_text(rules, input),
        blocked: is_blocked(rules, input),
        changed: is_changed(rules, input),
        score: risk_score(rules, input),
        reasons: reasons_of(rules, input),
        original_length: input.len(),
        sanitized_length: sanitized_text(rules, input).len(),
    }
}

/// The output of the character-level stages.
pub struct ScrubOutput {
    pub chars: Vec<char>,
    pub normalized: bool,
    pub control_removed: bool,
    pub zero_width_removed: bool,
    pub compacted: bool,
    pub trimmed: bool,
    pub truncated: bool,
}

impl View for ScrubOutput {
    type V = Scrubbed;

    open spec fn view(&self) -> Scrubbed {
        Scrubbed {
            text: self.chars@,
            normalized: self.normalized,
            control_removed: self.control_removed,
            zero_width_removed: self.zero_width_removed,
            compacted: self.compacted,
            trimmed: self.trimmed,
            truncated: self.truncated,
        }
    }
}

/// Runs the character-level stages on `input`.
pub fn scrub_text(input: &str) -> (r: ScrubOutput)
    ensures
        r@ == scrubbed(input@),
{
    let original = chars_of(input);
    let normal_text = nfkc(input);
    let normal = chars_of(normal_text.as_str());
    let printable = remove_control_chars(&normal);
    let visible = remove_zero_width_chars(&printable);
    let compact = compact_whitespace_chars(&visible);
    let trimmed = trim_chars(&compact);
    let normalized = !same_chars(&normal, &original);
    let control_removed = !same_chars(&printable, &normal);
    let zero_width_removed = !same_chars(&visible, &printable);
    let compacted = !same_chars(&compact, &visible);
    let was_trimmed = !same_chars(&trimmed, &compact);
    let truncated = trimmed.len() > COMMENT_MAX_CHARS;
    let chars = cap_chars(trimmed, COMMENT_MAX_CHARS);
    ScrubOutput {
        chars,
        normalized,
        control_removed,
        zero_width_removed,
        compacted,
        trimmed: was_trimmed,
        truncated,
    }
}

/// The outcome of the detection pass over one text.
pub struct Detection {
    pub matched: bool,
    pub score: u32,
}

proof fn lemma_detection_score_bounded(rules: Seq<DetectionRuleView>, text: Seq<char>)
    ensures
        detection_score(rules, text) <= total_weight(rules),
    decreases rules.len(),
{
    if rules.len() > 0 {
        lemma_detection_score_bounded(rules.drop_last(), text);
    }
}

/// The detection pass: every rule is tried, in table order, and each match
/// adds its weight to the score and its tag to the reasons.
pub fn detect(table: &RuleSet, text: &str, reasons: &mut TagSet) -> (r: Detection)
    ensures
        r.matched == any_rule_hits(table@.detection, text@),
        r.score == detection_score(table@.detection, text@),
        r.score <= u32::MAX - STAGE_SCORE_MAX,
        final(reasons)@ == detection_reasons(old(reasons)@, table@.detection, text@),
{
    let rules = table.detection();
    let ghost views = detection_views(rules@);
    let ghost before = reasons@;
    proof {
        lemma_detection_score_bounded(views, text@);
    }
    let n = rules.len();
    let mut matched = false;
    let mut score: u32 = 0;
    let mut i: usize = 0;
    while i < n
        invariant
            n == rules.len(),
            i <= n,
            views == detection_views(rules@),
            total_weight(views) <= u32::MAX,
            matched == any_rule_hits(views.take(i as int), text@),
            score == detection_score(views.take(i as int), text@),
            reasons@ == detection_reasons(before, views.take(i as int), text@),
        decreases n - i,
    {
        let ghost done = views.take(i as int);
        let ghost next = views.take(i + 1);
        proof {
            assert(next.drop_last() == done);
            assert(next.last() == views[i as int]);
            lemma_detection_score_bounded(next, text@);
            lemma_total_weight_prefix(views, i + 1);
        }
        let hit = rules[i].pattern.is_match(text);
        assert(hit == rule_hits(views[i as int], text@));
        if hit {
            matched = true;
            score = score + rules[i].weight;
            let mut tag = chars_of("detected:");
            let mut id = chars_of(rules[i].id.as_str());
            tag.append(&mut id);
            assert(tag@ == detected_tag(views[i as int].id));
            reasons.insert(tag);
        }
        proof {
            assert(any_rule_hits(next, text@) == (any_rule_hits(done, text@) || hit)) by {
                if any_rule_hits(next, text@) {
                    let k = choose|k: int|
                        0 <= k < next.len() && rule_hits(#[trigger] next[k], text@);
                    if k < i {
                        assert(rule_hits(done[k], text@));
                    }
                }
                if any_rule_hits(done, text@) {
                    let k = choose|k: int|
                        0 <= k < done.len() && rule_hits(#[trigger] done[k], text@);
                    assert(rule_hits(next[k], text@));
                }
                if hit {
                    assert(rule_hits(next[i as int], text@));
                }
            }
        }
        i += 1;
    }
    assert(views.take(n as int) == views);
    Detection { matched, score }
}

/// The outcome of the rewrite pass over one text.
pub struct Rewriting {
    pub text: String,
    pub changed: bool,
}

/// The rewrite pass: every rule is applied, in table order, to the output of
/// the one before it.
pub fn apply_rewrites(table: &RuleSet, text: String) -> (r: Rewriting)
    ensures
        r.text@ == rewritten(table@.rewrites, text@),
        r.changed == rewrite_changed(table@.rewrites, text@),
{
    let rules = table.rewrites();
    let ghost views = rewrite_views(rules@);
    let ghost start = text@;
    let n = rules.len();
    let mut current = text;
    let mut changed = false;
    let mut i: usize = 0;
    while i < n
        invariant
            n == rules.len(),
            i <= n,
            views == rewrite_views(rules@),
            current@ == rewritten(views.take(i as int), start),
            changed == rewrite_changed(views.take(i as int), start),
        decreases n - i,
    {
        proof {
            assert(views.take(i + 1).drop_last() == views.take(i as int));
            assert(views.take(i + 1).last() == views[i as int]);
        }
        let updated = rules[i].pattern.replace_all(current.as_str(), rules[i].replacement.as_str());
        if updated != current {
            changed = true;
            current = updated;
        }
        i += 1;
    }
    assert(views.take(n as int) == views);
    Rewriting { text: current, changed }
}

/// Sanitizes one comment. The pipeline never fails: at worst the comment is
/// replaced by the block token. The outcome is a function of the rule
/// table and the input, and the comment is blocked exactly when a detection
/// rule matched it or its score reached the threshold.
pub fn sanitize_comment_text(rules: &RuleSet, input: &str) -> (out: SanitizationOutcome)
    ensures
        out@ == outcome_of(rules@, input@),
        out.blocked <==> injection_detected(rules@, input@) || out.score >= BLOCK_SCORE_THRESHOLD,
{
    let original_length = input.unicode_len();
    let scrub = scrub_text(input);
    let mut reasons = TagSet::new();
    let mut score: u32 = 0;
    let mut changed = false;
    if scrub.normalized {
        changed = true;
        score = score + 1;
        reasons.insert(chars_of("unicode_normalized_nfkc"));
    }
    if scrub.control_removed {
        changed = true;
        score = score + 1;
        reasons.insert(chars_of("control_chars_removed"));
    }
    if scrub.zero_width_removed {
        changed = true;
        score = score + 1;
        reasons.insert(chars_of("zero_width_removed"));
    }
    if scrub.compacted {
        changed = true;
        reasons.insert(chars_of("whitespace_compacted"));
    }
    if scrub.trimmed {
        changed = true;
        reasons.insert(chars_of("trimmed"));
    }
    if scrub.truncated {
        changed = true;
        score = score + 2;
        reasons.insert(chars_of("max_length_truncated"));
    }
    let text = string_of(&scrub.chars);
    let found = detect(rules, text.as_str(), &mut reasons);
    score = score + found.score;
    let matched = found.matched;

    let rewriting = apply_rewrites(rules, text);
    if rewriting.changed {
        changed = true;
    }
    let mut sanitized = rewriting.text;
    if sanitized.as_str().unicode_len() == 0 {
        changed = true;
        score = score + 1;
        reasons.insert(chars_of("empty_after_scrub"));
        sanitized = EMPTY_COMMENT_TOKEN.to_owned();
    }
    let blocked = matched || score >= BLOCK_SCORE_THRESHOLD;
    if blocked {
        changed = true;
        if matched {
            reasons.insert(chars_of("blocked_by_detected_injection_rule"));
        } else {
            reasons.insert(chars_of("blocked_by_score_threshold"));
        }
        sanitized = BLOCKED_COMMENT_TOKEN.to_owned();
    }
    let sanitized_length = sanitized.as_str().unicode_len();
    let reasons = reasons.to_strings();
    SanitizationOutcome {
        sanitized,
        blocked,
        changed,
        score,
        reasons,
        original_length,
        sanitized_length,
    }
}

/// Whether `tag` is among the reasons reported for an input.
pub open spec fn is_reason(rules: RuleSetView, input: Seq<char>, tag: Seq<char>) -> bool {
    let s = scrubbed(input);
    ||| is_stage_reason(s, tag)
    ||| is_detection_reason(rules.detection, s.text, tag)
    ||| redacted(rules, input).len() == 0 && tag == "empty_after_scrub"@
    ||| injection_detected(rules, input) && tag == "blocked_by_detected_injection_rule"@
    ||| is_blocked(rules, input) && !injection_detected(rules, input) && tag
        == "blocked_by_score_threshold"@
}

/// Whether `tag` reports that one of the character-level stages altered the
/// text.
pub open spec fn is_stage_reason(s: Scrubbed, tag: Seq<char>) -> bool {
    ||| s.normalized && tag == "unicode_normalized_nfkc"@
    ||| s.control_removed && tag == "control_chars_removed"@
    ||| s.zero_width_removed && tag == "zero_width_removed"@
    ||| s.compacted && tag == "whitespace_compacted"@
    ||| s.trimmed && tag == "trimmed"@
    ||| s.truncated && tag == "max_length_truncated"@
}

/// Whether `tag` reports a match of one of the detection rules.
pub open spec fn is_detection_reason(
    rules: Seq<DetectionRuleView>,
    text: Seq<char>,
    tag: Seq<char>,
) -> bool {
    exists|i: int|
        0 <= i < rules.len() && rule_hits(#[trigger] rules[i], text) && tag == detected_tag(
            rules[i].id,
        )
}

/// Sanitizing is deterministic: two outcomes of the same input under the
/// same rules are identical in every field.
pub proof fn lemma_outcome_deterministic(
    rules: RuleSetView,
    input: Seq<char>,
    first: OutcomeView,
    second: OutcomeView,
)
    requires
        first == outcome_of(rules, input),
        second == outcome_of(rules, input),
    ensures
        first == second,
{
}

proof fn lemma_with_tag_ascending(tags: Seq<Seq<char>>, applies: bool, tag: Seq<char>)
    requires
        ascending(tags),
    ensures
        ascending(with_tag(tags, applies, tag)),
{
    lemma_insert_sorted_ascending(tags, tag);
}

proof fn lemma_with_tag_contains(
    tags: Seq<Seq<char>>,
    applies: bool,
    tag: Seq<char>,
    t: Seq<char>,
)
    ensures
        with_tag(tags, applies, tag).contains(t) <==> (tags.contains(t) || (applies && t == tag)),
{
    lemma_insert_sorted_contains(tags, tag, t);
}

proof fn lemma_stage_reasons(s: Scrubbed, t: Seq<char>)
    ensures
        ascending(stage_reasons(s)),
        stage_reasons(s).contains(t) <==> is_stage_reason(s, t),
{
    let r0 = Seq::<Seq<char>>::empty();
    let r1 = with_tag(r0, s.normalized, "unicode_normalized_nfkc"@);
    let r2 = with_tag(r1, s.control_removed, "control_chars_removed"@);
    let r3 = with_tag(r2, s.zero_width_removed, "zero_width_removed"@);
    let r4 = with_tag(r3, s.compacted, "whitespace_compacted"@);
    let r5 = with_tag(r4, s.trimmed, "trimmed"@);
    let r6 = with_tag(r5, s.truncated, "max_length_truncated"@);
    assert(ascending(r0));
    lemma_with_tag_ascending(r0, s.normalized, "unicode_normalized_nfkc"@);
    lemma_with_tag_ascending(r1, s.control_removed, "control_chars_removed"@);
    lemma_with_tag_ascending(r2, s.zero_width_removed, "zero_width_removed"@);
    lemma_with_tag_ascending(r3, s.compacted, "whitespace_compacted"@);
    lemma_with_tag_ascending(r4, s.trimmed, "trimmed"@);
    lemma_with_tag_ascending(r5, s.truncated, "max_length_truncated"@);
    assert(!r0.contains(t));
    lemma_with_tag_contains(r0, s.normalized, "unicode_normalized_nfkc"@, t);
    lemma_with_tag_contains(r1, s.control_removed, "control_chars_removed"@, t);
    lemma_with_tag_contains(r2, s.zero_width_removed, "zero_width_removed"@, t);
    lemma_with_tag_contains(r3, s.compacted, "whitespace_compacted"@, t);
    lemma_with_tag_contains(r4, s.trimmed, "trimmed"@, t);
    lemma_with_tag_contains(r5, s.truncated, "max_length_truncated"@, t);
}

proof fn lemma_detection_reasons(
    tags: Seq<Seq<char>>,
    rules: Seq<DetectionRuleView>,
    text: Seq<char>,
    t: Seq<char>,
)
    requires
        ascending(tags),
    ensures
        ascending(detection_reasons(tags, rules, text)),
        detection_reasons(tags, rules, text).contains(t) <==> (tags.contains(t)
            || is_detection_reason(rules, text, t)),
    decreases rules.len(),
{
    if rules.len() > 0 {
        let head = rules.drop_last();
        let last = rules.last();
        let inner = detection_reasons(tags, head, text);
        lemma_detection_reasons(tags, head, text, t);
        lemma_with_tag_ascending(inner, rule_hits(last, text), detected_tag(last.id));
        lemma_with_tag_contains(inner, rule_hits(last, text), detected_tag(last.id), t);
        if is_detection_reason(head, text, t) {
            let k = choose|k: int|
                0 <= k < head.len() && rule_hits(#[trigger] head[k], text) && t == detected_tag(
                    head[k].id,
                );
            assert(rule_hits(rules[k], text));
        }
        if is_detection_reason(rules, text, t) {
            let k = choose|k: int|
                0 <= k < rules.len() && rule_hits(#[trigger] rules[k], text) && t == detected_tag(
                    rules[k].id,
                );
            if k < head.len() {
                assert(rule_hits(head[k], text));
            }
        }
        if rule_hits(last, text) && t == detected_tag(last.id) {
            assert(rule_hits(rules[rules.len() - 1], text));
        }
    }
}

/// The reasons are reported in strictly increasing order: sorted, and
/// nothing twice.
pub proof fn lemma_reasons_ascending(rules: RuleSetView, input: Seq<char>)
    ensures
        ascending(reasons_of(rules, input)),
{
    let s = scrubbed(input);
    let t = Seq::<char>::empty();
    lemma_stage_reasons(s, t);
    lemma_detection_reasons(stage_reasons(s), rules.detection, s.text, t);
    let detected = detection_reasons(stage_reasons(s), rules.detection, s.text);
    lemma_with_tag_ascending(detected, redacted(rules, input).len() == 0, "empty_after_scrub"@);
    let found = with_tag(detected, redacted(rules, input).len() == 0, "empty_after_scrub"@);
    lemma_insert_sorted_ascending(found, "blocked_by_detected_injection_rule"@);
    lemma_insert_sorted_ascending(found, "blocked_by_score_threshold"@);
}

/// The reasons are complete and hold nothing else: a tag is reported
/// exactly when its stage altered the text, its rule matched, nothing was
/// left of the text, or it names the cause of the block.
pub proof fn lemma_reasons_complete(rules: RuleSetView, input: Seq<char>, tag: Seq<char>)
    ensures
        reasons_of(rules, input).contains(tag) <==> is_reason(rules, input, tag),
{
    let s = scrubbed(input);
    lemma_stage_reasons(s, tag);
    lemma_detection_reasons(stage_reasons(s), rules.detection, s.text, tag);
    let detected = detection_reasons(stage_reasons(s), rules.detection, s.text);
    lemma_with_tag_contains(
        detected,
        redacted(rules, input).len() == 0,
        "empty_after_scrub"@,
        tag,
    );
    let found = with_tag(detected, redacted(rules, input).len() == 0, "empty_after_scrub"@);
    lemma_insert_sorted_contains(found, "blocked_by_detected_injection_rule"@, tag);
    lemma_insert_sorted_contains(found, "blocked_by_score_threshold"@, tag);
}

/// A score is never negative, and a text is blocked exactly when a detection
/// rule matched it or its score reached the threshold.
pub proof fn lemma_blocked_iff_detected_or_threshold(
    rules: RuleSetView,
    input: Seq<char>,
    out: OutcomeView,
)
    requires
        out == outcome_of(rules, input),
    ensures
        out.score >= 0,
        out.blocked <==> any_rule_hits(rules.detection, scrubbed(input).text) || out.score
            >= BLOCK_SCORE_THRESHOLD,
{
}

/// A blocked text is replaced by the block token, whatever the rewrite
/// rules made of it, and counts as changed.
pub proof fn lemma_blocked_text_is_token(rules: RuleSetView, input: Seq<char>, out: OutcomeView)
    requires
        out == outcome_of(rules, input),
        out.blocked,
    ensures
        out.sanitized == BLOCKED_COMMENT_TOKEN@,
        out.changed,
        out.reasons.contains("blocked_by_detected_injection_rule"@) != out.reasons.contains(
            "blocked_by_score_threshold"@,
        ),
{
    let by_rule = "blocked_by_detected_injection_rule"@;
    let by_score = "blocked_by_score_threshold"@;
    lemma_block_tags_are_no_other_tags(rules, input);
    lemma_reasons_complete(rules, input, by_rule);
    lemma_reasons_complete(rules, input, by_score);
}

proof fn lemma_block_tags_are_no_other_tags(rules: RuleSetView, input: Seq<char>)
    ensures
        is_reason(rules, input, "blocked_by_detected_injection_rule"@) <==> injection_detected(
            rules,
            input,
        ),
        is_reason(rules, input, "blocked_by_score_threshold"@) <==> is_blocked(rules, input)
            && !injection_detected(rules, input),
{
    reveal_strlit("blocked_by_detected_injection_rule");
    reveal_strlit("blocked_by_score_threshold");
    reveal_strlit("unicode_normalized_nfkc");
    reveal_strlit("control_chars_removed");
    reveal_strlit("zero_width_removed");
    reveal_strlit("whitespace_compacted");
    reveal_strlit("trimmed");
    reveal_strlit("max_length_truncated");
    reveal_strlit("empty_after_scrub");
    reveal_strlit("detected:");
    let by_rule = "blocked_by_detected_injection_rule"@;
    let by_score = "blocked_by_score_threshold"@;
    let text = scrubbed(input).text;
    assert forall|id: Seq<char>| detected_tag(id) != by_rule && detected_tag(id) != by_score by {
        assert(detected_tag(id)[0] == 'd');
        assert(by_rule[0] == 'b');
        assert(by_score[0] == 'b');
    }
    assert(by_rule.len() != by_score.len());
    assert(by_rule[0] == 'b');
    assert(by_score[0] == 'b');
    assert("unicode_normalized_nfkc"@[0] == 'u');
    assert("control_chars_removed"@[0] == 'c');
    assert("zero_width_removed"@[0] == 'z');
    assert("whitespace_compacted"@[0] == 'w');
    assert("trimmed"@[0] == 't');
    assert("max_length_truncated"@[0] == 'm');
    assert("empty_after_scrub"@[0] == 'e');
}

/// The sanitized text is never empty.
pub proof fn lemma_sanitized_text_is_not_empty(rules: RuleSetView, input: Seq<char>)
    ensures
        sanitized_text(rules, input).len() > 0,
{
    reveal_strlit("[blocked-by-fireBaseGetter-security]");
    reveal_strlit("[empty-after-sanitization]");
}

/// Detection sees the text before it is redacted: which rules match, and so
/// whether the text is blocked by a match, does not depend on the rewrite
/// rules.
pub proof fn lemma_detection_ignores_rewrites(
    rules: RuleSetView,
    other: RuleSetView,
    input: Seq<char>,
)
    requires
        rules.detection == other.detection,
    ensures
        injection_detected(rules, input) == injection_detected(other, input),
{
}

/// The score of an input is at most the total weight of the detection rules
/// plus what the other stages can add.
pub proof fn lemma_score_is_bounded(rules: RuleSetView, input: Seq<char>)
    ensures
        risk_score(rules, input) <= total_weight(rules.detection) + STAGE_SCORE_MAX,
{
    lemma_detection_score_bounded(rules.detection, scrubbed(input).text);
}

/// Whether none of the rewrite rules has its pattern in `text`.
pub open spec fn no_rewrite_applies(rewrites: Seq<RewriteRuleView>, text: Seq<char>) -> bool {
    forall|i: int| 0 <= i < rewrites.len() ==> !pattern_matches(
        (#[trigger] rewrites[i]).pattern,
        text,
    )
}

/// A text in which the pattern of no rewrite rule occurs passes the rewrite
/// pass unaltered.
pub proof fn lemma_rewrite_without_occurrence(rewrites: Seq<RewriteRuleView>, text: Seq<char>)
    requires
        no_rewrite_applies(rewrites, text),
    ensures
        rewritten(rewrites, text) == text,
        !rewrite_changed(rewrites, text),
    decreases rewrites.len(),
{
    if rewrites.len() > 0 {
        let head = rewrites.drop_last();
        assert forall|i: int| 0 <= i < head.len() implies !pattern_matches(
            (#[trigger] head[i]).pattern,
            text,
        ) by {
            assert(head[i] == rewrites[i]);
        }
        lemma_rewrite_without_occurrence(head, text);
        assert(!pattern_matches(rewrites[rewrites.len() - 1].pattern, text));
    }
}

/// A comment that the scrubbing stages leave non-empty and in which no
/// pattern of the table occurs comes out as the scrubbed text: it is not
/// blocked, it scores what the scrubbing stages scored, and it counts as
/// changed only where a scrubbing stage altered it.
pub proof fn lemma_clean_comment_passes(rules: RuleSetView, input: Seq<char>)
    requires
        scrubbed(input).text.len() > 0,
        !any_rule_hits(rules.detection, scrubbed(input).text),
        no_rewrite_applies(rules.rewrites, scrubbed(input).text),
    ensures
        !is_blocked(rules, input),
        sanitized_text(rules, input) == scrubbed(input).text,
        is_changed(rules, input) == scrub_changed(scrubbed(input)),
        risk_score(rules, input) == scrub_score(scrubbed(input)),
{
    let text = scrubbed(input).text;
    lemma_rewrite_without_occurrence(rules.rewrites, text);
    lemma_no_hit_no_score(rules.detection, text);
}

proof fn lemma_no_hit_no_score(rules: Seq<DetectionRuleView>, text: Seq<char>)
    requires
        !any_rule_hits(rules, text),
    ensures
        detection_score(rules, text) == 0,
    decreases rules.len(),
{
    if rules.len() > 0 {
        let head = rules.drop_last();
        assert(!rule_hits(rules[rules.len() - 1], text));
        if any_rule_hits(head, text) {
            let k = choose|k: int| 0 <= k < head.len() && rule_hits(#[trigger] head[k], text);
            assert(rule_hits(rules[k], text));
        }
        lemma_no_hit_no_score(head, text);
    }
}

} // verus!
