//! The built-in rule table.

use vstd::prelude::*;
use crate::pattern::pattern_accepted;
use crate::rules::{
    detection_views, positive_weights, rewrite, rewrite_views, rule, total_weight, DetectionRule,
    DetectionRuleView, RewriteRule, RewriteRuleView, RuleError, RuleSet, RuleSetView,
};

verus! {

/// The detection rule with the given identifier, weight and pattern.
pub open spec fn detection_entry(id: &str, weight: nat, pattern: &str) -> DetectionRuleView {
    DetectionRuleView { id: id@, weight, pattern: pattern@ }
}

/// The rewrite rule with the given pattern and replacement.
pub open spec fn rewrite_entry(pattern: &str, replacement: &str) -> RewriteRuleView {
    RewriteRuleView { pattern: pattern@, replacement: replacement@ }
}

/// The built-in detection rules, in table order.
pub open spec fn standard_detection() -> Seq<DetectionRuleView> {
    seq![
        detection_entry(
            "ignore_previous_instructions",
            5,
            r"(?is)\b(ignore|disregard|forget)\b.{0,60}\b(previous|prior|above|all)\b.{0,60}\b(instructions?|rules?|prompt|message)\b",
        ),
        detection_entry(
            "prompt_exfiltration",
            6,
            r"(?is)\b(reveal|show|print|dump|expose|leak)\b.{0,80}\b(system|developer|hidden|internal)\b.{0,40}\b(prompt|instruction|message)\b",
        ),
        detection_entry(
            "role_override",
            4,
            r"(?is)\b(you are|act as|pretend to be|simulate|impersonate)\b.{0,80}\b(system|developer|assistant|admin|root)\b",
        ),
        detection_entry(
            "jailbreak_keyword",
            5,
            r"(?i)\b(jailbreak|dan mode|do anything now|bypass safety|override safety|ignore safeguards)\b",
        ),
        detection_entry(
            "role_prefix",
            4,
            r"(?im)(^|\s)(system|assistant|developer|user)\s*:",
        ),
        detection_entry(
            "xml_prompt_tag",
            4,
            r"(?is)<\s*/?\s*(system|assistant|developer|instructions?|prompt)\b[^>]*>",
        ),
        detection_entry("code_fence", 3, r"(?s)```.*?```"),
        detection_entry(
            "instruction_header",
            3,
            r"(?im)^#{1,6}\s*(system|developer|assistant|prompt|instruction)\b",
        ),
        detection_entry(
            "tool_injection",
            4,
            r"(?i)\b(function\s*call|tool\s*call|execute_command|shell\s*command|browser\.search|browser\.open)\b",
        ),
        detection_entry(
            "encoded_payload",
            3,
            r"(?is)\b(base64|rot13|hex)\b.{0,40}\b(decode|payload|instruction|prompt|command)\b",
        ),
        detection_entry(
            "dangerous_uri_scheme",
            4,
            r"(?i)\b(javascript|data|file|vbscript)\s*:",
        ),
        detection_entry(
            "command_payload",
            4,
            r"(?i)\b(rm\s+-rf|curl\s+https?://|wget\s+https?://|powershell\s+-|bash\s+-c)\b",
        ),
    ]
}

/// The built-in rewrite rules, in table order. A code fence is removed
/// altogether; every other passage gives way to a redaction token.
pub open spec fn standard_rewrites() -> Seq<RewriteRuleView> {
    seq![
        rewrite_entry(r"(?s)```.*?```", ""),
        rewrite_entry(
            r"(?im)(^|\s)(system|assistant|developer|user)\s*:",
            " $1[role-redacted]:",
        ),
        rewrite_entry(
            r"(?is)<\s*/?\s*(system|assistant|developer|instructions?|prompt)\b[^>]*>",
            "[redacted]",
        ),
        rewrite_entry(r"(?i)\b(javascript|data|file|vbscript)\s*:", "[scheme-redacted]"),
        rewrite_entry(
            r"(?is)\b(ignore|disregard|forget)\b.{0,60}\b(instructions?|rules?|prompt|message)\b",
            "[redacted]",
        ),
        rewrite_entry(
            r"(?is)\b(reveal|show|print|dump|expose|leak)\b.{0,80}\b(system|developer|hidden|internal)\b.{0,40}\b(prompt|instruction|message)\b",
            "[redacted]",
        ),
    ]
}

/// The built-in rule table.
pub open spec fn standard_rules() -> RuleSetView {
    RuleSetView { detection: standard_detection(), rewrites: standard_rewrites() }
}

/// Whether the engine accepts every pattern of the built-in table.
pub open spec fn standard_patterns_accepted() -> bool {
    &&& forall|i: int|
        0 <= i < standard_detection().len() ==> pattern_accepted(
            (#[trigger] standard_detection()[i]).pattern,
        )
    &&& forall|i: int|
        0 <= i < standard_rewrites().len() ==> pattern_accepted(
            (#[trigger] standard_rewrites()[i]).pattern,
        )
}

fn add_detection(table: &mut Vec<DetectionRule>, id: &str, weight: u32, pattern: &str) -> (ok:
    bool)
    ensures
        ok == pattern_accepted(pattern@),
        ok ==> detection_views(final(table)@) == detection_views(old(table)@).push(
            detection_entry(id, weight as nat, pattern),
        ),
        !ok ==> *final(table) == *old(table),
{
    match rule(id, weight, pattern) {
        Ok(built) => {
            table.push(built);
            assert(detection_views(table@) =~= detection_views(old(table)@).push(
                detection_entry(id, weight as nat, pattern),
            ));
            true
        },
        Err(_) => false,
    }
}

fn add_rewrite(table: &mut Vec<RewriteRule>, pattern: &str, replacement: &str) -> (ok: bool)
    ensures
        ok == pattern_accepted(pattern@),
        ok ==> rewrite_views(final(table)@) == rewrite_views(old(table)@).push(
            rewrite_entry(pattern, replacement),
        ),
        !ok ==> *final(table) == *old(table),
{
    match rewrite(pattern, replacement) {
        Ok(built) => {
            table.push(built);
            assert(rewrite_views(table@) =~= rewrite_views(old(table)@).push(
                rewrite_entry(pattern, replacement),
            ));
            true
        },
        Err(_) => false,
    }
}

/// Compiles the built-in detection rules; `None` where the engine rejects
/// one of their patterns.
pub fn standard_detection_table() -> (r: Option<Vec<DetectionRule>>)
    ensures
        r is Some <==> forall|i: int|
            0 <= i < standard_detection().len() ==> pattern_accepted(
                (#[trigger] standard_detection()[i]).pattern,
            ),
        r matches Some(table) ==> detection_views(table@) == standard_detection(),
{
    let mut table: Vec<DetectionRule> = Vec::new();
    assert(detection_views(table@) =~= standard_detection().take(0));
    if !add_detection(
        &mut table,
        "ignore_previous_instructions",
        5,
        r"(?is)\b(ignore|disregard|forget)\b.{0,60}\b(previous|prior|above|all)\b.{0,60}\b(instructions?|rules?|prompt|message)\b",
    ) {
        assert(!pattern_accepted(standard_detection()[0].pattern));
        return None;
    }
    assert(detection_views(table@) =~= standard_detection().take(1));
    if !add_detection(
        &mut table,
        "prompt_exfiltration",
        6,
        r"(?is)\b(reveal|show|print|dump|expose|leak)\b.{0,80}\b(system|developer|hidden|internal)\b.{0,40}\b(prompt|instruction|message)\b",
    ) {
        assert(!pattern_accepted(standard_detection()[1].pattern));
        return None;
    }
    assert(detection_views(table@) =~= standard_detection().take(2));
    if !add_detection(
        &mut table,
        "role_override",
        4,
        r"(?is)\b(you are|act as|pretend to be|simulate|impersonate)\b.{0,80}\b(system|developer|assistant|admin|root)\b",
    ) {
        assert(!pattern_accepted(standard_detection()[2].pattern));
        return None;
    }
    assert(detection_views(table@) =~= standard_detection().take(3));
    if !add_detection(
        &mut table,
        "jailbreak_keyword",
        5,
        r"(?i)\b(jailbreak|dan mode|do anything now|bypass safety|override safety|ignore safeguards)\b",
    ) {
        assert(!pattern_accepted(standard_detection()[3].pattern));
        return None;
    }
    assert(detection_views(table@) =~= standard_detection().take(4));
    if !add_detection(
        &mut table,
        "role_prefix",
        4,
        r"(?im)(^|\s)(system|assistant|developer|user)\s*:",
    ) {
        assert(!pattern_accepted(standard_detection()[4].pattern));
        return None;
    }
    assert(detection_views(table@) =~= standard_detection().take(5));
    if !add_detection(
        &mut table,
        "xml_prompt_tag",
        4,
        r"(?is)<\s*/?\s*(system|assistant|developer|instructions?|prompt)\b[^>]*>",
    ) {
        assert(!pattern_accepted(standard_detection()[5].pattern));
        return None;
    }
    assert(detection_views(table@) =~= standard_detection().take(6));
    if !add_detection(
        &mut table,
        "code_fence",
        3,
        r"(?s)```.*?```",
    ) {
        assert(!pattern_accepted(standard_detection()[6].pattern));
        return None;
    }
    assert(detection_views(table@) =~= standard_detection().take(7));
    if !add_detection(
        &mut table,
        "instruction_header",
        3,
        r"(?im)^#{1,6}\s*(system|developer|assistant|prompt|instruction)\b",
    ) {
        assert(!pattern_accepted(standard_detection()[7].pattern));
        return None;
    }
    assert(detection_views(table@) =~= standard_detection().take(8));
    if !add_detection(
        &mut table,
        "tool_injection",
        4,
        r"(?i)\b(function\s*call|tool\s*call|execute_command|shell\s*command|browser\.search|browser\.open)\b",
    ) {
        assert(!pattern_accepted(standard_detection()[8].pattern));
        return None;
    }
    assert(detection_views(table@) =~= standard_detection().take(9));
    if !add_detection(
        &mut table,
        "encoded_payload",
        3,
        r"(?is)\b(base64|rot13|hex)\b.{0,40}\b(decode|payload|instruction|prompt|command)\b",
    ) {
        assert(!pattern_accepted(standard_detection()[9].pattern));
        return None;
    }
    assert(detection_views(table@) =~= standard_detection().take(10));
    if !add_detection(
        &mut table,
        "dangerous_uri_scheme",
        4,
        r"(?i)\b(javascript|data|file|vbscript)\s*:",
    ) {
        assert(!pattern_accepted(standard_detection()[10].pattern));
        return None;
    }
    assert(detection_views(table@) =~= standard_detection().take(11));
    if !add_detection(
        &mut table,
        "command_payload",
        4,
        r"(?i)\b(rm\s+-rf|curl\s+https?://|wget\s+https?://|powershell\s+-|bash\s+-c)\b",
    ) {
        assert(!pattern_accepted(standard_detection()[11].pattern));
        return None;
    }
    assert(detection_views(table@) =~= standard_detection().take(12));
    assert(standard_detection().take(12) =~= standard_detection());
    Some(table)
}

/// Compiles the built-in rewrite rules; `None` where the engine rejects one
/// of their patterns.
pub fn standard_rewrite_table() -> (r: Option<Vec<RewriteRule>>)
    ensures
        r is Some <==> forall|i: int|
            0 <= i < standard_rewrites().len() ==> pattern_accepted(
                (#[trigger] standard_rewrites()[i]).pattern,
            ),
        r matches Some(table) ==> rewrite_views(table@) == standard_rewrites(),
{
    let mut table: Vec<RewriteRule> = Vec::new();
    assert(rewrite_views(table@) =~= standard_rewrites().take(0));
    if !add_rewrite(
        &mut table,
        r"(?s)```.*?```",
        "",
    ) {
        assert(!pattern_accepted(standard_rewrites()[0].pattern));
        return None;
    }
    assert(rewrite_views(table@) =~= standard_rewrites().take(1));
    if !add_rewrite(
        &mut table,
        r"(?im)(^|\s)(system|assistant|developer|user)\s*:",
        " $1[role-redacted]:",
    ) {
        assert(!pattern_accepted(standard_rewrites()[1].pattern));
        return None;
    }
    assert(rewrite_views(table@) =~= standard_rewrites().take(2));
    if !add_rewrite(
        &mut table,
        r"(?is)<\s*/?\s*(system|assistant|developer|instructions?|prompt)\b[^>]*>",
        "[redacted]",
    ) {
        assert(!pattern_accepted(standard_rewrites()[2].pattern));
        return None;
    }
    assert(rewrite_views(table@) =~= standard_rewrites().take(3));
    if !add_rewrite(
        &mut table,
        r"(?i)\b(javascript|data|file|vbscript)\s*:",
        "[scheme-redacted]",
    ) {
        assert(!pattern_accepted(standard_rewrites()[3].pattern));
        return None;
    }
    assert(rewrite_views(table@) =~= standard_rewrites().take(4));
    if !add_rewrite(
        &mut table,
        r"(?is)\b(ignore|disregard|forget)\b.{0,60}\b(instructions?|rules?|prompt|message)\b",
        "[redacted]",
    ) {
        assert(!pattern_accepted(standard_rewrites()[4].pattern));
        return None;
    }
    assert(rewrite_views(table@) =~= standard_rewrites().take(5));
    if !add_rewrite(
        &mut table,
        r"(?is)\b(reveal|show|print|dump|expose|leak)\b.{0,80}\b(system|developer|hidden|internal)\b.{0,40}\b(prompt|instruction|message)\b",
        "[redacted]",
    ) {
        assert(!pattern_accepted(standard_rewrites()[5].pattern));
        return None;
    }
    assert(rewrite_views(table@) =~= standard_rewrites().take(6));
    assert(standard_rewrites().take(6) =~= standard_rewrites());
    Some(table)
}

/// A number that tells the built-in identifiers apart: their length and
/// their first character.
spec fn id_key(id: Seq<char>) -> int {
    id.len() * 1000 + id[0] as u32
}

/// The built-in table meets every condition that a rule table must meet.
pub proof fn lemma_standard_rules_well_formed()
    ensures
        standard_rules().well_formed(),
        total_weight(standard_detection()) == 49,
{
    let d = standard_detection();
    reveal_strlit("ignore_previous_instructions");
    reveal_strlit("prompt_exfiltration");
    reveal_strlit("role_override");
    reveal_strlit("jailbreak_keyword");
    reveal_strlit("role_prefix");
    reveal_strlit("xml_prompt_tag");
    reveal_strlit("code_fence");
    reveal_strlit("instruction_header");
    reveal_strlit("tool_injection");
    reveal_strlit("encoded_payload");
    reveal_strlit("dangerous_uri_scheme");
    reveal_strlit("command_payload");
    assert forall|i: int, j: int| 0 <= i < j < d.len() implies (#[trigger] d[i]).id != (
    #[trigger] d[j]).id by {
        assert(id_key(d[i].id) != id_key(d[j].id));
    }
    assert(positive_weights(d));
    assert(total_weight(d) == 49) by {
        reveal_with_fuel(total_weight, 13);
    }
}

/// Builds the built-in rule table. It fails only where the engine rejects
/// one of the built-in patterns.
pub fn standard_rule_set() -> (r: Result<RuleSet, RuleError>)
    ensures
        r is Ok <==> standard_patterns_accepted(),
        r matches Ok(set) ==> set@ == standard_rules(),
        r matches Err(e) ==> e == RuleError::InvalidPattern,
{
    let detection = match standard_detection_table() {
        Some(table) => table,
        None => {
            return Err(RuleError::InvalidPattern);
        },
    };
    let rewrites = match standard_rewrite_table() {
        Some(table) => table,
        None => {
            return Err(RuleError::InvalidPattern);
        },
    };
    proof {
        lemma_standard_rules_well_formed();
    }
    match RuleSet::new(detection, rewrites) {
        Ok(set) => Ok(set),
        Err(_) => Err(RuleError::InvalidPattern),
    }
}

} // verus!
