//! The fixed configuration of the sanitizer.

use vstd::prelude::*;

verus! {

/// Longest text, in characters, that is handed to the detection rules.
pub const COMMENT_MAX_CHARS: usize = 4000;

/// Score at or above which a text is blocked.
pub const BLOCK_SCORE_THRESHOLD: u32 = 14;

/// Most points that the stages other than rule detection can add to a score.
pub const STAGE_SCORE_MAX: u32 = 6;

/// Version tag echoed in every security summary.
pub const SANITIZER_VERSION: &'static str = "hardcoded_prompt_injection_filter_v1";

/// Text that replaces a blocked comment.
pub const BLOCKED_COMMENT_TOKEN: &'static str = "[blocked-by-fireBaseGetter-security]";

/// Text that replaces a comment of which nothing is left after scrubbing.
pub const EMPTY_COMMENT_TOKEN: &'static str = "[empty-after-sanitization]";

/// Text that replaces a redacted passage.
pub const REDACTION_TOKEN: &'static str = "[redacted]";

} // verus!
