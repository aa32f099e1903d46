//! Grounded DENY explanations: a reason code's canonical sentence, always
//! present, with an optional AI-written gloss that has passed validation.

use vstd::prelude::*;
use crate::policy::types::{ReasonCode, canonical_text_of};
use crate::text::{chars_of, trim, trim_chars, string_from_chars, utf8_len, utf8_len_exceeds};

verus! {

/// The longest AI gloss accepted, in UTF-8 bytes.
pub const MAX_AI_RENDERING_BYTES: usize = 2000;

/// A DENY explanation as shown to the user.
#[derive(Debug, Clone, PartialEq, Eq)]
pub struct GroundedDenyExplanation {
    pub reason_code: ReasonCode,
    pub canonical_text: &'static str,
    pub ai_rendering: Option<String>,
}

/// Why an AI gloss was refused.
#[derive(Debug, Clone, Copy, PartialEq, Eq, Structural)]
pub enum DenyExplanationError {
    Empty,
    TooLong,
}

/// What validating `raw` gives: the trimmed text, or why it was refused.
pub open spec fn rendering_outcome(raw: Seq<char>) -> Result<Seq<char>, DenyExplanationError> {
    let t = trim(raw);
    if t.len() == 0 {
        Err(DenyExplanationError::Empty)
    } else if utf8_len(t) > MAX_AI_RENDERING_BYTES {
        Err(DenyExplanationError::TooLong)
    } else {
        Ok(t)
    }
}

impl GroundedDenyExplanation {
    /// The explanation with the canonical sentence alone.
    pub fn canonical_only(reason_code: ReasonCode) -> (r: Self)
        ensures
            r.reason_code == reason_code,
            r.canonical_text@ == canonical_text_of(reason_code),
            r.ai_rendering is None,
    {
        GroundedDenyExplanation {
            reason_code,
            canonical_text: reason_code.canonical_text(),
            ai_rendering: None,
        }
    }

    /// The explanation with a validated AI gloss beside the canonical
    /// sentence; the canonical sentence is kept as it is.
    pub fn with_validated_ai_rendering(reason_code: ReasonCode, ai_rendering: String) -> (r: Self)
        ensures
            r.reason_code == reason_code,
            r.canonical_text@ == canonical_text_of(reason_code),
            r.ai_rendering matches Some(t) && t@ == ai_rendering@,
    {
        GroundedDenyExplanation {
            reason_code,
            canonical_text: reason_code.canonical_text(),
            ai_rendering: Some(ai_rendering),
        }
    }
}

/// Checks an AI gloss: it is trimmed, and refused when nothing is left or
/// when it is longer than `MAX_AI_RENDERING_BYTES` bytes.
pub fn validate_ai_rendering(raw: &str) -> (r: Result<String, DenyExplanationError>)
    ensures
        match r {
            Ok(t) => rendering_outcome(raw@) == Ok::<Seq<char>, DenyExplanationError>(t@),
            Err(e) => rendering_outcome(raw@) == Err::<Seq<char>, DenyExplanationError>(e),
        },
{
    let chars = chars_of(raw);
    let trimmed = trim_chars(chars.as_slice());
    if trimmed.len() == 0 {
        return Err(DenyExplanationError::Empty);
    }
    if utf8_len_exceeds(trimmed.as_slice(), MAX_AI_RENDERING_BYTES) {
        return Err(DenyExplanationError::TooLong);
    }
    Ok(string_from_chars(trimmed.as_slice()))
}

} // verus!
