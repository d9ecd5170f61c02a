//! Why a rule set could not be translated for a particular consumer.

use vstd::prelude::*;

verus! {

/// Why a rule set could not be translated for a particular consumer.
///
/// Translation failure is not fatal: any uncertainty falls back to a full
/// rsync with interim filters.
#[derive(Debug, Clone)]
pub enum TranslateError {
    /// A `!` pattern has no exact watchman-expression equivalent.
    UnsupportedNegation { pattern: String },
    /// Expanding `**` variants for rsync would produce too many rules.
    TooManyVariants { pattern: String },
}

impl TranslateError {
    /// The line that could not be translated.
    pub open spec fn line(&self) -> Seq<char> {
        match self {
            TranslateError::UnsupportedNegation { pattern } => pattern@,
            TranslateError::TooManyVariants { pattern } => pattern@,
        }
    }

    /// A one-line description.
    pub fn message(&self) -> (text: String)
        ensures
            text@ == (match self {
                TranslateError::UnsupportedNegation { pattern } => "negated pattern `"@ + pattern@
                    + "` cannot be translated to a watchman expression"@,
                TranslateError::TooManyVariants { pattern } => "pattern `"@ + pattern@
                    + "` expands to too many rsync filter variants"@,
            }),
    {
        let mut text = String::new();
        match self {
            TranslateError::UnsupportedNegation { pattern } => {
                text.append("negated pattern `");
                text.append(pattern.as_str());
                text.append("` cannot be translated to a watchman expression");
            },
            TranslateError::TooManyVariants { pattern } => {
                text.append("pattern `");
                text.append(pattern.as_str());
                text.append("` expands to too many rsync filter variants");
            },
        }
        proof {
            assert(Seq::<char>::empty() + "negated pattern `"@ =~= "negated pattern `"@);
            assert(Seq::<char>::empty() + "pattern `"@ =~= "pattern `"@);
        }
        text
    }
}

} // verus!
