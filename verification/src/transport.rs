//! The shape of a reply from the remote conversational service, and the rule
//! that reads the reply text out of it. Network transfer and JSON decoding
//! stay outside the library; they hand a decoded `GeminiResponse` in.

use vstd::prelude::*;

verus! {

/// One piece of reply text.
#[derive(Debug, Clone)]
pub struct ResponsePart {
    pub text: String,
}

/// The content of one candidate reply.
#[derive(Debug, Clone)]
pub struct ResponseContent {
    pub parts: Vec<ResponsePart>,
}

/// One candidate reply.
#[derive(Debug, Clone)]
pub struct ResponseCandidate {
    pub content: ResponseContent,
}

/// A decoded reply from the service.
#[derive(Debug, Clone)]
pub struct GeminiResponse {
    pub candidates: Vec<ResponseCandidate>,
}

/// Why a decoded reply yields no text.
#[derive(Debug, Clone, Copy, PartialEq, Eq, Structural)]
pub enum TransportError {
    NoCandidates,
    NoParts,
}

impl TransportError {
    /// The display text of the error.
    pub fn message(&self) -> (s: String)
        ensures
            *self is NoCandidates ==> s@ == "No candidates found in response"@,
            *self is NoParts ==> s@ == "No response parts found"@,
    {
        match self {
            TransportError::NoCandidates => String::from_str("No candidates found in response"),
            TransportError::NoParts => String::from_str("No response parts found"),
        }
    }
}

/// The reply text of a decoded response: the first part of the first
/// candidate; an error exactly when there is no candidate or the first
/// candidate has no part.
pub fn extract_reply(response: &GeminiResponse) -> (r: Result<String, TransportError>)
    ensures
        response.candidates@.len() == 0 ==> r == Result::<String, TransportError>::Err(
            TransportError::NoCandidates,
        ),
        response.candidates@.len() > 0 && response.candidates@[0].content.parts@.len() == 0 ==> r
            == Result::<String, TransportError>::Err(TransportError::NoParts),
        response.candidates@.len() > 0 && response.candidates@[0].content.parts@.len() > 0 ==> (
        r matches Ok(t) && t@ == response.candidates@[0].content.parts@[0].text@),
{
    if response.candidates.len() == 0 {
        return Err(TransportError::NoCandidates);
    }
    let candidate = &response.candidates[0];
    if candidate.content.parts.len() == 0 {
        return Err(TransportError::NoParts);
    }
    Ok(candidate.content.parts[0].text.clone())
}

/// The chat entry shown when the service answers with a failure status,
/// carrying the body text it returned.
pub fn request_failed_message(error_text: &str) -> (s: String)
    ensures
        s@ == "API request failed: "@ + error_text@,
{
    let mut s = String::from_str("API request failed: ");
    s.append(error_text);
    s
}

} // verus!
