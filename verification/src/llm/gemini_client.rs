//! The generation client's verifiable surface: the per-session spending
//! controls (request count and prompt length) and the prompt built around a
//! transcribed request. The network transport lives outside the library.

use vstd::prelude::*;

use crate::strutil::{chars_of, copy_range, dec_chars, string_of, usize_chars};

verus! {

/// The spending controls of the generation client: how many requests this
/// session may still make, and how long a prompt may be.
pub struct GeminiLimiter {
    used: u32,
    max_requests: u32,
    max_prompt_length: usize,
}

/// The refusal when the session's request budget is spent.
pub open spec fn limit_error_spec(attempted: int, max_requests: int) -> Seq<char> {
    "Request limit exceeded: "@ + dec_chars(attempted) + "/"@ + dec_chars(max_requests)
        + " requests used in this session. Restart to reset."@
}

/// The refusal when the prompt is longer than the session allows.
pub open spec fn too_long_error_spec(len: int, max_len: int) -> Seq<char> {
    "Prompt too long: "@ + dec_chars(len) + " characters (max: "@ + dec_chars(max_len)
        + "). Truncate your input."@
}

impl GeminiLimiter {
    pub fn new(max_requests: u32, max_prompt_length: usize) -> (r: Self)
        ensures
            r.used_spec() == 0,
            r.max_requests_spec() == max_requests,
            r.max_prompt_length_spec() == max_prompt_length,
    {
        GeminiLimiter { used: 0, max_requests, max_prompt_length }
    }

    pub closed spec fn used_spec(&self) -> u32 {
        self.used
    }

    pub closed spec fn max_requests_spec(&self) -> u32 {
        self.max_requests
    }

    pub closed spec fn max_prompt_length_spec(&self) -> usize {
        self.max_prompt_length
    }

    /// Accounts for one request attempt and says whether it may proceed:
    /// refused once the budget is spent, or when the prompt is too long.
    /// The attempt counts against the budget even when it is refused.
    pub fn try_begin_request(&mut self, prompt_len: usize) -> (r: Result<(), String>)
        ensures
            final (self).max_requests_spec() == old(self).max_requests_spec(),
            final (self).max_prompt_length_spec() == old(self).max_prompt_length_spec(),
            final (self).used_spec() == if old(self).used_spec() < u32::MAX {
                (old(self).used_spec() + 1) as u32
            } else {
                u32::MAX
            },
            r is Ok <==> old(self).used_spec() < old(self).max_requests_spec() && prompt_len <= old(
                self,
            ).max_prompt_length_spec(),
            old(self).used_spec() >= old(self).max_requests_spec() ==> (r matches Err(e) && e@
                == limit_error_spec(
                old(self).used_spec() + 1,
                old(self).max_requests_spec() as int,
            )),
            old(self).used_spec() < old(self).max_requests_spec() && prompt_len > old(
                self,
            ).max_prompt_length_spec() ==> (r matches Err(e) && e@ == too_long_error_spec(
                prompt_len as int,
                old(self).max_prompt_length_spec() as int,
            )),
    {
        let count = self.used;
        if count < u32::MAX {
            self.used = count + 1;
        }
        if count >= self.max_requests {
            let mut e = String::from_str("Request limit exceeded: ");
            let attempted: u64 = count as u64 + 1;
            let d1 = string_of(&crate::strutil::u64_chars(attempted));
            e.append(d1.as_str());
            e.append("/");
            let d2 = string_of(&crate::strutil::u64_chars(self.max_requests as u64));
            e.append(d2.as_str());
            e.append(" requests used in this session. Restart to reset.");
            proof {
                assert(e@ =~= limit_error_spec(count + 1, self.max_requests as int));
            }
            return Err(e);
        }
        if prompt_len > self.max_prompt_length {
            let mut e = String::from_str("Prompt too long: ");
            let d1 = string_of(&usize_chars(prompt_len));
            e.append(d1.as_str());
            e.append(" characters (max: ");
            let d2 = string_of(&usize_chars(self.max_prompt_length));
            e.append(d2.as_str());
            e.append("). Truncate your input.");
            proof {
                assert(e@ =~= too_long_error_spec(
                    prompt_len as int,
                    self.max_prompt_length as int,
                ));
            }
            return Err(e);
        }
        Ok(())
    }

    /// How many requests were attempted, and the session budget.
    pub fn get_usage_stats(&self) -> (r: (u32, u32))
        ensures
            r.0 == self.used_spec(),
            r.1 == self.max_requests_spec(),
    {
        (self.used, self.max_requests)
    }

    /// Starts the request count over.
    pub fn reset_usage(&mut self)
        ensures
            final (self).used_spec() == 0,
            final (self).max_requests_spec() == old(self).max_requests_spec(),
            final (self).max_prompt_length_spec() == old(self).max_prompt_length_spec(),
    {
        self.used = 0;
    }
}

/// The transcribed text as it enters the prompt: cut to 500 characters with
/// a truncation marker when longer.
pub open spec fn truncated_text_spec(t: Seq<char>) -> Seq<char> {
    if t.len() > 500 {
        t.take(500) + "... [truncated]"@
    } else {
        t
    }
}

/// The prompt wrapped around a transcribed request for a code-focused
/// answer.
pub open spec fn code_suggestion_prompt_spec(t: Seq<char>) -> Seq<char> {
    "You are a coding assistant. The user said: \""@ + truncated_text_spec(t)
        + "\"\n\nPlease provide a concise, helpful code-related response or solution (max 200 words). If the input is not code-related, politely explain that you focus on coding assistance."@
}

/// Builds the code-suggestion prompt for a transcribed request.
pub fn code_suggestion_prompt(transcribed_text: &str) -> (r: String)
    ensures
        r@ == code_suggestion_prompt_spec(transcribed_text@),
{
    let cs = chars_of(transcribed_text);
    let mut p = String::from_str("You are a coding assistant. The user said: \"");
    if cs.len() > 500 {
        let head = copy_range(&cs, 0, 500);
        let hs = string_of(&head);
        p.append(hs.as_str());
        p.append("... [truncated]");
        proof {
            assert(p@ =~= "You are a coding assistant. The user said: \""@ + (cs@.take(500)
                + "... [truncated]"@));
        }
    } else {
        p.append(transcribed_text);
    }
    p.append(
        "\"\n\nPlease provide a concise, helpful code-related response or solution (max 200 words). If the input is not code-related, politely explain that you focus on coding assistance.",
    );
    proof {
        assert(p@ =~= code_suggestion_prompt_spec(transcribed_text@));
    }
    p
}

} // verus!
