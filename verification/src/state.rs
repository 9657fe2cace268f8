//! What the server holds while it runs.

use vstd::prelude::*;

use crate::cli::Args;
use crate::rate_limit::RateLimiter;
use crate::text;

verus! {

/// What the server holds while it runs.
pub struct AppState {
    pub args: Args,
    /// The script, once it is loaded.
    pub script_content: Option<String>,
    pub rate_limiter: Option<RateLimiter>,
}

impl AppState {
    /// The rate limiter, if there is one, is valid.
    pub open spec fn is_valid(&self) -> bool {
        self.rate_limiter matches Some(limiter) ==> limiter.is_valid()
    }

    /// What the server holds when it starts: the script, and a fresh rate limiter where the
    /// settings ask for one.
    pub fn new(args: Args, script: String) -> (state: Self)
        ensures
            state.is_valid(),
            state.args == args,
            text::option_view(state.script_content) == Some(script@),
            match args.rate_limit {
                Some(limit) => state.rate_limiter matches Some(limiter) && limiter.limit_per_second
                    == limit && limiter@.windows.dom() =~= Set::empty(),
                None => state.rate_limiter is None,
            },
    {
        let rate_limiter = match args.rate_limit {
            Some(limit) => Some(RateLimiter::new(limit)),
            None => None,
        };
        AppState { args, script_content: Some(script), rate_limiter }
    }

    /// Take the script that was read again; where it could not be read, the old one stays.
    pub fn reload(&mut self, read: Option<String>)
        requires
            old(self).is_valid(),
        ensures
            final(self).is_valid(),
            final(self).args == old(self).args,
            final(self).rate_limiter == old(self).rate_limiter,
            text::option_view(final(self).script_content) == (match read {
                Some(content) => Some(content@),
                None => text::option_view(old(self).script_content),
            }),
    {
        if let Some(content) = read {
            self.script_content = Some(content);
        }
    }
}

} // verus!
