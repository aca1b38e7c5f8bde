//! The order in which the birbir.uz collectors look for a bearer token: the
//! cached token, the browser's cookies, direct HTTP fetches with growing
//! pauses, and for the watcher a stale cached token as the last resort.
use vstd::prelude::*;

verus! {

/// Direct HTTP fetches in one round.
pub const HTTP_ATTEMPTS: u64 = 5;

/// Where a token is looked for.
#[derive(Debug, Clone, Copy, PartialEq, Eq, Structural)]
pub enum TokenSource {
    /// The cached token, when it is not expired.
    Cache,
    /// The session cookie held by agent-browser.
    Browser,
    /// A direct HTTP fetch of the home page and its `Set-Cookie` headers.
    Http,
    /// The cached token even if it is expired.
    Stale,
}

/// Where the search stands.
#[derive(Debug, Clone, Copy, PartialEq, Eq, Structural)]
pub enum TokenStage {
    Cache,
    Browser,
    Http,
    Stale,
    /// The search is over, with or without a token.
    Finished,
}

/// What the caller does next.
#[derive(Debug, Clone, Copy, PartialEq, Eq, Structural)]
pub enum TokenAction {
    /// Pause `wait_ms` milliseconds, then look in `source` and report it.
    Try { source: TokenSource, wait_ms: u64 },
    /// The search is over; `token` holds what it found.
    Finish,
}

/// What looking in a source gave.
#[derive(Debug)]
pub enum TokenOutcome {
    /// A token.
    Found(String),
    /// No token there.
    NotFound,
    /// The source could not be asked at all (the HTTP client did not run):
    /// the current round of direct fetches ends.
    Unavailable,
}

/// One search for a token.
#[derive(Debug)]
pub struct TokenSearch {
    /// Rounds of `HTTP_ATTEMPTS` direct fetches.
    pub rounds: u64,
    /// Whether a stale cached token is the last resort.
    pub stale_fallback: bool,
    pub stage: TokenStage,
    /// The current round of direct fetches (from 0).
    pub round: u64,
    /// The current direct fetch within the round (from 0).
    pub attempt: u64,
    /// The token found.
    pub token: Option<String>,
}

/// The pause before direct fetch `attempt` of round `round`: 1000 ms times
/// the attempt within the round, or times the round at a round's start.
pub open spec fn http_wait(round: u64, attempt: u64) -> u64 {
    if attempt > 0 { (1000 * attempt) as u64 } else { (1000 * round) as u64 }
}

impl TokenSearch {
    /// The states a search can reach.
    pub open spec fn wf(self) -> bool {
        &&& 1 <= self.rounds <= HTTP_ATTEMPTS
        &&& self.round < self.rounds
        &&& self.attempt < HTTP_ATTEMPTS
        &&& self.token is Some ==> self.stage == TokenStage::Finished
    }

    /// The step after the current one, with no token found.
    pub open spec fn spec_after_miss(self, unavailable: bool) -> TokenSearch {
        match self.stage {
            TokenStage::Cache => TokenSearch { stage: TokenStage::Browser, ..self },
            TokenStage::Browser => TokenSearch { stage: TokenStage::Http, round: 0, attempt: 0, ..self },
            TokenStage::Http => if !unavailable && self.attempt + 1 < HTTP_ATTEMPTS {
                TokenSearch { attempt: (self.attempt + 1) as u64, ..self }
            } else if self.round + 1 < self.rounds {
                TokenSearch { round: (self.round + 1) as u64, attempt: 0, ..self }
            } else if self.stale_fallback {
                TokenSearch { stage: TokenStage::Stale, ..self }
            } else {
                TokenSearch { stage: TokenStage::Finished, ..self }
            },
            _ => TokenSearch { stage: TokenStage::Finished, ..self },
        }
    }

    /// The state after the current source was looked in.
    pub open spec fn spec_step(self, outcome: TokenOutcome) -> TokenSearch {
        match outcome {
            TokenOutcome::Found(t) => TokenSearch { stage: TokenStage::Finished, token: Some(t), ..self },
            TokenOutcome::NotFound => self.spec_after_miss(false),
            TokenOutcome::Unavailable => self.spec_after_miss(self.stage == TokenStage::Http),
        }
    }

    /// What to do in a state.
    pub open spec fn spec_next(self) -> TokenAction {
        match self.stage {
            TokenStage::Cache => TokenAction::Try { source: TokenSource::Cache, wait_ms: 0 },
            TokenStage::Browser => TokenAction::Try { source: TokenSource::Browser, wait_ms: 0 },
            TokenStage::Http => TokenAction::Try {
                source: TokenSource::Http,
                wait_ms: http_wait(self.round, self.attempt),
            },
            TokenStage::Stale => TokenAction::Try { source: TokenSource::Stale, wait_ms: 0 },
            TokenStage::Finished => TokenAction::Finish,
        }
    }

    /// Sources left to look in, at most.
    pub open spec fn remaining(self) -> nat {
        let stale: nat = if self.stale_fallback { 1 } else { 0 };
        let http: nat = (5 * self.rounds) as nat;
        match self.stage {
            TokenStage::Cache => 2 + http + stale,
            TokenStage::Browser => 1 + http + stale,
            TokenStage::Http => ((5 * (self.rounds - self.round - 1)) + (5 - self.attempt) + stale) as nat,
            TokenStage::Stale => 1,
            TokenStage::Finished => 0,
        }
    }

    /// A search with `rounds` rounds of direct fetches, and a stale cached
    /// token as the last resort when `stale_fallback` is set.
    pub fn new(rounds: u64, stale_fallback: bool) -> (r: TokenSearch)
        requires
            1 <= rounds <= HTTP_ATTEMPTS,
        ensures
            r.wf(),
            r.rounds == rounds,
            r.stale_fallback == stale_fallback,
            r.stage == TokenStage::Cache,
            r.round == 0,
            r.attempt == 0,
            r.token is None,
    {
        TokenSearch { rounds, stale_fallback, stage: TokenStage::Cache, round: 0, attempt: 0, token: None }
    }

    /// What to do next.
    pub fn next(&self) -> (r: TokenAction)
        requires
            self.wf(),
        ensures
            r == self.spec_next(),
    {
        match self.stage {
            TokenStage::Cache => TokenAction::Try { source: TokenSource::Cache, wait_ms: 0 },
            TokenStage::Browser => TokenAction::Try { source: TokenSource::Browser, wait_ms: 0 },
            TokenStage::Http => TokenAction::Try {
                source: TokenSource::Http,
                wait_ms: if self.attempt > 0 { 1000 * self.attempt } else { 1000 * self.round },
            },
            TokenStage::Stale => TokenAction::Try { source: TokenSource::Stale, wait_ms: 0 },
            TokenStage::Finished => TokenAction::Finish,
        }
    }

    /// Takes what looking in the current source gave.
    pub fn step(&mut self, outcome: TokenOutcome)
        requires
            old(self).wf(),
            old(self).stage != TokenStage::Finished,
        ensures
            *final(self) == old(self).spec_step(outcome),
            final(self).wf(),
    {
        match outcome {
            TokenOutcome::Found(t) => {
                self.stage = TokenStage::Finished;
                self.token = Some(t);
            },
            TokenOutcome::NotFound => self.miss(false),
            TokenOutcome::Unavailable => {
                let unavailable = self.stage == TokenStage::Http;
                self.miss(unavailable);
            },
        }
    }

    fn miss(&mut self, unavailable: bool)
        requires
            old(self).wf(),
            old(self).stage != TokenStage::Finished,
        ensures
            *final(self) == old(self).spec_after_miss(unavailable),
            final(self).wf(),
    {
        match self.stage {
            TokenStage::Cache => {
                self.stage = TokenStage::Browser;
            },
            TokenStage::Browser => {
                self.stage = TokenStage::Http;
                self.round = 0;
                self.attempt = 0;
            },
            TokenStage::Http => {
                if !unavailable && self.attempt + 1 < HTTP_ATTEMPTS {
                    self.attempt = self.attempt + 1;
                } else if self.round + 1 < self.rounds {
                    self.round = self.round + 1;
                    self.attempt = 0;
                } else if self.stale_fallback {
                    self.stage = TokenStage::Stale;
                } else {
                    self.stage = TokenStage::Finished;
                }
            },
            _ => {
                self.stage = TokenStage::Finished;
            },
        }
    }
}

/// Every step of an unfinished search lowers the number of sources left, so
/// a search looks in at most `2 + 5 * rounds + 1` sources and then finishes;
/// a token found ends it at once.
pub proof fn lemma_token_search_ends(s: TokenSearch, outcome: TokenOutcome)
    requires
        s.wf(),
        s.stage != TokenStage::Finished,
    ensures
        s.spec_step(outcome).remaining() < s.remaining(),
        s.remaining() <= 2 + 5 * s.rounds + 1,
        (s.spec_step(outcome).stage == TokenStage::Finished) == (s.spec_step(outcome).remaining() == 0),
        outcome matches TokenOutcome::Found(t) ==> s.spec_step(outcome).token == Some(t),
{
}

/// The sources come in a fixed order: the cache, then the browser, then
/// direct fetches, then (for the watcher) the stale cache.
pub proof fn lemma_token_sources_in_order(s: TokenSearch, outcome: TokenOutcome)
    requires
        s.wf(),
        s.stage != TokenStage::Finished,
        !(outcome is Found),
    ensures
        s.stage == TokenStage::Cache ==> s.spec_step(outcome).stage == TokenStage::Browser,
        s.stage == TokenStage::Browser ==> s.spec_step(outcome).stage == TokenStage::Http,
        s.stage == TokenStage::Http ==> s.spec_step(outcome).stage == TokenStage::Http
            || s.spec_step(outcome).stage == (if s.stale_fallback { TokenStage::Stale } else { TokenStage::Finished }),
        s.stage == TokenStage::Stale ==> s.spec_step(outcome).stage == TokenStage::Finished,
{
}

} // verus!
