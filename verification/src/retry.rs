//! The retry policy shared by the collectors' HTTP helpers: at most three
//! attempts, a growing pause between them, and the statuses that end a fetch.
use vstd::prelude::*;
use crate::json::{json_parse, parse_json, JsonValue};

verus! {

/// Attempts made before a fetch gives up.
pub const MAX_ATTEMPTS: u64 = 3;

/// How a fetch treats statuses other than 200.
#[derive(Debug, Clone, Copy, PartialEq, Eq, Structural)]
pub enum FetchPolicy {
    /// Bearer-authenticated GET/POST (birbir.uz): the first 401 asks for a
    /// new token and the request is then tried again from the start; a 401
    /// after that ends the fetch. Any other status is retried.
    Bearer,
    /// Public GET (olx.uz): every status other than 200 is retried.
    Public,
    /// Token-authenticated GET/POST (uzum.uz): a 429 is retried after a backoff
    /// of 500 ms times 2 to the attempt index; a 401 or 403 ends the fetch.
    RateLimited,
}

/// What one HTTP attempt gave.
#[derive(Debug)]
pub enum Reply {
    /// No response: the request could not be sent or the connection failed.
    Failed,
    /// A response with its status and, when it could be read, its body text.
    Response { status: u16, body: Option<String> },
}

/// What the helper does next.
#[derive(Debug, Clone, Copy, PartialEq, Eq, Structural)]
pub enum Action {
    /// Pause `wait_ms` milliseconds, then send the next attempt.
    Send { wait_ms: u64 },
    /// Drop the cached token, obtain a new one and report it with
    /// `token_renewed`.
    Renew,
    /// Pause `wait_ms` milliseconds, then return the outcome.
    Stop { wait_ms: u64 },
}

/// The state of one fetch with retries.
#[derive(Debug)]
pub struct Fetcher {
    pub policy: FetchPolicy,
    /// Attempts made so far with the current token.
    pub attempts: u64,
    /// Backoff owed since the last reply (a 429), in milliseconds.
    pub backoff_ms: u64,
    /// Whether the fetch is over before its attempts ran out.
    pub finished: bool,
    /// The body text of the 200 reply that ended the fetch.
    pub body: Option<String>,
    /// The status of the last reply received; `None` while every attempt
    /// failed without a response.
    pub status: Option<u16>,
    /// Whether a 401 refused the current bearer token (`Bearer` policy only).
    pub token_rejected: bool,
    /// Whether a new token was already taken after a 401.
    pub renewed: bool,
}

/// The pause before attempt `attempt` (counted from 0): 500 ms times its index.
pub open spec fn pause_before(attempt: u64) -> u64 {
    (500 * attempt) as u64
}

/// The backoff after a 429 on attempt `attempt`: 500 ms times 2 to its index.
pub open spec fn backoff_after(attempt: u64) -> u64 {
    if attempt == 0 { 500 } else if attempt == 1 { 1000 } else { 2000 }
}

impl Fetcher {
    /// The state after one more reply: every response's status is kept.
    pub open spec fn spec_record(self, reply: Reply) -> Fetcher {
        let next = Fetcher { attempts: (self.attempts + 1) as u64, backoff_ms: 0, ..self };
        match reply {
            Reply::Failed => next,
            Reply::Response { status, body } => {
                let seen = Fetcher { status: Some(status), ..next };
                if status == 200 {
                    match body {
                        Some(text) => Fetcher { finished: true, body: Some(text), ..seen },
                        None => seen,
                    }
                } else if status == 401 && self.policy == FetchPolicy::Bearer {
                    Fetcher { token_rejected: true, finished: self.renewed, ..seen }
                } else if status == 429 && self.policy == FetchPolicy::RateLimited {
                    Fetcher { backoff_ms: backoff_after(self.attempts), ..seen }
                } else if (status == 401 || status == 403) && self.policy == FetchPolicy::RateLimited {
                    Fetcher { finished: true, ..seen }
                } else {
                    seen
                }
            },
        }
    }

    /// The state after a new token was asked for: with one (`got`), the
    /// request starts over; without one, the fetch ends.
    pub open spec fn spec_renewed(self, got: bool) -> Fetcher {
        if got {
            Fetcher { attempts: 0, backoff_ms: 0, token_rejected: false, renewed: true, ..self }
        } else {
            Fetcher { finished: true, ..self }
        }
    }

    /// The next step: a new token after a first 401, another attempt while
    /// the fetch is open and attempts remain, and otherwise the end.
    pub open spec fn spec_next_action(self) -> Action {
        if self.token_rejected && !self.finished {
            Action::Renew
        } else if !self.finished && self.attempts < MAX_ATTEMPTS {
            Action::Send { wait_ms: (self.backoff_ms + pause_before(self.attempts)) as u64 }
        } else {
            Action::Stop { wait_ms: self.backoff_ms }
        }
    }

    /// The states a fetch can reach.
    pub open spec fn wf(self) -> bool {
        &&& self.attempts <= MAX_ATTEMPTS
        &&& self.backoff_ms <= 2000
        &&& self.token_rejected ==> self.policy == FetchPolicy::Bearer && self.status == Some(401u16)
        &&& self.token_rejected && !self.finished ==> !self.renewed
        &&& self.renewed ==> self.policy == FetchPolicy::Bearer
        &&& self.finished ==> self.status is Some
        &&& self.body is Some <==> (self.finished && self.status == Some(200u16))
    }

    /// A fresh fetch under a policy.
    pub fn new(policy: FetchPolicy) -> (r: Fetcher)
        ensures
            r.wf(),
            r.policy == policy,
            r.attempts == 0,
            r.backoff_ms == 0,
            !r.finished,
            r.body is None,
            r.status is None,
            !r.token_rejected,
            !r.renewed,
    {
        Fetcher {
            policy,
            attempts: 0,
            backoff_ms: 0,
            finished: false,
            body: None,
            status: None,
            token_rejected: false,
            renewed: false,
        }
    }

    /// What to do next.
    pub fn next_action(&self) -> (r: Action)
        requires
            self.wf(),
        ensures
            r == self.spec_next_action(),
    {
        if self.token_rejected && !self.finished {
            Action::Renew
        } else if !self.finished && self.attempts < MAX_ATTEMPTS {
            Action::Send { wait_ms: self.backoff_ms + 500 * self.attempts }
        } else {
            Action::Stop { wait_ms: self.backoff_ms }
        }
    }

    /// Takes the outcome of asking for a new token (`got`: one was obtained).
    pub fn token_renewed(&mut self, got: bool)
        requires
            old(self).wf(),
            old(self).spec_next_action() is Renew,
        ensures
            *final(self) == old(self).spec_renewed(got),
            final(self).wf(),
    {
        if got {
            self.attempts = 0;
            self.backoff_ms = 0;
            self.token_rejected = false;
            self.renewed = true;
        } else {
            self.finished = true;
        }
    }

    /// The JSON document of the 200 reply that ended the fetch, when it is one.
    pub open spec fn spec_body_json(self) -> Option<JsonValue> {
        match self.body {
            Some(text) => json_parse(text@),
            None => None,
        }
    }

    /// The body of the 200 reply read as JSON; `None` where no 200 ended the
    /// fetch or its body is not JSON.
    pub fn body_json(&self) -> (r: Option<JsonValue>)
        ensures
            r == self.spec_body_json(),
    {
        match &self.body {
            Some(text) => parse_json(text.as_str()),
            None => None,
        }
    }

    /// Takes the reply to the attempt just sent.
    pub fn record(&mut self, reply: Reply)
        requires
            old(self).wf(),
            old(self).spec_next_action() is Send,
        ensures
            *final(self) == old(self).spec_record(reply),
            final(self).wf(),
    {
        let attempt = self.attempts;
        self.attempts = attempt + 1;
        self.backoff_ms = 0;
        match reply {
            Reply::Failed => {},
            Reply::Response { status, body } => {
                self.status = Some(status);
                if status == 200 {
                    match body {
                        Some(text) => {
                            self.finished = true;
                            self.body = Some(text);
                        },
                        None => {},
                    }
                } else if status == 401 && self.policy == FetchPolicy::Bearer {
                    self.token_rejected = true;
                    self.finished = self.renewed;
                } else if status == 429 && self.policy == FetchPolicy::RateLimited {
                    self.backoff_ms = if attempt == 0 { 500 } else if attempt == 1 { 1000 } else { 2000 };
                } else if (status == 401 || status == 403) && self.policy == FetchPolicy::RateLimited {
                    self.finished = true;
                }
            },
        }
    }
}

} // verus!

verus! {

/// A fetch sends at most `MAX_ATTEMPTS` requests with each token, and asks
/// for a new token at most once: once that many replies came, the next step
/// is no send, and after a renewal it is never another renewal.
pub proof fn lemma_fetch_is_bounded(f: Fetcher)
    requires
        f.wf(),
    ensures
        f.attempts <= MAX_ATTEMPTS,
        f.attempts == MAX_ATTEMPTS ==> !(f.spec_next_action() is Send),
        f.finished ==> f.spec_next_action() is Stop,
        f.renewed ==> !(f.spec_next_action() is Renew),
{
}

/// A readable 200 ends the fetch with its body. Under the `Bearer` policy a
/// first 401 asks for a new token, after which the request starts over, and
/// a 401 with the renewed token ends the fetch.
pub proof fn lemma_fetch_stops_on_final_replies(f: Fetcher, status: u16, body: Option<String>)
    requires
        f.wf(),
    ensures
        status == 200 && body is Some ==> {
            let g = f.spec_record(Reply::Response { status, body });
            g.finished && g.body == body && g.spec_next_action() is Stop
        },
        status == 401 && f.policy == FetchPolicy::Bearer && !f.renewed ==> {
            let g = f.spec_record(Reply::Response { status, body });
            &&& g.token_rejected && g.spec_next_action() is Renew
            &&& g.spec_renewed(true).spec_next_action() == (Action::Send { wait_ms: 0 })
        },
        status == 401 && f.policy == FetchPolicy::Bearer && f.renewed ==> {
            let g = f.spec_record(Reply::Response { status, body });
            g.finished && g.token_rejected && g.spec_next_action() is Stop
        },
{
}

/// The status kept is that of the last response; it is missing only when no
/// attempt got a response.
pub proof fn lemma_status_is_last_received(f: Fetcher, reply: Reply)
    ensures
        reply matches Reply::Response { status, .. } ==> f.spec_record(reply).status == Some(status),
        reply is Failed ==> f.spec_record(reply).status == f.status,
{
}

} // verus!
