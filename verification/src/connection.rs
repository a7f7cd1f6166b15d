//! One source or target endpoint: its address and credential, the
//! availability/authorization classification of responses, the
//! create-versus-transact wire choice, and the bounded retry machine that
//! drives recovery.

use vstd::prelude::*;

use crate::display::{dec_rep, u64_to_string};
use crate::names::find_char;
use crate::schema::opt_string_view;

verus! {

/// Index of the last occurrence of `c` in `s`, or `-1` if absent.
pub open spec fn rfind_char(s: Seq<char>, c: char) -> int
    decreases s.len(),
{
    if s.len() == 0 {
        -1
    } else if s.last() == c {
        s.len() - 1
    } else {
        rfind_char(s.drop_last(), c)
    }
}

pub proof fn lemma_rfind_char(s: Seq<char>, c: char)
    ensures
        -1 <= rfind_char(s, c) < s.len(),
        rfind_char(s, c) >= 0 ==> s[rfind_char(s, c)] == c,
        forall|j: int| rfind_char(s, c) < j < s.len() ==> s[j] != c,
    decreases s.len(),
{
    if s.len() > 0 && s.last() != c {
        lemma_rfind_char(s.drop_last(), c);
        assert forall|j: int| rfind_char(s, c) < j < s.len() implies s[j] != c by {
            if j < s.len() - 1 {
                assert(s.drop_last()[j] == s[j]);
            }
        }
    }
}

proof fn lemma_rfind_char_at(s: Seq<char>, c: char, i: int)
    requires
        0 <= i < s.len(),
        s[i] == c,
        forall|j: int| i < j < s.len() ==> s[j] != c,
    ensures
        rfind_char(s, c) == i,
    decreases s.len(),
{
    if i == s.len() - 1 {
    } else {
        assert(s.last() != c);
        assert(s.drop_last()[i] == s[i]);
        assert forall|j: int| i < j < s.drop_last().len() implies s.drop_last()[j] != c by {
            assert(s.drop_last()[j] == s[j]);
        }
        lemma_rfind_char_at(s.drop_last(), c, i);
    }
}

proof fn lemma_rfind_char_absent(s: Seq<char>, c: char)
    requires
        forall|j: int| 0 <= j < s.len() ==> s[j] != c,
    ensures
        rfind_char(s, c) == -1,
    decreases s.len(),
{
    if s.len() > 0 {
        assert forall|j: int| 0 <= j < s.drop_last().len() implies s.drop_last()[j] != c by {
            assert(s.drop_last()[j] == s[j]);
        }
        lemma_rfind_char_absent(s.drop_last(), c);
    }
}

/// Position of the last occurrence of `c`, if any.
fn rfind_char_exec(s: &str, c: char) -> (r: Option<usize>)
    ensures
        match r {
            Option::Some(i) => rfind_char(s@, c) == i as int,
            Option::None => rfind_char(s@, c) == -1,
        },
{
    let len = s.unicode_len();
    let mut i = len;
    while i > 0
        invariant
            i <= len,
            len == s@.len(),
            forall|j: int| i <= j < len ==> s@[j] != c,
        decreases i,
    {
        i = i - 1;
        if s.get_char(i) == c {
            proof {
                lemma_rfind_char_at(s@, c, i as int);
            }
            return Option::Some(i);
        }
    }
    proof {
        lemma_rfind_char_absent(s@, c);
    }
    Option::None
}

/// The ledger identifier at the end of an endpoint address: the text
/// after the last slash.
pub open spec fn db_name_spec(url: Seq<char>) -> Seq<char> {
    url.skip(rfind_char(url, '/') + 1)
}

/// The network identifier: the segment between the last two slashes (or
/// everything before the last slash when it is the only one).
pub open spec fn network_name_spec(url: Seq<char>) -> Seq<char> {
    let head = url.take(rfind_char(url, '/'));
    head.skip(rfind_char(head, '/') + 1)
}

/// Splits an endpoint address into its network and ledger names, the last
/// two slash-separated segments.
pub fn get_db_name(url: &str) -> (r: (String, String))
    requires
        find_char(url@, '/') < url@.len(),
    ensures
        r.0@ == network_name_spec(url@),
        r.1@ == db_name_spec(url@),
{
    let len = url.unicode_len();
    proof {
        crate::names::lemma_find_char(url@, '/');
        lemma_rfind_char(url@, '/');
        if rfind_char(url@, '/') < find_char(url@, '/') {
            assert(url@[find_char(url@, '/')] == '/');
        }
    }
    let last = match rfind_char_exec(url, '/') {
        Option::Some(i) => i,
        Option::None => unreached(),
    };
    let db = url.substring_char(last + 1, len);
    let head = url.substring_char(0, last);
    proof {
        assert(db@ =~= db_name_spec(url@));
        assert(head@ =~= url@.take(rfind_char(url@, '/')));
        lemma_rfind_char(head@, '/');
    }
    let head_len = head.unicode_len();
    let network = match rfind_char_exec(head, '/') {
        Option::Some(j) => head.substring_char(j + 1, head_len),
        Option::None => head.substring_char(0, head_len),
    };
    proof {
        if rfind_char(head@, '/') == -1 {
            assert(head@.subrange(0, head_len as int) =~= head@.skip(0));
        }
        assert(network@ =~= network_name_spec(url@));
    }
    (network.to_owned(), db.to_owned())
}

/// What a submission or query attempt came back with: a numeric status,
/// or no response at all.
#[derive(Debug, PartialEq, Eq, Structural, Clone, Copy)]
pub enum ResponseOutcome {
    /// The endpoint answered with this HTTP status code.
    Status(u16),
    /// No response arrived: connectivity was lost or the request failed
    /// before a status existed.
    TransportFailure,
}

/// One addressable source or target endpoint and what is known about it.
pub struct FlureeInstance {
    /// The endpoint address.
    pub url: String,
    /// The network part of the ledger identifier.
    pub network_name: String,
    /// The ledger part of the ledger identifier.
    pub db_name: String,
    /// Whether the endpoint answered the last attempt.
    pub is_available: bool,
    /// Whether the endpoint accepted the credential, if any.
    pub is_authorized: bool,
    /// The opaque credential attached to requests.
    pub api_key: Option<String>,
    /// Whether the target ledger is assumed to exist; the first
    /// submission to a ledger still to be created uses create semantics.
    pub is_created: bool,
}

/// The complaint for a rejected credential.
pub open spec fn unauthorized_with_key_msg() -> Seq<char> {
    "The API Key you provided is not authorized to access this database. Please try again."@
}

/// The complaint for a missing credential.
pub open spec fn unauthorized_without_key_msg() -> Seq<char> {
    "It appears you need to provide an API Key to access this database. Please try again."@
}

/// The complaint for any other failing status.
pub open spec fn failing_status_msg(url: Seq<char>, status: int) -> Seq<char> {
    "The request to ["@ + url + "] returned a status code of "@ + dec_rep(status as nat)
        + ". Please try again."@
}

impl FlureeInstance {
    /// An endpoint for the source ledger, assumed reachable until a
    /// response says otherwise.
    pub fn new_source(url: String, api_key: Option<String>) -> (r: FlureeInstance)
        requires
            find_char(url@, '/') < url@.len(),
        ensures
            r.url@ == url@,
            r.network_name@ == network_name_spec(url@),
            r.db_name@ == db_name_spec(url@),
            r.is_available,
            r.is_authorized,
            opt_string_view(r.api_key) == opt_string_view(api_key),
            r.is_created,
    {
        let (network_name, db_name) = get_db_name(url.as_str());
        FlureeInstance {
            url,
            network_name,
            db_name,
            is_available: true,
            is_authorized: true,
            api_key,
            is_created: true,
        }
    }

    /// An endpoint for the target ledger; when the run is to create the
    /// ledger, the first submission uses create semantics.
    pub fn new_target(url: String, api_key: Option<String>, is_create_ledger: bool) -> (r:
        FlureeInstance)
        requires
            find_char(url@, '/') < url@.len(),
        ensures
            r.url@ == url@,
            r.network_name@ == network_name_spec(url@),
            r.db_name@ == db_name_spec(url@),
            r.is_available,
            r.is_authorized,
            opt_string_view(r.api_key) == opt_string_view(api_key),
            r.is_created == !is_create_ledger,
    {
        let (network_name, db_name) = get_db_name(url.as_str());
        FlureeInstance {
            url,
            network_name,
            db_name,
            is_available: true,
            is_authorized: true,
            api_key,
            is_created: !is_create_ledger,
        }
    }

    /// Classifies a response into the availability and authorization
    /// flags: any successful (2xx) status keeps both, a credential
    /// rejection flags authorization (with a message that depends on
    /// whether a credential was supplied), any other status flags
    /// availability, and a missing response flags availability alone so
    /// no credential is re-prompted on pure connectivity loss.
    pub fn validate_result(&mut self, outcome: &ResponseOutcome) -> (r: Result<(), String>)
        ensures
            final(self).url == old(self).url,
            final(self).network_name == old(self).network_name,
            final(self).db_name == old(self).db_name,
            final(self).api_key == old(self).api_key,
            final(self).is_created == old(self).is_created,
            match *outcome {
                ResponseOutcome::Status(code) => if 200 <= code <= 299 {
                    &&& final(self).is_available
                    &&& final(self).is_authorized
                    &&& r is Ok
                } else if code == 401 || code == 403 {
                    &&& final(self).is_available
                    &&& !final(self).is_authorized
                    &&& r matches Result::Err(m) && m@ == (if old(self).api_key is Some {
                        unauthorized_with_key_msg()
                    } else {
                        unauthorized_without_key_msg()
                    })
                } else {
                    &&& !final(self).is_available
                    &&& final(self).is_authorized == (old(self).api_key is None)
                    &&& r matches Result::Err(m) && m@ == failing_status_msg(
                        old(self).url@,
                        code as int,
                    )
                },
                ResponseOutcome::TransportFailure => {
                    &&& !final(self).is_available
                    &&& final(self).is_authorized
                    &&& r is Ok
                },
            },
    {
        match outcome {
            ResponseOutcome::Status(code) => {
                let code = *code;
                if 200 <= code && code <= 299 {
                    self.is_available = true;
                    self.is_authorized = true;
                    Result::Ok(())
                } else if code == 401 || code == 403 {
                    self.is_available = true;
                    self.is_authorized = false;
                    let msg = match &self.api_key {
                        Option::Some(_) => {
                            "The API Key you provided is not authorized to access this database. Please try again.".to_owned()
                        },
                        Option::None => {
                            "It appears you need to provide an API Key to access this database. Please try again.".to_owned()
                        },
                    };
                    Result::Err(msg)
                } else {
                    self.is_available = false;
                    self.is_authorized = match &self.api_key {
                        Option::Some(_) => false,
                        Option::None => true,
                    };
                    let mut msg = "The request to [".to_owned();
                    msg.append(self.url.as_str());
                    msg.append("] returned a status code of ");
                    let num = u64_to_string(code as u64);
                    msg.append(num.as_str());
                    msg.append(". Please try again.");
                    Result::Err(msg)
                }
            },
            ResponseOutcome::TransportFailure => {
                self.is_available = false;
                self.is_authorized = true;
                Result::Ok(())
            },
        }
    }

    /// The path of the next submission: create semantics exactly once,
    /// for the first submission to a ledger still to be created; the flag
    /// flips on any attempt, whatever its outcome.
    pub fn submission_path(&mut self) -> (r: String)
        ensures
            r@ == if old(self).is_created {
                "transact"@
            } else {
                "create"@
            },
            final(self).is_created,
            final(self).url == old(self).url,
            final(self).network_name == old(self).network_name,
            final(self).db_name == old(self).db_name,
            final(self).api_key == old(self).api_key,
            final(self).is_available == old(self).is_available,
            final(self).is_authorized == old(self).is_authorized,
    {
        let path = if self.is_created {
            "transact".to_owned()
        } else {
            "create".to_owned()
        };
        self.is_created = true;
        path
    }

    /// The address submissions go to; picking it flips the created flag.
    pub fn transact_endpoint(&mut self) -> (r: String)
        ensures
            r@ == old(self).url@ + "/fluree/"@ + (if old(self).is_created {
                "transact"@
            } else {
                "create"@
            }),
            final(self).is_created,
            final(self).url == old(self).url,
            final(self).network_name == old(self).network_name,
            final(self).db_name == old(self).db_name,
            final(self).api_key == old(self).api_key,
            final(self).is_available == old(self).is_available,
            final(self).is_authorized == old(self).is_authorized,
    {
        let path = self.submission_path();
        let mut s = self.url.clone();
        s.append("/fluree/");
        s.append(path.as_str());
        s
    }

    /// The address queries against a target ledger go to.
    pub fn query_endpoint(&self) -> (r: String)
        ensures
            r@ == self.url@ + "/fluree/query"@,
    {
        let mut s = self.url.clone();
        s.append("/fluree/query");
        s
    }

    /// The address the one-off schema request goes to.
    pub fn schema_query_endpoint(&self) -> (r: String)
        ensures
            r@ == self.url@ + "/multi-query"@,
    {
        let mut s = self.url.clone();
        s.append("/multi-query");
        s
    }

    /// The address per-class page requests go to.
    pub fn data_query_endpoint(&self) -> (r: String)
        ensures
            r@ == self.url@ + "/query"@,
    {
        let mut s = self.url.clone();
        s.append("/query");
        s
    }
}

/// Where one endpoint's request loop stands.
#[derive(Debug, PartialEq, Eq, Structural, Clone, Copy)]
pub enum ConnectionPhase {
    /// Nothing attempted yet.
    Idle,
    /// A request should be, or is being, made.
    Querying,
    /// The endpoint did not answer; its address must be corrected.
    NeedsUrl,
    /// The endpoint refused the credential; a new one is needed.
    NeedsAuth,
    /// A response is in hand.
    Success,
    /// The bounded retries are spent.
    Fatal,
}

/// What the caller should do next.
#[derive(Debug, PartialEq, Eq, Structural, Clone, Copy)]
pub enum RetryAction {
    /// Issue the request.
    Request,
    /// Ask interactively for a corrected address, then retry.
    PromptUrl,
    /// Ask interactively for a credential, then retry.
    PromptKey,
    /// Wait this many seconds, then retry.
    Backoff(u64),
    /// Stop trying this item and move on.
    GiveUp,
    /// The result is in hand.
    Done,
}

/// Connectivity loss is retried this often before a run falls back to a
/// prompt, or gives the item up when nobody attends.
pub const MAX_ATTEMPTS: u8 = 5;

/// Seconds between bounded retries.
pub const BACKOFF_SECONDS: u64 = 15;

/// The request loop around one endpoint, made explicit: each observation
/// of the endpoint's flags advances the phase and names the one action to
/// take, with connectivity retries bounded before remediation.
pub struct ConnectionFsm {
    /// The current phase.
    pub phase: ConnectionPhase,
    /// Connectivity retries taken since the last success.
    pub attempts: u8,
    /// Once the retries are spent, an unattended run gives the item up
    /// instead of prompting.
    pub unattended: bool,
}

impl ConnectionFsm {
    /// Retries never exceed their bound.
    pub open spec fn wf(&self) -> bool {
        self.attempts <= MAX_ATTEMPTS
    }

    /// A fresh loop that has attempted nothing.
    pub fn new(unattended: bool) -> (r: ConnectionFsm)
        ensures
            r.phase == ConnectionPhase::Idle,
            r.attempts == 0,
            r.unattended == unattended,
            r.wf(),
    {
        ConnectionFsm { phase: ConnectionPhase::Idle, attempts: 0, unattended }
    }

    /// Advances on one observation of the endpoint. Success ends the
    /// loop. An unavailable endpoint is retried with a fixed backoff up to
    /// `MAX_ATTEMPTS` times; once those are spent, an attended run falls
    /// back to the interactive address prompt (with a fresh retry budget
    /// for the corrected address), while an unattended run gives the item
    /// up and moves on. A rejected credential prompts for a key;
    /// otherwise the request is (re)issued.
    pub fn advance(&mut self, available: bool, authorized: bool, has_result: bool) -> (a:
        RetryAction)
        requires
            old(self).wf(),
        ensures
            final(self).wf(),
            final(self).unattended == old(self).unattended,
            if available && authorized && has_result {
                &&& final(self).phase == ConnectionPhase::Success
                &&& final(self).attempts == 0
                &&& a == RetryAction::Done
            } else if !available && old(self).attempts < MAX_ATTEMPTS {
                &&& final(self).phase == ConnectionPhase::Querying
                &&& final(self).attempts == old(self).attempts + 1
                &&& a == RetryAction::Backoff(BACKOFF_SECONDS)
            } else if !available && old(self).unattended {
                &&& final(self).phase == ConnectionPhase::Fatal
                &&& final(self).attempts == old(self).attempts
                &&& a == RetryAction::GiveUp
            } else if !available {
                &&& final(self).phase == ConnectionPhase::NeedsUrl
                &&& final(self).attempts == 0
                &&& a == RetryAction::PromptUrl
            } else if !authorized {
                &&& final(self).phase == ConnectionPhase::NeedsAuth
                &&& final(self).attempts == old(self).attempts
                &&& a == RetryAction::PromptKey
            } else {
                &&& final(self).phase == ConnectionPhase::Querying
                &&& final(self).attempts == old(self).attempts
                &&& a == RetryAction::Request
            },
    {
        if available && authorized && has_result {
            self.phase = ConnectionPhase::Success;
            self.attempts = 0;
            RetryAction::Done
        } else if !available {
            if self.attempts < MAX_ATTEMPTS {
                self.attempts = self.attempts + 1;
                self.phase = ConnectionPhase::Querying;
                RetryAction::Backoff(BACKOFF_SECONDS)
            } else if self.unattended {
                self.phase = ConnectionPhase::Fatal;
                RetryAction::GiveUp
            } else {
                self.attempts = 0;
                self.phase = ConnectionPhase::NeedsUrl;
                RetryAction::PromptUrl
            }
        } else if !authorized {
            self.phase = ConnectionPhase::NeedsAuth;
            RetryAction::PromptKey
        } else {
            self.phase = ConnectionPhase::Querying;
            RetryAction::Request
        }
    }
}

} // verus!
