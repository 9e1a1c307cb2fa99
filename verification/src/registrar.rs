//! The registration orchestrator, account provisioner and session issuer.
//!
//! A [`Registrar`] owns the persistence capability, the flow configuration
//! and the auth-session table, and drives a registration request through
//! validation, the advisory availability check, the auth flow engine, the
//! atomic account insert and the minting of a device-bound access token.
//!
//! Generated identifiers — guest localparts, substituted user localparts,
//! fresh device ids and access tokens — are decimal numerals of counters the
//! registrar owns; distinct counter values give distinct numerals. A user
//! localpart supplied by the client is taken as the canonical identifier
//! unchanged: the server rejects rather than transforms a localpart outside
//! the grammar.

use vstd::prelude::*;

use crate::auth::{
    any_flow_satisfied, is_remaining, stage_set, step_done, target_sid, uses_fresh_sid,
    AuthProgress, FlowConfig, SessionTable, Stage, StageAttempt,
};
use crate::errors::ErrorKind;
use crate::numeral::{
    decimal_seq, is_digit_char, lemma_decimal_injective, lemma_decimal_valid_username,
    lemma_numeral_differs_from, to_decimal,
};
use crate::store::{token_active, AccountKind, InsertOutcome, Store};
use crate::username::{is_valid_username, validate};

verus! {

/// What the availability operation reports.
#[derive(Clone, Copy, PartialEq, Eq, Structural, Debug)]
pub enum AvailabilityOutcome {
    /// The username is valid and, at the time of the check, unclaimed. This
    /// reserves nothing: a later registration may still collide.
    Available,
    /// The username cannot be registered, for the carried reason.
    Unavailable(ErrorKind),
}

impl AvailabilityOutcome {
    /// The HTTP-equivalent status this outcome renders as.
    pub fn status_code(&self) -> (s: u16)
        ensures
            *self == AvailabilityOutcome::Available ==> s == 200,
            self matches AvailabilityOutcome::Unavailable(e) ==> s == crate::errors::spec_status_of(
                *e,
            ),
    {
        match self {
            AvailabilityOutcome::Available => 200,
            AvailabilityOutcome::Unavailable(e) => e.status_code(),
        }
    }
}

/// A parsed registration request. Transient and request-scoped.
pub struct RegistrationRequest {
    /// Which kind of account is asked for.
    pub kind: AccountKind,
    /// The desired localpart, if any. Ignored for guests.
    pub username: Option<String>,
    /// The auth session quoted from an earlier incomplete attempt.
    pub auth_session: Option<u64>,
    /// At most one stage proof, with its verifier's verdict.
    pub auth_submission: Option<StageAttempt>,
    /// The client's device id; the server generates one when absent.
    pub device_id: Option<String>,
    /// Display name for a newly created device.
    pub initial_device_display_name: Option<String>,
}

/// What a registration attempt reports.
#[derive(Debug)]
pub enum RegisterOutcome {
    /// The account exists and a token is bound to the device.
    Success {
        /// The canonical localpart of the new account.
        user_id: String,
        /// The device the token is bound to.
        device_id: String,
        /// The freshly minted access token.
        access_token: String,
    },
    /// Not an error: more auth stages are owed. Retry quoting this session.
    AuthIncomplete {
        /// The session to quote on the next attempt.
        session_id: u64,
        /// Per acceptable flow, the stages still missing.
        remaining: Vec<Vec<Stage>>,
    },
    /// A terminal failure.
    Failed(ErrorKind),
}

impl RegisterOutcome {
    /// The HTTP-equivalent status of this outcome: success, the distinct
    /// "more auth needed" status, or the error's own status.
    pub fn status_code(&self) -> (s: u16)
        ensures
            self is Success ==> s == 200,
            self is AuthIncomplete ==> s == 401,
            self matches RegisterOutcome::Failed(e) ==> s == crate::errors::spec_status_of(*e),
    {
        match self {
            RegisterOutcome::Success { .. } => 200,
            RegisterOutcome::AuthIncomplete { .. } => 401,
            RegisterOutcome::Failed(e) => e.status_code(),
        }
    }
}

/// Whether the request's localpart is server-generated: always for guests,
/// and for users that supplied no username.
pub open spec fn generates_id(req: &RegistrationRequest) -> bool {
    match req.kind {
        AccountKind::Guest => true,
        AccountKind::User => req.username is None,
    }
}

/// The localpart a request registers under, given the id counter's value:
/// the supplied username for users that gave one, else the counter's
/// numeral.
pub open spec fn chosen_localpart(req: &RegistrationRequest, ctr: u64) -> Seq<char> {
    match req.kind {
        AccountKind::Guest => decimal_seq(ctr as nat),
        AccountKind::User => match req.username {
            Some(u) => u@,
            None => decimal_seq(ctr as nat),
        },
    }
}

/// Whether the provisioner generates the localpart: always for guests, and
/// for users that requested none.
pub open spec fn provisioner_generates(
    kind: AccountKind,
    requested_username: Option<&String>,
) -> bool {
    match kind {
        AccountKind::Guest => true,
        AccountKind::User => requested_username is None,
    }
}

/// The localpart the provisioner derives: the requested one, unchanged, for
/// users that requested one (reject-rather-than-transform), else the id
/// counter's numeral.
pub open spec fn provisioned_localpart(
    kind: AccountKind,
    requested_username: Option<&String>,
    ctr: u64,
) -> Seq<char> {
    match kind {
        AccountKind::Guest => decimal_seq(ctr as nat),
        AccountKind::User => match requested_username {
            Some(u) => u@,
            None => decimal_seq(ctr as nat),
        },
    }
}

/// Whether the server picks the device id: always for guests (client input
/// is ignored), and for users that supplied none.
pub open spec fn generates_device(req: &RegistrationRequest) -> bool {
    match req.kind {
        AccountKind::Guest => true,
        AccountKind::User => req.device_id is None,
    }
}

/// The device id a request's token is bound to, given the device counter's
/// value: the supplied id for users that gave one, else the counter's
/// numeral.
pub open spec fn chosen_device(req: &RegistrationRequest, ctr: u64) -> Seq<char> {
    if generates_device(req) {
        decimal_seq(ctr as nat)
    } else {
        match req.device_id {
            Some(d) => d@,
            None => decimal_seq(ctr as nat),
        }
    }
}

/// The registration core: store, flow configuration, session table, and the
/// counters behind generated identifiers.
pub struct Registrar<S: Store> {
    store: S,
    config: FlowConfig,
    auth_sessions: SessionTable,
    id_counter: u64,
    device_counter: u64,
    token_counter: u64,
}

impl<S: Store> Registrar<S> {
    /// The persisted accounts: localpart to kind.
    pub closed spec fn accounts(&self) -> Map<Seq<char>, AccountKind> {
        self.store.accounts()
    }

    /// The persisted tokens: (account, device) to its one active token.
    pub closed spec fn tokens(&self) -> Map<(Seq<char>, Seq<char>), Seq<char>> {
        self.store.tokens()
    }

    /// The in-progress auth sessions.
    pub closed spec fn sessions(&self) -> Map<u64, (Seq<Stage>, u64)> {
        self.auth_sessions.sessions()
    }

    /// The configured acceptable flows.
    pub closed spec fn flows(&self) -> Seq<Seq<Stage>> {
        self.config.flows_seq()
    }

    /// The counter behind generated localparts.
    pub closed spec fn id_ctr(&self) -> u64 {
        self.id_counter
    }

    /// The counter behind generated device ids.
    pub closed spec fn device_ctr(&self) -> u64 {
        self.device_counter
    }

    /// The counter behind minted access tokens.
    pub closed spec fn token_ctr(&self) -> u64 {
        self.token_counter
    }

    /// The id the next fresh auth session will get.
    pub closed spec fn next_sid(&self) -> u64 {
        self.auth_sessions.next_sid()
    }

    /// Whether the underlying store may refuse requests.
    pub closed spec fn store_fallible(&self) -> bool {
        self.store.fallible()
    }

    /// Internal consistency: the store and session table are well formed,
    /// every persisted token is the numeral of a counter value already
    /// spent, and no two devices share a token value.
    pub closed spec fn wf(&self) -> bool {
        &&& self.store.wf()
        &&& self.auth_sessions.wf()
        &&& (forall|k: (Seq<char>, Seq<char>)|
            #[trigger] self.store.tokens().dom().contains(k) ==> exists|n: nat|
                n < self.token_counter && self.store.tokens()[k] == decimal_seq(n))
        &&& (forall|k1: (Seq<char>, Seq<char>), k2: (Seq<char>, Seq<char>)|
            #![trigger self.store.tokens()[k1], self.store.tokens()[k2]]
            self.store.tokens().dom().contains(k1) && self.store.tokens().dom().contains(k2)
                && k1 != k2 ==> self.store.tokens()[k1] != self.store.tokens()[k2])
    }

    /// A registrar over a store that holds no tokens yet — the registrar
    /// must be the sole issuer of tokens for its single-active-token rule.
    pub fn new(store: S, config: FlowConfig) -> (r: Self)
        requires
            store.wf(),
            store.tokens() == Map::<(Seq<char>, Seq<char>), Seq<char>>::empty(),
        ensures
            r.wf(),
            r.accounts() == store.accounts(),
            r.tokens() == store.tokens(),
            r.sessions() == Map::<u64, (Seq<Stage>, u64)>::empty(),
            r.flows() == config.flows_seq(),
            r.store_fallible() == store.fallible(),
            r.id_ctr() == 0,
            r.device_ctr() == 0,
            r.token_ctr() == 0,
    {
        Registrar {
            store,
            config,
            auth_sessions: SessionTable::new(),
            id_counter: 0,
            device_counter: 0,
            token_counter: 0,
        }
    }

    /// The availability operation: validate the candidate, then ask the
    /// store whether it is taken. Advisory only — nothing is reserved, and
    /// nothing is written (the receiver is shared).
    ///
    /// An invalid candidate is rejected before any storage call.
    pub fn check_availability(&self, username: &str) -> (r: AvailabilityOutcome)
        requires
            self.wf(),
        ensures
            (r == AvailabilityOutcome::Unavailable(ErrorKind::InvalidUsername)) <==> !is_valid_username(username@),
            r == AvailabilityOutcome::Available ==> !self.accounts().dom().contains(username@),
            r == AvailabilityOutcome::Unavailable(ErrorKind::UserInUse) ==> self.accounts().dom().contains(username@),
            r == AvailabilityOutcome::Unavailable(ErrorKind::StorageFailure) ==> self.store_fallible(),
            r == AvailabilityOutcome::Available || r == AvailabilityOutcome::Unavailable(ErrorKind::InvalidUsername)
                || r == AvailabilityOutcome::Unavailable(ErrorKind::UserInUse)
                || r == AvailabilityOutcome::Unavailable(ErrorKind::StorageFailure),
    {
        if let Err(e) = validate(username) {
            return AvailabilityOutcome::Unavailable(e);
        }
        match self.store.check_username_exists(username) {
            Ok(true) => AvailabilityOutcome::Unavailable(ErrorKind::UserInUse),
            Ok(false) => AvailabilityOutcome::Available,
            Err(_) => AvailabilityOutcome::Unavailable(ErrorKind::StorageFailure),
        }
    }

    /// The authorization check: is this value some device's active token?
    pub fn check_token(&self, token: &str) -> (r: Result<bool, ErrorKind>)
        requires
            self.wf(),
        ensures
            r matches Ok(b) ==> b == token_active(self.tokens(), token@),
            r matches Err(e) ==> e == ErrorKind::StorageFailure,
            !self.store_fallible() ==> r is Ok,
    {
        match self.store.token_is_active(token) {
            Ok(b) => Ok(b),
            Err(_) => Err(ErrorKind::StorageFailure),
        }
    }

    /// The session issuer: settle the device id (the client's, or a fresh
    /// generated one), mint a fresh access token, and bind it to
    /// (account, device), atomically invalidating any token previously
    /// bound to that device. Fails only on storage error or counter
    /// exhaustion; on failure no token changes.
    pub fn issue(&mut self, account: &str, device_id: Option<&String>) -> (r: Result<
        (String, String),
        ErrorKind,
    >)
        requires
            old(self).wf(),
        ensures
            final(self).wf(),
            final(self).accounts() == old(self).accounts(),
            final(self).sessions() == old(self).sessions(),
            final(self).flows() == old(self).flows(),
            final(self).store_fallible() == old(self).store_fallible(),
            final(self).id_ctr() == old(self).id_ctr(),
            r matches Ok(p) ==> {
                &&& p.0@ == (match device_id {
                    Some(d) => d@,
                    None => decimal_seq(old(self).device_ctr() as nat),
                })
                &&& p.1@ == decimal_seq(old(self).token_ctr() as nat)
                &&& final(self).tokens() == old(self).tokens().insert(
                    (account@, p.0@),
                    p.1@,
                )
                &&& (forall|k: (Seq<char>, Seq<char>)|
                    #[trigger] old(self).tokens().dom().contains(k) ==> old(self).tokens()[k]
                        != p.1@)
                &&& final(self).token_ctr() == old(self).token_ctr() + 1
                &&& (device_id is None ==> final(self).device_ctr() == old(self).device_ctr() + 1)
            },
            r matches Err(e) ==> e == ErrorKind::StorageFailure && final(self).tokens() == old(self).tokens(),
            !old(self).store_fallible() && old(self).token_ctr() < u64::MAX && (device_id is None
                ==> old(self).device_ctr() < u64::MAX) ==> r is Ok,
    {
        let ghost pre = *self;
        if self.token_counter == u64::MAX {
            return Err(ErrorKind::StorageFailure);
        }
        let dev: String = match device_id {
            Some(d) => d.clone(),
            None => {
                if self.device_counter == u64::MAX {
                    return Err(ErrorKind::StorageFailure);
                }
                let dv = to_decimal(self.device_counter);
                self.device_counter = self.device_counter + 1;
                dv
            },
        };
        let tok = to_decimal(self.token_counter);
        let ghost spent = self.token_counter as nat;
        self.token_counter = self.token_counter + 1;
        proof {
            assert forall|k: (Seq<char>, Seq<char>)|
                #[trigger] pre.tokens().dom().contains(k) implies pre.tokens()[k] != tok@ by {
                let n = choose|n: nat| n < pre.token_counter && pre.tokens()[k] == decimal_seq(n);
                if pre.tokens()[k] == tok@ {
                    lemma_decimal_injective(n, spent);
                }
            }
        }
        match self.store.insert_or_replace_device_token(account, dev.as_str(), tok.as_str()) {
            Ok(_) => {
                proof {
                    let key = (account@, dev@);
                    let m2 = self.store.tokens();
                    assert forall|k: (Seq<char>, Seq<char>)|
                        #[trigger] m2.dom().contains(k) implies exists|n: nat|
                        n < self.token_counter && m2[k] == decimal_seq(n) by {
                        if k == key {
                            assert(m2[k] == decimal_seq(spent) && spent < self.token_counter);
                        } else {
                            let n = choose|n: nat|
                                n < pre.token_counter && pre.tokens()[k] == decimal_seq(n);
                            assert(n < self.token_counter && m2[k] == decimal_seq(n));
                        }
                    }
                    assert forall|k1: (Seq<char>, Seq<char>), k2: (Seq<char>, Seq<char>)|
                        #![trigger m2[k1], m2[k2]]
                        m2.dom().contains(k1) && m2.dom().contains(k2) && k1 != k2 implies m2[k1]
                        != m2[k2] by {
                        if k1 == key {
                            assert(m2[k2] == pre.tokens()[k2]);
                        } else if k2 == key {
                            assert(m2[k1] == pre.tokens()[k1]);
                        } else {
                            assert(m2[k1] == pre.tokens()[k1]);
                            assert(m2[k2] == pre.tokens()[k2]);
                        }
                    }
                }
                Ok((dev, tok))
            },
            Err(_) => {
                proof {
                    assert forall|k: (Seq<char>, Seq<char>)|
                        #[trigger] self.store.tokens().dom().contains(k) implies exists|n: nat|
                        n < self.token_counter && self.store.tokens()[k] == decimal_seq(n) by {
                        let n = choose|n: nat|
                            n < pre.token_counter && pre.tokens()[k] == decimal_seq(n);
                        assert(n < self.token_counter && self.store.tokens()[k] == decimal_seq(n));
                    }
                }
                Err(ErrorKind::StorageFailure)
            },
        }
    }

    /// The account provisioner: derive the canonical localpart and insert
    /// the account record atomically.
    ///
    /// For users the requested localpart is re-validated (defense in depth,
    /// even though the orchestrator validates first) and taken unchanged as
    /// the canonical identifier; with none supplied, and always for guests,
    /// the server generates the id counter's numeral, honouring no client
    /// input. A concurrent duplicate insert surfaces as `UserInUse`, never
    /// as a silent overwrite. No token or session changes.
    pub fn provision(&mut self, kind: AccountKind, requested_username: Option<&String>) -> (r:
        Result<String, ErrorKind>)
        requires
            old(self).wf(),
        ensures
            final(self).wf(),
            final(self).tokens() == old(self).tokens(),
            final(self).sessions() == old(self).sessions(),
            final(self).flows() == old(self).flows(),
            final(self).store_fallible() == old(self).store_fallible(),
            final(self).device_ctr() == old(self).device_ctr(),
            final(self).token_ctr() == old(self).token_ctr(),
            r matches Ok(id) ==> {
                &&& id@ == provisioned_localpart(kind, requested_username, old(self).id_ctr())
                &&& is_valid_username(id@)
                &&& !old(self).accounts().dom().contains(id@)
                &&& final(self).accounts() == old(self).accounts().insert(id@, kind)
                &&& (provisioner_generates(kind, requested_username) ==> final(self).id_ctr()
                    == old(self).id_ctr() + 1)
            },
            (r == Err::<String, ErrorKind>(ErrorKind::InvalidUsername)) <==> (kind
                == AccountKind::User && (match requested_username {
                Some(u) => !is_valid_username(u@),
                None => false,
            })),
            r is Err ==> final(self).accounts() == old(self).accounts(),
            r == Err::<String, ErrorKind>(ErrorKind::UserInUse) ==> old(
                self,
            ).accounts().dom().contains(
                provisioned_localpart(kind, requested_username, old(self).id_ctr()),
            ),
            r is Ok || r == Err::<String, ErrorKind>(ErrorKind::InvalidUsername) || r == Err::<
                String,
                ErrorKind,
            >(ErrorKind::UserInUse) || r == Err::<String, ErrorKind>(ErrorKind::StorageFailure),
            !old(self).store_fallible() && (provisioner_generates(kind, requested_username)
                ==> old(self).id_ctr() < u64::MAX) ==> r != Err::<String, ErrorKind>(
                ErrorKind::StorageFailure,
            ),
    {
        let ghost pre = *self;
        let localpart: String = match kind {
            AccountKind::Guest => {
                if self.id_counter == u64::MAX {
                    return Err(ErrorKind::StorageFailure);
                }
                let lp = to_decimal(self.id_counter);
                self.id_counter = self.id_counter + 1;
                proof {
                    lemma_decimal_valid_username(pre.id_counter as nat);
                }
                lp
            },
            AccountKind::User => {
                match requested_username {
                    Some(u) => {
                        if let Err(e) = validate(u.as_str()) {
                            return Err(e);
                        }
                        u.clone()
                    },
                    None => {
                        if self.id_counter == u64::MAX {
                            return Err(ErrorKind::StorageFailure);
                        }
                        let lp = to_decimal(self.id_counter);
                        self.id_counter = self.id_counter + 1;
                        proof {
                            lemma_decimal_valid_username(pre.id_counter as nat);
                        }
                        lp
                    },
                }
            },
        };
        match self.store.insert_account(localpart.as_str(), kind) {
            InsertOutcome::Failed => Err(ErrorKind::StorageFailure),
            InsertOutcome::Collision => Err(ErrorKind::UserInUse),
            InsertOutcome::Inserted => Ok(localpart),
        }
    }

    /// Whether the registrar has headroom to serve this request: no counter
    /// it would spend is exhausted.
    pub open spec fn can_allocate(&self, req: &RegistrationRequest) -> bool {
        &&& self.token_ctr() < u64::MAX
        &&& (generates_device(req) ==> self.device_ctr() < u64::MAX)
        &&& (generates_id(req) ==> self.id_ctr() < u64::MAX)
        &&& (req.kind == AccountKind::User && uses_fresh_sid(self.sessions(), req.auth_session)
            ==> self.next_sid() < u64::MAX)
    }

    /// The registration orchestrator.
    ///
    /// Guests bypass validation, the availability check and the auth flow
    /// entirely; the server generates their identifier, honouring no request
    /// field but the device display name. Users are validated first (before
    /// any storage call), advisorily checked for collision, then driven
    /// through the auth flow; only a completed flow reaches the atomic
    /// account insert, whose collision surfaces as `UserInUse` exactly like
    /// an early one. Success binds a fresh access token to the settled
    /// device.
    pub fn register(&mut self, req: &RegistrationRequest, now: u64) -> (r: RegisterOutcome)
        requires
            old(self).wf(),
        ensures
            final(self).wf(),
            final(self).flows() == old(self).flows(),
            final(self).store_fallible() == old(self).store_fallible(),
            (r == RegisterOutcome::Failed(ErrorKind::InvalidUsername)) <==> (req.kind
                == AccountKind::User && (match req.username {
                Some(u) => !is_valid_username(u@),
                None => false,
            })),
            r == RegisterOutcome::Failed(ErrorKind::InvalidUsername) ==> final(self).accounts()
                == old(self).accounts() && final(self).tokens() == old(self).tokens() && final(self).sessions() == old(self).sessions(),
            req.kind == AccountKind::Guest ==> !(r is AuthIncomplete) && final(self).sessions()
                == old(self).sessions(),
            r is Success || r is AuthIncomplete || r == RegisterOutcome::Failed(
                ErrorKind::InvalidUsername,
            ) || r == RegisterOutcome::Failed(ErrorKind::UserInUse) || r == RegisterOutcome::Failed(
                ErrorKind::StorageFailure,
            ),
            r matches RegisterOutcome::Success { user_id, device_id, access_token } ==> {
                &&& user_id@ == chosen_localpart(req, old(self).id_ctr())
                &&& is_valid_username(user_id@)
                &&& !old(self).accounts().dom().contains(user_id@)
                &&& final(self).accounts() == old(self).accounts().insert(user_id@, req.kind)
                &&& device_id@ == chosen_device(req, old(self).device_ctr())
                &&& access_token@ == decimal_seq(old(self).token_ctr() as nat)
                &&& final(self).tokens() == old(self).tokens().insert(
                    (user_id@, device_id@),
                    access_token@,
                )
                &&& (forall|k: (Seq<char>, Seq<char>)|
                    #[trigger] old(self).tokens().dom().contains(k) ==> old(self).tokens()[k]
                        != access_token@)
                &&& (generates_id(req) ==> final(self).id_ctr() == old(self).id_ctr() + 1)
                &&& final(self).token_ctr() == old(self).token_ctr() + 1
                &&& (generates_device(req) ==> final(self).device_ctr() == old(self).device_ctr()
                    + 1)
            },
            req.kind == AccountKind::User && r is Success ==> any_flow_satisfied(
                old(self).flows(),
                step_done(old(self).sessions(), req.auth_session, req.auth_submission, now),
            ) && final(self).sessions() == old(self).sessions().remove(
                target_sid(old(self).sessions(), req.auth_session, old(self).next_sid()),
            ),
            r == RegisterOutcome::Failed(ErrorKind::UserInUse) ==> old(self).accounts().dom().contains(chosen_localpart(req, old(self).id_ctr())) && final(self).accounts() == old(self).accounts() && final(self).tokens() == old(self).tokens(),
            req.kind == AccountKind::User && (match req.username {
                Some(u) => is_valid_username(u@) && old(self).accounts().dom().contains(u@),
                None => false,
            }) && !old(self).store_fallible() ==> r == RegisterOutcome::Failed(
                ErrorKind::UserInUse,
            ),
            r matches RegisterOutcome::AuthIncomplete { session_id, remaining } ==> {
                let m = old(self).sessions();
                let done = step_done(m, req.auth_session, req.auth_submission, now);
                &&& req.kind == AccountKind::User
                &&& !any_flow_satisfied(old(self).flows(), done)
                &&& session_id == target_sid(m, req.auth_session, old(self).next_sid())
                &&& final(self).accounts() == old(self).accounts()
                &&& final(self).tokens() == old(self).tokens()
                &&& final(self).sessions().dom() == m.dom().insert(session_id)
                &&& stage_set(final(self).sessions()[session_id].0) == done
                &&& remaining@.len() == old(self).flows().len()
                &&& (forall|i: int|
                    0 <= i < remaining@.len() ==> is_remaining(
                        old(self).flows()[i],
                        done,
                        (#[trigger] remaining@[i])@,
                    ))
            },
            r == RegisterOutcome::Failed(ErrorKind::StorageFailure) ==> final(self).tokens() == old(self).tokens() && (final(self).accounts() == old(self).accounts() || final(self).accounts()
                == old(self).accounts().insert(
                chosen_localpart(req, old(self).id_ctr()),
                req.kind,
            )),
            !old(self).store_fallible() && old(self).can_allocate(req) ==> r
                != RegisterOutcome::Failed(ErrorKind::StorageFailure),
    {
        let ghost pre = *self;
        if let AccountKind::User = req.kind {
            if let Some(u) = &req.username {
                if let AvailabilityOutcome::Unavailable(e) = self.check_availability(u.as_str()) {
                    return RegisterOutcome::Failed(e);
                }
            }
        }
        let server_picks_device = match req.kind {
            AccountKind::Guest => true,
            AccountKind::User => req.device_id.is_none(),
        };
        if self.token_counter == u64::MAX {
            return RegisterOutcome::Failed(ErrorKind::StorageFailure);
        }
        if server_picks_device && self.device_counter == u64::MAX {
            return RegisterOutcome::Failed(ErrorKind::StorageFailure);
        }
        if let AccountKind::User = req.kind {
            let progress = self.auth_sessions.step(
                &self.config,
                req.auth_session,
                req.auth_submission,
                now,
            );
            match progress {
                Err(e) => {
                    return RegisterOutcome::Failed(e);
                },
                Ok(AuthProgress::Incomplete { session_id, remaining }) => {
                    return RegisterOutcome::AuthIncomplete { session_id, remaining };
                },
                Ok(AuthProgress::Completed) => {},
            }
        }
        let uref: Option<&String> = match &req.username {
            Some(u) => Some(u),
            None => None,
        };
        proof {
            assert(provisioned_localpart(req.kind, uref, self.id_counter) == chosen_localpart(
                req,
                pre.id_counter,
            ));
        }
        let localpart: String = match self.provision(req.kind, uref) {
            Ok(id) => id,
            Err(e) => {
                return RegisterOutcome::Failed(e);
            },
        };
        let dev_ref: Option<&String> = if server_picks_device {
            None
        } else {
            match &req.device_id {
                Some(d) => Some(d),
                None => None,
            }
        };
        match self.issue(localpart.as_str(), dev_ref) {
            Ok(p) => RegisterOutcome::Success {
                user_id: localpart,
                device_id: p.0,
                access_token: p.1,
            },
            Err(e) => RegisterOutcome::Failed(e),
        }
    }

    /// Discards every auth session whose expiry lies before `now`. Safe to
    /// run at any time, independently of requests: abandoned registration
    /// attempts stop occupying memory, live ones are untouched.
    pub fn purge_expired_sessions(&mut self, now: u64)
        requires
            old(self).wf(),
        ensures
            final(self).wf(),
            final(self).accounts() == old(self).accounts(),
            final(self).tokens() == old(self).tokens(),
            final(self).flows() == old(self).flows(),
            forall|sid: u64| #[trigger] final(self).sessions().dom().contains(sid) <==> old(self).sessions().dom().contains(sid) && now <= old(self).sessions()[sid].1,
            forall|sid: u64| #[trigger] final(self).sessions().dom().contains(sid) ==> final(self).sessions()[sid] == old(self).sessions()[sid],
    {
        self.auth_sessions.purge_expired(now);
    }

    /// A well-formed registrar never binds one token value to two devices.
    pub proof fn lemma_tokens_distinct(&self)
        requires
            self.wf(),
        ensures
            forall|k1: (Seq<char>, Seq<char>), k2: (Seq<char>, Seq<char>)|
                #![trigger self.tokens()[k1], self.tokens()[k2]]
                self.tokens().dom().contains(k1) && self.tokens().dom().contains(k2) && k1 != k2
                    ==> self.tokens()[k1] != self.tokens()[k2],
    {
    }
}

/// Re-binding a device's token invalidates the prior one: once a fresh,
/// different value is bound to `key`, and no other device shared the prior
/// value, the prior value is active nowhere.
pub proof fn lemma_reissue_invalidates(
    m: Map<(Seq<char>, Seq<char>), Seq<char>>,
    key: (Seq<char>, Seq<char>),
    fresh: Seq<char>,
)
    requires
        m.dom().contains(key),
        fresh != m[key],
        forall|k1: (Seq<char>, Seq<char>), k2: (Seq<char>, Seq<char>)|
            #![trigger m[k1], m[k2]]
            m.dom().contains(k1) && m.dom().contains(k2) && k1 != k2 ==> m[k1] != m[k2],
    ensures
        !token_active(m.insert(key, fresh), m[key]),
{
    let m2 = m.insert(key, fresh);
    assert forall|k: (Seq<char>, Seq<char>)| #[trigger] m2.dom().contains(k) implies m2[k]
        != m[key] by {
        if k != key {
            assert(m2[k] == m[k]);
        }
    }
}

/// Issuing a second token for the same (account, device) pair invalidates
/// the first: after the re-issue, the prior token fails the authorization
/// check everywhere.
pub proof fn lemma_issue_invalidates_prior<S: Store>(
    pre: &Registrar<S>,
    post: &Registrar<S>,
    key: (Seq<char>, Seq<char>),
    fresh: Seq<char>,
)
    requires
        pre.wf(),
        pre.tokens().dom().contains(key),
        post.tokens() == pre.tokens().insert(key, fresh),
        fresh != pre.tokens()[key],
    ensures
        !token_active(post.tokens(), pre.tokens()[key]),
{
    pre.lemma_tokens_distinct();
    lemma_reissue_invalidates(pre.tokens(), key, fresh);
}

/// Guest registration ignores the desired-username field: generated guest
/// identifiers for distinct counter values are distinct from each other,
/// validly formatted, and equal to neither supplied username, stated here
/// for supplied usernames holding at least one non-digit character. (A
/// username that is itself exactly the counter's numeral — "0" at counter
/// zero — would coincide, so digit-only inputs are excluded.)
pub proof fn lemma_guest_ids_fresh(c1: u64, c2: u64, s1: Seq<char>, i1: int, s2: Seq<char>, i2: int)
    requires
        c1 != c2,
        0 <= i1 < s1.len(),
        !is_digit_char(s1[i1]),
        0 <= i2 < s2.len(),
        !is_digit_char(s2[i2]),
    ensures
        decimal_seq(c1 as nat) != decimal_seq(c2 as nat),
        is_valid_username(decimal_seq(c1 as nat)),
        is_valid_username(decimal_seq(c2 as nat)),
        decimal_seq(c1 as nat) != s1,
        decimal_seq(c2 as nat) != s2,
{
    if decimal_seq(c1 as nat) == decimal_seq(c2 as nat) {
        lemma_decimal_injective(c1 as nat, c2 as nat);
    }
    lemma_decimal_valid_username(c1 as nat);
    lemma_decimal_valid_username(c2 as nat);
    lemma_numeral_differs_from(s1, i1, c1 as nat);
    lemma_numeral_differs_from(s2, i2, c2 as nat);
}

} // verus!
