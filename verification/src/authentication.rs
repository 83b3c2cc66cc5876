//! User-interactive authentication: mechanisms, flows, per-negotiation
//! session state, and the negotiation verdict.
//!
//! A client satisfies authentication by completing every stage of at least
//! one configured flow. Order within a flow is declared but not enforced:
//! completion is set coverage, so retried or interleaved stages are fine,
//! and completing the same stage twice is idempotent.

use vstd::prelude::*;
use vstd::utf8::encode_utf8;
use vstd::string::StrSliceExecFns;
use crate::bytes::ct_eq;
use crate::crypto::{hash_of, sha256};
use crate::error::APIError;

verus! {

/// An individual authentication mechanism to be used in a `Flow`.
#[derive(Clone, Copy, Debug, PartialEq, Eq, Structural)]
pub enum AuthType {
    Dummy,
    Email(EmailAuthType),
    OAuth2,
    Password,
    ReCaptcha,
    Token,
}

/// `AuthType`s related to email.
#[derive(Clone, Copy, Debug, PartialEq, Eq, Structural)]
pub enum EmailAuthType {
    Identity,
}

impl AuthType {
    /// The fixed wire name of each mechanism; the mapping is total and
    /// stable.
    pub open spec fn wire_name_spec(self) -> Seq<char> {
        match self {
            AuthType::Dummy => "m.login.dummy"@,
            AuthType::Email(EmailAuthType::Identity) => "m.login.email.identity"@,
            AuthType::OAuth2 => "m.login.oauth2"@,
            AuthType::Password => "m.login.password"@,
            AuthType::ReCaptcha => "m.login.recaptcha"@,
            AuthType::Token => "m.login.token"@,
        }
    }

    /// Serializes the mechanism to its wire name.
    pub fn wire_name(&self) -> (r: &'static str)
        ensures
            r@ == self.wire_name_spec(),
    {
        match self {
            AuthType::Dummy => "m.login.dummy",
            AuthType::Email(EmailAuthType::Identity) => "m.login.email.identity",
            AuthType::OAuth2 => "m.login.oauth2",
            AuthType::Password => "m.login.password",
            AuthType::ReCaptcha => "m.login.recaptcha",
            AuthType::Token => "m.login.token",
        }
    }

    /// Parses a wire name back into a mechanism; an unknown name fails
    /// rather than defaulting.
    pub fn from_wire_name(s: &str) -> (r: Option<AuthType>)
        ensures
            match r {
                Some(t) => s@ == t.wire_name_spec(),
                None => forall|t: AuthType| s@ != #[trigger] t.wire_name_spec(),
            },
    {
        let sb = s.as_bytes_vec();
        if ct_eq(&sb, &"m.login.dummy".as_bytes_vec()) {
            proof {
                lemma_same_bytes_same_chars(s@, "m.login.dummy"@);
            }
            Some(AuthType::Dummy)
        } else if ct_eq(&sb, &"m.login.email.identity".as_bytes_vec()) {
            proof {
                lemma_same_bytes_same_chars(s@, "m.login.email.identity"@);
            }
            Some(AuthType::Email(EmailAuthType::Identity))
        } else if ct_eq(&sb, &"m.login.oauth2".as_bytes_vec()) {
            proof {
                lemma_same_bytes_same_chars(s@, "m.login.oauth2"@);
            }
            Some(AuthType::OAuth2)
        } else if ct_eq(&sb, &"m.login.password".as_bytes_vec()) {
            proof {
                lemma_same_bytes_same_chars(s@, "m.login.password"@);
            }
            Some(AuthType::Password)
        } else if ct_eq(&sb, &"m.login.recaptcha".as_bytes_vec()) {
            proof {
                lemma_same_bytes_same_chars(s@, "m.login.recaptcha"@);
            }
            Some(AuthType::ReCaptcha)
        } else if ct_eq(&sb, &"m.login.token".as_bytes_vec()) {
            proof {
                lemma_same_bytes_same_chars(s@, "m.login.token"@);
            }
            Some(AuthType::Token)
        } else {
            proof {
                assert forall|t: AuthType| s@ != #[trigger] t.wire_name_spec() by {
                    if s@ == t.wire_name_spec() {
                        match t {
                            AuthType::Dummy => {},
                            AuthType::Email(EmailAuthType::Identity) => {},
                            AuthType::OAuth2 => {},
                            AuthType::Password => {},
                            AuthType::ReCaptcha => {},
                            AuthType::Token => {},
                        }
                    }
                }
            }
            None
        }
    }
}

/// Equal UTF-8 encodings come from equal character sequences.
proof fn lemma_same_bytes_same_chars(a: Seq<char>, b: Seq<char>)
    requires
        encode_utf8(a) == encode_utf8(b),
    ensures
        a == b,
{
    vstd::utf8::encode_utf8_decode_utf8(a);
    vstd::utf8::encode_utf8_decode_utf8(b);
}

/// A list of `AuthType`s that satisfy authentication requirements.
#[derive(Clone, Debug)]
pub struct Flow {
    auth_types: Vec<AuthType>,
}

impl Flow {
    /// The required stages, in declared order.
    pub closed spec fn stages(self) -> Seq<AuthType> {
        self.auth_types@
    }

    pub fn new(auth_types: Vec<AuthType>) -> (r: Self)
        ensures
            r.stages() == auth_types@,
    {
        Flow { auth_types }
    }

    /// The required stages of this flow.
    pub fn stage_list(&self) -> (r: &Vec<AuthType>)
        ensures
            r@ == self.stages(),
    {
        &self.auth_types
    }
}

/// All stages of `stages` appear in `completed`: order is not enforced.
pub open spec fn flow_satisfied(stages: Seq<AuthType>, completed: Set<AuthType>) -> bool {
    forall|i: int| 0 <= i < stages.len() ==> completed.contains(#[trigger] stages[i])
}

/// Per-negotiation state: a stable session identifier plus the set of
/// stages completed so far.
pub struct AuthSession {
    session_id: String,
    completed: Vec<AuthType>,
}

impl AuthSession {
    /// The stages completed so far, as a set.
    pub closed spec fn completed_set(self) -> Set<AuthType> {
        self.completed@.to_set()
    }

    /// The stable identifier of this negotiation.
    pub closed spec fn id(self) -> Seq<char> {
        self.session_id@
    }

    /// A fresh session with nothing completed.
    pub fn new(session_id: String) -> (r: Self)
        ensures
            r.completed_set() == Set::<AuthType>::empty(),
            r.id() == session_id@,
    {
        let s = AuthSession { session_id, completed: Vec::new() };
        proof {
            assert(s.completed_set() =~= Set::<AuthType>::empty());
        }
        s
    }

    /// Whether `stage` has been completed in this session.
    pub fn has_completed(&self, stage: AuthType) -> (r: bool)
        ensures
            r == self.completed_set().contains(stage),
    {
        let mut i: usize = 0;
        while i < self.completed.len()
            invariant
                0 <= i <= self.completed@.len(),
                forall|j: int| 0 <= j < i ==> self.completed@[j] != stage,
            decreases self.completed@.len() - i,
        {
            if self.completed[i] == stage {
                assert(self.completed@.contains(stage));
                return true;
            }
            i = i + 1;
        }
        proof {
            if self.completed_set().contains(stage) {
                let j = choose|j: int|
                    0 <= j < self.completed@.len() && self.completed@[j] == stage;
                assert(false);
            }
        }
        false
    }

    /// Records a successfully completed stage. Completing the same stage
    /// twice is idempotent: the resulting set is the union either way.
    pub fn complete_stage(&mut self, stage: AuthType)
        ensures
            final(self).completed_set() == old(self).completed_set().insert(stage),
            final(self).id() == old(self).id(),
    {
        let already = self.has_completed(stage);
        if !already {
            self.completed.push(stage);
            proof {
                assert forall|a: AuthType|
                    self.completed_set().contains(a) == old(self).completed_set().insert(
                        stage,
                    ).contains(a) by {
                    if self.completed@.contains(a) {
                        let j = choose|j: int|
                            0 <= j < self.completed@.len() && self.completed@[j] == a;
                        if j < old(self).completed@.len() {
                            assert(old(self).completed@.contains(a));
                        }
                    }
                    if old(self).completed@.contains(a) {
                        let j = choose|j: int|
                            0 <= j < old(self).completed@.len() && old(self).completed@[j] == a;
                        assert(self.completed@[j] == a);
                        assert(self.completed@.contains(a));
                    }
                    if a == stage {
                        assert(self.completed@[old(self).completed@.len() as int] == a);
                        assert(self.completed@.contains(a));
                    }
                }
                assert(self.completed_set() =~= old(self).completed_set().insert(stage));
            }
        } else {
            proof {
                assert(self.completed_set() =~= old(self).completed_set().insert(stage));
            }
        }
    }

    /// The completed stages, in completion order (free of duplicates).
    pub fn completed_stages(&self) -> (r: &Vec<AuthType>)
        ensures
            r@.to_set() == self.completed_set(),
    {
        &self.completed
    }

    /// The session identifier.
    pub fn session_id(&self) -> (r: &String)
        ensures
            r@ == self.id(),
    {
        &self.session_id
    }
}

/// A set of authorization flows the user can follow to authenticate a
/// request.
#[derive(Clone, Debug)]
pub struct InteractiveAuth {
    flows: Vec<Flow>,
}

impl InteractiveAuth {
    /// The configured flows, each as its stage list.
    pub closed spec fn flows_spec(self) -> Seq<Seq<AuthType>> {
        self.flows@.map_values(|f: Flow| f.auth_types@)
    }

    pub fn new(flows: Vec<Flow>) -> (r: Self)
        ensures
            r.flows_spec() == flows@.map_values(|f: Flow| f.stages()),
    {
        let r = InteractiveAuth { flows };
        proof {
            assert(r.flows_spec() =~= r.flows@.map_values(|f: Flow| f.stages()));
        }
        r
    }

    /// The configured flows, for presenting to a client that still has
    /// stages to complete.
    pub fn flow_list(&self) -> (r: &Vec<Flow>)
        ensures
            r@.map_values(|f: Flow| f.stages()) == self.flows_spec(),
    {
        proof {
            assert(self.flows@.map_values(|f: Flow| f.stages()) =~= self.flows_spec());
        }
        &self.flows
    }

    /// Whether the submitted parameters target a stage that some configured
    /// flow requires at all.
    pub fn validate(&self, params: &AuthParams) -> (r: bool)
        ensures
            r == exists|j: int, i: int|
                0 <= j < self.flows_spec().len() && 0 <= i < self.flows_spec()[j].len()
                    && self.flows_spec()[j][i] == params.declared_type(),
    {
        let t = params.stage();
        let mut j: usize = 0;
        while j < self.flows.len()
            invariant
                0 <= j <= self.flows@.len(),
                t == params.declared_type(),
                forall|q: int, i: int|
                    0 <= q < j && 0 <= i < self.flows_spec()[q].len() ==> self.flows_spec()[q][i]
                        != params.declared_type(),
            decreases self.flows@.len() - j,
        {
            let flow = &self.flows[j];
            let mut i: usize = 0;
            while i < flow.auth_types.len()
                invariant
                    0 <= j < self.flows@.len(),
                    0 <= i <= flow.auth_types@.len(),
                    t == params.declared_type(),
                    flow == self.flows@[j as int],
                    forall|q: int|
                        0 <= q < i ==> self.flows_spec()[j as int][q] != params.declared_type(),
                decreases flow.auth_types@.len() - i,
            {
                if flow.auth_types[i] == t {
                    assert(self.flows_spec()[j as int][i as int] == params.declared_type());
                    return true;
                }
                i = i + 1;
            }
            j = j + 1;
        }
        proof {
            if exists|q: int, i: int|
                0 <= q < self.flows_spec().len() && 0 <= i < self.flows_spec()[q].len()
                    && self.flows_spec()[q][i] == params.declared_type() {
                let (q, i) = choose|q: int, i: int|
                    0 <= q < self.flows_spec().len() && 0 <= i < self.flows_spec()[q].len()
                        && self.flows_spec()[q][i] == params.declared_type();
                assert(false);
            }
        }
        false
    }

    /// The interactive-auth configuration this request is judged against.
    pub fn with_auth_params<'a>(&'a self, _params: &AuthParams) -> (r: &'a InteractiveAuth)
        ensures
            r == self,
    {
        self
    }

    /// Whether at least one configured flow is fully covered by the
    /// session's completed stages.
    pub fn is_satisfied(&self, session: &AuthSession) -> (r: bool)
        ensures
            r == exists|j: int|
                0 <= j < self.flows_spec().len() && flow_satisfied(
                    #[trigger] self.flows_spec()[j],
                    session.completed_set(),
                ),
    {
        let mut j: usize = 0;
        while j < self.flows.len()
            invariant
                0 <= j <= self.flows@.len(),
                forall|q: int|
                    0 <= q < j ==> !flow_satisfied(
                        #[trigger] self.flows_spec()[q],
                        session.completed_set(),
                    ),
            decreases self.flows@.len() - j,
        {
            if Self::flow_done(&self.flows[j], session) {
                assert(flow_satisfied(self.flows_spec()[j as int], session.completed_set()));
                return true;
            }
            j = j + 1;
        }
        proof {
            if exists|q: int|
                0 <= q < self.flows_spec().len() && flow_satisfied(
                    #[trigger] self.flows_spec()[q],
                    session.completed_set(),
                ) {
                let q = choose|q: int|
                    0 <= q < self.flows_spec().len() && flow_satisfied(
                        #[trigger] self.flows_spec()[q],
                        session.completed_set(),
                    );
                assert(false);
            }
        }
        false
    }

    /// Whether every stage of `flow` is completed in `session`.
    fn flow_done(flow: &Flow, session: &AuthSession) -> (r: bool)
        ensures
            r == flow_satisfied(flow.stages(), session.completed_set()),
    {
        let mut i: usize = 0;
        while i < flow.auth_types.len()
            invariant
                0 <= i <= flow.auth_types@.len(),
                forall|q: int|
                    0 <= q < i ==> session.completed_set().contains(#[trigger] flow.auth_types@[q]),
            decreases flow.auth_types@.len() - i,
        {
            if !session.has_completed(flow.auth_types[i]) {
                return false;
            }
            i = i + 1;
        }
        true
    }
}

/// Authentication parameters submitted by the user in a request.
#[derive(Clone, Debug)]
pub enum AuthParams {
    Password(PasswordAuthParams),
}

/// `m.login.password` request parameters.
#[derive(Clone, Debug)]
pub enum PasswordAuthParams {
    UserId(UserIdPasswordAuthParams),
}

/// `m.login.password` request parameters with a user ID or localpart.
#[derive(Clone, Debug)]
pub struct UserIdPasswordAuthParams {
    /// The stage these parameters declare to target.
    pub auth_type: AuthType,
    /// The supplied password.
    pub password: String,
    /// The user ID or localpart the attempt is for.
    pub user: String,
}

impl AuthParams {
    /// The stage the parameters declare to target.
    pub open spec fn declared_type(self) -> AuthType {
        match self {
            AuthParams::Password(PasswordAuthParams::UserId(c)) => c.auth_type,
        }
    }

    /// The subject of the attempt.
    pub open spec fn user_spec(self) -> Seq<char> {
        match self {
            AuthParams::Password(PasswordAuthParams::UserId(c)) => c.user@,
        }
    }

    /// The supplied password.
    pub open spec fn password_spec(self) -> Seq<char> {
        match self {
            AuthParams::Password(PasswordAuthParams::UserId(c)) => c.password@,
        }
    }

    /// The declared stage of the parameters.
    pub fn stage(&self) -> (t: AuthType)
        ensures
            t == self.declared_type(),
    {
        match self {
            AuthParams::Password(PasswordAuthParams::UserId(c)) => c.auth_type,
        }
    }

    /// Attempts the password stage: the declared type must be `Password`
    /// (checked before any lookup), the user must exist, and the stored
    /// hash must match the supplied password's hash; any mismatch yields
    /// the same opaque rejection.
    #[verifier::loop_isolation(false)]
    pub fn authenticate(&self, store: &UserStore) -> (r: Result<User, APIError>)
        ensures
            (r is Ok) == (self.declared_type() == AuthType::Password && store.credentials_match(
                self.user_spec(),
                self.password_spec(),
            )),
            r matches Ok(u) ==> u.id@ == self.user_spec() && u.password_hash@ == hash_of(
                encode_utf8(self.password_spec()),
            ),
            r matches Err(e) ==> e == APIError::Unauthorized,
    {
        let AuthParams::Password(password_auth_params) = self;
        let PasswordAuthParams::UserId(creds) = password_auth_params;
        proof {
            assert(self.declared_type() == creds.auth_type);
            assert(self.user_spec() == creds.user@);
            assert(self.password_spec() == creds.password@);
        }
        match creds.auth_type {
            AuthType::Password => {},
            _ => {
                return Err(APIError::Unauthorized);
            },
        }
        let hashed = hash_password(&creds.password);
        let mut i: usize = 0;
        while i < store.users.len()
            invariant
                0 <= i <= store.users@.len(),
                hashed@ == hash_of(encode_utf8(creds.password@)),
                forall|j: int|
                    0 <= j < i ==> !((#[trigger] store.users@[j]).id@ == creds.user@
                        && store.users@[j].password_hash@ == hash_of(encode_utf8(creds.password@))),
            decreases store.users@.len() - i,
        {
            let candidate = &store.users[i];
            if candidate.id == creds.user && ct_eq(&candidate.password_hash, &hashed) {
                proof {
                    assert((#[trigger] store.users_spec()[i as int]).id@ == creds.user@);
                    assert(store.users_spec()[i as int].password_hash@ == hash_of(
                        encode_utf8(creds.password@),
                    ));
                    assert(store.credentials_match(creds.user@, creds.password@));
                }
                return Ok(candidate.duplicate());
            }
            i = i + 1;
        }
        proof {
            if store.credentials_match(creds.user@, creds.password@) {
                let j = choose|j: int|
                    0 <= j < store.users@.len() && (#[trigger] store.users@[j]).id@ == creds.user@
                        && store.users@[j].password_hash@ == hash_of(encode_utf8(creds.password@));
                assert(false);
            }
        }
        Err(APIError::Unauthorized)
    }
}

/// Hashes a password the way stored credentials are hashed.
pub fn hash_password(password: &str) -> (r: Vec<u8>)
    ensures
        r@ == hash_of(encode_utf8(password@)),
{
    let b = password.as_bytes_vec();
    sha256(&b)
}

/// A registered principal: its id and the hash of its password.
#[derive(Debug)]
pub struct User {
    /// The principal's id.
    pub id: String,
    /// The hash of the principal's password.
    pub password_hash: Vec<u8>,
}

impl User {
    /// An owned copy of this principal.
    pub fn duplicate(&self) -> (r: User)
        ensures
            r.id@ == self.id@,
            r.password_hash@ == self.password_hash@,
    {
        let h = crate::bytes::subvec(&self.password_hash, 0, self.password_hash.len());
        proof {
            assert(h@ =~= self.password_hash@);
        }
        User { id: self.id.clone(), password_hash: h }
    }
}

/// An in-memory registry of principals.
#[derive(Debug)]
pub struct UserStore {
    users: Vec<User>,
}

impl UserStore {
    /// The registered principals, in registration order.
    pub closed spec fn users_spec(self) -> Seq<User> {
        self.users@
    }

    /// Some registered principal has this id and this password's hash.
    pub open spec fn credentials_match(self, id: Seq<char>, password: Seq<char>) -> bool {
        exists|i: int|
            0 <= i < self.users_spec().len() && (#[trigger] self.users_spec()[i]).id@ == id
                && self.users_spec()[i].password_hash@ == hash_of(encode_utf8(password))
    }

    /// Some registered principal has this id.
    pub open spec fn has_user(self, id: Seq<char>) -> bool {
        exists|i: int| 0 <= i < self.users_spec().len() && (#[trigger] self.users_spec()[i]).id@ == id
    }

    /// An empty registry.
    pub fn new() -> (r: UserStore)
        ensures
            r.users_spec().len() == 0,
    {
        UserStore { users: Vec::new() }
    }

    /// Registers a principal with a password; rejects an id already taken.
    #[verifier::loop_isolation(false)]
    pub fn register(&mut self, user_id: &str, password: &str) -> (r: bool)
        ensures
            r == !old(self).has_user(user_id@),
            r ==> final(self).users_spec().len() == old(self).users_spec().len() + 1,
            r ==> final(self).users_spec().last().id@ == user_id@,
            r ==> final(self).users_spec().last().password_hash@ == hash_of(encode_utf8(password@)),
            r ==> forall|j: int|
                0 <= j < old(self).users_spec().len() ==> final(self).users_spec()[j] == old(
                    self,
                ).users_spec()[j],
            !r ==> final(self).users_spec() == old(self).users_spec(),
    {
        let mut i: usize = 0;
        while i < self.users.len()
            invariant
                0 <= i <= self.users@.len(),
                forall|j: int| 0 <= j < i ==> (#[trigger] self.users@[j]).id@ != user_id@,
            decreases self.users@.len() - i,
        {
            let existing: &str = self.users[i].id.as_str();
            let same = crate::bytes::ct_eq(&existing.as_bytes_vec(), &user_id.as_bytes_vec());
            if same {
                proof {
                    lemma_same_bytes_same_chars(self.users@[i as int].id@, user_id@);
                }
                return false;
            }
            proof {
                if self.users@[i as int].id@ == user_id@ {
                    assert(false);
                }
            }
            i = i + 1;
        }
        proof {
            if self.has_user(user_id@) {
                let j = choose|j: int|
                    0 <= j < self.users_spec().len() && (#[trigger] self.users_spec()[j]).id@
                        == user_id@;
                assert(false);
            }
        }
        let hash = hash_password(password);
        self.users.push(User { id: user_id.to_owned(), password_hash: hash });
        true
    }
}

impl InteractiveAuth {
    /// One negotiation step: attempts the submitted stage against the
    /// registry, records it in the session on success, and reports whether
    /// any flow is now fully satisfied. A rejected attempt never advances
    /// the session.
    pub fn process_attempt(
        &self,
        session: &mut AuthSession,
        params: &AuthParams,
        store: &UserStore,
    ) -> (r: Result<(User, bool), APIError>)
        ensures
            (r is Ok) == (params.declared_type() == AuthType::Password && store.credentials_match(
                params.user_spec(),
                params.password_spec(),
            )),
            r matches Ok(ub) ==> final(session).completed_set() == old(
                session,
            ).completed_set().insert(AuthType::Password),
            r matches Ok(ub) ==> ub.0.id@ == params.user_spec(),
            r matches Ok(ub) ==> (ub.1 == exists|j: int|
                0 <= j < self.flows_spec().len() && flow_satisfied(
                    #[trigger] self.flows_spec()[j],
                    final(session).completed_set(),
                )),
            r is Err ==> final(session).completed_set() == old(session).completed_set() && r
                == Err::<(User, bool), APIError>(APIError::Unauthorized),
            final(session).id() == old(session).id(),
    {
        let attempt = params.authenticate(store);
        match attempt {
            Err(_) => Err(APIError::Unauthorized),
            Ok(user) => {
                session.complete_stage(AuthType::Password);
                let done = self.is_satisfied(session);
                Ok((user, done))
            },
        }
    }
}

} // verus!
