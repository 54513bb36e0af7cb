//! What is said to the engine, and what its answers mean.
use crate::json;
use crate::json::{Json, Tree};
use crate::login::{LoginState, Roles};
use crate::text;
use crate::time::{Duration, Instant, NANOS_PER_SEC};
use crate::tokens;
use crate::tokens::TokenMap;
use vstd::prelude::*;

verus! {

/// The query that writes an identity through to the user database.
pub const CHAT_VERIFY_QUERY: &'static str = "chat_verify_identity";

/// This module's side of the connection to the engine.
#[derive(Debug, Clone)]
pub struct EngineHandle {
    pub auth_token: String,
    pub module_name: String,
    pub instance_uuid7: String,
}

/// What can be said to the engine.
#[derive(Debug)]
pub enum Outgoing {
    /// The answer to a liveness probe.
    AuthVerify { cur_auth: String },
    /// A pipeline message was received.
    MessageAck { message_uuid7: String },
    /// A question to the database.
    DatabaseQuery { query_id: String, sql: String, params: Vec<String> },
    /// The answer to a prompt.
    PromptResponse { prompt_id_uuid7: String, accepted: bool, reason: String },
    /// A chat message for a platform, in the name of an actor.
    SendToPlatforms {
        msg: String,
        level: SendLevel,
        module_uuid7: String,
        pid: String,
        platform: String,
        actor_platform: String,
        actor_handle: String,
        actor_uuid7: String,
    },
}

/// How far a chat message goes.
#[derive(Debug, Clone, Copy, PartialEq, Eq, Structural)]
pub enum SendLevel {
    /// To every adapter of its platform, not to one module or process alone.
    All,
}

/// A message to the engine with its sender.
#[derive(Debug)]
pub struct Container {
    pub version: u32,
    pub auth_token: String,
    pub module_name: String,
    pub module_instance_uuid7: String,
    pub payload: Outgoing,
}

/// The answer to a database query.
#[derive(Debug, Clone)]
pub struct QueryResult {
    pub query_id: String,
    pub success: bool,
    pub error: String,
    pub result_blob: Vec<u8>,
}

/// A query that reads `query_id` and `sql`, without parameters.
pub open spec fn is_query(p: Outgoing, query_id: Seq<char>, sql: Seq<char>) -> bool {
    p matches Outgoing::DatabaseQuery { query_id: q, sql: s, params } && q@ == query_id && s@ == sql
        && params@.len() == 0
}

/// What the engine is asked to write down of an identity.
pub open spec fn identity_tree(platform: Seq<char>, handle: Seq<char>, roles: Roles) -> Tree {
    Tree::Object(
        seq![
            ("platform"@, Tree::Text(platform)),
            ("handle"@, Tree::Text(handle)),
            (
                "verified_roles"@,
                Tree::Object(
                    seq![
                        ("is_sponsor"@, Tree::Bool(roles.is_sponsor)),
                        ("is_moderator"@, Tree::Bool(roles.is_moderator)),
                        ("is_admin"@, Tree::Bool(roles.is_admin)),
                        ("is_owner"@, Tree::Bool(roles.is_owner)),
                    ],
                ),
            ),
        ],
    )
}

/// The roles that a user record gives.
pub open spec fn roles_in(user: Tree) -> Roles {
    Roles {
        is_sponsor: json::flag(user, "is_sponsor"@),
        is_moderator: json::flag(user, "is_moderator"@),
        is_admin: json::flag(user, "is_admin"@),
        is_owner: json::flag(user, "is_owner"@),
    }
}

/// The effective roles in an answer, or what went wrong.
pub open spec fn effective_roles(
    success: bool,
    error: Seq<char>,
    blob: Result<Tree, Seq<char>>,
) -> Result<Roles, Seq<char>> {
    if !success {
        Err(error)
    } else {
        match blob {
            Ok(t) => Ok(
                match json::field(t, "user"@) {
                    Some(user) => roles_in(user),
                    None => crate::login::no_roles(),
                },
            ),
            Err(e) => Err("bad verify_identity response: "@ + e),
        }
    }
}

pub open spec fn roles_outcome(r: Result<Roles, String>) -> Result<Roles, Seq<char>> {
    match r {
        Ok(x) => Ok(x),
        Err(e) => Err(e@),
    }
}

/// The module list in an answer, or what went wrong.
pub open spec fn listed_modules(
    success: bool,
    error: Seq<char>,
    blob: Result<Seq<Tree>, Seq<char>>,
) -> Result<Seq<Tree>, Seq<char>> {
    if !success {
        Err(error)
    } else {
        match blob {
            Ok(list) => Ok(list),
            Err(e) => Err("bad module_list: "@ + e),
        }
    }
}

/// The credentials of the first adapter with a name.
pub open spec fn credentials_in(list: Seq<Tree>, adapter: Seq<char>) -> Option<tokens::Entries>
    decreases list.len(),
{
    if list.len() == 0 {
        None
    } else if json::text_field_or_empty(list[0], "name"@) == adapter {
        Some(
            match json::field(list[0], "credential_values"@) {
                Some(Tree::Object(pairs)) => tokens::text_entries(pairs),
                _ => Seq::empty(),
            },
        )
    } else {
        credentials_in(list.drop_first(), adapter)
    }
}

/// What a moderation action is aimed at.
#[derive(Debug)]
pub struct ModTarget {
    pub platform: String,
    pub handle: String,
    pub uuid7: Option<String>,
    pub duration_secs: Option<i64>,
}

/// What the target of a moderation action says.
#[verifier::ext_equal]
pub struct Target {
    pub platform: Seq<char>,
    pub handle: Seq<char>,
    pub uuid7: Option<Seq<char>>,
    pub duration_secs: Option<i64>,
}

impl View for ModTarget {
    type V = Target;

    open spec fn view(&self) -> Target {
        Target {
            platform: self.platform@,
            handle: self.handle@,
            uuid7: match self.uuid7 {
                Some(u) => Some(u@),
                None => None,
            },
            duration_secs: self.duration_secs,
        }
    }
}

/// Target and actor of a moderation action.
pub open spec fn mod_tree(target: Target, actor_platform: Seq<char>, actor_handle: Seq<char>) -> Tree {
    let base = seq![
        ("platform"@, Tree::Text(target.platform)),
        ("handle"@, Tree::Text(target.handle)),
    ];
    let named = match target.uuid7 {
        Some(u) => base.push(("uuid7"@, Tree::Text(u))),
        None => base,
    };
    let timed = match target.duration_secs {
        Some(n) => named.push(("duration_secs"@, Tree::Number(json::number_of(n)))),
        None => named,
    };
    Tree::Object(
        timed.push(
            (
                "actor"@,
                Tree::Object(
                    seq![
                        ("platform"@, Tree::Text(actor_platform)),
                        ("handle"@, Tree::Text(actor_handle)),
                    ],
                ),
            ),
        ),
    )
}

impl EngineHandle {
    pub fn new(auth_token: String, module_name: String, instance_uuid7: String) -> (e: EngineHandle)
        ensures
            e.auth_token == auth_token,
            e.module_name == module_name,
            e.instance_uuid7 == instance_uuid7,
    {
        EngineHandle { auth_token, module_name, instance_uuid7 }
    }

    /// Sign a message to the engine.
    pub fn send_payload(&self, payload: Outgoing) -> (c: Container)
        ensures
            c.version == 1,
            c.auth_token == self.auth_token,
            c.module_name == self.module_name,
            c.module_instance_uuid7 == self.instance_uuid7,
            c.payload == payload,
    {
        Container {
            version: 1,
            auth_token: self.auth_token.clone(),
            module_name: self.module_name.clone(),
            module_instance_uuid7: self.instance_uuid7.clone(),
            payload,
        }
    }

    /// The answer to a liveness probe: our auth token.
    pub fn answer_probe(&self) -> (p: Outgoing)
        ensures
            p == (Outgoing::AuthVerify { cur_auth: self.auth_token }),
    {
        Outgoing::AuthVerify { cur_auth: self.auth_token.clone() }
    }

    /// A database query. Its answer is waited for with a `QueryWait`.
    pub fn db_query(&self, query_id: &str, sql: &str) -> (p: Outgoing)
        ensures
            is_query(p, query_id@, sql@),
    {
        Outgoing::DatabaseQuery {
            query_id: query_id.to_owned(),
            sql: sql.to_owned(),
            params: Vec::new(),
        }
    }

    /// Answer a prompt broadcast by the engine. `reason` carries free-text input.
    pub fn send_prompt_response(&self, prompt_id: &str, accepted: bool, reason: &str) -> (p:
        Outgoing)
        ensures
            p matches Outgoing::PromptResponse { prompt_id_uuid7: i, accepted: a, reason: r }
                && i@ == prompt_id@ && a == accepted && r@ == reason@,
    {
        Outgoing::PromptResponse {
            prompt_id_uuid7: prompt_id.to_owned(),
            accepted,
            reason: reason.to_owned(),
        }
    }

    /// Acknowledge receipt of a pipeline message so the engine can advance the message chain
    /// without waiting for the ack timeout. A message without an id needs none.
    pub fn ack_message(&self, message_uuid7: &str) -> (p: Option<Outgoing>)
        ensures
            p is None <==> message_uuid7@.len() == 0,
            p matches Some(o) ==> (o matches Outgoing::MessageAck { message_uuid7: m } && m@
                == message_uuid7@),
    {
        if message_uuid7.is_empty() {
            None
        } else {
            Some(Outgoing::MessageAck { message_uuid7: message_uuid7.to_owned() })
        }
    }

    /// What asks the engine to log who we are and our platform-verified roles into the user
    /// database (write-through).
    pub fn verify_identity(&self, platform: &str, handle: &str, verified: &Roles) -> (sql: String)
        ensures
            sql@ == json::displayed(json::stored(identity_tree(platform@, handle@, *verified))),
    {
        let mut roles: Vec<(String, Json)> = Vec::new();
        roles.push(("is_sponsor".to_owned(), Json::Bool(verified.is_sponsor)));
        roles.push(("is_moderator".to_owned(), Json::Bool(verified.is_moderator)));
        roles.push(("is_admin".to_owned(), Json::Bool(verified.is_admin)));
        roles.push(("is_owner".to_owned(), Json::Bool(verified.is_owner)));
        let inner = Json::Object(roles);
        proof {
            json::lemma_view(inner);
            let t = seq![
                ("is_sponsor"@, Tree::Bool(verified.is_sponsor)),
                ("is_moderator"@, Tree::Bool(verified.is_moderator)),
                ("is_admin"@, Tree::Bool(verified.is_admin)),
                ("is_owner"@, Tree::Bool(verified.is_owner)),
            ];
            assert(inner@->Object_0 =~= t);
        }
        let mut pairs: Vec<(String, Json)> = Vec::new();
        pairs.push(("platform".to_owned(), json::text_value(platform)));
        pairs.push(("handle".to_owned(), json::text_value(handle)));
        pairs.push(("verified_roles".to_owned(), inner));
        let payload = Json::Object(pairs);
        proof {
            json::lemma_view(payload);
            assert(payload@->Object_0 =~= identity_tree(platform@, handle@, *verified)->Object_0);
        }
        json::to_text(payload)
    }

    /// The effective roles that the engine answers with.
    pub fn verified_roles(resp: &QueryResult) -> (r: Result<Roles, String>)
        ensures
            roles_outcome(r) == effective_roles(
                resp.success,
                resp.error@,
                json::parsed(resp.result_blob@),
            ),
    {
        if !resp.success {
            return Err(resp.error.clone());
        }
        Self::read_roles(json::parse(resp.result_blob.as_slice()))
    }

    /// The effective roles in a document that was read.
    pub fn read_roles(doc: Result<Json, String>) -> (r: Result<Roles, String>)
        ensures
            roles_outcome(r) == effective_roles(true, Seq::empty(), json::outcome(doc)),
    {
        match doc {
            Ok(j) => match j.get("user") {
                Some(user) => Ok(
                    Roles {
                        is_sponsor: user.flag_at("is_sponsor"),
                        is_moderator: user.flag_at("is_moderator"),
                        is_admin: user.flag_at("is_admin"),
                        is_owner: user.flag_at("is_owner"),
                    },
                ),
                None => Ok(Roles::default()),
            },
            Err(e) => {
                let mut why = "bad verify_identity response: ".to_owned();
                why.append(e.as_str());
                Err(why)
            },
        }
    }

    /// A chat message for a platform through the engine, in the name of an actor if there is one.
    pub fn send_message(&self, platform: &str, msg: &str, actor: Option<(&str, &str)>) -> (p:
        Outgoing)
        ensures
            p matches Outgoing::SendToPlatforms {
                msg: m,
                level,
                module_uuid7,
                pid,
                platform: pl,
                actor_platform: ap,
                actor_handle: ah,
                actor_uuid7,
            } && m@ == msg@ && level == SendLevel::All && module_uuid7@.len() == 0 && pid@.len() == 0
                && actor_uuid7@.len() == 0 && pl@ == platform@ && (match actor {
                Some((a, h)) => ap@ == a@ && ah@ == h@,
                None => ap@.len() == 0 && ah@.len() == 0,
            }),
    {
        let (actor_platform, actor_handle) = match actor {
            Some((a, h)) => (a.to_owned(), h.to_owned()),
            None => (String::new(), String::new()),
        };
        Outgoing::SendToPlatforms {
            msg: msg.to_owned(),
            level: SendLevel::All,
            module_uuid7: String::new(),
            pid: String::new(),
            platform: platform.to_owned(),
            actor_platform,
            actor_handle,
            actor_uuid7: String::new(),
        }
    }

    /// What asks for a moderation action (`mod_ban`, `mod_timeout`, `mod_commend`,
    /// `mod_reprimand`): the target plus the actor's identity.
    pub fn mod_action(&self, target: ModTarget, actor: &LoginState) -> (sql: String)
        ensures
            sql@ == json::displayed(
                json::stored(mod_tree(target@, actor.platform@, actor.handle@)),
            ),
    {
        let ghost goal = mod_tree(target@, actor.platform@, actor.handle@);
        let mut who: Vec<(String, Json)> = Vec::new();
        who.push(("platform".to_owned(), json::text_value(actor.platform.as_str())));
        who.push(("handle".to_owned(), json::text_value(actor.handle.as_str())));
        let who = Json::Object(who);
        proof {
            json::lemma_view(who);
            let t = seq![
                ("platform"@, Tree::Text(actor.platform@)),
                ("handle"@, Tree::Text(actor.handle@)),
            ];
            assert(who@->Object_0 =~= t);
        }
        let mut pairs: Vec<(String, Json)> = Vec::new();
        pairs.push(("platform".to_owned(), Json::Text(target.platform)));
        pairs.push(("handle".to_owned(), Json::Text(target.handle)));
        match target.uuid7 {
            Some(u) => {
                pairs.push(("uuid7".to_owned(), Json::Text(u)));
            },
            None => {},
        }
        match target.duration_secs {
            Some(n) => {
                pairs.push(("duration_secs".to_owned(), json::int_value(n)));
            },
            None => {},
        }
        pairs.push(("actor".to_owned(), who));
        let payload = Json::Object(pairs);
        proof {
            json::lemma_view(payload);
            assert(payload@->Object_0 =~= goal->Object_0);
        }
        json::to_text(payload)
    }

    /// The module list that the engine answers with (open to any module), to read adapter
    /// credential values (client ids/secrets for OAuth flows).
    pub fn module_list(resp: &QueryResult) -> (r: Result<Vec<Json>, String>)
        ensures
            json::list_outcome(r) == listed_modules(
                resp.success,
                resp.error@,
                json::parsed_list(resp.result_blob@),
            ),
    {
        if !resp.success {
            return Err(resp.error.clone());
        }
        Self::read_modules(json::parse_list(resp.result_blob.as_slice()))
    }

    /// The module list in documents that were read.
    pub fn read_modules(list: Result<Vec<Json>, String>) -> (r: Result<Vec<Json>, String>)
        ensures
            json::list_outcome(r) == listed_modules(true, Seq::empty(), json::list_outcome(list)),
    {
        match list {
            Ok(list) => Ok(list),
            Err(e) => Err(text::concat("bad module_list: ", e.as_str())),
        }
    }

    /// Read one adapter's credential_values from the module list.
    pub fn adapter_credentials(list: &Vec<Json>, adapter_name: &str) -> (r: Result<TokenMap, String>)
        ensures
            match credentials_in(json::trees(list@), adapter_name@) {
                Some(m) => r matches Ok(c) && c@ == m,
                None => r matches Err(e) && e@ == "adapter '"@ + adapter_name@
                    + "' not found in module list"@,
            },
    {
        let ghost all = json::trees(list@);
        let mut i: usize = 0;
        assert(all.skip(0) == all);
        while i < list.len()
            invariant
                i <= list@.len(),
                all == json::trees(list@),
                credentials_in(all, adapter_name@) == credentials_in(
                    all.skip(i as int),
                    adapter_name@,
                ),
            decreases list@.len() - i,
        {
            assert(all.skip(i as int)[0] == list@[i as int]@);
            let name = list[i].text_or_empty("name");
            if text::same(name.as_str(), adapter_name) {
                return Ok(
                    match list[i].get("credential_values") {
                        Some(vals) => tokens::texts_in(vals),
                        None => TokenMap::new(),
                    },
                );
            }
            assert(all.skip(i as int).drop_first() == all.skip(i + 1));
            i += 1;
        }
        let mut why = "adapter '".to_owned();
        why.append(adapter_name);
        why.append("' not found in module list");
        Err(why)
    }
}

// ── Waiting for an answer ─────────────────────────────────────────────

/// The wait for the answer to a query.
pub struct QueryWait {
    pub query_id: String,
    pub deadline: Instant,
}

/// What the operator is told when the connection ended during a wait.
pub const CHANNEL_CLOSED: &'static str = "query response channel closed";

impl QueryWait {
    /// Wait for the answer to a query for ten seconds from `now`.
    pub fn new(query_id: &str, now: Instant) -> (w: QueryWait)
        requires
            now.nanos + 10 * NANOS_PER_SEC <= u128::MAX,
        ensures
            w.query_id@ == query_id@,
            w.deadline.nanos == now.nanos + 10 * NANOS_PER_SEC,
    {
        QueryWait {
            query_id: query_id.to_owned(),
            deadline: Instant { nanos: now.nanos + 10 * NANOS_PER_SEC },
        }
    }

    /// What the operator is told when no answer came.
    pub open spec fn timeout_text(self) -> Seq<char> {
        "timed out waiting for query response '"@ + self.query_id@ + "'"@
    }

    pub fn timed_out(&self) -> (r: String)
        ensures
            r@ == self.timeout_text(),
    {
        let mut r = "timed out waiting for query response '".to_owned();
        r.append(self.query_id.as_str());
        r.append("'");
        r
    }

    /// How long to wait on, or the end of the wait.
    pub fn remaining(&self, now: Instant) -> (r: Result<Duration, String>)
        ensures
            match r {
                Ok(d) => d.nanos > 0 && now.nanos + d.nanos == self.deadline.nanos,
                Err(e) => now.nanos >= self.deadline.nanos && e@ == self.timeout_text(),
            },
    {
        let left = self.deadline.saturating_duration_since(now);
        if left.nanos == 0 {
            Err(self.timed_out())
        } else {
            Ok(left)
        }
    }

    /// Whether an answer is the awaited one.
    pub fn is_answer(&self, res: &QueryResult) -> (r: bool)
        ensures
            r == (res.query_id@ == self.query_id@),
    {
        text::same(res.query_id.as_str(), self.query_id.as_str())
    }
}

/// A wait is never longer than what is left of its time, and once it is over it stays over.
pub proof fn waits_end(deadline: Instant, now: Instant, later: Instant)
    requires
        now.nanos <= later.nanos,
    ensures
        deadline.since(later) <= deadline.since(now),
        deadline.since(now) == 0 ==> deadline.since(later) == 0,
{
}

// ── Laws of what is said and read ─────────────────────────────────────

proof fn lemma_role_names()
    ensures
        "is_sponsor"@ != "is_moderator"@,
        "is_sponsor"@ != "is_admin"@,
        "is_sponsor"@ != "is_owner"@,
        "is_moderator"@ != "is_admin"@,
        "is_moderator"@ != "is_owner"@,
        "is_admin"@ != "is_owner"@,
        "platform"@ != "handle"@,
        "platform"@ != "verified_roles"@,
        "handle"@ != "verified_roles"@,
        "platform"@ != "uuid7"@,
        "platform"@ != "duration_secs"@,
        "platform"@ != "actor"@,
        "handle"@ != "uuid7"@,
        "handle"@ != "duration_secs"@,
        "handle"@ != "actor"@,
        "uuid7"@ != "duration_secs"@,
        "uuid7"@ != "actor"@,
        "duration_secs"@ != "actor"@,
{
    reveal_strlit("is_sponsor");
    reveal_strlit("is_moderator");
    reveal_strlit("is_admin");
    reveal_strlit("is_owner");
    reveal_strlit("platform");
    reveal_strlit("handle");
    reveal_strlit("verified_roles");
    reveal_strlit("uuid7");
    reveal_strlit("duration_secs");
    reveal_strlit("actor");
    assert("is_sponsor"@.len() == 10 && "is_moderator"@.len() == 12 && "is_admin"@.len() == 8
        && "is_owner"@.len() == 8);
    assert("platform"@.len() == 8 && "handle"@.len() == 6 && "verified_roles"@.len() == 14);
    assert("uuid7"@.len() == 5 && "duration_secs"@.len() == 13 && "actor"@.len() == 5);
    assert("is_admin"@[3] == 'a' && "is_owner"@[3] == 'o');
    assert("uuid7"@[0] == 'u' && "actor"@[0] == 'a');
}

/// Each effective role is the truth value under its own name in the user record: the operator is a
/// moderator exactly where the record says `is_moderator`, and so on. Without a record there are no
/// roles, and a query that failed gives its error.
pub proof fn roles_are_read_by_name(doc: Tree, error: Seq<char>, blob: Result<Tree, Seq<char>>)
    ensures
        effective_roles(false, error, blob) == Err::<Roles, Seq<char>>(error),
        json::field(doc, "user"@) is None ==> (effective_roles(true, error, Ok(doc)) matches Ok(r)
            && !r.is_sponsor && !r.is_moderator && !r.is_admin && !r.is_owner),
        json::field(doc, "user"@) matches Some(user) ==> (effective_roles(
            true,
            error,
            Ok(doc),
        ) matches Ok(r) && {
            &&& r.is_sponsor <==> json::field(user, "is_sponsor"@) == Some(Tree::Bool(true))
            &&& r.is_moderator <==> json::field(user, "is_moderator"@) == Some(Tree::Bool(true))
            &&& r.is_admin <==> json::field(user, "is_admin"@) == Some(Tree::Bool(true))
            &&& r.is_owner <==> json::field(user, "is_owner"@) == Some(Tree::Bool(true))
        }),
{
}

/// What the engine is asked to write down says who the operator is and which roles were verified,
/// each under its own name.
pub proof fn identities_are_written_by_name(platform: Seq<char>, handle: Seq<char>, roles: Roles)
    ensures
        ({
            let t = identity_tree(platform, handle, roles);
            &&& json::field(t, "platform"@) == Some(Tree::Text(platform))
            &&& json::field(t, "handle"@) == Some(Tree::Text(handle))
            &&& json::field(t, "verified_roles"@) matches Some(said) && {
                &&& json::field(said, "is_sponsor"@) == Some(Tree::Bool(roles.is_sponsor))
                &&& json::field(said, "is_moderator"@) == Some(Tree::Bool(roles.is_moderator))
                &&& json::field(said, "is_admin"@) == Some(Tree::Bool(roles.is_admin))
                &&& json::field(said, "is_owner"@) == Some(Tree::Bool(roles.is_owner))
            }
        }),
{
    lemma_role_names();
    let pairs = identity_tree(platform, handle, roles)->Object_0;
    json::fields_are_found(pairs, 0, "platform"@);
    json::fields_are_found(pairs, 1, "handle"@);
    json::fields_are_found(pairs, 2, "verified_roles"@);
    let said = pairs[2].1->Object_0;
    json::fields_are_found(said, 0, "is_sponsor"@);
    json::fields_are_found(said, 1, "is_moderator"@);
    json::fields_are_found(said, 2, "is_admin"@);
    json::fields_are_found(said, 3, "is_owner"@);
}

/// Roles that an identity writes down read back as they were: an engine that answers with the very
/// roles it was told makes these the effective ones.
pub proof fn written_roles_are_read_back(
    platform: Seq<char>,
    handle: Seq<char>,
    roles: Roles,
    error: Seq<char>,
    doc: Tree,
)
    requires
        json::field(doc, "user"@) == json::field(
            identity_tree(platform, handle, roles),
            "verified_roles"@,
        ),
    ensures
        effective_roles(true, error, Ok(doc)) == Ok::<Roles, Seq<char>>(roles),
{
    identities_are_written_by_name(platform, handle, roles);
    roles_are_read_by_name(doc, error, Ok(doc));
}

/// A moderation request says at whom it is aimed, for how long if that was said, and who asks for
/// it, each under its own name; the operator is never mistaken for the target.
pub proof fn moderation_requests_name_both_sides(
    target: Target,
    actor_platform: Seq<char>,
    actor_handle: Seq<char>,
)
    ensures
        ({
            let t = mod_tree(target, actor_platform, actor_handle);
            &&& json::field(t, "platform"@) == Some(Tree::Text(target.platform))
            &&& json::field(t, "handle"@) == Some(Tree::Text(target.handle))
            &&& json::field(t, "uuid7"@) == (match target.uuid7 {
                Some(u) => Some(Tree::Text(u)),
                None => None,
            })
            &&& json::field(t, "duration_secs"@) == (match target.duration_secs {
                Some(n) => Some(Tree::Number(json::number_of(n))),
                None => None,
            })
            &&& json::field(t, "actor"@) matches Some(actor) && {
                &&& json::field(actor, "platform"@) == Some(Tree::Text(actor_platform))
                &&& json::field(actor, "handle"@) == Some(Tree::Text(actor_handle))
            }
        }),
{
    lemma_role_names();
    let pairs = mod_tree(target, actor_platform, actor_handle)->Object_0;
    let n = pairs.len() - 1;
    json::fields_are_found(pairs, 0, "uuid7"@);
    json::fields_are_found(pairs, 1, "duration_secs"@);
    json::fields_are_found(pairs, 2, "uuid7"@);
    json::fields_are_found(pairs, 3, "uuid7"@);
    json::fields_are_found(pairs, n, "uuid7"@);
    assert(pairs[n].0 == "actor"@);
    let who = pairs[n].1->Object_0;
    json::fields_are_found(who, 0, "platform"@);
    json::fields_are_found(who, 1, "handle"@);
}

/// Whether no key of an object stands twice.
pub open spec fn keys_differ(pairs: Seq<(Seq<char>, Tree)>) -> bool {
    forall|a: int, b: int|
        0 <= a < b < pairs.len() ==> (#[trigger] pairs[a]).0 != (#[trigger] pairs[b]).0
}

/// The credentials of an adapter are those of the first module of that name: every text among its
/// `credential_values`, under its key. Where no module has the name, there are none.
pub proof fn credentials_belong_to_the_named_adapter(
    list: Seq<Tree>,
    adapter: Seq<char>,
    i: int,
    pairs: Seq<(Seq<char>, Tree)>,
    key: Seq<char>,
)
    requires
        0 <= i <= list.len(),
        forall|j: int|
            0 <= j < i ==> json::text_field_or_empty(#[trigger] list[j], "name"@) != adapter,
        keys_differ(pairs),
    ensures
        i == list.len() ==> credentials_in(list, adapter) is None,
        i < list.len() && json::text_field(list[i], "name"@) == Some(adapter) ==> credentials_in(
            list,
            adapter,
        ) is Some,
        i < list.len() && json::text_field(list[i], "name"@) == Some(adapter) && json::field(
            list[i],
            "credential_values"@,
        ) == Some(Tree::Object(pairs)) ==> tokens::lookup(credentials_in(list, adapter)->0, key)
            == (match json::field(Tree::Object(pairs), key) {
            Some(Tree::Text(s)) => Some(s),
            _ => None,
        }),
    decreases list.len(),
{
    if i > 0 {
        let rest = list.drop_first();
        assert(json::text_field_or_empty(list[0], "name"@) != adapter);
        assert forall|j: int| 0 <= j < i - 1 implies json::text_field_or_empty(
            #[trigger] rest[j],
            "name"@,
        ) != adapter by {
            assert(rest[j] == list[j + 1]);
        }
        credentials_belong_to_the_named_adapter(rest, adapter, i - 1, pairs, key);
        if i < list.len() {
            assert(rest[i - 1] == list[i]);
        }
    } else if list.len() > 0 {
        tokens::texts_keep_their_keys(pairs, key);
    }
}

/// A query carries its name and its text, each in its place, and nothing besides.
pub proof fn queries_carry_name_and_text(p: Outgoing, name: Seq<char>, sql: Seq<char>)
    requires
        is_query(p, name, sql),
    ensures
        p matches Outgoing::DatabaseQuery { query_id, sql: said, params } && query_id@ == name
            && said@ == sql && params@ == Seq::<String>::empty(),
{
    if let Outgoing::DatabaseQuery { query_id, sql: said, params } = p {
        assert(params@ =~= Seq::<String>::empty());
    }
}

/// Whatever the engine could not do is told with its own words: the error of a failed query, and
/// what is wrong with an answer that cannot be read. A list that it could hand out is handed on.
pub proof fn engine_errors_are_told(
    error: Seq<char>,
    list: Seq<Tree>,
    e: Seq<char>,
    blob: Result<Seq<Tree>, Seq<char>>,
)
    ensures
        listed_modules(false, error, blob) == Err::<Seq<Tree>, Seq<char>>(error),
        listed_modules(true, error, Ok(list)) == Ok::<Seq<Tree>, Seq<char>>(list),
        listed_modules(true, error, Err(e)) matches Err(why) && text::has_sub(why, e),
        effective_roles(true, error, Err(e)) matches Err(why) && text::has_sub(why, e),
{
    let none = Seq::<char>::empty();
    assert("bad module_list: "@ + e =~= "bad module_list: "@ + e + none);
    text::middle_is_found("bad module_list: "@, e, none);
    assert("bad verify_identity response: "@ + e =~= "bad verify_identity response: "@ + e + none);
    text::middle_is_found("bad verify_identity response: "@, e, none);
}

/// A wait that is over names the query that it was for.
pub proof fn timeouts_name_the_query(w: QueryWait)
    ensures
        text::has_sub(w.timeout_text(), w.query_id@),
{
    text::middle_is_found("timed out waiting for query response '"@, w.query_id@, "'"@);
}

} // verus!
