//! A fluent builder for agent configurations, which checks what it is given.

use crate::agent::config::{
    is_valid_cedar_ident, valid_cedar_ident, CedarAgentConfig, ConsentScope, McpToolDefinition,
    PrincipalConfig, ResourceConfig, Restriction, TimeWindow, AllowedValue,
};
use crate::agent::policy::{sanitize_counter_key, spec_consent_roles, spec_sanitize};
use crate::strmap::{
    has_key, insert_into, keys_of, lemma_lower_bound, lemma_map_vals_insert, lower_bound, map_insert,
    map_vals, opt_entries, sorted_keys, StrMap,
};
use crate::text::{strings_of, strs_of, text_eq, to_strings, u64_to_decimal, decimal};
use vstd::prelude::*;
use vstd::string::StringExecFns;

verus! {

/// What the builder refuses.
#[derive(Clone, Debug, PartialEq, Eq)]
pub enum BuilderError {
    /// The time window has `hour_start >= hour_end`.
    InvalidTimeWindow { start: u8, end: u8 },
    /// The `hour_end` value exceeds 24.
    HourOutOfRange(u8),
    /// The given string is not a valid Cedar identifier.
    InvalidIdentifier(String),
    /// Two tool names give the same rate-limit counter key.
    RateLimitCounterCollision { new_tool: String, existing_tool: String, key: String },
}

/// The message of a builder error.
pub open spec fn builder_error_message(e: BuilderError) -> Seq<char> {
    match e {
        BuilderError::InvalidTimeWindow { start, end } => "time_window requires hour_start ("@
            + decimal(start as nat) + ") < hour_end ("@ + decimal(end as nat) + ")"@,
        BuilderError::HourOutOfRange(h) => "hour_end ("@ + decimal(h as nat) + ") must be <= 24"@,
        BuilderError::InvalidIdentifier(s) => "\""@ + s@ + "\" is not a valid Cedar identifier"@,
        BuilderError::RateLimitCounterCollision { new_tool, existing_tool, key } =>
            "rate-limit counter key collision: \""@ + new_tool@ + "\" and \""@ + existing_tool@
            + "\" both map to counter key \""@ + key@ + "\""@,
    }
}

impl BuilderError {
    /// The message of the error.
    pub fn to_string(&self) -> (r: String)
        ensures
            r@ == builder_error_message(*self),
    {
        match self {
            BuilderError::InvalidTimeWindow { start, end } => {
                let mut s = "time_window requires hour_start (".to_string();
                s.append(u64_to_decimal(*start as u64).as_str());
                s.append(") < hour_end (");
                s.append(u64_to_decimal(*end as u64).as_str());
                s.append(")");
                s
            },
            BuilderError::HourOutOfRange(h) => {
                let mut s = "hour_end (".to_string();
                s.append(u64_to_decimal(*h as u64).as_str());
                s.append(") must be <= 24");
                s
            },
            BuilderError::InvalidIdentifier(id) => {
                let mut s = "\"".to_string();
                s.append(id.as_str());
                s.append("\" is not a valid Cedar identifier");
                s
            },
            BuilderError::RateLimitCounterCollision { new_tool, existing_tool, key } => {
                let mut s = "rate-limit counter key collision: \"".to_string();
                s.append(new_tool.as_str());
                s.append("\" and \"");
                s.append(existing_tool.as_str());
                s.append("\" both map to counter key \"");
                s.append(key.as_str());
                s.append("\"");
                s
            },
        }
    }
}

/// Refuses a string that is not a valid Cedar identifier.
fn validate_cedar_ident(s: &str) -> (r: Result<(), BuilderError>)
    ensures
        match r {
            Ok(()) => valid_cedar_ident(s@),
            Err(e) => {
                &&& !valid_cedar_ident(s@)
                &&& e matches BuilderError::InvalidIdentifier(t)
                &&& t@ == s@
            },
        },
{
    if is_valid_cedar_ident(s) {
        Ok(())
    } else {
        Err(BuilderError::InvalidIdentifier(s.to_string()))
    }
}

/// The texts of a list of strings, as a function.
pub open spec fn vec_texts() -> spec_fn(Vec<String>) -> Seq<Seq<char>> {
    |v: Vec<String>| strings_of(v@)
}

/// The roles of consent scopes, as a function.
pub open spec fn scope_roles() -> spec_fn(ConsentScope) -> Seq<Seq<char>> {
    |s: ConsentScope| spec_consent_roles(s)
}

/// The entries of a map of string lists, values taken as texts.
pub open spec fn texts_map(s: Seq<(Seq<char>, Vec<String>)>) -> Seq<(Seq<char>, Seq<Seq<char>>)> {
    map_vals(s, vec_texts())
}

/// The first key among `keys`, other than `tool` and `*`, that has the
/// counter key of `tool`.
pub open spec fn first_collision(keys: Seq<Seq<char>>, tool: Seq<char>) -> Option<Seq<char>>
    decreases keys.len(),
{
    if keys.len() == 0 {
        None
    } else if keys[0] != tool && keys[0] != "*"@ && spec_sanitize(keys[0]) == spec_sanitize(tool) {
        Some(keys[0])
    } else {
        first_collision(keys.drop_first(), tool)
    }
}

/// No two tools of a rate-limit map, `*` aside, share a counter key.
pub open spec fn counter_keys_distinct(s: Seq<(Seq<char>, u64)>) -> bool {
    forall|i: int, j: int|
        0 <= i < s.len() && 0 <= j < s.len() && i != j && s[i].0 != "*"@ && s[j].0 != "*"@
            ==> spec_sanitize(#[trigger] s[i].0) != spec_sanitize(#[trigger] s[j].0)
}

/// A builder of agent configurations.
#[derive(Clone, Debug)]
pub struct CedarAgentPolicyBuilder {
    config: CedarAgentConfig,
}

impl Default for CedarAgentPolicyBuilder {
    fn default() -> (r: Self)
        ensures
            crate::agent::config::is_default_config(r.spec_config()),
    {
        Self::new()
    }
}

impl CedarAgentPolicyBuilder {
    /// The configuration built so far.
    pub closed spec fn spec_config(&self) -> CedarAgentConfig {
        self.config
    }

    /// A builder of the default configuration (namespace `Agent`, principal
    /// type `User`).
    pub fn new() -> (r: Self)
        ensures
            crate::agent::config::is_default_config(r.spec_config()),
    {
        CedarAgentPolicyBuilder { config: CedarAgentConfig::default() }
    }

    /// The configuration built so far.
    pub fn config(&self) -> (r: &CedarAgentConfig)
        ensures
            *r == self.spec_config(),
    {
        &self.config
    }

    /// Sets the Cedar namespace of all entity types and actions; refuses
    /// one that is not a valid Cedar identifier.
    pub fn namespace(self, ns: &str) -> (r: Result<Self, BuilderError>)
        ensures
            match r {
                Ok(b) => {
                    &&& valid_cedar_ident(ns@)
                    &&& b.spec_config().namespace@ == ns@
                    &&& (CedarAgentConfig {
                        namespace: b.spec_config().namespace,
                        ..self.spec_config()
                    }) == b.spec_config()
                },
                Err(e) => {
                    &&& !valid_cedar_ident(ns@)
                    &&& e matches BuilderError::InvalidIdentifier(t)
                    &&& t@ == ns@
                },
            },
    {
        let ghost old_config = self.spec_config();
        let mut config = self.config;
        match validate_cedar_ident(ns) {
            Ok(()) => {},
            Err(e) => {
                return Err(e);
            },
        }
        config.namespace = ns.to_string();
        Ok(CedarAgentPolicyBuilder { config })
    }

    /// Sets the principal entity type, and the context key that holds the
    /// principal's id; refuses a type that is not a valid Cedar identifier.
    pub fn principal(self, key: &str, principal_type: &str) -> (r: Result<Self, BuilderError>)
        ensures
            match r {
                Ok(b) => {
                    &&& valid_cedar_ident(principal_type@)
                    &&& b.spec_config().principal.key@ == key@
                    &&& b.spec_config().principal.principal_type@ == principal_type@
                    &&& (CedarAgentConfig {
                        principal: b.spec_config().principal,
                        ..self.spec_config()
                    }) == b.spec_config()
                },
                Err(e) => {
                    &&& !valid_cedar_ident(principal_type@)
                    &&& e matches BuilderError::InvalidIdentifier(t)
                    &&& t@ == principal_type@
                },
            },
    {
        let ghost old_config = self.spec_config();
        let mut config = self.config;
        match validate_cedar_ident(principal_type) {
            Ok(()) => {},
            Err(e) => {
                return Err(e);
            },
        }
        config.principal =
            PrincipalConfig { key: key.to_string(), principal_type: principal_type.to_string() };
        Ok(CedarAgentPolicyBuilder { config })
    }

    /// Sets the resource entity type and id; refuses a type that is not a
    /// valid Cedar identifier.
    pub fn resource(self, resource_type: &str, id: &str) -> (r: Result<Self, BuilderError>)
        ensures
            match r {
                Ok(b) => {
                    &&& valid_cedar_ident(resource_type@)
                    &&& b.spec_config().resource matches Some(rc)
                    &&& rc.resource_type@ == resource_type@
                    &&& rc.id@ == id@
                    &&& (CedarAgentConfig {
                        resource: b.spec_config().resource,
                        ..self.spec_config()
                    }) == b.spec_config()
                },
                Err(e) => {
                    &&& !valid_cedar_ident(resource_type@)
                    &&& e matches BuilderError::InvalidIdentifier(t)
                    &&& t@ == resource_type@
                },
            },
    {
        let ghost old_config = self.spec_config();
        let mut config = self.config;
        match validate_cedar_ident(resource_type) {
            Ok(()) => {},
            Err(e) => {
                return Err(e);
            },
        }
        config.resource = Some(
            ResourceConfig { resource_type: resource_type.to_string(), id: id.to_string() },
        );
        Ok(CedarAgentPolicyBuilder { config })
    }

    /// Defines (or redefines) the role `name` with access to `tools` (`*`:
    /// all actions).
    pub fn role(self, name: &str, tools: &[&str]) -> (r: Self)
        ensures
            r.spec_config().roles matches Some(m) && texts_map(m@) == map_insert(
                texts_map(opt_entries(self.spec_config().roles)),
                name@,
                strs_of(tools@),
            ),
            (CedarAgentConfig { roles: r.spec_config().roles, ..self.spec_config() })
                == r.spec_config(),
    {
        let ghost old_config = self.spec_config();
        let mut config = self.config;
        let v = to_strings(tools);
        let m = insert_into(config.roles.take(), name.to_string(), v);
        proof {
            lemma_map_vals_insert(
                opt_entries(old_config.roles),
                vec_texts(),
                name@,
                v,
            );
        }
        config.roles = Some(m);
        CedarAgentPolicyBuilder { config }
    }

    /// Adds (or redefines) the user `id`, a member of `roles`.
    pub fn user(self, id: &str, roles: &[&str]) -> (r: Self)
        ensures
            r.spec_config().users matches Some(m) && texts_map(m@) == map_insert(
                texts_map(opt_entries(self.spec_config().users)),
                id@,
                strs_of(roles@),
            ),
            (CedarAgentConfig { users: r.spec_config().users, ..self.spec_config() })
                == r.spec_config(),
    {
        let ghost old_config = self.spec_config();
        let mut config = self.config;
        let v = to_strings(roles);
        let m = insert_into(config.users.take(), id.to_string(), v);
        proof {
            lemma_map_vals_insert(opt_entries(old_config.users), vec_texts(), id@, v);
        }
        config.users = Some(m);
        CedarAgentPolicyBuilder { config }
    }

    /// Restricts the input fields of `tool` to the values allowed for each.
    pub fn restrict(self, tool: &str, allowed_values: StrMap<Vec<AllowedValue>>) -> (r: Self)
        ensures
            r.spec_config().restrictions matches Some(m) && m@ == map_insert(
                opt_entries(self.spec_config().restrictions),
                tool@,
                Restriction { allowed_values },
            ),
            (CedarAgentConfig { restrictions: r.spec_config().restrictions, ..self.spec_config() })
                == r.spec_config(),
    {
        let ghost old_config = self.spec_config();
        let mut config = self.config;
        let m = insert_into(
            config.restrictions.take(),
            tool.to_string(),
            Restriction { allowed_values },
        );
        config.restrictions = Some(m);
        CedarAgentPolicyBuilder { config }
    }

    /// Limits the calls of `tool` (or, for `*`, of all tools) to `max`. The
    /// counter is `context.session.call_count_<key>`, where the key is the
    /// tool name with each character that is not an ASCII letter or digit
    /// replaced by `_`; refuses a tool whose key is that of another tool
    /// already limited.
    pub fn rate_limit(self, tool: &str, max: u64) -> (r: Result<Self, BuilderError>)
        ensures
            ({
                let old_rl = opt_entries(self.spec_config().rate_limits);
                match r {
                    Ok(b) => {
                        &&& (tool@ == "*"@ || first_collision(keys_of(old_rl), tool@) is None)
                        &&& b.spec_config().rate_limits matches Some(m)
                        &&& m@ == map_insert(old_rl, tool@, max)
                        &&& (CedarAgentConfig {
                            rate_limits: b.spec_config().rate_limits,
                            ..self.spec_config()
                        }) == b.spec_config()
                    },
                    Err(e) => {
                        &&& tool@ != "*"@
                        &&& first_collision(keys_of(old_rl), tool@) matches Some(x)
                        &&& e matches BuilderError::RateLimitCounterCollision {
                            new_tool,
                            existing_tool,
                            key,
                        }
                        &&& new_tool@ == tool@
                        &&& existing_tool@ == x
                        &&& key@ == "call_count_"@ + spec_sanitize(tool@)
                    },
                }
            }),
    {
        let ghost old_config = self.spec_config();
        let mut config = self.config;
        let ghost old_rl = opt_entries(old_config.rate_limits);
        if text_eq(tool, "*") {
            let m = insert_into(config.rate_limits.take(), tool.to_string(), max);
            config.rate_limits = Some(m);
            return Ok(CedarAgentPolicyBuilder { config });
        }
        let key = sanitize_counter_key(tool);
        let map = match config.rate_limits.take() {
            Some(m) => m,
            None => StrMap::new(),
        };
        let ghost keys = keys_of(old_rl);
        assert(keys.skip(0) =~= keys);
        let mut i: usize = 0;
        while i < map.len()
            invariant
                0 <= i <= map@.len(),
                map@ == old_rl,
                old_rl == opt_entries(self.spec_config().rate_limits),
                keys == keys_of(old_rl),
                key@ == spec_sanitize(tool@),
                tool@ != "*"@,
                first_collision(keys, tool@) == first_collision(keys.skip(i as int), tool@),
            decreases map@.len() - i,
        {
            let (existing_tool, _) = map.entry(i);
            proof {
                assert(keys.skip(i as int)[0] == existing_tool@);
                assert(keys.skip(i as int).drop_first() =~= keys.skip(i + 1));
            }
            if !text_eq(existing_tool.as_str(), tool) && !text_eq(existing_tool.as_str(), "*") {
                if sanitize_counter_key(existing_tool.as_str()) == key {
                    let mut k = "call_count_".to_string();
                    k.append(key.as_str());
                    return Err(
                        BuilderError::RateLimitCounterCollision {
                            new_tool: tool.to_string(),
                            existing_tool: existing_tool.clone(),
                            key: k,
                        },
                    );
                }
            }
            i = i + 1;
        }
        assert(keys.skip(i as int) =~= Seq::<Seq<char>>::empty());
        let m = insert_into(Some(map), tool.to_string(), max);
        config.rate_limits = Some(m);
        Ok(CedarAgentPolicyBuilder { config })
    }

    /// Allows `tool` (or, for `*`, every action) only in the UTC hours
    /// `[hours.0, hours.1)`; refuses a window with `hours.0 >= hours.1`, then
    /// one that ends after 24.
    pub fn time_window(self, tool: &str, hours: (u8, u8)) -> (r: Result<Self, BuilderError>)
        ensures
            match r {
                Ok(b) => {
                    &&& hours.0 < hours.1 <= 24
                    &&& b.spec_config().time_windows matches Some(m)
                    &&& m@ == map_insert(
                        opt_entries(self.spec_config().time_windows),
                        tool@,
                        TimeWindow { hour_start: hours.0, hour_end: hours.1 },
                    )
                    &&& (CedarAgentConfig {
                        time_windows: b.spec_config().time_windows,
                        ..self.spec_config()
                    }) == b.spec_config()
                },
                Err(e) => if hours.0 >= hours.1 {
                    e == BuilderError::InvalidTimeWindow { start: hours.0, end: hours.1 }
                } else {
                    hours.1 > 24 && e == BuilderError::HourOutOfRange(hours.1)
                },
            },
    {
        let ghost old_config = self.spec_config();
        let mut config = self.config;
        if hours.0 >= hours.1 {
            return Err(BuilderError::InvalidTimeWindow { start: hours.0, end: hours.1 });
        }
        if hours.1 > 24 {
            return Err(BuilderError::HourOutOfRange(hours.1));
        }
        let m = insert_into(
            config.time_windows.take(),
            tool.to_string(),
            TimeWindow { hour_start: hours.0, hour_end: hours.1 },
        );
        config.time_windows = Some(m);
        Ok(CedarAgentPolicyBuilder { config })
    }

    /// Denies `tools` (or, with `*`, every action) in the environment `env`.
    pub fn deny_in_env(self, env: &str, tools: &[&str]) -> (r: Self)
        ensures
            r.spec_config().deny_in_env matches Some(m) && texts_map(m@) == map_insert(
                texts_map(opt_entries(self.spec_config().deny_in_env)),
                env@,
                strs_of(tools@),
            ),
            (CedarAgentConfig { deny_in_env: r.spec_config().deny_in_env, ..self.spec_config() })
                == r.spec_config(),
    {
        let ghost old_config = self.spec_config();
        let mut config = self.config;
        let v = to_strings(tools);
        let m = insert_into(config.deny_in_env.take(), env.to_string(), v);
        proof {
            lemma_map_vals_insert(opt_entries(old_config.deny_in_env), vec_texts(), env@, v);
        }
        config.deny_in_env = Some(m);
        CedarAgentPolicyBuilder { config }
    }

    /// Requires the user's consent before `tool` is allowed, for every role.
    pub fn consent_all(self, tool: &str) -> (r: Self)
        ensures
            r.spec_config().consent matches Some(m) && m@ == map_insert(
                opt_entries(self.spec_config().consent),
                tool@,
                ConsentScope::AllRoles(true),
            ),
            (CedarAgentConfig { consent: r.spec_config().consent, ..self.spec_config() })
                == r.spec_config(),
    {
        let ghost old_config = self.spec_config();
        let mut config = self.config;
        let m = insert_into(config.consent.take(), tool.to_string(), ConsentScope::AllRoles(true));
        config.consent = Some(m);
        CedarAgentPolicyBuilder { config }
    }

    /// Requires the user's consent before `tool` is allowed, for the roles
    /// named.
    pub fn consent_for_roles(self, tool: &str, roles: &[&str]) -> (r: Self)
        ensures
            r.spec_config().consent matches Some(m) && map_vals(m@, scope_roles()) == map_insert(
                map_vals(opt_entries(self.spec_config().consent), scope_roles()),
                tool@,
                strs_of(roles@),
            ),
            (CedarAgentConfig { consent: r.spec_config().consent, ..self.spec_config() })
                == r.spec_config(),
    {
        let ghost old_config = self.spec_config();
        let mut config = self.config;
        let v = to_strings(roles);
        let scope = ConsentScope::SpecificRoles(v);
        let m = insert_into(config.consent.take(), tool.to_string(), scope);
        proof {
            lemma_map_vals_insert(opt_entries(old_config.consent), scope_roles(), tool@, scope);
        }
        config.consent = Some(m);
        CedarAgentPolicyBuilder { config }
    }

    /// Registers an MCP tool definition for schema generation.
    pub fn tool(self, definition: McpToolDefinition) -> (r: Self)
        ensures
            r.spec_config().tools matches Some(ts) && ts@ == match self.spec_config().tools {
                Some(old) => old@,
                None => Seq::empty(),
            }.push(definition),
            (CedarAgentConfig { tools: r.spec_config().tools, ..self.spec_config() })
                == r.spec_config(),
    {
        let ghost old_config = self.spec_config();
        let mut config = self.config;
        let mut ts = match config.tools.take() {
            Some(t) => t,
            None => Vec::new(),
        };
        ts.push(definition);
        config.tools = Some(ts);
        CedarAgentPolicyBuilder { config }
    }
}

/// When no key collides with `tool`, every other key, `*` aside, has a
/// different counter key.
pub proof fn lemma_no_collision(keys: Seq<Seq<char>>, tool: Seq<char>)
    requires
        first_collision(keys, tool) is None,
    ensures
        forall|j: int|
            0 <= j < keys.len() && #[trigger] keys[j] != tool && keys[j] != "*"@ ==> spec_sanitize(
                keys[j],
            ) != spec_sanitize(tool),
    decreases keys.len(),
{
    if keys.len() > 0 {
        lemma_no_collision(keys.drop_first(), tool);
        assert forall|j: int|
            0 <= j < keys.len() && #[trigger] keys[j] != tool && keys[j] != "*"@ implies spec_sanitize(
                keys[j],
            ) != spec_sanitize(tool) by {
            if j > 0 {
                assert(keys[j] == keys.drop_first()[j - 1]);
            }
        }
    }
}

/// A rate limit that `rate_limit` accepts keeps the tools of the map, `*`
/// aside, on distinct counter keys: no two limited tools ever share a
/// session counter.
pub proof fn lemma_rate_limit_keeps_counter_keys_distinct(
    old_rl: Seq<(Seq<char>, u64)>,
    tool: Seq<char>,
    max: u64,
)
    requires
        sorted_keys(old_rl),
        counter_keys_distinct(old_rl),
        tool == "*"@ || first_collision(keys_of(old_rl), tool) is None,
    ensures
        counter_keys_distinct(map_insert(old_rl, tool, max)),
{
    lemma_lower_bound(old_rl, tool);
    let p = lower_bound(old_rl, tool);
    let n = map_insert(old_rl, tool, max);
    let keys = keys_of(old_rl);
    if tool != "*"@ {
        lemma_no_collision(keys, tool);
    }
    if has_key(old_rl, tool) {
        assert forall|i: int, j: int|
            0 <= i < n.len() && 0 <= j < n.len() && i != j && n[i].0 != "*"@ && n[j].0 != "*"@
                implies spec_sanitize(#[trigger] n[i].0) != spec_sanitize(#[trigger] n[j].0) by {
            assert(n[i].0 == old_rl[i].0);
            assert(n[j].0 == old_rl[j].0);
        }
    } else {
        assert forall|i: int, j: int|
            0 <= i < n.len() && 0 <= j < n.len() && i != j && n[i].0 != "*"@ && n[j].0 != "*"@
                implies spec_sanitize(#[trigger] n[i].0) != spec_sanitize(#[trigger] n[j].0) by {
            let oi = if i < p { i } else { i - 1 };
            let oj = if j < p { j } else { j - 1 };
            if i == p {
                assert(n[j].0 == old_rl[oj].0);
                assert(keys[oj] == old_rl[oj].0);
                assert(old_rl[oj].0 != tool);
            } else if j == p {
                assert(n[i].0 == old_rl[oi].0);
                assert(keys[oi] == old_rl[oi].0);
                assert(old_rl[oi].0 != tool);
            } else {
                assert(n[i].0 == old_rl[oi].0);
                assert(n[j].0 == old_rl[oj].0);
            }
        }
    }
}

} // verus!
