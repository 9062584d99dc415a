//! Cedar policy text generated from an agent configuration.
//!
//! Each kind of rule (role grants, input restrictions, rate limits, time
//! windows, environment denials, consent) is specified by a spec function
//! that gives the exact policy texts, in the order the configuration's maps
//! are sorted.

use crate::agent::config::{AllowedValue, CedarAgentConfig, ConsentScope, Restriction, TimeWindow};
use crate::text::{
    decimal, has_str, has_text, join, join_strings, push_char, strings_of, strs_of, text_eq,
    u64_to_decimal,
};
use vstd::prelude::*;
use vstd::string::StringExecFns;

verus! {

broadcast use vstd::string::axiom_spec_iter;

// ---------------------------------------------------------------------------
// Escaping and references.
// ---------------------------------------------------------------------------
/// The escaped form of an entity id, as Cedar writes it between quotes.
pub uninterp spec fn escaped_id(s: Seq<char>) -> Seq<char>;

/// A character that `str::escape_debug` writes as it is: an ASCII letter
/// or digit, `_`, `-`, `.` or a space.
pub open spec fn plain_char(c: char) -> bool {
    ('a' <= c && c <= 'z') || ('A' <= c && c <= 'Z') || ('0' <= c && c <= '9') || c == '_' || c == '-'
        || c == '.' || c == ' '
}

/// Escapes `s` for use between quotes in policy text. Calls
/// `cedar_policy::EntityId::new(s).escaped()`, which is `str::escape_debug`.
/// The contract claims that the result is a function of `s`, named
/// `escaped_id`, and that a text of plain characters comes back unchanged,
/// as the documentation of `escape_debug` says of them.
#[verifier::external_body]
fn escape_id(s: &str) -> (r: String)
    ensures
        r@ == escaped_id(s@),
        (forall|i: int| 0 <= i < s@.len() ==> plain_char(#[trigger] s@[i])) ==> r@ == s@,
{
    cedar_policy::EntityId::new(s).escaped().to_string()
}

/// `action == NS::Action::"name"`.
pub open spec fn spec_action_ref(ns: Seq<char>, name: Seq<char>) -> Seq<char> {
    "action == "@ + ns + "::Action::\""@ + escaped_id(name) + "\""@
}

/// `NS::Role::"role"`.
pub open spec fn spec_role_ref(ns: Seq<char>, role: Seq<char>) -> Seq<char> {
    ns + "::Role::\""@ + escaped_id(role) + "\""@
}

/// The action clause of a policy about the tool `name` of namespace `ns`.
pub fn action_ref(ns: &str, name: &str) -> (r: String)
    ensures
        r@ == spec_action_ref(ns@, name@),
{
    let mut s = "action == ".to_string();
    s.append(ns);
    s.append("::Action::\"");
    s.append(escape_id(name).as_str());
    s.append("\"");
    s
}

/// The reference to the role entity `role` of namespace `ns`.
fn role_ref(ns: &str, role: &str) -> (r: String)
    ensures
        r@ == spec_role_ref(ns@, role@),
{
    let mut s = ns.to_string();
    s.append("::Role::\"");
    s.append(escape_id(role).as_str());
    s.append("\"");
    s
}

// ---------------------------------------------------------------------------
// Counter keys and consent scopes.
// ---------------------------------------------------------------------------
/// An ASCII letter or digit.
pub open spec fn is_ascii_alnum(c: char) -> bool {
    ('0' <= c && c <= '9') || ('a' <= c && c <= 'z') || ('A' <= c && c <= 'Z')
}

/// The counter key of a tool name: each character that is not an ASCII
/// letter or digit becomes `_`.
pub open spec fn spec_sanitize(s: Seq<char>) -> Seq<char> {
    s.map_values(|c: char| if is_ascii_alnum(c) { c } else { '_' })
}

/// A counter key has one character for each character of the tool name:
/// ASCII letters and digits are kept, every other character becomes `_`.
pub proof fn lemma_counter_key_shape(tool: Seq<char>)
    ensures
        spec_sanitize(tool).len() == tool.len(),
        forall|i: int|
            0 <= i < tool.len() ==> #[trigger] spec_sanitize(tool)[i] == if is_ascii_alnum(tool[i]) {
                tool[i]
            } else {
                '_'
            },
        forall|i: int|
            0 <= i < tool.len() ==> is_ascii_alnum(#[trigger] spec_sanitize(tool)[i]) || spec_sanitize(
                tool,
            )[i] == '_',
{
}

/// The counter key of a tool name. Tools like `my-tool` and `my_tool` get
/// the same key.
pub fn sanitize_counter_key(tool: &str) -> (r: String)
    ensures
        r@ == spec_sanitize(tool@),
{
    let mut out = String::new();
    for c in it: tool.chars()
        invariant
            it.seq() == tool@,
            out@ == spec_sanitize(tool@.take(it.index() as int)),
    {
        let ghost k = it.index();
        let d = if ('0' <= c && c <= '9') || ('a' <= c && c <= 'z') || ('A' <= c && c <= 'Z') {
            c
        } else {
            '_'
        };
        push_char(&mut out, d);
        proof {
            assert(tool@.take(k + 1) =~= tool@.take(k as int).push(c));
            assert(spec_sanitize(tool@.take(k + 1)) =~= spec_sanitize(tool@.take(k as int)).push(d));
        }
    }
    proof {
        assert(tool@.take(tool@.len() as int) =~= tool@);
    }
    out
}

/// The roles a consent scope names: `*` for all roles.
pub open spec fn spec_consent_roles(scope: ConsentScope) -> Seq<Seq<char>> {
    match scope {
        ConsentScope::AllRoles(true) => seq!["*"@],
        ConsentScope::AllRoles(false) => Seq::empty(),
        ConsentScope::SpecificRoles(roles) => strings_of(roles@),
    }
}

/// The roles a consent scope names: `*` for all roles.
pub fn normalize_consent_roles(scope: &ConsentScope) -> (r: Vec<&str>)
    ensures
        strs_of(r@) == spec_consent_roles(*scope),
{
    match scope {
        ConsentScope::AllRoles(true) => {
            let r = vec!["*"];
            assert(strs_of(r@) =~= seq!["*"@]);
            r
        },
        ConsentScope::AllRoles(false) => {
            let r: Vec<&str> = Vec::new();
            assert(strs_of(r@) =~= Seq::<Seq<char>>::empty());
            r
        },
        ConsentScope::SpecificRoles(roles) => {
            let mut r: Vec<&str> = Vec::new();
            let mut i: usize = 0;
            while i < roles.len()
                invariant
                    0 <= i <= roles@.len(),
                    strs_of(r@) == strings_of(roles@).take(i as int),
                decreases roles@.len() - i,
            {
                r.push(roles[i].as_str());
                assert(strings_of(roles@).take(i + 1) =~= strings_of(roles@).take(i as int).push(
                    roles@[i as int]@,
                ));
                assert(strs_of(r@) =~= strs_of(r@.drop_last()).push(roles@[i as int]@));
                i = i + 1;
            }
            assert(strings_of(roles@).take(roles@.len() as int) =~= strings_of(roles@));
            r
        },
    }
}

/// A consent scope covers `role`: it names the role, or all roles.
pub open spec fn consent_covers(scope: ConsentScope, role: Seq<char>) -> bool {
    spec_consent_roles(scope).contains("*"@) || spec_consent_roles(scope).contains(role)
}

/// The tools, in key order, whose consent scope covers `role`.
pub open spec fn consent_tools(cs: Seq<(Seq<char>, ConsentScope)>, role: Seq<char>) -> Seq<
    Seq<char>,
>
    decreases cs.len(),
{
    if cs.len() == 0 {
        Seq::empty()
    } else if consent_covers(cs[0].1, role) {
        seq![cs[0].0] + consent_tools(cs.drop_first(), role)
    } else {
        consent_tools(cs.drop_first(), role)
    }
}

/// The consent entries of a configuration.
pub open spec fn consent_entries(c: CedarAgentConfig) -> Seq<(Seq<char>, ConsentScope)> {
    match c.consent {
        Some(m) => m@,
        None => Seq::empty(),
    }
}

/// The tools that need consent from `role_name`, in key order.
pub fn get_consent_tools_for_role(config: &CedarAgentConfig, role_name: &str) -> (r: Vec<String>)
    ensures
        strings_of(r@) == consent_tools(consent_entries(*config), role_name@),
{
    let mut tools: Vec<String> = Vec::new();
    let ghost cs = consent_entries(*config);
    if let Some(consent) = &config.consent {
        assert(cs.skip(0) =~= cs);
        assert(strings_of(tools@) + consent_tools(cs, role_name@) =~= consent_tools(cs, role_name@));
        let mut i: usize = 0;
        while i < consent.len()
            invariant
                0 <= i <= cs.len(),
                cs == consent@,
                consent_tools(cs, role_name@) == strings_of(tools@) + consent_tools(
                    cs.skip(i as int),
                    role_name@,
                ),
            decreases cs.len() - i,
        {
            let (tool, scope) = consent.entry(i);
            proof {
                assert(cs.skip(i as int)[0] == cs[i as int]);
                assert(cs.skip(i as int).drop_first() =~= cs.skip(i + 1));
            }
            let roles = normalize_consent_roles(scope);
            if has_str(&roles, "*") || has_str(&roles, role_name) {
                let ghost before = tools@;
                tools.push(tool.clone());
                proof {
                    assert(strings_of(tools@) =~= strings_of(before).push(tool@));
                    assert(strings_of(before) + consent_tools(cs.skip(i as int), role_name@)
                        =~= strings_of(tools@) + consent_tools(cs.skip(i + 1), role_name@));
                }
            }
            i = i + 1;
        }
        assert(cs.skip(i as int) =~= Seq::<(Seq<char>, ConsentScope)>::empty());
        assert(strings_of(tools@) + Seq::<Seq<char>>::empty() =~= strings_of(tools@));
    } else {
        assert(strings_of(tools@) =~= Seq::<Seq<char>>::empty());
    }
    tools
}

// ---------------------------------------------------------------------------
// Role grants.
// ---------------------------------------------------------------------------
/// The action clauses of a list of tools.
pub open spec fn action_refs(ns: Seq<char>, tools: Seq<Seq<char>>) -> Seq<Seq<char>> {
    tools.map_values(|t: Seq<char>| spec_action_ref(ns, t))
}

/// One `permit` per tool of a role that is not gated by consent.
pub open spec fn tool_permits(
    ns: Seq<char>,
    rr: Seq<char>,
    tools: Seq<Seq<char>>,
    ctools: Seq<Seq<char>>,
) -> Seq<Seq<char>>
    decreases tools.len(),
{
    if tools.len() == 0 {
        Seq::empty()
    } else if ctools.contains(tools[0]) {
        tool_permits(ns, rr, tools.drop_first(), ctools)
    } else {
        seq![tool_permit(ns, rr, tools[0])] + tool_permits(ns, rr, tools.drop_first(), ctools)
    }
}

/// The plain permit of a role for a tool.
pub open spec fn tool_permit(ns: Seq<char>, rr: Seq<char>, tool: Seq<char>) -> Seq<char> {
    "permit(principal in "@ + rr + ", "@ + spec_action_ref(ns, tool) + ", resource);"@
}

/// A role without `*` gets a plain permit for each of its tools that is not
/// gated by consent, and none other: a gated tool is left to the consent
/// policies.
#[verifier::spinoff_prover]
pub proof fn lemma_gated_tools_have_no_plain_permit(
    ns: Seq<char>,
    rr: Seq<char>,
    tools: Seq<Seq<char>>,
    ctools: Seq<Seq<char>>,
)
    ensures
        forall|i: int|
            0 <= i < tool_permits(ns, rr, tools, ctools).len() ==> exists|t: Seq<char>|
                tools.contains(t) && !ctools.contains(t) && #[trigger] tool_permits(
                    ns,
                    rr,
                    tools,
                    ctools,
                )[i] == tool_permit(ns, rr, t),
        forall|t: Seq<char>|
            tools.contains(t) && !ctools.contains(t) ==> tool_permits(ns, rr, tools, ctools).contains(
                #[trigger] tool_permit(ns, rr, t),
            ),
    decreases tools.len(),
{
    if tools.len() > 0 {
        let rest = tools.drop_first();
        lemma_gated_tools_have_no_plain_permit(ns, rr, rest, ctools);
        let tp = tool_permits(ns, rr, tools, ctools);
        let tr = tool_permits(ns, rr, rest, ctools);
        assert forall|t: Seq<char>| rest.contains(t) implies tools.contains(t) by {
            let j = choose|j: int| 0 <= j < rest.len() && rest[j] == t;
            assert(tools[j + 1] == t);
        }
        assert(tools.contains(tools[0]));
        if ctools.contains(tools[0]) {
            assert(tp == tr);
            assert forall|i: int| 0 <= i < tp.len() implies exists|t: Seq<char>|
                tools.contains(t) && !ctools.contains(t) && #[trigger] tp[i] == tool_permit(
                    ns,
                    rr,
                    t,
                ) by {
                let t = choose|t: Seq<char>|
                    rest.contains(t) && !ctools.contains(t) && #[trigger] tr[i] == tool_permit(ns, rr, t);
                assert(tools.contains(t));
            }
            assert forall|t: Seq<char>| tools.contains(t) && !ctools.contains(t) implies tp.contains(
                #[trigger] tool_permit(ns, rr, t),
            ) by {
                let j = choose|j: int| 0 <= j < tools.len() && tools[j] == t;
                assert(j != 0);
                assert(rest[j - 1] == t);
            }
        } else {
            let first = tool_permit(ns, rr, tools[0]);
            assert(tp == seq![first] + tr);
            assert forall|i: int| 0 <= i < tp.len() implies exists|t: Seq<char>|
                tools.contains(t) && !ctools.contains(t) && #[trigger] tp[i] == tool_permit(
                    ns,
                    rr,
                    t,
                ) by {
                if i == 0 {
                    assert(tp[0] == tool_permit(ns, rr, tools[0]));
                } else {
                    assert(tp[i] == tr[i - 1]);
                    let t = choose|t: Seq<char>|
                        rest.contains(t) && !ctools.contains(t) && #[trigger] tr[i - 1] == tool_permit(ns, rr, t);
                    assert(tools.contains(t));
                }
            }
            assert forall|t: Seq<char>| tools.contains(t) && !ctools.contains(t) implies tp.contains(
                #[trigger] tool_permit(ns, rr, t),
            ) by {
                let j = choose|j: int| 0 <= j < tools.len() && tools[j] == t;
                if j == 0 {
                    assert(tp[0] == tool_permit(ns, rr, t));
                } else {
                    assert(rest[j - 1] == t);
                    let k = choose|k: int| 0 <= k < tr.len() && tr[k] == tool_permit(ns, rr, t);
                    assert(tp[k + 1] == tr[k]);
                }
            }
        }
    }
}

/// The policies of one role: its tools, less those gated by consent
/// (`ctools`); a role with `*` gets every action but the gated ones.
pub open spec fn role_entry_policies(
    ns: Seq<char>,
    role: Seq<char>,
    tools: Seq<Seq<char>>,
    ctools: Seq<Seq<char>>,
) -> Seq<Seq<char>> {
    let rr = spec_role_ref(ns, role);
    if tools.contains("*"@) {
        if ctools.len() == 0 {
            seq!["permit(principal in "@ + rr + ", action, resource);"@]
        } else {
            seq![
                "permit(\n  principal in "@ + rr + ",\n  action,\n  resource\n) when { !("@ + join(
                    action_refs(ns, ctools),
                    " || "@,
                ) + ") };"@,
            ]
        }
    } else {
        tool_permits(ns, rr, tools, ctools)
    }
}

/// The policies of the roles, in key order.
pub open spec fn role_policies(
    ns: Seq<char>,
    rs: Seq<(Seq<char>, Vec<String>)>,
    cs: Seq<(Seq<char>, ConsentScope)>,
) -> Seq<Seq<char>>
    decreases rs.len(),
{
    if rs.len() == 0 {
        Seq::empty()
    } else {
        role_entry_policies(ns, rs[0].0, strings_of(rs[0].1@), consent_tools(cs, rs[0].0))
            + role_policies(ns, rs.drop_first(), cs)
    }
}

/// The role-grant policies of a configuration.
pub open spec fn spec_role_policies(c: CedarAgentConfig) -> Seq<Seq<char>> {
    match c.roles {
        Some(m) => role_policies(c.namespace@, m@, consent_entries(c)),
        None => Seq::empty(),
    }
}

/// The action clauses of the tools.
fn action_refs_of(ns: &str, tools: &Vec<String>) -> (r: Vec<String>)
    ensures
        strings_of(r@) == action_refs(ns@, strings_of(tools@)),
{
    let mut out: Vec<String> = Vec::new();
    let mut i: usize = 0;
    while i < tools.len()
        invariant
            0 <= i <= tools@.len(),
            strings_of(out@) == action_refs(ns@, strings_of(tools@)).take(i as int),
        decreases tools@.len() - i,
    {
        let a = action_ref(ns, tools[i].as_str());
        proof {
            crate::text::lemma_strings_of_push(out@, a);
            assert(action_refs(ns@, strings_of(tools@)).take(i + 1) =~= action_refs(
                ns@,
                strings_of(tools@),
            ).take(i as int).push(a@));
        }
        out.push(a);
        i = i + 1;
    }
    assert(action_refs(ns@, strings_of(tools@)).take(tools@.len() as int) =~= action_refs(
        ns@,
        strings_of(tools@),
    ));
    out
}

/// The policies of one role.
fn role_entry(ns: &str, role_name: &str, tools: &Vec<String>, consent_tools: &Vec<String>) -> (r:
    Vec<String>)
    ensures
        strings_of(r@) == role_entry_policies(
            ns@,
            role_name@,
            strings_of(tools@),
            strings_of(consent_tools@),
        ),
{
    let rr = role_ref(ns, role_name);
    let mut policies: Vec<String> = Vec::new();
    if has_text(tools, "*") {
        if consent_tools.len() == 0 {
            let mut p = "permit(principal in ".to_string();
            p.append(rr.as_str());
            p.append(", action, resource);");
            policies.push(p);
        } else {
            let exclusions = action_refs_of(ns, consent_tools);
            let mut p = "permit(\n  principal in ".to_string();
            p.append(rr.as_str());
            p.append(",\n  action,\n  resource\n) when { !(");
            p.append(join_strings(&exclusions, " || ").as_str());
            p.append(") };");
            policies.push(p);
        }
        assert(strings_of(policies@) =~= seq![policies@[0]@]);
    } else {
        let ghost ts = strings_of(tools@);
        let ghost cts = strings_of(consent_tools@);
        assert(ts.skip(0) =~= ts);
        assert(strings_of(policies@) + tool_permits(ns@, rr@, ts, cts) =~= tool_permits(
            ns@,
            rr@,
            ts,
            cts,
        ));
        let mut i: usize = 0;
        while i < tools.len()
            invariant
                0 <= i <= tools@.len(),
                ts == strings_of(tools@),
                cts == strings_of(consent_tools@),
                tool_permits(ns@, rr@, ts, cts) == strings_of(policies@) + tool_permits(
                    ns@,
                    rr@,
                    ts.skip(i as int),
                    cts,
                ),
            decreases tools@.len() - i,
        {
            proof {
                assert(ts.skip(i as int)[0] == tools@[i as int]@);
                assert(ts.skip(i as int).drop_first() =~= ts.skip(i + 1));
            }
            let tool = &tools[i];
            if !has_text(consent_tools, tool.as_str()) {
                let mut p = "permit(principal in ".to_string();
                p.append(rr.as_str());
                p.append(", ");
                p.append(action_ref(ns, tool.as_str()).as_str());
                p.append(", resource);");
                let ghost before = policies@;
                policies.push(p);
                proof {
                    crate::text::lemma_strings_of_push(before, p);
                    assert(strings_of(before) + (seq![p@] + tool_permits(
                        ns@,
                        rr@,
                        ts.skip(i + 1),
                        cts,
                    )) =~= strings_of(policies@) + tool_permits(ns@, rr@, ts.skip(i + 1), cts));
                }
            }
            i = i + 1;
        }
        assert(ts.skip(i as int) =~= Seq::<Seq<char>>::empty());
        assert(strings_of(policies@) + Seq::<Seq<char>>::empty() =~= strings_of(policies@));
    }
    policies
}

/// The role-grant policies: per role, in key order, a `permit` for each
/// tool not gated by consent, or one `permit` for every action but the
/// gated ones when the role has `*`.
pub fn generate_role_policies(config: &CedarAgentConfig) -> (r: Vec<String>)
    ensures
        strings_of(r@) == spec_role_policies(*config),
{
    let mut policies: Vec<String> = Vec::new();
    let roles = match &config.roles {
        Some(r) => r,
        None => {
            assert(strings_of(policies@) =~= Seq::<Seq<char>>::empty());
            return policies;
        },
    };
    let ns = config.namespace.as_str();
    let ghost rs = roles@;
    let ghost cs = consent_entries(*config);
    assert(rs.skip(0) =~= rs);
    assert(strings_of(policies@) + role_policies(ns@, rs, cs) =~= role_policies(ns@, rs, cs));
    let mut i: usize = 0;
    while i < roles.len()
        invariant
            0 <= i <= rs.len(),
            rs == roles@,
            cs == consent_entries(*config),
            ns@ == config.namespace@,
            role_policies(ns@, rs, cs) == strings_of(policies@) + role_policies(
                ns@,
                rs.skip(i as int),
                cs,
            ),
        decreases rs.len() - i,
    {
        let (role_name, tools) = roles.entry(i);
        proof {
            assert(rs.skip(i as int)[0] == rs[i as int]);
            assert(rs.skip(i as int).drop_first() =~= rs.skip(i + 1));
        }
        let consent_tools = get_consent_tools_for_role(config, role_name.as_str());
        let mut entry = role_entry(ns, role_name.as_str(), tools, &consent_tools);
        let ghost before = policies@;
        let ghost added = entry@;
        policies.append(&mut entry);
        proof {
            crate::text::lemma_strings_of_add(before, added);
            assert(strings_of(before) + (strings_of(added) + role_policies(
                ns@,
                rs.skip(i + 1),
                cs,
            )) =~= strings_of(policies@) + role_policies(ns@, rs.skip(i + 1), cs));
        }
        i = i + 1;
    }
    assert(rs.skip(i as int) =~= Seq::<(Seq<char>, Vec<String>)>::empty());
    assert(strings_of(policies@) + Seq::<Seq<char>>::empty() =~= strings_of(policies@));
    policies
}

// ---------------------------------------------------------------------------
// Input restrictions.
// ---------------------------------------------------------------------------
/// A Cedar literal for a JSON value: strings (and values that are neither
/// strings, numbers nor booleans, by their JSON text) are quoted and
/// escaped; numbers and booleans are written as they are.
pub open spec fn cedar_value_text(v: AllowedValue) -> Seq<char> {
    match v {
        AllowedValue::Str(s) => "\""@ + escaped_id(s@) + "\""@,
        AllowedValue::Number(t) => t@,
        AllowedValue::Bool(b) => if b {
            "true"@
        } else {
            "false"@
        },
        AllowedValue::Other(t) => "\""@ + escaped_id(t@) + "\""@,
    }
}

/// The Cedar literal for a JSON value.
pub fn format_cedar_value(v: &AllowedValue) -> (r: String)
    ensures
        r@ == cedar_value_text(*v),
{
    match v {
        AllowedValue::Str(s) => {
            let mut t = "\"".to_string();
            t.append(escape_id(s.as_str()).as_str());
            t.append("\"");
            t
        },
        AllowedValue::Number(n) => n.clone(),
        AllowedValue::Bool(b) => if *b {
            "true".to_string()
        } else {
            "false".to_string()
        },
        AllowedValue::Other(t) => {
            let mut u = "\"".to_string();
            u.append(escape_id(t.as_str()).as_str());
            u.append("\"");
            u
        },
    }
}

/// The checks that the input field `field` equals one of `vals`.
pub open spec fn value_checks(field: Seq<char>, vals: Seq<AllowedValue>) -> Seq<Seq<char>> {
    vals.map_values(
        |v: AllowedValue| "context.input[\""@ + escaped_id(field) + "\"] == "@ + cedar_value_text(v),
    )
}

/// The policy that denies the action unless `field` holds one of `vals`.
pub open spec fn field_policy(ac: Seq<char>, field: Seq<char>, vals: Seq<AllowedValue>) -> Seq<
    char,
> {
    "forbid(\n  principal,\n  "@ + ac + ",\n  resource\n) when {\n  !(context.input has \""@
        + escaped_id(field) + "\" && ("@ + join(value_checks(field, vals), " || "@) + "))\n};"@
}

/// The policies of the restricted fields, in key order.
pub open spec fn field_policies(ac: Seq<char>, fs: Seq<(Seq<char>, Vec<AllowedValue>)>) -> Seq<
    Seq<char>,
> {
    fs.map_values(|f: (Seq<char>, Vec<AllowedValue>)| field_policy(ac, f.0, f.1@))
}

/// The policies of the restriction of one tool: a plain `forbid` when no
/// field is allowed anything, else one `forbid` per field.
pub open spec fn restriction_entry_policies(
    ns: Seq<char>,
    tool: Seq<char>,
    fs: Seq<(Seq<char>, Vec<AllowedValue>)>,
) -> Seq<Seq<char>> {
    let ac = spec_action_ref(ns, tool);
    if fs.len() == 0 {
        seq!["forbid(\n  principal,\n  "@ + ac + ",\n  resource\n);"@]
    } else {
        field_policies(ac, fs)
    }
}

/// The policies of the restrictions, in key order.
pub open spec fn restriction_policies(ns: Seq<char>, rs: Seq<(Seq<char>, Restriction)>) -> Seq<
    Seq<char>,
>
    decreases rs.len(),
{
    if rs.len() == 0 {
        Seq::empty()
    } else {
        restriction_entry_policies(ns, rs[0].0, rs[0].1.allowed_values@) + restriction_policies(
            ns,
            rs.drop_first(),
        )
    }
}

/// The restriction policies of a configuration.
pub open spec fn spec_restriction_policies(c: CedarAgentConfig) -> Seq<Seq<char>> {
    match c.restrictions {
        Some(m) => restriction_policies(c.namespace@, m@),
        None => Seq::empty(),
    }
}

/// The policy that denies the action `ac` unless `field` holds one of `vals`.
fn field_restriction(ac: &str, field: &str, vals: &Vec<AllowedValue>) -> (r: String)
    ensures
        r@ == field_policy(ac@, field@, vals@),
{
    let escaped_field = escape_id(field);
    let mut checks: Vec<String> = Vec::new();
    let mut i: usize = 0;
    while i < vals.len()
        invariant
            0 <= i <= vals@.len(),
            escaped_field@ == escaped_id(field@),
            strings_of(checks@) == value_checks(field@, vals@).take(i as int),
        decreases vals@.len() - i,
    {
        let mut c = "context.input[\"".to_string();
        c.append(escaped_field.as_str());
        c.append("\"] == ");
        c.append(format_cedar_value(&vals[i]).as_str());
        proof {
            crate::text::lemma_strings_of_push(checks@, c);
            assert(value_checks(field@, vals@).take(i + 1) =~= value_checks(field@, vals@).take(
                i as int,
            ).push(c@));
        }
        checks.push(c);
        i = i + 1;
    }
    assert(value_checks(field@, vals@).take(vals@.len() as int) =~= value_checks(field@, vals@));
    let mut p = "forbid(\n  principal,\n  ".to_string();
    p.append(ac);
    p.append(",\n  resource\n) when {\n  !(context.input has \"");
    p.append(escaped_field.as_str());
    p.append("\" && (");
    p.append(join_strings(&checks, " || ").as_str());
    p.append("))\n};");
    p
}

/// The restriction policies: per restricted tool, in key order, a `forbid`
/// for each field that denies the action unless the field holds one of its
/// allowed values; a tool with no field is denied outright.
pub fn generate_restriction_policies(config: &CedarAgentConfig) -> (r: Vec<String>)
    ensures
        strings_of(r@) == spec_restriction_policies(*config),
{
    let mut policies: Vec<String> = Vec::new();
    let restrictions = match &config.restrictions {
        Some(r) => r,
        None => {
            assert(strings_of(policies@) =~= Seq::<Seq<char>>::empty());
            return policies;
        },
    };
    let ns = config.namespace.as_str();
    let ghost rs = restrictions@;
    assert(rs.skip(0) =~= rs);
    assert(strings_of(policies@) + restriction_policies(ns@, rs) =~= restriction_policies(ns@, rs));
    let mut i: usize = 0;
    while i < restrictions.len()
        invariant
            0 <= i <= rs.len(),
            rs == restrictions@,
            restriction_policies(ns@, rs) == strings_of(policies@) + restriction_policies(
                ns@,
                rs.skip(i as int),
            ),
        decreases rs.len() - i,
    {
        let (tool, restriction) = restrictions.entry(i);
        proof {
            assert(rs.skip(i as int)[0] == rs[i as int]);
            assert(rs.skip(i as int).drop_first() =~= rs.skip(i + 1));
        }
        let action_clause = action_ref(ns, tool.as_str());
        let fields = &restriction.allowed_values;
        let mut entry: Vec<String> = Vec::new();
        if fields.is_empty() {
            let mut p = "forbid(\n  principal,\n  ".to_string();
            p.append(action_clause.as_str());
            p.append(",\n  resource\n);");
            entry.push(p);
            assert(strings_of(entry@) =~= seq![p@]);
        } else {
            let ghost fs = fields@;
            let mut j: usize = 0;
            while j < fields.len()
                invariant
                    0 <= j <= fs.len(),
                    fs == fields@,
                    strings_of(entry@) == field_policies(action_clause@, fs).take(j as int),
                decreases fs.len() - j,
            {
                let (field, vals) = fields.entry(j);
                let p = field_restriction(action_clause.as_str(), field.as_str(), vals);
                proof {
                    crate::text::lemma_strings_of_push(entry@, p);
                    assert(field_policies(action_clause@, fs).take(j + 1) =~= field_policies(
                        action_clause@,
                        fs,
                    ).take(j as int).push(p@));
                }
                entry.push(p);
                j = j + 1;
            }
            assert(field_policies(action_clause@, fs).take(fs.len() as int) =~= field_policies(
                action_clause@,
                fs,
            ));
        }
        let ghost before = policies@;
        let ghost added = entry@;
        policies.append(&mut entry);
        proof {
            crate::text::lemma_strings_of_add(before, added);
            assert(strings_of(before) + (strings_of(added) + restriction_policies(
                ns@,
                rs.skip(i + 1),
            )) =~= strings_of(policies@) + restriction_policies(ns@, rs.skip(i + 1)));
        }
        i = i + 1;
    }
    assert(rs.skip(i as int) =~= Seq::<(Seq<char>, Restriction)>::empty());
    assert(strings_of(policies@) + Seq::<Seq<char>>::empty() =~= strings_of(policies@));
    policies
}

// ---------------------------------------------------------------------------
// Rate limits and time windows.
// ---------------------------------------------------------------------------
/// The `forbid` that stops a tool (or, for `*`, every action) once its call
/// counter reaches `max`.
pub open spec fn rate_limit_policy(ns: Seq<char>, tool: Seq<char>, max: u64) -> Seq<char> {
    if tool == "*"@ {
        "forbid(\n  principal,\n  action,\n  resource\n) when { context.session has \"call_count\" && context.session.call_count >= "@
            + decimal(max as nat) + " };"@
    } else {
        let ck = "call_count_"@ + spec_sanitize(tool);
        "forbid(\n  principal,\n  "@ + spec_action_ref(ns, tool) + ",\n  resource\n) when { context.session has \""@
            + ck + "\" && context.session."@ + ck + " >= "@ + decimal(max as nat) + " };"@
    }
}

/// The rate-limit policies of a configuration, in key order.
pub open spec fn spec_rate_limit_policies(c: CedarAgentConfig) -> Seq<Seq<char>> {
    match c.rate_limits {
        Some(m) => m@.map_values(|e: (Seq<char>, u64)| rate_limit_policy(c.namespace@, e.0, e.1)),
        None => Seq::empty(),
    }
}

/// The rate-limit policies: one `forbid` per entry, in key order.
pub fn generate_rate_limit_policies(config: &CedarAgentConfig) -> (r: Vec<String>)
    ensures
        strings_of(r@) == spec_rate_limit_policies(*config),
{
    let mut policies: Vec<String> = Vec::new();
    let rate_limits = match &config.rate_limits {
        Some(r) => r,
        None => {
            assert(strings_of(policies@) =~= Seq::<Seq<char>>::empty());
            return policies;
        },
    };
    let ns = config.namespace.as_str();
    let ghost all = spec_rate_limit_policies(*config);
    let mut i: usize = 0;
    while i < rate_limits.len()
        invariant
            0 <= i <= rate_limits@.len(),
            ns@ == config.namespace@,
            config.rate_limits == Some(*rate_limits),
            all == spec_rate_limit_policies(*config),
            all.len() == rate_limits@.len(),
            strings_of(policies@) == all.take(i as int),
        decreases rate_limits@.len() - i,
    {
        let (tool, max) = rate_limits.entry(i);
        let max_text = u64_to_decimal(*max);
        let p = if text_eq(tool.as_str(), "*") {
            let mut p = "forbid(\n  principal,\n  action,\n  resource\n) when { context.session has \"call_count\" && context.session.call_count >= ".to_string();
            p.append(max_text.as_str());
            p.append(" };");
            p
        } else {
            let mut counter_key = "call_count_".to_string();
            counter_key.append(sanitize_counter_key(tool.as_str()).as_str());
            let mut p = "forbid(\n  principal,\n  ".to_string();
            p.append(action_ref(ns, tool.as_str()).as_str());
            p.append(",\n  resource\n) when { context.session has \"");
            p.append(counter_key.as_str());
            p.append("\" && context.session.");
            p.append(counter_key.as_str());
            p.append(" >= ");
            p.append(max_text.as_str());
            p.append(" };");
            p
        };
        proof {
            crate::text::lemma_strings_of_push(policies@, p);
            assert(all.take(i + 1) =~= all.take(i as int).push(p@));
        }
        policies.push(p);
        i = i + 1;
    }
    assert(all.take(all.len() as int) =~= all);
    policies
}

/// The `forbid` that denies a tool (or, for `*`, every action) outside the
/// hours `[start, end)`.
pub open spec fn time_window_policy(ns: Seq<char>, tool: Seq<char>, tw: TimeWindow) -> Seq<char> {
    let ac = if tool == "*"@ {
        "action"@
    } else {
        spec_action_ref(ns, tool)
    };
    "forbid(\n  principal,\n  "@ + ac + ",\n  resource\n) when { context.session has \"hour_utc\" && (context.session.hour_utc < "@
        + decimal(tw.hour_start as nat) + " || context.session.hour_utc >= "@ + decimal(
        tw.hour_end as nat,
    ) + ") };"@
}

/// The time-window policies of a configuration, in key order.
pub open spec fn spec_time_window_policies(c: CedarAgentConfig) -> Seq<Seq<char>> {
    match c.time_windows {
        Some(m) => m@.map_values(
            |e: (Seq<char>, TimeWindow)| time_window_policy(c.namespace@, e.0, e.1),
        ),
        None => Seq::empty(),
    }
}

/// The time-window policies: one `forbid` per entry, in key order.
pub fn generate_time_window_policies(config: &CedarAgentConfig) -> (r: Vec<String>)
    ensures
        strings_of(r@) == spec_time_window_policies(*config),
{
    let mut policies: Vec<String> = Vec::new();
    let time_windows = match &config.time_windows {
        Some(t) => t,
        None => {
            assert(strings_of(policies@) =~= Seq::<Seq<char>>::empty());
            return policies;
        },
    };
    let ns = config.namespace.as_str();
    let ghost all = spec_time_window_policies(*config);
    let mut i: usize = 0;
    while i < time_windows.len()
        invariant
            0 <= i <= time_windows@.len(),
            ns@ == config.namespace@,
            config.time_windows == Some(*time_windows),
            all == spec_time_window_policies(*config),
            all.len() == time_windows@.len(),
            strings_of(policies@) == all.take(i as int),
        decreases time_windows@.len() - i,
    {
        let (tool, tw) = time_windows.entry(i);
        let action_clause = if text_eq(tool.as_str(), "*") {
            "action".to_string()
        } else {
            action_ref(ns, tool.as_str())
        };
        let mut p = "forbid(\n  principal,\n  ".to_string();
        p.append(action_clause.as_str());
        p.append(",\n  resource\n) when { context.session has \"hour_utc\" && (context.session.hour_utc < ");
        p.append(u64_to_decimal(tw.hour_start as u64).as_str());
        p.append(" || context.session.hour_utc >= ");
        p.append(u64_to_decimal(tw.hour_end as u64).as_str());
        p.append(") };");
        proof {
            crate::text::lemma_strings_of_push(policies@, p);
            assert(all.take(i + 1) =~= all.take(i as int).push(p@));
        }
        policies.push(p);
        i = i + 1;
    }
    assert(all.take(all.len() as int) =~= all);
    policies
}

// ---------------------------------------------------------------------------
// Environment denials and consent.
// ---------------------------------------------------------------------------
/// The `forbid` of the action clause `ac` in the environment `env`.
pub open spec fn env_policy(ac: Seq<char>, env: Seq<char>) -> Seq<char> {
    "forbid(\n  principal,\n  "@ + ac + ",\n  resource\n) when { context.session has \"environment\" && context.session.environment == \""@
        + escaped_id(env) + "\" };"@
}

/// The policies denying tools in one environment: every action for `*`,
/// else one per tool.
pub open spec fn env_entry_policies(ns: Seq<char>, env: Seq<char>, tools: Seq<Seq<char>>) -> Seq<
    Seq<char>,
> {
    if tools.contains("*"@) {
        seq![env_policy("action"@, env)]
    } else {
        tools.map_values(|t: Seq<char>| env_policy(spec_action_ref(ns, t), env))
    }
}

/// The text of a policy denying the action clause `ac` when the session's
/// environment is `env`, written out.
pub open spec fn forbid_in_env_text(ac: Seq<char>, env: Seq<char>) -> Seq<char> {
    "forbid(\n  principal,\n  "@ + ac
        + ",\n  resource\n) when { context.session has \"environment\" && context.session.environment == \""@
        + escaped_id(env) + "\" };"@
}

/// The denial of an environment with no `*` among its tools is one `forbid`
/// per tool, in the order the tools are listed: the `k`-th forbids exactly
/// `action == NS::Action::"<k-th tool>"` whenever the session's
/// environment is `env`.
pub proof fn lemma_env_denial_one_forbid_per_tool(ns: Seq<char>, env: Seq<char>, tools: Seq<Seq<char>>)
    requires
        !tools.contains("*"@),
    ensures
        env_entry_policies(ns, env, tools).len() == tools.len(),
        forall|k: int|
            0 <= k < tools.len() ==> #[trigger] env_entry_policies(ns, env, tools)[k] == forbid_in_env_text(
                "action == "@ + ns + "::Action::\""@ + escaped_id(tools[k]) + "\""@,
                env,
            ),
{
}

/// With `*` among its tools, an environment is denied every action with
/// one `forbid`.
pub proof fn lemma_env_denial_star(ns: Seq<char>, env: Seq<char>, tools: Seq<Seq<char>>)
    requires
        tools.contains("*"@),
    ensures
        env_entry_policies(ns, env, tools) == seq![forbid_in_env_text("action"@, env)],
{
}

/// The environment-denial policies, in key order.
pub open spec fn env_policies(ns: Seq<char>, es: Seq<(Seq<char>, Vec<String>)>) -> Seq<Seq<char>>
    decreases es.len(),
{
    if es.len() == 0 {
        Seq::empty()
    } else {
        env_entry_policies(ns, es[0].0, strings_of(es[0].1@)) + env_policies(ns, es.drop_first())
    }
}

/// Every tool listed under an environment is denied there: the
/// environment-denial policies hold the `forbid` of each listed tool (or,
/// for `*`, of every action) in that environment.
pub proof fn lemma_env_denials_cover(ns: Seq<char>, es: Seq<(Seq<char>, Vec<String>)>)
    ensures
        forall|i: int, k: int|
            0 <= i < es.len() && 0 <= k < strings_of(es[i].1@).len() ==> env_policies(ns, es).contains(
                if strings_of(es[i].1@).contains("*"@) {
                    forbid_in_env_text("action"@, es[i].0)
                } else {
                    forbid_in_env_text(
                        "action == "@ + ns + "::Action::\""@ + escaped_id(#[trigger] strings_of(es[i].1@)[k]) + "\""@,
                        es[i].0,
                    )
                },
            ),
    decreases es.len(),
{
    if es.len() > 0 {
        lemma_env_denials_cover(ns, es.drop_first());
        let head = env_entry_policies(ns, es[0].0, strings_of(es[0].1@));
        let rest = env_policies(ns, es.drop_first());
        assert forall|i: int, k: int|
            0 <= i < es.len() && 0 <= k < strings_of(es[i].1@).len() implies env_policies(ns, es).contains(
                if strings_of(es[i].1@).contains("*"@) {
                    forbid_in_env_text("action"@, es[i].0)
                } else {
                    forbid_in_env_text(
                        "action == "@ + ns + "::Action::\""@ + escaped_id(#[trigger] strings_of(es[i].1@)[k]) + "\""@,
                        es[i].0,
                    )
                },
            ) by {
            let all = head + rest;
            if i == 0 {
                let ts = strings_of(es[0].1@);
                if ts.contains("*"@) {
                    lemma_env_denial_star(ns, es[0].0, ts);
                    assert(all[0] == head[0]);
                } else {
                    lemma_env_denial_one_forbid_per_tool(ns, es[0].0, ts);
                    assert(all[k] == head[k]);
                }
            } else {
                let j = i - 1;
                assert(es.drop_first()[j] == es[i]);
                let x = if strings_of(es[i].1@).contains("*"@) {
                    forbid_in_env_text("action"@, es[i].0)
                } else {
                    forbid_in_env_text(
                        "action == "@ + ns + "::Action::\""@ + escaped_id(strings_of(es[i].1@)[k]) + "\""@,
                        es[i].0,
                    )
                };
                assert(strings_of(es.drop_first()[j].1@)[k] == strings_of(es[i].1@)[k]);
                assert(rest.contains(x));
                let m = choose|m: int| 0 <= m < rest.len() && rest[m] == x;
                assert(all[head.len() + m] == rest[m]);
            }
        }
    }
}

/// The environment-denial policies of a configuration.
pub open spec fn spec_env_denial_policies(c: CedarAgentConfig) -> Seq<Seq<char>> {
    match c.deny_in_env {
        Some(m) => env_policies(c.namespace@, m@),
        None => Seq::empty(),
    }
}

/// The policies denying tools in one environment.
fn env_entry(ns: &str, env: &str, tools: &Vec<String>) -> (r: Vec<String>)
    ensures
        strings_of(r@) == env_entry_policies(ns@, env@, strings_of(tools@)),
{
    let escaped_env = escape_id(env);
    let mut policies: Vec<String> = Vec::new();
    if has_text(tools, "*") {
        let mut p = "forbid(\n  principal,\n  ".to_string();
        p.append("action");
        p.append(",\n  resource\n) when { context.session has \"environment\" && context.session.environment == \"");
        p.append(escaped_env.as_str());
        p.append("\" };");
        policies.push(p);
        assert(strings_of(policies@) =~= seq![p@]);
    } else {
        let ghost all = strings_of(tools@).map_values(
            |t: Seq<char>| env_policy(spec_action_ref(ns@, t), env@),
        );
        let mut i: usize = 0;
        while i < tools.len()
            invariant
                0 <= i <= tools@.len(),
                escaped_env@ == escaped_id(env@),
                all == strings_of(tools@).map_values(
                    |t: Seq<char>| env_policy(spec_action_ref(ns@, t), env@),
                ),
                strings_of(policies@) == all.take(i as int),
            decreases tools@.len() - i,
        {
            let mut p = "forbid(\n  principal,\n  ".to_string();
            p.append(action_ref(ns, tools[i].as_str()).as_str());
            p.append(",\n  resource\n) when { context.session has \"environment\" && context.session.environment == \"");
            p.append(escaped_env.as_str());
            p.append("\" };");
            proof {
                crate::text::lemma_strings_of_push(policies@, p);
                assert(all.take(i + 1) =~= all.take(i as int).push(p@));
            }
            policies.push(p);
            i = i + 1;
        }
        assert(all.take(all.len() as int) =~= all);
    }
    policies
}

/// The environment-denial policies: per environment, in key order, a
/// `forbid` of every action (for `*`) or of each listed tool.
pub fn generate_env_denial_policies(config: &CedarAgentConfig) -> (r: Vec<String>)
    ensures
        strings_of(r@) == spec_env_denial_policies(*config),
{
    let mut policies: Vec<String> = Vec::new();
    let deny_in_env = match &config.deny_in_env {
        Some(d) => d,
        None => {
            assert(strings_of(policies@) =~= Seq::<Seq<char>>::empty());
            return policies;
        },
    };
    let ns = config.namespace.as_str();
    let ghost es = deny_in_env@;
    assert(es.skip(0) =~= es);
    assert(strings_of(policies@) + env_policies(ns@, es) =~= env_policies(ns@, es));
    let mut i: usize = 0;
    while i < deny_in_env.len()
        invariant
            0 <= i <= es.len(),
            es == deny_in_env@,
            env_policies(ns@, es) == strings_of(policies@) + env_policies(ns@, es.skip(i as int)),
        decreases es.len() - i,
    {
        let (env, tools) = deny_in_env.entry(i);
        proof {
            assert(es.skip(i as int)[0] == es[i as int]);
            assert(es.skip(i as int).drop_first() =~= es.skip(i + 1));
        }
        let mut entry = env_entry(ns, env.as_str(), tools);
        let ghost before = policies@;
        let ghost added = entry@;
        policies.append(&mut entry);
        proof {
            crate::text::lemma_strings_of_add(before, added);
            assert(strings_of(before) + (strings_of(added) + env_policies(ns@, es.skip(i + 1)))
                =~= strings_of(policies@) + env_policies(ns@, es.skip(i + 1)));
        }
        i = i + 1;
    }
    assert(es.skip(i as int) =~= Seq::<(Seq<char>, Vec<String>)>::empty());
    assert(strings_of(policies@) + Seq::<Seq<char>>::empty() =~= strings_of(policies@));
    policies
}

/// The `permit` of the action clause `ac`, for the principals `pr`, once the
/// user has consented.
pub open spec fn consent_policy(pr: Seq<char>, ac: Seq<char>) -> Seq<char> {
    "permit(\n  "@ + pr + ",\n  "@ + ac + ",\n  resource\n) when { context.session has \"user_consent\" && context.session.user_consent == true };"@
}

/// The roles of a configuration, with their tools, in key order.
pub open spec fn role_entries(c: CedarAgentConfig) -> Seq<(Seq<char>, Vec<String>)> {
    match c.roles {
        Some(m) => m@,
        None => Seq::empty(),
    }
}

/// The roles, in key order, whose own tools include `tool` (or `*`).
pub open spec fn granting_roles(rs: Seq<(Seq<char>, Vec<String>)>, tool: Seq<char>) -> Seq<Seq<char>>
    decreases rs.len(),
{
    if rs.len() == 0 {
        Seq::empty()
    } else if strings_of(rs[0].1@).contains(tool) || strings_of(rs[0].1@).contains("*"@) {
        seq![rs[0].0] + granting_roles(rs.drop_first(), tool)
    } else {
        granting_roles(rs.drop_first(), tool)
    }
}

/// The membership tests of the roles `roles`.
pub open spec fn member_tests(ns: Seq<char>, roles: Seq<Seq<char>>) -> Seq<Seq<char>> {
    roles.map_values(|r: Seq<char>| "principal in "@ + spec_role_ref(ns, r))
}

/// The `forbid` that keeps consent from adding access: the action clause
/// `ac` is denied to every principal outside the roles that grant the tool
/// (to every principal when none does).
pub open spec fn consent_guard(ns: Seq<char>, ac: Seq<char>, granting: Seq<Seq<char>>) -> Seq<char> {
    if granting.len() == 0 {
        "forbid(\n  principal,\n  "@ + ac + ",\n  resource\n);"@
    } else {
        "forbid(\n  principal,\n  "@ + ac + ",\n  resource\n) unless { "@ + join(
            member_tests(ns, granting),
            " || "@,
        ) + " };"@
    }
}

/// The consent policies of one tool: one `permit` for every principal (for
/// `*`), else one per role named, each once the user has consented; and,
/// when there is any, the guard that denies the tool to principals in no
/// role of `rs` that grants it, so that consent never adds access.
pub open spec fn consent_entry_policies(
    ns: Seq<char>,
    tool: Seq<char>,
    scope: ConsentScope,
    rs: Seq<(Seq<char>, Vec<String>)>,
) -> Seq<Seq<char>> {
    let ac = spec_action_ref(ns, tool);
    let roles = spec_consent_roles(scope);
    if roles.len() == 0 {
        Seq::empty()
    } else if roles.contains("*"@) {
        seq![consent_policy("principal"@, ac), consent_guard(ns, ac, granting_roles(rs, tool))]
    } else {
        roles.map_values(
            |r: Seq<char>| consent_policy("principal in "@ + spec_role_ref(ns, r), ac),
        ).push(consent_guard(ns, ac, granting_roles(rs, tool)))
    }
}

/// The consent policies, in key order.
pub open spec fn consent_policies(
    ns: Seq<char>,
    cs: Seq<(Seq<char>, ConsentScope)>,
    rs: Seq<(Seq<char>, Vec<String>)>,
) -> Seq<Seq<char>>
    decreases cs.len(),
{
    if cs.len() == 0 {
        Seq::empty()
    } else {
        consent_entry_policies(ns, cs[0].0, cs[0].1, rs) + consent_policies(ns, cs.drop_first(), rs)
    }
}

/// The consent policies of a configuration.
pub open spec fn spec_consent_policies(c: CedarAgentConfig) -> Seq<Seq<char>> {
    consent_policies(c.namespace@, consent_entries(c), role_entries(c))
}

/// The membership tests of the roles of `config` that grant `tool`.
fn granting_tests(config: &CedarAgentConfig, ns: &str, tool: &str) -> (r: Vec<String>)
    requires
        ns@ == config.namespace@,
    ensures
        strings_of(r@) == member_tests(ns@, granting_roles(role_entries(*config), tool@)),
{
    let mut out: Vec<String> = Vec::new();
    let roles = match &config.roles {
        Some(m) => m,
        None => {
            assert(strings_of(out@) =~= member_tests(ns@, Seq::<Seq<char>>::empty()));
            return out;
        },
    };
    let ghost rs = roles@;
    let mut i: usize = 0;
    assert(rs.skip(0) =~= rs);
    assert(strings_of(out@) + member_tests(ns@, granting_roles(rs, tool@)) =~= member_tests(
        ns@,
        granting_roles(rs, tool@),
    ));
    while i < roles.len()
        invariant
            0 <= i <= rs.len(),
            rs == roles@,
            member_tests(ns@, granting_roles(rs, tool@)) == strings_of(out@) + member_tests(
                ns@,
                granting_roles(rs.skip(i as int), tool@),
            ),
        decreases rs.len() - i,
    {
        let (role, tools) = roles.entry(i);
        let ghost rest = rs.skip(i as int);
        proof {
            assert(rest[0] == rs[i as int]);
            assert(rest.drop_first() =~= rs.skip(i + 1));
        }
        if has_text(tools, tool) || has_text(tools, "*") {
            let mut t = "principal in ".to_string();
            t.append(role_ref(ns, role.as_str()).as_str());
            proof {
                let g = granting_roles(rs.skip(i + 1), tool@);
                assert(granting_roles(rest, tool@) == seq![role@] + g);
                assert(member_tests(ns@, seq![role@] + g) =~= seq![t@] + member_tests(ns@, g));
                crate::text::lemma_strings_of_push(out@, t);
                assert(strings_of(out@) + (seq![t@] + member_tests(ns@, g)) =~= strings_of(out@).push(t@)
                    + member_tests(ns@, g));
            }
            out.push(t);
        }
        i = i + 1;
    }
    assert(rs.skip(i as int) =~= Seq::<(Seq<char>, Vec<String>)>::empty());
    assert(strings_of(out@) + member_tests(ns@, Seq::<Seq<char>>::empty()) =~= strings_of(out@));
    out
}

/// The guard of the consent policies of `tool` (see `consent_guard`).
fn consent_forbid(config: &CedarAgentConfig, ns: &str, tool: &str, ac: &str) -> (r: String)
    requires
        ns@ == config.namespace@,
    ensures
        r@ == consent_guard(ns@, ac@, granting_roles(role_entries(*config), tool@)),
{
    let tests = granting_tests(config, ns, tool);
    let mut p = "forbid(\n  principal,\n  ".to_string();
    p.append(ac);
    if tests.len() == 0 {
        p.append(",\n  resource\n);");
    } else {
        p.append(",\n  resource\n) unless { ");
        p.append(join_strings(&tests, " || ").as_str());
        p.append(" };");
    }
    p
}

/// The consent `permit` for the principals `pr` and the action clause `ac`.
fn consent_permit(pr: &str, ac: &str) -> (r: String)
    ensures
        r@ == consent_policy(pr@, ac@),
{
    let mut p = "permit(\n  ".to_string();
    p.append(pr);
    p.append(",\n  ");
    p.append(ac);
    p.append(",\n  resource\n) when { context.session has \"user_consent\" && context.session.user_consent == true };");
    p
}

/// The consent policies of one tool.
fn consent_entry(config: &CedarAgentConfig, ns: &str, tool: &str, scope: &ConsentScope) -> (r: Vec<String>)
    requires
        ns@ == config.namespace@,
    ensures
        strings_of(r@) == consent_entry_policies(ns@, tool@, *scope, role_entries(*config)),
{
    let action_clause = action_ref(ns, tool);
    let roles = normalize_consent_roles(scope);
    let mut policies: Vec<String> = Vec::new();
    if roles.len() == 0 {
        assert(strings_of(policies@) =~= Seq::<Seq<char>>::empty());
        return policies;
    }
    if has_str(&roles, "*") {
        let p = consent_permit("principal", action_clause.as_str());
        let g = consent_forbid(config, ns, tool, action_clause.as_str());
        policies.push(p);
        policies.push(g);
        assert(strings_of(policies@) =~= seq![p@, g@]);
    } else {
        let ghost rs = strs_of(roles@);
        let ghost all = rs.map_values(
            |r: Seq<char>| consent_policy("principal in "@ + spec_role_ref(ns@, r), action_clause@),
        );
        let mut i: usize = 0;
        while i < roles.len()
            invariant
                0 <= i <= roles@.len(),
                rs == strs_of(roles@),
                all == rs.map_values(
                    |r: Seq<char>|
                        consent_policy("principal in "@ + spec_role_ref(ns@, r), action_clause@),
                ),
                strings_of(policies@) == all.take(i as int),
            decreases roles@.len() - i,
        {
            let mut pr = "principal in ".to_string();
            pr.append(role_ref(ns, roles[i]).as_str());
            let p = consent_permit(pr.as_str(), action_clause.as_str());
            proof {
                crate::text::lemma_strings_of_push(policies@, p);
                assert(all.take(i + 1) =~= all.take(i as int).push(p@));
            }
            policies.push(p);
            i = i + 1;
        }
        assert(all.take(all.len() as int) =~= all);
        let g = consent_forbid(config, ns, tool, action_clause.as_str());
        proof {
            crate::text::lemma_strings_of_push(policies@, g);
        }
        policies.push(g);
    }
    policies
}

/// The consent policies: per tool, in key order, a `permit` that holds once
/// the user has consented, for every principal or for each role named,
/// and the guard that denies the tool outside the roles that grant it.
pub fn generate_consent_policies(config: &CedarAgentConfig) -> (r: Vec<String>)
    ensures
        strings_of(r@) == spec_consent_policies(*config),
{
    let mut policies: Vec<String> = Vec::new();
    let consent = match &config.consent {
        Some(c) => c,
        None => {
            assert(strings_of(policies@) =~= Seq::<Seq<char>>::empty());
            return policies;
        },
    };
    let ns = config.namespace.as_str();
    let ghost cs = consent@;
    assert(cs.skip(0) =~= cs);
    assert(strings_of(policies@) + consent_policies(ns@, cs, role_entries(*config)) =~= consent_policies(ns@, cs, role_entries(*config)));
    let mut i: usize = 0;
    while i < consent.len()
        invariant
            0 <= i <= cs.len(),
            cs == consent@,
            ns@ == config.namespace@,
            consent_policies(ns@, cs, role_entries(*config)) == strings_of(policies@) + consent_policies(
                ns@,
                cs.skip(i as int),
                role_entries(*config),
            ),
        decreases cs.len() - i,
    {
        let (tool, scope) = consent.entry(i);
        proof {
            assert(cs.skip(i as int)[0] == cs[i as int]);
            assert(cs.skip(i as int).drop_first() =~= cs.skip(i + 1));
        }
        let mut entry = consent_entry(config, ns, tool.as_str(), scope);
        let ghost before = policies@;
        let ghost added = entry@;
        policies.append(&mut entry);
        proof {
            crate::text::lemma_strings_of_add(before, added);
            assert(strings_of(before) + (strings_of(added) + consent_policies(ns@, cs.skip(i + 1), role_entries(*config)))
                =~= strings_of(policies@) + consent_policies(ns@, cs.skip(i + 1), role_entries(*config)));
        }
        i = i + 1;
    }
    assert(cs.skip(i as int) =~= Seq::<(Seq<char>, ConsentScope)>::empty());
    assert(strings_of(policies@) + Seq::<Seq<char>>::empty() =~= strings_of(policies@));
    policies
}

// ---------------------------------------------------------------------------
// All policies.
// ---------------------------------------------------------------------------
/// Every policy of a configuration: role grants, restrictions, rate limits,
/// time windows, environment denials and consent, in that order.
pub open spec fn all_policies(c: CedarAgentConfig) -> Seq<Seq<char>> {
    spec_role_policies(c) + spec_restriction_policies(c) + spec_rate_limit_policies(c)
        + spec_time_window_policies(c) + spec_env_denial_policies(c) + spec_consent_policies(c)
}

/// The policy text of a configuration: every policy, separated by a blank
/// line.
pub open spec fn spec_policies_text(c: CedarAgentConfig) -> Seq<char> {
    join(all_policies(c), "\n\n"@)
}

/// The Cedar policy text of a configuration.
pub fn generate_policies(config: &CedarAgentConfig) -> (r: String)
    ensures
        r@ == spec_policies_text(*config),
{
    let mut all: Vec<String> = Vec::new();
    let mut v = generate_role_policies(config);
    all.append(&mut v);
    let mut v = generate_restriction_policies(config);
    let ghost b = all@;
    let ghost a = v@;
    all.append(&mut v);
    proof {
        crate::text::lemma_strings_of_add(b, a);
    }
    let mut v = generate_rate_limit_policies(config);
    let ghost b = all@;
    let ghost a = v@;
    all.append(&mut v);
    proof {
        crate::text::lemma_strings_of_add(b, a);
    }
    let mut v = generate_time_window_policies(config);
    let ghost b = all@;
    let ghost a = v@;
    all.append(&mut v);
    proof {
        crate::text::lemma_strings_of_add(b, a);
    }
    let mut v = generate_env_denial_policies(config);
    let ghost b = all@;
    let ghost a = v@;
    all.append(&mut v);
    proof {
        crate::text::lemma_strings_of_add(b, a);
    }
    let mut v = generate_consent_policies(config);
    let ghost b = all@;
    let ghost a = v@;
    all.append(&mut v);
    proof {
        crate::text::lemma_strings_of_add(b, a);
    }
    join_strings(&all, "\n\n")
}

// ---------------------------------------------------------------------------
// The policies, written out.
// ---------------------------------------------------------------------------
/// The action clause of the tool `t` of namespace `ns`, written out.
pub open spec fn action_clause_text(ns: Seq<char>, t: Seq<char>) -> Seq<char> {
    "action == "@ + ns + "::Action::\""@ + escaped_id(t) + "\""@
}

/// A role's plain permit for a tool lets the members of the role call
/// exactly that tool's action on any resource.
pub proof fn lemma_tool_permit_text(ns: Seq<char>, rr: Seq<char>, t: Seq<char>)
    ensures
        tool_permit(ns, rr, t) == "permit(principal in "@ + rr + ", "@ + action_clause_text(ns, t) + ", resource);"@,
{
}

/// A restriction with fields is one `forbid` per field, in order: the
/// `k`-th denies the tool unless the input has the `k`-th field and it
/// equals one of that field's allowed values; a restriction without
/// fields denies the tool outright.
pub proof fn lemma_restriction_policies_text(ns: Seq<char>, tool: Seq<char>, fs: Seq<(Seq<char>, Vec<AllowedValue>)>)
    ensures
        fs.len() == 0 ==> restriction_entry_policies(ns, tool, fs) == seq![
            "forbid(\n  principal,\n  "@ + action_clause_text(ns, tool) + ",\n  resource\n);"@,
        ],
        fs.len() > 0 ==> restriction_entry_policies(ns, tool, fs).len() == fs.len(),
        forall|k: int|
            0 <= k < fs.len() ==> #[trigger] restriction_entry_policies(ns, tool, fs)[k] == "forbid(\n  principal,\n  "@
                + action_clause_text(ns, tool) + ",\n  resource\n) when {\n  !(context.input has \""@
                + escaped_id(fs[k].0) + "\" && ("@ + join(
                Seq::new(
                    fs[k].1@.len(),
                    |j: int| "context.input[\""@ + escaped_id(fs[k].0) + "\"] == "@ + cedar_value_text(fs[k].1@[j]),
                ),
                " || "@,
            ) + "))\n};"@,
{
    assert forall|k: int| 0 <= k < fs.len() implies #[trigger] restriction_entry_policies(ns, tool, fs)[k] == "forbid(\n  principal,\n  "@
        + action_clause_text(ns, tool) + ",\n  resource\n) when {\n  !(context.input has \""@
        + escaped_id(fs[k].0) + "\" && ("@ + join(
        Seq::new(
            fs[k].1@.len(),
            |j: int| "context.input[\""@ + escaped_id(fs[k].0) + "\"] == "@ + cedar_value_text(fs[k].1@[j]),
        ),
        " || "@,
    ) + "))\n};"@ by {
        assert(value_checks(fs[k].0, fs[k].1@) =~= Seq::new(
            fs[k].1@.len(),
            |j: int| "context.input[\""@ + escaped_id(fs[k].0) + "\"] == "@ + cedar_value_text(fs[k].1@[j]),
        ));
    }
}

/// An allowed value is written as Cedar reads it: a string quoted and
/// escaped, a number as it is, a boolean as `true` or `false`, any other
/// JSON value as its quoted, escaped text.
pub proof fn lemma_cedar_value_text(s: String, b: bool)
    ensures
        cedar_value_text(AllowedValue::Str(s)) == "\""@ + escaped_id(s@) + "\""@,
        cedar_value_text(AllowedValue::Number(s)) == s@,
        cedar_value_text(AllowedValue::Bool(b)) == if b { "true"@ } else { "false"@ },
        cedar_value_text(AllowedValue::Other(s)) == "\""@ + escaped_id(s@) + "\""@,
{
}

/// The rate limits are one `forbid` per entry, in key order: the entry of
/// a tool stops that tool once its own counter `call_count_<tool>` reaches
/// the limit; the entry `*` stops every action once the shared counter
/// `call_count` does.
pub proof fn lemma_rate_limit_policies_text(c: CedarAgentConfig)
    ensures
        c.rate_limits is None ==> spec_rate_limit_policies(c).len() == 0,
        c.rate_limits matches Some(m) ==> spec_rate_limit_policies(c).len() == m@.len() && forall|k: int|
            0 <= k < m@.len() ==> #[trigger] spec_rate_limit_policies(c)[k] == if m@[k].0 == "*"@ {
                "forbid(\n  principal,\n  action,\n  resource\n) when { context.session has \"call_count\" && context.session.call_count >= "@
                    + decimal(m@[k].1 as nat) + " };"@
            } else {
                "forbid(\n  principal,\n  "@ + action_clause_text(c.namespace@, m@[k].0)
                    + ",\n  resource\n) when { context.session has \""@ + ("call_count_"@ + spec_sanitize(m@[k].0))
                    + "\" && context.session."@ + ("call_count_"@ + spec_sanitize(m@[k].0)) + " >= "@ + decimal(
                    m@[k].1 as nat,
                ) + " };"@
            },
{
}

/// The time windows are one `forbid` per entry, in key order: the entry of
/// a tool (or `*`, every action) denies it when the session's hour is
/// before the window's start or at or after its end.
pub proof fn lemma_time_window_policies_text(c: CedarAgentConfig)
    ensures
        c.time_windows is None ==> spec_time_window_policies(c).len() == 0,
        c.time_windows matches Some(m) ==> spec_time_window_policies(c).len() == m@.len() && forall|k: int|
            0 <= k < m@.len() ==> #[trigger] spec_time_window_policies(c)[k] == "forbid(\n  principal,\n  "@ + (if m@[k].0
                == "*"@ {
                "action"@
            } else {
                action_clause_text(c.namespace@, m@[k].0)
            }) + ",\n  resource\n) when { context.session has \"hour_utc\" && (context.session.hour_utc < "@
                + decimal(m@[k].1.hour_start as nat) + " || context.session.hour_utc >= "@ + decimal(
                m@[k].1.hour_end as nat,
            ) + ") };"@,
{
}

/// The consent policies of a tool: none when consent is off; with consent
/// for every role, one `permit` for any principal once the user consented
/// and the guard; with consent for listed roles (none of them `*`), one
/// such `permit` per listed role, in order, then the guard. The guard
/// denies the tool to every principal in no role that grants it.
pub proof fn lemma_consent_policies_text(ns: Seq<char>, tool: Seq<char>, scope: ConsentScope, rs: Seq<(Seq<char>, Vec<String>)>)
    ensures
        scope == ConsentScope::AllRoles(false) ==> consent_entry_policies(ns, tool, scope, rs).len() == 0,
        scope == ConsentScope::AllRoles(true) ==> consent_entry_policies(ns, tool, scope, rs) == seq![
            "permit(\n  "@ + "principal"@ + ",\n  "@ + action_clause_text(ns, tool)
                + ",\n  resource\n) when { context.session has \"user_consent\" && context.session.user_consent == true };"@,
            consent_guard(ns, action_clause_text(ns, tool), granting_roles(rs, tool)),
        ],
        match scope {
            ConsentScope::SpecificRoles(roles) => (strings_of(roles@).len() > 0 && !strings_of(roles@).contains("*"@))
                ==> {
                let ps = consent_entry_policies(ns, tool, scope, rs);
                &&& ps.len() == roles@.len() + 1
                &&& forall|k: int|
                    0 <= k < roles@.len() ==> #[trigger] ps[k] == "permit(\n  "@ + ("principal in "@ + (ns + "::Role::\""@
                        + escaped_id(roles@[k]@) + "\""@)) + ",\n  "@ + action_clause_text(ns, tool)
                        + ",\n  resource\n) when { context.session has \"user_consent\" && context.session.user_consent == true };"@
                &&& ps[roles@.len() as int] == consent_guard(ns, action_clause_text(ns, tool), granting_roles(rs, tool))
            },
            _ => true,
        },
{
    match scope {
        ConsentScope::SpecificRoles(roles) => {
            let rv = strings_of(roles@);
            assert forall|k: int| 0 <= k < rv.len() implies #[trigger] rv[k] == roles@[k]@ by {}
        },
        ConsentScope::AllRoles(true) => {
            assert(seq!["*"@][0] == "*"@);
            assert(seq!["*"@].contains("*"@));
        },
        _ => {},
    }
}

/// The guard of a tool under consent, written out: with roles that grant
/// the tool, it denies the tool unless the principal is in one of them;
/// with none, it denies the tool outright.
pub proof fn lemma_consent_guard_text(ns: Seq<char>, ac: Seq<char>, granting: Seq<Seq<char>>)
    ensures
        granting.len() == 0 ==> consent_guard(ns, ac, granting) == "forbid(\n  principal,\n  "@ + ac + ",\n  resource\n);"@,
        granting.len() > 0 ==> consent_guard(ns, ac, granting) == "forbid(\n  principal,\n  "@ + ac
            + ",\n  resource\n) unless { "@ + join(
            Seq::new(granting.len(), |i: int| "principal in "@ + (ns + "::Role::\""@ + escaped_id(granting[i]) + "\""@)),
            " || "@,
        ) + " };"@,
{
    assert(member_tests(ns, granting) =~= Seq::new(
        granting.len(),
        |i: int| "principal in "@ + (ns + "::Role::\""@ + escaped_id(granting[i]) + "\""@),
    ));
}

} // verus!
