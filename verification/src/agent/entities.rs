//! The Cedar entities of an agent configuration: its roles, its users (each
//! a member of its roles), and the resource.

use crate::agent::config::CedarAgentConfig;
use crate::strmap::StrMap;
use crate::text::strings_of;
use vstd::prelude::*;
use vstd::string::StringExecFns;

verus! {

/// The type and id of an entity.
#[derive(Clone, Debug, PartialEq, Eq)]
pub struct EntityUid {
    pub entity_type: String,
    pub id: String,
}

/// An entity in Cedar's JSON entity format. Attribute values are kept as
/// JSON text.
#[derive(Clone, Debug)]
pub struct EntityJson {
    pub uid: EntityUid,
    pub attrs: StrMap<String>,
    pub parents: Vec<EntityUid>,
}

/// The texts of an entity's type and id.
pub open spec fn uid_view(u: EntityUid) -> (Seq<char>, Seq<char>) {
    (u.entity_type@, u.id@)
}

/// The texts of the uids of a list.
pub open spec fn uids_view(s: Seq<EntityUid>) -> Seq<(Seq<char>, Seq<char>)> {
    s.map_values(|u: EntityUid| uid_view(u))
}

/// An entity: its uid, the number of its attributes, and its parents.
pub open spec fn entity_view(e: EntityJson) -> ((Seq<char>, Seq<char>), nat, Seq<(Seq<char>, Seq<char>)>) {
    (uid_view(e.uid), e.attrs@.len(), uids_view(e.parents@))
}

/// The views of a list of entities.
pub open spec fn entities_view(s: Seq<EntityJson>) -> Seq<
    ((Seq<char>, Seq<char>), nat, Seq<(Seq<char>, Seq<char>)>),
> {
    s.map_values(|e: EntityJson| entity_view(e))
}

/// The role entity type of namespace `ns`.
pub open spec fn role_type(ns: Seq<char>) -> Seq<char> {
    ns + "::Role"@
}

/// The uids of the roles named.
pub open spec fn role_uids(ns: Seq<char>, roles: Seq<Seq<char>>) -> Seq<(Seq<char>, Seq<char>)> {
    roles.map_values(|r: Seq<char>| (role_type(ns), r))
}

/// One entity per role, in key order, without attributes or parents.
pub open spec fn role_entities(ns: Seq<char>, rs: Seq<(Seq<char>, Vec<String>)>) -> Seq<
    ((Seq<char>, Seq<char>), nat, Seq<(Seq<char>, Seq<char>)>),
> {
    rs.map_values(
        |e: (Seq<char>, Vec<String>)| ((role_type(ns), e.0), 0nat, Seq::<(Seq<char>, Seq<char>)>::empty()),
    )
}

/// One entity per user, in key order, of type `ns::pt`, whose parents are
/// its roles.
pub open spec fn user_entities(ns: Seq<char>, pt: Seq<char>, us: Seq<(Seq<char>, Vec<String>)>) -> Seq<
    ((Seq<char>, Seq<char>), nat, Seq<(Seq<char>, Seq<char>)>),
> {
    us.map_values(
        |e: (Seq<char>, Vec<String>)|
            ((ns + "::"@ + pt, e.0), 0nat, role_uids(ns, strings_of(e.1@))),
    )
}

/// The resource entity: `ns::Resource::"default"` unless configured.
pub open spec fn resource_entity(c: CedarAgentConfig) -> (
    (Seq<char>, Seq<char>),
    nat,
    Seq<(Seq<char>, Seq<char>)>,
) {
    let (rt, rid) = match c.resource {
        Some(r) => (r.resource_type@, r.id@),
        None => ("Resource"@, "default"@),
    };
    ((c.namespace@ + "::"@ + rt, rid), 0nat, Seq::empty())
}

/// The entities of a configuration: roles, then users, then the resource.
pub open spec fn spec_entities(c: CedarAgentConfig) -> Seq<
    ((Seq<char>, Seq<char>), nat, Seq<(Seq<char>, Seq<char>)>),
> {
    let roles = match c.roles {
        Some(m) => role_entities(c.namespace@, m@),
        None => Seq::empty(),
    };
    let users = match c.users {
        Some(m) => user_entities(c.namespace@, c.principal.principal_type@, m@),
        None => Seq::empty(),
    };
    roles + users + seq![resource_entity(c)]
}

/// Each user of a configuration gets an entity of the principal type,
/// without attributes, whose parents are the entities of its roles.
pub proof fn lemma_users_are_members_of_their_roles(c: CedarAgentConfig, i: int)
    requires
        c.users is Some,
        0 <= i < c.users->Some_0@.len(),
    ensures
        spec_entities(c).contains(
            (
                (c.namespace@ + "::"@ + c.principal.principal_type@, c.users->Some_0@[i].0),
                0nat,
                role_uids(c.namespace@, strings_of(c.users->Some_0@[i].1@)),
            ),
        ),
{
    let roles = match c.roles {
        Some(m) => role_entities(c.namespace@, m@),
        None => Seq::empty(),
    };
    let users = user_entities(c.namespace@, c.principal.principal_type@, c.users->Some_0@);
    let all = spec_entities(c);
    assert(all == roles + users + seq![resource_entity(c)]);
    assert(all[roles.len() + i] == users[i]);
}

/// An entity without attributes or parents.
fn plain_entity(entity_type: String, id: String) -> (r: EntityJson)
    ensures
        entity_view(r) == ((entity_type@, id@), 0nat, Seq::<(Seq<char>, Seq<char>)>::empty()),
{
    let parents: Vec<EntityUid> = Vec::new();
    let r = EntityJson { uid: EntityUid { entity_type, id }, attrs: StrMap::new(), parents };
    assert(uids_view(r.parents@) =~= Seq::<(Seq<char>, Seq<char>)>::empty());
    r
}

/// The entities of a configuration: one per role, one per user (a member of
/// its roles), and the resource.
pub fn generate_entities(config: &CedarAgentConfig) -> (r: Vec<EntityJson>)
    ensures
        entities_view(r@) == spec_entities(*config),
{
    let mut entities: Vec<EntityJson> = Vec::new();
    let ns = config.namespace.as_str();
    let mut role_ty = ns.to_string();
    role_ty.append("::Role");
    let ghost roles = match &config.roles {
        Some(m) => role_entities(ns@, m@),
        None => Seq::empty(),
    };
    if let Some(rs) = &config.roles {
        let mut i: usize = 0;
        while i < rs.len()
            invariant
                0 <= i <= rs@.len(),
                role_ty@ == role_type(ns@),
                roles == role_entities(ns@, rs@),
                entities_view(entities@) == roles.take(i as int),
            decreases rs@.len() - i,
        {
            let (role_name, _tools) = rs.entry(i);
            let e = plain_entity(role_ty.clone(), role_name.clone());
            proof {
                assert(entities_view(entities@.push(e)) =~= entities_view(entities@).push(
                    entity_view(e),
                ));
                assert(roles.take(i + 1) =~= roles.take(i as int).push(entity_view(e)));
            }
            entities.push(e);
            i = i + 1;
        }
        assert(roles.take(rs@.len() as int) =~= roles);
    } else {
        assert(entities_view(entities@) =~= roles);
    }
    let ghost users = match &config.users {
        Some(m) => user_entities(ns@, config.principal.principal_type@, m@),
        None => Seq::empty(),
    };
    if let Some(us) = &config.users {
        let mut user_ty = ns.to_string();
        user_ty.append("::");
        user_ty.append(config.principal.principal_type.as_str());
        let ghost start = entities_view(entities@);
        let mut i: usize = 0;
        assert(start + users.take(0) =~= start);
        while i < us.len()
            invariant
                0 <= i <= us@.len(),
                role_ty@ == role_type(ns@),
                user_ty@ == ns@ + "::"@ + config.principal.principal_type@,
                users == user_entities(ns@, config.principal.principal_type@, us@),
                entities_view(entities@) == start + users.take(i as int),
            decreases us@.len() - i,
        {
            let (user_id, user_roles) = us.entry(i);
            let mut parents: Vec<EntityUid> = Vec::new();
            let mut j: usize = 0;
            while j < user_roles.len()
                invariant
                    0 <= j <= user_roles@.len(),
                    role_ty@ == role_type(ns@),
                    uids_view(parents@) == role_uids(ns@, strings_of(user_roles@)).take(j as int),
                decreases user_roles@.len() - j,
            {
                let u = EntityUid { entity_type: role_ty.clone(), id: user_roles[j].clone() };
                proof {
                    assert(uids_view(parents@.push(u)) =~= uids_view(parents@).push(uid_view(u)));
                    assert(role_uids(ns@, strings_of(user_roles@)).take(j + 1) =~= role_uids(
                        ns@,
                        strings_of(user_roles@),
                    ).take(j as int).push(uid_view(u)));
                }
                parents.push(u);
                j = j + 1;
            }
            assert(role_uids(ns@, strings_of(user_roles@)).take(user_roles@.len() as int)
                =~= role_uids(ns@, strings_of(user_roles@)));
            let e = EntityJson {
                uid: EntityUid { entity_type: user_ty.clone(), id: user_id.clone() },
                attrs: StrMap::new(),
                parents,
            };
            proof {
                assert(entities_view(entities@.push(e)) =~= entities_view(entities@).push(
                    entity_view(e),
                ));
                assert(users.take(i + 1) =~= users.take(i as int).push(entity_view(e)));
                assert(start + users.take(i + 1) =~= (start + users.take(i as int)).push(
                    entity_view(e),
                ));
            }
            entities.push(e);
            i = i + 1;
        }
        assert(users.take(us@.len() as int) =~= users);
    } else {
        assert(entities_view(entities@) + users =~= entities_view(entities@));
    }
    let (resource_type, resource_id) = match &config.resource {
        Some(r) => (r.resource_type.as_str(), r.id.as_str()),
        None => ("Resource", "default"),
    };
    let mut ty = ns.to_string();
    ty.append("::");
    ty.append(resource_type);
    let e = plain_entity(ty, resource_id.to_string());
    proof {
        assert(entities_view(entities@.push(e)) =~= entities_view(entities@).push(entity_view(e)));
    }
    entities.push(e);
    entities
}

} // verus!
