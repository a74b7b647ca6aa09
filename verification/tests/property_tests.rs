//! Scenario and boundary tests: the literal end-to-end scenarios of the
//! document/folder policy, the boundary cases of the rewrite combinators, and
//! the error variants.

use simple_zanzibar::error::ZanzibarError;
use simple_zanzibar::model::{
    ExpandedUserset, NamespaceConfig, Object, Relation, RelationConfig, RelationTuple, User,
    UsersetExpression,
};
use simple_zanzibar::ZanzibarService;

const POLICY: &str = r#"
    namespace doc {
        relation owner {}
        relation parent {}
        relation viewer {
            rewrite union(
                this,
                computed_userset(relation: "owner"),
                tuple_to_userset(tupleset: "parent", computed_userset: "viewer")
            )
        }
        relation editor { rewrite this }
    }
    namespace folder {
        relation viewer {}
    }
"#;

fn obj(ns: &str, id: &str) -> Object {
    Object {
        namespace: ns.to_string(),
        id: id.to_string(),
    }
}

fn rel(name: &str) -> Relation {
    Relation(name.to_string())
}

fn uid(name: &str) -> User {
    User::UserId(name.to_string())
}

fn tuple(o: Object, r: Relation, u: User) -> RelationTuple {
    RelationTuple {
        object: o,
        relation: r,
        user: u,
    }
}

/// Scenario: a direct owner grant makes the owner a viewer through the
/// computed userset, but not an editor.
#[test]
fn scenario_direct_owner() -> Result<(), ZanzibarError> {
    let mut service = ZanzibarService::new();
    service.add_dsl(POLICY)?;
    service.write_tuple(tuple(obj("doc", "1"), rel("owner"), uid("alice")))?;

    assert_eq!(service.check(&obj("doc", "1"), &rel("owner"), &uid("alice"))?, true);
    assert_eq!(service.check(&obj("doc", "1"), &rel("viewer"), &uid("alice"))?, true);
    assert_eq!(service.check(&obj("doc", "1"), &rel("editor"), &uid("alice"))?, false);
    Ok(())
}

/// Scenario: a parent userset tuple lets viewers of the folder view the
/// document, without making them owners.
#[test]
fn scenario_parent_inheritance() -> Result<(), ZanzibarError> {
    let mut service = ZanzibarService::new();
    service.add_dsl(POLICY)?;
    service.write_tuple(tuple(obj("folder", "A"), rel("viewer"), uid("bob")))?;
    service.write_tuple(tuple(
        obj("doc", "1"),
        rel("parent"),
        User::Userset(obj("folder", "A"), rel("viewer")),
    ))?;

    assert_eq!(service.check(&obj("doc", "1"), &rel("viewer"), &uid("bob"))?, true);
    assert_eq!(service.check(&obj("doc", "1"), &rel("owner"), &uid("bob"))?, false);
    Ok(())
}

/// Scenario: an editor grant does not leak into viewer under this policy.
#[test]
fn scenario_editor_grant() -> Result<(), ZanzibarError> {
    let mut service = ZanzibarService::new();
    service.add_dsl(POLICY)?;
    service.write_tuple(tuple(obj("doc", "1"), rel("editor"), uid("charlie")))?;

    assert_eq!(service.check(&obj("doc", "1"), &rel("editor"), &uid("charlie"))?, true);
    assert_eq!(service.check(&obj("doc", "1"), &rel("viewer"), &uid("charlie"))?, false);
    Ok(())
}

/// Scenario: deleting the owner tuple withdraws the derived viewer access.
#[test]
fn scenario_delete_owner() -> Result<(), ZanzibarError> {
    let mut service = ZanzibarService::new();
    service.add_dsl(POLICY)?;
    let t = tuple(obj("doc", "1"), rel("owner"), uid("alice"));
    service.write_tuple(t.clone())?;
    assert_eq!(service.check(&obj("doc", "1"), &rel("viewer"), &uid("alice"))?, true);
    service.delete_tuple(&t)?;
    assert_eq!(service.check(&obj("doc", "1"), &rel("viewer"), &uid("alice"))?, false);
    Ok(())
}

/// Scenario: a self-referential parent chain terminates through the visited
/// set and answers false.
#[test]
fn scenario_cycle_terminates() -> Result<(), ZanzibarError> {
    let mut service = ZanzibarService::new();
    service.add_dsl(POLICY)?;
    service.write_tuple(tuple(
        obj("doc", "X"),
        rel("parent"),
        User::Userset(obj("doc", "X"), rel("viewer")),
    ))?;

    assert_eq!(service.check(&obj("doc", "X"), &rel("viewer"), &uid("anyone"))?, false);
    Ok(())
}

/// Scenario: expanding viewer with the parent-inheritance data gives the
/// union of the direct grants, the owner sub-expand and the parent fan-out.
#[test]
fn scenario_expand_structure() -> Result<(), ZanzibarError> {
    let mut service = ZanzibarService::new();
    service.add_dsl(POLICY)?;
    service.write_tuple(tuple(obj("doc", "1"), rel("owner"), uid("alice")))?;
    service.write_tuple(tuple(obj("folder", "A"), rel("viewer"), uid("bob")))?;
    service.write_tuple(tuple(
        obj("doc", "1"),
        rel("parent"),
        User::Userset(obj("folder", "A"), rel("viewer")),
    ))?;

    let expanded = service.expand(&obj("doc", "1"), &rel("viewer"))?;
    let expected = ExpandedUserset::Union(vec![
        // The direct `this` branch: no direct viewer tuples.
        ExpandedUserset::Union(vec![]),
        // The computed userset of `owner`, expanded as a union.
        ExpandedUserset::Union(vec![ExpandedUserset::User("alice".to_string())]),
        // The tuple-to-userset branch: one parent, expanded one level.
        ExpandedUserset::Union(vec![ExpandedUserset::Union(vec![ExpandedUserset::User(
            "bob".to_string(),
        )])]),
    ]);
    assert_eq!(expanded, expected);
    Ok(())
}

/// An intersection with no operands, constructable only programmatically,
/// holds for everyone.
#[test]
fn empty_intersection_is_true() -> Result<(), ZanzibarError> {
    let mut service = ZanzibarService::new();
    service.add_config(NamespaceConfig {
        name: "thing".to_string(),
        relations: vec![RelationConfig {
            name: rel("anyone"),
            userset_rewrite: Some(UsersetExpression::Intersection(vec![])),
        }],
    });
    assert_eq!(service.check(&obj("thing", "1"), &rel("anyone"), &uid("nobody"))?, true);
    Ok(())
}

/// An exclusion whose base and exclude branches both hold answers false.
#[test]
fn exclusion_both_true_is_false() -> Result<(), ZanzibarError> {
    let mut service = ZanzibarService::new();
    service.add_config(NamespaceConfig {
        name: "d".to_string(),
        relations: vec![RelationConfig {
            name: rel("weird"),
            userset_rewrite: Some(UsersetExpression::Exclusion {
                base: Box::new(UsersetExpression::This),
                exclude: Box::new(UsersetExpression::This),
            }),
        }],
    });
    service.write_tuple(tuple(obj("d", "1"), rel("weird"), uid("eve")))?;
    assert_eq!(service.check(&obj("d", "1"), &rel("weird"), &uid("eve"))?, false);
    Ok(())
}

/// A tuple-to-userset skips stored parent tuples whose user is a plain
/// identifier rather than a userset.
#[test]
fn tuple_to_userset_skips_plain_users() -> Result<(), ZanzibarError> {
    let mut service = ZanzibarService::new();
    service.add_dsl(POLICY)?;
    service.write_tuple(tuple(obj("doc", "1"), rel("parent"), uid("bob")))?;
    assert_eq!(service.check(&obj("doc", "1"), &rel("viewer"), &uid("bob"))?, false);
    Ok(())
}

/// Adding a tuple can flip an exclusion-guarded check from true to false.
#[test]
fn exclusion_is_not_monotonic() -> Result<(), ZanzibarError> {
    let mut service = ZanzibarService::new();
    service.add_config(NamespaceConfig {
        name: "d".to_string(),
        relations: vec![
            RelationConfig {
                name: rel("banned"),
                userset_rewrite: None,
            },
            RelationConfig {
                name: rel("member"),
                userset_rewrite: Some(UsersetExpression::Exclusion {
                    base: Box::new(UsersetExpression::This),
                    exclude: Box::new(UsersetExpression::ComputedUserset {
                        relation: rel("banned"),
                    }),
                }),
            },
        ],
    });
    service.write_tuple(tuple(obj("d", "1"), rel("member"), uid("eve")))?;
    assert_eq!(service.check(&obj("d", "1"), &rel("member"), &uid("eve"))?, true);
    service.write_tuple(tuple(obj("d", "1"), rel("banned"), uid("eve")))?;
    assert_eq!(service.check(&obj("d", "1"), &rel("member"), &uid("eve"))?, false);
    Ok(())
}

/// Adding unrelated or strengthening tuples never withdraws access under a
/// union-only policy.
#[test]
fn union_checks_stay_true_under_addition() -> Result<(), ZanzibarError> {
    let mut service = ZanzibarService::new();
    service.add_dsl(POLICY)?;
    service.write_tuple(tuple(obj("doc", "1"), rel("owner"), uid("alice")))?;
    assert_eq!(service.check(&obj("doc", "1"), &rel("viewer"), &uid("alice"))?, true);
    service.write_tuple(tuple(obj("doc", "1"), rel("viewer"), uid("bob")))?;
    service.write_tuple(tuple(obj("doc", "1"), rel("editor"), uid("carol")))?;
    assert_eq!(service.check(&obj("doc", "1"), &rel("viewer"), &uid("alice"))?, true);
    Ok(())
}

/// A relation absent from a present namespace surfaces as RelationNotFound.
#[test]
fn missing_relation_is_an_error() -> Result<(), ZanzibarError> {
    let mut service = ZanzibarService::new();
    service.add_dsl(POLICY)?;
    let r = service.check(&obj("doc", "1"), &rel("nonexistent"), &uid("alice"));
    assert!(matches!(r, Err(ZanzibarError::RelationNotFound(_, _))));
    Ok(())
}

/// Writing a present tuple and deleting an absent one both fail at the API
/// with a storage error, and leave the dataset as it was.
#[test]
fn duplicate_write_and_absent_delete_error() -> Result<(), ZanzibarError> {
    let mut service = ZanzibarService::new();
    service.add_dsl(POLICY)?;
    let t = tuple(obj("doc", "1"), rel("owner"), uid("alice"));
    service.write_tuple(t.clone())?;
    let dup = service.write_tuple(t.clone());
    assert!(matches!(dup, Err(ZanzibarError::StorageError(_))));
    // The dataset is unchanged: the grant still holds.
    assert_eq!(service.check(&obj("doc", "1"), &rel("owner"), &uid("alice"))?, true);

    let absent = tuple(obj("doc", "2"), rel("owner"), uid("alice"));
    let del = service.delete_tuple(&absent);
    assert!(matches!(del, Err(ZanzibarError::StorageError(_))));
    assert_eq!(service.check(&obj("doc", "1"), &rel("owner"), &uid("alice"))?, true);
    Ok(())
}

/// Loading DSL twice yields the union of the namespaces, with the later text
/// replacing same-named namespaces wholesale.
#[test]
fn add_dsl_twice_replaces_by_name() -> Result<(), ZanzibarError> {
    let mut service = ZanzibarService::new();
    service.add_dsl("namespace a { relation r {} }")?;
    service.write_tuple(tuple(obj("a", "1"), rel("r"), uid("u")))?;
    assert_eq!(service.check(&obj("a", "1"), &rel("r"), &uid("u"))?, true);

    service.add_dsl("namespace a { relation r2 {} } namespace b { relation r {} }")?;
    // Namespace `a` was replaced: its old relation is gone, the new one works.
    let gone = service.check(&obj("a", "1"), &rel("r"), &uid("u"));
    assert!(matches!(gone, Err(ZanzibarError::RelationNotFound(_, _))));
    assert_eq!(service.check(&obj("a", "1"), &rel("r2"), &uid("u"))?, false);
    // Namespace `b` was added.
    assert_eq!(service.check(&obj("b", "1"), &rel("r"), &uid("u"))?, false);
    Ok(())
}

/// A parse error reports the line and column of the offending input.
#[test]
fn parse_error_names_position() {
    let r = simple_zanzibar::parser::parse_dsl("namespace a {\n  relation ! {}\n}");
    match r {
        Err(ZanzibarError::ParseError(msg)) => {
            assert!(msg.contains("line 2"));
        }
        _ => panic!("expected a parse error"),
    }
}
