use warikan::entities::AuthState;
use warikan::entities::Claims;
use warikan::entities::GroupID;
use warikan::entities::UserID;
use warikan::repositories::Store;
use warikan::usecases::AmountInput;
use warikan::usecases::CreateGroupInput;
use warikan::usecases::CreatePaymentInput;
use warikan::usecases::CreateUserInput;
use warikan::usecases::DeleteGroupInput;
use warikan::usecases::DeleteUserInput;
use warikan::usecases::UpdateGroupInput;
use warikan::usecases::UpdatePaymentInput;
use warikan::usecases::UpdateUserInput;
use warikan::usecases::UseCase;
use warikan::usecases::UseCaseError;

fn authed(sub: &str) -> AuthState {
    AuthState::Authorized(Claims {
        iss: "https://issuer.example/".to_string(),
        sub: sub.to_string(),
        aud: vec!["warikan".to_string()],
        iat: 1,
        exp: 2,
        azp: "azp".to_string(),
        scope: "openid".to_string(),
    })
}

#[test]
fn scenario_shared_trip() {
    let mut uc = UseCase::new(Store::new());
    let alice = authed("alice");
    let bob = authed("bob");

    // everyone registers themselves
    let created = uc.create_user(&alice, CreateUserInput { name: "Alice".to_string() }).unwrap();
    assert_eq!(created.id, UserID::new("alice"));
    uc.create_user(&bob, CreateUserInput { name: "Bob".to_string() }).unwrap();

    // alice renames herself
    let renamed = uc.update_user(
        &alice,
        UpdateUserInput { id: UserID::new("alice"), name: Some("Alicia".to_string()) },
    ).unwrap();
    assert_eq!(renamed.name, "Alicia");

    // alice opens a group and invites bob
    let group = uc.create_group(&alice, CreateGroupInput { title: "trip".to_string() }).unwrap();
    let gid = group.id.0.clone();
    uc.update_group(
        &alice,
        UpdateGroupInput {
            id: GroupID::new(&gid),
            title: None,
            participants: Some(vec![UserID::new("alice"), UserID::new("bob")]),
        },
    ).unwrap();

    // bob, now a participant, may read the group; carol may not
    assert!(uc.get_group(&bob, &GroupID::new(&gid)).is_ok());
    assert!(matches!(
        uc.get_group(&authed("carol"), &GroupID::new(&gid)),
        Err(UseCaseError::Forbidden)
    ));

    // alice paid 80 for dinner, split evenly
    let dinner = uc.create_payment(
        &bob,
        CreatePaymentInput { title: "dinner".to_string(), group: GroupID::new(&gid) },
    ).unwrap();
    uc.update_payment(
        &bob,
        UpdatePaymentInput {
            id: dinner.id,
            title: None,
            creditors: Some(vec![AmountInput { user: UserID::new("alice"), amount: 80 }]),
            debtors: Some(vec![
                AmountInput { user: UserID::new("alice"), amount: 40 },
                AmountInput { user: UserID::new("bob"), amount: 40 },
            ]),
        },
    ).unwrap();

    // bob paid 20 for the bus, split evenly
    let bus = uc.create_payment(
        &alice,
        CreatePaymentInput { title: "bus".to_string(), group: GroupID::new(&gid) },
    ).unwrap();
    uc.update_payment(
        &alice,
        UpdatePaymentInput {
            id: bus.id,
            title: None,
            creditors: Some(vec![AmountInput { user: UserID::new("bob"), amount: 20 }]),
            debtors: Some(vec![
                AmountInput { user: UserID::new("alice"), amount: 10 },
                AmountInput { user: UserID::new("bob"), amount: 10 },
            ]),
        },
    ).unwrap();

    // net balances: alice +30, bob -30
    let transfers = uc.warikan_by_group(&bob, &GroupID::new(&gid)).unwrap();
    assert_eq!(transfers.len(), 1);
    assert_eq!(transfers[0].from, UserID::new("bob"));
    assert_eq!(transfers[0].to, UserID::new("alice"));
    assert_eq!(transfers[0].amount, 30);

    // the trip ends: the group and everything scoped to it go away
    uc.delete_group(&alice, DeleteGroupInput { id: GroupID::new(&gid) }).unwrap();
    assert!(matches!(
        uc.get_group(&alice, &GroupID::new(&gid)),
        Err(UseCaseError::NotFound)
    ));
    assert!(uc.get_payments_by_group(&alice, &GroupID::new(&gid)).is_err());

    // and bob closes his account
    uc.delete_user(&bob, DeleteUserInput { id: UserID::new("bob") }).unwrap();
    assert!(uc.get_user_opt(&alice, &UserID::new("bob")).unwrap().is_none());
}
