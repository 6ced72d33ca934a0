use warikan::entities::AuthState;
use warikan::entities::Claims;
use warikan::entities::GroupID;
use warikan::entities::UserID;
use warikan::repositories::FaultPlan;
use warikan::repositories::Store;
use warikan::usecases::CreateGroupInput;
use warikan::usecases::CreateNotificationInput;
use warikan::usecases::CreatePaymentInput;
use warikan::usecases::DeleteGroupInput;
use warikan::usecases::UpdateGroupInput;
use warikan::usecases::UseCase;
use warikan::usecases::UseCaseError;

fn claims(sub: &str) -> Claims {
    Claims {
        iss: "https://issuer.example/".to_string(),
        sub: sub.to_string(),
        aud: vec!["warikan".to_string()],
        iat: 1,
        exp: 2,
        azp: "azp".to_string(),
        scope: "openid".to_string(),
    }
}

fn authed(sub: &str) -> AuthState {
    AuthState::Authorized(claims(sub))
}

fn faulty(set: impl Fn(&mut FaultPlan)) -> UseCase {
    let mut faults = FaultPlan::none();
    set(&mut faults);
    UseCase::new(Store::with_faults(faults))
}

fn service() -> UseCase {
    UseCase::new(Store::new())
}

#[test]
fn get_group_200() {
    let mut uc = service();
    let auth = authed("alice");
    let created = uc.create_group(&auth, CreateGroupInput { title: "trip".to_string() }).unwrap();
    let got = uc.get_group(&auth, &created.id).unwrap();
    assert_eq!(got.map(|g| g.id), Some(created.id));
}

#[test]
fn get_group_401() {
    let uc = service();
    let got = uc.get_group(&AuthState::Unauthorized, &GroupID::new("g"));
    assert!(matches!(got, Err(UseCaseError::Unauthorized)));
}

#[test]
fn get_group_403() {
    let mut uc = service();
    let created = uc.create_group(
        &authed("alice"),
        CreateGroupInput { title: "trip".to_string() },
    ).unwrap();
    let got = uc.get_group(&authed("bob"), &created.id);
    assert!(matches!(got, Err(UseCaseError::Forbidden)));
}

#[test]
fn get_group_404() {
    let uc = service();
    let got = uc.get_group(&authed("alice"), &GroupID::new("absent"));
    assert!(matches!(got, Err(UseCaseError::NotFound)));
}

#[test]
fn get_group_500() {
    let uc = faulty(|f| f.get_group = true);
    let got = uc.get_group(&authed("alice"), &GroupID::new("g"));
    assert!(matches!(got, Err(UseCaseError::InternalServerError)));
}

#[test]
fn get_groups_by_user_200() {
    let mut uc = service();
    let auth = authed("alice");
    let g1 = uc.create_group(&auth, CreateGroupInput { title: "one".to_string() }).unwrap();
    let g2 = uc.create_group(&auth, CreateGroupInput { title: "two".to_string() }).unwrap();
    uc.create_group(&authed("bob"), CreateGroupInput { title: "other".to_string() }).unwrap();
    let got = uc.get_groups_by_user(&auth, &UserID::new("alice")).unwrap();
    let ids: Vec<String> = got.iter().map(|g| g.id.0.clone()).collect();
    assert_eq!(ids, vec![g1.id.0, g2.id.0]);
}

#[test]
fn get_groups_by_user_401() {
    let uc = service();
    let got = uc.get_groups_by_user(&AuthState::Unauthorized, &UserID::new("alice"));
    assert!(matches!(got, Err(UseCaseError::Unauthorized)));
}

#[test]
fn get_groups_by_user_403() {
    let uc = service();
    let got = uc.get_groups_by_user(&authed("bob"), &UserID::new("alice"));
    assert!(matches!(got, Err(UseCaseError::Forbidden)));
}

#[test]
fn get_groups_by_user_500() {
    let uc = faulty(|f| f.get_groups_by_user = true);
    let got = uc.get_groups_by_user(&authed("alice"), &UserID::new("alice"));
    assert!(matches!(got, Err(UseCaseError::InternalServerError)));
}

#[test]
fn create_group_200() {
    let mut uc = service();
    let created = uc.create_group(
        &authed("alice"),
        CreateGroupInput { title: "trip".to_string() },
    ).unwrap();
    assert_eq!(created.title, "trip");
    assert_eq!(created.id.0.len(), 21);
    assert_eq!(created.participants.len(), 1);
    assert_eq!(created.participants[0], UserID::new("alice"));
}

#[test]
fn create_group_401() {
    let mut uc = service();
    let created = uc.create_group(
        &AuthState::Unauthorized,
        CreateGroupInput { title: "trip".to_string() },
    );
    assert!(matches!(created, Err(UseCaseError::Unauthorized)));
}

#[test]
fn create_group_500() {
    let mut uc = faulty(|f| f.create_group = true);
    let created = uc.create_group(&authed("alice"), CreateGroupInput { title: "trip".to_string() });
    assert!(matches!(created, Err(UseCaseError::InternalServerError)));
}

#[test]
fn update_group_200() {
    let mut uc = service();
    let auth = authed("alice");
    let created = uc.create_group(&auth, CreateGroupInput { title: "trip".to_string() }).unwrap();
    let updated = uc.update_group(
        &auth,
        UpdateGroupInput {
            id: created.id,
            title: Some("holiday".to_string()),
            participants: Some(vec![UserID::new("alice"), UserID::new("bob")]),
        },
    ).unwrap();
    assert_eq!(updated.title, "holiday");
    assert_eq!(updated.participants.len(), 2);
    assert_eq!(updated.created_at, created.created_at);
    assert!(updated.updated_at > created.updated_at);
}

#[test]
fn update_group_all_absent_keeps_record() {
    let mut uc = service();
    let auth = authed("alice");
    let created = uc.create_group(&auth, CreateGroupInput { title: "trip".to_string() }).unwrap();
    let before = uc.get_group(&auth, &created.id).unwrap().unwrap();
    let updated = uc.update_group(
        &auth,
        UpdateGroupInput { id: created.id, title: None, participants: None },
    ).unwrap();
    assert_eq!(updated.title, before.title);
    assert_eq!(updated.participants.len(), before.participants.len());
    assert_eq!(updated.created_at, before.created_at);
    assert!(updated.updated_at > before.updated_at);
}

#[test]
fn update_group_404() {
    let mut uc = service();
    let updated = uc.update_group(
        &authed("alice"),
        UpdateGroupInput { id: GroupID::new("absent"), title: None, participants: None },
    );
    assert!(matches!(updated, Err(UseCaseError::NotFound)));
}

#[test]
fn update_group_500() {
    let mut uc = faulty(|f| f.update_group = true);
    let auth = authed("alice");
    let created = uc.create_group(&auth, CreateGroupInput { title: "trip".to_string() }).unwrap();
    let updated = uc.update_group(
        &auth,
        UpdateGroupInput { id: created.id, title: None, participants: None },
    );
    assert!(matches!(updated, Err(UseCaseError::InternalServerError)));
}

#[test]
fn delete_group_200() {
    let mut uc = service();
    let auth = authed("alice");
    let created = uc.create_group(&auth, CreateGroupInput { title: "trip".to_string() }).unwrap();
    let gid = created.id.0.clone();
    uc.create_payment(
        &auth,
        CreatePaymentInput { title: "dinner".to_string(), group: GroupID::new(&gid) },
    ).unwrap();
    uc.create_payment(
        &auth,
        CreatePaymentInput { title: "hotel".to_string(), group: GroupID::new(&gid) },
    ).unwrap();
    uc.create_notification(
        &auth,
        CreateNotificationInput { message: "hello".to_string(), group: GroupID::new(&gid) },
    ).unwrap();
    let deleted = uc.delete_group(&auth, DeleteGroupInput { id: GroupID::new(&gid) }).unwrap();
    assert_eq!(deleted, GroupID::new(&gid));
    let got = uc.get_group(&auth, &GroupID::new(&gid));
    assert!(matches!(got, Err(UseCaseError::NotFound)));
}

#[test]
fn delete_group_404() {
    let mut uc = service();
    let deleted = uc.delete_group(&authed("alice"), DeleteGroupInput { id: GroupID::new("absent") });
    assert!(matches!(deleted, Err(UseCaseError::NotFound)));
}

#[test]
fn delete_group_500() {
    let mut uc = faulty(|f| f.delete_group = true);
    let auth = authed("alice");
    let created = uc.create_group(&auth, CreateGroupInput { title: "trip".to_string() }).unwrap();
    let deleted = uc.delete_group(&auth, DeleteGroupInput { id: created.id });
    assert!(matches!(deleted, Err(UseCaseError::InternalServerError)));
}

#[test]
fn delete_group_cascades_over_payments_and_notifications() {
    let mut uc = service();
    let auth = authed("alice");
    let created = uc.create_group(&auth, CreateGroupInput { title: "trip".to_string() }).unwrap();
    let gid = created.id.0.clone();
    let p1 = uc.create_payment(
        &auth,
        CreatePaymentInput { title: "dinner".to_string(), group: GroupID::new(&gid) },
    ).unwrap();
    let n1 = uc.create_notification(
        &auth,
        CreateNotificationInput { message: "hello".to_string(), group: GroupID::new(&gid) },
    ).unwrap();
    uc.delete_group(&auth, DeleteGroupInput { id: GroupID::new(&gid) }).unwrap();
    let payment = uc.get_payment(&auth, &p1.id);
    assert!(matches!(payment, Err(UseCaseError::NotFound)));
    let notification = uc.get_notification(&auth, &n1.id);
    assert!(matches!(notification, Err(UseCaseError::NotFound)));
}

#[test]
fn delete_group_partial_on_dependent_fault() {
    let mut uc = faulty(|f| f.delete_payment = true);
    let auth = authed("alice");
    let created = uc.create_group(&auth, CreateGroupInput { title: "trip".to_string() }).unwrap();
    let gid = created.id.0.clone();
    uc.create_payment(
        &auth,
        CreatePaymentInput { title: "dinner".to_string(), group: GroupID::new(&gid) },
    ).unwrap();
    let deleted = uc.delete_group(&auth, DeleteGroupInput { id: GroupID::new(&gid) });
    assert!(matches!(deleted, Err(UseCaseError::InternalServerError)));
    // the group record itself is already gone: the cascade is not atomic
    let got = uc.get_group(&auth, &GroupID::new(&gid));
    assert!(matches!(got, Err(UseCaseError::NotFound)));
}
