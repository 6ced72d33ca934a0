use warikan::entities::AuthState;
use warikan::entities::Claims;
use warikan::entities::GroupID;
use warikan::entities::NotificationID;
use warikan::repositories::FaultPlan;
use warikan::repositories::Store;
use warikan::usecases::CreateGroupInput;
use warikan::usecases::CreateNotificationInput;
use warikan::usecases::DeleteNotificationInput;
use warikan::usecases::UseCase;
use warikan::usecases::UseCaseError;

fn claims(sub: &str) -> Claims {
    Claims {
        iss: "https://issuer.example/".to_string(),
        sub: sub.to_string(),
        aud: vec!["warikan".to_string()],
        iat: 1,
        exp: 2,
        azp: "azp".to_string(),
        scope: "openid".to_string(),
    }
}

fn authed(sub: &str) -> AuthState {
    AuthState::Authorized(claims(sub))
}

fn faulty(set: impl Fn(&mut FaultPlan)) -> UseCase {
    let mut faults = FaultPlan::none();
    set(&mut faults);
    UseCase::new(Store::with_faults(faults))
}

fn service() -> UseCase {
    UseCase::new(Store::new())
}

fn group_of(uc: &mut UseCase, owner: &AuthState) -> GroupID {
    let created = uc.create_group(owner, CreateGroupInput { title: "trip".to_string() }).unwrap();
    created.id
}

#[test]
fn get_notification_200() {
    let mut uc = service();
    let auth = authed("alice");
    let gid = group_of(&mut uc, &auth);
    let created = uc.create_notification(
        &auth,
        CreateNotificationInput { message: "hello".to_string(), group: gid },
    ).unwrap();
    let got = uc.get_notification(&auth, &created.id).unwrap();
    assert_eq!(got.map(|n| n.id), Some(created.id));
}

#[test]
fn get_notification_401() {
    let uc = service();
    let got = uc.get_notification(&AuthState::Unauthorized, &NotificationID::new("n"));
    assert!(matches!(got, Err(UseCaseError::Unauthorized)));
}

#[test]
fn get_notification_403() {
    let mut uc = service();
    let auth = authed("alice");
    let gid = group_of(&mut uc, &auth);
    let created = uc.create_notification(
        &auth,
        CreateNotificationInput { message: "hello".to_string(), group: gid },
    ).unwrap();
    let got = uc.get_notification(&authed("bob"), &created.id);
    assert!(matches!(got, Err(UseCaseError::Forbidden)));
}

#[test]
fn get_notification_404() {
    let uc = service();
    let got = uc.get_notification(&authed("alice"), &NotificationID::new("absent"));
    assert!(matches!(got, Err(UseCaseError::NotFound)));
}

#[test]
fn get_notification_500() {
    let uc = faulty(|f| f.get_notification = true);
    let got = uc.get_notification(&authed("alice"), &NotificationID::new("n"));
    assert!(matches!(got, Err(UseCaseError::InternalServerError)));
}

#[test]
fn get_notifications_by_group_200() {
    let mut uc = service();
    let auth = authed("alice");
    let gid = group_of(&mut uc, &auth);
    let n1 = uc.create_notification(
        &auth,
        CreateNotificationInput { message: "one".to_string(), group: GroupID::new(&gid.0) },
    ).unwrap();
    let n2 = uc.create_notification(
        &auth,
        CreateNotificationInput { message: "two".to_string(), group: GroupID::new(&gid.0) },
    ).unwrap();
    let other = group_of(&mut uc, &auth);
    uc.create_notification(
        &auth,
        CreateNotificationInput { message: "elsewhere".to_string(), group: other },
    ).unwrap();
    let got = uc.get_notifications_by_group(&auth, &gid).unwrap();
    let ids: Vec<String> = got.iter().map(|n| n.id.0.clone()).collect();
    assert_eq!(ids, vec![n1.id.0, n2.id.0]);
}

#[test]
fn get_notifications_by_group_404() {
    let uc = service();
    let got = uc.get_notifications_by_group(&authed("alice"), &GroupID::new("absent"));
    assert!(matches!(got, Err(UseCaseError::NotFound)));
}

#[test]
fn get_notifications_by_group_500() {
    let mut uc = faulty(|f| f.get_notifications_by_group = true);
    let auth = authed("alice");
    let gid = group_of(&mut uc, &auth);
    let got = uc.get_notifications_by_group(&auth, &gid);
    assert!(matches!(got, Err(UseCaseError::InternalServerError)));
}

#[test]
fn create_notification_200() {
    let mut uc = service();
    let auth = authed("alice");
    let gid = group_of(&mut uc, &auth);
    let created = uc.create_notification(
        &auth,
        CreateNotificationInput { message: "hello".to_string(), group: GroupID::new(&gid.0) },
    ).unwrap();
    assert_eq!(created.message, "hello");
    assert_eq!(created.id.0.len(), 21);
    assert_eq!(created.group, gid);
}

#[test]
fn create_notification_404() {
    let mut uc = service();
    let created = uc.create_notification(
        &authed("alice"),
        CreateNotificationInput { message: "hello".to_string(), group: GroupID::new("absent") },
    );
    assert!(matches!(created, Err(UseCaseError::NotFound)));
}

#[test]
fn create_notification_500() {
    let mut uc = faulty(|f| f.create_notification = true);
    let auth = authed("alice");
    let gid = group_of(&mut uc, &auth);
    let created = uc.create_notification(
        &auth,
        CreateNotificationInput { message: "hello".to_string(), group: gid },
    );
    assert!(matches!(created, Err(UseCaseError::InternalServerError)));
}

#[test]
fn delete_notification_200() {
    let mut uc = service();
    let auth = authed("alice");
    let gid = group_of(&mut uc, &auth);
    let created = uc.create_notification(
        &auth,
        CreateNotificationInput { message: "hello".to_string(), group: gid },
    ).unwrap();
    let nid = created.id.0.clone();
    let deleted = uc.delete_notification(&auth, DeleteNotificationInput { id: created.id }).unwrap();
    assert_eq!(deleted.0, nid);
    let got = uc.get_notification(&auth, &NotificationID::new(&nid));
    assert!(matches!(got, Err(UseCaseError::NotFound)));
}

#[test]
fn delete_notification_404() {
    let mut uc = service();
    let deleted = uc.delete_notification(
        &authed("alice"),
        DeleteNotificationInput { id: NotificationID::new("absent") },
    );
    assert!(matches!(deleted, Err(UseCaseError::NotFound)));
}

#[test]
fn delete_notification_500() {
    let mut uc = faulty(|f| f.delete_notification = true);
    let auth = authed("alice");
    let gid = group_of(&mut uc, &auth);
    let created = uc.create_notification(
        &auth,
        CreateNotificationInput { message: "hello".to_string(), group: gid },
    ).unwrap();
    let deleted = uc.delete_notification(&auth, DeleteNotificationInput { id: created.id });
    assert!(matches!(deleted, Err(UseCaseError::InternalServerError)));
}
