use warikan::entities::AuthState;
use warikan::entities::Claims;
use warikan::entities::GroupID;
use warikan::entities::PaymentID;
use warikan::entities::UserID;
use warikan::repositories::FaultPlan;
use warikan::repositories::Store;
use warikan::usecases::AmountInput;
use warikan::usecases::CreateGroupInput;
use warikan::usecases::CreatePaymentInput;
use warikan::usecases::DeletePaymentInput;
use warikan::usecases::UpdatePaymentInput;
use warikan::usecases::UseCase;
use warikan::usecases::UseCaseError;

fn claims(sub: &str) -> Claims {
    Claims {
        iss: "https://issuer.example/".to_string(),
        sub: sub.to_string(),
        aud: vec!["warikan".to_string()],
        iat: 1,
        exp: 2,
        azp: "azp".to_string(),
        scope: "openid".to_string(),
    }
}

fn authed(sub: &str) -> AuthState {
    AuthState::Authorized(claims(sub))
}

fn faulty(set: impl Fn(&mut FaultPlan)) -> UseCase {
    let mut faults = FaultPlan::none();
    set(&mut faults);
    UseCase::new(Store::with_faults(faults))
}

fn service() -> UseCase {
    UseCase::new(Store::new())
}

fn group_of(uc: &mut UseCase, owner: &AuthState) -> GroupID {
    let created = uc.create_group(owner, CreateGroupInput { title: "trip".to_string() }).unwrap();
    created.id
}

#[test]
fn get_payment_200() {
    let mut uc = service();
    let auth = authed("alice");
    let gid = group_of(&mut uc, &auth);
    let created = uc.create_payment(
        &auth,
        CreatePaymentInput { title: "dinner".to_string(), group: gid },
    ).unwrap();
    let got = uc.get_payment(&auth, &created.id).unwrap();
    assert_eq!(got.map(|p| p.id), Some(created.id));
}

#[test]
fn get_payment_401() {
    let uc = service();
    let got = uc.get_payment(&AuthState::Unauthorized, &PaymentID::new("p"));
    assert!(matches!(got, Err(UseCaseError::Unauthorized)));
}

#[test]
fn get_payment_403() {
    let mut uc = service();
    let auth = authed("alice");
    let gid = group_of(&mut uc, &auth);
    let created = uc.create_payment(
        &auth,
        CreatePaymentInput { title: "dinner".to_string(), group: gid },
    ).unwrap();
    let got = uc.get_payment(&authed("bob"), &created.id);
    assert!(matches!(got, Err(UseCaseError::Forbidden)));
}

#[test]
fn get_payment_404() {
    let uc = service();
    let got = uc.get_payment(&authed("alice"), &PaymentID::new("absent"));
    assert!(matches!(got, Err(UseCaseError::NotFound)));
}

#[test]
fn get_payment_500() {
    let uc = faulty(|f| f.get_payment = true);
    let got = uc.get_payment(&authed("alice"), &PaymentID::new("p"));
    assert!(matches!(got, Err(UseCaseError::InternalServerError)));
}

#[test]
fn get_payments_by_group_200() {
    let mut uc = service();
    let auth = authed("alice");
    let gid = group_of(&mut uc, &auth);
    let p1 = uc.create_payment(
        &auth,
        CreatePaymentInput { title: "dinner".to_string(), group: GroupID::new(&gid.0) },
    ).unwrap();
    let p2 = uc.create_payment(
        &auth,
        CreatePaymentInput { title: "hotel".to_string(), group: GroupID::new(&gid.0) },
    ).unwrap();
    let other = group_of(&mut uc, &auth);
    uc.create_payment(
        &auth,
        CreatePaymentInput { title: "elsewhere".to_string(), group: other },
    ).unwrap();
    let got = uc.get_payments_by_group(&auth, &gid).unwrap();
    let ids: Vec<String> = got.iter().map(|p| p.id.0.clone()).collect();
    assert_eq!(ids, vec![p1.id.0, p2.id.0]);
}

#[test]
fn get_payments_by_group_404() {
    let uc = service();
    let got = uc.get_payments_by_group(&authed("alice"), &GroupID::new("absent"));
    assert!(matches!(got, Err(UseCaseError::NotFound)));
}

#[test]
fn get_payments_by_group_500() {
    let mut uc = faulty(|f| f.get_payments_by_group = true);
    let auth = authed("alice");
    let gid = group_of(&mut uc, &auth);
    let got = uc.get_payments_by_group(&auth, &gid);
    assert!(matches!(got, Err(UseCaseError::InternalServerError)));
}

#[test]
fn create_payment_200() {
    let mut uc = service();
    let auth = authed("alice");
    let gid = group_of(&mut uc, &auth);
    let created = uc.create_payment(
        &auth,
        CreatePaymentInput { title: "dinner".to_string(), group: GroupID::new(&gid.0) },
    ).unwrap();
    assert_eq!(created.title, "dinner");
    assert_eq!(created.id.0.len(), 21);
    assert!(created.creditors.is_empty());
    assert!(created.debtors.is_empty());
    assert_eq!(created.group, gid);
}

#[test]
fn create_payment_404() {
    let mut uc = service();
    let created = uc.create_payment(
        &authed("alice"),
        CreatePaymentInput { title: "dinner".to_string(), group: GroupID::new("absent") },
    );
    assert!(matches!(created, Err(UseCaseError::NotFound)));
}

#[test]
fn create_payment_500() {
    let mut uc = faulty(|f| f.create_payment = true);
    let auth = authed("alice");
    let gid = group_of(&mut uc, &auth);
    let created = uc.create_payment(
        &auth,
        CreatePaymentInput { title: "dinner".to_string(), group: gid },
    );
    assert!(matches!(created, Err(UseCaseError::InternalServerError)));
}

#[test]
fn update_payment_200() {
    let mut uc = service();
    let auth = authed("alice");
    let gid = group_of(&mut uc, &auth);
    let created = uc.create_payment(
        &auth,
        CreatePaymentInput { title: "dinner".to_string(), group: gid },
    ).unwrap();
    let updated = uc.update_payment(
        &auth,
        UpdatePaymentInput {
            id: created.id,
            title: Some("supper".to_string()),
            creditors: Some(vec![AmountInput { user: UserID::new("alice"), amount: 300 }]),
            debtors: Some(vec![
                AmountInput { user: UserID::new("bob"), amount: 100 },
                AmountInput { user: UserID::new("carol"), amount: 200 },
            ]),
        },
    ).unwrap();
    assert_eq!(updated.title, "supper");
    assert_eq!(updated.creditors.len(), 1);
    assert_eq!(updated.creditors[0].user, UserID::new("alice"));
    assert_eq!(updated.creditors[0].amount, 300);
    assert_eq!(updated.debtors.len(), 2);
    assert_eq!(updated.created_at, created.created_at);
    assert!(updated.updated_at > created.updated_at);
}

#[test]
fn update_payment_all_absent_keeps_record() {
    let mut uc = service();
    let auth = authed("alice");
    let gid = group_of(&mut uc, &auth);
    let created = uc.create_payment(
        &auth,
        CreatePaymentInput { title: "dinner".to_string(), group: gid },
    ).unwrap();
    let updated = uc.update_payment(
        &auth,
        UpdatePaymentInput { id: created.id, title: None, creditors: None, debtors: None },
    ).unwrap();
    assert_eq!(updated.title, "dinner");
    assert!(updated.creditors.is_empty());
    assert!(updated.debtors.is_empty());
    assert_eq!(updated.created_at, created.created_at);
    assert!(updated.updated_at > created.updated_at);
}

#[test]
fn update_payment_404() {
    let mut uc = service();
    let updated = uc.update_payment(
        &authed("alice"),
        UpdatePaymentInput {
            id: PaymentID::new("absent"),
            title: None,
            creditors: None,
            debtors: None,
        },
    );
    assert!(matches!(updated, Err(UseCaseError::NotFound)));
}

#[test]
fn update_payment_500() {
    let mut uc = faulty(|f| f.update_payment = true);
    let auth = authed("alice");
    let gid = group_of(&mut uc, &auth);
    let created = uc.create_payment(
        &auth,
        CreatePaymentInput { title: "dinner".to_string(), group: gid },
    ).unwrap();
    let updated = uc.update_payment(
        &auth,
        UpdatePaymentInput { id: created.id, title: None, creditors: None, debtors: None },
    );
    assert!(matches!(updated, Err(UseCaseError::InternalServerError)));
}

#[test]
fn delete_payment_200() {
    let mut uc = service();
    let auth = authed("alice");
    let gid = group_of(&mut uc, &auth);
    let created = uc.create_payment(
        &auth,
        CreatePaymentInput { title: "dinner".to_string(), group: gid },
    ).unwrap();
    let pid = created.id.0.clone();
    let deleted = uc.delete_payment(&auth, DeletePaymentInput { id: created.id }).unwrap();
    assert_eq!(deleted.0, pid);
    let got = uc.get_payment(&auth, &PaymentID::new(&pid));
    assert!(matches!(got, Err(UseCaseError::NotFound)));
}

#[test]
fn delete_payment_404() {
    let mut uc = service();
    let deleted = uc.delete_payment(
        &authed("alice"),
        DeletePaymentInput { id: PaymentID::new("absent") },
    );
    assert!(matches!(deleted, Err(UseCaseError::NotFound)));
}

#[test]
fn delete_payment_500() {
    let mut uc = faulty(|f| f.delete_payment = true);
    let auth = authed("alice");
    let gid = group_of(&mut uc, &auth);
    let created = uc.create_payment(
        &auth,
        CreatePaymentInput { title: "dinner".to_string(), group: gid },
    ).unwrap();
    let deleted = uc.delete_payment(&auth, DeletePaymentInput { id: created.id });
    assert!(matches!(deleted, Err(UseCaseError::InternalServerError)));
}
