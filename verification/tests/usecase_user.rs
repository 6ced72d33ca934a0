use warikan::entities::AuthState;
use warikan::entities::Claims;
use warikan::entities::UserID;
use warikan::repositories::FaultPlan;
use warikan::repositories::Store;
use warikan::usecases::CreateUserInput;
use warikan::usecases::DeleteUserInput;
use warikan::usecases::UpdateUserInput;
use warikan::usecases::UseCase;
use warikan::usecases::UseCaseError;

fn claims(sub: &str) -> Claims {
    Claims {
        iss: "https://issuer.example/".to_string(),
        sub: sub.to_string(),
        aud: vec!["warikan".to_string()],
        iat: 1,
        exp: 2,
        azp: "azp".to_string(),
        scope: "openid".to_string(),
    }
}

fn authed(sub: &str) -> AuthState {
    AuthState::Authorized(claims(sub))
}

fn faulty(set: impl Fn(&mut FaultPlan)) -> UseCase {
    let mut faults = FaultPlan::none();
    set(&mut faults);
    UseCase::new(Store::with_faults(faults))
}

fn service() -> UseCase {
    UseCase::new(Store::new())
}

#[test]
fn get_user_opt_200() {
    let mut uc = service();
    let auth = authed("alice");
    uc.create_user(&auth, CreateUserInput { name: "Alice".to_string() }).unwrap();
    let got = uc.get_user_opt(&auth, &UserID::new("alice")).unwrap();
    assert_eq!(got.map(|u| u.id), Some(UserID::new("alice")));
}

#[test]
fn get_user_opt_401() {
    let uc = service();
    let got = uc.get_user_opt(&AuthState::Unauthorized, &UserID::new("alice"));
    assert!(matches!(got, Err(UseCaseError::Unauthorized)));
}

#[test]
fn get_user_opt_500() {
    let uc = faulty(|f| f.get_user = true);
    let got = uc.get_user_opt(&authed("alice"), &UserID::new("alice"));
    assert!(matches!(got, Err(UseCaseError::InternalServerError)));
}

#[test]
fn get_user_200() {
    let mut uc = service();
    let auth = authed("alice");
    uc.create_user(&auth, CreateUserInput { name: "Alice".to_string() }).unwrap();
    let got = uc.get_user(&auth, &UserID::new("alice")).unwrap();
    assert_eq!(got.name, "Alice");
}

#[test]
fn get_user_404() {
    let uc = service();
    let got = uc.get_user(&authed("alice"), &UserID::new("nobody"));
    assert!(matches!(got, Err(UseCaseError::NotFound)));
}

#[test]
fn get_user_vec_200() {
    let mut uc = service();
    uc.create_user(&authed("alice"), CreateUserInput { name: "Alice".to_string() }).unwrap();
    uc.create_user(&authed("bob"), CreateUserInput { name: "Bob".to_string() }).unwrap();
    let ids = vec![UserID::new("bob"), UserID::new("alice"), UserID::new("nobody")];
    let got = uc.get_user_vec(&authed("alice"), &ids).unwrap();
    let names: Vec<String> = got.iter().map(|u| u.name.clone()).collect();
    assert_eq!(names, vec!["Bob".to_string(), "Alice".to_string()]);
}

#[test]
fn get_user_vec_401() {
    let uc = service();
    let ids = vec![UserID::new("alice")];
    let got = uc.get_user_vec(&AuthState::Unauthorized, &ids);
    assert!(matches!(got, Err(UseCaseError::Unauthorized)));
}

#[test]
fn get_user_vec_500() {
    let uc = faulty(|f| f.get_user = true);
    let ids = vec![UserID::new("alice")];
    let got = uc.get_user_vec(&authed("alice"), &ids);
    assert!(matches!(got, Err(UseCaseError::InternalServerError)));
}

#[test]
fn create_user_200() {
    let mut uc = service();
    let created = uc.create_user(
        &authed("alice"),
        CreateUserInput { name: "Alice".to_string() },
    ).unwrap();
    assert_eq!(created.id, UserID::new("alice"));
    assert_eq!(created.name, "Alice");
    assert_eq!(created.created_at, created.updated_at);
}

#[test]
fn create_user_401() {
    let mut uc = service();
    let created = uc.create_user(
        &AuthState::Unauthorized,
        CreateUserInput { name: "Alice".to_string() },
    );
    assert!(matches!(created, Err(UseCaseError::Unauthorized)));
}

#[test]
fn create_user_500() {
    let mut uc = faulty(|f| f.create_user = true);
    let created = uc.create_user(
        &authed("alice"),
        CreateUserInput { name: "Alice".to_string() },
    );
    assert!(matches!(created, Err(UseCaseError::InternalServerError)));
}

#[test]
fn update_user_200() {
    let mut uc = service();
    let auth = authed("alice");
    let created = uc.create_user(&auth, CreateUserInput { name: "Alice".to_string() }).unwrap();
    let updated = uc.update_user(
        &auth,
        UpdateUserInput { id: UserID::new("alice"), name: Some("Alicia".to_string()) },
    ).unwrap();
    assert_eq!(updated.name, "Alicia");
    assert_eq!(updated.created_at, created.created_at);
    assert!(updated.updated_at > created.updated_at);
}

#[test]
fn update_user_all_absent_keeps_record() {
    let mut uc = service();
    let auth = authed("alice");
    let created = uc.create_user(&auth, CreateUserInput { name: "Alice".to_string() }).unwrap();
    let updated = uc.update_user(
        &auth,
        UpdateUserInput { id: UserID::new("alice"), name: None },
    ).unwrap();
    assert_eq!(updated.name, "Alice");
    assert_eq!(updated.created_at, created.created_at);
    assert!(updated.updated_at > created.updated_at);
}

#[test]
fn update_user_401() {
    let mut uc = service();
    let updated = uc.update_user(
        &AuthState::Unauthorized,
        UpdateUserInput { id: UserID::new("alice"), name: None },
    );
    assert!(matches!(updated, Err(UseCaseError::Unauthorized)));
}

#[test]
fn update_user_403() {
    let mut uc = service();
    let updated = uc.update_user(
        &authed("bob"),
        UpdateUserInput { id: UserID::new("alice"), name: None },
    );
    assert!(matches!(updated, Err(UseCaseError::Forbidden)));
}

#[test]
fn update_user_404() {
    let mut uc = service();
    let updated = uc.update_user(
        &authed("alice"),
        UpdateUserInput { id: UserID::new("alice"), name: None },
    );
    assert!(matches!(updated, Err(UseCaseError::NotFound)));
}

#[test]
fn update_user_500() {
    let mut uc = faulty(|f| f.update_user = true);
    let auth = authed("alice");
    uc.create_user(&auth, CreateUserInput { name: "Alice".to_string() }).unwrap();
    let updated = uc.update_user(
        &auth,
        UpdateUserInput { id: UserID::new("alice"), name: None },
    );
    assert!(matches!(updated, Err(UseCaseError::InternalServerError)));
}

#[test]
fn delete_user_200() {
    let mut uc = service();
    let auth = authed("alice");
    uc.create_user(&auth, CreateUserInput { name: "Alice".to_string() }).unwrap();
    let deleted = uc.delete_user(&auth, DeleteUserInput { id: UserID::new("alice") }).unwrap();
    assert_eq!(deleted, UserID::new("alice"));
    let got = uc.get_user_opt(&auth, &UserID::new("alice")).unwrap();
    assert!(got.is_none());
}

#[test]
fn delete_user_401() {
    let mut uc = service();
    let deleted = uc.delete_user(
        &AuthState::Unauthorized,
        DeleteUserInput { id: UserID::new("alice") },
    );
    assert!(matches!(deleted, Err(UseCaseError::Unauthorized)));
}

#[test]
fn delete_user_403() {
    let mut uc = service();
    let deleted = uc.delete_user(&authed("bob"), DeleteUserInput { id: UserID::new("alice") });
    assert!(matches!(deleted, Err(UseCaseError::Forbidden)));
}

#[test]
fn delete_user_404() {
    let mut uc = service();
    let deleted = uc.delete_user(&authed("alice"), DeleteUserInput { id: UserID::new("alice") });
    assert!(matches!(deleted, Err(UseCaseError::NotFound)));
}

#[test]
fn delete_user_500() {
    let mut uc = faulty(|f| f.delete_user = true);
    let auth = authed("alice");
    uc.create_user(&auth, CreateUserInput { name: "Alice".to_string() }).unwrap();
    let deleted = uc.delete_user(&auth, DeleteUserInput { id: UserID::new("alice") });
    assert!(matches!(deleted, Err(UseCaseError::InternalServerError)));
}

#[test]
fn error_messages_are_stable() {
    assert_eq!(UseCaseError::BadRequest.message(), "400 bad request");
    assert_eq!(UseCaseError::Unauthorized.message(), "401 unauthorized");
    assert_eq!(UseCaseError::Forbidden.message(), "403 forbidden");
    assert_eq!(UseCaseError::NotFound.message(), "404 not found");
    assert_eq!(UseCaseError::InternalServerError.message(), "500 internal server error");
}
