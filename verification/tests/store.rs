use warikan::entities::Amount;
use warikan::entities::Group;
use warikan::entities::GroupID;
use warikan::entities::Notification;
use warikan::entities::NotificationID;
use warikan::entities::Payment;
use warikan::entities::PaymentID;
use warikan::entities::User;
use warikan::entities::UserID;
use warikan::repositories::Store;

fn user(id: &str, name: &str) -> User {
    User { id: UserID::new(id), created_at: 1, updated_at: 2, name: name.to_string() }
}

fn group(id: &str, title: &str, participants: Vec<&str>) -> Group {
    Group {
        id: GroupID::new(id),
        created_at: 1,
        updated_at: 2,
        title: title.to_string(),
        participants: participants.into_iter().map(UserID::new).collect(),
    }
}

fn payment(id: &str, group: &str) -> Payment {
    Payment {
        id: PaymentID::new(id),
        created_at: 1,
        updated_at: 2,
        title: id.to_string(),
        creditors: vec![Amount { user: UserID::new("a"), amount: 10 }],
        debtors: vec![Amount { user: UserID::new("b"), amount: 10 }],
        group: GroupID::new(group),
    }
}

fn notification(id: &str, group: &str) -> Notification {
    Notification {
        id: NotificationID::new(id),
        created_at: 1,
        updated_at: 2,
        message: id.to_string(),
        group: GroupID::new(group),
    }
}

#[test]
fn store_user_roundtrip() {
    let mut store = Store::new();
    store.create_user(user("alice", "Alice")).unwrap();
    let got = store.get_user(&UserID::new("alice")).unwrap().unwrap();
    assert_eq!(got.name, "Alice");
    store.update_user(user("alice", "Alicia")).unwrap();
    let got = store.get_user(&UserID::new("alice")).unwrap().unwrap();
    assert_eq!(got.name, "Alicia");
    store.delete_user(&UserID::new("alice")).unwrap();
    let got = store.get_user(&UserID::new("alice")).unwrap();
    assert!(got.is_none());
}

#[test]
fn store_create_replaces_same_identifier() {
    let mut store = Store::new();
    store.create_user(user("alice", "Alice")).unwrap();
    store.create_user(user("alice", "Alicia")).unwrap();
    let got = store.get_user(&UserID::new("alice")).unwrap().unwrap();
    assert_eq!(got.name, "Alicia");
}

#[test]
fn store_update_without_record_changes_nothing() {
    let mut store = Store::new();
    let returned = store.update_user(user("alice", "Alice")).unwrap();
    assert_eq!(returned.name, "Alice");
    let got = store.get_user(&UserID::new("alice")).unwrap();
    assert!(got.is_none());
}

#[test]
fn store_group_roundtrip() {
    let mut store = Store::new();
    store.create_group(group("g1", "trip", vec!["alice"])).unwrap();
    let got = store.get_group(&GroupID::new("g1")).unwrap().unwrap();
    assert_eq!(got.title, "trip");
    store.delete_group(&GroupID::new("g1")).unwrap();
    assert!(store.get_group(&GroupID::new("g1")).unwrap().is_none());
}

#[test]
fn store_groups_by_user_keeps_storage_order() {
    let mut store = Store::new();
    store.create_group(group("g1", "one", vec!["alice", "bob"])).unwrap();
    store.create_group(group("g2", "two", vec!["bob"])).unwrap();
    store.create_group(group("g3", "three", vec!["alice"])).unwrap();
    let got = store.get_groups_by_user(&UserID::new("alice")).unwrap();
    let ids: Vec<String> = got.iter().map(|g| g.id.0.clone()).collect();
    assert_eq!(ids, vec!["g1".to_string(), "g3".to_string()]);
}

#[test]
fn store_payments_by_group_keeps_storage_order() {
    let mut store = Store::new();
    store.create_payment(payment("p1", "g1")).unwrap();
    store.create_payment(payment("p2", "g2")).unwrap();
    store.create_payment(payment("p3", "g1")).unwrap();
    let got = store.get_payments_by_group(&GroupID::new("g1")).unwrap();
    let ids: Vec<String> = got.iter().map(|p| p.id.0.clone()).collect();
    assert_eq!(ids, vec!["p1".to_string(), "p3".to_string()]);
}

#[test]
fn store_payment_roundtrip() {
    let mut store = Store::new();
    store.create_payment(payment("p1", "g1")).unwrap();
    let got = store.get_payment(&PaymentID::new("p1")).unwrap().unwrap();
    assert_eq!(got.creditors.len(), 1);
    assert_eq!(got.creditors[0].amount, 10);
    store.delete_payment(&PaymentID::new("p1")).unwrap();
    assert!(store.get_payment(&PaymentID::new("p1")).unwrap().is_none());
}

#[test]
fn store_notification_roundtrip() {
    let mut store = Store::new();
    store.create_notification(notification("n1", "g1")).unwrap();
    store.create_notification(notification("n2", "g1")).unwrap();
    store.create_notification(notification("n3", "g2")).unwrap();
    let got = store.get_notifications_by_group(&GroupID::new("g1")).unwrap();
    let ids: Vec<String> = got.iter().map(|n| n.id.0.clone()).collect();
    assert_eq!(ids, vec!["n1".to_string(), "n2".to_string()]);
    store.delete_notification(&NotificationID::new("n1")).unwrap();
    assert!(store.get_notification(&NotificationID::new("n1")).unwrap().is_none());
}
