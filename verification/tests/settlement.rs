use warikan::entities::warikan::warikan;
use warikan::entities::Amount;
use warikan::entities::AuthState;
use warikan::entities::Claims;
use warikan::entities::GroupID;
use warikan::entities::Payment;
use warikan::entities::PaymentID;
use warikan::entities::UserID;
use warikan::repositories::Store;
use warikan::usecases::AmountInput;
use warikan::usecases::CreateGroupInput;
use warikan::usecases::CreatePaymentInput;
use warikan::usecases::UpdatePaymentInput;
use warikan::usecases::UseCase;

fn payment(id: &str, creditors: Vec<(&str, i32)>, debtors: Vec<(&str, i32)>) -> Payment {
    Payment {
        id: PaymentID::new(id),
        created_at: 0,
        updated_at: 0,
        title: id.to_string(),
        creditors: creditors
            .into_iter()
            .map(|(u, a)| Amount { user: UserID::new(u), amount: a })
            .collect(),
        debtors: debtors
            .into_iter()
            .map(|(u, a)| Amount { user: UserID::new(u), amount: a })
            .collect(),
        group: GroupID::new("g"),
    }
}

fn transfers(ws: &[warikan::entities::Warikan]) -> Vec<(String, String, i32)> {
    ws.iter().map(|w| (w.from.0.clone(), w.to.0.clone(), w.amount)).collect()
}

#[test]
fn three_balances_two_transfers() {
    // balances: a +300, b -100, c -200; the most negative settles first
    let payments = vec![payment("p1", vec![("a", 300)], vec![("b", 100), ("c", 200)])];
    let ws = warikan(&payments).unwrap();
    assert_eq!(
        transfers(&ws),
        vec![("c".to_string(), "a".to_string(), 200), ("b".to_string(), "a".to_string(), 100)]
    );
}

#[test]
fn equal_debts_settle_in_identifier_order() {
    // balances: a -100, b -100, c +200; the identifier breaks the tie
    let payments = vec![payment("p1", vec![("c", 200)], vec![("a", 100), ("b", 100)])];
    let ws = warikan(&payments).unwrap();
    assert_eq!(
        transfers(&ws),
        vec![("a".to_string(), "c".to_string(), 100), ("b".to_string(), "c".to_string(), 100)]
    );
}

#[test]
fn unbalanced_payments_yield_no_transfers() {
    // creditor sum 300, debtor sum 100: inconsistent, so nothing is settled
    let payments = vec![payment("p1", vec![("a", 300)], vec![("b", 100)])];
    let ws = warikan(&payments).unwrap();
    assert!(ws.is_empty());
}

#[test]
fn single_user_yields_no_transfers() {
    // one user owes themselves: balanced, but nothing to settle
    let payments = vec![payment("p1", vec![("a", 100)], vec![("a", 100)])];
    let ws = warikan(&payments).unwrap();
    assert!(ws.is_empty());
}

#[test]
fn no_payments_yield_no_transfers() {
    let payments: Vec<Payment> = Vec::new();
    let ws = warikan(&payments).unwrap();
    assert!(ws.is_empty());
}

#[test]
fn balances_accumulate_across_payments() {
    // a pays 120 for a and b; b pays 60 for a and b: a is owed 30 net
    let payments = vec![
        payment("p1", vec![("a", 120)], vec![("a", 60), ("b", 60)]),
        payment("p2", vec![("b", 60)], vec![("a", 30), ("b", 30)]),
    ];
    let ws = warikan(&payments).unwrap();
    assert_eq!(transfers(&ws), vec![("b".to_string(), "a".to_string(), 30)]);
}

#[test]
fn transfer_sums_match_balance_magnitudes() {
    // balances: a +500, b +100, c -200, d -400
    let payments = vec![
        payment("p1", vec![("a", 500), ("b", 100)], vec![("c", 200), ("d", 400)]),
    ];
    let ws = warikan(&payments).unwrap();
    let sent = |u: &str| -> i32 {
        ws.iter().filter(|w| w.from.0 == u).map(|w| w.amount).sum()
    };
    let received = |u: &str| -> i32 {
        ws.iter().filter(|w| w.to.0 == u).map(|w| w.amount).sum()
    };
    assert_eq!(received("a") - sent("a"), 500);
    assert_eq!(received("b") - sent("b"), 100);
    assert_eq!(received("c") - sent("c"), -200);
    assert_eq!(received("d") - sent("d"), -400);
    assert_eq!(sent("a"), 0);
    assert_eq!(sent("b"), 0);
    assert_eq!(received("c"), 0);
    assert_eq!(received("d"), 0);
    for w in ws.iter() {
        assert!(w.amount > 0);
    }
}

#[test]
fn warikan_by_group_settles_group_payments() {
    let mut uc = UseCase::new(Store::new());
    let auth = AuthState::Authorized(Claims {
        iss: "https://issuer.example/".to_string(),
        sub: "alice".to_string(),
        aud: vec!["warikan".to_string()],
        iat: 1,
        exp: 2,
        azp: "azp".to_string(),
        scope: "openid".to_string(),
    });
    let group = uc.create_group(&auth, CreateGroupInput { title: "trip".to_string() }).unwrap();
    let gid = group.id.0.clone();
    let created = uc.create_payment(
        &auth,
        CreatePaymentInput { title: "dinner".to_string(), group: GroupID::new(&gid) },
    ).unwrap();
    uc.update_payment(
        &auth,
        UpdatePaymentInput {
            id: created.id,
            title: None,
            creditors: Some(vec![AmountInput { user: UserID::new("alice"), amount: 300 }]),
            debtors: Some(vec![
                AmountInput { user: UserID::new("bob"), amount: 100 },
                AmountInput { user: UserID::new("carol"), amount: 200 },
            ]),
        },
    ).unwrap();
    let ws = uc.warikan_by_group(&auth, &GroupID::new(&gid)).unwrap();
    assert_eq!(
        transfers(&ws),
        vec![
            ("carol".to_string(), "alice".to_string(), 200),
            ("bob".to_string(), "alice".to_string(), 100),
        ]
    );
}
