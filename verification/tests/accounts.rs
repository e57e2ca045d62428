use desktop2fa::accounts::{
    account_id_for, code_view_at, code_view_for, edit_account, find_code, generate_account_id, new_account,
    next_sort_order, remove_account, sort_accounts,
};
use desktop2fa::app_error::AppError;
use desktop2fa::models::{
    AccountEditorContext, AccountEditorMode, AccountMetadata, AccountPayload, CodeView,
};
use desktop2fa::totp_logic::AlgorithmName;

fn account(id: &str, sort_order: u32) -> AccountMetadata {
    AccountMetadata {
        id: id.into(),
        service_name: format!("service {id}"),
        issuer: None,
        account_label: Some("me".into()),
        digits: 6,
        period: 30,
        algorithm: AlgorithmName::SHA1,
        icon: None,
        sort_order,
    }
}

fn payload(service: &str, secret: Option<&str>) -> AccountPayload {
    AccountPayload {
        service_name: service.into(),
        issuer: None,
        account_label: Some("label".into()),
        secret: secret.map(|s| s.into()),
        digits: 8,
        period: 60,
        algorithm: AlgorithmName::SHA256,
        icon: None,
        otp_uri: None,
    }
}

fn ids(accounts: &[AccountMetadata]) -> Vec<String> {
    accounts.iter().map(|a| a.id.clone()).collect()
}

fn code(id: &str, raw: &str) -> CodeView {
    CodeView {
        id: id.into(),
        service_name: "s".into(),
        account_label: None,
        formatted_code: String::new(),
        raw_code: raw.into(),
        seconds_remaining: 1,
        period: 30,
        icon: None,
    }
}

#[test]
fn sorting_is_by_sort_order_and_stable() {
    let mut accounts = vec![
        account("c", 3),
        account("a1", 1),
        account("b", 2),
        account("a2", 1),
        account("z", 0),
        account("a3", 1),
    ];
    sort_accounts(&mut accounts);
    assert_eq!(ids(&accounts), vec!["z", "a1", "a2", "a3", "b", "c"]);
}

#[test]
fn sorting_empty_and_sorted_lists() {
    let mut empty: Vec<AccountMetadata> = Vec::new();
    sort_accounts(&mut empty);
    assert!(empty.is_empty());
    let mut sorted = vec![account("a", 0), account("b", 5)];
    sort_accounts(&mut sorted);
    assert_eq!(ids(&sorted), vec!["a", "b"]);
}

#[test]
fn next_sort_order_follows_the_largest() {
    assert_eq!(next_sort_order(&[]), 1);
    assert_eq!(next_sort_order(&[account("a", 4), account("b", 9), account("c", 2)]), 10);
}

#[test]
fn new_account_goes_last_with_its_secret() {
    let accounts = vec![account("a", 0), account("b", 7)];
    let (metadata, secret) =
        new_account(&accounts, &payload(" Bank ", Some("jbsw y3dp")), "acct-5".into()).unwrap();
    assert_eq!(metadata.id, "acct-5");
    assert_eq!(metadata.service_name, "Bank");
    assert_eq!(metadata.sort_order, 8);
    assert_eq!(metadata.digits, 8);
    assert_eq!(metadata.period, 60);
    assert_eq!(metadata.algorithm, AlgorithmName::SHA256);
    assert_eq!(secret, "JBSWY3DP");
}

#[test]
fn new_account_from_uri_without_secret_is_refused() {
    let mut p = payload("x", None);
    p.otp_uri = Some("otpauth://totp/alice".into());
    match new_account(&[], &p, "acct-1".into()) {
        Err(AppError::Validation(text)) => assert_eq!(text, "Secret is required"),
        other => panic!("unexpected {:?}", other.map(|_| ())),
    }
}

#[test]
fn editing_keeps_id_and_sort_order() {
    let accounts = vec![account("a", 0), account("b", 1)];
    let (index, metadata, secret) = edit_account(&accounts, "b", &payload("Renamed", None)).unwrap();
    assert_eq!(index, 1);
    assert_eq!(metadata.id, "b");
    assert_eq!(metadata.sort_order, 1);
    assert_eq!(metadata.service_name, "Renamed");
    assert_eq!(secret, None);

    let (_, _, secret) = edit_account(&accounts, "a", &payload("A", Some("jbswy3dp"))).unwrap();
    assert_eq!(secret.as_deref(), Some("JBSWY3DP"));
}

#[test]
fn editing_a_missing_account_is_not_found() {
    match edit_account(&[account("a", 0)], "zzz", &payload("x", None)) {
        Err(AppError::NotFound(kind)) => assert_eq!(kind, "account"),
        other => panic!("unexpected {:?}", other.map(|_| ())),
    }
}

#[test]
fn deleting_renumbers_the_rest() {
    let mut accounts = vec![account("a", 4), account("b", 7), account("c", 9)];
    remove_account(&mut accounts, "b").unwrap();
    assert_eq!(ids(&accounts), vec!["a", "c"]);
    assert_eq!(accounts[0].sort_order, 0);
    assert_eq!(accounts[1].sort_order, 1);
}

#[test]
fn deleting_a_missing_account_changes_nothing() {
    let mut accounts = vec![account("a", 4), account("b", 7)];
    match remove_account(&mut accounts, "x") {
        Err(AppError::NotFound(kind)) => assert_eq!(kind, "account"),
        other => panic!("unexpected {:?}", other),
    }
    assert_eq!(ids(&accounts), vec!["a", "b"]);
    assert_eq!(accounts[1].sort_order, 7);
}

#[test]
fn finds_the_code_to_copy() {
    let codes = vec![code("a", "111111"), code("b", "222222")];
    assert_eq!(find_code(codes.clone(), "b").unwrap().raw_code, "222222");
    match find_code(codes, "c") {
        Err(AppError::NotFound(kind)) => assert_eq!(kind, "account"),
        other => panic!("unexpected {:?}", other.map(|_| ())),
    }
}

#[test]
fn code_view_for_an_account() {
    let view = code_view_for(account("a", 0), Ok("JBSWY3DPEHPK3PXP".into())).unwrap().unwrap();
    assert_eq!(view.id, "a");
    assert_eq!(view.service_name, "service a");
    assert_eq!(view.account_label.as_deref(), Some("me"));
    assert_eq!(view.raw_code.len(), 6);
    assert_eq!(view.formatted_code, format!("{} {}", &view.raw_code[..3], &view.raw_code[3..]));
    assert!((1..=30).contains(&view.seconds_remaining));
    assert_eq!(view.period, 30);
}

#[test]
fn code_view_skips_accounts_without_secret() {
    let missing = code_view_for(account("a", 0), Err(AppError::NotFound("secret".into()))).unwrap();
    assert!(missing.is_none());
    match code_view_for(account("a", 0), Err(AppError::NotFound("account".into()))) {
        Err(AppError::NotFound(kind)) => assert_eq!(kind, "account"),
        other => panic!("unexpected {:?}", other.map(|_| ())),
    }
    match code_view_for(account("a", 0), Err(AppError::SecureStore("locked".into()))) {
        Err(AppError::SecureStore(text)) => assert_eq!(text, "locked"),
        other => panic!("unexpected {:?}", other.map(|_| ())),
    }
    match code_view_for(account("a", 0), Ok("0".into())) {
        Err(AppError::Validation(text)) => assert_eq!(text, "Secret must be valid base32"),
        other => panic!("unexpected {:?}", other.map(|_| ())),
    }
}

#[test]
fn account_ids_are_acct_and_nanoseconds() {
    assert_eq!(account_id_for(0), "acct-0");
    assert_eq!(account_id_for(1700000000123456789), "acct-1700000000123456789");
    let id = generate_account_id().expect("the clock reads after 1970");
    assert!(id.starts_with("acct-"));
    assert!(id["acct-".len()..].chars().all(|c| c.is_ascii_digit()));
    assert!(id.len() > "acct-".len() + 15);
}

#[test]
fn code_view_at_given_times() {
    let mut a = account("a", 0);
    a.digits = 8;
    let secret = "GEZDGNBVGY3TQOJQGEZDGNBVGY3TQOJQ";
    let view = code_view_at(a.clone(), Ok(secret.into()), 59, 100).unwrap().unwrap();
    assert_eq!(view.raw_code, "94287082");
    assert_eq!(view.formatted_code, "9428 7082");
    assert_eq!(view.seconds_remaining, 20);
    assert_eq!(view.id, "a");
}

#[test]
fn code_view_at_skips_or_refuses_before_using_the_period() {
    let mut broken = account("a", 0);
    broken.period = 0;
    broken.digits = 40;
    let missing = code_view_at(broken.clone(), Err(AppError::NotFound("secret".into())), 0, 0).unwrap();
    assert!(missing.is_none());
    match code_view_at(broken.clone(), Ok("1".into()), 0, 0) {
        Err(AppError::Validation(text)) => assert_eq!(text, "Secret must be valid base32"),
        other => panic!("unexpected {:?}", other.map(|_| ())),
    }
    match code_view_for(broken, Ok("1".into())) {
        Err(AppError::Validation(text)) => assert_eq!(text, "Secret must be valid base32"),
        other => panic!("unexpected {:?}", other.map(|_| ())),
    }
}

#[test]
fn refused_payloads_do_not_need_a_free_sort_order() {
    let full = vec![account("a", u32::MAX)];
    match new_account(&full, &payload("  ", Some("JBSWY3DP")), "acct-1".into()) {
        Err(AppError::Validation(text)) => assert_eq!(text, "Service name is required"),
        other => panic!("unexpected {:?}", other.map(|_| ())),
    }
    let mut p = payload("x", None);
    p.otp_uri = Some("otpauth://totp/alice".into());
    match new_account(&full, &p, "acct-1".into()) {
        Err(AppError::Validation(text)) => assert_eq!(text, "Secret is required"),
        other => panic!("unexpected {:?}", other.map(|_| ())),
    }
}

#[test]
fn editor_context_defaults_to_create() {
    let context = AccountEditorContext::default();
    assert_eq!(context.mode, AccountEditorMode::Create);
    assert_eq!(context.account_id, None);
}
