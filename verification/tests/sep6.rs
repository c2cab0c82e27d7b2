use anchorkit::{
    fetch_transaction_status, initiate_deposit, initiate_withdrawal, list_transactions, Error,
    ErrorCode, RawDepositResponse, RawTransactionListRequest, RawTransactionResponse,
    RawWithdrawalResponse, TransactionKind, TransactionStatus,
};

fn raw_deposit() -> RawDepositResponse {
    RawDepositResponse {
        transaction_id: "txn-001".to_string(),
        how: "Send to bank account 1234".to_string(),
        extra_info: None,
        min_amount: Some(10),
        max_amount: Some(10_000),
        fee_fixed: Some(1),
        fee_percent: None,
        status: Some("pending_external".to_string()),
        depositor_account: None,
    }
}

fn raw_withdrawal() -> RawWithdrawalResponse {
    RawWithdrawalResponse {
        transaction_id: "txn-002".to_string(),
        account_id: "GABC123".to_string(),
        dest_account_id: Some("bank-account-9876".to_string()),
        memo: Some("12345".to_string()),
        memo_type: Some("id".to_string()),
        min_amount: Some(5),
        max_amount: Some(5_000),
        fee_fixed: Some(2),
        fee_percent: None,
        status: Some("pending_user".to_string()),
    }
}

fn raw_tx_status() -> RawTransactionResponse {
    RawTransactionResponse {
        transaction_id: "txn-001".to_string(),
        kind: Some("deposit".to_string()),
        status: "completed".to_string(),
        amount_in: Some(100),
        amount_out: Some(99),
        amount_fee: Some(1),
        message: None,
    }
}

#[test]
fn test_initiate_deposit_normalizes_response() {
    let resp = initiate_deposit(raw_deposit()).unwrap();
    assert_eq!(resp.transaction_id, "txn-001");
    assert_eq!(resp.status, TransactionStatus::PendingExternal);
    assert_eq!(resp.fee_fixed, Some(1));
}

#[test]
fn test_initiate_deposit_missing_fields_returns_error() {
    let mut raw = raw_deposit();
    raw.transaction_id = "".to_string();
    assert_eq!(initiate_deposit(raw), Err(Error::invalid_transaction_intent()));
}

#[test]
fn test_initiate_deposit_invalid_stellar_address_returns_error() {
    let mut raw = raw_deposit();
    raw.depositor_account = Some("not-a-stellar-address".to_string());
    let err = initiate_deposit(raw).unwrap_err();
    assert_eq!(err.code, ErrorCode::ValidationError);
}

#[test]
fn test_initiate_deposit_valid_stellar_address_accepted() {
    let mut raw = raw_deposit();
    // 56-char G-address
    raw.depositor_account = Some("GAAZI4TCR3TY5OJHCTJC2A4QSY6CJWJH5IAJTGKIN2ER7LBNVKOCCWN".to_string());
    assert!(initiate_deposit(raw).is_ok());
}

#[test]
fn test_initiate_deposit_defaults_status_to_pending() {
    let mut raw = raw_deposit();
    raw.status = None;
    let resp = initiate_deposit(raw).unwrap();
    assert_eq!(resp.status, TransactionStatus::Pending);
}

#[test]
fn test_initiate_withdrawal_normalizes_response() {
    let resp = initiate_withdrawal(raw_withdrawal()).unwrap();
    assert_eq!(resp.transaction_id, "txn-002");
    assert_eq!(resp.status, TransactionStatus::PendingUser);
    assert_eq!(resp.memo_type, Some("id".to_string()));
    assert_eq!(resp.dest_account_id, Some("bank-account-9876".to_string()));
}

#[test]
fn test_initiate_withdrawal_missing_account_returns_error() {
    let mut raw = raw_withdrawal();
    raw.account_id = "".to_string();
    assert_eq!(
        initiate_withdrawal(raw),
        Err(Error::invalid_transaction_intent())
    );
}

#[test]
fn test_fetch_transaction_status_normalizes_response() {
    let resp = fetch_transaction_status(raw_tx_status()).unwrap();
    assert_eq!(resp.status, TransactionStatus::Completed);
    assert_eq!(resp.kind, TransactionKind::Deposit);
    assert_eq!(resp.amount_out, Some(99));
}

#[test]
fn test_fetch_transaction_status_missing_id_returns_error() {
    let mut raw = raw_tx_status();
    raw.transaction_id = "".to_string();
    assert_eq!(
        fetch_transaction_status(raw),
        Err(Error::invalid_transaction_intent())
    );
}

#[test]
fn test_fetch_transaction_status_unknown_status_maps_to_error() {
    let mut raw = raw_tx_status();
    raw.status = "some_unknown_status".to_string();
    let resp = fetch_transaction_status(raw).unwrap();
    assert_eq!(resp.status, TransactionStatus::Unknown("some_unknown_status".to_string()));
}

#[test]
fn test_withdrawal_kind_normalization() {
    let mut raw = raw_tx_status();
    raw.kind = Some("withdraw".to_string());
    let resp = fetch_transaction_status(raw).unwrap();
    assert_eq!(resp.kind, TransactionKind::Withdrawal);

    // Mixed-case withdrawal variants
    for s in &["Withdrawal", "WITHDRAWAL", "Withdraw", "WITHDRAW"] {
        let mut r = raw_tx_status();
        r.kind = Some(s.to_string());
        assert_eq!(fetch_transaction_status(r).unwrap().kind, TransactionKind::Withdrawal, "failed for {s}");
    }

    // Mixed-case deposit variants
    for s in &["Deposit", "DEPOSIT", "deposit"] {
        let mut r = raw_tx_status();
        r.kind = Some(s.to_string());
        assert_eq!(fetch_transaction_status(r).unwrap().kind, TransactionKind::Deposit, "failed for {s}");
    }
}

#[test]
fn test_initiate_deposit_fee_percent_propagated() {
    let mut raw = raw_deposit();
    raw.fee_percent = Some(150);
    let resp = initiate_deposit(raw).unwrap();
    assert_eq!(resp.fee_percent, Some(150));
}

#[test]
fn test_initiate_withdrawal_fee_percent_propagated() {
    let mut raw = raw_withdrawal();
    raw.fee_percent = Some(50);
    let resp = initiate_withdrawal(raw).unwrap();
    assert_eq!(resp.fee_percent, Some(50));
}

const VALID_ACCOUNT: &str = "GAAZI4TCR3TY5OJHCTJC2A4QSY6CJWJH5IAJTGKIN2ER7LBNVKOCCWN";

fn make_raw_tx(id: &str, status: &str) -> RawTransactionResponse {
    RawTransactionResponse {
        transaction_id: id.to_string(),
        kind: Some("deposit".to_string()),
        status: status.to_string(),
        amount_in: None,
        amount_out: None,
        amount_fee: None,
        message: None,
    }
}

fn base_req() -> RawTransactionListRequest {
    RawTransactionListRequest {
        account: VALID_ACCOUNT.to_string(),
        asset_code: "USDC".to_string(),
        limit: 10,
        cursor: None,
    }
}

#[test]
fn test_list_transactions_returns_all_items() {
    let items = vec![
        make_raw_tx("t1", "completed"),
        make_raw_tx("t2", "pending"),
    ];
    let result = list_transactions(base_req(), items).unwrap();
    assert_eq!(result.len(), 2);
    assert_eq!(result[0].transaction_id, "t1");
    assert_eq!(result[1].transaction_id, "t2");
}

#[test]
fn test_list_transactions_respects_limit() {
    let items = vec![
        make_raw_tx("t1", "completed"),
        make_raw_tx("t2", "completed"),
        make_raw_tx("t3", "completed"),
    ];
    let mut req = base_req();
    req.limit = 2;
    let result = list_transactions(req, items).unwrap();
    assert_eq!(result.len(), 2);
}

#[test]
fn test_list_transactions_cursor_pagination() {
    let items = vec![
        make_raw_tx("t1", "completed"),
        make_raw_tx("t2", "completed"),
        make_raw_tx("t3", "completed"),
    ];
    let mut req = base_req();
    req.cursor = Some("t1".to_string());
    let result = list_transactions(req, items).unwrap();
    // t1 is the cursor — items after it are t2, t3
    assert_eq!(result.len(), 2);
    assert_eq!(result[0].transaction_id, "t2");
}

#[test]
fn test_list_transactions_invalid_account_returns_error() {
    let result = list_transactions(
        RawTransactionListRequest {
            account: "bad-account".to_string(),
            asset_code: "USDC".to_string(),
            limit: 10,
            cursor: None,
        },
        vec![],
    );
    assert_eq!(result.unwrap_err().code, ErrorCode::ValidationError);
}

#[test]
fn test_list_transactions_empty_asset_code_returns_error() {
    let mut req = base_req();
    req.asset_code = "".to_string();
    let result = list_transactions(req, vec![]);
    assert_eq!(result.unwrap_err().code, ErrorCode::ValidationError);
}

// ── further cases ────────────────────────────────────────────────────────────

const ACCOUNT_56: &str = "GAAZI4TCR3TY5OJHCTJC2A4QSY6CJWJH5IAJTGKIN2ER7LBNVKOCCWNA";

#[test]
fn stellar_address_rules() {
    let check = |a: &str| {
        let mut raw = raw_deposit();
        raw.depositor_account = Some(a.to_string());
        initiate_deposit(raw).is_ok()
    };
    assert!(check(ACCOUNT_56));
    assert!(!check(&format!("{}A", ACCOUNT_56)));
    assert!(!check(&ACCOUNT_56.replacen('G', "X", 1)));
    assert!(!check(&ACCOUNT_56.replacen('A', "-", 1)));
    assert!(!check("GABC123"));
}

#[test]
fn invalid_depositor_error_names_the_address() {
    let mut raw = raw_deposit();
    raw.depositor_account = Some("bad".to_string());
    let err = initiate_deposit(raw).unwrap_err();
    assert_eq!(err.message, "Invalid Stellar address");
    assert_eq!(err.context, Some("bad".to_string()));
}

#[test]
fn missing_how_is_an_invalid_intent() {
    let mut raw = raw_deposit();
    raw.how = String::new();
    raw.depositor_account = Some("bad".to_string());
    assert_eq!(initiate_deposit(raw), Err(Error::invalid_transaction_intent()));
}

#[test]
fn deposit_fields_carried_over() {
    let mut raw = raw_deposit();
    raw.extra_info = Some("memo required".to_string());
    let resp = initiate_deposit(raw).unwrap();
    assert_eq!(resp.how, "Send to bank account 1234");
    assert_eq!(resp.extra_info, Some("memo required".to_string()));
    assert_eq!(resp.min_amount, Some(10));
    assert_eq!(resp.max_amount, Some(10_000));
}

#[test]
fn status_strings_round_trip() {
    let names = [
        "pending", "incomplete", "pending_external", "pending_anchor", "pending_trust",
        "pending_user", "completed", "refunded", "expired", "whatever",
    ];
    for name in names {
        assert_eq!(TransactionStatus::from_str(name).as_str(), name);
    }
    assert_eq!(TransactionStatus::from_str("pending_user_transfer_start"), TransactionStatus::PendingUser);
    assert_eq!(TransactionStatus::from_str("error"), TransactionStatus::Unknown("error".to_string()));
    assert_eq!(TransactionStatus::Error.as_str(), "error");
    assert_eq!(TransactionStatus::from_str("Completed"), TransactionStatus::Unknown("Completed".to_string()));
}

#[test]
fn kind_strings() {
    assert_eq!(TransactionKind::from_str("wItHdRaW"), TransactionKind::Withdrawal);
    assert_eq!(TransactionKind::from_str("withdrawals"), TransactionKind::Deposit);
    assert_eq!(TransactionKind::from_str(""), TransactionKind::Deposit);
    let mut raw = raw_tx_status();
    raw.kind = None;
    assert_eq!(fetch_transaction_status(raw).unwrap().kind, TransactionKind::Deposit);
}

#[test]
fn listing_skips_items_without_id_and_repeated_cursor() {
    let items = vec![
        make_raw_tx("t0", "completed"),
        make_raw_tx("t1", "completed"),
        make_raw_tx("", "completed"),
        make_raw_tx("t1", "completed"),
        make_raw_tx("t2", "completed"),
        make_raw_tx("t3", "completed"),
    ];
    let mut req = base_req();
    req.cursor = Some("t1".to_string());
    req.limit = 1;
    let result = list_transactions(req, items).unwrap();
    assert_eq!(result.len(), 1);
    assert_eq!(result[0].transaction_id, "t2");
}

#[test]
fn listing_with_unknown_cursor_or_zero_limit_is_empty() {
    let items = vec![make_raw_tx("t1", "completed"), make_raw_tx("t2", "completed")];
    let mut req = base_req();
    req.cursor = Some("nope".to_string());
    assert!(list_transactions(req, items).unwrap().is_empty());
    let items = vec![make_raw_tx("t1", "completed")];
    let mut req = base_req();
    req.limit = 0;
    assert!(list_transactions(req, items).unwrap().is_empty());
}

#[test]
fn empty_asset_code_error_context() {
    let mut req = base_req();
    req.asset_code = String::new();
    let err = list_transactions(req, vec![]).unwrap_err();
    assert_eq!(err.message, "asset_code must not be empty");
    assert_eq!(err.context, Some("asset_code".to_string()));
}

#[test]
fn cursor_listing_equals_listing_of_the_rest() {
    let ids = ["a", "c", "b", "", "c", "d", "e", "f"];
    let all = || ids.iter().map(|id| make_raw_tx(id, "completed")).collect::<Vec<_>>();
    // The items after the first "c", without those whose ID is "c".
    let rest = || {
        ids[2..]
            .iter()
            .filter(|id| **id != "c")
            .map(|id| make_raw_tx(id, "completed"))
            .collect::<Vec<_>>()
    };
    for limit in 0..8u32 {
        let mut with_cursor = base_req();
        with_cursor.cursor = Some("c".to_string());
        with_cursor.limit = limit;
        let mut without = base_req();
        without.limit = limit;
        let a = list_transactions(with_cursor, all()).unwrap();
        let b = list_transactions(without, rest()).unwrap();
        let a_ids: Vec<String> = a.iter().map(|t| t.transaction_id.clone()).collect();
        let b_ids: Vec<String> = b.iter().map(|t| t.transaction_id.clone()).collect();
        assert_eq!(a_ids, b_ids);
        assert!(a_ids.len() <= limit as usize);
    }
    let mut req = base_req();
    req.cursor = Some("c".to_string());
    let page = list_transactions(req, all()).unwrap();
    let page_ids: Vec<&str> = page.iter().map(|t| t.transaction_id.as_str()).collect();
    assert_eq!(page_ids, vec!["b", "d", "e", "f"]);
}
