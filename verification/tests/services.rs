use anchorkit::{ServiceType, SERVICE_DEPOSITS, SERVICE_KYC, SERVICE_QUOTES, SERVICE_WITHDRAWALS};

#[test]
fn test_service_type_values() {
    assert_eq!(ServiceType::Deposits.as_u32(), SERVICE_DEPOSITS);
    assert_eq!(ServiceType::Withdrawals.as_u32(), SERVICE_WITHDRAWALS);
    assert_eq!(ServiceType::Quotes.as_u32(), SERVICE_QUOTES);
    assert_eq!(ServiceType::KYC.as_u32(), SERVICE_KYC);
}

#[test]
fn service_codes_are_one_to_four() {
    assert_eq!(
        [SERVICE_DEPOSITS, SERVICE_WITHDRAWALS, SERVICE_QUOTES, SERVICE_KYC],
        [1, 2, 3, 4]
    );
}
