use stellar_fee_tracker::insights::horizon_adapter::{
    collect_fee_points, convert_to_fee_data_point, HorizonFeeDataProvider, HorizonTransactionRecord,
    ProviderError,
};
use stellar_fee_tracker::services::horizon::HorizonClient;

#[test]
fn horizon_client_base_url_is_stored() {
    let client = HorizonClient::new("https://horizon-testnet.stellar.org".into());
    assert_eq!(client.base_url(), "https://horizon-testnet.stellar.org");
}

#[test]
fn horizon_endpoint_urls() {
    let client = HorizonClient::new("https://horizon.example".into());
    assert_eq!(client.fee_stats_url(), "https://horizon.example/fee_stats");
    assert_eq!(client.transactions_url(100), "https://horizon.example/transactions?order=desc&limit=100");
    let provider = HorizonFeeDataProvider::new(client.clone());
    assert_eq!(provider.provider_name(), "Horizon");
    assert_eq!(
        provider.recent_transactions_url(),
        "https://horizon.example/transactions?order=desc&limit=100"
    );
    let meta = provider.get_metadata();
    assert!(meta.supports_historical);
    assert_eq!(meta.max_batch_size, 200);
    assert_eq!(meta.rate_limit_per_minute, Some(3600));
    assert_eq!(meta.data_freshness_seconds, 5);
}

fn record(fee: &str, created_at: &str, successful: bool) -> HorizonTransactionRecord {
    HorizonTransactionRecord {
        hash: "abc".to_string(),
        ledger: 42,
        created_at: created_at.to_string(),
        fee_charged: fee.to_string(),
        successful,
    }
}

fn format_message(e: ProviderError) -> String {
    match e {
        ProviderError::FormatError { message } => message,
        ProviderError::NetworkError { message } => panic!("unexpected network error: {message}"),
    }
}

#[test]
fn transaction_records_become_fee_points() {
    let p = convert_to_fee_data_point(record("100", "2023-11-14T22:13:20Z", true)).unwrap();
    assert_eq!(p.fee_amount, 100);
    assert_eq!(p.timestamp, 1_700_000_000_000);
    assert_eq!(p.transaction_hash, "abc");
    assert_eq!(p.ledger_sequence, 42);
    let q = convert_to_fee_data_point(record("+7", "2023-11-14T23:13:20.5+01:00", true)).unwrap();
    assert_eq!((q.fee_amount, q.timestamp), (7, 1_700_000_000_500));
}

#[test]
fn bad_records_are_format_errors() {
    let e = convert_to_fee_data_point(record("100", "2023-11-14T22:13:20Z", false)).unwrap_err();
    assert_eq!(format_message(e), "Transaction was not successful");
    let e = convert_to_fee_data_point(record("12x", "2023-11-14T22:13:20Z", true)).unwrap_err();
    assert_eq!(format_message(e), "Invalid fee amount '12x': invalid digit found in string");
    let e = convert_to_fee_data_point(record("18446744073709551616", "2023-11-14T22:13:20Z", true)).unwrap_err();
    assert!(format_message(e).starts_with("Invalid fee amount '18446744073709551616': "));
    let e = convert_to_fee_data_point(record("100", "yesterday", true)).unwrap_err();
    assert!(format_message(e).starts_with("Invalid timestamp 'yesterday': "));
}

#[test]
fn fetched_records_keep_the_valid_ones() {
    let records = vec![
        record("100", "2023-11-14T22:13:20Z", true),
        record("bad", "2023-11-14T22:13:20Z", true),
        record("300", "2023-11-14T22:13:21Z", false),
        record("400", "2023-11-14T22:13:22Z", true),
    ];
    let points = collect_fee_points(records).unwrap();
    assert_eq!(points.iter().map(|p| p.fee_amount).collect::<Vec<_>>(), vec![100, 400]);
    let none = collect_fee_points(vec![record("1", "x", true)]).unwrap_err();
    assert_eq!(format_message(none), "No valid fee data points found in recent transactions");
}
