use solana_mirror::client::{classify_rpc_error, should_retry, JsonRpcMethod, SignaturePager};
use solana_mirror::Error;

#[test]
fn rpc_error_codes_classify_rate_limits() {
    assert_eq!(classify_rpc_error(429), Error::TooManyRequests);
    assert_eq!(classify_rpc_error(500), Error::FetchError);
    assert_eq!(classify_rpc_error(-32000), Error::FetchError);
}

#[test]
fn retry_only_on_rate_limit_with_attempts_left() {
    assert!(should_retry(&Error::TooManyRequests, 0, 3));
    assert!(should_retry(&Error::TooManyRequests, 2, 3));
    assert!(!should_retry(&Error::TooManyRequests, 3, 3));
    assert!(!should_retry(&Error::FetchError, 0, 3));
    assert!(!should_retry(&Error::ParseError, 1, 3));
}

#[test]
fn rpc_method_names_match_the_wire_protocol() {
    assert_eq!(JsonRpcMethod::GetBalance.to_string(), "getBalance");
    assert_eq!(JsonRpcMethod::GetDecimals.to_string(), "getTokenSupply");
    assert_eq!(
        JsonRpcMethod::GetSignaturesForAddress.to_string(),
        "getSignaturesForAddress"
    );
    assert_eq!(JsonRpcMethod::GetTransaction.to_string(), "getTransaction");
}

#[test]
fn pager_walks_until_a_short_page() {
    let mut pager = SignaturePager::new();
    assert!(!pager.done);
    let full_page: Vec<String> = (0..1000).map(|i| format!("sig{}", i)).collect();
    pager.step(&full_page);
    assert!(!pager.done);
    assert_eq!(pager.before, Some("sig999".to_string()));
    assert_eq!(pager.signatures.len(), 1000);
    let short_page = vec!["tail1".to_string(), "tail2".to_string()];
    pager.step(&short_page);
    assert!(pager.done);
    assert_eq!(pager.before, Some("tail2".to_string()));
    assert_eq!(pager.signatures.len(), 1002);
}

#[test]
fn pager_stops_on_an_empty_page() {
    let mut pager = SignaturePager::new();
    pager.step(&vec![]);
    assert!(pager.done);
    assert!(pager.signatures.is_empty());
    assert_eq!(pager.before, None);
}

#[test]
fn error_names_are_stable() {
    assert_eq!(Error::InvalidAddress.as_str(), "InvalidAddress");
    assert_eq!(Error::TooManyRequests.as_str(), "TooManyRequests");
    assert_eq!(Error::InvalidTimeframe.as_str(), "InvalidTimeframe");
}
