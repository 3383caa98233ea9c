use etherscan::etherscan::{
    resolve_response, Address, ApiError, EthBalanceResult, Etherscan, EtherscanApiResponse,
    FetchError, GasResult, PriceResult, Route,
};

fn counting_address() -> Address {
    let mut bytes = [0u8; 20];
    for (i, b) in bytes.iter_mut().enumerate() {
        *b = i as u8;
    }
    Address(bytes)
}

fn gas_sample() -> GasResult {
    GasResult {
        last_block: "100".to_string(),
        safe_gas_price: "10".to_string(),
        propose_gas_price: "12".to_string(),
        fast_gas_price: "15".to_string(),
        suggested_base_fee: "9.5".to_string(),
    }
}

#[test]
fn address_renders_as_lowercase_hex() {
    assert_eq!(
        "0x000102030405060708090a0b0c0d0e0f10111213",
        counting_address().to_hex_string()
    );
    assert_eq!(
        "0xabababababababababababababababababababab",
        Address([0xab; 20]).to_hex_string()
    );
}

#[test]
fn gas_url() {
    let client = Etherscan::new("KEY".to_string());
    assert_eq!(
        "https://api.etherscan.io/api?action=gasoracle&apikey=KEY&module=gastracker&",
        client.request_url(&Route::Gas)
    );
}

#[test]
fn price_url() {
    let client = Etherscan::new("KEY".to_string());
    assert_eq!(
        "https://api.etherscan.io/api?action=ethprice&apikey=KEY&module=stats&",
        client.request_url(&Route::Price)
    );
}

#[test]
fn balance_and_token_balance_urls() {
    let client = Etherscan::new("KEY".to_string());
    let addr = counting_address();
    let token = Address([0xff; 20]);
    let plain = client.request_url(&Route::Balance(addr));
    let with_token = client.request_url(&Route::TokenBalance(addr, token));
    assert_eq!(
        "https://api.etherscan.io/api?action=balance\
         &address=0x000102030405060708090a0b0c0d0e0f10111213&apikey=KEY&module=account&tag=latest&",
        plain
    );
    assert_eq!(
        "https://api.etherscan.io/api?action=tokenbalance\
         &address=0x000102030405060708090a0b0c0d0e0f10111213&apikey=KEY\
         &contractaddress=0xffffffffffffffffffffffffffffffffffffffff&module=account&tag=latest&",
        with_token
    );
    assert!(!plain.contains("contractaddress"));
    assert_eq!(
        plain.replace("action=balance", "action=tokenbalance"),
        with_token.replace("&contractaddress=0xffffffffffffffffffffffffffffffffffffffff", "")
    );
}

#[test]
fn request_builder_matches_url() {
    let client = Etherscan::new("k".to_string());
    let b = client.request(&Route::Gas);
    assert_eq!("https", b.protocol());
    assert_eq!("api.etherscan.io/api", b.host());
    assert_eq!(0, b.port());
    assert_eq!(client.request_url(&Route::Gas), b.build());
}

#[test]
fn balance_route_from_optional_token() {
    let addr = counting_address();
    let token = Address([9; 20]);
    assert_eq!(Route::Balance(addr), Route::balance(addr, None));
    assert_eq!(Route::TokenBalance(addr, token), Route::balance(addr, Some(token)));
}

#[test]
fn route_names() {
    assert_eq!("gas", Route::Gas.name());
    assert_eq!("price", Route::Price.name());
    assert_eq!("balance", Route::Balance(Address([0; 20])).name());
    assert_eq!(
        "tokenbalance",
        Route::TokenBalance(Address([0; 20]), Address([1; 20])).name()
    );
}

#[test]
fn gas_envelope_yields_gas_info() {
    let resp = EtherscanApiResponse {
        status: "1".to_string(),
        message: "OK".to_string(),
        result: Some(gas_sample()),
    };
    let r = resolve_response(&Route::Gas, Ok(resp));
    assert_eq!(Ok(gas_sample()), r);
}

#[test]
fn price_envelope_yields_price_info() {
    let price = || PriceResult { eth_usd_price: "3000.1".to_string(), eth_btc_price: "0.05".to_string() };
    let resp = EtherscanApiResponse {
        status: "1".to_string(),
        message: "OK".to_string(),
        result: Some(price()),
    };
    assert_eq!(Ok(price()), resolve_response(&Route::Price, Ok(resp)));
}

#[test]
fn balance_envelope_yields_balance() {
    let resp = EtherscanApiResponse {
        status: "1".to_string(),
        message: "OK".to_string(),
        result: Some(EthBalanceResult { balance: "40891626854930000000000".to_string() }),
    };
    let r = resolve_response(&Route::Balance(counting_address()), Ok(resp));
    assert_eq!(Ok(EthBalanceResult { balance: "40891626854930000000000".to_string() }), r);
}

#[test]
fn null_result_is_empty_result_error_for_every_route() {
    let routes = [
        Route::Gas,
        Route::Price,
        Route::Balance(counting_address()),
        Route::TokenBalance(counting_address(), Address([7; 20])),
    ];
    for route in routes.iter() {
        let resp: EtherscanApiResponse<GasResult> = EtherscanApiResponse {
            status: "0".to_string(),
            message: "NOTOK".to_string(),
            result: None,
        };
        let r = resolve_response(route, Ok(resp));
        assert_eq!(
            Err(ApiError::EmptyResult { status: "0".to_string(), message: "NOTOK".to_string() }),
            r
        );
    }
}

#[test]
fn decode_failure_is_decode_error_with_route_name() {
    let r: Result<GasResult, ApiError> =
        resolve_response(&Route::Gas, Err(FetchError::Decode("expected value".to_string())));
    assert_eq!(
        Err(ApiError::Decode { route: "gas".to_string(), detail: "expected value".to_string() }),
        r
    );
    let r: Result<EthBalanceResult, ApiError> = resolve_response(
        &Route::TokenBalance(Address([1; 20]), Address([2; 20])),
        Err(FetchError::Decode("bad".to_string())),
    );
    assert_eq!(
        Err(ApiError::Decode { route: "tokenbalance".to_string(), detail: "bad".to_string() }),
        r
    );
}

#[test]
fn transport_failure_is_transport_error() {
    let r: Result<PriceResult, ApiError> =
        resolve_response(&Route::Price, Err(FetchError::Transport("timed out".to_string())));
    assert_eq!(Err(ApiError::Transport("timed out".to_string())), r);
}

#[test]
fn error_kinds_are_distinct() {
    let decode: Result<GasResult, ApiError> =
        resolve_response(&Route::Gas, Err(FetchError::Decode("x".to_string())));
    let transport: Result<GasResult, ApiError> =
        resolve_response(&Route::Gas, Err(FetchError::Transport("x".to_string())));
    let empty: Result<GasResult, ApiError> = resolve_response(
        &Route::Gas,
        Ok(EtherscanApiResponse { status: "x".to_string(), message: "x".to_string(), result: None }),
    );
    assert!(matches!(decode, Err(ApiError::Decode { .. })));
    assert!(matches!(transport, Err(ApiError::Transport(_))));
    assert!(matches!(empty, Err(ApiError::EmptyResult { .. })));
}
