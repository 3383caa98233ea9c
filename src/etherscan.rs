use crate::key_order::{key_lt, lemma_key_lt_irreflexive};
use crate::url::{lemma_with_param_last, url_text, URLBuilder, UrlModel};
use vstd::prelude::*;

verus! {

/// A 20-byte account or contract address.
#[derive(Debug, Clone, Copy, PartialEq, Eq)]
pub struct Address(pub [u8; 20]);

/// The logical operations of the API.
#[derive(Debug, Clone, Copy, PartialEq, Eq)]
pub enum Route {
    /// Current gas-price oracle data.
    Gas,
    /// ETH spot price.
    Price,
    /// Native balance of an address.
    Balance(Address),
    /// Balance of an address in the token at a contract address.
    TokenBalance(Address, Address),
}

/// Gas-price oracle data, as the decimal strings the API returns.
#[derive(Debug, PartialEq, Eq)]
pub struct GasResult {
    pub last_block: String,
    pub safe_gas_price: String,
    pub propose_gas_price: String,
    pub fast_gas_price: String,
    pub suggested_base_fee: String,
}

/// ETH spot prices, as decimal strings.
#[derive(Debug, PartialEq, Eq)]
pub struct PriceResult {
    pub eth_usd_price: String,
    pub eth_btc_price: String,
}

/// A balance in wei or in the token's smallest unit, as a decimal string.
#[derive(Debug, PartialEq, Eq)]
pub struct EthBalanceResult {
    pub balance: String,
}

/// The envelope the API wraps every result in.
#[derive(Debug, PartialEq, Eq)]
pub struct EtherscanApiResponse<T> {
    pub message: String,
    pub status: String,
    pub result: Option<T>,
}

/// Why no envelope could be obtained for a request.
#[derive(Debug, PartialEq, Eq)]
pub enum FetchError {
    /// Connection, DNS or timeout failure, with its description.
    Transport(String),
    /// The body was not JSON or did not match the envelope's schema.
    Decode(String),
}

/// The failures a client call reports to its caller.
#[derive(Debug, PartialEq, Eq)]
pub enum ApiError {
    /// The request did not complete.
    Transport(String),
    /// The body of the response to `route` could not be decoded.
    Decode { route: String, detail: String },
    /// The envelope held no result; `status` and `message` are the provider's.
    EmptyResult { status: String, message: String },
}

/// The lowercase hexadecimal digit for `n` (below sixteen).
pub open spec fn hex_digit(n: u8) -> char {
    seq!['0', '1', '2', '3', '4', '5', '6', '7', '8', '9', 'a', 'b', 'c', 'd', 'e', 'f'][n as int]
}

/// Each byte as two lowercase hexadecimal digits, high nibble first.
pub open spec fn hex_text(b: Seq<u8>) -> Seq<char>
    decreases b.len(),
{
    if b.len() == 0 {
        Seq::empty()
    } else {
        hex_text(b.drop_last()) + seq![hex_digit(b.last() / 16), hex_digit(b.last() % 16)]
    }
}

/// `0x` followed by the address in lowercase hexadecimal.
pub open spec fn address_text(a: Address) -> Seq<char> {
    seq!['0', 'x'] + hex_text(a.0@)
}

/// Relies on hex::encode: each byte becomes two lowercase hexadecimal
/// digits, high nibble first.
#[verifier::external_body]
fn encode_hex(bytes: &[u8]) -> (r: String)
    ensures
        r@ == hex_text(bytes@),
{
    hex::encode(bytes)
}

impl Address {
    /// The address as `0x` followed by forty lowercase hexadecimal digits.
    pub fn to_hex_string(&self) -> (r: String)
        ensures
            r@ == address_text(*self),
    {
        let mut s = "0x".to_owned();
        let digits = encode_hex(self.0.as_slice());
        s.append(digits.as_str());
        proof {
            reveal_strlit("0x");
        }
        assert(s@ =~= address_text(*self));
        s
    }
}

/// The host and path that every request goes to.
pub open spec fn api_host() -> Seq<char> {
    "api.etherscan.io/api"@
}

/// The query parameters of `route`, ordered by key.
pub open spec fn route_params(route: Route, key: Seq<char>) -> Seq<(Seq<char>, Seq<char>)> {
    match route {
        Route::Gas => seq![
            ("action"@, "gasoracle"@),
            ("apikey"@, key),
            ("module"@, "gastracker"@),
        ],
        Route::Price => seq![("action"@, "ethprice"@), ("apikey"@, key), ("module"@, "stats"@)],
        Route::Balance(a) => seq![
            ("action"@, "balance"@),
            ("address"@, address_text(a)),
            ("apikey"@, key),
            ("module"@, "account"@),
            ("tag"@, "latest"@),
        ],
        Route::TokenBalance(a, c) => seq![
            ("action"@, "tokenbalance"@),
            ("address"@, address_text(a)),
            ("apikey"@, key),
            ("contractaddress"@, address_text(c)),
            ("module"@, "account"@),
            ("tag"@, "latest"@),
        ],
    }
}

/// The builder state for a request on `route` with API key `key`.
pub open spec fn route_request(route: Route, key: Seq<char>) -> UrlModel {
    UrlModel { protocol: "https"@, host: api_host(), port: 0, params: route_params(route, key) }
}

/// The name of `route` that decode errors carry.
pub open spec fn route_name(route: Route) -> Seq<char> {
    match route {
        Route::Gas => "gas"@,
        Route::Price => "price"@,
        Route::Balance(_) => "balance"@,
        Route::TokenBalance(_, _) => "tokenbalance"@,
    }
}

/// The order of the parameter names that routes use:
/// `action < address < apikey < contractaddress < module < tag`.
proof fn lemma_param_names_ordered()
    ensures
        key_lt("action"@, "address"@),
        key_lt("action"@, "apikey"@),
        key_lt("action"@, "contractaddress"@),
        key_lt("action"@, "module"@),
        key_lt("action"@, "tag"@),
        key_lt("address"@, "apikey"@),
        key_lt("address"@, "contractaddress"@),
        key_lt("address"@, "module"@),
        key_lt("address"@, "tag"@),
        key_lt("apikey"@, "contractaddress"@),
        key_lt("apikey"@, "module"@),
        key_lt("apikey"@, "tag"@),
        key_lt("contractaddress"@, "module"@),
        key_lt("contractaddress"@, "tag"@),
        key_lt("module"@, "tag"@),
{
    reveal_strlit("module");
    reveal_strlit("action");
    reveal_strlit("address");
    reveal_strlit("contractaddress");
    reveal_strlit("tag");
    reveal_strlit("apikey");
    reveal_with_fuel(key_lt, 3);
}

/// Appends a parameter whose key comes after every key already present.
fn push_param(b: &mut URLBuilder, k: &str, v: &str)
    requires
        old(b).wf(),
        forall|i: int| 0 <= i < old(b)@.params.len() ==> key_lt(#[trigger] old(b)@.params[i].0, k@),
    ensures
        final(b).wf(),
        final(b)@ == (UrlModel { params: old(b)@.params.push((k@, v@)), ..old(b)@ }),
{
    proof {
        lemma_with_param_last(b@.params, k@, v@);
    }
    b.add_param(k, v);
}

/// A balance request for a token differs from the plain balance request for
/// the same address in exactly two ways: its `action` is `tokenbalance` where
/// the other's is `balance`, and it carries a `contractaddress` parameter that
/// the other lacks. Protocol, host, port and all other parameters agree.
pub proof fn lemma_token_balance_request(key: Seq<char>, address: Address, token: Address)
    ensures
        ({
            let plain = route_request(Route::Balance(address), key);
            let tok = route_request(Route::TokenBalance(address, token), key);
            &&& plain.protocol == tok.protocol
            &&& plain.host == tok.host
            &&& plain.port == tok.port
            &&& plain.params[0] == ("action"@, "balance"@)
            &&& tok.params[0] == ("action"@, "tokenbalance"@)
            &&& "balance"@ != "tokenbalance"@
            &&& tok.params[3] == ("contractaddress"@, address_text(token))
            &&& tok.params.remove(3) == plain.params.update(0, ("action"@, "tokenbalance"@))
            &&& forall|i: int| 0 <= i < plain.params.len() ==> plain.params[i].0 != "contractaddress"@
        }),
{
    lemma_param_names_ordered();
    lemma_key_lt_irreflexive("contractaddress"@);
    reveal_strlit("balance");
    reveal_strlit("tokenbalance");
    assert("balance"@.len() != "tokenbalance"@.len());
    let plain = route_request(Route::Balance(address), key);
    let tok = route_request(Route::TokenBalance(address, token), key);
    assert(tok.params.remove(3) =~= plain.params.update(0, ("action"@, "tokenbalance"@)));
}

impl Route {
    /// The balance route for `address`: in the token at `token_address` when
    /// one is given, the native balance otherwise.
    pub fn balance(address: Address, token_address: Option<Address>) -> (r: Route)
        ensures
            match token_address {
                None => r == Route::Balance(address),
                Some(t) => r == Route::TokenBalance(address, t),
            },
    {
        match token_address {
            None => Route::Balance(address),
            Some(t) => Route::TokenBalance(address, t),
        }
    }

    /// The route's name, as decode errors report it.
    pub fn name(&self) -> (r: &'static str)
        ensures
            r@ == route_name(*self),
    {
        match self {
            Route::Gas => "gas",
            Route::Price => "price",
            Route::Balance(_) => "balance",
            Route::TokenBalance(_, _) => "tokenbalance",
        }
    }
}

/// A client of the API, holding the key that every request carries.
#[derive(Debug, Default)]
pub struct Etherscan {
    api_key: String,
}

impl Etherscan {
    /// The API key.
    pub closed spec fn key(&self) -> Seq<char> {
        self.api_key@
    }

    /// A client that sends `api_key` with every request.
    pub fn new(api_key: String) -> (r: Etherscan)
        ensures
            r.key() == api_key@,
    {
        Etherscan { api_key }
    }

    /// The builder for a request on `route`: `https`, the API host, no port,
    /// and the route's parameters: its fixed `module` and `action`, its own
    /// address parameters, and the API key.
    pub fn request(&self, route: &Route) -> (r: URLBuilder)
        ensures
            r.wf(),
            r@ == route_request(*route, self.key()),
    {
        proof {
            lemma_param_names_ordered();
        }
        let mut b = URLBuilder::new();
        b.set_protocol("https");
        b.set_host("api.etherscan.io/api");
        match route {
            Route::Gas => {
                push_param(&mut b, "action", "gasoracle");
                push_param(&mut b, "apikey", self.api_key.as_str());
                push_param(&mut b, "module", "gastracker");
            },
            Route::Price => {
                push_param(&mut b, "action", "ethprice");
                push_param(&mut b, "apikey", self.api_key.as_str());
                push_param(&mut b, "module", "stats");
            },
            Route::Balance(a) => {
                push_param(&mut b, "action", "balance");
                push_param(&mut b, "address", a.to_hex_string().as_str());
                push_param(&mut b, "apikey", self.api_key.as_str());
                push_param(&mut b, "module", "account");
                push_param(&mut b, "tag", "latest");
            },
            Route::TokenBalance(a, c) => {
                push_param(&mut b, "action", "tokenbalance");
                push_param(&mut b, "address", a.to_hex_string().as_str());
                push_param(&mut b, "apikey", self.api_key.as_str());
                push_param(&mut b, "contractaddress", c.to_hex_string().as_str());
                push_param(&mut b, "module", "account");
                push_param(&mut b, "tag", "latest");
            },
        }
        assert(b@.params =~= route_params(*route, self.key()));
        b
    }

    /// The URL of a request on `route`.
    pub fn request_url(&self, route: &Route) -> (r: String)
        ensures
            r@ == url_text(route_request(*route, self.key())),
    {
        self.request(route).build()
    }
}

/// The outcome of a request on `route`, given what fetching and decoding its
/// response produced: the result when the envelope holds one; the envelope's
/// status and message when it holds none; the transport failure as it is; a
/// decode failure together with the route's name.
pub fn resolve_response<T>(route: &Route, fetched: Result<EtherscanApiResponse<T>, FetchError>) -> (r:
    Result<T, ApiError>)
    ensures
        match fetched {
            Ok(resp) => match resp.result {
                Some(v) => r == Ok::<T, ApiError>(v),
                None => r == Err::<T, ApiError>(
                    (ApiError::EmptyResult { status: resp.status, message: resp.message }),
                ),
            },
            Err(FetchError::Transport(m)) => r == Err::<T, ApiError>(ApiError::Transport(m)),
            Err(FetchError::Decode(d)) => match r {
                Err(ApiError::Decode { route: name, detail }) => name@ == route_name(*route)
                    && detail == d,
                _ => false,
            },
        },
{
    match fetched {
        Ok(resp) => match resp.result {
            Some(v) => Ok(v),
            None => Err(ApiError::EmptyResult { status: resp.status, message: resp.message }),
        },
        Err(FetchError::Transport(m)) => Err(ApiError::Transport(m)),
        Err(FetchError::Decode(d)) => Err(ApiError::Decode { route: route.name().to_owned(), detail: d }),
    }
}

} // verus!
