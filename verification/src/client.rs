//! The RPC client SDK: configuration, typed errors, endpoint URLs and the
//! framing of HTTP replies.
use vstd::prelude::*;

use crate::seqfind::{first_match, last_match};
use crate::types::{Address, H256};
use crate::text::{concat_str, decimal, parse_decimal, parse_decimal_spec, find_char, find_str, first_occurrence, is_char, matches_at, occurs_at,
    rfind_char, trim, trimmed};
use crate::rpc::{hex_decoding, parse_hex_bytes, without_hex_prefixes};
use vstd::string::StrSliceExecFns;
use vstd::string::StringExecFns;
use vstd::string::StringSliceAdditionalSpecFns;

verus! {

/// The default request timeout, in seconds.
pub fn default_timeout_secs() -> (r: u64)
    ensures
        r == 30,
{
    30
}

/// Client settings.
#[derive(Clone, Copy, Debug)]
pub struct ClientConfig {
    pub default_fee: u128,
    pub default_gas_limit: u64,
    /// Timeout in seconds for each RPC request (connect and read).
    pub request_timeout_secs: u64,
}

impl Default for ClientConfig {
    fn default() -> (c: Self)
        ensures
            c.default_fee == 2_000_000,
            c.default_gas_limit == 500_000,
            c.request_timeout_secs == 30,
    {
        ClientConfig { default_fee: 2_000_000, default_gas_limit: 500_000, request_timeout_secs: default_timeout_secs() }
    }
}

/// Errors of the SDK's public API.
#[derive(Debug)]
pub enum AetherSdkError {
    /// The transaction or job fields failed validation.
    Build(String),
    /// The transaction's signature is invalid.
    InvalidSignature(String),
    /// The fee is too low or its calculation overflowed.
    InvalidFee(String),
    /// Network I/O with the RPC endpoint failed.
    Network(String),
    /// The RPC server answered with an error.
    Rpc { code: i64, message: String },
    /// The endpoint URL is malformed or uses another scheme than http.
    InvalidEndpoint(String),
    /// Encoding or decoding a payload failed.
    Serialization(String),
    /// The server's HTTP reply could not be understood.
    InvalidResponse(String),
    /// The node returned another transaction hash than the one computed here.
    TxHashMismatch { expected: String, got: String },
    /// Connecting or reading took longer than the configured timeout.
    Timeout(String),
}

/// The decimal numeral of a signed integer.
pub open spec fn signed_decimal(x: int) -> Seq<char> {
    if x < 0 {
        seq!['-'] + decimal((-x) as nat)
    } else {
        decimal(x as nat)
    }
}

/// The text shown for an SDK error.
pub open spec fn sdk_error_text(e: AetherSdkError) -> Seq<char> {
    match e {
        AetherSdkError::Build(m) => "build error: "@ + m@,
        AetherSdkError::InvalidSignature(m) => "invalid signature: "@ + m@,
        AetherSdkError::InvalidFee(m) => "invalid fee: "@ + m@,
        AetherSdkError::Network(m) => "network error: "@ + m@,
        AetherSdkError::Rpc { code, message } => "rpc error "@ + signed_decimal(code as int) + ": "@ + message@,
        AetherSdkError::InvalidEndpoint(m) => "invalid endpoint: "@ + m@,
        AetherSdkError::Serialization(m) => "serialization error: "@ + m@,
        AetherSdkError::InvalidResponse(m) => "invalid response: "@ + m@,
        AetherSdkError::TxHashMismatch { expected, got } => "tx hash mismatch: expected "@ + expected@
            + ", got "@ + got@,
        AetherSdkError::Timeout(m) => "timeout: "@ + m@,
    }
}

/// Append the decimal numeral of a signed 64-bit value.
pub fn push_i64(s: &mut String, x: i64)
    ensures
        final(s)@ == old(s)@ + signed_decimal(x as int),
{
    if x < 0 {
        crate::text::push_char(s, '-');
        let magnitude: u128 = (0 - (x as i128)) as u128;
        crate::text::push_decimal(s, magnitude);
        proof {
            assert(s@ =~= old(s)@ + (seq!['-'] + decimal((-x) as nat)));
        }
    } else {
        crate::text::push_decimal(s, x as u128);
    }
}

impl AetherSdkError {
    /// A validation error.
    pub fn build(msg: &str) -> (e: Self)
        ensures
            e matches AetherSdkError::Build(m) && m@ == msg@,
    {
        AetherSdkError::Build(String::from_str(msg))
    }

    /// A network error.
    pub fn network(msg: &str) -> (e: Self)
        ensures
            e matches AetherSdkError::Network(m) && m@ == msg@,
    {
        AetherSdkError::Network(String::from_str(msg))
    }

    /// An endpoint error.
    pub fn invalid_endpoint(msg: &str) -> (e: Self)
        ensures
            e matches AetherSdkError::InvalidEndpoint(m) && m@ == msg@,
    {
        AetherSdkError::InvalidEndpoint(String::from_str(msg))
    }

    /// A (de)serialization error.
    pub fn serialization(msg: &str) -> (e: Self)
        ensures
            e matches AetherSdkError::Serialization(m) && m@ == msg@,
    {
        AetherSdkError::Serialization(String::from_str(msg))
    }

    /// A malformed-response error.
    pub fn invalid_response(msg: &str) -> (e: Self)
        ensures
            e matches AetherSdkError::InvalidResponse(m) && m@ == msg@,
    {
        AetherSdkError::InvalidResponse(String::from_str(msg))
    }

    /// The error's text.
    pub fn message(&self) -> (s: String)
        ensures
            s@ == sdk_error_text(*self),
    {
        match self {
            AetherSdkError::Build(m) => concat_str("build error: ", m.as_str()),
            AetherSdkError::InvalidSignature(m) => concat_str("invalid signature: ", m.as_str()),
            AetherSdkError::InvalidFee(m) => concat_str("invalid fee: ", m.as_str()),
            AetherSdkError::Network(m) => concat_str("network error: ", m.as_str()),
            AetherSdkError::Rpc { code, message } => {
                let mut s = String::from_str("rpc error ");
                push_i64(&mut s, *code);
                s.append(": ");
                s.append(message.as_str());
                s
            },
            AetherSdkError::InvalidEndpoint(m) => concat_str("invalid endpoint: ", m.as_str()),
            AetherSdkError::Serialization(m) => concat_str("serialization error: ", m.as_str()),
            AetherSdkError::InvalidResponse(m) => concat_str("invalid response: ", m.as_str()),
            AetherSdkError::TxHashMismatch { expected, got } => {
                let mut s = String::from_str("tx hash mismatch: expected ");
                s.append(expected.as_str());
                s.append(", got ");
                s.append(got.as_str());
                s
            },
            AetherSdkError::Timeout(m) => concat_str("timeout: ", m.as_str()),
        }
    }
}

/// An RPC client bound to one endpoint URL.
#[derive(Clone, Debug)]
pub struct AetherClient {
    endpoint: String,
    config: ClientConfig,
}

impl AetherClient {
    /// The endpoint URL.
    pub closed spec fn spec_endpoint(&self) -> Seq<char> {
        self.endpoint@
    }

    /// The configuration.
    pub closed spec fn spec_config(&self) -> ClientConfig {
        self.config
    }

    /// A client for `endpoint` with the default configuration.
    pub fn new(endpoint: &str) -> (c: Self)
        ensures
            c.spec_endpoint() == endpoint@,
            c.spec_config().default_fee == 2_000_000,
            c.spec_config().default_gas_limit == 500_000,
            c.spec_config().request_timeout_secs == 30,
    {
        AetherClient { endpoint: String::from_str(endpoint), config: ClientConfig::default() }
    }

    /// A client for `endpoint` with the given configuration.
    pub fn with_config(endpoint: &str, config: ClientConfig) -> (c: Self)
        ensures
            c.spec_endpoint() == endpoint@,
            c.spec_config() == config,
    {
        AetherClient { endpoint: String::from_str(endpoint), config }
    }

    /// The endpoint URL.
    pub fn endpoint(&self) -> (r: &str)
        ensures
            r@ == self.spec_endpoint(),
    {
        self.endpoint.as_str()
    }

    /// The configuration.
    pub fn config(&self) -> (r: &ClientConfig)
        ensures
            *r == self.spec_config(),
    {
        &self.config
    }
}

impl AetherClient {
    /// Start a token transfer with this client's default fee and gas limit.
    pub fn transfer(&self) -> (b: TransferBuilder)
        ensures
            b.spec_recipient() is None,
            b.spec_amount() is None,
            b.spec_memo() is None,
            b.spec_fee() == self.spec_config().default_fee,
            b.spec_gas_limit() == self.spec_config().default_gas_limit,
            b.spec_chain_id() == 1,
    {
        TransferBuilder::new(&self.config)
    }
}

/// The payload of a token transfer.
#[derive(Clone, Debug, PartialEq, Eq)]
pub struct TransferRequest {
    pub recipient: Address,
    pub amount: u128,
    pub memo: Option<String>,
}

/// The node's answer to a submitted transaction.
#[derive(Clone, Copy, Debug)]
pub struct SubmitResponse {
    pub tx_hash: H256,
    pub accepted: bool,
}

/// A token transfer being put together: recipient and amount are required,
/// the memo is optional, fee and gas limit start at the client's defaults
/// and the chain id at 1.
pub struct TransferBuilder {
    recipient: Option<Address>,
    amount: Option<u128>,
    memo: Option<String>,
    fee: u128,
    gas_limit: u64,
    chain_id: u64,
}

/// The text of an optional string.
pub open spec fn opt_text(s: Option<String>) -> Option<Seq<char>> {
    match s {
        Some(t) => Some(t@),
        None => None,
    }
}

impl TransferBuilder {
    pub closed spec fn spec_recipient(&self) -> Option<Address> {
        self.recipient
    }

    pub closed spec fn spec_amount(&self) -> Option<u128> {
        self.amount
    }

    pub closed spec fn spec_memo(&self) -> Option<Seq<char>> {
        opt_text(self.memo)
    }

    pub closed spec fn spec_fee(&self) -> u128 {
        self.fee
    }

    pub closed spec fn spec_gas_limit(&self) -> u64 {
        self.gas_limit
    }

    pub closed spec fn spec_chain_id(&self) -> u64 {
        self.chain_id
    }

    /// A transfer with nothing set but the defaults of `config`.
    pub(crate) fn new(config: &ClientConfig) -> (b: Self)
        ensures
            b.spec_recipient() is None,
            b.spec_amount() is None,
            b.spec_memo() is None,
            b.spec_fee() == config.default_fee,
            b.spec_gas_limit() == config.default_gas_limit,
            b.spec_chain_id() == 1,
    {
        TransferBuilder {
            recipient: None,
            amount: None,
            memo: None,
            fee: config.default_fee,
            gas_limit: config.default_gas_limit,
            chain_id: 1,
        }
    }

    /// Set the recipient.
    pub fn to(self, recipient: Address) -> (b: Self)
        ensures
            b.spec_recipient() == Some(recipient),
            b.spec_amount() == self.spec_amount(),
            b.spec_memo() == self.spec_memo(),
            b.spec_fee() == self.spec_fee(),
            b.spec_gas_limit() == self.spec_gas_limit(),
            b.spec_chain_id() == self.spec_chain_id(),
    {
        TransferBuilder { recipient: Some(recipient), ..self }
    }

    /// Set the amount, in base units.
    pub fn amount(self, amount: u128) -> (b: Self)
        ensures
            b.spec_recipient() == self.spec_recipient(),
            b.spec_amount() == Some(amount),
            b.spec_memo() == self.spec_memo(),
            b.spec_fee() == self.spec_fee(),
            b.spec_gas_limit() == self.spec_gas_limit(),
            b.spec_chain_id() == self.spec_chain_id(),
    {
        TransferBuilder { amount: Some(amount), ..self }
    }

    /// Attach a memo.
    pub fn memo(self, memo: &str) -> (b: Self)
        ensures
            b.spec_recipient() == self.spec_recipient(),
            b.spec_amount() == self.spec_amount(),
            b.spec_memo() == Some(memo@),
            b.spec_fee() == self.spec_fee(),
            b.spec_gas_limit() == self.spec_gas_limit(),
            b.spec_chain_id() == self.spec_chain_id(),
    {
        TransferBuilder { memo: Some(String::from_str(memo)), ..self }
    }

    /// Override the fee.
    pub fn fee(self, fee: u128) -> (b: Self)
        ensures
            b.spec_recipient() == self.spec_recipient(),
            b.spec_amount() == self.spec_amount(),
            b.spec_memo() == self.spec_memo(),
            b.spec_fee() == fee,
            b.spec_gas_limit() == self.spec_gas_limit(),
            b.spec_chain_id() == self.spec_chain_id(),
    {
        TransferBuilder { fee, ..self }
    }

    /// Override the gas limit.
    pub fn gas_limit(self, gas_limit: u64) -> (b: Self)
        ensures
            b.spec_recipient() == self.spec_recipient(),
            b.spec_amount() == self.spec_amount(),
            b.spec_memo() == self.spec_memo(),
            b.spec_fee() == self.spec_fee(),
            b.spec_gas_limit() == gas_limit,
            b.spec_chain_id() == self.spec_chain_id(),
    {
        TransferBuilder { gas_limit, ..self }
    }

    /// Set the chain id.
    pub fn chain_id(self, chain_id: u64) -> (b: Self)
        ensures
            b.spec_recipient() == self.spec_recipient(),
            b.spec_amount() == self.spec_amount(),
            b.spec_memo() == self.spec_memo(),
            b.spec_fee() == self.spec_fee(),
            b.spec_gas_limit() == self.spec_gas_limit(),
            b.spec_chain_id() == chain_id,
    {
        TransferBuilder { chain_id, ..self }
    }

    /// What the transaction is built from: the payload (recipient, amount,
    /// memo), the fee, the gas limit and the chain id; a missing recipient or
    /// amount is an error, the recipient checked first.
    pub fn prepare(&self) -> (r: Result<(TransferRequest, u128, u64, u64), String>)
        ensures
            self.spec_recipient() is None ==> r is Err && r->Err_0@ == "missing recipient"@,
            self.spec_recipient() is Some && self.spec_amount() is None ==> r is Err && r->Err_0@
                == "missing amount"@,
            self.spec_recipient() is Some && self.spec_amount() is Some ==> r is Ok && ({
                let (req, fee, gas_limit, chain_id) = r->Ok_0;
                &&& req.recipient == self.spec_recipient()->0
                &&& req.amount == self.spec_amount()->0
                &&& opt_text(req.memo) == self.spec_memo()
                &&& fee == self.spec_fee()
                &&& gas_limit == self.spec_gas_limit()
                &&& chain_id == self.spec_chain_id()
            }),
    {
        let recipient = match self.recipient {
            Some(a) => a,
            None => return Err(String::from_str("missing recipient")),
        };
        let amount = match self.amount {
            Some(x) => x,
            None => return Err(String::from_str("missing amount")),
        };
        let memo = match &self.memo {
            Some(m) => Some(String::from_str(m.as_str())),
            None => None,
        };
        Ok((TransferRequest { recipient, amount, memo }, self.fee, self.gas_limit, self.chain_id))
    }
}

/// `u16`'s parse of `p`: an optional `+`, then at least one digit, and a value that fits.
pub open spec fn parse_u16_spec(p: Seq<char>) -> Option<u16> {
    match parse_decimal_spec(p, 65535) {
        Some(v) => Some(v as u16),
        None => None,
    }
}

/// Parse a port number as `u16`'s `FromStr` does.
pub fn parse_u16(p: &str) -> (r: Option<u16>)
    ensures
        r == parse_u16_spec(p@),
{
    match parse_decimal(p, 65535) {
        Some(v) => Some(v as u16),
        None => None,
    }
}

/// An HTTP endpoint: host, port and request path.
#[derive(Debug)]
pub struct HttpEndpoint {
    pub host: String,
    pub port: u16,
    pub path: String,
}

/// The parts of an `http://` endpoint URL (host, port, path), or the error text.
pub open spec fn endpoint_parts(s: Seq<char>) -> Result<(Seq<char>, u16, Seq<char>), Seq<char>> {
    let t = trimmed(s);
    if !occurs_at(t, "http://"@, 0) {
        Err("only http:// endpoints are supported, got: "@ + t)
    } else {
        let w = t.subrange("http://"@.len() as int, t.len() as int);
        let slash = first_match(w, is_char('/'));
        let host_port = if slash == -1 {
            w
        } else {
            w.subrange(0, slash)
        };
        let path = if slash == -1 {
            "/"@
        } else {
            w.subrange(slash, w.len() as int)
        };
        let colon = last_match(host_port, is_char(':'));
        let port_text = host_port.subrange(colon + 1, host_port.len() as int);
        let host = if colon == -1 {
            host_port
        } else {
            host_port.subrange(0, colon)
        };
        if host_port.len() == 0 {
            Err("invalid endpoint host: "@ + s)
        } else if colon != -1 && parse_u16_spec(port_text) is None {
            Err("invalid endpoint port in "@ + s)
        } else if host.len() == 0 {
            Err("invalid endpoint host: "@ + s)
        } else if colon == -1 {
            Ok((host, 80u16, path))
        } else {
            Ok((host, parse_u16_spec(port_text)->0, path))
        }
    }
}

impl HttpEndpoint {
    /// Parse an `http://host[:port][/path]` URL; surrounding white space is ignored.
    pub fn parse(endpoint: &str) -> (r: Result<HttpEndpoint, AetherSdkError>)
        ensures
            match r {
                Ok(e) => endpoint_parts(endpoint@) == Ok::<(Seq<char>, u16, Seq<char>), Seq<char>>(
                    (e.host@, e.port, e.path@),
                ),
                Err(AetherSdkError::InvalidEndpoint(m)) => endpoint_parts(endpoint@) == Err::<
                    (Seq<char>, u16, Seq<char>),
                    Seq<char>,
                >(m@),
                Err(_) => false,
            },
    {
        let t = trim(endpoint);
        let scheme = "http://";
        proof {
            reveal_strlit("http://");
        }
        if !matches_at(t, scheme, 0) {
            return Err(AetherSdkError::InvalidEndpoint(concat_str("only http:// endpoints are supported, got: ", t)));
        }
        let tn = t.unicode_len();
        let w = t.substring_char(7, tn);
        let wn = w.unicode_len();
        let (host_port, path) = match find_char(w, '/') {
            Some(i) => (w.substring_char(0, i), String::from_str(w.substring_char(i, wn))),
            None => (w, String::from_str("/")),
        };
        let hn = host_port.unicode_len();
        if hn == 0 {
            return Err(AetherSdkError::InvalidEndpoint(concat_str("invalid endpoint host: ", endpoint)));
        }
        let (host, port) = match rfind_char(host_port, ':') {
            Some(j) => {
                match parse_u16(host_port.substring_char(j + 1, hn)) {
                    Some(p) => (host_port.substring_char(0, j), p),
                    None => {
                        return Err(
                            AetherSdkError::InvalidEndpoint(concat_str("invalid endpoint port in ", endpoint)),
                        );
                    },
                }
            },
            None => (host_port, 80u16),
        };
        if host.unicode_len() == 0 {
            return Err(AetherSdkError::InvalidEndpoint(concat_str("invalid endpoint host: ", endpoint)));
        }
        Ok(HttpEndpoint { host: String::from_str(host), port, path })
    }

    /// The `Host` header value: the host, with the port unless it is 80.
    pub fn host_header(&self) -> (s: String)
        ensures
            s@ == (if self.port == 80 {
                self.host@
            } else {
                self.host@ + seq![':'] + decimal(self.port as nat)
            }),
    {
        let mut s = String::from_str(self.host.as_str());
        if self.port != 80 {
            crate::text::push_char(&mut s, ':');
            crate::text::push_decimal(&mut s, self.port as u128);
            proof {
                assert(s@ =~= self.host@ + seq![':'] + decimal(self.port as nat));
            }
        }
        s
    }
}

/// The first line of `h`: up to the first line feed, without a carriage
/// return just before it.
pub open spec fn first_line(h: Seq<char>) -> Seq<char> {
    let j = first_match(h, is_char('\n'));
    if j == -1 {
        h
    } else if j > 0 && h[j - 1] == '\r' {
        h.subrange(0, j - 1)
    } else {
        h.subrange(0, j)
    }
}

/// The status line and body of an HTTP reply, or the error text.
pub open spec fn http_parts(s: Seq<char>) -> Result<(Seq<char>, Seq<char>), Seq<char>> {
    let i = first_occurrence(s, "\r\n\r\n"@);
    if i == -1 {
        Err("invalid http response from rpc endpoint"@)
    } else if i == 0 {
        Err("missing http status line"@)
    } else {
        Ok((first_line(s.subrange(0, i)), s.subrange(i + "\r\n\r\n"@.len(), s.len() as int)))
    }
}

/// Split an HTTP reply into its status line and its body.
pub fn parse_http_response(response: &str) -> (r: Result<(&str, &str), AetherSdkError>)
    ensures
        match r {
            Ok((status, body)) => http_parts(response@) == Ok::<(Seq<char>, Seq<char>), Seq<char>>(
                (status@, body@),
            ),
            Err(AetherSdkError::InvalidResponse(m)) => http_parts(response@) == Err::<
                (Seq<char>, Seq<char>),
                Seq<char>,
            >(m@),
            Err(_) => false,
        },
{
    let sep = "\r\n\r\n";
    proof {
        reveal_strlit("\r\n\r\n");
    }
    let i = match find_str(response, sep) {
        Some(i) => i,
        None => return Err(AetherSdkError::invalid_response("invalid http response from rpc endpoint")),
    };
    if i == 0 {
        return Err(AetherSdkError::invalid_response("missing http status line"));
    }
    let n = response.unicode_len();
    let headers = response.substring_char(0, i);
    let body = response.substring_char(i + 4, n);
    let status = match find_char(headers, '\n') {
        Some(j) => {
            if j > 0 && headers.get_char(j - 1) == '\r' {
                headers.substring_char(0, j - 1)
            } else {
                headers.substring_char(0, j)
            }
        },
        None => headers,
    };
    Ok((status, body))
}

/// The head of the HTTP request that posts `len` bytes of JSON to `path`
/// on the host named `host`.
pub open spec fn request_head_text(path: Seq<char>, host: Seq<char>, len: nat) -> Seq<char> {
    "POST "@ + path + " HTTP/1.1\r\nHost: "@ + host + "\r\nContent-Type: application/json\r\nContent-Length: "@
        + decimal(len) + "\r\nConnection: close\r\n\r\n"@
}

/// The `Host` header value of an endpoint.
pub open spec fn host_header_text(e: HttpEndpoint) -> Seq<char> {
    if e.port == 80 {
        e.host@
    } else {
        e.host@ + seq![':'] + decimal(e.port as nat)
    }
}

/// The head of the request posting `body_len` bytes of JSON to `endpoint`.
pub fn request_head(endpoint: &HttpEndpoint, body_len: usize) -> (s: String)
    ensures
        s@ == request_head_text(endpoint.path@, host_header_text(*endpoint), body_len as nat),
{
    let mut s = String::from_str("POST ");
    s.append(endpoint.path.as_str());
    s.append(" HTTP/1.1\r\nHost: ");
    let host = endpoint.host_header();
    s.append(host.as_str());
    s.append("\r\nContent-Type: application/json\r\nContent-Length: ");
    crate::text::push_decimal(&mut s, body_len as u128);
    s.append("\r\nConnection: close\r\n\r\n");
    s
}

/// Accept an HTTP status line only when it reports 200.
pub fn check_status(status_line: &str) -> (r: Result<(), AetherSdkError>)
    ensures
        first_occurrence(status_line@, " 200 "@) != -1 ==> r is Ok,
        first_occurrence(status_line@, " 200 "@) == -1 ==> (r matches Err(AetherSdkError::InvalidResponse(m))
            && m@ == "rpc returned non-success status: "@ + status_line@),
{
    match find_str(status_line, " 200 ") {
        Some(_) => Ok(()),
        None => Err(AetherSdkError::InvalidResponse(concat_str("rpc returned non-success status: ", status_line))),
    }
}

/// Read a transaction hash: hexadecimal text (a leading `0x` is allowed) of 32 bytes.
pub fn parse_h256_hex(value: &str) -> (r: Result<H256, AetherSdkError>)
    ensures
        match hex_decoding(without_hex_prefixes(value.spec_bytes())) {
            None => r matches Err(AetherSdkError::InvalidResponse(m)) && m@ == "invalid tx hash hex: "@ + value@,
            Some(b) => if b.len() == 32 {
                r matches Ok(h) && h.bytes@ == b
            } else {
                r matches Err(AetherSdkError::InvalidResponse(m)) && m@ == "invalid tx hash: expected 32 bytes, got "@
                    + decimal(b.len())
            },
        },
{
    let bytes = match parse_hex_bytes(value, "tx hash") {
        Ok(b) => b,
        Err(_) => return Err(AetherSdkError::InvalidResponse(concat_str("invalid tx hash hex: ", value))),
    };
    if bytes.len() != 32 {
        let mut m = String::from_str("invalid tx hash: expected 32 bytes, got ");
        crate::text::push_decimal(&mut m, bytes.len() as u128);
        return Err(AetherSdkError::InvalidResponse(m));
    }
    let mut h = [0u8; 32];
    let mut i: usize = 0;
    while i < 32
        invariant
            bytes@.len() == 32,
            i <= 32,
            forall|j: int| 0 <= j < i ==> h@[j] == bytes@[j],
        decreases 32 - i,
    {
        h.set(i, bytes[i]);
        i = i + 1;
    }
    proof {
        assert(h@ =~= bytes@);
    }
    Ok(H256 { bytes: h })
}

/// The transaction hash a JSON-RPC reply carries: its error when it has
/// one, else its result read as a hash.
pub fn returned_hash(result: Option<String>, error: Option<(i64, String)>) -> (r: Result<H256, AetherSdkError>)
    ensures
        error matches Some((code, message)) ==> (r matches Err(AetherSdkError::Rpc { code: c, message: m })
            && c == code && m@ == message@),
        error is None && result is None ==> (r matches Err(AetherSdkError::InvalidResponse(m))
            && m@ == "rpc response missing result"@),
        error is None && result is Some ==> match hex_decoding(
            without_hex_prefixes(vstd::utf8::encode_utf8(result->0@)),
        ) {
            None => r matches Err(AetherSdkError::InvalidResponse(m)) && m@ == "invalid tx hash hex: "@ + result->0@,
            Some(b) => if b.len() == 32 {
                r matches Ok(h) && h.bytes@ == b
            } else {
                r matches Err(AetherSdkError::InvalidResponse(m)) && m@ == "invalid tx hash: expected 32 bytes, got "@
                    + decimal(b.len())
            },
        },
{
    if let Some((code, message)) = error {
        return Err(AetherSdkError::Rpc { code, message });
    }
    match result {
        None => Err(AetherSdkError::invalid_response("rpc response missing result")),
        Some(text) => parse_h256_hex(text.as_str()),
    }
}

/// Accept the hash the node returned only when it is the transaction's own.
pub fn check_returned_hash(expected: &H256, returned: H256) -> (r: Result<H256, AetherSdkError>)
    ensures
        returned == *expected ==> (r matches Ok(h) && h == returned),
        returned != *expected ==> (r matches Err(AetherSdkError::TxHashMismatch { expected: e, got: g })
            && e@ == "0x"@ + crate::bytes::hex_of(expected.bytes@) && g@ == "0x"@ + crate::bytes::hex_of(
            returned.bytes@,
        )),
{
    if returned == *expected {
        return Ok(returned);
    }
    let e = concat_str("0x", crate::bytes::hex_encode(expected.bytes.as_slice()).as_str());
    let g = concat_str("0x", crate::bytes::hex_encode(returned.bytes.as_slice()).as_str());
    Err(AetherSdkError::TxHashMismatch { expected: e, got: g })
}

/// A JSON value, carried opaquely as job metadata.
#[verifier::external_type_specification]
#[verifier::external_body]
pub struct ExJsonValue(serde_json::Value);

/// `serde_json::Value`'s `Clone` (derived): a copy equal to the value.
#[verifier::external_body]
fn clone_json(v: &serde_json::Value) -> (r: serde_json::Value)
    ensures
        r == *v,
{
    v.clone()
}

/// A request to run an AI job.
#[derive(Clone, Debug, PartialEq, Eq)]
pub struct JobRequest {
    pub job_id: String,
    pub model_hash: H256,
    pub input_hash: H256,
    pub max_fee: u128,
    pub expires_at: u64,
    pub metadata: Option<serde_json::Value>,
}

/// A job request ready to send: URL, method, headers and body.
#[derive(Clone, Debug, PartialEq, Eq)]
pub struct JobSubmission {
    pub url: String,
    pub method: String,
    pub headers: Vec<(String, String)>,
    pub body: JobRequest,
}

/// The submission of `body` to `endpoint`: a POST of JSON to `/v1/jobs`.
pub open spec fn is_submission_for(s: JobSubmission, endpoint: Seq<char>, body: JobRequest) -> bool {
    &&& s.url@ == endpoint + "/v1/jobs"@
    &&& s.method@ == "POST"@
    &&& s.headers.len() == 1
    &&& s.headers[0].0@ == "content-type"@
    &&& s.headers[0].1@ == "application/json"@
    &&& s.body == body
}

/// Build the submission of `body` to `endpoint`.
fn job_submission(endpoint: &str, body: JobRequest) -> (s: JobSubmission)
    ensures
        is_submission_for(s, endpoint@, body),
{
    let mut headers: Vec<(String, String)> = Vec::new();
    headers.push((String::from_str("content-type"), String::from_str("application/json")));
    JobSubmission {
        url: concat_str(endpoint, "/v1/jobs"),
        method: String::from_str("POST"),
        headers,
        body,
    }
}

impl AetherClient {
    /// The submission of `job` to this client's endpoint, without sending it.
    pub fn prepare_job_submission(&self, job: JobRequest) -> (s: JobSubmission)
        ensures
            is_submission_for(s, self.spec_endpoint(), job),
    {
        job_submission(self.endpoint.as_str(), job)
    }

    /// Start building a job for this client's endpoint.
    pub fn job(&self) -> (b: JobBuilder)
        ensures
            b.spec_endpoint() == without_trailing(self.spec_endpoint(), '/'),
            b.spec_job_id() is None,
            b.spec_model_hash() is None,
            b.spec_input_hash() is None,
            b.spec_max_fee() == 1_000_000,
            b.spec_expires_at() is None,
            !b.has_metadata(),
    {
        JobBuilder::new(self.endpoint.as_str())
    }
}

/// `s` without any trailing `c`.
pub open spec fn without_trailing(s: Seq<char>, c: char) -> Seq<char>
    decreases s.len(),
{
    if s.len() > 0 && s.last() == c {
        without_trailing(s.drop_last(), c)
    } else {
        s
    }
}

/// Builder of AI job submissions.
pub struct JobBuilder {
    endpoint: String,
    job_id: Option<String>,
    model_hash: Option<H256>,
    input_hash: Option<H256>,
    max_fee: u128,
    expires_at: Option<u64>,
    metadata: Option<serde_json::Value>,
}

impl JobBuilder {
    /// The endpoint the job goes to.
    pub closed spec fn spec_endpoint(&self) -> Seq<char> {
        self.endpoint@
    }

    /// The job id, once set.
    pub closed spec fn spec_job_id(&self) -> Option<Seq<char>> {
        match self.job_id {
            Some(j) => Some(j@),
            None => None,
        }
    }

    /// The model hash, once set.
    pub closed spec fn spec_model_hash(&self) -> Option<H256> {
        self.model_hash
    }

    /// The input hash, once set.
    pub closed spec fn spec_input_hash(&self) -> Option<H256> {
        self.input_hash
    }

    /// The fee cap.
    pub closed spec fn spec_max_fee(&self) -> u128 {
        self.max_fee
    }

    /// The expiry, once set.
    pub closed spec fn spec_expires_at(&self) -> Option<u64> {
        self.expires_at
    }

    /// Whether metadata is attached.
    pub closed spec fn has_metadata(&self) -> bool {
        self.metadata is Some
    }

    /// The attached metadata, if any.
    pub closed spec fn spec_metadata(&self) -> Option<serde_json::Value> {
        self.metadata
    }

    /// A builder for `endpoint` (trailing slashes dropped), fee cap 1 000 000.
    pub fn new(endpoint: &str) -> (b: Self)
        ensures
            b.spec_endpoint() == without_trailing(endpoint@, '/'),
            b.spec_job_id() is None,
            b.spec_model_hash() is None,
            b.spec_input_hash() is None,
            b.spec_max_fee() == 1_000_000,
            b.spec_expires_at() is None,
            !b.has_metadata(),
    {
        let mut end = endpoint.unicode_len();
        proof {
            assert(endpoint@.subrange(0, end as int) =~= endpoint@);
        }
        while end > 0 && endpoint.get_char(end - 1) == '/'
            invariant
                end <= endpoint@.len(),
                without_trailing(endpoint@.subrange(0, end as int), '/') == without_trailing(endpoint@, '/'),
            decreases end,
        {
            let ghost prefix = endpoint@.subrange(0, end as int);
            proof {
                assert(prefix.drop_last() =~= endpoint@.subrange(0, end - 1));
            }
            end = end - 1;
        }
        JobBuilder {
            endpoint: String::from_str(endpoint.substring_char(0, end)),
            job_id: None,
            model_hash: None,
            input_hash: None,
            max_fee: 1_000_000,
            expires_at: None,
            metadata: None,
        }
    }

    /// Set the job id; an id that is empty or only white space is refused.
    pub fn job_id(self, job_id: &str) -> (r: Result<Self, String>)
        ensures
            trimmed(job_id@).len() == 0 ==> r is Err && r->Err_0@ == "job_id must not be empty"@,
            trimmed(job_id@).len() != 0 ==> r is Ok && r->Ok_0.spec_job_id() == Some(job_id@)
                && r->Ok_0.spec_endpoint() == self.spec_endpoint() && r->Ok_0.spec_model_hash()
                == self.spec_model_hash() && r->Ok_0.spec_input_hash() == self.spec_input_hash()
                && r->Ok_0.spec_max_fee() == self.spec_max_fee() && r->Ok_0.spec_expires_at()
                == self.spec_expires_at() && r->Ok_0.has_metadata() == self.has_metadata(),
    {
        if trim(job_id).unicode_len() == 0 {
            return Err(String::from_str("job_id must not be empty"));
        }
        let mut b = self;
        b.job_id = Some(String::from_str(job_id));
        Ok(b)
    }

    /// Set the model hash.
    pub fn model_hash(self, hash: H256) -> (b: Self)
        ensures
            b.spec_model_hash() == Some(hash),
            b.spec_endpoint() == self.spec_endpoint(),
            b.spec_job_id() == self.spec_job_id(),
            b.spec_input_hash() == self.spec_input_hash(),
            b.spec_max_fee() == self.spec_max_fee(),
            b.spec_expires_at() == self.spec_expires_at(),
            b.has_metadata() == self.has_metadata(),
    {
        let mut b = self;
        b.model_hash = Some(hash);
        b
    }

    /// Set the input hash.
    pub fn input_hash(self, hash: H256) -> (b: Self)
        ensures
            b.spec_input_hash() == Some(hash),
            b.spec_endpoint() == self.spec_endpoint(),
            b.spec_job_id() == self.spec_job_id(),
            b.spec_model_hash() == self.spec_model_hash(),
            b.spec_max_fee() == self.spec_max_fee(),
            b.spec_expires_at() == self.spec_expires_at(),
            b.has_metadata() == self.has_metadata(),
    {
        let mut b = self;
        b.input_hash = Some(hash);
        b
    }

    /// Set the fee cap; a zero fee leaves it unchanged.
    pub fn max_fee(self, fee: u128) -> (b: Self)
        ensures
            b.spec_max_fee() == (if fee > 0 {
                fee
            } else {
                self.spec_max_fee()
            }),
            b.spec_endpoint() == self.spec_endpoint(),
            b.spec_job_id() == self.spec_job_id(),
            b.spec_model_hash() == self.spec_model_hash(),
            b.spec_input_hash() == self.spec_input_hash(),
            b.spec_expires_at() == self.spec_expires_at(),
            b.has_metadata() == self.has_metadata(),
    {
        let mut b = self;
        if fee > 0 {
            b.max_fee = fee;
        }
        b
    }

    /// Set the expiry (unix seconds); zero leaves it unchanged.
    pub fn expires_at(self, ts: u64) -> (b: Self)
        ensures
            b.spec_expires_at() == (if ts > 0 {
                Some(ts)
            } else {
                self.spec_expires_at()
            }),
            b.spec_endpoint() == self.spec_endpoint(),
            b.spec_job_id() == self.spec_job_id(),
            b.spec_model_hash() == self.spec_model_hash(),
            b.spec_input_hash() == self.spec_input_hash(),
            b.spec_max_fee() == self.spec_max_fee(),
            b.has_metadata() == self.has_metadata(),
    {
        let mut b = self;
        if ts > 0 {
            b.expires_at = Some(ts);
        }
        b
    }

    /// Attach JSON metadata.
    pub fn metadata(self, metadata: serde_json::Value) -> (b: Self)
        ensures
            b.has_metadata(),
            b.spec_metadata() == Some(metadata),
            b.spec_endpoint() == self.spec_endpoint(),
            b.spec_job_id() == self.spec_job_id(),
            b.spec_model_hash() == self.spec_model_hash(),
            b.spec_input_hash() == self.spec_input_hash(),
            b.spec_max_fee() == self.spec_max_fee(),
            b.spec_expires_at() == self.spec_expires_at(),
    {
        let mut b = self;
        b.metadata = Some(metadata);
        b
    }

    /// The job request, once id, hashes and expiry are all set.
    pub fn build(&self) -> (r: Result<JobRequest, String>)
        ensures
            self.spec_job_id() is None ==> r is Err && r->Err_0@ == "job_id not set"@,
            self.spec_job_id() is Some && self.spec_model_hash() is None ==> r is Err && r->Err_0@
                == "model_hash not set"@,
            self.spec_job_id() is Some && self.spec_model_hash() is Some && self.spec_input_hash() is None
                ==> r is Err && r->Err_0@ == "input_hash not set"@,
            self.spec_job_id() is Some && self.spec_model_hash() is Some && self.spec_input_hash() is Some
                && self.spec_expires_at() is None ==> r is Err && r->Err_0@ == "expires_at not set"@,
            self.spec_job_id() is Some && self.spec_model_hash() is Some && self.spec_input_hash() is Some
                && self.spec_expires_at() is Some ==> r is Ok && self.builds(r->Ok_0),
    {
        let job_id = match &self.job_id {
            Some(j) => j.clone(),
            None => return Err(String::from_str("job_id not set")),
        };
        let model_hash = match self.model_hash {
            Some(h) => h,
            None => return Err(String::from_str("model_hash not set")),
        };
        let input_hash = match self.input_hash {
            Some(h) => h,
            None => return Err(String::from_str("input_hash not set")),
        };
        let expires_at = match self.expires_at {
            Some(t) => t,
            None => return Err(String::from_str("expires_at not set")),
        };
        let metadata = match &self.metadata {
            Some(m) => Some(clone_json(m)),
            None => None,
        };
        Ok(JobRequest { job_id, model_hash, input_hash, max_fee: self.max_fee, expires_at, metadata })
    }

    /// `job` carries this builder's id, hashes, fee cap, expiry and metadata.
    pub open spec fn builds(&self, job: JobRequest) -> bool {
        &&& self.spec_job_id() == Some(job.job_id@)
        &&& self.spec_model_hash() == Some(job.model_hash)
        &&& self.spec_input_hash() == Some(job.input_hash)
        &&& job.max_fee == self.spec_max_fee()
        &&& self.spec_expires_at() == Some(job.expires_at)
        &&& job.metadata is Some == self.has_metadata()
        &&& job.metadata == self.spec_metadata()
    }

    /// Build the job and wrap it in a submission to the builder's endpoint.
    pub fn to_submission(&self) -> (r: Result<JobSubmission, String>)
        ensures
            self.spec_job_id() is None ==> r is Err && r->Err_0@ == "job_id not set"@,
            self.spec_job_id() is Some && self.spec_model_hash() is None ==> r is Err && r->Err_0@
                == "model_hash not set"@,
            self.spec_job_id() is Some && self.spec_model_hash() is Some && self.spec_input_hash() is None
                ==> r is Err && r->Err_0@ == "input_hash not set"@,
            self.spec_job_id() is Some && self.spec_model_hash() is Some && self.spec_input_hash() is Some
                && self.spec_expires_at() is None ==> r is Err && r->Err_0@ == "expires_at not set"@,
            self.spec_job_id() is Some && self.spec_model_hash() is Some && self.spec_input_hash() is Some
                && self.spec_expires_at() is Some ==> r is Ok && self.builds(r->Ok_0.body)
                && is_submission_for(r->Ok_0, self.spec_endpoint(), r->Ok_0.body),
    {
        let job = self.build()?;
        Ok(job_submission(self.endpoint.as_str(), job))
    }
}

} // verus!
