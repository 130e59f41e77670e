//! JSON-RPC: subscription topics, method routing, errors, and the parsing of
//! hexadecimal and numeric request parameters.
use vstd::prelude::*;

use crate::text::{decimal, digits_value, is_digit};
use crate::types::{Address, H256};
use vstd::string::StrSliceExecFns;
use vstd::string::StringExecFns;
use vstd::string::StringSliceAdditionalSpecFns;

verus! {

/// Topics a WebSocket client can subscribe to.
#[derive(Debug, Clone, Copy, PartialEq, Eq, Structural, Hash)]
pub enum SubscriptionTopic {
    NewBlocks,
    NewTransactions,
    Finality,
}

/// A JSON-RPC error.
#[derive(Debug, Clone)]
pub struct JsonRpcError {
    pub code: i64,
    pub message: String,
    pub data: Option<serde_json::Value>,
}

/// An "invalid params" error with `message`.
pub fn invalid_params(message: String) -> (e: JsonRpcError)
    ensures
        e.code == -32602,
        e.message@ == message@,
        e.data is None,
{
    JsonRpcError { code: -32602, message, data: None }
}

/// The methods the server answers.
#[derive(Debug, Clone, Copy, PartialEq, Eq, Structural)]
pub enum RpcMethod {
    SendRawTransaction,
    SendTransaction,
    ChainId,
    GetBlockByNumber,
    GetBlockByHash,
    GetTransactionReceipt,
    GetStateRoot,
    GetAccount,
    GetSlotNumber,
    GetFinalizedSlot,
    RequestAirdrop,
    Health,
}

/// The method named `name`, if the server has one by that name.
pub open spec fn method_named(name: Seq<char>) -> Option<RpcMethod> {
    if name == "aeth_sendRawTransaction"@ {
        Some(RpcMethod::SendRawTransaction)
    } else if name == "aeth_sendTransaction"@ {
        Some(RpcMethod::SendTransaction)
    } else if name == "aeth_chainId"@ {
        Some(RpcMethod::ChainId)
    } else if name == "aeth_getBlockByNumber"@ {
        Some(RpcMethod::GetBlockByNumber)
    } else if name == "aeth_getBlockByHash"@ {
        Some(RpcMethod::GetBlockByHash)
    } else if name == "aeth_getTransactionReceipt"@ {
        Some(RpcMethod::GetTransactionReceipt)
    } else if name == "aeth_getStateRoot"@ {
        Some(RpcMethod::GetStateRoot)
    } else if name == "aeth_getAccount"@ {
        Some(RpcMethod::GetAccount)
    } else if name == "aeth_getSlotNumber"@ {
        Some(RpcMethod::GetSlotNumber)
    } else if name == "aeth_getFinalizedSlot"@ {
        Some(RpcMethod::GetFinalizedSlot)
    } else if name == "aeth_requestAirdrop"@ {
        Some(RpcMethod::RequestAirdrop)
    } else if name == "aeth_health"@ {
        Some(RpcMethod::Health)
    } else {
        None
    }
}

/// Whether two strings are equal.
pub fn str_eq(a: &str, b: &str) -> (r: bool)
    ensures
        r == (a@ == b@),
{
    let n = a.unicode_len();
    if n != b.unicode_len() {
        return false;
    }
    let mut i: usize = 0;
    while i < n
        invariant
            n == a@.len(),
            n == b@.len(),
            i <= n,
            forall|j: int| 0 <= j < i ==> a@[j] == b@[j],
        decreases n - i,
    {
        if a.get_char(i) != b.get_char(i) {
            return false;
        }
        i = i + 1;
    }
    assert(a@ =~= b@);
    true
}

/// Route a request to its method; an unknown name is "method not found".
pub fn route_method(method: &str) -> (r: Result<RpcMethod, JsonRpcError>)
    ensures
        match method_named(method@) {
            Some(m) => r == Ok::<RpcMethod, JsonRpcError>(m),
            None => r is Err && r->Err_0.code == -32601 && r->Err_0.message@ == "Method not found: "@ + method@
                && r->Err_0.data is None,
        },
{
    if str_eq(method, "aeth_sendRawTransaction") {
        Ok(RpcMethod::SendRawTransaction)
    } else if str_eq(method, "aeth_sendTransaction") {
        Ok(RpcMethod::SendTransaction)
    } else if str_eq(method, "aeth_chainId") {
        Ok(RpcMethod::ChainId)
    } else if str_eq(method, "aeth_getBlockByNumber") {
        Ok(RpcMethod::GetBlockByNumber)
    } else if str_eq(method, "aeth_getBlockByHash") {
        Ok(RpcMethod::GetBlockByHash)
    } else if str_eq(method, "aeth_getTransactionReceipt") {
        Ok(RpcMethod::GetTransactionReceipt)
    } else if str_eq(method, "aeth_getStateRoot") {
        Ok(RpcMethod::GetStateRoot)
    } else if str_eq(method, "aeth_getAccount") {
        Ok(RpcMethod::GetAccount)
    } else if str_eq(method, "aeth_getSlotNumber") {
        Ok(RpcMethod::GetSlotNumber)
    } else if str_eq(method, "aeth_getFinalizedSlot") {
        Ok(RpcMethod::GetFinalizedSlot)
    } else if str_eq(method, "aeth_requestAirdrop") {
        Ok(RpcMethod::RequestAirdrop)
    } else if str_eq(method, "aeth_health") {
        Ok(RpcMethod::Health)
    } else {
        Err(JsonRpcError { code: -32601, message: crate::text::concat_str("Method not found: ", method), data: None })
    }
}

/// The lower-case hexadecimal numeral of `n`, without leading zeros.
pub open spec fn lower_hex(n: nat) -> Seq<char>
    decreases n,
{
    if n < 16 {
        seq![crate::bytes::hex_digit(n as int)]
    } else {
        lower_hex(n / 16).push(crate::bytes::hex_digit((n % 16) as int))
    }
}

/// Append the lower-case hexadecimal numeral of `n`.
fn push_lower_hex(s: &mut String, n: u64)
    ensures
        final(s)@ == old(s)@ + lower_hex(n as nat),
    decreases n,
{
    if n < 16 {
        crate::text::push_char(s, crate::bytes::hex_char(n as u8));
        proof {
            assert(final(s)@ =~= old(s)@ + lower_hex(n as nat));
        }
    } else {
        push_lower_hex(s, n / 16);
        crate::text::push_char(s, crate::bytes::hex_char((n % 16) as u8));
        proof {
            assert(final(s)@ =~= old(s)@ + lower_hex(n as nat));
        }
    }
}

/// The chain id as the server reports it: `0x` and lower-case hexadecimal.
pub fn chain_id_hex(chain_id: u64) -> (s: String)
    ensures
        s@ == "0x"@ + lower_hex(chain_id as nat),
{
    let mut s = String::from_str("0x");
    push_lower_hex(&mut s, chain_id);
    s
}

/// The value of a hexadecimal digit byte, either case.
pub open spec fn hex_value(c: u8) -> Option<u8> {
    if 0x41 <= c <= 0x46 {
        Some((c - 0x41 + 10) as u8)
    } else if 0x61 <= c <= 0x66 {
        Some((c - 0x61 + 10) as u8)
    } else if 0x30 <= c <= 0x39 {
        Some((c - 0x30) as u8)
    } else {
        None
    }
}

/// The bytes a hexadecimal text stands for: an even number of hex digits,
/// two per byte, high digit first.
pub open spec fn hex_decoding(data: Seq<u8>) -> Option<Seq<u8>> {
    if data.len() % 2 == 0 && forall|i: int| 0 <= i < data.len() ==> #[trigger] hex_value(data[i]) is Some {
        Some(Seq::new((data.len() / 2) as nat, |i: int| (hex_value(data[2 * i])->0 * 16 + hex_value(data[2 * i + 1])->0) as u8))
    } else {
        None
    }
}

/// `hex::decode`: the bytes of a hexadecimal text (either case, two digits
/// per byte).  It succeeds exactly on even-length texts of hex digits, with
/// `hex_decoding` of the text; an odd length is reported as "Odd number of
/// digits".  The text of the invalid-character error is not stated.
#[verifier::external_body]
fn hex_decode(data: &[u8]) -> (r: Result<Vec<u8>, String>)
    ensures
        match hex_decoding(data@) {
            Some(b) => r is Ok && r->Ok_0@ == b,
            None => r is Err,
        },
        data@.len() % 2 == 1 ==> r is Err && r->Err_0@ == "Odd number of digits"@,
{
    hex::decode(data).map_err(|e| e.to_string())
}

/// `s` with every leading `0x` removed.
pub open spec fn without_hex_prefixes(s: Seq<u8>) -> Seq<u8>
    decreases s.len(),
{
    if s.len() >= 2 && s[0] == 0x30 && s[1] == 0x78 {
        without_hex_prefixes(s.subrange(2, s.len() as int))
    } else {
        s
    }
}

/// Decode a hexadecimal parameter, with or without `0x` in front.
pub fn parse_hex_bytes(value: &str, field: &str) -> (r: Result<Vec<u8>, JsonRpcError>)
    ensures
        match hex_decoding(without_hex_prefixes(value.spec_bytes())) {
            Some(b) => r is Ok && r->Ok_0@ == b,
            None => r is Err && r->Err_0.code == -32602 && r->Err_0.data is None,
        },
        without_hex_prefixes(value.spec_bytes()).len() % 2 == 1 ==> r is Err && r->Err_0.message@ == "Invalid "@
            + field@ + " hex: Odd number of digits"@,
{
    let bytes = value.as_bytes();
    let n = bytes.len();
    let mut start: usize = 0;
    proof {
        assert(bytes@.subrange(0, n as int) =~= bytes@);
    }
    while n - start >= 2 && bytes[start] == 0x30 && bytes[start + 1] == 0x78
        invariant
            n == bytes@.len(),
            start <= n,
            without_hex_prefixes(bytes@.subrange(start as int, n as int)) == without_hex_prefixes(bytes@),
        decreases n - start,
    {
        proof {
            assert(bytes@.subrange(start as int, n as int).subrange(2, n - start) =~= bytes@.subrange(
                start + 2,
                n as int,
            ));
        }
        start = start + 2;
    }
    let rest = vstd::slice::slice_subrange(bytes, start, n);
    proof {
        assert(rest@ == without_hex_prefixes(bytes@));
    }
    match hex_decode(rest) {
        Ok(b) => Ok(b),
        Err(e) => {
            let mut m = String::from_str("Invalid ");
            m.append(field);
            m.append(" hex: ");
            m.append(e.as_str());
            proof {
                reveal_strlit(" hex: ");
                reveal_strlit("Odd number of digits");
                reveal_strlit(" hex: Odd number of digits");
                assert(" hex: Odd number of digits"@ =~= " hex: "@ + "Odd number of digits"@);
                assert(m@ =~= "Invalid "@ + field@ + " hex: "@ + e@);
            }
            Err(invalid_params(m))
        },
    }
}

/// Decode an address parameter: hexadecimal text of exactly 20 bytes.
pub fn parse_address(value: &str, field: &str) -> (r: Result<Address, JsonRpcError>)
    ensures
        match hex_decoding(without_hex_prefixes(value.spec_bytes())) {
            Some(b) => if b.len() == 20 {
                r is Ok && r->Ok_0.bytes@ == b
            } else {
                r is Err && r->Err_0.code == -32602 && r->Err_0.message@ == "Invalid "@ + field@
                    + " length: expected 20 bytes, got "@ + decimal(b.len())
            },
            None => r is Err && r->Err_0.code == -32602,
        },
{
    let bytes = parse_hex_bytes(value, field)?;
    if bytes.len() != 20 {
        let mut m = String::from_str("Invalid ");
        m.append(field);
        m.append(" length: expected 20 bytes, got ");
        crate::text::push_decimal(&mut m, bytes.len() as u128);
        return Err(invalid_params(m));
    }
    let mut a = [0u8; 20];
    let mut i: usize = 0;
    while i < 20
        invariant
            bytes@.len() == 20,
            i <= 20,
            forall|j: int| 0 <= j < i ==> a@[j] == bytes@[j],
        decreases 20 - i,
    {
        a.set(i, bytes[i]);
        i = i + 1;
    }
    proof {
        assert(a@ =~= bytes@);
    }
    Ok(Address { bytes: a })
}

/// The bytes of the address named by a parameter, when it is hexadecimal
/// text of 20 bytes.
pub open spec fn named_address(value: Seq<char>) -> Option<Seq<u8>> {
    match hex_decoding(without_hex_prefixes(vstd::utf8::encode_utf8(value))) {
        Some(b) => if b.len() == 20 {
            Some(b)
        } else {
            None
        },
        None => None,
    }
}

/// No address occurs twice.
pub open spec fn distinct_addresses(s: Seq<Address>) -> bool {
    forall|i: int, j: int| 0 <= i < j < s.len() ==> s[i] != s[j]
}

/// Add `a` to a set of addresses kept without repeats; whether it was new.
pub fn insert_address(set: &mut Vec<Address>, a: Address) -> (added: bool)
    requires
        distinct_addresses(old(set)@),
    ensures
        added == !old(set)@.contains(a),
        final(set)@ == (if added {
            old(set)@.push(a)
        } else {
            old(set)@
        }),
        distinct_addresses(final(set)@),
{
    let mut i: usize = 0;
    while i < set.len()
        invariant
            i <= set@.len(),
            set@ == old(set)@,
            distinct_addresses(old(set)@),
            forall|j: int| 0 <= j < i ==> set@[j] != a,
        decreases set@.len() - i,
    {
        if set[i] == a {
            proof {
                assert(set@[i as int] == a);
            }
            return false;
        }
        i = i + 1;
    }
    set.push(a);
    true
}

/// Parse a list of address parameters into a set (first appearance order);
/// the list fails when any of its entries does.
pub fn parse_address_set(values: &[String], field: &str) -> (r: Result<Vec<Address>, JsonRpcError>)
    ensures
        (forall|i: int| 0 <= i < values@.len() ==> #[trigger] named_address(values@[i]@) is Some)
            ==> r is Ok && distinct_addresses(r->Ok_0@) && (forall|a: Address|
            r->Ok_0@.contains(a) <==> exists|i: int|
                0 <= i < values@.len() && #[trigger] named_address(values@[i]@) == Some(a.bytes@)),
        !(forall|i: int| 0 <= i < values@.len() ==> #[trigger] named_address(values@[i]@) is Some)
            ==> r is Err && r->Err_0.code == -32602,
{
    let mut out: Vec<Address> = Vec::new();
    let mut k: usize = 0;
    while k < values.len()
        invariant
            k <= values@.len(),
            distinct_addresses(out@),
            forall|i: int| 0 <= i < k ==> #[trigger] named_address(values@[i]@) is Some,
            forall|a: Address|
                out@.contains(a) <==> exists|i: int|
                    0 <= i < k && #[trigger] named_address(values@[i]@) == Some(a.bytes@),
        decreases values@.len() - k,
    {
        let a = match parse_address(values[k].as_str(), field) {
            Ok(a) => a,
            Err(e) => {
                proof {
                    assert(named_address(values@[k as int]@) is None);
                }
                return Err(e);
            },
        };
        proof {
            assert(named_address(values@[k as int]@) == Some(a.bytes@));
        }
        let ghost before = out@;
        insert_address(&mut out, a);
        proof {
            assert forall|b: Address| out@.contains(b) <==> exists|i: int|
                0 <= i < k + 1 && #[trigger] named_address(values@[i]@) == Some(b.bytes@) by {
                if out@.contains(b) && !before.contains(b) {
                    assert(b == a);
                    assert(named_address(values@[k as int]@) == Some(b.bytes@));
                }
                if exists|i: int| 0 <= i < k + 1 && #[trigger] named_address(values@[i]@) == Some(b.bytes@) {
                    let i = choose|i: int| 0 <= i < k + 1 && #[trigger] named_address(values@[i]@) == Some(b.bytes@);
                    if i < k {
                        assert(before.contains(b));
                        let j = choose|j: int| 0 <= j < before.len() && before[j] == b;
                        assert(out@[j] == b);
                    } else {
                        assert(b.bytes =~= a.bytes);
                        if before.contains(a) {
                            assert(out@ == before);
                        } else {
                            assert(out@[before.len() as int] == a);
                        }
                    }
                }
            }
        }
        k = k + 1;
    }
    Ok(out)
}

/// The largest airdrop one request may ask for.
pub const MAX_AIRDROP: u128 = 1_000_000_000_000;

/// Refuse an airdrop request above [`MAX_AIRDROP`].
pub fn check_airdrop_amount(amount: u128) -> (r: Result<(), JsonRpcError>)
    ensures
        amount <= MAX_AIRDROP ==> r is Ok,
        amount > MAX_AIRDROP ==> r is Err && r->Err_0.code == -32000 && r->Err_0.data is None
            && r->Err_0.message@ == "airdrop amount "@ + decimal(amount as nat) + " exceeds maximum "@
            + decimal(MAX_AIRDROP as nat),
{
    if amount > MAX_AIRDROP {
        let mut m = String::from_str("airdrop amount ");
        crate::text::push_decimal(&mut m, amount);
        m.append(" exceeds maximum ");
        crate::text::push_decimal(&mut m, MAX_AIRDROP);
        return Err(JsonRpcError { code: -32000, message: m, data: None });
    }
    Ok(())
}

/// Why text is not an unsigned integer, as std's integer parsing reports it.
#[derive(Debug, Clone, Copy, PartialEq, Eq, Structural)]
pub enum IntErrorKind {
    Empty,
    InvalidDigit,
    PosOverflow,
}

/// The message std gives for each kind.
pub open spec fn int_error_text(k: IntErrorKind) -> Seq<char> {
    match k {
        IntErrorKind::Empty => "cannot parse integer from empty string"@,
        IntErrorKind::InvalidDigit => "invalid digit found in string"@,
        IntErrorKind::PosOverflow => "number too large to fit in target type"@,
    }
}

/// Scanning decimal digits `d` left to right from value `acc`: the value, or
/// the first problem met (a non-digit, or a value past `u128::MAX`).
pub open spec fn scan_u128(d: Seq<char>, acc: nat) -> Result<u128, IntErrorKind>
    decreases d.len(),
{
    if d.len() == 0 {
        Ok(acc as u128)
    } else if !is_digit(d[0]) {
        Err(IntErrorKind::InvalidDigit)
    } else if acc * 10 + (d[0] as nat - 48) > u128::MAX {
        Err(IntErrorKind::PosOverflow)
    } else {
        scan_u128(d.drop_first(), (acc * 10 + (d[0] as nat - 48)) as nat)
    }
}

/// `u128`'s parse of `s`: an empty text, a lone sign and `-` are refused,
/// an optional `+` is skipped, then the digits are scanned.
pub open spec fn parse_u128_spec(s: Seq<char>) -> Result<u128, IntErrorKind> {
    if s.len() == 0 {
        Err(IntErrorKind::Empty)
    } else if (s[0] == '+' || s[0] == '-') && s.len() == 1 {
        Err(IntErrorKind::InvalidDigit)
    } else if s[0] == '+' {
        scan_u128(s.drop_first(), 0)
    } else {
        scan_u128(s, 0)
    }
}

/// Parse text as a `u128` the way std's `FromStr` does.
pub fn parse_u128(s: &str) -> (r: Result<u128, IntErrorKind>)
    ensures
        r == parse_u128_spec(s@),
{
    let n = s.unicode_len();
    if n == 0 {
        return Err(IntErrorKind::Empty);
    }
    let c0 = s.get_char(0);
    if (c0 == '+' || c0 == '-') && n == 1 {
        return Err(IntErrorKind::InvalidDigit);
    }
    let start: usize = if c0 == '+' {
        1
    } else {
        0
    };
    let ghost d = s@.subrange(start as int, n as int);
    proof {
        if c0 == '+' {
            assert(d =~= s@.drop_first());
        } else {
            assert(d =~= s@);
        }
    }
    let mut acc: u128 = 0;
    let mut i: usize = start;
    while i < n
        invariant
            n == s@.len(),
            start <= i <= n,
            d == s@.subrange(start as int, n as int),
            parse_u128_spec(s@) == scan_u128(d, 0),
            scan_u128(d, 0) == scan_u128(s@.subrange(i as int, n as int), acc as nat),
        decreases n - i,
    {
        let c = s.get_char(i);
        let ghost rest = s@.subrange(i as int, n as int);
        proof {
            assert(rest[0] == c);
            assert(rest.drop_first() =~= s@.subrange(i + 1, n as int));
        }
        if !('0' <= c && c <= '9') {
            return Err(IntErrorKind::InvalidDigit);
        }
        let digit = c as u128 - 48;
        if acc > (u128::MAX - digit) / 10 {
            proof {
                assert(acc * 10 + digit > u128::MAX) by (nonlinear_arith)
                    requires
                        acc > (u128::MAX - digit) / 10,
                        digit <= 9,
                ;
            }
            return Err(IntErrorKind::PosOverflow);
        }
        proof {
            assert(acc * 10 + digit <= u128::MAX) by (nonlinear_arith)
                requires
                    acc <= (u128::MAX - digit) / 10,
                    digit <= 9,
            ;
        }
        acc = acc * 10 + digit;
        i = i + 1;
    }
    proof {
        assert(s@.subrange(n as int, n as int) =~= Seq::<char>::empty());
    }
    Ok(acc)
}

/// Which state a state-root query asks for.
#[derive(Debug, Clone, Copy)]
pub enum StateRef {
    Latest,
    Finalized,
    Slot(u64),
    Hash(H256),
}

/// Read the block reference of a state-root query: none or `latest`,
/// `finalized`, a slot number, or a block hash in hexadecimal.
pub fn parse_state_ref(block_ref: Option<&str>) -> (r: Result<StateRef, String>)
    ensures
        block_ref is None ==> r matches Ok(StateRef::Latest),
        block_ref matches Some(t) ==> ({
            let text = t@;
            if text == "latest"@ {
                r matches Ok(StateRef::Latest)
            } else if text == "finalized"@ {
                r matches Ok(StateRef::Finalized)
            } else if parse_u128_spec(text) is Ok && parse_u128_spec(text)->Ok_0 <= u64::MAX {
                r matches Ok(StateRef::Slot(n)) && n == parse_u128_spec(text)->Ok_0
            } else {
                match hex_decoding(without_hex_prefixes(t.spec_bytes())) {
                    None => r is Err && r->Err_0@ == "provided hash is not valid hexadecimal"@,
                    Some(b) => if b.len() == 32 {
                        r matches Ok(StateRef::Hash(h)) && h.bytes@ == b
                    } else {
                        r is Err && r->Err_0@ == "hash must be 32 bytes"@
                    },
                }
            }
        }),
{
    let t = match block_ref {
        None => return Ok(StateRef::Latest),
        Some(t) => t,
    };
    if str_eq(t, "latest") {
        return Ok(StateRef::Latest);
    }
    if str_eq(t, "finalized") {
        return Ok(StateRef::Finalized);
    }
    match parse_u128(t) {
        Ok(v) => {
            if v <= u64::MAX as u128 {
                return Ok(StateRef::Slot(v as u64));
            }
        },
        Err(_) => {},
    }
    let bytes = match parse_hex_bytes(t, "hash") {
        Ok(b) => b,
        Err(_) => return Err(String::from_str("provided hash is not valid hexadecimal")),
    };
    if bytes.len() != 32 {
        return Err(String::from_str("hash must be 32 bytes"));
    }
    let mut h = [0u8; 32];
    let mut i: usize = 0;
    while i < 32
        invariant
            bytes@.len() == 32,
            i <= 32,
            forall|j: int| 0 <= j < i ==> h@[j] == bytes@[j],
        decreases 32 - i,
    {
        h.set(i, bytes[i]);
        i = i + 1;
    }
    proof {
        assert(h@ =~= bytes@);
    }
    Ok(StateRef::Hash(H256 { bytes: h }))
}

/// A block reference: the latest block, or a block by number.
#[derive(Debug, Clone, Copy, PartialEq, Eq, Structural)]
pub enum BlockRef {
    Latest,
    Number(u64),
}

/// Read a block reference: `latest`, or a block number as `u64` text.
pub fn parse_block_ref(s: &str) -> (r: Result<BlockRef, JsonRpcError>)
    ensures
        s@ == "latest"@ ==> r == Ok::<BlockRef, JsonRpcError>(BlockRef::Latest),
        s@ != "latest"@ ==> match parse_u128_spec(s@) {
            Ok(v) => if v <= u64::MAX {
                r == Ok::<BlockRef, JsonRpcError>(BlockRef::Number(v as u64))
            } else {
                r is Err && r->Err_0.code == -32602 && r->Err_0.message@ == "Invalid block number"@
            },
            Err(_) => r is Err && r->Err_0.code == -32602 && r->Err_0.message@ == "Invalid block number"@,
        },
{
    if str_eq(s, "latest") {
        return Ok(BlockRef::Latest);
    }
    match parse_u128(s) {
        Ok(v) => {
            if v <= u64::MAX as u128 {
                return Ok(BlockRef::Number(v as u64));
            }
        },
        Err(_) => {},
    }
    Err(invalid_params(String::from_str("Invalid block number")))
}

/// A JSON parameter as the numeric parser sees it.
#[derive(Debug, Clone)]
pub enum JsonScalar {
    /// A JSON string.
    Text(String),
    /// A JSON number, with its value when it is a non-negative integer that
    /// fits 64 bits.
    Number(Option<u64>),
    /// Anything else.
    Other,
}

/// The outcome of reading an amount parameter from its scalar: the value,
/// or the error message.
pub open spec fn amount_from_scalar(v: JsonScalar, field: Seq<char>) -> Result<u128, Seq<char>> {
    match v {
        JsonScalar::Text(s) => match parse_u128_spec(s@) {
            Ok(x) => Ok(x),
            Err(k) => Err("Invalid "@ + field + ": "@ + int_error_text(k)),
        },
        JsonScalar::Number(n) => match n {
            Some(x) => Ok(x as u128),
            None => Err("Invalid "@ + field + ": expected unsigned integer"@),
        },
        JsonScalar::Other => Err("Invalid "@ + field + ": expected string or number"@),
    }
}

/// The message of a parse error.
fn int_error_message(k: IntErrorKind) -> (s: &'static str)
    ensures
        s@ == int_error_text(k),
{
    match k {
        IntErrorKind::Empty => "cannot parse integer from empty string",
        IntErrorKind::InvalidDigit => "invalid digit found in string",
        IntErrorKind::PosOverflow => "number too large to fit in target type",
    }
}

/// Read an amount parameter: a decimal string or a non-negative integer.
pub fn parse_u128_value(v: &JsonScalar, field: &str) -> (r: Result<u128, JsonRpcError>)
    ensures
        match amount_from_scalar(*v, field@) {
            Ok(x) => r == Ok::<u128, JsonRpcError>(x),
            Err(m) => r is Err && r->Err_0.code == -32602 && r->Err_0.message@ == m && r->Err_0.data is None,
        },
{
    let mut m = String::from_str("Invalid ");
    m.append(field);
    match v {
        JsonScalar::Text(s) => match parse_u128(s.as_str()) {
            Ok(x) => Ok(x),
            Err(k) => {
                m.append(": ");
                m.append(int_error_message(k));
                Err(invalid_params(m))
            },
        },
        JsonScalar::Number(n) => match n {
            Some(x) => Ok(*x as u128),
            None => {
                m.append(": expected unsigned integer");
                Err(invalid_params(m))
            },
        },
        JsonScalar::Other => {
            m.append(": expected string or number");
            Err(invalid_params(m))
        },
    }
}

/// The fields of an `aeth_sendTransaction` request as its JSON gives them,
/// the amount and fee as JSON scalars.
#[derive(Debug)]
pub struct RpcTransferRequest {
    pub nonce: u64,
    pub sender: String,
    pub sender_public_key: String,
    pub recipient: String,
    pub amount: JsonScalar,
    pub fee: JsonScalar,
    pub gas_limit: u64,
    pub memo: Option<String>,
    pub reads: Vec<String>,
    pub writes: Vec<String>,
    pub signature: String,
}

/// A transfer request after its checks: addresses, key and signature
/// decoded, amounts read, and the sender added to the read set and the
/// sender and recipient to the write set.
#[derive(Debug)]
pub struct TransferFields {
    pub nonce: u64,
    pub sender: Address,
    pub sender_public_key: Vec<u8>,
    pub signature: Vec<u8>,
    pub recipient: Address,
    pub amount: u128,
    pub fee: u128,
    pub gas_limit: u64,
    pub memo: Option<String>,
    pub reads: Vec<Address>,
    pub writes: Vec<Address>,
}

/// The bytes a hexadecimal parameter stands for, `0x` prefixes removed.
pub open spec fn hex_text(value: Seq<char>) -> Option<Seq<u8>> {
    hex_decoding(without_hex_prefixes(vstd::utf8::encode_utf8(value)))
}

/// Whether every entry of a list of address parameters names an address.
pub open spec fn all_named(values: Seq<String>) -> bool {
    forall|i: int| 0 <= i < values.len() ==> #[trigger] named_address(values[i]@) is Some
}

/// Whether `a` is named by an entry of `values`.
pub open spec fn named_in(values: Seq<String>, a: Address) -> bool {
    exists|i: int| 0 <= i < values.len() && #[trigger] named_address(values[i]@) == Some(a.bytes@)
}

/// Whether the four text fields of a transfer request decode.
pub open spec fn transfer_texts_ok(req: RpcTransferRequest) -> bool {
    &&& named_address(req.sender@) is Some
    &&& hex_text(req.sender_public_key@) is Some
    &&& hex_text(req.signature@) is Some
    &&& named_address(req.recipient@) is Some
}

/// What holds of checked fields: each one decoded from the request, and the
/// read and write sets as the request declares them plus the sender (and,
/// for writes, the recipient), without repeats.
pub open spec fn fields_of(req: RpcTransferRequest, f: TransferFields) -> bool {
    &&& f.nonce == req.nonce
    &&& f.gas_limit == req.gas_limit
    &&& f.memo == req.memo
    &&& named_address(req.sender@) == Some(f.sender.bytes@)
    &&& hex_text(req.sender_public_key@) == Some(f.sender_public_key@)
    &&& hex_text(req.signature@) == Some(f.signature@)
    &&& named_address(req.recipient@) == Some(f.recipient.bytes@)
    &&& distinct_addresses(f.reads@)
    &&& distinct_addresses(f.writes@)
    &&& forall|a: Address| f.reads@.contains(a) <==> (a == f.sender || named_in(req.reads@, a))
    &&& forall|a: Address|
        f.writes@.contains(a) <==> (a == f.sender || a == f.recipient || named_in(req.writes@, a))
}

/// Check an `aeth_sendTransaction` request.  The checks come in this order,
/// the first failure answering an invalid-params error: sender, public key,
/// signature, recipient, amount, fee, the read list, the write list.
pub fn check_transfer_request(req: RpcTransferRequest) -> (r: Result<TransferFields, JsonRpcError>)
    ensures
        r is Err ==> r->Err_0.code == -32602,
        !transfer_texts_ok(req) ==> r is Err,
        transfer_texts_ok(req) ==> match (
            amount_from_scalar(req.amount, "amount"@),
            amount_from_scalar(req.fee, "fee"@),
        ) {
            (Err(m), _) => r is Err && r->Err_0.message@ == m,
            (Ok(_), Err(m)) => r is Err && r->Err_0.message@ == m,
            (Ok(a), Ok(b)) => if all_named(req.reads@) && all_named(req.writes@) {
                r is Ok && fields_of(req, r->Ok_0) && r->Ok_0.amount == a && r->Ok_0.fee == b
            } else {
                r is Err
            },
        },
{
    let sender = parse_address(req.sender.as_str(), "sender")?;
    let sender_public_key = parse_hex_bytes(req.sender_public_key.as_str(), "sender_public_key")?;
    let signature = parse_hex_bytes(req.signature.as_str(), "signature")?;
    let recipient = parse_address(req.recipient.as_str(), "recipient")?;
    let amount = parse_u128_value(&req.amount, "amount")?;
    let fee = parse_u128_value(&req.fee, "fee")?;
    let mut reads = parse_address_set(req.reads.as_slice(), "reads")?;
    let mut writes = parse_address_set(req.writes.as_slice(), "writes")?;
    let ghost reads0 = reads@;
    let ghost writes0 = writes@;
    insert_address(&mut reads, sender);
    insert_address(&mut writes, sender);
    let ghost writes1 = writes@;
    insert_address(&mut writes, recipient);
    let f = TransferFields {
        nonce: req.nonce,
        sender,
        sender_public_key,
        signature,
        recipient,
        amount,
        fee,
        gas_limit: req.gas_limit,
        memo: req.memo,
        reads,
        writes,
    };
    proof {
        assert forall|a: Address| f.reads@.contains(a) <==> (a == f.sender || named_in(req.reads@, a)) by {
            if f.reads@.contains(a) && a != f.sender {
                assert(reads0.contains(a));
            }
            if a == f.sender && !reads0.contains(a) {
                assert(f.reads@[reads0.len() as int] == a);
            }
            if reads0.contains(a) {
                let j = choose|j: int| 0 <= j < reads0.len() && reads0[j] == a;
                if !reads0.contains(f.sender) {
                    assert(f.reads@[j] == a);
                }
            }
        }
        assert forall|a: Address|
            f.writes@.contains(a) <==> (a == f.sender || a == f.recipient || named_in(req.writes@, a)) by {
            if f.writes@.contains(a) && a != f.recipient {
                assert(writes1.contains(a));
                if a != f.sender {
                    assert(writes0.contains(a));
                }
            }
            if a == f.recipient && !writes1.contains(a) {
                assert(f.writes@[writes1.len() as int] == a);
            }
            if a == f.sender && !writes0.contains(a) {
                assert(writes1[writes0.len() as int] == a);
            }
            if writes1.contains(a) {
                let j = choose|j: int| 0 <= j < writes1.len() && writes1[j] == a;
                if !writes1.contains(f.recipient) {
                    assert(f.writes@[j] == a);
                }
            }
            if writes0.contains(a) {
                let j = choose|j: int| 0 <= j < writes0.len() && writes0[j] == a;
                if !writes0.contains(f.sender) {
                    assert(writes1[j] == a);
                }
            }
        }
    }
    Ok(f)
}

} // verus!
