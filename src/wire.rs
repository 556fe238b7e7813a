//! The relay wire form of signed constraints: byte strings as `0x`-prefixed lowercase hex.
use vstd::prelude::*;
use crate::template::{FullTransaction, SignedConstraints};
use alloy::consensus::{
    transaction::PooledTransaction, transaction::SignerRecoverable, EnvKzgSettings, Transaction,
};
use alloy::eips::eip2718::Decodable2718;

verus! {

#[verifier::external_type_specification]
#[verifier::external_body]
pub struct ExFromHexError(hex::FromHexError);

/// Why a wire record could not be read.
#[derive(Debug, Clone, Copy, PartialEq, Eq, Structural)]
pub enum WireError {
    /// A field is not an even number of hex digits after its `0x` prefix.
    InvalidHex,
    /// The bytes are not one EIP-2718 transaction in its network form.
    InvalidTransaction,
}

/// The ASCII lowercase hex digit for `n`, below 16.
pub open spec fn hex_digit(n: int) -> u8 {
    if n < 10 {
        (48 + n) as u8
    } else {
        (87 + n) as u8
    }
}

/// The value of an ASCII hex digit of either case.
pub open spec fn hex_value(c: u8) -> Option<int> {
    if 48 <= c <= 57 {
        Some(c - 48)
    } else if 97 <= c <= 102 {
        Some(c - 87)
    } else if 65 <= c <= 70 {
        Some(c - 55)
    } else {
        None
    }
}

/// Two lowercase hex digits for each byte of `b`, high nibble first.
pub open spec fn hex_text(b: Seq<u8>) -> Seq<u8> {
    Seq::new(
        2 * b.len(),
        |i: int|
            if i % 2 == 0 {
                hex_digit(b[i / 2] as int / 16)
            } else {
                hex_digit(b[i / 2] as int % 16)
            },
    )
}

/// Whether `s` is an even number of hex digits.
pub open spec fn is_hex_text(s: Seq<u8>) -> bool {
    s.len() % 2 == 0 && forall|i: int| 0 <= i < s.len() ==> (#[trigger] hex_value(s[i])).is_some()
}

/// The bytes that the hex digits of `s` stand for, two digits each.
pub open spec fn from_hex(s: Seq<u8>) -> Seq<u8> {
    Seq::new(
        s.len() / 2,
        |i: int| (hex_value(s[2 * i]).unwrap() * 16 + hex_value(s[2 * i + 1]).unwrap()) as u8,
    )
}

/// `b` in wire form: `0x` followed by its hex digits.
pub open spec fn prefixed(b: Seq<u8>) -> Seq<u8> {
    seq![48u8, 120u8] + hex_text(b)
}

/// `s` with every leading `0x` removed.
pub open spec fn strip_prefixes(s: Seq<u8>) -> Seq<u8>
    decreases s.len(),
{
    if s.len() >= 2 && s[0] == 48 && s[1] == 120 {
        strip_prefixes(s.subrange(2, s.len() as int))
    } else {
        s
    }
}

/// The bytes that a wire field stands for, if it is well formed.
pub open spec fn parse_field(s: Seq<u8>) -> Option<Seq<u8>> {
    let digits = strip_prefixes(s);
    if is_hex_text(digits) {
        Some(from_hex(digits))
    } else {
        None
    }
}

/// Relies on `hex::encode`: two lowercase hex digits for each byte, high nibble first.
#[verifier::external_body]
fn hex_encode(b: &[u8]) -> (r: Vec<u8>)
    ensures
        r@ == hex_text(b@),
{
    hex::encode(b).into_bytes()
}

/// Relies on `hex::decode`: digits of either case, two for each byte, high nibble first;
/// an odd length or any other character is an error.
#[verifier::external_body]
fn hex_decode(s: &[u8]) -> (r: Result<Vec<u8>, hex::FromHexError>)
    ensures
        match r {
            Ok(v) => is_hex_text(s@) && v@ == from_hex(s@),
            Err(_) => !is_hex_text(s@),
        },
{
    hex::decode(s)
}

/// Writes `b` in wire form.
pub fn encode_hex_field(b: &[u8]) -> (r: Vec<u8>)
    ensures
        r@ == prefixed(b@),
{
    let mut r: Vec<u8> = Vec::new();
    r.push(48u8);
    r.push(120u8);
    let digits = hex_encode(b);
    crate::crypto::append_bytes(&mut r, digits.as_slice());
    assert(r@ =~= prefixed(b@));
    r
}

/// Reads a wire field: strips every leading `0x`, then decodes hex digits.
pub fn decode_hex_field(s: &[u8]) -> (r: Result<Vec<u8>, WireError>)
    ensures
        match r {
            Ok(v) => parse_field(s@) == Some(v@),
            Err(_) => parse_field(s@).is_none(),
        },
{
    let mut i: usize = 0;
    assert(s@.subrange(0, s@.len() as int) =~= s@);
    while s.len() - i >= 2 && s[i] == 48u8 && s[i + 1] == 120u8
        invariant
            0 <= i <= s@.len(),
            strip_prefixes(s@) == strip_prefixes(s@.subrange(i as int, s@.len() as int)),
        decreases s@.len() - i,
    {
        let ghost rest = s@.subrange(i as int, s@.len() as int);
        assert(rest.subrange(2, rest.len() as int) =~= s@.subrange(i + 2, s@.len() as int));
        i = i + 2;
    }
    let (_, digits) = s.split_at(i);
    assert(digits@ =~= s@.subrange(i as int, s@.len() as int));
    match hex_decode(digits) {
        Ok(v) => Ok(v),
        Err(_) => Err(WireError::InvalidHex),
    }
}

/// Hex digits read back as the values they were written for.
proof fn lemma_hex_digit_value(n: int)
    requires
        0 <= n < 16,
    ensures
        hex_value(hex_digit(n)) == Some(n),
        hex_digit(n) != 120,
{
}

/// A byte string in wire form reads back as itself.
pub proof fn lemma_field_round_trip(b: Seq<u8>)
    ensures
        parse_field(prefixed(b)) == Some(b),
{
    let p = prefixed(b);
    let h = hex_text(b);
    assert(p.subrange(2, p.len() as int) =~= h);
    assert forall|i: int| 0 <= i < h.len() implies (#[trigger] hex_value(h[i])).is_some() && h[i] != 120 by {
        lemma_hex_digit_value(b[i / 2] as int / 16);
        lemma_hex_digit_value(b[i / 2] as int % 16);
    }
    if h.len() >= 2 {
        assert(h[1] != 120);
    }
    assert(strip_prefixes(h) == h);
    assert(h.len() % 2 == 0);
    assert forall|i: int| 0 <= i < b.len() implies #[trigger] from_hex(h)[i] == b[i] by {
        assert((2 * i) % 2 == 0 && (2 * i) / 2 == i);
        assert((2 * i + 1) % 2 == 1 && (2 * i + 1) / 2 == i);
        lemma_hex_digit_value(b[i] as int / 16);
        lemma_hex_digit_value(b[i] as int % 16);
    }
    assert(from_hex(h) =~= b);
}

/// A signed constraint as the relay receives it, as bytes.
#[derive(Debug, Clone)]
pub struct RelayConstraint {
    pub pubkey: Vec<u8>,
    pub slot: u64,
    /// The EIP-2718 envelope of the transaction.
    pub transaction: Vec<u8>,
    pub signature: Vec<u8>,
}

/// A signed constraint in the relay's text form: each byte string as `0x`-prefixed hex.
#[derive(Debug, Clone)]
pub struct WireConstraint {
    pub pubkey: Vec<u8>,
    pub slot: u64,
    pub transaction: Vec<u8>,
    pub signature: Vec<u8>,
}

/// The content of a relay record: key, slot, transaction and signature.
pub type RecordView = (Seq<u8>, u64, Seq<u8>, Seq<u8>);

/// The content of a constraint in bytes.
pub open spec fn relay_view(c: RelayConstraint) -> RecordView {
    (c.pubkey@, c.slot, c.transaction@, c.signature@)
}

/// The content of a constraint in text.
pub open spec fn wire_view(w: WireConstraint) -> RecordView {
    (w.pubkey@, w.slot, w.transaction@, w.signature@)
}

/// The text form of a record.
pub open spec fn wire_of(v: RecordView) -> RecordView {
    (prefixed(v.0), v.1, prefixed(v.2), prefixed(v.3))
}

/// The record that a text form stands for, if every field is well formed.
pub open spec fn parse_wire(w: RecordView) -> Option<RecordView> {
    match (parse_field(w.0), parse_field(w.2), parse_field(w.3)) {
        (Some(k), Some(t), Some(sig)) => Some((k, w.1, t, sig)),
        _ => None,
    }
}

/// The text form of a batch.
pub open spec fn encoded_batch(b: Seq<RecordView>) -> Seq<RecordView> {
    b.map_values(|v: RecordView| wire_of(v))
}

/// The batch that a sequence of text forms stands for, if every one is well formed.
pub open spec fn decoded_batch(ws: Seq<RecordView>) -> Option<Seq<RecordView>>
    decreases ws.len(),
{
    if ws.len() == 0 {
        Some(Seq::empty())
    } else {
        match (decoded_batch(ws.drop_last()), parse_wire(ws.last())) {
            (Some(prev), Some(v)) => Some(prev.push(v)),
            _ => None,
        }
    }
}

impl SignedConstraints {
    /// The bytes that the relay receives for this constraint.
    pub fn to_relay(&self) -> (r: RelayConstraint)
        ensures
            relay_view(r) == (
                self.message.pubkey@,
                self.message.slot,
                self.message.tx.envelope@,
                self.signature@,
            ),
    {
        let r = RelayConstraint {
            pubkey: self.message.pubkey.clone(),
            slot: self.message.slot,
            transaction: self.message.tx.envelope.clone(),
            signature: self.signature.clone(),
        };
        assert(r.pubkey@ =~= self.message.pubkey@);
        assert(r.transaction@ =~= self.message.tx.envelope@);
        assert(r.signature@ =~= self.signature@);
        r
    }
}

/// Writes a constraint in text form.
pub fn encode_constraint(c: &RelayConstraint) -> (r: WireConstraint)
    ensures
        wire_view(r) == wire_of(relay_view(*c)),
{
    WireConstraint {
        pubkey: encode_hex_field(c.pubkey.as_slice()),
        slot: c.slot,
        transaction: encode_hex_field(c.transaction.as_slice()),
        signature: encode_hex_field(c.signature.as_slice()),
    }
}

/// Reads a constraint from text form.
pub fn decode_constraint(w: &WireConstraint) -> (r: Result<RelayConstraint, WireError>)
    ensures
        match r {
            Ok(c) => parse_wire(wire_view(*w)) == Some(relay_view(c)),
            Err(_) => parse_wire(wire_view(*w)).is_none(),
        },
{
    let pubkey = decode_hex_field(w.pubkey.as_slice());
    let transaction = decode_hex_field(w.transaction.as_slice());
    let signature = decode_hex_field(w.signature.as_slice());
    match (pubkey, transaction, signature) {
        (Ok(pubkey), Ok(transaction), Ok(signature)) => Ok(
            RelayConstraint { pubkey, slot: w.slot, transaction, signature },
        ),
        _ => Err(WireError::InvalidHex),
    }
}

/// Writes a batch of constraints in text form, in order.
pub fn encode_batch(batch: &Vec<RelayConstraint>) -> (r: Vec<WireConstraint>)
    ensures
        r@.map_values(|w: WireConstraint| wire_view(w)) == encoded_batch(
            batch@.map_values(|c: RelayConstraint| relay_view(c)),
        ),
{
    let mut r: Vec<WireConstraint> = Vec::new();
    let mut i: usize = 0;
    while i < batch.len()
        invariant
            0 <= i <= batch@.len(),
            r@.len() == i,
            forall|j: int| 0 <= j < i ==> wire_view(#[trigger] r@[j]) == wire_of(relay_view(batch@[j])),
        decreases batch@.len() - i,
    {
        r.push(encode_constraint(&batch[i]));
        i = i + 1;
    }
    assert(r@.map_values(|w: WireConstraint| wire_view(w)) =~= encoded_batch(
        batch@.map_values(|c: RelayConstraint| relay_view(c)),
    ));
    r
}

/// Reads a batch of constraints from text form; fails if any record is malformed.
pub fn decode_batch(wires: &Vec<WireConstraint>) -> (r: Result<Vec<RelayConstraint>, WireError>)
    ensures
        match r {
            Ok(b) => decoded_batch(wires@.map_values(|w: WireConstraint| wire_view(w))) == Some(
                b@.map_values(|c: RelayConstraint| relay_view(c)),
            ),
            Err(_) => decoded_batch(wires@.map_values(|w: WireConstraint| wire_view(w))).is_none(),
        },
{
    let ghost ws = wires@.map_values(|w: WireConstraint| wire_view(w));
    let mut out: Vec<RelayConstraint> = Vec::new();
    let mut i: usize = 0;
    assert(ws.take(0) =~= Seq::<RecordView>::empty());
    assert(out@.map_values(|c: RelayConstraint| relay_view(c)) =~= Seq::<RecordView>::empty());
    while i < wires.len()
        invariant
            0 <= i <= wires@.len(),
            ws == wires@.map_values(|w: WireConstraint| wire_view(w)),
            decoded_batch(ws.take(i as int)) == Some(out@.map_values(|c: RelayConstraint| relay_view(c))),
        decreases wires@.len() - i,
    {
        let ghost prefix = ws.take(i + 1);
        assert(prefix.drop_last() =~= ws.take(i as int));
        assert(prefix.last() == wire_view(wires@[i as int]));
        match decode_constraint(&wires[i]) {
            Ok(c) => {
                let ghost before = out@;
                out.push(c);
                assert(out@.map_values(|c: RelayConstraint| relay_view(c)) =~= before.map_values(
                    |c: RelayConstraint| relay_view(c),
                ).push(relay_view(c)));
            },
            Err(e) => {
                proof {
                    lemma_decoded_prefix_none(ws, i + 1);
                }
                return Err(e);
            },
        }
        i = i + 1;
    }
    assert(ws.take(wires@.len() as int) =~= ws);
    Ok(out)
}

/// A malformed prefix makes the whole batch malformed.
proof fn lemma_decoded_prefix_none(ws: Seq<RecordView>, i: int)
    requires
        0 <= i <= ws.len(),
        decoded_batch(ws.take(i)).is_none(),
    ensures
        decoded_batch(ws).is_none(),
    decreases ws.len() - i,
{
    if i < ws.len() {
        assert(ws.take(i + 1).drop_last() =~= ws.take(i));
        lemma_decoded_prefix_none(ws, i + 1);
    } else {
        assert(ws.take(i) =~= ws);
    }
}

/// Encoding a batch of signed constraints for the relay and decoding it again gives the
/// same batch.
pub proof fn lemma_batch_round_trip(batch: Seq<RecordView>)
    ensures
        decoded_batch(encoded_batch(batch)) == Some(batch),
    decreases batch.len(),
{
    if batch.len() > 0 {
        let e = encoded_batch(batch);
        assert(e.drop_last() =~= encoded_batch(batch.drop_last()));
        lemma_batch_round_trip(batch.drop_last());
        let v = batch.last();
        lemma_field_round_trip(v.0);
        lemma_field_round_trip(v.2);
        lemma_field_round_trip(v.3);
        assert(e.last() == wire_of(v));
        assert(batch.drop_last().push(v) =~= batch);
    } else {
        assert(encoded_batch(batch) =~= Seq::<RecordView>::empty());
    }
}

/// What an envelope says of its transaction: nonce, gas limit, max fee per gas, value,
/// chain id, number of blob versioned hashes and max fee per blob gas (the last two for
/// blob transactions only).
pub type TxFields = (u64, u64, u128, u128, Option<u64>, Option<usize>, Option<u128>);

/// The fields of the transaction that an EIP-2718 envelope (network form) encodes, if it
/// encodes exactly one whose value fits 128 bits.
pub uninterp spec fn decoded_fields_of(envelope: Seq<u8>) -> Option<TxFields>;

/// Relies on alloy-consensus: `PooledTransaction::decode_2718_exact` (one transaction,
/// blob sidecar included, no trailing bytes) and its `Transaction` accessors; the value
/// is converted to 128 bits (nothing where it does not fit).
#[verifier::external_body]
fn decode_envelope(bytes: &[u8]) -> (r: Option<TxFields>)
    ensures
        r == decoded_fields_of(bytes@),
{
    let tx = PooledTransaction::decode_2718_exact(bytes).ok()?;
    let value = u128::try_from(tx.value()).ok()?;
    let hashes = tx.blob_versioned_hashes().map(<[_]>::len);
    Some((tx.nonce(), tx.gas_limit(), tx.max_fee_per_gas(), value, tx.chain_id(), hashes, tx.max_fee_per_blob_gas()))
}

/// The address that signed the transaction an EIP-2718 envelope (network form) encodes,
/// if it encodes one and its signature recovers to an address.
pub uninterp spec fn recovered_sender_of(envelope: Seq<u8>) -> Option<Seq<u8>>;

/// Relies on alloy-consensus: `PooledTransaction::decode_2718_exact` and
/// `SignerRecoverable::recover_signer` (secp256k1 recovery over the signature hash);
/// the address is converted to its 20 bytes.
#[verifier::external_body]
fn recover_sender(bytes: &[u8]) -> (r: Option<[u8; 20]>)
    ensures
        match r {
            Some(a) => recovered_sender_of(bytes@) == Some(a@),
            None => recovered_sender_of(bytes@).is_none(),
        },
{
    let tx = PooledTransaction::decode_2718_exact(bytes).ok()?;
    tx.recover_signer().ok().map(|address| address.0.0)
}

/// Whether the transaction an envelope encodes carries valid blobs: for a blob
/// transaction, its sidecar's commitments match the versioned hashes and the proofs verify.
pub uninterp spec fn blobs_verified_of(envelope: Seq<u8>) -> bool;

/// Relies on alloy-consensus: `PooledTransaction::decode_2718_exact` and, for a blob
/// transaction, `TxEip4844WithSidecar::validate_blob` under the default Ethereum KZG
/// settings (`EnvKzgSettings::Default`); a transaction of another type has no blobs to
/// check, and bytes that do not decode have none either.
#[verifier::external_body]
fn verify_blobs(bytes: &[u8]) -> (r: bool)
    ensures
        r == blobs_verified_of(bytes@),
{
    match PooledTransaction::decode_2718_exact(bytes) {
        Ok(PooledTransaction::Eip4844(signed)) => signed.tx().validate_blob(EnvKzgSettings::Default.get()).is_ok(),
        Ok(_) => true,
        Err(_) => false,
    }
}

/// Whether `t` holds the decoded fields `d`; a transaction without blobs has no blob
/// count and no blob fee.
pub open spec fn holds_fields(t: FullTransaction, d: TxFields) -> bool {
    &&& t.nonce == d.0
    &&& t.gas_limit == d.1
    &&& t.max_fee_per_gas == d.2
    &&& t.value == d.3
    &&& t.chain_id == d.4
    &&& t.blob_count == match d.5 {
        Some(n) => n as int,
        None => 0,
    }
    &&& t.max_fee_per_blob_gas == match d.6 {
        Some(f) => f,
        None => 0,
    }
}

/// The view of optional bytes.
pub open spec fn opt_bytes(o: Option<Vec<u8>>) -> Option<Seq<u8>> {
    match o {
        Some(v) => Some(v@),
        None => None,
    }
}

/// Whether a wire text stands for a transaction: hex, then one decodable envelope.
pub open spec fn decodes(text: Seq<u8>) -> bool {
    parse_field(text).is_some() && decoded_fields_of(parse_field(text).unwrap()).is_some()
}

/// Reads the transactions of a request from their wire texts (`0x`-prefixed hex of the
/// EIP-2718 envelopes), in order, with the senders their signatures recover to (none
/// where recovery fails, which admission rejects).
pub fn decode_txs(texts: &Vec<Vec<u8>>) -> (r: Result<Vec<FullTransaction>, WireError>)
    ensures
        r.is_ok() <==> forall|i: int| 0 <= i < texts@.len() ==> #[trigger] decodes(texts@[i]@),
        r matches Ok(txs) ==> txs@.len() == texts@.len() && forall|i: int|
            0 <= i < txs@.len() ==> {
                let b = parse_field(texts@[i]@).unwrap();
                &&& (#[trigger] txs@[i]).envelope@ == b
                &&& opt_bytes(txs@[i].sender) == recovered_sender_of(b)
                &&& txs@[i].blobs_verified == blobs_verified_of(b)
                &&& holds_fields(txs@[i], decoded_fields_of(b).unwrap())
            },
{
    let mut txs: Vec<FullTransaction> = Vec::new();
    let mut i: usize = 0;
    while i < texts.len()
        invariant
            0 <= i <= texts@.len(),
            txs@.len() == i,
            forall|j: int| 0 <= j < i ==> #[trigger] decodes(texts@[j]@),
            forall|j: int|
                0 <= j < i ==> {
                    let b = parse_field(texts@[j]@).unwrap();
                    &&& (#[trigger] txs@[j]).envelope@ == b
                    &&& opt_bytes(txs@[j].sender) == recovered_sender_of(b)
                    &&& txs@[j].blobs_verified == blobs_verified_of(b)
                    &&& holds_fields(txs@[j], decoded_fields_of(b).unwrap())
                },
        decreases texts@.len() - i,
    {
        let envelope = match decode_hex_field(texts[i].as_slice()) {
            Ok(b) => b,
            Err(e) => {
                assert(!decodes(texts@[i as int]@));
                return Err(e);
            },
        };
        let fields = match decode_envelope(envelope.as_slice()) {
            Some(f) => f,
            None => {
                assert(!decodes(texts@[i as int]@));
                return Err(WireError::InvalidTransaction);
            },
        };
        let (nonce, gas_limit, max_fee_per_gas, value, chain_id, hashes, blob_fee) = fields;
        let blob_count: u64 = match hashes {
            Some(n) => n as u64,
            None => 0,
        };
        let max_fee_per_blob_gas: u128 = match blob_fee {
            Some(f) => f,
            None => 0,
        };
        let blobs_verified = verify_blobs(envelope.as_slice());
        let sender = match recover_sender(envelope.as_slice()) {
            Some(a) => {
                let mut address: Vec<u8> = Vec::new();
                crate::crypto::append_bytes(&mut address, a.as_slice());
                Some(address)
            },
            None => None,
        };
        txs.push(
            FullTransaction {
                envelope,
                sender,
                chain_id,
                nonce,
                gas_limit,
                max_fee_per_gas,
                value,
                blob_count,
                max_fee_per_blob_gas,
                blobs_verified,
            },
        );
        i = i + 1;
    }
    Ok(txs)
}

} // verus!
