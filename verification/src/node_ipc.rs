//! Block templates straight from the node: what the pool makes of a header, a
//! coinbase transaction and a merkle path, and how it follows the chain tip.
use crate::bytes;
use crate::coinbase;
use crate::coinbase::TxOutput;
use crate::jobs;
use crate::messages::{B0255_MAX, B064K_MAX};
use vstd::prelude::*;

verus! {

/// Weight units of one byte of the coinbase.
pub const WEIGHT_FACTOR: u32 = 4;

/// The least weight that a block template reserves.
pub const MIN_BLOCK_RESERVED_WEIGHT: u64 = 2000;

/// The rise in fees, in satoshis, that makes a new template worth while.
pub const FEE_THRESHOLD_SATS: i64 = 1000;

/// Signature operations that the coinbase outputs may add.
pub const COINBASE_MAX_ADDITIONAL_SIGOPS: u16 = 400;

/// A template: the coinbase's ingredients and the merkle path.
#[derive(Debug, Clone)]
pub struct NewTemplate {
    pub template_id: u64,
    pub future_template: bool,
    pub version: u32,
    pub coinbase_tx_version: u32,
    pub coinbase_prefix: Vec<u8>,
    pub coinbase_tx_input_sequence: u32,
    pub coinbase_tx_value_remaining: u64,
    pub coinbase_tx_outputs_count: u32,
    pub coinbase_tx_outputs: Vec<u8>,
    pub coinbase_tx_locktime: u32,
    pub merkle_path: Vec<[u8; 32]>,
}

/// The block that a template builds on.
#[derive(Debug, Clone)]
pub struct SetNewPrevHash {
    pub template_id: u64,
    pub prev_hash: [u8; 32],
    pub header_timestamp: u32,
    pub n_bits: u32,
    pub target: [u8; 32],
}

/// A template with the block it builds on.
#[derive(Debug, Clone)]
pub struct RawTemplate {
    pub new_template: NewTemplate,
    pub set_new_prev_hash: SetNewPrevHash,
}

/// A block solution for the node or the template provider.
#[derive(Debug, Clone)]
pub struct SubmitSolutionData {
    pub template_id: u64,
    pub version: u32,
    pub header_timestamp: u32,
    pub header_nonce: u32,
    pub coinbase_tx: Vec<u8>,
}

/// What a template takes from a block header.
#[derive(Debug, Clone)]
pub struct BlockHeader {
    pub version: u32,
    pub prev_blockhash: [u8; 32],
    pub time: u32,
    pub bits: u32,
}

/// What a template takes from a transaction input.
#[derive(Debug, Clone)]
pub struct TxInput {
    pub script_sig: Vec<u8>,
    pub sequence: u32,
}

/// What a template takes from the node's coinbase transaction.
#[derive(Debug, Clone)]
pub struct NodeTransaction {
    pub version: u32,
    pub inputs: Vec<TxInput>,
    pub outputs: Vec<TxOutput>,
    pub lock_time: u32,
}

#[verifier::ext_equal]
pub struct HeaderView {
    pub version: u32,
    pub prev_blockhash: Seq<u8>,
    pub time: u32,
    pub bits: u32,
}

#[verifier::ext_equal]
pub struct InputView {
    pub script_sig: Seq<u8>,
    pub sequence: u32,
}

#[verifier::ext_equal]
pub struct TransactionView {
    pub version: u32,
    pub inputs: Seq<InputView>,
    pub outputs: Seq<coinbase::OutputView>,
    pub lock_time: u32,
}

#[verifier::ext_equal]
pub struct NewTemplateView {
    pub template_id: u64,
    pub future_template: bool,
    pub version: u32,
    pub coinbase_tx_version: u32,
    pub coinbase_prefix: Seq<u8>,
    pub coinbase_tx_input_sequence: u32,
    pub coinbase_tx_value_remaining: u64,
    pub coinbase_tx_outputs_count: u32,
    pub coinbase_tx_outputs: Seq<u8>,
    pub coinbase_tx_locktime: u32,
    pub merkle_path: Seq<Seq<u8>>,
}

#[verifier::ext_equal]
pub struct TipView {
    pub template_id: u64,
    pub prev_hash: Seq<u8>,
    pub header_timestamp: u32,
    pub n_bits: u32,
    pub target: Seq<u8>,
}

#[verifier::ext_equal]
pub struct TemplateView {
    pub template_id: u64,
    pub future_template: bool,
    pub version: u32,
    pub coinbase_tx_version: u32,
    pub coinbase_prefix: Seq<u8>,
    pub coinbase_tx_input_sequence: u32,
    pub coinbase_tx_value_remaining: u64,
    pub coinbase_tx_outputs_count: u32,
    pub coinbase_tx_outputs: Seq<u8>,
    pub coinbase_tx_locktime: u32,
    pub merkle_path: Seq<Seq<u8>>,
    pub prev_hash_template_id: u64,
    pub prev_hash: Seq<u8>,
    pub header_timestamp: u32,
    pub n_bits: u32,
    pub target: Seq<u8>,
}

#[verifier::ext_equal]
pub struct SolutionView {
    pub template_id: u64,
    pub version: u32,
    pub header_timestamp: u32,
    pub header_nonce: u32,
    pub coinbase_tx: Seq<u8>,
}

impl View for SubmitSolutionData {
    type V = SolutionView;

    open spec fn view(&self) -> SolutionView {
        SolutionView {
            template_id: self.template_id,
            version: self.version,
            header_timestamp: self.header_timestamp,
            header_nonce: self.header_nonce,
            coinbase_tx: self.coinbase_tx@,
        }
    }
}

impl View for BlockHeader {
    type V = HeaderView;

    open spec fn view(&self) -> HeaderView {
        HeaderView {
            version: self.version,
            prev_blockhash: self.prev_blockhash@,
            time: self.time,
            bits: self.bits,
        }
    }
}

impl View for TxInput {
    type V = InputView;

    open spec fn view(&self) -> InputView {
        InputView { script_sig: self.script_sig@, sequence: self.sequence }
    }
}

impl View for NodeTransaction {
    type V = TransactionView;

    open spec fn view(&self) -> TransactionView {
        TransactionView {
            version: self.version,
            inputs: self.inputs@.map_values(|i: TxInput| i@),
            outputs: coinbase::output_views(self.outputs@),
            lock_time: self.lock_time,
        }
    }
}

impl View for NewTemplate {
    type V = NewTemplateView;

    open spec fn view(&self) -> NewTemplateView {
        NewTemplateView {
            template_id: self.template_id,
            future_template: self.future_template,
            version: self.version,
            coinbase_tx_version: self.coinbase_tx_version,
            coinbase_prefix: self.coinbase_prefix@,
            coinbase_tx_input_sequence: self.coinbase_tx_input_sequence,
            coinbase_tx_value_remaining: self.coinbase_tx_value_remaining,
            coinbase_tx_outputs_count: self.coinbase_tx_outputs_count,
            coinbase_tx_outputs: self.coinbase_tx_outputs@,
            coinbase_tx_locktime: self.coinbase_tx_locktime,
            merkle_path: jobs::hash_views(self.merkle_path@),
        }
    }
}

impl View for SetNewPrevHash {
    type V = TipView;

    open spec fn view(&self) -> TipView {
        TipView {
            template_id: self.template_id,
            prev_hash: self.prev_hash@,
            header_timestamp: self.header_timestamp,
            n_bits: self.n_bits,
            target: self.target@,
        }
    }
}

impl View for RawTemplate {
    type V = TemplateView;

    open spec fn view(&self) -> TemplateView {
        TemplateView {
            template_id: self.new_template.template_id,
            future_template: self.new_template.future_template,
            version: self.new_template.version,
            coinbase_tx_version: self.new_template.coinbase_tx_version,
            coinbase_prefix: self.new_template.coinbase_prefix@,
            coinbase_tx_input_sequence: self.new_template.coinbase_tx_input_sequence,
            coinbase_tx_value_remaining: self.new_template.coinbase_tx_value_remaining,
            coinbase_tx_outputs_count: self.new_template.coinbase_tx_outputs_count,
            coinbase_tx_outputs: self.new_template.coinbase_tx_outputs@,
            coinbase_tx_locktime: self.new_template.coinbase_tx_locktime,
            merkle_path: jobs::hash_views(self.new_template.merkle_path@),
            prev_hash_template_id: self.set_new_prev_hash.template_id,
            prev_hash: self.set_new_prev_hash.prev_hash@,
            header_timestamp: self.set_new_prev_hash.header_timestamp,
            n_bits: self.set_new_prev_hash.n_bits,
            target: self.set_new_prev_hash.target@,
        }
    }
}

/// Why no template can be built.
#[derive(Debug, Clone, Copy, PartialEq, Eq, Structural)]
pub enum TemplateError {
    ValueOverflow,
    PrefixTooLong,
    OutputsTooLarge,
    BadMerkleHash,
    PathTooLong,
}

/// Why the node's answers give no template.
#[derive(Debug, Clone, Copy, PartialEq, Eq, Structural)]
pub enum FetchError {
    BadHeader,
    BadTransaction,
    /// The transaction spends nothing, so it has no coinbase script.
    NoInput,
    Template { error: TemplateError },
}

// ── The outside crate's decoders ──────────────────────────────────────────────

/// The header that 80 bytes hold: version, previous block, merkle root, time,
/// bits, nonce.
pub open spec fn header_of(data: Seq<u8>) -> Option<HeaderView> {
    if data.len() != 80 {
        None
    } else {
        Some(
            HeaderView {
                version: bytes::le_value(data.subrange(0, 4)) as u32,
                prev_blockhash: data.subrange(4, 36),
                time: bytes::le_value(data.subrange(68, 72)) as u32,
                bits: bytes::le_value(data.subrange(72, 76)) as u32,
            },
        )
    }
}

/// The transaction that `data` encodes, as `bitcoin`'s `deserialize` reads it; none
/// where it fails.
pub uninterp spec fn transaction_of(data: Seq<u8>) -> Option<TransactionView>;

/// The bytes of a compact target, least significant first: a mantissa of three
/// bytes at a place counted in bytes, which wraps at 32; nothing where the mantissa
/// is negative.
pub open spec fn target_of(bits: u32) -> Seq<u8> {
    let size = bits as nat / 0x100_0000;
    let word = bits as nat % 0x100_0000;
    let mantissa = if size == 0 {
        0
    } else if size == 1 {
        word / 0x1_0000
    } else if size == 2 {
        word / 0x100
    } else {
        word
    };
    let place = if size <= 3 {
        0
    } else {
        ((size - 3) % 32) as nat
    };
    if mantissa > 0x7f_ffff {
        coinbase::run(0x00, 32)
    } else {
        (coinbase::run(0x00, place) + bytes::le(mantissa, 3) + coinbase::run(0x00, 32)).take(32)
    }
}

/// The error of `bitcoin`'s consensus decoder.
#[verifier::external_type_specification]
#[verifier::external_body]
pub struct ExEncodeError(bitcoin::consensus::encode::Error);

/// `bitcoin::consensus::deserialize` of a block header: succeeds exactly on 80
/// bytes.
#[verifier::external_body]
fn header_from_bytes(data: &Vec<u8>) -> (out: Result<BlockHeader, bitcoin::consensus::encode::Error>)
    ensures
        match out {
            Ok(header) => header_of(data@) == Some(header@),
            Err(_) => header_of(data@) is None,
        },
{
    let header: bitcoin::block::Header = bitcoin::consensus::deserialize(data)?;
    Ok(BlockHeader {
        version: header.version.to_consensus() as u32,
        prev_blockhash: bitcoin::hashes::Hash::to_byte_array(header.prev_blockhash),
        time: header.time,
        bits: header.bits.to_consensus(),
    })
}

/// `bitcoin::consensus::deserialize` of a transaction, which depends on the bytes
/// alone. An output's script lies within the bytes, which also hold its amount and
/// length and the transaction's version, counts and lock time.
#[verifier::external_body]
fn transaction_from_bytes(data: &Vec<u8>) -> (out: Result<
    NodeTransaction,
    bitcoin::consensus::encode::Error,
>)
    ensures
        match out {
            Ok(tx) => {
                &&& transaction_of(data@) == Some(tx@)
                &&& forall|i: int|
                    0 <= i < tx.outputs@.len() ==> (#[trigger] tx.outputs@[i]).script_pubkey@.len()
                        + 17 <= data@.len()
            },
            Err(_) => transaction_of(data@) is None,
        },
{
    let tx: bitcoin::Transaction = bitcoin::consensus::deserialize(data)?;
    let inputs = tx.input.iter().map(|i| TxInput {
        script_sig: i.script_sig.to_bytes(),
        sequence: i.sequence.to_consensus_u32(),
    }).collect();
    let outputs = tx.output.iter().map(|o| TxOutput {
        value: o.value.to_sat(),
        script_pubkey: o.script_pubkey.to_bytes(),
    }).collect();
    let (version, lock_time) = (tx.version.0 as u32, tx.lock_time.to_consensus_u32());
    Ok(NodeTransaction { version, inputs, outputs, lock_time })
}

/// `bitcoin::Target::from` a compact target, and `Target::to_le_bytes`.
#[verifier::external_body]
pub(crate) fn target_from_bits(bits: u32) -> (target: [u8; 32])
    ensures
        target@ == target_of(bits),
{
    bitcoin::Target::from(bitcoin::CompactTarget::from_consensus(bits)).to_le_bytes()
}

// ── Building a template ───────────────────────────────────────────────────────

/// The outputs that pay nothing, such as the witness commitment.
pub open spec fn free_outputs(outputs: Seq<coinbase::OutputView>) -> Seq<coinbase::OutputView>
    decreases outputs.len(),
{
    if outputs.len() == 0 {
        Seq::empty()
    } else if outputs.last().value == 0 {
        free_outputs(outputs.drop_last()).push(outputs.last())
    } else {
        free_outputs(outputs.drop_last())
    }
}

/// What the outputs pay in all.
pub open spec fn total_value(outputs: Seq<coinbase::OutputView>) -> nat
    decreases outputs.len(),
{
    if outputs.len() == 0 {
        0
    } else {
        total_value(outputs.drop_last()) + outputs.last().value as nat
    }
}

/// Whether every hash of the path is 32 bytes.
pub open spec fn path_ok(path: Seq<Vec<u8>>) -> bool {
    forall|i: int| 0 <= i < path.len() ==> (#[trigger] path[i])@.len() == 32
}

/// The error that the parts of a template meet, or none.
pub open spec fn template_error(cb: TransactionView, path: Seq<Vec<u8>>) -> Option<TemplateError> {
    if total_value(cb.outputs) > u64::MAX {
        Some(TemplateError::ValueOverflow)
    } else if cb.inputs[0].script_sig.len() > B0255_MAX {
        Some(TemplateError::PrefixTooLong)
    } else if coinbase::outputs_bytes(free_outputs(cb.outputs)).len() > B064K_MAX {
        Some(TemplateError::OutputsTooLarge)
    } else if !path_ok(path) {
        Some(TemplateError::BadMerkleHash)
    } else if path.len() > B0255_MAX {
        Some(TemplateError::PathTooLong)
    } else {
        None
    }
}

/// The template of a header, a coinbase transaction and a path.
pub open spec fn template_of(
    template_id: u64,
    header: HeaderView,
    cb: TransactionView,
    path: Seq<Vec<u8>>,
) -> TemplateView {
    TemplateView {
        template_id,
        future_template: true,
        version: header.version,
        coinbase_tx_version: cb.version,
        coinbase_prefix: cb.inputs[0].script_sig,
        coinbase_tx_input_sequence: cb.inputs[0].sequence,
        coinbase_tx_value_remaining: total_value(cb.outputs) as u64,
        coinbase_tx_outputs_count: free_outputs(cb.outputs).len() as u32,
        coinbase_tx_outputs: coinbase::outputs_bytes(free_outputs(cb.outputs)),
        coinbase_tx_locktime: cb.lock_time,
        merkle_path: path.map_values(|h: Vec<u8>| h@),
        prev_hash_template_id: template_id,
        prev_hash: header.prev_blockhash,
        header_timestamp: header.time,
        n_bits: header.bits,
        target: target_of(header.bits),
    }
}

/// The coinbase built from a template pays the miner all that the node's coinbase
/// pays, and carries the node's outputs that pay nothing: its two pieces around an
/// extranonce are the serialized transaction with the payout first.
pub proof fn template_pays_everything_to_the_miner(
    template_id: u64,
    header: HeaderView,
    cb: TransactionView,
    path: Seq<Vec<u8>>,
    miner_script: Seq<u8>,
    extranonce: Seq<u8>,
    use_segwit: bool,
)
    requires
        template_error(cb, path) is None,
        extranonce.len() == jobs::SV2_EXTRANONCE_TOTAL,
    ensures
        ({
            let t = template_of(template_id, header, cb, path);
            let payout = coinbase::OutputView {
                value: t.coinbase_tx_value_remaining,
                script_pubkey: miner_script,
            };
            let tx = coinbase::CoinbaseView {
                version: t.coinbase_tx_version,
                script_sig: t.coinbase_prefix + extranonce,
                sequence: t.coinbase_tx_input_sequence,
                outputs: seq![payout] + free_outputs(cb.outputs),
                lock_time: t.coinbase_tx_locktime,
            };
            &&& t.coinbase_tx_value_remaining == total_value(cb.outputs)
            &&& total_value(tx.outputs) == total_value(cb.outputs)
            &&& jobs::tdp_before(t.coinbase_prefix, t.coinbase_tx_version, use_segwit) + extranonce
                + jobs::tdp_after(
                t.coinbase_tx_input_sequence,
                payout,
                t.coinbase_tx_outputs_count,
                t.coinbase_tx_outputs,
                t.coinbase_tx_locktime,
                use_segwit,
            ) == if use_segwit {
                coinbase::segwit_bytes(tx)
            } else {
                coinbase::legacy_bytes(tx)
            }
        }),
{
    let t = template_of(template_id, header, cb, path);
    let payout = coinbase::OutputView {
        value: t.coinbase_tx_value_remaining,
        script_pubkey: miner_script,
    };
    let free = free_outputs(cb.outputs);
    lemma_outputs_take_nine_bytes(free);
    lemma_free_outputs_are_free(cb.outputs);
    lemma_total_of_payout(payout, free);
    jobs::tdp_pieces_make_the_transaction(
        t.coinbase_prefix,
        extranonce,
        t.coinbase_tx_version,
        t.coinbase_tx_input_sequence,
        payout,
        free,
        t.coinbase_tx_locktime,
        use_segwit,
    );
}

/// What outputs pay in all adds up over them, and the outputs that pay nothing are kept,
/// each once and in their order.
pub proof fn outputs_add_up(
    one: coinbase::OutputView,
    a: Seq<coinbase::OutputView>,
    b: Seq<coinbase::OutputView>,
)
    ensures
        total_value(seq![one]) == one.value,
        total_value(a + b) == total_value(a) + total_value(b),
        free_outputs(a) == a.filter(|o: coinbase::OutputView| o.value == 0),
    decreases a.len() + b.len(),
{
    reveal_with_fuel(total_value, 2);
    reveal(Seq::filter);
    assert(seq![one].drop_last() =~= Seq::empty());
    if a.len() > 0 {
        outputs_add_up(one, a.drop_last(), Seq::empty());
    } else {
        assert(free_outputs(a) =~= a.filter(|o: coinbase::OutputView| o.value == 0));
    }
    if b.len() == 0 {
        assert(a + b =~= a);
    } else {
        outputs_add_up(one, a, b.drop_last());
        assert((a + b).drop_last() =~= a + b.drop_last());
    }
}

/// A template says what the node's answers say. Of the header's 80 bytes: the version, the
/// previous hash, the time and the bits, and the target of these bits. Of the coinbase
/// transaction: its version, the script and the sequence number of its first input, all
/// that its outputs pay, how many of them pay nothing, these outputs, and the lock time.
/// And the path as it is. It has the number that it was asked for.
pub proof fn templates_say_what_the_node_says(
    template_id: u64,
    header: Seq<u8>,
    coinbase_tx: Seq<u8>,
    path: Seq<Vec<u8>>,
)
    requires
        fetched(template_id, header, coinbase_tx, path) is Ok,
    ensures
        ({
            let t = fetched(template_id, header, coinbase_tx, path)->Ok_0;
            let cb = transaction_of(coinbase_tx)->0;
            &&& header.len() == 80
            &&& t.template_id == template_id && t.prev_hash_template_id == template_id
            &&& t.future_template
            &&& t.version == bytes::le_value(header.subrange(0, 4))
            &&& t.prev_hash == header.subrange(4, 36)
            &&& t.header_timestamp == bytes::le_value(header.subrange(68, 72))
            &&& t.n_bits == bytes::le_value(header.subrange(72, 76))
            &&& t.target == target_of(t.n_bits)
            &&& t.coinbase_tx_version == cb.version
            &&& t.coinbase_prefix == cb.inputs[0].script_sig
            &&& t.coinbase_tx_input_sequence == cb.inputs[0].sequence
            &&& t.coinbase_tx_value_remaining == total_value(cb.outputs)
            &&& t.coinbase_tx_outputs_count == free_outputs(cb.outputs).len()
            &&& t.coinbase_tx_outputs == coinbase::outputs_bytes(free_outputs(cb.outputs))
            &&& t.coinbase_tx_locktime == cb.lock_time
            &&& t.merkle_path == path.map_values(|h: Vec<u8>| h@)
        }),
{
    let cb = transaction_of(coinbase_tx)->0;
    lemma_outputs_take_nine_bytes(free_outputs(cb.outputs));
    lemma_four_bytes(header.subrange(0, 4));
    lemma_four_bytes(header.subrange(68, 72));
    lemma_four_bytes(header.subrange(72, 76));
}

proof fn lemma_four_bytes(data: Seq<u8>)
    requires
        data.len() == 4,
    ensures
        bytes::le_value(data) <= u32::MAX,
{
    reveal_with_fuel(bytes::le_value, 5);
}

/// Templates and solutions are seen as they are, with all their fields; so are the header
/// and the transaction that a template is built from.
pub proof fn templates_are_seen_as_they_are(
    raw: RawTemplate,
    header: BlockHeader,
    tx: NodeTransaction,
    i: int,
)
    ensures
        raw@.template_id == raw.new_template.template_id && raw@.future_template
            == raw.new_template.future_template && raw@.version == raw.new_template.version
            && raw@.coinbase_tx_version == raw.new_template.coinbase_tx_version
            && raw@.coinbase_prefix == raw.new_template.coinbase_prefix@
            && raw@.coinbase_tx_input_sequence == raw.new_template.coinbase_tx_input_sequence
            && raw@.coinbase_tx_value_remaining == raw.new_template.coinbase_tx_value_remaining
            && raw@.coinbase_tx_outputs_count == raw.new_template.coinbase_tx_outputs_count
            && raw@.coinbase_tx_outputs == raw.new_template.coinbase_tx_outputs@
            && raw@.coinbase_tx_locktime == raw.new_template.coinbase_tx_locktime,
        raw@.prev_hash_template_id == raw.set_new_prev_hash.template_id && raw@.prev_hash
            == raw.set_new_prev_hash.prev_hash@ && raw@.header_timestamp
            == raw.set_new_prev_hash.header_timestamp && raw@.n_bits
            == raw.set_new_prev_hash.n_bits && raw@.target == raw.set_new_prev_hash.target@,
        raw@.merkle_path.len() == raw.new_template.merkle_path@.len(),
        0 <= i < raw.new_template.merkle_path@.len() ==> raw@.merkle_path[i]
            == raw.new_template.merkle_path@[i]@,
        header@.version == header.version && header@.prev_blockhash == header.prev_blockhash@
            && header@.time == header.time && header@.bits == header.bits,
        tx@.version == tx.version && tx@.lock_time == tx.lock_time,
        tx@.inputs.len() == tx.inputs@.len() && tx@.outputs.len() == tx.outputs@.len(),
        0 <= i < tx.inputs@.len() ==> tx@.inputs[i].script_sig == tx.inputs@[i].script_sig@
            && tx@.inputs[i].sequence == tx.inputs@[i].sequence,
        0 <= i < tx.outputs@.len() ==> tx@.outputs[i].value == tx.outputs@[i].value
            && tx@.outputs[i].script_pubkey == tx.outputs@[i].script_pubkey@,
{
}

/// When the node's answers give no template: a header that is not 80 bytes, a transaction
/// that cannot be read or spends nothing, outputs that pay more than a number holds, a
/// script, outputs or a path that do not fit their messages, or a hash that is not 32
/// bytes; the first of these in order, and only then.
pub proof fn fetch_errors_are(
    template_id: u64,
    header: Seq<u8>,
    coinbase_tx: Seq<u8>,
    path: Seq<Vec<u8>>,
)
    ensures
        ({
            let out = fetched(template_id, header, coinbase_tx, path);
            let read = transaction_of(coinbase_tx);
            let cb = read->0;
            let readable = header.len() == 80 && read is Some;
            let payable = total_value(cb.outputs) <= u64::MAX;
            let spends = readable && payable && cb.inputs.len() > 0;
            let short = spends && cb.inputs[0].script_sig.len() <= 255;
            let small = short && coinbase::outputs_bytes(free_outputs(cb.outputs)).len() <= 65535;
            let hashes = small && forall|i: int|
                0 <= i < path.len() ==> (#[trigger] path[i])@.len() == 32;
            &&& header.len() != 80 <==> out == Err::<TemplateView, _>(FetchError::BadHeader)
            &&& header.len() == 80 && read is None <==> out == Err::<TemplateView, _>(
                FetchError::BadTransaction,
            )
            &&& readable && payable && cb.inputs.len() == 0 <==> out == Err::<TemplateView, _>(
                FetchError::NoInput,
            )
            &&& readable && !payable ==> out == Err::<TemplateView, _>(
                FetchError::Template { error: TemplateError::ValueOverflow },
            )
            &&& spends && !short ==> out == Err::<TemplateView, _>(
                FetchError::Template { error: TemplateError::PrefixTooLong },
            )
            &&& short && !small ==> out == Err::<TemplateView, _>(
                FetchError::Template { error: TemplateError::OutputsTooLarge },
            )
            &&& small && !hashes ==> out == Err::<TemplateView, _>(
                FetchError::Template { error: TemplateError::BadMerkleHash },
            )
            &&& hashes && path.len() > 255 ==> out == Err::<TemplateView, _>(
                FetchError::Template { error: TemplateError::PathTooLong },
            )
            &&& out is Ok <==> hashes && path.len() <= 255
        }),
{
}

proof fn lemma_outputs_take_nine_bytes(outputs: Seq<coinbase::OutputView>)
    ensures
        coinbase::outputs_bytes(outputs).len() >= 9 * outputs.len(),
    decreases outputs.len(),
{
    if outputs.len() > 0 {
        lemma_outputs_take_nine_bytes(outputs.drop_last());
        let last = outputs.last();
        bytes::lemma_le_len(last.value as nat, 8);
        bytes::lemma_le_len(last.script_pubkey.len(), 1);
    }
}

proof fn lemma_free_outputs_are_free(outputs: Seq<coinbase::OutputView>)
    ensures
        forall|i: int|
            0 <= i < free_outputs(outputs).len() ==> (#[trigger] free_outputs(outputs)[i]).value
                == 0,
    decreases outputs.len(),
{
    if outputs.len() > 0 {
        let before = free_outputs(outputs.drop_last());
        lemma_free_outputs_are_free(outputs.drop_last());
        assert forall|i: int| 0 <= i < free_outputs(outputs).len() implies (
        #[trigger] free_outputs(outputs)[i]).value == 0 by {
            if i < before.len() {
                assert(before[i].value == 0);
            }
        }
    }
}

proof fn lemma_total_of_payout(payout: coinbase::OutputView, free: Seq<coinbase::OutputView>)
    requires
        forall|i: int| 0 <= i < free.len() ==> (#[trigger] free[i]).value == 0,
    ensures
        total_value(seq![payout] + free) == payout.value,
    decreases free.len(),
{
    let all = seq![payout] + free;
    if free.len() == 0 {
        assert(all.drop_last() =~= Seq::empty());
        assert(total_value(all.drop_last()) == 0);
    } else {
        lemma_total_of_payout(payout, free.drop_last());
        assert(all.drop_last() =~= seq![payout] + free.drop_last());
    }
}

proof fn lemma_total_grows(outputs: Seq<coinbase::OutputView>, from: int, to: int)
    requires
        0 <= from <= to <= outputs.len(),
    ensures
        total_value(outputs.take(from)) <= total_value(outputs.take(to)),
    decreases to - from,
{
    if from < to {
        lemma_total_grows(outputs, from, to - 1);
        assert(outputs.take(to).drop_last() =~= outputs.take(to - 1));
    }
}

fn sum_outputs(outputs: &Vec<TxOutput>) -> (total: Option<u64>)
    ensures
        match total {
            Some(n) => n == total_value(coinbase::output_views(outputs@)),
            None => total_value(coinbase::output_views(outputs@)) > u64::MAX,
        },
{
    let ghost views = coinbase::output_views(outputs@);
    let mut total: u64 = 0;
    let mut i: usize = 0;
    while i < outputs.len()
        invariant
            i <= outputs@.len(),
            views == coinbase::output_views(outputs@),
            total == total_value(views.take(i as int)),
        decreases outputs@.len() - i,
    {
        proof {
            assert(views.take(i + 1).drop_last() =~= views.take(i as int));
            assert(views[i as int] == outputs@[i as int]@);
            lemma_total_grows(views, i + 1, views.len() as int);
            assert(views.take(views.len() as int) =~= views);
        }
        match total.checked_add(outputs[i].value) {
            Some(n) => {
                total = n;
            },
            None => {
                return None;
            },
        }
        i = i + 1;
    }
    assert(views.take(views.len() as int) =~= views);
    Some(total)
}

/// The bytes of the outputs that pay nothing, and how many they are.
fn collect_free_outputs(outputs: &Vec<TxOutput>) -> (out: (Vec<u8>, usize))
    requires
        forall|i: int|
            0 <= i < outputs@.len() ==> (#[trigger] outputs@[i]).script_pubkey@.len() + 17
                <= usize::MAX,
    ensures
        out.0@ == coinbase::outputs_bytes(free_outputs(coinbase::output_views(outputs@))),
        out.1 == free_outputs(coinbase::output_views(outputs@)).len(),
{
    let ghost views = coinbase::output_views(outputs@);
    let mut data: Vec<u8> = Vec::new();
    let mut count: usize = 0;
    let mut i: usize = 0;
    while i < outputs.len()
        invariant
            i <= outputs@.len(),
            views == coinbase::output_views(outputs@),
            forall|j: int|
                0 <= j < outputs@.len() ==> (#[trigger] outputs@[j]).script_pubkey@.len() + 17
                    <= usize::MAX,
            data@ == coinbase::outputs_bytes(free_outputs(views.take(i as int))),
            count == free_outputs(views.take(i as int)).len(),
            count <= i,
        decreases outputs@.len() - i,
    {
        proof {
            assert(views.take(i + 1).drop_last() =~= views.take(i as int));
            assert(views[i as int] == outputs@[i as int]@);
        }
        if outputs[i].value == 0 {
            let ghost before = free_outputs(views.take(i as int));
            proof {
                bytes::lemma_le_len(0, 8);
                bytes::lemma_compact_size_len(views[i as int].script_pubkey.len());
                assert(before.push(views[i as int]).drop_last() =~= before);
            }
            let one: Vec<u8> = coinbase::serialize_output(&outputs[i]);
            data.extend_from_slice(one.as_slice());
            count = count + 1;
        }
        i = i + 1;
    }
    assert(views.take(views.len() as int) =~= views);
    (data, count)
}

fn path_hashes(path: &Vec<Vec<u8>>) -> (out: Option<Vec<[u8; 32]>>)
    ensures
        match out {
            Some(hashes) => path_ok(path@) && jobs::hash_views(hashes@) == path@.map_values(
                |h: Vec<u8>| h@,
            ),
            None => !path_ok(path@),
        },
{
    let mut hashes: Vec<[u8; 32]> = Vec::new();
    let mut i: usize = 0;
    while i < path.len()
        invariant
            i <= path@.len(),
            hashes@.len() == i,
            forall|j: int|
                0 <= j < i ==> (#[trigger] path@[j])@.len() == 32 && hashes@[j]@ == path@[j]@,
        decreases path@.len() - i,
    {
        if path[i].len() != 32 {
            assert(path@[i as int]@.len() != 32);
            return None;
        }
        hashes.push(jobs::to_array32(&path[i]));
        i = i + 1;
    }
    assert(jobs::hash_views(hashes@) =~= path@.map_values(|h: Vec<u8>| h@));
    Some(hashes)
}

fn copy_bytes(data: &Vec<u8>) -> (out: Vec<u8>)
    ensures
        out@ == data@,
{
    vstd::slice::slice_to_vec(data.as_slice())
}

/// Builds the template of a header, the node's coinbase transaction and the path
/// of its hash to the merkle root.
pub fn build_raw_template(
    template_id: u64,
    header: &BlockHeader,
    cb: &NodeTransaction,
    path: &Vec<Vec<u8>>,
) -> (out: Result<RawTemplate, TemplateError>)
    requires
        total_value(cb@.outputs) <= u64::MAX ==> cb.inputs@.len() > 0,
        forall|i: int|
            0 <= i < cb.outputs@.len() ==> (#[trigger] cb.outputs@[i]).script_pubkey@.len() + 17
                <= usize::MAX,
    ensures
        match out {
            Ok(raw) => template_error(cb@, path@) is None && raw@ == template_of(
                template_id,
                header@,
                cb@,
                path@,
            ),
            Err(error) => template_error(cb@, path@) == Some(error),
        },
{
    let free: (Vec<u8>, usize) = collect_free_outputs(&cb.outputs);
    let value_remaining: u64 = match sum_outputs(&cb.outputs) {
        Some(n) => n,
        None => {
            return Err(TemplateError::ValueOverflow);
        },
    };
    assert(cb@.inputs[0] == cb.inputs@[0]@);
    if cb.inputs[0].script_sig.len() > B0255_MAX {
        return Err(TemplateError::PrefixTooLong);
    }
    if free.0.len() > B064K_MAX {
        return Err(TemplateError::OutputsTooLarge);
    }
    let merkle_path: Vec<[u8; 32]> = match path_hashes(path) {
        Some(hashes) => hashes,
        None => {
            return Err(TemplateError::BadMerkleHash);
        },
    };
    if path.len() > B0255_MAX {
        return Err(TemplateError::PathTooLong);
    }
    proof {
        lemma_outputs_take_nine_bytes(free_outputs(cb@.outputs));
    }
    let new_template: NewTemplate = NewTemplate {
        template_id,
        future_template: true,
        version: header.version,
        coinbase_tx_version: cb.version,
        coinbase_prefix: copy_bytes(&cb.inputs[0].script_sig),
        coinbase_tx_input_sequence: cb.inputs[0].sequence,
        coinbase_tx_value_remaining: value_remaining,
        coinbase_tx_outputs_count: free.1 as u32,
        coinbase_tx_outputs: free.0,
        coinbase_tx_locktime: cb.lock_time,
        merkle_path,
    };
    let set_new_prev_hash: SetNewPrevHash = SetNewPrevHash {
        template_id,
        prev_hash: header.prev_blockhash,
        header_timestamp: header.time,
        n_bits: header.bits,
        target: target_from_bits(header.bits),
    };
    let raw: RawTemplate = RawTemplate { new_template, set_new_prev_hash };
    assert(raw@ =~= template_of(template_id, header@, cb@, path@));
    Ok(raw)
}

/// The template of the node's three answers: header, coinbase transaction, path.
pub open spec fn fetched(
    template_id: u64,
    header: Seq<u8>,
    coinbase_tx: Seq<u8>,
    path: Seq<Vec<u8>>,
) -> Result<TemplateView, FetchError> {
    match header_of(header) {
        None => Err(FetchError::BadHeader),
        Some(h) => match transaction_of(coinbase_tx) {
            None => Err(FetchError::BadTransaction),
            Some(cb) => if total_value(cb.outputs) <= u64::MAX && cb.inputs.len() == 0 {
                Err(FetchError::NoInput)
            } else {
                match template_error(cb, path) {
                    Some(error) => Err(FetchError::Template { error }),
                    None => Ok(template_of(template_id, h, cb, path)),
                }
            },
        },
    }
}

/// Reads the node's answers and builds the template from them.
pub fn fetch_template(
    template_id: u64,
    header: &Vec<u8>,
    coinbase_tx: &Vec<u8>,
    path: &Vec<Vec<u8>>,
) -> (out: Result<RawTemplate, FetchError>)
    ensures
        match out {
            Ok(raw) => fetched(template_id, header@, coinbase_tx@, path@) == Ok::<_, FetchError>(
                raw@,
            ),
            Err(error) => fetched(template_id, header@, coinbase_tx@, path@) == Err::<
                TemplateView,
                _,
            >(error),
        },
{
    let block_header: BlockHeader = match header_from_bytes(header) {
        Ok(h) => h,
        Err(_) => {
            return Err(FetchError::BadHeader);
        },
    };
    let cb: NodeTransaction = match transaction_from_bytes(coinbase_tx) {
        Ok(tx) => tx,
        Err(_) => {
            return Err(FetchError::BadTransaction);
        },
    };
    assert(coinbase_tx@.len() == coinbase_tx.len());
    if cb.inputs.len() == 0 && sum_outputs(&cb.outputs).is_some() {
        return Err(FetchError::NoInput);
    }
    match build_raw_template(template_id, &block_header, &cb, path) {
        Ok(raw) => Ok(raw),
        Err(error) => Err(FetchError::Template { error }),
    }
}

// ── Following the tip ─────────────────────────────────────────────────────────

/// The weight that a template reserves for a coinbase whose outputs may add
/// `coinbase_output_max_size` bytes.
pub fn reserved_weight(coinbase_output_max_size: u32) -> (weight: u64)
    requires
        coinbase_output_max_size * WEIGHT_FACTOR <= u32::MAX,
    ensures
        weight == if coinbase_output_max_size * WEIGHT_FACTOR >= MIN_BLOCK_RESERVED_WEIGHT {
            coinbase_output_max_size * WEIGHT_FACTOR
        } else {
            MIN_BLOCK_RESERVED_WEIGHT as int
        },
        weight == if coinbase_output_max_size < 500 {
            2000
        } else {
            4 * coinbase_output_max_size
        },
{
    let weight: u64 = (coinbase_output_max_size * WEIGHT_FACTOR) as u64;
    if weight >= MIN_BLOCK_RESERVED_WEIGHT {
        weight
    } else {
        MIN_BLOCK_RESERVED_WEIGHT
    }
}

/// What happened on the node's side.
#[derive(Debug, Clone, Copy, PartialEq, Eq, Structural)]
pub enum NodeEvent {
    /// The node made its first block template.
    Connected,
    /// The node has a newer block template.
    NewBlock,
    /// Nothing new within the time given.
    WaitTimedOut,
    WaitFailed,
    TemplateFetched,
    FetchFailed,
    TemplatePublished,
    /// Nobody listens for templates any more.
    NoListeners,
    /// A miner found a block.
    SolutionFound,
    SolutionSubmitted,
}

/// What to do next.
#[derive(Debug, Clone, Copy, PartialEq, Eq, Structural)]
pub enum NodeAction {
    Fetch { template_id: u64 },
    /// Let go of the block template in hand, take the new one, and fetch it.
    ReplaceAndFetch { template_id: u64 },
    Publish,
    Wait,
    Submit,
    /// Let go of the block template and end in order.
    Finish,
    /// End with the error.
    Abort,
}

/// The connection to the node: the id that the next template gets.
pub struct NodeSession {
    pub next_template_id: u64,
}

/// What is to be done after an event.
pub open spec fn node_action(next_template_id: u64, event: NodeEvent) -> NodeAction {
    match event {
        NodeEvent::Connected => NodeAction::Fetch { template_id: next_template_id },
        NodeEvent::NewBlock => NodeAction::ReplaceAndFetch { template_id: next_template_id },
        NodeEvent::WaitTimedOut => NodeAction::Wait,
        NodeEvent::WaitFailed => NodeAction::Abort,
        NodeEvent::TemplateFetched => NodeAction::Publish,
        NodeEvent::FetchFailed => NodeAction::Abort,
        NodeEvent::TemplatePublished => NodeAction::Wait,
        NodeEvent::NoListeners => NodeAction::Finish,
        NodeEvent::SolutionFound => NodeAction::Submit,
        NodeEvent::SolutionSubmitted => NodeAction::Wait,
    }
}

/// The id of the next template after an event: a fetched template spends one.
pub open spec fn next_id_after(next_template_id: u64, event: NodeEvent) -> u64 {
    if event == NodeEvent::TemplateFetched {
        (next_template_id + 1) as u64
    } else {
        next_template_id
    }
}

impl NodeSession {
    /// A session whose first template has id 0.
    pub fn new() -> (session: Self)
        ensures
            session.next_template_id == 0,
    {
        Self { next_template_id: 0 }
    }

    /// Decides what to do after an event.
    pub fn step(&mut self, event: NodeEvent) -> (action: NodeAction)
        requires
            event is TemplateFetched ==> old(self).next_template_id < u64::MAX,
        ensures
            action == node_action(old(self).next_template_id, event),
            final(self).next_template_id == next_id_after(old(self).next_template_id, event),
    {
        match event {
            NodeEvent::Connected => NodeAction::Fetch { template_id: self.next_template_id },
            NodeEvent::NewBlock => NodeAction::ReplaceAndFetch {
                template_id: self.next_template_id,
            },
            NodeEvent::WaitTimedOut => NodeAction::Wait,
            NodeEvent::WaitFailed => NodeAction::Abort,
            NodeEvent::TemplateFetched => {
                self.next_template_id = self.next_template_id + 1;
                NodeAction::Publish
            },
            NodeEvent::FetchFailed => NodeAction::Abort,
            NodeEvent::TemplatePublished => NodeAction::Wait,
            NodeEvent::NoListeners => NodeAction::Finish,
            NodeEvent::SolutionFound => NodeAction::Submit,
            NodeEvent::SolutionSubmitted => NodeAction::Wait,
        }
    }
}

/// What calls for each action: a template is fetched, under the next id, when the node has
/// one, and the one in hand is let go of for a newer one only; what was fetched is
/// published; a block that was found is submitted; the session ends in order where nobody
/// listens, and with the error where waiting or fetching failed; else it waits. An id is
/// spent exactly by a template that was fetched.
pub proof fn each_action_has_its_reason(next_template_id: u64, event: NodeEvent)
    requires
        event is TemplateFetched ==> next_template_id < u64::MAX,
    ensures
        ({
            let action = node_action(next_template_id, event);
            &&& event == NodeEvent::Connected <==> action == (NodeAction::Fetch {
                template_id: next_template_id,
            })
            &&& event == NodeEvent::NewBlock <==> action == (NodeAction::ReplaceAndFetch {
                template_id: next_template_id,
            })
            &&& event == NodeEvent::TemplateFetched <==> action == NodeAction::Publish
            &&& event == NodeEvent::SolutionFound <==> action == NodeAction::Submit
            &&& event == NodeEvent::NoListeners <==> action == NodeAction::Finish
            &&& event == NodeEvent::WaitFailed || event == NodeEvent::FetchFailed <==> action
                == NodeAction::Abort
            &&& event == NodeEvent::WaitTimedOut || event == NodeEvent::TemplatePublished || event
                == NodeEvent::SolutionSubmitted <==> action == NodeAction::Wait
            &&& next_id_after(next_template_id, event) == next_template_id + if event
                == NodeEvent::TemplateFetched {
                1
            } else {
                0int
            }
        }),
{
}

/// The next id after a run of events.
pub open spec fn next_id_after_all(first: u64, events: Seq<NodeEvent>) -> u64
    decreases events.len(),
{
    if events.len() == 0 {
        first
    } else {
        next_id_after(next_id_after_all(first, events.drop_last()), events.last())
    }
}

/// The number of templates fetched in a run of events.
pub open spec fn fetches(events: Seq<NodeEvent>) -> nat
    decreases events.len(),
{
    if events.len() == 0 {
        0
    } else {
        fetches(events.drop_last()) + if events.last() is TemplateFetched {
            1nat
        } else {
            0
        }
    }
}

/// Template ids count the templates fetched: the next id is the number of
/// templates so far, so no two templates of a session share one.
pub proof fn template_ids_count_up(events: Seq<NodeEvent>)
    requires
        fetches(events) <= u64::MAX,
    ensures
        next_id_after_all(0, events) == fetches(events),
    decreases events.len(),
{
    if events.len() > 0 {
        template_ids_count_up(events.drop_last());
    }
}

/// The node refused the solution for a template.
#[derive(Debug, Clone, Copy, PartialEq, Eq, Structural)]
pub struct SolutionRejected {
    pub template_id: u64,
}

/// What the node's verdict on a solution means.
pub fn solution_verdict(solution: &SubmitSolutionData, accepted: bool) -> (out: Result<
    (),
    SolutionRejected,
>)
    ensures
        out is Ok <==> accepted,
        out matches Err(e) ==> e.template_id == solution.template_id,
{
    if accepted {
        Ok(())
    } else {
        Err(SolutionRejected { template_id: solution.template_id })
    }
}

} // verus!
