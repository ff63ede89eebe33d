//! Client of the Template Distribution Protocol: what is sent to the template
//! provider, and how its messages are paired.
use crate::bytes;
use crate::keys;
use crate::messages;
use crate::messages::{Protocol, SetupConnection, B064K_MAX};
use crate::node_ipc;
use crate::node_ipc::{SubmitSolutionData, COINBASE_MAX_ADDITIONAL_SIGOPS};
use crate::noise_connection;
use crate::noise_connection::AuthorityInitiator;
use crate::stratum_sv2::IncomingFrame;
use vstd::prelude::*;

verus! {

/// The template provider listens on 18447 in regtest (8442 mainnet).
pub const TP_REGTEST_PORT: u16 = 18447;

/// Raw payload bytes for a paired `NewTemplate` and `SetNewPrevHash`.
#[derive(Debug, Clone)]
pub struct RawTemplate {
    pub new_template: Vec<u8>,
    pub set_new_prev_hash: Vec<u8>,
}

#[verifier::ext_equal]
pub struct PairView {
    pub new_template: Seq<u8>,
    pub set_new_prev_hash: Seq<u8>,
}

impl View for RawTemplate {
    type V = PairView;

    open spec fn view(&self) -> PairView {
        PairView {
            new_template: self.new_template@,
            set_new_prev_hash: self.set_new_prev_hash@,
        }
    }
}

// ── Authority key ─────────────────────────────────────────────────────────────

/// Why an authority key file gives no key.
#[derive(Debug, Clone, Copy, PartialEq, Eq, Structural)]
pub enum AuthorityKeyError {
    /// The file is not 33 bytes long.
    WrongLength { len: usize },
    NoSecretKey,
}

/// Where the template provider keeps its authority key.
pub fn authority_key_path(datadir: &str) -> (path: String)
    ensures
        path@ == datadir@ + "/regtest/sv2_authority_key"@,
{
    let mut path: String = datadir.to_owned();
    path.append("/regtest/sv2_authority_key");
    path
}

/// The authority public key of a key file: 33 bytes, a format byte before the
/// secret key, from which the public key is derived.
pub fn authority_pubkey(file: &Vec<u8>) -> (out: Result<[u8; 32], AuthorityKeyError>)
    ensures
        match out {
            Ok(key) => file@.len() == 33 && keys::xonly_key(file@.skip(1)) == Some(key@)
                && keys::is_x_coordinate(key@),
            Err(AuthorityKeyError::WrongLength { len }) => file@.len() != 33 && len == file@.len(),
            Err(AuthorityKeyError::NoSecretKey) => file@.len() == 33 && keys::xonly_key(
                file@.skip(1),
            ) is None,
        },
{
    if file.len() != 33 {
        return Err(AuthorityKeyError::WrongLength { len: file.len() });
    }
    let secret: &[u8] = vstd::slice::slice_subrange(file.as_slice(), 1, 33);
    assert(secret@ =~= file@.skip(1));
    match keys::xonly_public_key(secret) {
        Some(key) => Ok(key),
        None => Err(AuthorityKeyError::NoSecretKey),
    }
}

/// The authority public key is no x coordinate of a point.
#[derive(Debug, Clone, Copy, PartialEq, Eq, Structural)]
pub struct InvalidPublicKey;

/// The initiator that accepts only a provider with this authority key. A key that
/// `authority_pubkey` derived always gives one.
pub fn initiator(authority_pubkey: [u8; 32]) -> (out: Result<AuthorityInitiator, InvalidPublicKey>)
    ensures
        match out {
            Ok(i) => keys::is_x_coordinate(authority_pubkey@) && i@.authority
                == authority_pubkey@,
            Err(_) => !keys::is_x_coordinate(authority_pubkey@),
        },
{
    match noise_connection::initiator_from_key(authority_pubkey) {
        Ok(initiator) => Ok(initiator),
        Err(_) => Err(InvalidPublicKey),
    }
}

// ── Messages out ──────────────────────────────────────────────────────────────

pub open spec fn setup_message(port: u16) -> messages::SetupView {
    messages::SetupView {
        protocol: Protocol::TemplateDistribution,
        min_version: 2,
        max_version: 2,
        flags: 0,
        endpoint_host: vstd::utf8::encode_utf8("127.0.0.1"@),
        endpoint_port: port,
        vendor: vstd::utf8::encode_utf8("lottery-pool"@),
        hardware_version: vstd::utf8::encode_utf8("0.1"@),
        firmware: vstd::utf8::encode_utf8("0.1"@),
        device_id: vstd::utf8::encode_utf8("pool"@),
    }
}

proof fn lemma_setup_texts()
    ensures
        vstd::utf8::encode_utf8("127.0.0.1"@).len() == 9,
        vstd::utf8::encode_utf8("lottery-pool"@).len() == 12,
        vstd::utf8::encode_utf8("0.1"@).len() == 3,
        vstd::utf8::encode_utf8("pool"@).len() == 4,
{
    reveal_strlit("127.0.0.1");
    reveal_strlit("lottery-pool");
    reveal_strlit("0.1");
    reveal_strlit("pool");
    vstd::utf8::is_ascii_chars_encode_utf8("127.0.0.1"@);
    vstd::utf8::is_ascii_chars_encode_utf8("lottery-pool"@);
    vstd::utf8::is_ascii_chars_encode_utf8("0.1"@);
    vstd::utf8::is_ascii_chars_encode_utf8("pool"@);
}

/// The frame that opens a connection to the template provider.
pub fn setup_connection(port: u16) -> (frame: Vec<u8>)
    ensures
        frame@ == messages::frame(
            messages::SETUP_CONNECTION,
            false,
            messages::setup_payload(setup_message(port)),
        ),
{
    let m: SetupConnection = SetupConnection {
        protocol: Protocol::TemplateDistribution,
        min_version: 2,
        max_version: 2,
        flags: 0,
        endpoint_host: "127.0.0.1".as_bytes_vec(),
        endpoint_port: port,
        vendor: "lottery-pool".as_bytes_vec(),
        hardware_version: "0.1".as_bytes_vec(),
        firmware: "0.1".as_bytes_vec(),
        device_id: "pool".as_bytes_vec(),
    };
    proof {
        lemma_setup_texts();
        assert(m@ =~= setup_message(port));
        bytes::lemma_le_len(2, 2);
        bytes::lemma_le_len(0, 4);
        bytes::lemma_le_len(port as nat, 2);
    }
    let payload: Vec<u8> = messages::setup_connection_to_bytes(&m);
    messages::framed(messages::SETUP_CONNECTION, false, &payload)
}

/// The frame that tells the provider how much the coinbase outputs may add.
pub fn coinbase_output_constraints(max_additional_size: u32) -> (frame: Vec<u8>)
    ensures
        frame@ == messages::frame(
            messages::COINBASE_OUTPUT_CONSTRAINTS,
            false,
            messages::constraints_payload(max_additional_size, COINBASE_MAX_ADDITIONAL_SIGOPS),
        ),
{
    let payload: Vec<u8> = messages::constraints_to_bytes(
        max_additional_size,
        COINBASE_MAX_ADDITIONAL_SIGOPS,
    );
    proof {
        bytes::lemma_le_len(max_additional_size as nat, 4);
        bytes::lemma_le_len(COINBASE_MAX_ADDITIONAL_SIGOPS as nat, 2);
    }
    messages::framed(messages::COINBASE_OUTPUT_CONSTRAINTS, false, &payload)
}

/// The coinbase of a solution is longer than a message can carry.
#[derive(Debug, Clone, Copy, PartialEq, Eq, Structural)]
pub struct CoinbaseTooLarge;

/// The frame that hands the provider a block solution.
pub fn submit_solution(solution: &SubmitSolutionData) -> (out: Result<Vec<u8>, CoinbaseTooLarge>)
    ensures
        match out {
            Ok(frame) => solution.coinbase_tx@.len() <= B064K_MAX && frame@ == messages::frame(
                messages::SUBMIT_SOLUTION,
                false,
                messages::solution_payload(solution@),
            ),
            Err(_) => solution.coinbase_tx@.len() > B064K_MAX,
        },
{
    if solution.coinbase_tx.len() > B064K_MAX {
        return Err(CoinbaseTooLarge);
    }
    let payload: Vec<u8> = messages::solution_to_bytes(solution);
    proof {
        bytes::lemma_le_len(solution.template_id as nat, 8);
        bytes::lemma_le_len(solution.version as nat, 4);
        bytes::lemma_le_len(solution.header_timestamp as nat, 4);
        bytes::lemma_le_len(solution.header_nonce as nat, 4);
        bytes::lemma_le_len(solution.coinbase_tx@.len(), 2);
    }
    Ok(messages::framed(messages::SUBMIT_SOLUTION, false, &payload))
}

/// What the provider is told of the coinbase and of a block, read from the frames' bytes:
/// how much the outputs may add, with 400 signature operations; and the template's id, the
/// header's version, time and nonce, and the coinbase behind its size.
pub proof fn provider_frames_read_back(max_additional_size: u32, solution: node_ipc::SolutionView)
    requires
        solution.coinbase_tx.len() <= 65535,
    ensures
        ({
            let frame = messages::frame(
                messages::COINBASE_OUTPUT_CONSTRAINTS,
                false,
                messages::constraints_payload(max_additional_size, COINBASE_MAX_ADDITIONAL_SIGOPS),
            );
            &&& frame.len() == 12 && frame[1] == 0 && frame[2] == 0x70
            &&& bytes::le_value(frame.subrange(6, 10)) == max_additional_size
            &&& bytes::le_value(frame.subrange(10, 12)) == 400
        }),
        ({
            let frame = messages::frame(
                messages::SUBMIT_SOLUTION,
                false,
                messages::solution_payload(solution),
            );
            &&& frame[1] == 0 && frame[2] == 0x76
            &&& bytes::le_value(frame.subrange(3, 6)) == frame.len() - 6
            &&& bytes::le_value(frame.subrange(6, 14)) == solution.template_id
            &&& bytes::le_value(frame.subrange(14, 18)) == solution.version
            &&& bytes::le_value(frame.subrange(18, 22)) == solution.header_timestamp
            &&& bytes::le_value(frame.subrange(22, 26)) == solution.header_nonce
            &&& bytes::le_value(frame.subrange(26, 28)) == solution.coinbase_tx.len()
            &&& frame.skip(28) == solution.coinbase_tx
        }),
{
    bytes::lemma_pow256();
    bytes::lemma_le_len(max_additional_size as nat, 4);
    bytes::lemma_le_len(400, 2);
    bytes::lemma_le_round_trip(max_additional_size as nat, 4);
    bytes::lemma_le_round_trip(400, 2);
    let limits = messages::constraints_payload(max_additional_size, 400);
    let first = messages::frame(0x70, false, limits);
    messages::frame_header_says(0x70, false, limits);
    assert(first.subrange(6, 10) =~= bytes::le(max_additional_size as nat, 4));
    assert(first.subrange(10, 12) =~= bytes::le(400, 2));
    bytes::lemma_le_len(solution.template_id as nat, 8);
    bytes::lemma_le_len(solution.version as nat, 4);
    bytes::lemma_le_len(solution.header_timestamp as nat, 4);
    bytes::lemma_le_len(solution.header_nonce as nat, 4);
    bytes::lemma_le_len(solution.coinbase_tx.len(), 2);
    bytes::lemma_le_round_trip(solution.template_id as nat, 8);
    bytes::lemma_le_round_trip(solution.version as nat, 4);
    bytes::lemma_le_round_trip(solution.header_timestamp as nat, 4);
    bytes::lemma_le_round_trip(solution.header_nonce as nat, 4);
    bytes::lemma_le_round_trip(solution.coinbase_tx.len(), 2);
    let payload = messages::solution_payload(solution);
    let second = messages::frame(0x76, false, payload);
    messages::frame_header_says(0x76, false, payload);
    assert(second.subrange(6, 14) =~= bytes::le(solution.template_id as nat, 8));
    assert(second.subrange(14, 18) =~= bytes::le(solution.version as nat, 4));
    assert(second.subrange(18, 22) =~= bytes::le(solution.header_timestamp as nat, 4));
    assert(second.subrange(22, 26) =~= bytes::le(solution.header_nonce as nat, 4));
    assert(second.subrange(26, 28) =~= bytes::le(solution.coinbase_tx.len(), 2));
    assert(second.skip(28) =~= solution.coinbase_tx);
}

// ── Messages in ───────────────────────────────────────────────────────────────

/// A handshake frame came after the handshake.
#[derive(Debug, Clone, Copy, PartialEq, Eq, Structural)]
pub struct UnexpectedHandshake;

/// Why the provider does not accept the connection.
#[derive(Debug, Clone, Copy, PartialEq, Eq, Structural)]
pub enum SetupReplyError {
    UnexpectedHandshake,
    UnexpectedMessage { msg_type: u8 },
}

/// The message of a frame.
pub fn next_msg(frame: IncomingFrame) -> (out: Result<(u8, Vec<u8>), UnexpectedHandshake>)
    ensures
        match frame {
            IncomingFrame::HandShake => out is Err,
            IncomingFrame::Sv2 { msg_type, payload, .. } => out matches Ok(m) && m.0 == msg_type
                && m.1 == payload,
        },
{
    match frame {
        IncomingFrame::HandShake => Err(UnexpectedHandshake),
        IncomingFrame::Sv2 { msg_type, payload, .. } => Ok((msg_type, payload)),
    }
}

/// Whether the provider's first frame accepts the connection.
pub fn expect_setup_connection_success(frame: &IncomingFrame) -> (out: Result<(), SetupReplyError>)
    ensures
        match *frame {
            IncomingFrame::HandShake => out == Err::<(), _>(SetupReplyError::UnexpectedHandshake),
            IncomingFrame::Sv2 { msg_type, payload, .. } => if msg_type
                == messages::SETUP_CONNECTION_SUCCESS {
                out is Ok
            } else {
                out == Err::<(), _>(SetupReplyError::UnexpectedMessage { msg_type })
            },
        },
{
    match frame {
        IncomingFrame::HandShake => Err(SetupReplyError::UnexpectedHandshake),
        IncomingFrame::Sv2 { msg_type, .. } => if *msg_type
            == messages::SETUP_CONNECTION_SUCCESS {
            Ok(())
        } else {
            Err(SetupReplyError::UnexpectedMessage { msg_type: *msg_type })
        },
    }
}

/// A `NewTemplate` that waits for its `SetNewPrevHash`.
pub struct Pairing {
    pub pending: Option<Vec<u8>>,
}

/// What came of a message.
#[derive(Debug, Clone)]
pub enum Paired {
    /// A template waits.
    Pending,
    Pair { template: RawTemplate },
    /// A `SetNewPrevHash` with no template waiting, passed over.
    NothingPending,
    /// A message of another kind, passed over.
    Unexpected { msg_type: u8 },
}

pub open spec fn pending_view(pending: Option<Vec<u8>>) -> Option<Seq<u8>> {
    match pending {
        Some(data) => Some(data@),
        None => None,
    }
}

/// What waits after a message.
pub open spec fn pending_after(
    pending: Option<Seq<u8>>,
    msg_type: u8,
    payload: Seq<u8>,
) -> Option<Seq<u8>> {
    if msg_type == messages::NEW_TEMPLATE {
        Some(payload)
    } else if msg_type == messages::SET_NEW_PREV_HASH {
        None
    } else {
        pending
    }
}

/// The pair that a message completes.
pub open spec fn pair_of(
    pending: Option<Seq<u8>>,
    msg_type: u8,
    payload: Seq<u8>,
) -> Option<PairView> {
    if msg_type == messages::SET_NEW_PREV_HASH && pending is Some {
        Some(PairView { new_template: pending->0, set_new_prev_hash: payload })
    } else {
        None
    }
}

impl Pairing {
    /// Nothing waits yet.
    pub fn new() -> (pairing: Self)
        ensures
            pairing.pending is None,
    {
        Self { pending: None }
    }

    /// Takes in a message: a template waits for the previous hash that comes next,
    /// and a newer template takes its place.
    pub fn on_message(&mut self, msg_type: u8, payload: Vec<u8>) -> (out: Paired)
        ensures
            pending_view(final(self).pending) == pending_after(
                pending_view(old(self).pending),
                msg_type,
                payload@,
            ),
            match out {
                Paired::Pair { template } => Some(template@) == pair_of(
                    pending_view(old(self).pending),
                    msg_type,
                    payload@,
                ),
                Paired::Pending => msg_type == messages::NEW_TEMPLATE,
                Paired::NothingPending => msg_type == messages::SET_NEW_PREV_HASH && old(
                    self,
                ).pending is None,
                Paired::Unexpected { msg_type: other } => other == msg_type && msg_type
                    != messages::NEW_TEMPLATE && msg_type != messages::SET_NEW_PREV_HASH,
            },
    {
        if msg_type == messages::NEW_TEMPLATE {
            self.pending = Some(payload);
            Paired::Pending
        } else if msg_type == messages::SET_NEW_PREV_HASH {
            match self.pending.take() {
                Some(new_template) => Paired::Pair {
                    template: RawTemplate { new_template, set_new_prev_hash: payload },
                },
                None => Paired::NothingPending,
            }
        } else {
            Paired::Unexpected { msg_type }
        }
    }
}

/// A `NewTemplate` (0x71) waits, in place of any before it; a `SetNewPrevHash` (0x72) makes
/// a pair with the one that waits, as both came, and then none waits; any other message
/// changes nothing.
pub proof fn pairs_are_what_came(
    pending: Option<Seq<u8>>,
    msg_type: u8,
    payload: Seq<u8>,
)
    ensures
        msg_type == 0x71 ==> pending_after(pending, msg_type, payload) == Some(payload),
        msg_type == 0x72 ==> pending_after(pending, msg_type, payload) is None,
        msg_type != 0x71 && msg_type != 0x72 ==> pending_after(pending, msg_type, payload)
            == pending,
        pair_of(pending, msg_type, payload) is Some <==> msg_type == 0x72 && pending is Some,
        pair_of(pending, msg_type, payload) matches Some(pair) ==> pending == Some(
            pair.new_template,
        ) && pair.set_new_prev_hash == payload,
{
}

/// What the provider is told first: that the connection is for the Template Distribution
/// Protocol in version 2 and no other, without flags, from the port given.
pub proof fn setup_message_says(port: u16)
    ensures
        ({
            let m = setup_message(port);
            let text = |t: Seq<char>| vstd::utf8::encode_utf8(t);
            &&& m.protocol == Protocol::TemplateDistribution
            &&& m.min_version == 2 && m.max_version == 2
            &&& m.flags == 0
            &&& m.endpoint_host == text("127.0.0.1"@)
            &&& m.endpoint_port == port
            &&& m.vendor == text("lottery-pool"@)
            &&& m.hardware_version == text("0.1"@)
            &&& m.firmware == text("0.1"@)
            &&& m.device_id == text("pool"@)
            &&& messages::setup_fits(m)
            &&& messages::setup_at_front(messages::setup_payload(m)) == Some(m)
        }),
{
    lemma_setup_texts();
    messages::setup_reads_back(setup_message(port), Seq::empty());
    assert(messages::setup_payload(setup_message(port)) + Seq::<u8>::empty()
        =~= messages::setup_payload(setup_message(port)));
}

/// What waits after a run of messages.
pub open spec fn pending_after_all(log: Seq<(u8, Seq<u8>)>) -> Option<Seq<u8>>
    decreases log.len(),
{
    if log.len() == 0 {
        None
    } else {
        pending_after(pending_after_all(log.drop_last()), log.last().0, log.last().1)
    }
}

/// What waits is the last `NewTemplate` that no `SetNewPrevHash` has followed: a
/// pair never holds a template that was overtaken or already paired.
pub proof fn pending_is_the_latest_template(log: Seq<(u8, Seq<u8>)>)
    ensures
        match pending_after_all(log) {
            Some(template) => exists|k: int|
                {
                    &&& 0 <= k < log.len()
                    &&& #[trigger] log[k] == (messages::NEW_TEMPLATE, template)
                    &&& forall|j: int|
                        k < j < log.len() ==> (#[trigger] log[j]).0 != messages::NEW_TEMPLATE
                            && log[j].0 != messages::SET_NEW_PREV_HASH
                },
            None => forall|k: int|
                0 <= k < log.len() && #[trigger] log[k].0 == messages::NEW_TEMPLATE ==> exists|
                    j: int,
                |
                    k < j < log.len() && (#[trigger] log[j]).0 == messages::SET_NEW_PREV_HASH,
        },
    decreases log.len(),
{
    if log.len() > 0 {
        let before = log.drop_last();
        let last = log.last();
        let end = log.len() - 1;
        pending_is_the_latest_template(before);
        assert(log[end] == last);
        if last.0 == messages::NEW_TEMPLATE {
        } else if last.0 == messages::SET_NEW_PREV_HASH {
            assert forall|k: int|
                0 <= k < log.len() && #[trigger] log[k].0
                    == messages::NEW_TEMPLATE implies exists|j: int|
                k < j < log.len() && (#[trigger] log[j]).0 == messages::SET_NEW_PREV_HASH by {
                assert(log[end].0 == messages::SET_NEW_PREV_HASH);
            }
        } else {
            match pending_after_all(before) {
                Some(template) => {
                    let k = choose|k: int|
                        {
                            &&& 0 <= k < before.len()
                            &&& #[trigger] before[k] == (messages::NEW_TEMPLATE, template)
                            &&& forall|j: int|
                                k < j < before.len() ==> (#[trigger] before[j]).0
                                    != messages::NEW_TEMPLATE && before[j].0
                                    != messages::SET_NEW_PREV_HASH
                        };
                    assert(log[k] == before[k]);
                    assert forall|j: int| k < j < log.len() implies (#[trigger] log[j]).0
                        != messages::NEW_TEMPLATE && log[j].0 != messages::SET_NEW_PREV_HASH by {
                        if j < end {
                            assert(log[j] == before[j]);
                        }
                    }
                },
                None => {
                    assert forall|k: int|
                        0 <= k < log.len() && #[trigger] log[k].0
                            == messages::NEW_TEMPLATE implies exists|j: int|
                        k < j < log.len() && (#[trigger] log[j]).0
                            == messages::SET_NEW_PREV_HASH by {
                        assert(before[k].0 == messages::NEW_TEMPLATE);
                        let j = choose|j: int|
                            k < j < before.len() && (#[trigger] before[j]).0
                                == messages::SET_NEW_PREV_HASH;
                        assert(log[j] == before[j]);
                    }
                },
            }
        }
    }
}

/// Reads a pair of messages; nothing where one of them cannot be read.
pub fn read_template(pair: &RawTemplate) -> (out: Option<node_ipc::RawTemplate>)
    ensures
        match out {
            Some(template) => {
                &&& messages::new_template_at_front(pair@.new_template) == Some(
                    template.new_template@,
                )
                &&& messages::tip_at_front(pair@.set_new_prev_hash) == Some(
                    template.set_new_prev_hash@,
                )
            },
            None => messages::new_template_at_front(pair@.new_template) is None
                || messages::tip_at_front(pair@.set_new_prev_hash) is None,
        },
{
    match (
        messages::new_template_from_bytes(&pair.new_template),
        messages::tip_from_bytes(&pair.set_new_prev_hash),
    ) {
        (Ok(new_template), Ok(set_new_prev_hash)) => Some(
            node_ipc::RawTemplate { new_template, set_new_prev_hash },
        ),
        _ => None,
    }
}

} // verus!
