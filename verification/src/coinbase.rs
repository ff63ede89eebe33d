//! The shape of a coinbase transaction, and where it is cut for the miners.
//!
//! A miner gets the transaction in two pieces and puts its own extranonce
//! between them. Everything here is about bytes: scripts, outputs and the
//! serialized transaction.
use crate::bytes;
use vstd::prelude::*;

verus! {

/// A transaction output.
#[derive(Debug, Clone)]
pub struct TxOutput {
    /// Amount in satoshis.
    pub value: u64,
    pub script_pubkey: Vec<u8>,
}

/// A transaction with one input that spends nothing.
#[derive(Debug, Clone)]
pub struct CoinbaseTx {
    pub version: i32,
    pub script_sig: Vec<u8>,
    pub sequence: u32,
    pub outputs: Vec<TxOutput>,
    pub lock_time: u32,
}

/// An output: its amount and its script.
#[verifier::ext_equal]
pub struct OutputView {
    pub value: u64,
    pub script_pubkey: Seq<u8>,
}

/// A coinbase transaction.
#[verifier::ext_equal]
pub struct CoinbaseView {
    pub version: u32,
    pub script_sig: Seq<u8>,
    pub sequence: u32,
    pub outputs: Seq<OutputView>,
    pub lock_time: u32,
}

impl View for TxOutput {
    type V = OutputView;

    open spec fn view(&self) -> OutputView {
        OutputView { value: self.value, script_pubkey: self.script_pubkey@ }
    }
}

impl View for CoinbaseTx {
    type V = CoinbaseView;

    open spec fn view(&self) -> CoinbaseView {
        CoinbaseView {
            version: self.version as u32,
            script_sig: self.script_sig@,
            sequence: self.sequence,
            outputs: output_views(self.outputs@),
            lock_time: self.lock_time,
        }
    }
}

pub open spec fn output_views(outputs: Seq<TxOutput>) -> Seq<OutputView> {
    outputs.map_values(|o: TxOutput| o@)
}

/// A run of `n` bytes `b`.
pub open spec fn run(b: u8, n: nat) -> Seq<u8> {
    Seq::new(n, |i: int| b)
}

// ── Serialization ─────────────────────────────────────────────────────────────

/// An output on the wire: amount, script length, script.
pub open spec fn output_bytes(output: OutputView) -> Seq<u8> {
    bytes::le(output.value as nat, 8) + bytes::compact_size(output.script_pubkey.len())
        + output.script_pubkey
}

/// Outputs one after the other.
pub open spec fn outputs_bytes(outputs: Seq<OutputView>) -> Seq<u8>
    decreases outputs.len(),
{
    if outputs.len() == 0 {
        Seq::empty()
    } else {
        outputs_bytes(outputs.drop_last()) + output_bytes(outputs.last())
    }
}

/// The single input up to its script: an outpoint that is no transaction's, and
/// the length of the script that follows.
pub open spec fn input_head(script_len: nat) -> Seq<u8> {
    seq![1u8] + run(0x00, 32) + run(0xff, 4) + bytes::compact_size(script_len)
}

/// What follows the script: the sequence number and the outputs.
pub open spec fn input_tail(tx: CoinbaseView) -> Seq<u8> {
    bytes::le(tx.sequence as nat, 4) + bytes::compact_size(tx.outputs.len()) + outputs_bytes(
        tx.outputs,
    )
}

/// The transaction on the wire, without witness data.
pub open spec fn legacy_bytes(tx: CoinbaseView) -> Seq<u8> {
    bytes::le(tx.version as nat, 4) + input_head(tx.script_sig.len()) + tx.script_sig + input_tail(
        tx,
    ) + bytes::le(tx.lock_time as nat, 4)
}

/// The transaction on the wire with a witness: a marker and a flag behind the
/// version, and before the lock time one witness item of 32 zero bytes.
pub open spec fn segwit_bytes(tx: CoinbaseView) -> Seq<u8> {
    bytes::le(tx.version as nat, 4) + seq![0x00u8, 0x01u8] + input_head(tx.script_sig.len())
        + tx.script_sig + input_tail(tx) + reserved_witness() + bytes::le(tx.lock_time as nat, 4)
}

/// The witness of a coinbase input: one item, 32 zero bytes.
pub open spec fn reserved_witness() -> Seq<u8> {
    seq![0x01u8, 0x20u8] + run(0x00, 32)
}

// ── Scripts ───────────────────────────────────────────────────────────────────

/// The bytes of `n` without leading zeros, least significant first.
pub open spec fn shortest_le(n: nat) -> Seq<u8>
    decreases n,
{
    if n == 0 {
        Seq::empty()
    } else {
        seq![(n % 256) as u8] + shortest_le(n / 256)
    }
}

/// `n` as a script number: a further zero byte keeps the sign bit clear.
pub open spec fn script_number(n: nat) -> Seq<u8> {
    let short = shortest_le(n);
    if short.len() > 0 && short.last() >= 0x80 {
        short.push(0x00)
    } else {
        short
    }
}

/// The script that pushes `data`, which is shorter than 76 bytes.
pub open spec fn push(data: Seq<u8>) -> Seq<u8> {
    seq![data.len() as u8] + data
}

/// The script that pushes the number `n`: an opcode of its own up to 16.
pub open spec fn push_number(n: nat) -> Seq<u8> {
    if n == 0 {
        seq![0x00u8]
    } else if n <= 16 {
        seq![(0x50 + n) as u8]
    } else {
        push(script_number(n))
    }
}

/// The pool's mark in every coinbase: `/lottery-pool/`.
pub open spec fn pool_tag() -> Seq<u8> {
    seq![
        0x2fu8,
        0x6cu8,
        0x6fu8,
        0x74u8,
        0x74u8,
        0x65u8,
        0x72u8,
        0x79u8,
        0x2du8,
        0x70u8,
        0x6fu8,
        0x6fu8,
        0x6cu8,
        0x2fu8,
    ]
}

/// The coinbase script: the block height, the pool's mark, the extranonce.
pub open spec fn coinbase_script(height: u32, extranonce: Seq<u8>) -> Seq<u8> {
    script_head(height) + push(extranonce)
}

pub open spec fn script_head(height: u32) -> Seq<u8> {
    push_number(height as nat) + push(pool_tag())
}

/// The payout to the miner, followed by the witness commitment where there is one.
pub open spec fn payout_outputs(
    value: u64,
    miner_script: Seq<u8>,
    commitment: Option<Seq<u8>>,
) -> Seq<OutputView> {
    let payout = OutputView { value, script_pubkey: miner_script };
    match commitment {
        Some(script) => seq![payout, OutputView { value: 0, script_pubkey: script }],
        None => seq![payout],
    }
}

/// The coinbase transaction that pays `value` to the miner.
pub open spec fn coinbase_view(
    height: u32,
    extranonce: Seq<u8>,
    value: u64,
    miner_script: Seq<u8>,
    commitment: Option<Seq<u8>>,
) -> CoinbaseView {
    CoinbaseView {
        version: 1,
        script_sig: coinbase_script(height, extranonce),
        sequence: 0xffff_ffff,
        outputs: payout_outputs(value, miner_script, commitment),
        lock_time: 0,
    }
}

/// What stands before an extranonce of `len` bytes.
pub open spec fn before_extranonce(height: u32, len: nat) -> Seq<u8> {
    bytes::le(1, 4) + input_head(script_head(height).len() + 1 + len) + script_head(height)
        + seq![len as u8]
}

/// What stands behind the extranonce.
pub open spec fn after_extranonce(
    value: u64,
    miner_script: Seq<u8>,
    commitment: Option<Seq<u8>>,
) -> Seq<u8> {
    input_tail(coinbase_view(0, Seq::empty(), value, miner_script, commitment)) + bytes::le(0, 4)
}

/// The two pieces around any extranonce are the serialized transaction that
/// carries it.
pub proof fn pieces_make_the_transaction(
    height: u32,
    extranonce: Seq<u8>,
    value: u64,
    miner_script: Seq<u8>,
    commitment: Option<Seq<u8>>,
)
    requires
        extranonce.len() < 76,
    ensures
        before_extranonce(height, extranonce.len()) + extranonce + after_extranonce(
            value,
            miner_script,
            commitment,
        ) == legacy_bytes(coinbase_view(height, extranonce, value, miner_script, commitment)),
{
    let tx = coinbase_view(height, extranonce, value, miner_script, commitment);
    let bare = coinbase_view(0, Seq::empty(), value, miner_script, commitment);
    assert(tx.script_sig.len() == script_head(height).len() + 1 + extranonce.len());
    assert(input_tail(tx) == input_tail(bare));
    assert(before_extranonce(height, extranonce.len()) + extranonce + after_extranonce(
        value,
        miner_script,
        commitment,
    ) =~= legacy_bytes(tx));
}

proof fn lemma_tail_from_the_front(
    value: u64,
    miner_script: Seq<u8>,
    commitment: Option<Seq<u8>>,
) -> (rest: Seq<u8>)
    ensures
        after_extranonce(value, miner_script, commitment).len() >= 13,
        after_extranonce(value, miner_script, commitment).skip(13) == bytes::compact_size(
            miner_script.len(),
        ) + (miner_script + rest),
{
    let outputs = payout_outputs(value, miner_script, commitment);
    let whole = after_extranonce(value, miner_script, commitment);
    let size = bytes::compact_size(miner_script.len());
    bytes::lemma_le_len(0xffff_ffff, 4);
    bytes::lemma_le_len(value as nat, 8);
    bytes::lemma_compact_size_len(outputs.len());
    reveal_with_fuel(outputs_bytes, 3);
    let rest = match commitment {
        Some(script) => {
            assert(outputs.drop_last() =~= seq![outputs[0]]);
            output_bytes(outputs[1]) + bytes::le(0, 4)
        },
        None => bytes::le(0, 4),
    };
    assert(whole.skip(13) =~= size + (miner_script + rest));
    rest
}

/// Only the piece behind the extranonce holds the payout, and it is different for
/// every miner: two different scripts give two different pieces. (The piece before
/// the extranonce does not depend on the script.)
pub proof fn pieces_differ_between_miners(
    value: u64,
    a: Seq<u8>,
    b: Seq<u8>,
    commitment: Option<Seq<u8>>,
)
    requires
        a != b,
        a.len() <= u64::MAX,
        b.len() <= u64::MAX,
    ensures
        after_extranonce(value, a, commitment) != after_extranonce(value, b, commitment),
{
    let rest_a = lemma_tail_from_the_front(value, a, commitment);
    let rest_b = lemma_tail_from_the_front(value, b, commitment);
    bytes::size_prefix_reads_back(a.len(), a + rest_a);
    bytes::size_prefix_reads_back(b.len(), b + rest_b);
    if after_extranonce(value, a, commitment) == after_extranonce(value, b, commitment) {
        let tail = after_extranonce(value, a, commitment).skip(13);
        let at = bytes::compact_size(a.len()).len() as int;
        assert(tail.subrange(at, at + a.len()) =~= a);
        assert(tail.subrange(at, at + b.len()) =~= b);
    }
}

// ── What the bytes say ────────────────────────────────────────────────────────

proof fn lemma_shortest_le_value(n: nat)
    ensures
        bytes::le_value(shortest_le(n)) == n,
        n > 0 ==> shortest_le(n).len() > 0 && shortest_le(n).last() > 0,
    decreases n,
{
    if n > 0 {
        let rest = shortest_le(n / 256);
        let whole = shortest_le(n);
        lemma_shortest_le_value(n / 256);
        assert(whole.drop_first() =~= rest);
        if n / 256 > 0 {
            assert(whole.last() == rest.last());
        } else {
            assert(rest.len() == 0);
            assert(whole.last() == (n % 256) as u8);
        }
    }
}

proof fn lemma_script_number_value(n: nat)
    requires
        n > 0,
    ensures
        bytes::le_value(script_number(n)) == n,
        script_number(n).len() > 0,
        script_number(n).last() < 0x80,
        script_number(n).last() == 0 ==> script_number(n).len() > 1 && script_number(
            n,
        )[script_number(n).len() - 2] >= 0x80,
{
    let short = shortest_le(n);
    lemma_shortest_le_value(n);
    bytes::numbers_add_up(short, seq![0x00u8], 0x00);
    assert(short + seq![0x00u8] =~= short.push(0x00));
    assert(vstd::arithmetic::power::pow(256, short.len()) * 0 == 0) by (nonlinear_arith);
}

/// What a coinbase script says, read from its bytes: it starts with the push of the
/// height, as short as it can be, of which `at` is the end: an opcode of its own up to
/// 16, else the number behind its length, not negative. Then come the push of the pool's
/// mark and the push of the extranonce, and nothing else.
pub proof fn script_reads_back(height: u32, extranonce: Seq<u8>) -> (at: int)
    requires
        extranonce.len() < 76,
    ensures
        ({
            let script = coinbase_script(height, extranonce);
            &&& script.len() == at + 16 + extranonce.len()
            &&& if height == 0 {
                at == 1 && script[0] == 0
            } else if height <= 16 {
                at == 1 && script[0] == 0x50 + height
            } else {
                &&& at == 1 + script[0]
                &&& 1 <= script[0] <= 5
                &&& bytes::le_value(script.subrange(1, at)) == height
                &&& script[at - 1] < 0x80
                &&& script[at - 1] == 0 ==> at > 2 && script[at - 2] >= 0x80
            }
            &&& script[at] == 14
            &&& forall|i: int|
                0 <= i < 14 ==> #[trigger] script[at + 1 + i] == "/lottery-pool/"@[i] as u8
            &&& script[at + 15] == extranonce.len()
            &&& script.skip(at + 16) == extranonce
        }),
{
    let script = coinbase_script(height, extranonce);
    let number = push_number(height as nat);
    let at = number.len() as int;
    let tag = push(pool_tag());
    reveal_strlit("/lottery-pool/");
    lemma_script_head_len(height);
    assert(script[at] == tag[0]);
    assert forall|i: int| 0 <= i < 14 implies #[trigger] script[at + 1 + i]
        == "/lottery-pool/"@[i] as u8 by {
        assert(script[at + 1 + i] == tag[1 + i]);
    }
    assert(script.skip(at + 16) =~= extranonce);
    if height > 16 {
        let data = script_number(height as nat);
        lemma_script_number_value(height as nat);
        lemma_shortest_le_len(height as nat);
        assert(script.subrange(1, at) =~= data);
        assert(script[0] == number[0]);
        assert(script[at - 1] == data.last());
        if data.len() > 1 {
            assert(script[at - 2] == data[data.len() - 2]);
        }
    }
    at
}

/// Coinbase scripts of different heights differ, whatever their extranonces are.
pub proof fn heights_differ_in_the_script(
    height: u32,
    extranonce: Seq<u8>,
    other: u32,
    other_extranonce: Seq<u8>,
)
    requires
        height != other,
        extranonce.len() < 76,
        other_extranonce.len() < 76,
    ensures
        coinbase_script(height, extranonce) != coinbase_script(other, other_extranonce),
{
    script_reads_back(height, extranonce);
    script_reads_back(other, other_extranonce);
}

proof fn lemma_size_at(data: Seq<u8>, at: int, n: nat) -> (width: int)
    requires
        0 <= at <= data.len(),
        n <= u64::MAX,
        bytes::compact_size(n).is_prefix_of(data.skip(at)),
    ensures
        bytes::compact_size_at_front(data.skip(at)) == Some((n, width as nat)),
        width == bytes::compact_size(n).len(),
        1 <= width <= 9,
{
    let size = bytes::compact_size(n);
    let rest = data.skip(at).skip(size.len() as int);
    assert(data.skip(at) =~= size + rest);
    bytes::size_prefix_reads_back(n, rest);
    bytes::lemma_compact_size_len(n);
    size.len() as int
}

/// What the two pieces around an extranonce say, read from their bytes: version 1, one
/// input that spends nothing, whose script is the coinbase script and ends at `ends.0`;
/// the final sequence number; the payout of the whole value to the miner's script, up to
/// `ends.1`; behind it, where there is a commitment, the output that carries it and pays
/// nothing, up to `ends.2`, and no other; and lock time 0.
pub proof fn pieces_read_back(
    height: u32,
    extranonce: Seq<u8>,
    value: u64,
    miner_script: Seq<u8>,
    commitment: Option<Seq<u8>>,
) -> (ends: (int, int, int))
    requires
        extranonce.len() < 76,
        miner_script.len() <= u64::MAX,
        commitment matches Some(script) ==> script.len() <= u64::MAX,
    ensures
        ({
            let tx = before_extranonce(height, extranonce.len()) + extranonce + after_extranonce(
                value,
                miner_script,
                commitment,
            );
            let (a, b, c) = ends;
            &&& bytes::le_value(tx.subrange(0, 4)) == 1
            &&& tx[4] == 1
            &&& forall|i: int| 5 <= i < 37 ==> tx[i] == 0
            &&& forall|i: int| 37 <= i < 41 ==> tx[i] == 0xff
            &&& a == 42 + tx[41]
            &&& tx.subrange(42, a) == coinbase_script(height, extranonce)
            &&& bytes::le_value(tx.subrange(a, a + 4)) == 0xffff_ffff
            &&& tx[a + 4] == if commitment is Some {
                2
            } else {
                1int
            }
            &&& bytes::le_value(tx.subrange(a + 5, a + 13)) == value
            &&& bytes::compact_size_at_front(tx.skip(a + 13)) matches Some((len, width)) && len
                == miner_script.len() && b == a + 13 + width + len && tx.subrange(
                a + 13 + width,
                b,
            ) == miner_script
            &&& match commitment {
                Some(script) => {
                    &&& bytes::le_value(tx.subrange(b, b + 8)) == 0
                    &&& bytes::compact_size_at_front(tx.skip(b + 8)) matches Some((len, width))
                        && len == script.len() && c == b + 8 + width + len && tx.subrange(
                        b + 8 + width,
                        c,
                    ) == script
                },
                None => c == b,
            }
            &&& bytes::le_value(tx.subrange(c, c + 4)) == 0
            &&& tx.len() == c + 4
        }),
{
    let a = lemma_head_reads_back(height, extranonce);
    let (b, c) = lemma_tail_reads_back(value, miner_script, commitment);
    let head = before_extranonce(height, extranonce.len()) + extranonce;
    let tail = after_extranonce(value, miner_script, commitment);
    lemma_tail_behind_a_head(head, tail, value, miner_script, commitment, b, c);
    lemma_front_of_joined(head, tail);
    (a, a + b, a + c)
}

proof fn lemma_front_of_joined(head: Seq<u8>, tail: Seq<u8>)
    ensures
        forall|i: int, j: int|
            0 <= i <= j <= head.len() ==> #[trigger] (head + tail).subrange(i, j) == head.subrange(
                i,
                j,
            ),
        forall|i: int| 0 <= i < head.len() ==> #[trigger] (head + tail)[i] == head[i],
{
    assert forall|i: int, j: int| 0 <= i <= j <= head.len() implies #[trigger] (head
        + tail).subrange(i, j) == head.subrange(i, j) by {
        assert((head + tail).subrange(i, j) =~= head.subrange(i, j));
    }
}

proof fn lemma_tail_behind_a_head(
    head: Seq<u8>,
    tail: Seq<u8>,
    value: u64,
    miner_script: Seq<u8>,
    commitment: Option<Seq<u8>>,
    b: int,
    c: int,
)
    requires
        bytes::le_value(tail.subrange(0, 4)) == 0xffff_ffff,
        tail[4] == if commitment is Some {
            2
        } else {
            1int
        },
        bytes::le_value(tail.subrange(5, 13)) == value,
        bytes::compact_size_at_front(tail.skip(13)) matches Some((len, width)) && len
            == miner_script.len() && b == 13 + width + len && tail.subrange((13 + width) as int, b)
            == miner_script,
        13 <= b <= c,
        match commitment {
            Some(script) => {
                &&& bytes::le_value(tail.subrange(b, b + 8)) == 0
                &&& bytes::compact_size_at_front(tail.skip(b + 8)) matches Some((len, width))
                    && len == script.len() && c == b + 8 + width + len && tail.subrange(
                    b + 8 + width,
                    c,
                ) == script
            },
            None => c == b,
        },
        bytes::le_value(tail.subrange(c, c + 4)) == 0,
        tail.len() == c + 4,
    ensures
        ({
            let tx = head + tail;
            let a = head.len() as int;
            &&& bytes::le_value(tx.subrange(a, a + 4)) == 0xffff_ffff
            &&& tx[a + 4] == if commitment is Some {
                2
            } else {
                1int
            }
            &&& bytes::le_value(tx.subrange(a + 5, a + 13)) == value
            &&& bytes::compact_size_at_front(tx.skip(a + 13)) matches Some((len, width)) && len
                == miner_script.len() && a + b == a + 13 + width + len && tx.subrange(
                a + 13 + width,
                a + b,
            ) == miner_script
            &&& match commitment {
                Some(script) => {
                    &&& bytes::le_value(tx.subrange(a + b, a + b + 8)) == 0
                    &&& bytes::compact_size_at_front(tx.skip(a + b + 8)) matches Some((len, width))
                        && len == script.len() && a + c == a + b + 8 + width + len && tx.subrange(
                        a + b + 8 + width,
                        a + c,
                    ) == script
                },
                None => c == b,
            }
            &&& bytes::le_value(tx.subrange(a + c, a + c + 4)) == 0
            &&& tx.len() == a + c + 4
        }),
{
    let tx = head + tail;
    let a = head.len() as int;
    assert(tx.subrange(a, a + 4) =~= tail.subrange(0, 4));
    assert(tx[a + 4] == tail[4]);
    assert(tx.subrange(a + 5, a + 13) =~= tail.subrange(5, 13));
    assert(tx.skip(a + 13) =~= tail.skip(13));
    let payout_size = bytes::compact_size_at_front(tail.skip(13))->0;
    let width = payout_size.1 as int;
    assert(tx.subrange(a + 13 + width, a + b) =~= tail.subrange(13 + width, b));
    if commitment is Some {
        assert(tx.subrange(a + b, a + b + 8) =~= tail.subrange(b, b + 8));
        assert(tx.skip(a + b + 8) =~= tail.skip(b + 8));
        let size = bytes::compact_size_at_front(tail.skip(b + 8))->0;
        let more = size.1 as int;
        assert(tx.subrange(a + b + 8 + more, a + c) =~= tail.subrange(b + 8 + more, c));
    }
    assert(tx.subrange(a + c, a + c + 4) =~= tail.subrange(c, c + 4));
}

proof fn lemma_head_reads_back(height: u32, extranonce: Seq<u8>) -> (a: int)
    requires
        extranonce.len() < 76,
    ensures
        ({
            let head = before_extranonce(height, extranonce.len()) + extranonce;
            &&& bytes::le_value(head.subrange(0, 4)) == 1
            &&& head[4] == 1
            &&& forall|i: int| 5 <= i < 37 ==> head[i] == 0
            &&& forall|i: int| 37 <= i < 41 ==> head[i] == 0xff
            &&& a == 42 + head[41]
            &&& head.subrange(42, a) == coinbase_script(height, extranonce)
            &&& head.len() == a
        }),
{
    let head = before_extranonce(height, extranonce.len()) + extranonce;
    let script = coinbase_script(height, extranonce);
    lemma_script_head_len(height);
    bytes::lemma_pow256();
    bytes::lemma_le_len(1, 4);
    bytes::lemma_le_round_trip(1, 4);
    reveal_with_fuel(bytes::le, 2);
    let size = bytes::compact_size(script.len());
    assert(size =~= seq![script.len() as u8]);
    let a = (42 + script.len()) as int;
    assert(head.subrange(0, 4) =~= bytes::le(1, 4));
    assert(head[41] == script.len() as u8);
    assert(head.subrange(42, a) =~= script);
    a
}

proof fn lemma_tail_reads_back(
    value: u64,
    miner_script: Seq<u8>,
    commitment: Option<Seq<u8>>,
) -> (ends: (int, int))
    requires
        miner_script.len() <= u64::MAX,
        commitment matches Some(script) ==> script.len() <= u64::MAX,
    ensures
        ({
            let tail = after_extranonce(value, miner_script, commitment);
            let (b, c) = ends;
            &&& bytes::le_value(tail.subrange(0, 4)) == 0xffff_ffff
            &&& tail[4] == if commitment is Some {
                2
            } else {
                1int
            }
            &&& bytes::le_value(tail.subrange(5, 13)) == value
            &&& bytes::compact_size_at_front(tail.skip(13)) matches Some((len, width)) && len
                == miner_script.len() && b == 13 + width + len && tail.subrange((13 + width) as int, b)
                == miner_script
            &&& 13 <= b <= c
            &&& match commitment {
                Some(script) => {
                    &&& bytes::le_value(tail.subrange(b, b + 8)) == 0
                    &&& bytes::compact_size_at_front(tail.skip(b + 8)) matches Some((len, width))
                        && len == script.len() && c == b + 8 + width + len && tail.subrange(
                        b + 8 + width,
                        c,
                    ) == script
                },
                None => c == b,
            }
            &&& bytes::le_value(tail.subrange(c, c + 4)) == 0
            &&& tail.len() == c + 4
        }),
{
    let tail = after_extranonce(value, miner_script, commitment);
    let outputs = payout_outputs(value, miner_script, commitment);
    bytes::lemma_pow256();
    bytes::lemma_le_len(0, 4);
    bytes::lemma_le_len(0, 8);
    bytes::lemma_le_len(0xffff_ffff, 4);
    bytes::lemma_le_len(value as nat, 8);
    bytes::lemma_le_round_trip(0, 4);
    bytes::lemma_le_round_trip(0, 8);
    bytes::lemma_le_round_trip(0xffff_ffff, 4);
    bytes::lemma_le_round_trip(value as nat, 8);
    let count = bytes::compact_size(outputs.len());
    assert(count =~= seq![outputs.len() as u8]) by {
        reveal_with_fuel(bytes::le, 2);
    }
    let width = bytes::compact_size(miner_script.len());
    let first = output_bytes(outputs[0]);
    let second = match commitment {
        Some(script) => output_bytes(outputs[1]),
        None => Seq::empty(),
    };
    assert(outputs_bytes(outputs) =~= first + second) by {
        reveal_with_fuel(outputs_bytes, 3);
        if commitment is Some {
            assert(outputs.drop_last() =~= seq![outputs[0]]);
            assert(outputs.drop_last().drop_last() =~= Seq::empty());
        } else {
            assert(outputs.drop_last() =~= Seq::empty());
        }
    }
    let amount = bytes::le(value as nat, 8);
    let lock_time = bytes::le(0, 4);
    let sequence = bytes::le(0xffff_ffff, 4);
    assert(tail =~= sequence + count + amount + width + miner_script + second + lock_time);
    lemma_tail_parts(sequence, count, amount, width, miner_script, second, lock_time);
    assert(tail[4] == tail.subrange(4, 5)[0]);
    let w = lemma_size_at(tail, 13, miner_script.len());
    let b = 13 + w + miner_script.len();
    let c = match commitment {
        Some(script) => lemma_second_output_reads_back(tail, b, script),
        None => b,
    };
    if commitment is None {
        assert(tail.skip(b) =~= bytes::le(0, 4));
    }
    assert(tail.subrange(c, c + 4) =~= tail.skip(c));
    (b, c)
}

proof fn lemma_tail_parts(
    a: Seq<u8>,
    b: Seq<u8>,
    c: Seq<u8>,
    d: Seq<u8>,
    e: Seq<u8>,
    f: Seq<u8>,
    g: Seq<u8>,
)
    requires
        a.len() == 4,
        b.len() == 1,
        c.len() == 8,
    ensures
        ({
            let all = a + b + c + d + e + f + g;
            let end = 13 + d.len() + e.len();
            &&& all.subrange(0, 4) == a
            &&& all.subrange(4, 5) == b
            &&& all.subrange(5, 13) == c
            &&& d.is_prefix_of(all.skip(13))
            &&& all.subrange(13 + d.len() as int, end as int) == e
            &&& all.skip(end as int) == f + g
            &&& all.len() == end + f.len() + g.len()
        }),
{
    let all = a + b + c + d + e + f + g;
    let end = 13 + d.len() + e.len();
    assert(all.subrange(0, 4) =~= a);
    assert(all.subrange(4, 5) =~= b);
    assert(all.subrange(5, 13) =~= c);
    assert(all.skip(13).subrange(0, d.len() as int) =~= d);
    assert(all.subrange(13 + d.len() as int, end as int) =~= e);
    assert(all.skip(end as int) =~= f + g);
}

proof fn lemma_second_output_reads_back(tail: Seq<u8>, b: int, script: Seq<u8>) -> (c: int)
    requires
        0 <= b <= tail.len(),
        script.len() <= u64::MAX,
        tail.skip(b) == output_bytes(OutputView { value: 0, script_pubkey: script }) + bytes::le(
            0,
            4,
        ),
    ensures
        b <= c,
        bytes::le_value(tail.subrange(b, b + 8)) == 0,
        bytes::compact_size_at_front(tail.skip(b + 8)) matches Some((len, width)) && len
            == script.len() && c == b + 8 + width + len && tail.subrange(b + 8 + width, c)
            == script,
        tail.skip(c) == bytes::le(0, 4),
        tail.len() == c + 4,
{
    let size = bytes::compact_size(script.len());
    let rest = tail.skip(b);
    bytes::lemma_pow256();
    bytes::lemma_le_len(0, 4);
    bytes::lemma_le_len(0, 8);
    bytes::lemma_le_round_trip(0, 8);
    assert(rest =~= bytes::le(0, 8) + (size + (script + bytes::le(0, 4))));
    assert(tail.subrange(b, b + 8) =~= rest.take(8));
    assert(rest.take(8) =~= bytes::le(0, 8));
    assert(tail.skip(b + 8) =~= rest.skip(8));
    assert(rest.skip(8) =~= size + (script + bytes::le(0, 4)));
    let v = lemma_size_at(tail, b + 8, script.len());
    let c = b + 8 + v + script.len();
    assert(tail.subrange(b + 8 + v, c) =~= rest.subrange(8 + v, 8 + v + script.len()));
    assert(rest.subrange(8 + v, 8 + v + script.len()) =~= script);
    assert(tail.skip(c) =~= rest.skip(8 + v + script.len()));
    assert(rest.skip(8 + v + script.len()) =~= bytes::le(0, 4));
    c
}

/// What an output says, read from its bytes: its amount, and its script behind the
/// script's size; and outputs stand one behind the other.
pub proof fn outputs_read_back(one: OutputView, a: Seq<OutputView>, b: Seq<OutputView>)
    requires
        one.script_pubkey.len() <= u64::MAX,
    ensures
        ({
            let data = outputs_bytes(seq![one]);
            &&& bytes::le_value(data.take(8)) == one.value
            &&& bytes::compact_size_at_front(data.skip(8)) matches Some((len, width)) && len
                == one.script_pubkey.len() && data.skip(8 + width as int) == one.script_pubkey
        }),
        outputs_bytes(a + b) == outputs_bytes(a) + outputs_bytes(b),
    decreases b.len(),
{
    let data = outputs_bytes(seq![one]);
    let amount = bytes::le(one.value as nat, 8);
    let size = bytes::compact_size(one.script_pubkey.len());
    bytes::lemma_pow256();
    bytes::lemma_le_len(one.value as nat, 8);
    bytes::lemma_le_round_trip(one.value as nat, 8);
    assert(data =~= amount + size + one.script_pubkey) by {
        reveal_with_fuel(outputs_bytes, 2);
        assert(seq![one].drop_last() =~= Seq::empty());
    }
    assert(data.take(8) =~= amount);
    assert(data.skip(8) =~= size + one.script_pubkey);
    bytes::size_prefix_reads_back(one.script_pubkey.len(), one.script_pubkey);
    assert(data.skip(8 + size.len() as int) =~= one.script_pubkey);
    if b.len() == 0 {
        assert(a + b =~= a);
        assert(outputs_bytes(a) + outputs_bytes(b) =~= outputs_bytes(a));
    } else {
        outputs_read_back(one, a, b.drop_last());
        assert((a + b).drop_last() =~= a + b.drop_last());
        assert(outputs_bytes(a + b) =~= outputs_bytes(a) + outputs_bytes(b));
    }
}

/// The coinbase transaction of a template: version 1, final, without lock time; its script
/// is the coinbase script; it pays the whole value to the miner, and carries the
/// commitment, where there is one, in an output that pays nothing, and has no other.
pub proof fn the_coinbase_pays_the_miner(
    height: u32,
    extranonce: Seq<u8>,
    value: u64,
    miner_script: Seq<u8>,
    commitment: Option<Seq<u8>>,
)
    ensures
        ({
            let tx = coinbase_view(height, extranonce, value, miner_script, commitment);
            &&& tx.version == 1 && tx.sequence == 0xffff_ffff && tx.lock_time == 0
            &&& tx.script_sig == coinbase_script(height, extranonce)
            &&& tx.outputs[0].value == value && tx.outputs[0].script_pubkey == miner_script
            &&& commitment is None ==> tx.outputs.len() == 1
            &&& commitment matches Some(script) ==> tx.outputs.len() == 2 && tx.outputs[1].value
                == 0 && tx.outputs[1].script_pubkey == script
        }),
{
}

/// A transaction is seen with all its fields, and with each of its outputs in its place.
pub proof fn a_coinbase_is_seen_as_it_is(tx: CoinbaseTx, i: int)
    ensures
        tx.version >= 0 ==> tx@.version == tx.version,
        tx@.script_sig == tx.script_sig@,
        tx@.sequence == tx.sequence,
        tx@.lock_time == tx.lock_time,
        tx@.outputs.len() == tx.outputs@.len(),
        output_views(tx.outputs@) == tx@.outputs,
        0 <= i < tx.outputs@.len() ==> tx@.outputs[i].value == tx.outputs@[i].value
            && tx@.outputs[i].script_pubkey == tx.outputs@[i].script_pubkey@,
{
}

/// The form with a witness is the form without, with the marker 0 and the flag 1 behind
/// the version, and one witness item of 32 zero bytes before the lock time.
pub proof fn witness_form_reads_back(tx: CoinbaseView)
    ensures
        ({
            let plain = legacy_bytes(tx);
            let data = segwit_bytes(tx);
            let end = data.len() - 4;
            &&& data.len() == plain.len() + 36
            &&& data.take(4) + data.subrange(6, end - 34) + data.skip(end) == plain
            &&& data[4] == 0 && data[5] == 1
            &&& data[end - 34] == 1 && data[end - 33] == 32
            &&& forall|i: int| end - 32 <= i < end ==> data[i] == 0
        }),
{
    let plain = legacy_bytes(tx);
    let data = segwit_bytes(tx);
    let end = data.len() - 4;
    bytes::lemma_le_len(tx.version as nat, 4);
    bytes::lemma_le_len(tx.lock_time as nat, 4);
    let middle = input_head(tx.script_sig.len()) + tx.script_sig + input_tail(tx);
    let version = bytes::le(tx.version as nat, 4);
    let lock_time = bytes::le(tx.lock_time as nat, 4);
    assert(plain =~= version + middle + lock_time);
    assert(data =~= version + seq![0x00u8, 0x01u8] + middle + reserved_witness() + lock_time);
    assert(data.take(4) =~= version);
    assert(data.subrange(6, end - 34) =~= middle);
    assert(data.skip(end) =~= lock_time);
    assert(data.subrange(end - 34, end) =~= reserved_witness());
    assert forall|i: int| 0 <= i < 34 implies data[end - 34 + i] == #[trigger] reserved_witness()[i] by {
        assert(data.subrange(end - 34, end)[i] == data[end - 34 + i]);
    }
    assert(data[end - 34] == reserved_witness()[0]);
    assert(data[end - 33] == reserved_witness()[1]);
    assert forall|i: int| end - 32 <= i < end implies data[i] == 0 by {
        assert(data[end - 34 + (i - end + 34)] == reserved_witness()[i - end + 34]);
    }
}

// ── Finding the cut ───────────────────────────────────────────────────────────

/// Whether `pattern` stands at `pos` in `data`.
pub open spec fn occurs_at(data: Seq<u8>, pattern: Seq<u8>, pos: int) -> bool {
    0 <= pos && pos + pattern.len() <= data.len() && data.subrange(pos, pos + pattern.len())
        == pattern
}

/// Whether `pos` is the first place where `pattern` stands in `data`.
pub open spec fn first_at(data: Seq<u8>, pattern: Seq<u8>, pos: int) -> bool {
    &&& occurs_at(data, pattern, pos)
    &&& forall|earlier: int| earlier < pos ==> !#[trigger] occurs_at(data, pattern, earlier)
}

/// The first place of a pattern is one where it stands, and it stands at none before.
pub proof fn the_first_place_is_the_first(data: Seq<u8>, pattern: Seq<u8>, pos: int, earlier: int)
    requires
        first_at(data, pattern, pos),
    ensures
        0 <= pos && pos + pattern.len() <= data.len(),
        data.subrange(pos, pos + pattern.len()) == pattern,
        0 <= earlier < pos ==> data.subrange(earlier, earlier + pattern.len()) != pattern,
{
    assert(0 <= earlier < pos ==> !occurs_at(data, pattern, earlier));
}

/// There is one first place at most.
pub proof fn lemma_first_is_unique(data: Seq<u8>, pattern: Seq<u8>, a: int, b: int)
    requires
        first_at(data, pattern, a),
        first_at(data, pattern, b),
    ensures
        a == b,
{
    if a < b {
        assert(!occurs_at(data, pattern, a));
    }
    if b < a {
        assert(!occurs_at(data, pattern, b));
    }
}

pub proof fn lemma_shortest_le_len(n: nat)
    requires
        n <= u32::MAX,
    ensures
        shortest_le(n).len() <= 4,
{
    reveal_with_fuel(shortest_le, 6);
}

pub proof fn lemma_script_head_len(height: u32)
    ensures
        1 <= push_number(height as nat).len() <= 6,
        script_head(height).len() == push_number(height as nat).len() + 15,
{
    lemma_shortest_le_len(height as nat);
    if height > 16 {
        assert(shortest_le(height as nat).len() > 0);
    }
}

/// A run of bytes that starts with a byte of 0x80 to 0xfe, has another such byte
/// eight places on or sooner than that at its end, cannot start before the
/// extranonce: there, such bytes only occur among the at most six of the height.
pub proof fn lemma_pattern_is_first(height: u32, pattern: Seq<u8>, rest: Seq<u8>)
    requires
        8 <= pattern.len() < 76,
        0x80 <= pattern[0] < 0xff,
        0x80 <= pattern[7] < 0xff,
    ensures
        first_at(
            before_extranonce(height, pattern.len()) + pattern + rest,
            pattern,
            before_extranonce(height, pattern.len()).len() as int,
        ),
{
    let head = before_extranonce(height, pattern.len());
    let data = head + pattern + rest;
    let number = push_number(height as nat);
    let script_len = script_head(height).len() + 1 + pattern.len();
    lemma_script_head_len(height);
    bytes::lemma_le_len(1, 4);
    reveal_with_fuel(bytes::le, 5);
    assert(bytes::le(1, 4) =~= seq![1u8, 0u8, 0u8, 0u8]);
    assert(bytes::compact_size(script_len) =~= seq![script_len as u8]);
    assert(head.len() == 42 + number.len() + 16);
    assert(data.subrange(head.len() as int, (head.len() + pattern.len()) as int) =~= pattern);
    let low = |i: int| (0 <= i < 42 || 42 + number.len() <= i < head.len());
    assert forall|i: int| #[trigger] low(i) implies data[i] < 0x80 || data[i] == 0xff by {
        assert(data[i] == head[i]);
        if i < 4 {
        } else if i < 42 {
            assert(head[i] == input_head(script_len)[i - 4]);
        } else if i < 42 + number.len() + 15 {
            assert(head[i] == push(pool_tag())[i - 42 - number.len()]);
        } else {
            assert(head[i] == pattern.len() as u8);
        }
    }
    assert forall|earlier: int| earlier < head.len() implies !#[trigger] occurs_at(
        data,
        pattern,
        earlier,
    ) by {
        if occurs_at(data, pattern, earlier) {
            let window = data.subrange(earlier, earlier + pattern.len());
            assert(window[0] == data[earlier]);
            assert(window[7] == data[earlier + 7]);
            assert(!low(earlier));
            assert(low(earlier + 7));
        }
    }
}

// ── The outside crate's builders ──────────────────────────────────────────────

/// `bitcoin`'s script `Builder`: pushes a number and two byte strings. Numbers up
/// to 16 have an opcode of their own, others are pushed as script numbers; byte
/// strings below 76 bytes are pushed behind one length byte.
#[verifier::external_body]
pub(crate) fn script_of_pushes(number: u32, first: &[u8], second: &[u8]) -> (script: Vec<u8>)
    requires
        first@.len() < 76,
        second@.len() < 76,
    ensures
        script@ == push_number(number as nat) + push(first@) + push(second@),
{
    let first = bitcoin::script::PushBytesBuf::try_from(first.to_vec()).expect("short push");
    let second = bitcoin::script::PushBytesBuf::try_from(second.to_vec()).expect("short push");
    bitcoin::script::Builder::new()
        .push_int(number as i64)
        .push_slice(first)
        .push_slice(second)
        .into_script()
        .into_bytes()
}

/// `bitcoin::consensus::serialize` of a transaction with one null input without a
/// witness: the legacy wire format.
#[verifier::external_body]
pub(crate) fn serialize_coinbase(tx: &CoinbaseTx) -> (out: Vec<u8>)
    requires
        legacy_bytes(tx@).len() <= usize::MAX,
    ensures
        out@ == legacy_bytes(tx@),
{
    let script_sig = bitcoin::ScriptBuf::from_bytes(tx.script_sig.clone());
    let sequence = bitcoin::Sequence::from_consensus(tx.sequence);
    let previous_output = bitcoin::OutPoint::null();
    let witness = bitcoin::Witness::default();
    let version = bitcoin::transaction::Version(tx.version);
    let lock_time = bitcoin::absolute::LockTime::from_consensus(tx.lock_time);
    let input = vec![bitcoin::TxIn { previous_output, script_sig, sequence, witness }];
    let output = tx.outputs.iter().map(|o| bitcoin::TxOut {
        value: bitcoin::Amount::from_sat(o.value),
        script_pubkey: bitcoin::ScriptBuf::from_bytes(o.script_pubkey.clone()),
    }).collect();
    bitcoin::consensus::serialize(&bitcoin::Transaction { version, lock_time, input, output })
}

/// `bitcoin::consensus::serialize` of one output.
#[verifier::external_body]
pub(crate) fn serialize_output(output: &TxOutput) -> (out: Vec<u8>)
    requires
        output_bytes(output@).len() <= usize::MAX,
    ensures
        out@ == output_bytes(output@),
{
    bitcoin::consensus::serialize(&bitcoin::TxOut {
        value: bitcoin::Amount::from_sat(output.value),
        script_pubkey: bitcoin::ScriptBuf::from_bytes(output.script_pubkey.clone()),
    })
}

} // verus!
