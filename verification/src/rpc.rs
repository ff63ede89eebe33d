//! What the node's JSON-RPC interface answers, and what the pool makes of it.
use vstd::prelude::*;

verus! {

/// A transaction of a block template.
#[derive(Debug, Clone)]
pub struct TemplateTransaction {
    /// Raw serialized transaction in hex.
    pub data: String,
    pub txid: String,
    /// Witness txid (equals txid when there is no witness data).
    pub hash: String,
    pub fee: i64,
    pub weight: u32,
}

/// A block template as `getblocktemplate` returns it, under a number of the client's.
#[derive(Debug, Clone)]
pub struct BlockTemplate {
    /// The client's number of the template, by which a solution names it.
    pub template_id: u64,
    pub version: u32,
    pub previousblockhash: String,
    pub transactions: Vec<TemplateTransaction>,
    /// Total value available for the coinbase output (subsidy + fees), in satoshis.
    pub coinbasevalue: i64,
    /// Compact target bits (e.g. "207fffff" on regtest).
    pub bits: String,
    pub height: u32,
    pub curtime: u32,
    /// Full 256-bit target in hex.
    pub target: String,
    pub default_witness_commitment: Option<String>,
    /// Used for long-polling: resend getblocktemplate when this changes.
    pub longpollid: String,
}

/// The number of bytes of a text in UTF-8.
pub open spec fn byte_len(text: Seq<char>) -> nat {
    vstd::utf8::encode_utf8(text).len()
}

impl TemplateTransaction {
    /// What every transaction of a node's template meets.
    pub open spec fn invariants(&self) -> bool {
        &&& byte_len(self.txid@) == 64
        &&& byte_len(self.hash@) == 64
        &&& self.data@.len() > 0
        &&& self.fee >= 0
        &&& self.weight > 0
    }

    /// Whether the transaction meets its invariants.
    pub fn assert_invariants(&self) -> (ok: bool)
        ensures
            ok == self.invariants(),
    {
        text_len(&self.txid) == 64 && text_len(&self.hash) == 64 && !self.data.as_str().is_empty()
            && self.fee >= 0 && self.weight > 0
    }
}

impl BlockTemplate {
    /// What every template of a node meets.
    pub open spec fn invariants(&self) -> bool {
        &&& byte_len(self.previousblockhash@) == 64
        &&& byte_len(self.target@) == 64
        &&& self.bits@.len() > 0
        &&& self.longpollid@.len() > 0
        &&& self.coinbasevalue > 0
        &&& self.curtime > 0
        &&& self.version > 0
        &&& forall|i: int|
            0 <= i < self.transactions@.len() ==> (#[trigger] self.transactions@[i]).invariants()
    }

    /// Whether the template and all its transactions meet their invariants.
    pub fn assert_invariants(&self) -> (ok: bool)
        ensures
            ok == self.invariants(),
    {
        if !(text_len(&self.previousblockhash) == 64 && text_len(&self.target) == 64
            && !self.bits.as_str().is_empty() && !self.longpollid.as_str().is_empty()
            && self.coinbasevalue > 0 && self.curtime > 0 && self.version > 0) {
            return false;
        }
        let mut i: usize = 0;
        while i < self.transactions.len()
            invariant
                i <= self.transactions@.len(),
                forall|j: int| 0 <= j < i ==> (#[trigger] self.transactions@[j]).invariants(),
            decreases self.transactions@.len() - i,
        {
            if !self.transactions[i].assert_invariants() {
                assert(!self.transactions@[i as int].invariants());
                return false;
            }
            i = i + 1;
        }
        true
    }
}

/// What a template of the node has to meet, and nothing else: hashes and a target of 64
/// characters in bytes, bits and a long-poll id that are not empty, a value, a time and a
/// version above zero; and of each transaction an id and a hash of 64, data, no negative
/// fee, and a weight above zero.
pub proof fn invariants_are(template: BlockTemplate)
    ensures
        template.invariants() <==> {
            &&& vstd::utf8::encode_utf8(template.previousblockhash@).len() == 64
            &&& vstd::utf8::encode_utf8(template.target@).len() == 64
            &&& template.bits@.len() > 0 && template.longpollid@.len() > 0
            &&& template.coinbasevalue > 0 && template.curtime > 0 && template.version > 0
            &&& forall|i: int|
                0 <= i < template.transactions@.len() ==> {
                    let t = #[trigger] template.transactions@[i];
                    &&& vstd::utf8::encode_utf8(t.txid@).len() == 64
                    &&& vstd::utf8::encode_utf8(t.hash@).len() == 64
                    &&& t.data@.len() > 0 && t.fee >= 0 && t.weight > 0
                }
        },
{
}

fn text_len(text: &String) -> (n: usize)
    ensures
        n == byte_len(text@),
{
    let data: &[u8] = text.as_str().as_bytes();
    data.len()
}

// ── Following the node's templates ────────────────────────────────────────────

/// The templates of the chain's tip, the latest last: a block on an older tip is worth
/// nothing.
#[derive(Debug)]
pub struct TemplateFeed {
    pub templates: Vec<BlockTemplate>,
}

/// The template under another number.
pub open spec fn numbered(template: BlockTemplate, template_id: u64) -> BlockTemplate {
    BlockTemplate { template_id, ..template }
}

/// The number that follows a template's.
pub open spec fn number_after(template: BlockTemplate) -> u64 {
    ((template.template_id + 1) % 0x1_0000_0000_0000_0000) as u64
}

/// Whether the node's template is another one than the latest that is kept.
pub open spec fn is_new(kept: Seq<BlockTemplate>, template: BlockTemplate) -> bool {
    kept.last().longpollid@ != template.longpollid@
}

/// The templates that are kept once a new one came: on another tip it is the only one.
pub open spec fn with_template(kept: Seq<BlockTemplate>, template: BlockTemplate) -> Seq<
    BlockTemplate,
> {
    let next = numbered(template, number_after(kept.last()));
    if kept.last().previousblockhash@ == template.previousblockhash@ {
        kept.push(next)
    } else {
        seq![next]
    }
}

/// What the kept templates meet: there is one, all are of one tip, and their numbers
/// follow one another.
pub open spec fn is_followed(kept: Seq<BlockTemplate>) -> bool {
    &&& 0 < kept.len() <= usize::MAX
    &&& forall|i: int|
        0 <= i < kept.len() ==> (#[trigger] kept[i]).previousblockhash@
            == kept.last().previousblockhash@
    &&& forall|i: int|
        0 <= i < kept.len() ==> (#[trigger] kept[i]).template_id == (kept[0].template_id + i)
            % 0x1_0000_0000_0000_0000
}

impl TemplateFeed {
    /// Starts with the node's first template.
    pub fn new(first: BlockTemplate) -> (feed: TemplateFeed)
        ensures
            feed.templates@ == seq![first],
            is_followed(feed.templates@),
    {
        let mut templates: Vec<BlockTemplate> = Vec::new();
        templates.push(first);
        assert(templates@ =~= seq![first]);
        TemplateFeed { templates }
    }

    /// The latest template.
    pub fn latest(&self) -> (out: &BlockTemplate)
        requires
            is_followed(self.templates@),
        ensures
            *out == self.templates@.last(),
    {
        &self.templates[self.templates.len() - 1]
    }

    /// Takes the node's template where it is a new one, under the next number.
    pub fn offer(&mut self, template: BlockTemplate) -> (taken: bool)
        requires
            is_followed(old(self).templates@),
        ensures
            is_followed(final(self).templates@),
            taken == is_new(old(self).templates@, template),
            final(self).templates@ == if taken {
                with_template(old(self).templates@, template)
            } else {
                old(self).templates@
            },
    {
        let ghost kept = self.templates@;
        let latest: &BlockTemplate = &self.templates[self.templates.len() - 1];
        if latest.longpollid == template.longpollid {
            return false;
        }
        let template_id: u64 = latest.template_id.wrapping_add(1);
        let same_tip: bool = latest.previousblockhash == template.previousblockhash;
        let next: BlockTemplate = BlockTemplate { template_id, ..template };
        if !same_tip {
            self.templates = Vec::new();
        }
        self.templates.push(next);
        assert(self.templates@ =~= with_template(kept, template));
        assert(self.templates.len() <= usize::MAX);
        proof {
            lemma_still_followed(kept, template);
        }
        true
    }

    /// The template with a number, where it is still kept.
    pub fn find(&self, template_id: u64) -> (out: Option<&BlockTemplate>)
        ensures
            match out {
                Some(template) => template.template_id == template_id && self.templates@.contains(
                    *template,
                ),
                None => forall|i: int|
                    0 <= i < self.templates@.len() ==> (#[trigger] self.templates@[i]).template_id
                        != template_id,
            },
    {
        let mut i: usize = 0;
        while i < self.templates.len()
            invariant
                i <= self.templates@.len(),
                forall|j: int|
                    0 <= j < i ==> (#[trigger] self.templates@[j]).template_id != template_id,
            decreases self.templates@.len() - i,
        {
            if self.templates[i].template_id == template_id {
                assert(self.templates@[i as int].template_id == template_id);
                return Some(&self.templates[i]);
            }
            i = i + 1;
        }
        None
    }
}

proof fn lemma_still_followed(kept: Seq<BlockTemplate>, template: BlockTemplate)
    requires
        is_followed(kept),
        with_template(kept, template).len() <= usize::MAX,
    ensures
        is_followed(with_template(kept, template)),
{
    let after = with_template(kept, template);
    if kept.last().previousblockhash@ == template.previousblockhash@ {
        assert forall|i: int| 0 <= i < after.len() implies (#[trigger] after[i]).template_id == (
        after[0].template_id + i) % 0x1_0000_0000_0000_0000 by {
            if i < kept.len() {
                assert(after[i] == kept[i]);
            } else {
                assert(kept.last() == kept[i - 1]);
            }
        }
        assert forall|i: int| 0 <= i < after.len() implies (#[trigger] after[i]).previousblockhash@
            == after.last().previousblockhash@ by {
            if i < kept.len() {
                assert(after[i] == kept[i]);
            }
        }
    }
}

/// A new template becomes the latest, as the node gave it but for its number, which is the
/// next one; on another tip it is the only one that is kept. It is new exactly where the
/// node calls it otherwise than the latest.
pub proof fn a_new_template_is_the_latest(kept: Seq<BlockTemplate>, template: BlockTemplate)
    requires
        is_followed(kept),
    ensures
        ({
            let after = with_template(kept, template);
            let latest = after.last();
            &&& is_new(kept, template) <==> kept.last().longpollid@ != template.longpollid@
            &&& latest == (BlockTemplate { template_id: latest.template_id, ..template })
            &&& kept.last().template_id < u64::MAX ==> latest.template_id
                == kept.last().template_id + 1
            &&& kept.last().template_id == u64::MAX ==> latest.template_id == 0
            &&& after.len() == if kept.last().previousblockhash@ == template.previousblockhash@ {
                kept.len() + 1
            } else {
                1
            }
        }),
{
}

/// A number names one of the kept templates: what `find` gives for a template's number
/// is that template.
pub proof fn numbers_are_distinct(kept: Seq<BlockTemplate>, i: int, j: int)
    requires
        is_followed(kept),
        0 <= i < kept.len(),
        0 <= j < kept.len(),
        kept[i].template_id == kept[j].template_id,
    ensures
        i == j,
{
}

/// As long as the tip stays, no template is lost: a block on any of them can still be
/// put together.
pub proof fn the_tip_keeps_its_templates(kept: Seq<BlockTemplate>, template: BlockTemplate)
    requires
        is_followed(kept),
        kept.last().previousblockhash@ == template.previousblockhash@,
    ensures
        kept.is_prefix_of(with_template(kept, template)),
{
}

// ── Replies ───────────────────────────────────────────────────────────────────

/// A field of a JSON reply, as far as the pool tells such values apart.
#[derive(Debug, Clone)]
pub enum JsonField {
    Missing,
    Null,
    Text { text: String },
    /// A whole number that is not negative.
    Number { number: u64 },
    Other,
}

/// Why a reply is no answer.
#[derive(Debug, Clone, Copy, PartialEq, Eq, Structural)]
pub enum ReplyError {
    /// The node reports an error.
    Reported,
    MissingResult,
    /// The node rejected the block.
    Rejected,
    NotText,
    MissingBlocks,
}

/// Whether a reply carries a result: it reports no error, where an error of null is
/// none, and its result is there, where a result of null is one.
pub fn check_reply(error: &JsonField, result: &JsonField) -> (out: Result<(), ReplyError>)
    ensures
        out == if !(error is Missing || error is Null) {
            Err::<(), _>(ReplyError::Reported)
        } else if result is Missing {
            Err(ReplyError::MissingResult)
        } else {
            Ok(())
        },
{
    match error {
        JsonField::Missing => {},
        JsonField::Null => {},
        _ => {
            return Err(ReplyError::Reported);
        },
    }
    match result {
        JsonField::Missing => Err(ReplyError::MissingResult),
        _ => Ok(()),
    }
}

/// What a result of `submitblock` means: null is success, anything else a
/// rejection.
pub fn submit_verdict(result: &JsonField) -> (out: Result<(), ReplyError>)
    ensures
        out == if result is Null {
            Ok::<(), ReplyError>(())
        } else {
            Err(ReplyError::Rejected)
        },
{
    match result {
        JsonField::Null => Ok(()),
        _ => Err(ReplyError::Rejected),
    }
}

/// The text of a result that has to be one: a block hash, an address, a
/// transaction id.
pub fn expect_text(result: JsonField) -> (out: Result<String, ReplyError>)
    ensures
        match result {
            JsonField::Text { text } => out == Ok::<_, ReplyError>(text),
            _ => out == Err::<String, _>(ReplyError::NotText),
        },
{
    match result {
        JsonField::Text { text } => Ok(text),
        _ => Err(ReplyError::NotText),
    }
}

/// The block count in the `blocks` field of `getblockchaininfo`: its low 32 bits.
pub fn block_count(blocks: &JsonField) -> (out: Result<u32, ReplyError>)
    ensures
        match *blocks {
            JsonField::Number { number } => out == Ok::<_, ReplyError>(number as u32),
            _ => out == Err::<u32, _>(ReplyError::MissingBlocks),
        },
{
    match blocks {
        JsonField::Number { number } => Ok(*number as u32),
        _ => Err(ReplyError::MissingBlocks),
    }
}

} // verus!
