use pool::rpc::{
    block_count, check_reply, expect_text, submit_verdict, BlockTemplate, JsonField, ReplyError,
    TemplateFeed, TemplateTransaction,
};

fn transaction() -> TemplateTransaction {
    TemplateTransaction {
        data: "00".to_string(),
        txid: "ab".repeat(32),
        hash: "cd".repeat(32),
        fee: 0,
        weight: 1,
    }
}

fn template() -> BlockTemplate {
    BlockTemplate {
        template_id: 0,
        version: 1,
        previousblockhash: "00".repeat(32),
        transactions: vec![transaction(), transaction()],
        coinbasevalue: 1,
        bits: "1".to_string(),
        height: 0,
        curtime: 1,
        target: "00".repeat(32),
        default_witness_commitment: None,
        longpollid: "x".to_string(),
    }
}

#[test]
fn transactions_meet_their_invariants() {
    assert!(transaction().assert_invariants());
    let broken: Vec<fn(&mut TemplateTransaction)> = vec![
        |t| t.txid.push('0'),
        |t| t.hash.clear(),
        |t| t.data.clear(),
        |t| t.fee = -1,
        |t| t.weight = 0,
    ];
    for break_it in broken {
        let mut t = transaction();
        break_it(&mut t);
        assert!(!t.assert_invariants());
    }
}

#[test]
fn templates_meet_their_invariants() {
    assert!(template().assert_invariants());
    let broken: Vec<fn(&mut BlockTemplate)> = vec![
        |t| t.version = 0,
        |t| t.previousblockhash.push('0'),
        |t| t.transactions[1].weight = 0,
        |t| t.coinbasevalue = 0,
        |t| t.bits.clear(),
        |t| t.curtime = 0,
        |t| t.target.clear(),
        |t| t.longpollid.clear(),
    ];
    for break_it in broken {
        let mut t = template();
        break_it(&mut t);
        assert!(!t.assert_invariants());
    }
    // Lengths are counted in bytes.
    let mut t = template();
    t.target = "é".repeat(32);
    assert!(t.assert_invariants());
}

#[test]
fn replies_are_checked() {
    let text = || JsonField::Text { text: "x".to_string() };
    assert_eq!(check_reply(&JsonField::Missing, &text()), Ok(()));
    assert_eq!(check_reply(&JsonField::Null, &JsonField::Null), Ok(()));
    assert_eq!(check_reply(&JsonField::Null, &JsonField::Missing), Err(ReplyError::MissingResult));
    assert_eq!(check_reply(&text(), &JsonField::Missing), Err(ReplyError::Reported));
    assert_eq!(check_reply(&JsonField::Other, &JsonField::Null), Err(ReplyError::Reported));
    assert_eq!(submit_verdict(&JsonField::Null), Ok(()));
    assert_eq!(submit_verdict(&text()), Err(ReplyError::Rejected));
    assert_eq!(submit_verdict(&JsonField::Missing), Err(ReplyError::Rejected));
    assert_eq!(expect_text(text()), Ok("x".to_string()));
    assert_eq!(expect_text(JsonField::Null), Err(ReplyError::NotText));
    assert_eq!(block_count(&JsonField::Number { number: 7 }), Ok(7));
    assert_eq!(block_count(&JsonField::Number { number: 0x1_0000_0002 }), Ok(2));
    assert_eq!(block_count(&text()), Err(ReplyError::MissingBlocks));
}

fn offered(longpollid: &str, tip: &str) -> BlockTemplate {
    let mut offered = template();
    offered.longpollid = longpollid.to_string();
    offered.previousblockhash = tip.repeat(32);
    offered
}

fn ids(feed: &TemplateFeed) -> Vec<u64> {
    feed.templates.iter().map(|t| t.template_id).collect()
}

#[test]
fn a_feed_takes_what_the_node_calls_new() {
    let mut feed = TemplateFeed::new(offered("a", "00"));
    assert_eq!(ids(&feed), vec![0]);
    assert!(!feed.offer(offered("a", "00")));
    assert_eq!(ids(&feed), vec![0]);
    assert!(feed.offer(offered("b", "00")));
    assert!(!feed.offer(offered("b", "00")));
    assert!(feed.offer(offered("a", "00")));
    assert_eq!(ids(&feed), vec![0, 1, 2]);
    assert_eq!(feed.latest().longpollid, "a");
    assert_eq!(feed.find(1).unwrap().longpollid, "b");
    assert!(feed.find(3).is_none());
}

#[test]
fn a_feed_drops_the_templates_of_another_tip() {
    let mut feed = TemplateFeed::new(offered("a", "00"));
    assert!(feed.offer(offered("b", "00")));
    assert!(feed.offer(offered("c", "11")));
    assert_eq!(ids(&feed), vec![2]);
    assert!(feed.find(0).is_none());
    assert!(feed.find(1).is_none());
    assert_eq!(feed.find(2).unwrap().previousblockhash, "11".repeat(32));

    let mut last = offered("a", "00");
    last.template_id = u64::MAX;
    let mut feed = TemplateFeed::new(last);
    assert!(feed.offer(offered("b", "00")));
    assert_eq!(ids(&feed), vec![u64::MAX, 0]);
}
