use prediction_market::Contract;
use prediction_market::Event;
use prediction_market::MarketError;

fn acct(name: &str) -> String {
    name.to_string()
}

#[test]
fn create_market_assigns_sequential_ids() {
    let mut c = Contract::new();
    let m0 = c.create_market("Will it rain?".to_string(), acct("alice"));
    let m1 = c.create_market("Will it snow?".to_string(), acct("bob"));
    assert_eq!(m0.id, 0);
    assert_eq!(m1.id, 1);
    assert!(m0.is_open);
    assert!(m1.is_open);
    assert_eq!(m0.description, "Will it rain?");
    assert_eq!(m0.owner, "alice");
    assert_eq!(m0.shares, 0);
    let g = c.get_market(1).unwrap();
    assert_eq!(g.id, 1);
    assert_eq!(g.owner, "bob");
    assert!(c.get_market(2).is_none());
    assert_eq!(c.list_markets().len(), 2);
}

#[test]
fn create_offer_zero_amount_fails() {
    let mut c = Contract::new();
    c.create_market("m".to_string(), acct("alice"));
    let r = c.create_offer(0, true, acct("bob"), 0);
    assert_eq!(r, Err(MarketError::InvalidAmount));
    // Nothing was stored.
    assert!(c.get_offers(0).is_empty());
    assert_eq!(c.offers.len(), 0);
}

#[test]
fn create_offer_stores_and_returns_the_offer() {
    let mut c = Contract::new();
    c.create_market("m".to_string(), acct("alice"));
    let o = c.create_offer(0, true, acct("bob"), 100).unwrap();
    assert_eq!(o.id, 0);
    assert_eq!(o.market_id, 0);
    assert!(o.is_long);
    assert_eq!(o.account_id, "bob");
    assert_eq!(o.amount, 100);
    let o2 = c.create_offer(0, false, acct("carol"), 40).unwrap();
    assert_eq!(o2.id, 1);
    let book = c.get_offers(0);
    assert_eq!(book.len(), 2);
    assert_eq!(book[0], o);
    assert_eq!(book[1], o2);
}

#[test]
fn get_offers_filters_by_market() {
    let mut c = Contract::new();
    c.create_market("a".to_string(), acct("alice"));
    c.create_market("b".to_string(), acct("alice"));
    c.create_offer(0, true, acct("bob"), 10).unwrap();
    c.create_offer(1, true, acct("bob"), 20).unwrap();
    c.create_offer(0, false, acct("carol"), 30).unwrap();
    let for0 = c.get_offers(0);
    assert_eq!(for0.len(), 2);
    assert_eq!(for0[0].amount, 10);
    assert_eq!(for0[1].amount, 30);
    let for1 = c.get_offers(1);
    assert_eq!(for1.len(), 1);
    assert_eq!(for1[0].amount, 20);
    assert!(c.get_offers(9).is_empty());
}

#[test]
fn accept_offer_unknown_id_fails_not_found() {
    let mut c = Contract::new();
    let r = c.accept_offer(3, acct("bob"), 10);
    assert_eq!(r, Err(MarketError::NotFound));
}

#[test]
fn accept_offer_twice_fails_not_found() {
    let mut c = Contract::new();
    c.create_market("m".to_string(), acct("alice"));
    let o = c.create_offer(0, true, acct("bob"), 100).unwrap();
    assert_eq!(c.accept_offer(o.id, acct("carol"), 100), Ok(()));
    // The offer was consumed exactly once: the second acceptance observes
    // NotFound, even with a matching amount.
    assert_eq!(c.accept_offer(o.id, acct("dave"), 100), Err(MarketError::NotFound));
}

#[test]
fn accept_offer_zero_amount_fails() {
    let mut c = Contract::new();
    c.create_market("m".to_string(), acct("alice"));
    let o = c.create_offer(0, true, acct("bob"), 100).unwrap();
    assert_eq!(c.accept_offer(o.id, acct("carol"), 0), Err(MarketError::InvalidAmount));
    assert_eq!(c.get_offers(0).len(), 1);
}

#[test]
fn accept_offer_amount_mismatch_leaves_offer_intact() {
    let mut c = Contract::new();
    c.create_market("m".to_string(), acct("alice"));
    let o = c.create_offer(0, true, acct("bob"), 100).unwrap();
    assert_eq!(c.accept_offer(o.id, acct("carol"), 99), Err(MarketError::AmountMismatch));
    assert_eq!(c.accept_offer(o.id, acct("carol"), 101), Err(MarketError::AmountMismatch));
    let book = c.get_offers(0);
    assert_eq!(book.len(), 1);
    assert_eq!(book[0], o);
    // The offer is still acceptable afterwards.
    assert_eq!(c.accept_offer(o.id, acct("carol"), 100), Ok(()));
}

#[test]
fn accept_offer_by_creator_fails_self_trade() {
    let mut c = Contract::new();
    c.create_market("m".to_string(), acct("alice"));
    let o = c.create_offer(0, true, acct("bob"), 100).unwrap();
    assert_eq!(c.accept_offer(o.id, acct("bob"), 100), Err(MarketError::SelfTrade));
    assert_eq!(c.get_offers(0).len(), 1);
}

#[test]
fn accept_offer_missing_market_fails() {
    let mut c = Contract::new();
    // The book does not validate the market at creation time.
    let o = c.create_offer(7, true, acct("bob"), 5).unwrap();
    assert_eq!(c.accept_offer(o.id, acct("carol"), 5), Err(MarketError::MarketNotFound));
    assert_eq!(c.get_offers(7).len(), 1);
}

#[test]
fn accept_offer_on_closed_market_fails_and_keeps_offer() {
    let mut c = Contract::new();
    c.create_market("m".to_string(), acct("alice"));
    let o = c.create_offer(0, true, acct("bob"), 100).unwrap();
    assert_eq!(c.close_market(0, true, acct("alice")), Ok(()));
    assert_eq!(c.accept_offer(o.id, acct("carol"), 100), Err(MarketError::MarketClosed));
    // The offer was not consumed: the escrow is still in the book.
    assert_eq!(c.get_offers(0).len(), 1);
}

#[test]
fn close_market_unknown_id_fails_not_found() {
    let mut c = Contract::new();
    assert_eq!(c.close_market(0, true, acct("alice")), Err(MarketError::NotFound));
}

#[test]
fn close_market_by_non_owner_fails_and_market_stays_open() {
    let mut c = Contract::new();
    c.create_market("m".to_string(), acct("alice"));
    assert_eq!(c.close_market(0, true, acct("mallory")), Err(MarketError::NotOwner));
    assert!(c.get_market(0).unwrap().is_open);
}

#[test]
fn close_market_twice_fails_already_closed() {
    let mut c = Contract::new();
    c.create_market("m".to_string(), acct("alice"));
    let o = c.create_offer(0, true, acct("bob"), 10).unwrap();
    c.accept_offer(o.id, acct("carol"), 10).unwrap();
    assert_eq!(c.close_market(0, true, acct("alice")), Ok(()));
    let before = c.get_market(0).unwrap();
    assert_eq!(c.close_market(0, false, acct("alice")), Err(MarketError::AlreadyClosed));
    let after = c.get_market(0).unwrap();
    // The second call changed nothing: same open flag, same positions.
    assert_eq!(before, after);
    assert_eq!(after.shares, 1);
    assert!(!after.is_open);
}

#[test]
fn scenario_rain_market_long_wins() {
    let mut c = Contract::new();
    c.create_market("Will it rain?".to_string(), acct("owner"));
    let o = c.create_offer(0, true, acct("a"), 100).unwrap();
    assert_eq!(c.accept_offer(o.id, acct("b"), 100), Ok(()));
    // One matched position exists and the offer is gone.
    assert_eq!(c.get_market(0).unwrap().shares, 1);
    assert!(c.get_offers(0).is_empty());
    // Long wins: the long side is credited double its stake.
    assert_eq!(c.close_market(0, true, acct("owner")), Ok(()));
    assert_eq!(c.credit.len(), 1);
    assert_eq!(c.credit[0].account_id, "a");
    assert_eq!(c.credit[0].amount, 200);
    // The winner withdraws the whole entry, which is then removed.
    assert_eq!(c.withdraw(acct("a")), Ok(200));
    assert!(c.credit.is_empty());
    assert_eq!(c.withdraw(acct("a")), Err(MarketError::NothingToWithdraw));
    // The loser never had anything to withdraw.
    assert_eq!(c.withdraw(acct("b")), Err(MarketError::NothingToWithdraw));
}

#[test]
fn scenario_short_side_wins() {
    let mut c = Contract::new();
    c.create_market("m".to_string(), acct("owner"));
    let o = c.create_offer(0, true, acct("a"), 60).unwrap();
    c.accept_offer(o.id, acct("b"), 60).unwrap();
    assert_eq!(c.close_market(0, false, acct("owner")), Ok(()));
    assert_eq!(c.credit.len(), 1);
    assert_eq!(c.credit[0].account_id, "b");
    assert_eq!(c.credit[0].amount, 120);
}

#[test]
fn scenario_repeat_winner_credits_accumulate() {
    let mut c = Contract::new();
    c.create_market("m".to_string(), acct("owner"));
    let o1 = c.create_offer(0, true, acct("a"), 50).unwrap();
    let o2 = c.create_offer(0, true, acct("a"), 30).unwrap();
    c.accept_offer(o1.id, acct("b"), 50).unwrap();
    c.accept_offer(o2.id, acct("carol"), 30).unwrap();
    assert_eq!(c.close_market(0, true, acct("owner")), Ok(()));
    // Two positions, same long account: 100 + 60 = 160, not netted or
    // deduplicated into anything else.
    assert_eq!(c.credit.len(), 1);
    assert_eq!(c.credit[0].account_id, "a");
    assert_eq!(c.credit[0].amount, 160);
    assert_eq!(c.withdraw(acct("a")), Ok(160));
}

#[test]
fn close_market_payout_overflow_commits_nothing() {
    let huge = u128::MAX / 2 + 1;
    let mut c = Contract::new();
    c.create_market("m".to_string(), acct("owner"));
    let o = c.create_offer(0, true, acct("a"), huge).unwrap();
    c.accept_offer(o.id, acct("b"), huge).unwrap();
    // Doubling the stake would overflow: the whole close is refused.
    assert_eq!(c.close_market(0, true, acct("owner")), Err(MarketError::ArithmeticOverflow));
    assert!(c.get_market(0).unwrap().is_open);
    assert!(c.credit.is_empty());
}

#[test]
fn withdraw_without_entry_fails() {
    let mut c = Contract::new();
    assert_eq!(c.withdraw(acct("nobody")), Err(MarketError::NothingToWithdraw));
}

#[test]
fn pure_reads_are_idempotent() {
    let mut c = Contract::new();
    c.create_market("a".to_string(), acct("alice"));
    c.create_market("b".to_string(), acct("bob"));
    c.create_offer(0, true, acct("bob"), 10).unwrap();
    c.create_offer(1, false, acct("carol"), 20).unwrap();
    let l1 = c.list_markets();
    let l2 = c.list_markets();
    assert_eq!(l1, l2);
    let g1 = c.get_offers(0);
    let g2 = c.get_offers(0);
    assert_eq!(g1, g2);
    let m1 = c.get_market(1);
    let m2 = c.get_market(1);
    assert_eq!(m1, m2);
}

#[test]
fn notifications_record_every_transition() {
    let mut c = Contract::new();
    c.create_market("m".to_string(), acct("owner"));
    let o = c.create_offer(0, true, acct("a"), 100).unwrap();
    c.accept_offer(o.id, acct("b"), 100).unwrap();
    c.close_market(0, true, acct("owner")).unwrap();
    c.withdraw(acct("a")).unwrap();
    let expected = vec![
        Event::MarketCreated { market_id: 0, owner: acct("owner") },
        Event::OfferCreated {
            offer_id: 0,
            market_id: 0,
            is_long: true,
            account_id: acct("a"),
            amount: 100,
        },
        Event::OfferAccepted { offer_id: 0, market_id: 0, account_id: acct("b") },
        Event::MarketClosed { market_id: 0 },
        Event::Credit { account_id: acct("a"), amount: 200 },
        Event::Withdraw { account_id: acct("a"), amount: 200 },
    ];
    assert_eq!(c.events, expected);
}

#[test]
fn conservation_totals_track_deposits() {
    let mut c = Contract::new();
    c.create_market("m".to_string(), acct("owner"));
    let o = c.create_offer(0, true, acct("a"), 100).unwrap();
    c.accept_offer(o.id, acct("b"), 100).unwrap();
    // 200 deposited in total; all of it is locked in the open position.
    c.close_market(0, true, acct("owner")).unwrap();
    // After closing, all of it sits in the credit ledger.
    let total: u128 = c.credit.iter().map(|e| e.amount).sum();
    assert_eq!(total, 200);
    assert_eq!(c.withdraw(acct("a")), Ok(200));
    let total_after: u128 = c.credit.iter().map(|e| e.amount).sum();
    assert_eq!(total_after, 0);
}

#[test]
fn restore_round_trips_a_live_state() {
    let mut c = Contract::new();
    c.create_market("m".to_string(), acct("owner"));
    c.create_offer(0, true, acct("a"), 100).unwrap();
    let o2 = c.create_offer(0, false, acct("b"), 40).unwrap();
    c.accept_offer(o2.id, acct("carol"), 40).unwrap();
    let restored = Contract::restore(
        c.next_offer_id,
        c.markets.clone(),
        c.offers.clone(),
        c.credit.clone(),
        Vec::new(),
    )
    .unwrap();
    assert_eq!(restored.next_offer_id, c.next_offer_id);
    assert_eq!(restored.markets, c.markets);
    assert_eq!(restored.offers, c.offers);
    assert_eq!(restored.credit, c.credit);
    // The restored state keeps working: the remaining offer is acceptable.
    let mut r = restored;
    assert_eq!(r.accept_offer(0, acct("dave"), 100), Ok(()));
    assert_eq!(r.get_market(0).unwrap().shares, 2);
}

#[test]
fn restore_rejects_invalid_tables() {
    let mut c = Contract::new();
    c.create_market("m".to_string(), acct("owner"));
    c.create_offer(0, true, acct("a"), 100).unwrap();

    // A duplicate offer id.
    let mut offers = c.offers.clone();
    let mut dup = offers[0].clone();
    dup.account_id = acct("b");
    offers.push(dup);
    assert!(
        Contract::restore(c.next_offer_id, c.markets.clone(), offers, Vec::new(), Vec::new())
            .is_none()
    );

    // An offer id at or above the counter.
    assert!(
        Contract::restore(0, c.markets.clone(), c.offers.clone(), Vec::new(), Vec::new())
            .is_none()
    );

    // A market stored under the wrong index.
    let mut markets = c.markets.clone();
    markets[0].id = 3;
    assert!(Contract::restore(c.next_offer_id, markets, Vec::new(), Vec::new(), Vec::new())
        .is_none());

    // Two ledger entries for one account.
    let credit = vec![
        prediction_market::CreditEntry { account_id: acct("a"), amount: 1 },
        prediction_market::CreditEntry { account_id: acct("a"), amount: 2 },
    ];
    assert!(Contract::restore(c.next_offer_id, Vec::new(), Vec::new(), credit, Vec::new())
        .is_none());
}
