//! Notification log structure: one entry per successful operation, exact
//! payloads, invocation order preserved.

use revora::{Event, RevoraRevenueShare};

#[test]
fn register_offering_emits_exact_event() {
    let mut reg = RevoraRevenueShare::new();
    let issuer: u64 = 1;
    let token: u64 = 2;
    let bps: u32 = 1_500;

    reg.register_offering(issuer, token, bps);

    assert_eq!(
        reg.events,
        vec![Event::OfferingRegistered { issuer, token, revenue_share_bps: bps }]
    );
}

#[test]
fn report_revenue_emits_exact_event() {
    let mut reg = RevoraRevenueShare::new();
    let issuer: u64 = 1;
    let token: u64 = 2;
    let amount: i128 = 5_000_000;
    let period_id: u64 = 42;

    reg.report_revenue(issuer, token, amount, period_id);

    assert_eq!(
        reg.events,
        vec![Event::RevenueReported { issuer, token, amount, period_id, blacklist: vec![] }]
    );
}

#[test]
fn combined_flow_preserves_event_order() {
    let mut reg = RevoraRevenueShare::new();
    let issuer: u64 = 1;
    let token: u64 = 2;
    let bps: u32 = 1_000;
    let amount: i128 = 1_000_000;
    let period_id: u64 = 1;

    reg.register_offering(issuer, token, bps);
    reg.report_revenue(issuer, token, amount, period_id);

    assert_eq!(reg.events.len(), 2);
    assert_eq!(
        reg.events,
        vec![
            Event::OfferingRegistered { issuer, token, revenue_share_bps: bps },
            Event::RevenueReported { issuer, token, amount, period_id, blacklist: vec![] },
        ]
    );
}

#[test]
fn complex_mixed_flow_events_in_order() {
    let mut reg = RevoraRevenueShare::new();
    let issuer_a: u64 = 1;
    let issuer_b: u64 = 2;
    let token_x: u64 = 10;
    let token_y: u64 = 11;

    // Interleave: register A, register B, report A, report B
    reg.register_offering(issuer_a, token_x, 500);
    reg.register_offering(issuer_b, token_y, 750);
    reg.report_revenue(issuer_a, token_x, 100_000, 1);
    reg.report_revenue(issuer_b, token_y, 200_000, 1);

    assert_eq!(reg.events.len(), 4);
    assert_eq!(
        reg.events,
        vec![
            Event::OfferingRegistered { issuer: issuer_a, token: token_x, revenue_share_bps: 500 },
            Event::OfferingRegistered { issuer: issuer_b, token: token_y, revenue_share_bps: 750 },
            Event::RevenueReported {
                issuer: issuer_a,
                token: token_x,
                amount: 100_000,
                period_id: 1,
                blacklist: vec![],
            },
            Event::RevenueReported {
                issuer: issuer_b,
                token: token_y,
                amount: 200_000,
                period_id: 1,
                blacklist: vec![],
            },
        ]
    );
}

#[test]
fn multiple_offerings_emit_distinct_events() {
    let mut reg = RevoraRevenueShare::new();
    let issuer: u64 = 1;
    let token_a: u64 = 10;
    let token_b: u64 = 11;
    let token_c: u64 = 12;

    reg.register_offering(issuer, token_a, 100);
    reg.register_offering(issuer, token_b, 200);
    reg.register_offering(issuer, token_c, 300);

    assert_eq!(reg.events.len(), 3);
    assert_eq!(
        reg.events,
        vec![
            Event::OfferingRegistered { issuer, token: token_a, revenue_share_bps: 100 },
            Event::OfferingRegistered { issuer, token: token_b, revenue_share_bps: 200 },
            Event::OfferingRegistered { issuer, token: token_c, revenue_share_bps: 300 },
        ]
    );
}

#[test]
fn multiple_revenue_reports_same_offering() {
    let mut reg = RevoraRevenueShare::new();
    let issuer: u64 = 1;
    let token: u64 = 2;

    reg.report_revenue(issuer, token, 10_000, 1);
    reg.report_revenue(issuer, token, 20_000, 2);
    reg.report_revenue(issuer, token, 30_000, 3);

    assert_eq!(reg.events.len(), 3);
    assert_eq!(
        reg.events,
        vec![
            Event::RevenueReported { issuer, token, amount: 10_000, period_id: 1, blacklist: vec![] },
            Event::RevenueReported { issuer, token, amount: 20_000, period_id: 2, blacklist: vec![] },
            Event::RevenueReported { issuer, token, amount: 30_000, period_id: 3, blacklist: vec![] },
        ]
    );
}

#[test]
fn same_issuer_different_tokens() {
    let mut reg = RevoraRevenueShare::new();
    let issuer: u64 = 1;
    let token_x: u64 = 10;
    let token_y: u64 = 11;

    reg.register_offering(issuer, token_x, 1_000);
    reg.register_offering(issuer, token_y, 2_000);
    reg.report_revenue(issuer, token_x, 500_000, 1);
    reg.report_revenue(issuer, token_y, 750_000, 1);

    assert_eq!(reg.events.len(), 4);
    assert_eq!(
        reg.events,
        vec![
            // Registrations: same issuer, different token in the payload
            Event::OfferingRegistered { issuer, token: token_x, revenue_share_bps: 1_000 },
            Event::OfferingRegistered { issuer, token: token_y, revenue_share_bps: 2_000 },
            // Revenue reports: the token distinguishes them
            Event::RevenueReported {
                issuer,
                token: token_x,
                amount: 500_000,
                period_id: 1,
                blacklist: vec![],
            },
            Event::RevenueReported {
                issuer,
                token: token_y,
                amount: 750_000,
                period_id: 1,
                blacklist: vec![],
            },
        ]
    );
}

#[test]
fn topic_symbols_are_distinct() {
    let mut reg = RevoraRevenueShare::new();
    let issuer: u64 = 1;
    let token: u64 = 2;

    reg.register_offering(issuer, token, 1_000);
    reg.report_revenue(issuer, token, 1_000_000, 1);

    assert_eq!(
        reg.events,
        vec![
            Event::OfferingRegistered { issuer, token, revenue_share_bps: 1_000 },
            Event::RevenueReported {
                issuer,
                token,
                amount: 1_000_000,
                period_id: 1,
                blacklist: vec![],
            },
        ]
    );
}

#[test]
fn rev_rep_topics_include_token_address() {
    let mut reg = RevoraRevenueShare::new();
    let issuer: u64 = 1;
    let token: u64 = 2;

    reg.report_revenue(issuer, token, 999, 7);

    assert_eq!(
        reg.events,
        vec![Event::RevenueReported { issuer, token, amount: 999, period_id: 7, blacklist: vec![] }]
    );
}

#[test]
fn zero_bps_offering() {
    let mut reg = RevoraRevenueShare::new();
    let issuer: u64 = 1;
    let token: u64 = 2;

    reg.register_offering(issuer, token, 0);

    assert_eq!(
        reg.events,
        vec![Event::OfferingRegistered { issuer, token, revenue_share_bps: 0 }]
    );
}

#[test]
fn max_bps_offering() {
    let mut reg = RevoraRevenueShare::new();
    let issuer: u64 = 1;
    let token: u64 = 2;

    // 10_000 bps == 100%
    reg.register_offering(issuer, token, 10_000);

    assert_eq!(
        reg.events,
        vec![Event::OfferingRegistered { issuer, token, revenue_share_bps: 10_000 }]
    );
}

#[test]
fn zero_amount_revenue_report() {
    let mut reg = RevoraRevenueShare::new();
    let issuer: u64 = 1;
    let token: u64 = 2;

    reg.report_revenue(issuer, token, 0, 1);

    assert_eq!(
        reg.events,
        vec![Event::RevenueReported { issuer, token, amount: 0, period_id: 1, blacklist: vec![] }]
    );
}

#[test]
fn large_revenue_amount() {
    let mut reg = RevoraRevenueShare::new();
    let issuer: u64 = 1;
    let token: u64 = 2;

    let large_amount: i128 = i128::MAX;
    reg.report_revenue(issuer, token, large_amount, u64::MAX);

    assert_eq!(
        reg.events,
        vec![Event::RevenueReported {
            issuer,
            token,
            amount: large_amount,
            period_id: u64::MAX,
            blacklist: vec![],
        }]
    );
}

#[test]
fn negative_revenue_amount() {
    let mut reg = RevoraRevenueShare::new();
    let issuer: u64 = 1;
    let token: u64 = 2;

    // Negative revenue (e.g. clawback / adjustment)
    let negative: i128 = -500_000;
    reg.report_revenue(issuer, token, negative, 99);

    assert_eq!(
        reg.events,
        vec![Event::RevenueReported {
            issuer,
            token,
            amount: negative,
            period_id: 99,
            blacklist: vec![],
        }]
    );
}

#[test]
fn minimum_revenue_amount() {
    let mut reg = RevoraRevenueShare::new();
    let issuer: u64 = 1;
    let token: u64 = 2;

    reg.report_revenue(issuer, token, i128::MIN, 1);

    assert_eq!(
        reg.events,
        vec![Event::RevenueReported {
            issuer,
            token,
            amount: i128::MIN,
            period_id: 1,
            blacklist: vec![],
        }]
    );
}

#[test]
fn it_emits_events_on_register_and_report() {
    let mut reg = RevoraRevenueShare::new();
    let issuer: u64 = 1;
    let token: u64 = 2;

    reg.register_offering(issuer, token, 1_000);
    reg.report_revenue(issuer, token, 1_000_000, 1);

    assert!(reg.events.len() >= 2);
}
