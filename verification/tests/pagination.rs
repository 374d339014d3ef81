//! Offering counts and cursor-based pagination.

use revora::{Offering, RevoraRevenueShare};

/// Maximum reasonable offering count used to probe storage growth.
const STORAGE_STRESS_OFFERING_COUNT: u32 = 200;

/// Register `n` offerings for `issuer`, each with a distinct token.
fn register_n(reg: &mut RevoraRevenueShare, issuer: u64, n: u32) {
    for i in 0..n {
        let token: u64 = 1_000 + i as u64;
        reg.register_offering(issuer, token, 100 + i);
    }
}

#[test]
fn empty_issuer_returns_empty_page() {
    let reg = RevoraRevenueShare::new();
    let issuer: u64 = 1;

    let (page, cursor) = reg.get_offerings_page(issuer, 0, 10);
    assert_eq!(page.len(), 0);
    assert_eq!(cursor, None);
}

#[test]
fn empty_issuer_count_is_zero() {
    let reg = RevoraRevenueShare::new();
    assert_eq!(reg.get_offering_count(1), 0);
}

#[test]
fn register_persists_and_count_increments() {
    let mut reg = RevoraRevenueShare::new();
    let issuer: u64 = 1;
    register_n(&mut reg, issuer, 3);
    assert_eq!(reg.get_offering_count(issuer), 3);
}

#[test]
fn single_page_returns_all_no_cursor() {
    let mut reg = RevoraRevenueShare::new();
    let issuer: u64 = 1;
    register_n(&mut reg, issuer, 5);

    let (page, cursor) = reg.get_offerings_page(issuer, 0, 10);
    assert_eq!(page.len(), 5);
    assert_eq!(cursor, None);
}

#[test]
fn multi_page_cursor_progression() {
    let mut reg = RevoraRevenueShare::new();
    let issuer: u64 = 1;
    register_n(&mut reg, issuer, 7);

    // First page: items 0..3
    let (page1, cursor1) = reg.get_offerings_page(issuer, 0, 3);
    assert_eq!(page1.len(), 3);
    assert_eq!(cursor1, Some(3));

    // Second page: items 3..6
    let (page2, cursor2) = reg.get_offerings_page(issuer, cursor1.unwrap(), 3);
    assert_eq!(page2.len(), 3);
    assert_eq!(cursor2, Some(6));

    // Third (final) page: items 6..7
    let (page3, cursor3) = reg.get_offerings_page(issuer, cursor2.unwrap(), 3);
    assert_eq!(page3.len(), 1);
    assert_eq!(cursor3, None);
}

#[test]
fn final_page_has_no_cursor() {
    let mut reg = RevoraRevenueShare::new();
    let issuer: u64 = 1;
    register_n(&mut reg, issuer, 4);

    let (page, cursor) = reg.get_offerings_page(issuer, 2, 10);
    assert_eq!(page.len(), 2);
    assert_eq!(cursor, None);
}

#[test]
fn out_of_bounds_cursor_returns_empty() {
    let mut reg = RevoraRevenueShare::new();
    let issuer: u64 = 1;
    register_n(&mut reg, issuer, 3);

    let (page, cursor) = reg.get_offerings_page(issuer, 100, 5);
    assert_eq!(page.len(), 0);
    assert_eq!(cursor, None);
}

#[test]
fn limit_zero_uses_max_page_limit() {
    let mut reg = RevoraRevenueShare::new();
    let issuer: u64 = 1;
    register_n(&mut reg, issuer, 5);

    // limit=0 should behave like MAX_PAGE_LIMIT (20), returning all 5.
    let (page, cursor) = reg.get_offerings_page(issuer, 0, 0);
    assert_eq!(page.len(), 5);
    assert_eq!(cursor, None);
}

#[test]
fn limit_one_iterates_one_at_a_time() {
    let mut reg = RevoraRevenueShare::new();
    let issuer: u64 = 1;
    register_n(&mut reg, issuer, 3);

    let (p1, c1) = reg.get_offerings_page(issuer, 0, 1);
    assert_eq!(p1.len(), 1);
    assert_eq!(c1, Some(1));

    let (p2, c2) = reg.get_offerings_page(issuer, c1.unwrap(), 1);
    assert_eq!(p2.len(), 1);
    assert_eq!(c2, Some(2));

    let (p3, c3) = reg.get_offerings_page(issuer, c2.unwrap(), 1);
    assert_eq!(p3.len(), 1);
    assert_eq!(c3, None);
}

#[test]
fn limit_exceeding_max_is_capped() {
    let mut reg = RevoraRevenueShare::new();
    let issuer: u64 = 1;
    register_n(&mut reg, issuer, 25);

    // limit=50 should be capped to 20.
    let (page, cursor) = reg.get_offerings_page(issuer, 0, 50);
    assert_eq!(page.len(), 20);
    assert_eq!(cursor, Some(20));
}

#[test]
fn offerings_preserve_correct_data() {
    let mut reg = RevoraRevenueShare::new();
    let issuer: u64 = 1;
    let token: u64 = 2;
    reg.register_offering(issuer, token, 500);

    let (page, _) = reg.get_offerings_page(issuer, 0, 10);
    let offering = page[0];
    assert_eq!(offering.issuer, issuer);
    assert_eq!(offering.token, token);
    assert_eq!(offering.revenue_share_bps, 500);
}

#[test]
fn separate_issuers_have_independent_pages() {
    let mut reg = RevoraRevenueShare::new();
    let issuer_a: u64 = 1;
    let issuer_b: u64 = 2;

    register_n(&mut reg, issuer_a, 3);
    register_n(&mut reg, issuer_b, 5);

    assert_eq!(reg.get_offering_count(issuer_a), 3);
    assert_eq!(reg.get_offering_count(issuer_b), 5);

    let (page_a, _) = reg.get_offerings_page(issuer_a, 0, 20);
    let (page_b, _) = reg.get_offerings_page(issuer_b, 0, 20);
    assert_eq!(page_a.len(), 3);
    assert_eq!(page_b.len(), 5);
}

#[test]
fn exact_page_boundary_no_cursor() {
    let mut reg = RevoraRevenueShare::new();
    let issuer: u64 = 1;
    register_n(&mut reg, issuer, 6);

    // Exactly 2 pages of 3
    let (p1, c1) = reg.get_offerings_page(issuer, 0, 3);
    assert_eq!(p1.len(), 3);
    assert_eq!(c1, Some(3));

    let (p2, c2) = reg.get_offerings_page(issuer, c1.unwrap(), 3);
    assert_eq!(p2.len(), 3);
    assert_eq!(c2, None);
}

#[test]
fn pages_concatenate_in_registration_order() {
    let mut reg = RevoraRevenueShare::new();
    let issuer: u64 = 1;
    register_n(&mut reg, issuer, 7);

    // Follow cursors from 0 with a fixed limit and concatenate every page.
    let mut collected: Vec<Offering> = Vec::new();
    let mut cursor: u32 = 0;
    loop {
        let (page, next) = reg.get_offerings_page(issuer, cursor, 2);
        collected.extend(page);
        match next {
            Some(c) => cursor = c,
            None => break,
        }
    }

    assert_eq!(collected.len(), 7);
    for (i, offering) in collected.iter().enumerate() {
        assert_eq!(offering.issuer, issuer);
        assert_eq!(offering.token, 1_000 + i as u64);
        assert_eq!(offering.revenue_share_bps, 100 + i as u32);
    }
}

#[test]
fn storage_stress_many_offerings_no_panic() {
    let mut reg = RevoraRevenueShare::new();
    let issuer: u64 = 1;
    register_n(&mut reg, issuer, STORAGE_STRESS_OFFERING_COUNT);
    let count = reg.get_offering_count(issuer);
    assert_eq!(count, STORAGE_STRESS_OFFERING_COUNT);
    let (page, cursor) = reg.get_offerings_page(issuer, STORAGE_STRESS_OFFERING_COUNT - 5, 10);
    assert_eq!(page.len(), 5);
    assert_eq!(cursor, None);
}

#[test]
fn storage_stress_many_reports_no_panic() {
    let mut reg = RevoraRevenueShare::new();
    let issuer: u64 = 1;
    let token: u64 = 2;
    reg.register_offering(issuer, token, 1_000);

    for period_id in 1..=100_u64 {
        reg.report_revenue(issuer, token, period_id as i128 * 10_000, period_id);
    }
    assert!(reg.events.len() >= 100);
}

#[test]
fn gas_characterization_many_offerings_single_issuer() {
    let mut reg = RevoraRevenueShare::new();
    let issuer: u64 = 1;
    let n: u32 = 50;
    register_n(&mut reg, issuer, n);

    let (page, _) = reg.get_offerings_page(issuer, 0, 20);
    assert_eq!(page.len(), 20);
}
