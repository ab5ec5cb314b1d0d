use hexfetch::day_table::DayTable;
use hexfetch::repair::{fill_gaps, fill_history_gaps};
use hexfetch::history::{
    device_needs_backfill, has_missing_days, missing_days, record_day, select_from_day,
    server_needs_backfill, sort_by_day, HexJsonEntry,
};
use hexfetch::miners::{add_manual_miner, delete_miner, end_miner, normalize_miners, Miner};
use hexfetch::wallet::{is_watched_address, preserved_miners, split_wallet_addresses};

fn entry(day: u64, rate: f64) -> HexJsonEntry<f64> {
    HexJsonEntry {
        current_day: day,
        tshare_rate_hex: rate,
        daily_payout_hex: 0.0,
        payout_per_tshare_hex: 0.0,
        price_pulse_x: 0.0,
    }
}

fn days(v: &[HexJsonEntry<f64>]) -> Vec<u64> {
    v.iter().map(|e| e.current_day).collect()
}

fn miner(id: Option<u64>, address: &str, start: &str, status: Option<&str>) -> Miner<f64> {
    Miner {
        id,
        address: address.to_string(),
        start_date: start.to_string(),
        end_date: "01-01-2030".to_string(),
        t_shares: 1.5,
        status: status.map(|s| s.to_string()),
    }
}

#[test]
fn sort_by_day_is_stable() {
    let sorted = sort_by_day(vec![entry(3, 1.0), entry(1, 2.0), entry(3, 3.0), entry(2, 4.0)]);
    assert_eq!(days(&sorted), vec![1, 2, 3, 3]);
    assert_eq!(sorted[2].tshare_rate_hex, 1.0);
    assert_eq!(sorted[3].tshare_rate_hex, 3.0);
}

#[test]
fn record_day_refuses_known_days() {
    let mut v = vec![entry(1, 1.0), entry(3, 1.0)];
    assert!(record_day(&mut v, entry(2, 2.0)));
    assert_eq!(days(&v), vec![1, 2, 3]);
    assert!(!record_day(&mut v, entry(2, 9.0)));
    assert_eq!(days(&v), vec![1, 2, 3]);
    assert_eq!(v[1].tshare_rate_hex, 2.0);
}

#[test]
fn select_from_day_filters_then_limits() {
    let v = vec![entry(1, 0.0), entry(5, 0.0), entry(2, 0.0), entry(7, 0.0), entry(9, 0.0)];
    assert_eq!(days(&select_from_day(&v, 2, usize::MAX)), vec![5, 2, 7, 9]);
    assert_eq!(days(&select_from_day(&v, 5, 2)), vec![5, 7]);
    assert_eq!(days(&select_from_day(&v, 10, 3)), Vec::<u64>::new());
    assert_eq!(days(&select_from_day(&v, 0, 0)), Vec::<u64>::new());
}

#[test]
fn missing_days_in_range() {
    let v = vec![entry(2, 0.0), entry(4, 0.0)];
    assert_eq!(missing_days(&v, 1, 6), vec![1, 3, 5]);
    assert_eq!(missing_days(&v, 5, 5), Vec::<u64>::new());
    assert_eq!(missing_days(&v, 6, 1), Vec::<u64>::new());
    assert!(has_missing_days(&v, 1, 3));
    assert!(!has_missing_days(&v, 2, 3));
}

#[test]
fn backfill_decisions_at_start() {
    let empty: Vec<HexJsonEntry<f64>> = Vec::new();
    let some = vec![entry(1, 0.0), entry(2, 0.0)];
    assert!(server_needs_backfill(&empty, None));
    assert!(!server_needs_backfill(&some, None));
    assert!(!server_needs_backfill(&some, Some(3)));
    assert!(server_needs_backfill(&some, Some(4)));
    assert!(device_needs_backfill(&empty, None));
    assert!(device_needs_backfill(&some, None));
    assert!(!device_needs_backfill(&some, Some(3)));
    assert!(device_needs_backfill(&some, Some(5)));
}

#[test]
fn day_table_keeps_last_entry_per_day_in_order() {
    let t = DayTable::from_entries(vec![entry(5, 1.0), entry(2, 2.0), entry(5, 3.0)]);
    assert_eq!(t.len(), 2);
    assert!(t.contains_day(5));
    assert!(!t.contains_day(3));
    let v = t.to_vec();
    assert_eq!(days(&v), vec![2, 5]);
    assert_eq!(v[1].tshare_rate_hex, 3.0);
    let mut t = t;
    t.insert(entry(3, 4.0));
    t.insert(entry(2, 5.0));
    let v = t.into_vec();
    assert_eq!(days(&v), vec![2, 3, 5]);
    assert_eq!(v[0].tshare_rate_hex, 5.0);
    let empty: DayTable<f64> = DayTable::new();
    assert_eq!(empty.len(), 0);
}

#[test]
fn normalize_assigns_fresh_ids() {
    let ms = vec![
        miner(None, "", "01-01-2024", None),
        miner(Some(7), "", "02-01-2024", None),
        miner(None, "", "03-01-2024", None),
        miner(Some(3), "", "04-01-2024", None),
    ];
    let (out, next) = normalize_miners(ms);
    let ids: Vec<Option<u64>> = out.iter().map(|m| m.id).collect();
    assert_eq!(ids, vec![Some(8), Some(7), Some(9), Some(3)]);
    assert_eq!(next, 10);
    assert_eq!(out[2].start_date, "03-01-2024");
    let (none, next) = normalize_miners(Vec::<Miner<f64>>::new());
    assert!(none.is_empty());
    assert_eq!(next, 1);
}

#[test]
fn delete_and_end_miners() {
    let mut ms = vec![
        miner(Some(1), "", "01-01-2024", None),
        miner(Some(2), "", "02-01-2024", None),
        miner(Some(1), "", "03-01-2024", None),
    ];
    assert!(end_miner(&mut ms, 1));
    assert_eq!(ms[0].status.as_deref(), Some("completed"));
    assert_eq!(ms[2].status, None);
    assert!(!end_miner(&mut ms, 9));
    assert!(delete_miner(&mut ms, 1));
    assert_eq!(ms.len(), 1);
    assert_eq!(ms[0].id, Some(2));
    assert!(!delete_miner(&mut ms, 1));
    assert_eq!(ms.len(), 1);
}

#[test]
fn add_manual_miner_checks_dates() {
    let mut ms: Vec<Miner<f64>> = Vec::new();
    assert!(add_manual_miner(&mut ms, 4, "01-02-2024".to_string(), "01-02-2025".to_string(), 2.0));
    assert_eq!(ms.len(), 1);
    assert_eq!(ms[0].id, Some(4));
    assert_eq!(ms[0].address, "");
    assert_eq!(ms[0].status, None);
    assert!(add_manual_miner(&mut ms, 5, "01-02-2024".to_string(), "01-02-2024".to_string(), 2.0));
    assert!(!add_manual_miner(&mut ms, 6, "01-02-2025".to_string(), "01-02-2024".to_string(), 2.0));
    assert!(!add_manual_miner(&mut ms, 7, "2024-02-01".to_string(), "01-02-2025".to_string(), 2.0));
    assert!(!add_manual_miner(&mut ms, 8, "01-02-1999".to_string(), "01-02-2025".to_string(), 2.0));
    assert!(!add_manual_miner(&mut ms, 9, "31-02-2024".to_string(), "01-03-2025".to_string(), 2.0));
    assert_eq!(ms.len(), 2);
}

#[test]
fn wallet_addresses_are_split_and_trimmed() {
    assert_eq!(
        split_wallet_addresses(" 0xabc , ,0xdef,  "),
        vec!["0xabc".to_string(), "0xdef".to_string()]
    );
    assert!(split_wallet_addresses("").is_empty());
    assert!(split_wallet_addresses(" , ").is_empty());
    let watched = vec!["0xabc".to_string()];
    assert!(is_watched_address(&"0xabc".to_string(), &watched));
    assert!(!is_watched_address(&"0xABC".to_string(), &watched));
}

#[test]
fn preserved_miners_keep_manual_watched_and_completed() {
    let saved = vec![
        miner(Some(1), "", "01-01-2024", None),
        miner(Some(2), "0xabc", "02-01-2024", None),
        miner(Some(3), "0xold", "03-01-2024", None),
        miner(Some(4), "0xold", "04-01-2024", Some("completed")),
        miner(Some(5), "0xabc", "05-01-2024", None),
    ];
    let matched = vec![false, false, false, false, true];
    let watched = vec!["0xabc".to_string()];
    let kept = preserved_miners(&saved, &matched, &watched);
    let ids: Vec<Option<u64>> = kept.iter().map(|m| m.id).collect();
    assert_eq!(ids, vec![Some(1), Some(2), Some(4)]);
}

#[test]
fn gaps_take_nearest_usable_values() {
    let mut v = vec![0.0, 5.0, 0.0, 0.0, 7.0, 0.0];
    let usable = vec![false, true, false, false, true, false];
    fill_gaps(&mut v, &usable, -1.0);
    assert_eq!(v, vec![5.0, 5.0, 5.0, 5.0, 7.0, 7.0]);
    let mut none = vec![1.0, 2.0];
    fill_gaps(&mut none, &vec![false, false], 0.0);
    assert_eq!(none, vec![0.0, 0.0]);
    let mut h = vec![entry(1, 0.0), entry(2, 3.0), entry(3, f64::NAN)];
    h[0].price_pulse_x = 9.0;
    h[1].daily_payout_hex = 4.0;
    let tu = vec![false, true, false];
    let pu = vec![true, false, false];
    fill_history_gaps(&mut h, &tu, &pu, 0.0);
    let rates: Vec<f64> = h.iter().map(|e| e.tshare_rate_hex).collect();
    let prices: Vec<f64> = h.iter().map(|e| e.price_pulse_x).collect();
    assert_eq!(rates, vec![3.0, 3.0, 3.0]);
    assert_eq!(prices, vec![9.0, 9.0, 9.0]);
    assert_eq!(days(&h), vec![1, 2, 3]);
    assert_eq!(h[1].daily_payout_hex, 4.0);
}

#[test]
fn wallet_watch_state_cases() {
    assert_eq!(hexfetch::wallet::wallet_watch_state("0xabc", ""), (true, true));
    assert_eq!(hexfetch::wallet::wallet_watch_state("0xabc", "0xabc"), (false, true));
    assert_eq!(hexfetch::wallet::wallet_watch_state("  ", ""), (true, false));
    assert_eq!(hexfetch::wallet::wallet_watch_state("", ""), (false, false));
}

#[test]
fn filling_gaps_twice_changes_nothing() {
    let mut v = vec![0.0, 5.0, f64::NAN, 0.0, 7.0, -1.0];
    let usable: Vec<bool> = v.iter().map(|x: &f64| x.is_finite() && *x > 0.0).collect();
    fill_gaps(&mut v, &usable, 0.0);
    let once = v.clone();
    let again: Vec<bool> = v.iter().map(|x: &f64| x.is_finite() && *x > 0.0).collect();
    fill_gaps(&mut v, &again, 0.0);
    assert_eq!(v, once);
    assert_eq!(v, vec![5.0, 5.0, 5.0, 5.0, 7.0, 7.0]);
}
