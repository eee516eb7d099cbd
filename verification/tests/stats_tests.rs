use td_sandbox::stats::{KillCounts, RunStats};

fn make_test_stats() -> RunStats {
    RunStats::new()
}

#[test]
fn new_zeroes_all_counters() {
    let stats = make_test_stats();
    assert_eq!(stats.total_kills(), 0);
    assert_eq!(stats.scrap_collected, 0);
    assert_eq!(stats.scrap_spent, 0);
    assert_eq!(stats.towers_placed, 0);
    assert_eq!(stats.towers_sold, 0);
}

#[test]
fn record_kill_shambler() {
    let mut stats = make_test_stats();
    stats.record_kill("Shambler");
    assert_eq!(stats.kills_of("Shambler"), 1);
    assert_eq!(stats.kills_of("Runner"), 0);
    assert_eq!(stats.kills_of("Brute"), 0);
    assert_eq!(stats.kills_of("Boss"), 0);
}

#[test]
fn record_kill_runner() {
    let mut stats = make_test_stats();
    stats.record_kill("Runner");
    assert_eq!(stats.kills_of("Runner"), 1);
    assert_eq!(stats.kills_of("Shambler"), 0);
}

#[test]
fn record_kill_brute() {
    let mut stats = make_test_stats();
    stats.record_kill("Brute");
    assert_eq!(stats.kills_of("Brute"), 1);
}

#[test]
fn record_kill_boss() {
    let mut stats = make_test_stats();
    stats.record_kill("Boss");
    assert_eq!(stats.kills_of("Boss"), 1);
}

#[test]
fn record_kill_unknown_blueprint_still_counts() {
    let mut stats = make_test_stats();
    stats.record_kill("Raider");
    assert_eq!(stats.kills_of("Raider"), 1);
}

#[test]
fn record_kill_multiple_types() {
    let mut stats = make_test_stats();
    stats.record_kill("Shambler");
    stats.record_kill("Shambler");
    stats.record_kill("Boss");
    assert_eq!(stats.kills_of("Shambler"), 2);
    assert_eq!(stats.kills_of("Boss"), 1);
}

#[test]
fn total_kills_sums_all_types() {
    let mut stats = make_test_stats();
    for _ in 0..3 {
        stats.record_kill("Shambler");
    }
    for _ in 0..5 {
        stats.record_kill("Runner");
    }
    for _ in 0..2 {
        stats.record_kill("Brute");
    }
    stats.record_kill("Boss");
    assert_eq!(stats.total_kills(), 11);
}

#[test]
fn total_kills_zero_when_fresh() {
    assert_eq!(make_test_stats().total_kills(), 0);
}

#[test]
fn record_kill_leaves_other_counters() {
    let mut stats = make_test_stats();
    stats.scrap_collected = 7;
    stats.towers_placed = 2;
    stats.record_kill("Runner");
    assert_eq!(stats.scrap_collected, 7);
    assert_eq!(stats.towers_placed, 2);
    assert_eq!(stats.scrap_spent, 0);
    assert_eq!(stats.towers_sold, 0);
}

#[test]
fn kill_counts_get_and_total() {
    let mut kills = KillCounts::new();
    assert_eq!(kills.get("Shambler"), 0);
    kills.record("Shambler");
    kills.record("Runner");
    kills.record("Shambler");
    assert_eq!(kills.get("Shambler"), 2);
    assert_eq!(kills.get("Runner"), 1);
    assert_eq!(kills.get("Boss"), 0);
    assert_eq!(kills.total_count(), 3);
}

#[test]
fn kill_counts_names_are_exact() {
    let mut kills = KillCounts::new();
    kills.record("Boss");
    assert_eq!(kills.get("boss"), 0);
    assert_eq!(kills.get("Boss "), 0);
    assert_eq!(kills.get("Boss"), 1);
}

#[test]
fn checked_total_kills_counts_all() {
    let mut stats = make_test_stats();
    assert_eq!(stats.checked_total_kills(), Some(0));
    stats.record_kill("Boss");
    stats.record_kill("Runner");
    stats.record_kill("Boss");
    assert_eq!(stats.checked_total_kills(), Some(3));
    assert_eq!(stats.kills.checked_total(), Some(3));
}
