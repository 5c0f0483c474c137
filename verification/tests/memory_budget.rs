use dither_panels::memory_budget::{
    compute_ram_budget, parse_u64, ram_budget_source, resolve_ram_budget,
    resolve_ram_budget_from_env, RamBudgetSource, MAX_RAM_BUDGET_BYTES, MIN_RAM_BUDGET_BYTES,
};

const GIB: u64 = 1024 * 1024 * 1024;

#[test]
fn two_gib_clamps_to_min() {
    // 25% of 2 GiB == 512 MiB == MIN
    assert_eq!(compute_ram_budget(2 * GIB), MIN_RAM_BUDGET_BYTES);
    assert_eq!(ram_budget_source(2 * GIB, MIN_RAM_BUDGET_BYTES), RamBudgetSource::MinFallback);
}

#[test]
fn eight_gib_is_quarter() {
    assert_eq!(compute_ram_budget(8 * GIB), 2 * GIB as usize);
    assert_eq!(ram_budget_source(8 * GIB, 2 * GIB as usize), RamBudgetSource::Adaptive);
}

#[test]
fn thirty_two_gib_clamps_to_max() {
    // 25% of 32 GiB == 8 GiB → MAX 4 GiB
    assert_eq!(compute_ram_budget(32 * GIB), MAX_RAM_BUDGET_BYTES);
}

#[test]
fn sixty_four_gib_clamps_to_max() {
    assert_eq!(compute_ram_budget(64 * GIB), MAX_RAM_BUDGET_BYTES);
}

#[test]
fn tiny_machine_gets_floor() {
    assert_eq!(compute_ram_budget(0), MIN_RAM_BUDGET_BYTES);
    assert_eq!(ram_budget_source(0, MIN_RAM_BUDGET_BYTES), RamBudgetSource::MinFallback);
    assert_eq!(MAX_RAM_BUDGET_BYTES, 4 * GIB as usize);
}

#[test]
fn parse_u64_matches_std() {
    for s in ["0", "42", "+7", "18446744073709551615", "18446744073709551616", "", "+", "-1", " 1", "1x", "007"] {
        assert_eq!(parse_u64(s), s.parse::<u64>().ok(), "input {s:?}");
    }
}

#[test]
fn env_override_wins_when_positive() {
    let b = resolve_ram_budget_from_env(8 * GIB, Some("1024")).unwrap();
    assert_eq!(b.bytes, 1024 * 1024 * 1024);
    assert_eq!(b.source, RamBudgetSource::EnvOverride);
    assert_eq!(b.total_system_ram, 8 * GIB);
}

#[test]
fn env_override_ignored_when_zero_or_garbage() {
    assert!(resolve_ram_budget_from_env(8 * GIB, Some("0")).is_none());
    assert!(resolve_ram_budget_from_env(8 * GIB, Some("lots")).is_none());
    assert!(resolve_ram_budget_from_env(8 * GIB, None).is_none());
}

#[test]
fn env_override_saturates() {
    let b = resolve_ram_budget_from_env(GIB, Some("18446744073709551615")).unwrap();
    assert_eq!(b.bytes, usize::MAX);
}

#[test]
fn resolved_budget_respects_override_and_clamp() {
    let over = resolve_ram_budget(Some("256"));
    assert_eq!(over.bytes, 256 * 1024 * 1024);
    assert_eq!(over.source, RamBudgetSource::EnvOverride);

    let auto = resolve_ram_budget(None);
    assert_eq!(auto.bytes, compute_ram_budget(auto.total_system_ram));
    assert!(auto.bytes >= MIN_RAM_BUDGET_BYTES && auto.bytes <= MAX_RAM_BUDGET_BYTES);
    assert_eq!(auto.source, ram_budget_source(auto.total_system_ram, auto.bytes));
}
