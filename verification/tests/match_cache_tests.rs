use ferroni::match_cache::{points, Budget, MatchCache, MatchCacheConfig, Plan};
use ferroni::oniguruma::{
    OnigMetaCharTableType, OnigSyntaxType, ONIG_OPTION_FIND_LONGEST, ONIG_OPTION_NONE,
};
use ferroni::regcomp::onig_reg_init;
use ferroni::regenc::OnigEncoding;
use ferroni::regint::{OpCode, Operation, OperationPayload, RegexType};

fn syntax() -> OnigSyntaxType {
    OnigSyntaxType {
        op: 0,
        op2: 0,
        behavior: 0,
        options: ONIG_OPTION_NONE,
        meta_char_table: OnigMetaCharTableType {
            esc: 0x5c,
            anychar: 0,
            anytime: 0,
            zero_or_one_time: 0,
            one_or_more_time: 0,
            anychar_anytime: 0,
        },
    }
}

fn pattern(ops: Vec<(OpCode, OperationPayload)>) -> RegexType {
    let mut reg = onig_reg_init(ONIG_OPTION_NONE, OnigEncoding::Utf8, &syntax()).unwrap();
    for (opcode, payload) in ops {
        reg.ops.push(Operation { opcode, payload });
    }
    reg
}

fn class() -> OperationPayload {
    OperationPayload::CClass { bsp: Box::new([0u32; 8]) }
}

#[test]
fn budget_accounts_for_all_buffers_and_releases_on_drop() {
    let config = MatchCacheConfig::new().memory_budget(4096).activation_threshold(0);
    let mut budget = Budget::new(config.memory_budget);
    let mut first = MatchCache::new(config);
    let mut second = MatchCache::new(config);
    for cache in [&mut first, &mut second] {
        cache.prepare(&mut budget, b"aaaa", 4, 4, 2);
        cache.add_work(&mut budget, 1);
        for i in 0..1000 {
            cache.enter(&mut budget, 0, 0, i);
        }
        assert!(budget.used() <= config.memory_budget);
    }
    first.release(&mut budget);
    second.release(&mut budget);
    assert_eq!(budget.used(), 0);
}

#[test]
fn config_defaults_and_setters() {
    let config = MatchCacheConfig::new();
    assert_eq!(config.memory_budget, 16 * 1024 * 1024);
    assert_eq!(config.activation_threshold, None);
    let tuned = config.memory_budget(10).activation_threshold(7);
    assert_eq!(tuned.memory_budget, 10);
    assert_eq!(tuned.activation_threshold, Some(7));
    assert_eq!(MatchCacheConfig::default(), MatchCacheConfig::new());
}

#[test]
fn failures_are_recorded_when_backtracking_passes_their_depth() {
    let config = MatchCacheConfig::new().activation_threshold(0);
    let mut budget = Budget::new(config.memory_budget);
    let mut cache = MatchCache::new(config);
    cache.prepare(&mut budget, b"abc", 3, 3, 2);
    assert!(!cache.active());
    cache.add_work(&mut budget, 1);
    assert!(cache.active());
    // Point 1 at position 2 enters at depth 5; nothing is known to fail yet.
    assert!(!cache.enter(&mut budget, 1, 2, 5));
    // Backtracking to depth 5 keeps the record pending.
    cache.unwind(5);
    assert!(!cache.enter(&mut budget, 1, 2, 9));
    // Backtracking below depth 5 records both entries as failed.
    cache.unwind(4);
    assert!(cache.enter(&mut budget, 1, 2, 1));
    assert!(!cache.enter(&mut budget, 0, 2, 1));
    // A new subject forgets everything and frees the bits.
    cache.reset_subject(&mut budget);
    assert!(!cache.active());
    assert_eq!(budget.used(), 0);
}

#[test]
fn invalid_utf8_or_zero_budget_disables_the_cache() {
    let config = MatchCacheConfig::new().activation_threshold(0);
    let mut budget = Budget::new(config.memory_budget);
    let mut cache = MatchCache::new(config);
    cache.prepare(&mut budget, &[0xff, 0x61], 2, 2, 1);
    cache.add_work(&mut budget, 10);
    assert!(!cache.active());

    let none = MatchCacheConfig::new().memory_budget(0).activation_threshold(0);
    let mut budget = Budget::new(0);
    let mut cache = MatchCache::new(none);
    cache.prepare(&mut budget, b"ab", 2, 2, 1);
    cache.add_work(&mut budget, 10);
    assert!(!cache.active());
    assert_eq!(budget.used(), 0);
}

#[test]
fn adaptive_threshold_waits_for_enough_work() {
    let config = MatchCacheConfig::new();
    let mut budget = Budget::new(config.memory_budget);
    let mut cache = MatchCache::new(config);
    cache.prepare(&mut budget, b"ab", 2, 2, 1);
    cache.add_work(&mut budget, 4095);
    assert!(!cache.active());
    cache.add_work(&mut budget, 1);
    assert!(cache.active());
}

#[test]
fn points_number_branches_and_the_entry() {
    let reg = pattern(vec![
        (OpCode::Str1, OperationPayload::Exact { s: [b'a'; 16] }),
        (OpCode::Push, OperationPayload::Push { addr: 3 }),
        (OpCode::AnyChar, OperationPayload::Empty),
        (OpCode::Jump, OperationPayload::Jump { addr: -2 }),
        (OpCode::CClassStar, class()),
        (OpCode::End, OperationPayload::Empty),
    ]);
    let (pts, count, stars) = points(&reg).unwrap();
    assert_eq!(pts, vec![Some(0), Some(1), None, None, Some(2), None]);
    assert_eq!(count, 3);
    assert_eq!(stars, vec![false; 6]);
    let plan = Plan::new(&reg, MatchCacheConfig::new()).unwrap();
    assert_eq!(plan.count, 3);
}

#[test]
fn atomic_star_regions_are_admitted() {
    let reg = pattern(vec![
        (OpCode::Mark, OperationPayload::Mark { id: 0, save_pos: false }),
        (OpCode::Str1, OperationPayload::Exact { s: [b'x'; 16] }),
        (OpCode::CClassStar, class()),
        (OpCode::CutToMark, OperationPayload::CutToMark { id: 0, restore_pos: false }),
        (OpCode::End, OperationPayload::Empty),
    ]);
    let (pts, count, stars) = points(&reg).unwrap();
    assert_eq!(pts, vec![Some(0), None, Some(1), None, None]);
    assert_eq!(count, 2);
    assert_eq!(stars, vec![false, false, true, false, false]);
}

#[test]
fn stateful_or_unsupported_patterns_are_refused() {
    // A back reference reads capture state.
    let backref = pattern(vec![
        (OpCode::BackRef1, OperationPayload::Empty),
        (OpCode::End, OperationPayload::Empty),
    ]);
    assert!(points(&backref).is_none());
    // A cut that restores the position is a look-ahead, not an atomic run.
    let lookahead = pattern(vec![
        (OpCode::Mark, OperationPayload::Mark { id: 0, save_pos: true }),
        (OpCode::CClassStar, class()),
        (OpCode::CutToMark, OperationPayload::CutToMark { id: 0, restore_pos: true }),
        (OpCode::End, OperationPayload::Empty),
    ]);
    assert!(points(&lookahead).is_none());
    // Longest-match search is not memoized.
    let mut longest = pattern(vec![(OpCode::End, OperationPayload::Empty)]);
    longest.options = ONIG_OPTION_FIND_LONGEST;
    assert!(points(&longest).is_none());
    // Another encoding is not memoized either.
    let mut ascii = pattern(vec![(OpCode::End, OperationPayload::Empty)]);
    ascii.enc = OnigEncoding::Ascii;
    assert!(points(&ascii).is_none());
}

#[test]
fn acyclic_patterns_get_no_plan() {
    let reg = pattern(vec![
        (OpCode::Str1, OperationPayload::Exact { s: [b'a'; 16] }),
        (OpCode::Push, OperationPayload::Push { addr: 2 }),
        (OpCode::AnyChar, OperationPayload::Empty),
        (OpCode::End, OperationPayload::Empty),
    ]);
    assert!(points(&reg).is_some());
    assert!(Plan::new(&reg, MatchCacheConfig::new()).is_none());
}

#[test]
fn a_cache_for_a_pattern_has_its_own_budget() {
    let mut reg = pattern(vec![
        (OpCode::CClassStar, class()),
        (OpCode::End, OperationPayload::Empty),
    ]);
    assert!(MatchCache::for_regex(&reg).is_none());
    reg.match_cache = Plan::new(&reg, MatchCacheConfig::new().memory_budget(128));
    let (_cache, budget) = MatchCache::for_regex(&reg).unwrap();
    assert_eq!(budget.used(), 0);
}

#[test]
fn activation_refused_by_the_budget_turns_memoization_off() {
    // 3 positions x 1000 points need 47 words (376 bytes); the budget holds 64.
    let config = MatchCacheConfig::new().memory_budget(64).activation_threshold(0);
    let mut budget = Budget::new(config.memory_budget);
    let mut cache = MatchCache::new(config);
    cache.prepare(&mut budget, b"ab", 2, 2, 1000);
    cache.add_work(&mut budget, 1);
    assert!(!cache.active());
    assert_eq!(budget.used(), 0);
    assert!(!cache.enter(&mut budget, 0, 0, 0));
}

#[test]
fn no_cache_points_leave_memoization_inactive_but_on() {
    let config = MatchCacheConfig::new().activation_threshold(0);
    let mut budget = Budget::new(config.memory_budget);
    let mut cache = MatchCache::new(config);
    cache.prepare(&mut budget, b"ab", 2, 2, 0);
    cache.add_work(&mut budget, 1);
    assert!(!cache.active());
    assert_eq!(budget.used(), 0);
}

#[test]
fn a_refused_activation_step_turns_memoization_off() {
    let config = MatchCacheConfig::new().activation_threshold(0);
    let mut budget = Budget::new(config.memory_budget);
    let mut cache = MatchCache::new(config);
    cache.prepare(&mut budget, b"abc", 3, 3, 2);
    // 4 positions x 2 points fit in one word.
    cache.finish_activation(&mut budget, 1, false);
    assert!(!cache.active());
    cache.add_work(&mut budget, 1);
    assert!(!cache.active());
}

#[test]
fn budget_reserves_and_releases_bytes() {
    let mut budget = Budget::new(100);
    assert!(budget.reserve(60));
    assert!(!budget.reserve(50));
    assert_eq!(budget.used(), 60);
    budget.release(60);
    assert_eq!(budget.used(), 0);
}
