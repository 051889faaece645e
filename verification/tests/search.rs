use wg_vanity::search::{
    announcement, casefolded_letters, match_line, offsets, plan_search, rank_share, search_end,
    select_kind, CpuSearch,
};
use wg_vanity::PatternKind;

#[test]
fn flags_select_the_syntax() {
    assert_eq!(select_kind(false, false), PatternKind::Literal);
    assert_eq!(select_kind(true, false), PatternKind::Glob);
    assert_eq!(select_kind(false, true), PatternKind::Regex);
    assert_eq!(select_kind(true, true), PatternKind::Glob);
}

#[test]
fn ranges_have_defaults() {
    assert_eq!(search_end(PatternKind::Literal, 4, None), 10);
    assert_eq!(search_end(PatternKind::Literal, 10, None), 10);
    assert_eq!(search_end(PatternKind::Literal, 11, None), 21);
    assert_eq!(search_end(PatternKind::Literal, 34, None), 44);
    assert_eq!(search_end(PatternKind::Literal, usize::MAX, None), 44);
    assert_eq!(search_end(PatternKind::Glob, 11, None), 10);
    assert_eq!(search_end(PatternKind::Regex, 11, Some(16)), 16);
    assert_eq!(search_end(PatternKind::Regex, 11, Some(100)), 44);
}

#[test]
fn ranges_that_do_not_serve_are_refused() {
    assert_eq!(plan_search(PatternKind::Literal, 4, Some(16)), Ok(16));
    assert_eq!(plan_search(PatternKind::Literal, 4, Some(4)), Ok(4));
    assert_eq!(plan_search(PatternKind::Glob, 40, Some(4)), Ok(4));
    assert_eq!(
        plan_search(PatternKind::Literal, 4, Some(3)),
        Err("search range 3 is invalid for this pattern".to_string())
    );
    assert_eq!(
        plan_search(PatternKind::Glob, 4, Some(0)),
        Err("search range 0 is invalid for this pattern".to_string())
    );
    assert_eq!(
        plan_search(PatternKind::Literal, 45, None),
        Err("search range 44 is invalid for this pattern".to_string())
    );
}

#[test]
fn estimates_count_offsets_and_letters() {
    assert_eq!(offsets(4, 10), 7);
    assert_eq!(offsets(10, 10), 1);
    assert_eq!(casefolded_letters("dA9+z", false), 3);
    assert_eq!(casefolded_letters("dA9+z", true), 0);
    assert_eq!(casefolded_letters("@[`{\u{e9}", false), 0);
    assert_eq!(casefolded_letters("AZaz", false), 4);
}

#[test]
fn lines_are_formatted() {
    assert_eq!(announcement("dave", 10), "searching for 'dave' in pubkey[0..10]");
    assert_eq!(
        match_line(&("a=".to_string(), "b=".to_string())),
        "private a=  public b="
    );
}

#[test]
fn shares_add_up() {
    for trials in [0, 1, 7, 8, 9, 1_000_003, u64::MAX - 1] {
        for ranks in [1, 2, 3, 8] {
            let shares: Vec<u64> = (0..ranks).map(|rank| rank_share(trials, rank, ranks)).collect();
            assert_eq!(shares.iter().map(|&share| u128::from(share)).sum::<u128>(), trials.into());
            assert!(shares[0] - shares[ranks as usize - 1] <= 1);
        }
    }
    assert_eq!(rank_share(10, 0, 3), 4);
    assert_eq!(rank_share(10, 1, 3), 3);
    assert_eq!(rank_share(u64::MAX, 1, 3), u64::MAX);
}

#[test]
fn batches_reach_the_limit() {
    let mut search = CpuSearch::new(250_000);
    assert_eq!(search.next_batch(true), Some(100_000));
    assert_eq!(search.next_batch(true), Some(100_000));
    assert_eq!(search.attempted(), 200_000);
    assert_eq!(search.next_batch(true), Some(50_000));
    assert_eq!(search.next_batch(true), None);
    assert_eq!(search.attempted(), 250_000);
}

#[test]
fn time_ends_a_search() {
    let mut search = CpuSearch::new(u64::MAX);
    assert_eq!(search.next_batch(true), Some(100_000));
    assert_eq!(search.next_batch(false), None);
    assert_eq!(search.attempted(), 100_000);
    assert_eq!(CpuSearch::new(0).next_batch(true), None);
}
