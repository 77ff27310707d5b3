use slotmerge::report::format_with_commas;
use slotmerge::scheduler::{
    changed_pages, full_rebuild_needed, next_probe, path_missing_with_retry, plan_rebuild,
    plan_with_outputs, Change, Probe, RebuildPlan, RebuildScheduler, SchedulerState, DEBOUNCE_MS,
};

fn change(missing: bool, is_layout: bool, page: Option<&str>) -> Change {
    Change { missing, is_layout, page: page.map(|p| p.to_string()) }
}

#[test]
fn burst_of_changes_gives_one_batch() {
    let mut s = RebuildScheduler::new();
    assert_eq!(s.state(), SchedulerState::Idle);
    for (i, name) in ["a.html", "b.html", "c.html", "a.html"].iter().enumerate() {
        s = s.on_change(format!("/site/{}", name), Some(name), 1000 + 10 * i as u64);
        assert_eq!(s.state(), SchedulerState::PendingDebounce);
        let (next, batch) = s.on_tick(1000 + 10 * i as u64 + 5);
        assert_eq!(batch, None);
        s = next;
    }
    assert_eq!(s.pending_len(), 3);
    let (s, batch) = s.on_tick(1030 + DEBOUNCE_MS - 1);
    assert_eq!(batch, None);
    let (s, batch) = s.on_tick(1030 + DEBOUNCE_MS);
    assert_eq!(
        batch,
        Some(vec![
            "/site/a.html".to_string(),
            "/site/b.html".to_string(),
            "/site/c.html".to_string(),
        ])
    );
    assert_eq!(s.state(), SchedulerState::Idle);
    assert_eq!(s.pending_len(), 0);
    let (_, batch) = s.on_tick(5000);
    assert_eq!(batch, None);
}

#[test]
fn transient_files_are_not_noticed() {
    let s = RebuildScheduler::new();
    let s = s.on_change("/site/a.html.tmp".to_string(), Some("a.html.tmp"), 10);
    assert_eq!(s.state(), SchedulerState::Idle);
    assert_eq!(s.pending_len(), 0);
    let (_, batch) = s.on_tick(1000);
    assert_eq!(batch, None);
}

#[test]
fn clock_that_steps_back_does_not_fire() {
    let s = RebuildScheduler::new().on_change("/site/a.html".to_string(), Some("a.html"), 500);
    let (s, batch) = s.on_tick(100);
    assert_eq!(batch, None);
    assert_eq!(s.state(), SchedulerState::PendingDebounce);
}

#[test]
fn layout_in_a_batch_forces_full_rebuild() {
    let batch = vec![
        change(false, false, Some("/site/a.html")),
        change(false, true, None),
        change(false, false, Some("/site/b.html")),
    ];
    assert!(full_rebuild_needed(Some(&batch)));
    assert_eq!(plan_rebuild(Some(&batch)), RebuildPlan::Full);
}

#[test]
fn full_rebuild_for_no_batch_empty_batch_and_missing_path() {
    assert_eq!(plan_rebuild(None), RebuildPlan::Full);
    assert_eq!(plan_rebuild(Some(&vec![])), RebuildPlan::Full);
    let batch = vec![change(false, false, Some("/site/a.html")), change(true, false, None)];
    assert_eq!(plan_rebuild(Some(&batch)), RebuildPlan::Full);
}

#[test]
fn partial_rebuild_holds_each_page_once() {
    let batch = vec![
        change(false, false, Some("/site/a.html")),
        change(false, false, None),
        change(false, false, Some("/site/b.html")),
        change(false, false, Some("/site/a.html")),
    ];
    assert!(!full_rebuild_needed(Some(&batch)));
    assert_eq!(
        plan_rebuild(Some(&batch)),
        RebuildPlan::Partial(vec!["/site/a.html".to_string(), "/site/b.html".to_string()])
    );
    assert_eq!(changed_pages(&batch).len(), 2);
    let assets_only = vec![change(false, false, None)];
    assert_eq!(plan_rebuild(Some(&assets_only)), RebuildPlan::Partial(vec![]));
}

#[test]
fn a_path_is_gone_after_three_retries() {
    assert_eq!(next_probe(true, 0), Probe::Present);
    assert_eq!(next_probe(false, 0), Probe::LookAgain(10));
    assert_eq!(next_probe(false, 2), Probe::LookAgain(10));
    assert_eq!(next_probe(false, 3), Probe::Missing);
    assert_eq!(next_probe(true, 3), Probe::Present);
    assert!(path_missing_with_retry(&vec![false, false, false, false]));
    assert!(!path_missing_with_retry(&vec![false, false, false, true]));
    assert!(!path_missing_with_retry(&vec![true]));
    assert!(!path_missing_with_retry(&vec![false, false, false]));
    assert!(path_missing_with_retry(&vec![false, false, false, false, true]));
}

#[test]
fn numbers_with_commas() {
    assert_eq!(format_with_commas(0), "0");
    assert_eq!(format_with_commas(7), "7");
    assert_eq!(format_with_commas(42), "42");
    assert_eq!(format_with_commas(999), "999");
    assert_eq!(format_with_commas(1000), "1,000");
    assert_eq!(format_with_commas(1234567), "1,234,567");
    assert_eq!(format_with_commas(1000000), "1,000,000");
    assert_eq!(format_with_commas(10203), "10,203");
    assert_eq!(
        format_with_commas(u128::MAX),
        "340,282,366,920,938,463,463,374,607,431,768,211,455"
    );
}

#[test]
fn a_page_never_built_forces_full_rebuild() {
    let batch = vec![change(false, false, Some("/site/a.html"))];
    assert_eq!(plan_with_outputs(Some(&batch), true), RebuildPlan::Full);
    assert_eq!(
        plan_with_outputs(Some(&batch), false),
        RebuildPlan::Partial(vec!["/site/a.html".to_string()])
    );
    assert_eq!(plan_with_outputs(None, false), RebuildPlan::Full);
    let with_layout = vec![change(false, true, None)];
    assert_eq!(plan_with_outputs(Some(&with_layout), false), RebuildPlan::Full);
}
