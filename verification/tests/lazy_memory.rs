use litebox_windows_userland::guard_cow::{
    reserve_group_lazy_guarded, try_claim_guard_cow_table, AfterHandle, GuardAction,
    GuardCowClaim, GuardRegistry, WalkStep,
};
use litebox_windows_userland::lazy_fork_commit::{
    classify_lazy_eligible_groups, deserialize_lazy_ranges, install_if_configured,
    serialize_lazy_ranges, slot_bases, total_slots, FaultAction, InstallPlan, LazyChild,
    PageSource,
};
use litebox_windows_userland::memory::MemoryRegion;

const VIOLATION: u32 = 0xC000_0005;

#[test]
fn code_and_the_stack_are_not_lazy() {
    let groups = [(0x1000..0x2000, 0x1000), (0x4000..0x6000, 0x4000), (0x8000..0x9000, 0x8000)];
    let layout = [(0x1000..0x2000, 3u32, false), (0x5000..0x6000, 5, false), (0x8000..0x9000, 3, false)];
    assert_eq!(
        classify_lazy_eligible_groups(true, &groups, &layout, 0x8800),
        vec![true, false, false]
    );
    assert_eq!(
        classify_lazy_eligible_groups(false, &groups, &layout, 0),
        vec![false, false, false]
    );
}

#[test]
fn ranges_are_written_and_read() {
    let ranges = [0x1000..0x3000, 0x10000..0x11000];
    let line = serialize_lazy_ranges(&ranges);
    assert_eq!(deserialize_lazy_ranges(&line), ranges.to_vec());
    assert_eq!(deserialize_lazy_ranges(""), vec![]);
    assert_eq!(serialize_lazy_ranges(&[]), "");
    assert_eq!(total_slots(&ranges.to_vec()), 3);
    let bases = slot_bases(&ranges.to_vec());
    assert_eq!((bases[0].first_slot, bases[1].first_slot), (0, 2));
}

#[test]
fn a_child_is_set_up_from_its_environment() {
    let line = serialize_lazy_ranges(&[0x1000..0x3000]);
    assert_eq!(install_if_configured(None, Some("7"), None), InstallPlan::Inert);
    assert_eq!(install_if_configured(Some(""), Some("7"), None), InstallPlan::Inert);
    assert_eq!(install_if_configured(Some(&line), None, None), InstallPlan::MissingParentPid);
    assert_eq!(
        install_if_configured(Some(&line), Some("x"), None),
        InstallPlan::MissingParentPid
    );
    match install_if_configured(Some(&line), Some("7"), Some("65536")) {
        InstallPlan::Install { ranges, parent_pid, guard } => {
            assert_eq!(ranges, vec![0x1000..0x3000]);
            assert_eq!(parent_pid, 7);
            let (base, slots) = guard.unwrap();
            assert_eq!((base, slots.len()), (65536, 1));
        }
        other => panic!("{other:?}"),
    }
    match install_if_configured(Some(&line), Some("7"), Some("0")) {
        InstallPlan::Install { guard, .. } => assert_eq!(guard, None),
        other => panic!("{other:?}"),
    }
}

fn child(guarded: bool) -> LazyChild {
    let ranges = vec![0x1000..0x3000, 0x8000..0x9000];
    let guard = if guarded { Some((0x10_0000, slot_bases(&ranges))) } else { None };
    LazyChild {
        disarmed: false,
        ranges,
        parent_handle: 44,
        guard,
        serviced: 0,
        zero_filled: 0,
    }
}

#[test]
fn faults_are_served_from_the_parent() {
    let mut c = child(false);
    assert_eq!(c.lazy_commit_veh(VIOLATION, 0x2FFF), FaultAction::Commit { page: 0x2000 });
    assert_eq!(c.lazy_commit_veh(VIOLATION, 0x3000), FaultAction::Decline);
    assert_eq!(c.lazy_commit_veh(0x8000_0003, 0x2FFF), FaultAction::Decline);
    assert_eq!(c.on_committed(false, 0x2000), FaultAction::Decline);
    assert_eq!(c.on_committed(true, 0x2000), FaultAction::ReadLive { page: 0x2000 });
    assert_eq!(
        c.on_live_read(0x2000, true),
        FaultAction::Resume { source: PageSource::Live }
    );
    assert_eq!(
        c.on_live_read(0x2000, false),
        FaultAction::Resume { source: PageSource::Zero }
    );
    assert_eq!((c.serviced, c.zero_filled), (2, 1));
    assert_eq!(c.disarm_on_execve(), 44);
    assert_eq!(c.disarm_on_execve(), 0);
    assert_eq!(c.lazy_commit_veh(VIOLATION, 0x2FFF), FaultAction::Decline);
}

#[test]
fn a_snapshot_goes_before_live_bytes() {
    let mut c = child(true);
    assert_eq!(
        c.on_live_read(0x8000, true),
        FaultAction::ReadState { state: 0x10_0000 + 2 * 4097 }
    );
    assert_eq!(
        c.on_state_read(0x10_0000, true, Some(1)),
        FaultAction::ReadSnapshot { bytes: 0x10_0001 }
    );
    assert_eq!(
        c.on_snapshot_read(true),
        FaultAction::Resume { source: PageSource::Snapshot }
    );
    assert_eq!(
        c.on_snapshot_read(false),
        FaultAction::Resume { source: PageSource::Zero }
    );
    assert_eq!(
        c.on_state_read(0x10_0000, true, Some(0)),
        FaultAction::Resume { source: PageSource::Live }
    );
    assert_eq!(
        c.on_state_read(0x10_0000, false, None),
        FaultAction::Resume { source: PageSource::Zero }
    );
}

fn open(registry: &mut GuardRegistry<u32>, claim: &mut GuardCowClaim<u32>, page: usize, h: u32) {
    assert_eq!(
        registry.guard_one_page(claim, page, 0, &vec![]),
        GuardAction::Protect { restore: None }
    );
    let after = AfterHandle::Fresh { old_protect: 4 };
    assert_eq!(registry.on_protected(page, Some(4)), GuardAction::NeedHandle { after });
    registry.on_handle(claim, page, 0, after, Some(h));
}

#[test]
fn a_page_is_guarded_for_two_children() {
    let mut registry: GuardRegistry<u32> = GuardRegistry::new();
    let mut first = GuardCowClaim::new(0x10_0000, 2);
    let mut second = GuardCowClaim::new(0x20_0000, 2);
    open(&mut registry, &mut first, 0x1000, 1);
    assert_eq!(
        registry.guard_one_page(&second, 0x1000, 0, &vec![true]),
        GuardAction::NeedHandle { after: AfterHandle::Join }
    );
    registry.on_handle(&mut second, 0x1000, 0, AfterHandle::Join, Some(2));
    let handles: Vec<u32> =
        registry.pending(0x1000).unwrap().iter().map(|g| g.live_handle).collect();
    assert_eq!(handles, vec![1, 2]);
    assert_eq!(registry.guard_cow_write_fault_veh(VIOLATION, 1, 0x1FFF), Some(0x1000));
    assert_eq!(registry.guard_cow_write_fault_veh(VIOLATION, 0, 0x1FFF), None);
    assert_eq!(registry.guard_cow_write_fault_veh(VIOLATION, 1, 0x2000), None);
    let (slots, protect) = registry.capture(0x1000, &vec![false, true]);
    assert_eq!((slots, protect), (vec![0x20_0000], 4));
    let (slots, protect) = registry.capture(0x1000, &vec![]);
    assert_eq!((slots, protect), (vec![], 4));
}

#[test]
fn a_page_is_given_back_when_its_claim_is_given_up() {
    let mut registry: GuardRegistry<u32> = GuardRegistry::new();
    let mut claim = GuardCowClaim::new(0x10_0000, 2);
    open(&mut registry, &mut claim, 0x1000, 1);
    assert_eq!(claim.joined_pages, vec![(0x1000, 0x10_0000)]);
    assert_eq!(registry.abort_guard_cow_claim(&claim), vec![(0x1000, 4)]);
    assert_eq!(
        registry.guard_one_page(&claim, 0x1000, 0, &vec![]),
        GuardAction::Protect { restore: Some(4) }
    );
    assert_eq!(registry.on_protected(0x1000, None), GuardAction::Done);
    assert_eq!(registry.guard_one_page(&claim, 0x1000, 2, &vec![]), GuardAction::Done);
}

#[test]
fn a_region_is_guarded_at_once() {
    let mut registry: GuardRegistry<u32> = GuardRegistry::new();
    let mut claim = GuardCowClaim::new(0x10_0000, 2);
    assert!(registry.region_is_unopened(0x1000, 0x4000));
    registry.try_guard_region_batched(&mut claim, 0x1000, 0x4000, 4, &Some(5), 0x1000, 0);
    assert!(!registry.region_is_unopened(0x1000, 0x4000));
    assert!(!registry.region_is_unopened(0x2000, 0x3000));
    assert!(registry.region_is_unopened(0x3000, 0x4000));
    assert_eq!(claim.joined_pages, vec![(0x1000, 0x10_0000), (0x2000, 0x10_1001)]);
    let evicted = registry.invalidate_guarded_range(0x1800, 0x2001);
    let pages: Vec<usize> = evicted.iter().map(|e| e.page).collect();
    assert_eq!(pages, vec![0x1000, 0x2000]);
    assert_eq!(evicted[1].pending[0].slot, 0x10_1001);
    assert_eq!(evicted[1].pending[0].live_handle, 5);
    assert!(registry.region_is_unopened(0x1000, 0x4000));
    registry.try_guard_region_batched(&mut claim, 0x1000, 0x2000, 2, &None, 0x1000, 0);
    assert!(registry.pending(0x1000).unwrap().is_empty());
    assert!(registry.invalidate_guarded_range(0, 0x8000).is_empty());
}

#[test]
fn claims_are_limited() {
    assert_eq!(try_claim_guard_cow_table(0, 0), None);
    assert_eq!(try_claim_guard_cow_table(0, 1), Some(1));
    assert_eq!(try_claim_guard_cow_table(2, 1), Some(3));
    assert_eq!(try_claim_guard_cow_table(3, 1), None);
    let mut claim: GuardCowClaim<u32> = GuardCowClaim::new(0, 1);
    assert_eq!(claim.shared_handle(), None);
    claim.child_handle = Some(9);
    assert_eq!(claim.shared_handle(), Some(9));
}

#[test]
fn a_group_is_walked_by_regions() {
    let region = |base, size, state, protect| Some(MemoryRegion { base, size, state, protect });
    assert_eq!(reserve_group_lazy_guarded(0x1000, 0x9000, None), WalkStep::Stop);
    assert_eq!(
        reserve_group_lazy_guarded(0x1000, 0x9000, region(0x1000, 0x2000, 0x1000, 4)),
        WalkStep::Guard { start: 0x1000, end: 0x3000, next: 0x3000 }
    );
    assert_eq!(
        reserve_group_lazy_guarded(0x1000, 0x2000, region(0, 0x8000, 0x1000, 4)),
        WalkStep::Guard { start: 0x1000, end: 0x2000, next: 0x2000 }
    );
    assert_eq!(
        reserve_group_lazy_guarded(0x1000, 0x9000, region(0x1000, 0x2000, 0x1000, 1)),
        WalkStep::Skip { next: 0x3000 }
    );
    assert_eq!(
        reserve_group_lazy_guarded(0x1000, 0x9000, region(0x1000, 0x2000, 0x2000, 4)),
        WalkStep::Skip { next: 0x3000 }
    );
}
