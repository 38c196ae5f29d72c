use litebox_windows_userland::process_fork::{
    deserialize_full_gprs, reservation_outcome, reserve_group_lazy, reserve_request,
    serialize_full_gprs, CopyStep, ForkFullGprSnapshot, GroupCopy, Reservation,
};
use litebox_windows_userland::process_observe::{
    diagnostic_cross_process_wait4_probe, injection_succeeded, names_file, resolve_ntdll_proc,
    resume_and_observe, run_wait4_probe_child, set_child_context, set_child_full_context,
    stub_written, task_resume_and_observe, try_wait_for_process_exit, wait_for_process_exit,
    write_injected_stub, DebugStep, FaultObserver, InjectPhase, Injection, MarkerObserver,
    ModuleScan, ProbeExit, ResumeVerdict, ScanStep, ScannedRegion, TaskVerdict, WatchEnd,
};
use litebox_windows_userland::process_spawn::{
    alloc_marker_bytes, diagnostic_spawn_and_copy, handle_line, handle_value, layout_payload,
    on_peek, relocations_line, run_diagnostic_resume_child, write_outcome, DiagFork, DiagGates,
    DiagStep, ForkSpawn, ForkStep, InputLine, Observer, OutputWatch, PeekStep, PipeEvent,
    SpawnStep, SpawnedChild, SuspendedSpawn, WatchStep, WriteOutcome,
};

fn snapshot() -> ForkFullGprSnapshot {
    ForkFullGprSnapshot {
        r15: 15,
        r14: 14,
        r13: 13,
        r12: 12,
        rbp: 5,
        rbx: 3,
        r11: 11,
        r10: 10,
        r9: 9,
        r8: 8,
        rax: 0,
        rcx: 1,
        rdx: 2,
        rsi: 6,
        rdi: 7,
        orig_rax: 57,
        rip: 0x401000,
        cs: 0x1_0033,
        eflags: 0x1_0000_0246,
        rsp: usize::MAX,
        ss: 0x2b,
        fs_base: 0x7000,
    }
}

#[test]
fn registers_are_written_and_read() {
    let line = serialize_full_gprs(&snapshot());
    assert_eq!(deserialize_full_gprs(&line), Some(snapshot()));
    assert_eq!(deserialize_full_gprs(""), None);
    assert_eq!(deserialize_full_gprs(&format!("{line},1")), None);
    assert_eq!(deserialize_full_gprs(&line[..line.len() - 5]), None);
}

#[test]
fn a_snapshot_becomes_a_context() {
    let c = set_child_full_context(&snapshot());
    assert_eq!((c.r15, c.rdi, c.rip, c.rsp), (15, 7, 0x401000, u64::MAX));
    assert_eq!((c.eflags, c.cs, c.ss), (0x246, 0x33, 0x2b));
    let stub = set_child_context(c, 0x5000, 99);
    assert_eq!((stub.rip, stub.rax, stub.rsp, stub.rbx), (0x5000, 99, u64::MAX, 3));
}

#[test]
fn a_group_is_reserved_at_its_place() {
    let group = 0x10000..0x13000;
    let request = reserve_request(&group);
    assert_eq!((request.lowest, request.highest, request.len), (0x10000, 0x12FFF, 0x3000));
    assert_eq!(reservation_outcome(&group, 0, 487), Reservation::Failed { last_error: 487 });
    assert_eq!(
        reservation_outcome(&group, 0x20000, 0),
        Reservation::Misplaced { release: 0x20000 }
    );
    assert_eq!(reservation_outcome(&group, 0x10000, 0), Reservation::Placed);
    let r = reserve_group_lazy(&group, Reservation::Failed { last_error: 487 });
    assert!(!r.succeeded);
    assert_eq!(r.last_error, 487);
    assert!(reserve_group_lazy(&group, Reservation::Placed).succeeded);
    let empty = reserve_request(&(0x10000..0x10000));
    assert_eq!((empty.lowest, empty.highest, empty.len), (0x10000, 0xFFFF, 0));
}

#[test]
fn every_group_is_tried() {
    let gates = DiagGates { resume: true, fds: true, ..OFF };
    let plan = diagnostic_spawn_and_copy(gates, false, false, false);
    let mut fork = DiagFork::new(plan, vec![0x1000..0x2000, 0x5000..0x5000, 0x8000..0x9000]);
    assert_eq!(fork.step(), DiagStep::CopyGroup { index: 0 });
    assert_eq!(fork.on_group(true, 0), DiagStep::CopyGroup { index: 1 });
    assert_eq!(fork.on_group(false, 87), DiagStep::CopyGroup { index: 2 });
    assert_eq!(fork.on_group(true, 0), DiagStep::DuplicateStdio);
    assert_eq!(fork.on_done(), DiagStep::Observe { observer: Observer::Resume });
    assert_eq!(fork.on_done(), DiagStep::TearDown);
    let results = fork.finish();
    let seen: Vec<_> = results
        .iter()
        .map(|r| (r.source_group.start, r.source_group.end, r.succeeded, r.last_error))
        .collect();
    assert_eq!(
        seen,
        vec![
            (0x1000, 0x2000, true, 0),
            (0x5000, 0x5000, false, 87),
            (0x8000, 0x9000, true, 0)
        ]
    );
    let plan = diagnostic_spawn_and_copy(OFF, false, false, false);
    let fork = DiagFork::new(plan, vec![]);
    assert_eq!(fork.step(), DiagStep::TearDown);
    assert!(fork.finish().is_empty());
}

#[test]
fn all_handles_of_a_child_are_closed() {
    let child = SpawnedChild {
        process: 10,
        thread: 11,
        pid: 12,
        stdout_read: Some(13),
        stdin_write: Some(14),
    };
    assert_eq!(child.handles(), vec![13, 14, 11, 10]);
    let quiet = SpawnedChild { stdout_read: None, stdin_write: None, ..child };
    assert_eq!(quiet.handles(), vec![11, 10]);
}

#[test]
fn a_group_is_copied_page_by_page() {
    let mut copy = GroupCopy::copy_one_group(&(0x10000..0x12010), true);
    assert_eq!(copy.step(), CopyStep::Read { start: 0x10000, end: 0x11000 });
    let mut page = vec![1u8; 4096];
    for b in &mut page[8..24] {
        *b = 0;
    }
    assert_eq!(copy.on_page(Some(&page)), CopyStep::Write { address: 0x10000 });
    assert_eq!(
        copy.on_written(&page, true, 4096, 0),
        CopyStep::Read { start: 0x11000, end: 0x12000 }
    );
    assert_eq!(copy.zero_runs(), &vec![(0x10008, 2)]);
    assert_eq!(copy.on_page(None), CopyStep::Read { start: 0x12000, end: 0x12010 });
    let tail = vec![0u8; 16];
    assert_eq!(copy.on_page(Some(&tail)), CopyStep::Write { address: 0x12000 });
    assert_eq!(copy.on_written(&tail, true, 8, 299), CopyStep::Failed { last_error: 299 });
    assert_eq!(copy.on_written(&tail, true, 16, 0), CopyStep::Copied);
    assert_eq!(copy.zero_runs(), &vec![(0x10008, 2), (0x12000, 2)]);
}

#[test]
fn a_start_without_pipes() {
    let (spawn, step) = SuspendedSpawn::spawn_suspended(false, true);
    assert_eq!(step, SpawnStep::CreateProcess { use_std_handles: false });
    let outcome = spawn.on_process(Some((1, 2, 3)), 0);
    assert!(outcome.close.is_empty());
    let child = outcome.result.unwrap();
    assert_eq!((child.process, child.thread, child.pid), (1, 2, 3));
    assert_eq!((child.stdout_read, child.stdin_write), (None, Some(0)));
}

#[test]
fn a_start_closes_what_it_does_not_keep() {
    let (mut spawn, step) = SuspendedSpawn::spawn_suspended(true, true);
    assert_eq!(step, SpawnStep::CreateStdoutPipe);
    assert_eq!(spawn.on_stdout_pipe(Some((10, 11)), 0), SpawnStep::CreateStdinPipe);
    assert_eq!(
        spawn.on_stdin_pipe(None, 8),
        SpawnStep::Failed {
            close: vec![10, 11],
            message: "CreatePipe (stdin) failed: GetLastError=8".to_owned()
        }
    );
    assert_eq!(
        spawn.on_stdin_pipe(Some((20, 21)), 0),
        SpawnStep::CreateProcess { use_std_handles: true }
    );
    let outcome = spawn.on_process(Some((1, 2, 3)), 0);
    assert_eq!(outcome.close, vec![11, 20]);
    let child = outcome.result.unwrap();
    assert_eq!((child.stdout_read, child.stdin_write), (Some(10), Some(21)));
    let failed = spawn.on_process(None, 5);
    assert_eq!(failed.close, vec![11, 20, 10, 21]);
    assert_eq!(
        failed.result,
        Err("CreateProcessW(CREATE_SUSPENDED) failed: GetLastError=5".to_owned())
    );
    let (mut other, _) = SuspendedSpawn::spawn_suspended(true, false);
    assert_eq!(
        other.on_stdout_pipe(None, 6),
        SpawnStep::Failed {
            close: vec![],
            message: "CreatePipe failed: GetLastError=6".to_owned()
        }
    );
    assert_eq!(
        other.on_stdout_pipe(Some((10, 11)), 0),
        SpawnStep::CreateProcess { use_std_handles: true }
    );
}

const OFF: DiagGates = DiagGates {
    resume: false,
    fds: false,
    real_resume: false,
    relocations: false,
    vmem_adopt: false,
    globalstate: false,
    task_resume: false,
};

#[test]
fn probes_are_planned() {
    let plan = diagnostic_spawn_and_copy(OFF, true, true, true);
    assert_eq!(plan.observer, Observer::Nobody);
    assert!(!plan.stdout_pipe && !plan.stdin_pipe && !plan.mark_real_resume);
    let resume = DiagGates { resume: true, ..OFF };
    assert_eq!(diagnostic_spawn_and_copy(resume, false, true, true).observer, Observer::Resume);
    assert_eq!(diagnostic_spawn_and_copy(resume, true, true, true).observer, Observer::Inject);
    let real = DiagGates { resume: true, real_resume: true, relocations: true, ..OFF };
    let plan = diagnostic_spawn_and_copy(real, true, true, true);
    assert_eq!(plan.observer, Observer::RealResume);
    assert!(plan.mark_real_resume && plan.write_layout && plan.stdin_pipe);
    let plan = diagnostic_spawn_and_copy(real, true, false, true);
    assert_eq!(plan.observer, Observer::Inject);
    assert!(!plan.mark_real_resume);
    let task = DiagGates {
        resume: true,
        real_resume: true,
        vmem_adopt: true,
        globalstate: true,
        task_resume: true,
        ..OFF
    };
    let plan = diagnostic_spawn_and_copy(task, true, true, true);
    assert_eq!(plan.observer, Observer::TaskResume);
    assert!(plan.send_layout && plan.send_gprs && !plan.mark_real_resume);
    let fds = DiagGates { resume: true, fds: true, ..OFF };
    assert!(diagnostic_spawn_and_copy(fds, false, false, false).duplicate_stdio);
}

#[test]
fn a_fork_copies_everything_before_it_resumes() {
    let (mut fork, step) = ForkSpawn::spawn_process_fork_child(2);
    assert_eq!(step, ForkStep::CopyGroup { index: 0 });
    assert_eq!(fork.on_group(true), ForkStep::CopyGroup { index: 1 });
    assert_eq!(fork.on_group(true), ForkStep::Resume);
    assert_eq!(fork.on_resumed(1), ForkStep::Running);
    assert_eq!(fork.on_resumed(u32::MAX), ForkStep::TearDown);
    let (mut failing, _) = ForkSpawn::spawn_process_fork_child(2);
    assert_eq!(failing.on_group(false), ForkStep::TearDown);
    assert_eq!(ForkSpawn::spawn_process_fork_child(0).1, ForkStep::Resume);
}

#[test]
fn output_is_watched_for_a_marker() {
    let mut watch = OutputWatch::new();
    let marker = b"READY";
    assert_eq!(watch.on_read(PipeEvent::Data(b"x RE".to_vec()), marker), WatchStep::More);
    assert_eq!(watch.on_read(PipeEvent::Data(b"ADY y".to_vec()), marker), WatchStep::Found);
    assert!(watch.saw(marker));
    assert_eq!(watch.before_marker(marker), b"x ".to_vec());
    assert_eq!(watch.before_marker(b"NO"), b"x READY y".to_vec());
    assert_eq!(watch.on_read(PipeEvent::Data(vec![]), marker), WatchStep::Closed);
    assert_eq!(watch.on_read(PipeEvent::Failed(109), marker), WatchStep::Closed);
    assert_eq!(watch.on_read(PipeEvent::Failed(5), marker), WatchStep::Broken { error: 5 });
    let end = WatchEnd::Step(WatchStep::Found);
    assert_eq!(
        resume_and_observe(&watch, end, marker),
        ResumeVerdict::Ready { before: b"x ".to_vec() }
    );
    assert_eq!(
        resume_and_observe(&watch, WatchEnd::Deadline, marker),
        ResumeVerdict::TimedOut
    );
    assert_eq!(
        resume_and_observe(&watch, WatchEnd::Step(WatchStep::Broken { error: 5 }), marker),
        ResumeVerdict::ReadFailed { error: 5 }
    );
    let closed = WatchEnd::Step(WatchStep::Closed);
    assert_eq!(resume_and_observe(&watch, closed, b"NO"), ResumeVerdict::NotReady);
    assert_eq!(
        task_resume_and_observe(&watch, closed, b"NO"),
        TaskVerdict { closed: true, saw_return: false }
    );
    assert_eq!(
        task_resume_and_observe(&watch, WatchEnd::Deadline, marker),
        TaskVerdict { closed: false, saw_return: true }
    );
}

#[test]
fn a_line_arrives_on_the_input() {
    assert_eq!(on_peek(false, 3, 64), PeekStep::Gone);
    assert_eq!(on_peek(true, 0, 64), PeekStep::Wait);
    assert_eq!(on_peek(true, 3, 64), PeekStep::Read { max: 3 });
    assert_eq!(on_peek(true, 300, 64), PeekStep::Read { max: 64 });
    let mut line = InputLine::new();
    assert!(!line.on_data(b" -4"));
    assert!(line.on_data(b"2\n"));
    assert_eq!(line.text(), "-42");
    assert_eq!(handle_value(&line.text()), Some(-42));
    assert_eq!(handle_value("x"), None);
    assert_eq!(handle_line(-42), "-42\n");
    assert_eq!(relocations_line(line.text()), Some("-42".to_owned()));
    assert_eq!(relocations_line(String::new()), None);
    assert_eq!(layout_payload("a,b"), "a,b\n");
    assert_eq!(write_outcome(false, 3, 3), WriteOutcome::Failed);
    assert_eq!(write_outcome(true, 2, 3), WriteOutcome::Short);
    assert_eq!(write_outcome(true, 3, 3), WriteOutcome::Complete);
    assert_eq!(alloc_marker_bytes(), b"LITEBOX_DIAG_RESUME_CHILD_FD_OK\n".to_vec());
}

#[test]
fn a_resumed_child_parks_only_when_marked() {
    let plan = run_diagnostic_resume_child(true, true, true);
    assert!(plan.install_tls && plan.read_layout && plan.park);
    let plan = run_diagnostic_resume_child(true, false, true);
    assert!(!plan.install_tls && !plan.read_layout && plan.park);
    let plan = run_diagnostic_resume_child(false, true, true);
    assert!(!plan.install_tls && !plan.read_layout && !plan.park);
}

#[test]
fn the_guest_context_waits_for_the_marker() {
    let marker = b"READY";
    let mut i = Injection::real_resume_and_observe(true);
    assert_eq!(i.phase, InjectPhase::Start);
    i.on_started(1);
    i.on_output(PipeEvent::Data(b"..".to_vec()), marker);
    assert_eq!(i.phase, InjectPhase::AwaitReady);
    i.on_output(PipeEvent::Data(b"READY".to_vec()), marker);
    assert_eq!(i.phase, InjectPhase::Suspend);
    i.on_suspended(0);
    i.on_context(true);
    i.on_attached(true);
    assert!(i.attached);
    i.on_resumed(1);
    assert_eq!(i.phase, InjectPhase::Observe);
    i.on_observed();
    i.on_detached();
    assert!(!i.attached);
    assert_eq!(i.phase, InjectPhase::Await);
    i.on_waited();
    i.on_drained(Some(PipeEvent::Data(b"bye".to_vec())));
    assert_eq!(i.phase, InjectPhase::Drain);
    i.on_drained(None);
    assert_eq!(i.phase, InjectPhase::Done);
    assert_eq!(i.rest, b"bye".to_vec());
}

#[test]
fn an_injection_stops_where_it_fails() {
    let marker = b"READY";
    let mut i = Injection::real_resume_and_observe(true);
    i.on_started(u32::MAX);
    assert_eq!(i.phase, InjectPhase::Done);
    let mut i = Injection::real_resume_and_observe(false);
    i.on_started(1);
    assert_eq!(i.phase, InjectPhase::Done);
    let mut i = Injection::real_resume_and_observe(true);
    i.on_started(1);
    i.on_output(PipeEvent::Failed(109), marker);
    assert_eq!(i.phase, InjectPhase::Done);
    let mut i = Injection::inject_and_observe();
    assert_eq!(i.phase, InjectPhase::WriteStub);
    i.on_stub(true);
    i.on_context(true);
    i.on_attached(true);
    i.on_resumed(u32::MAX);
    assert_eq!(i.phase, InjectPhase::Detach);
    i.on_detached();
    assert_eq!(i.phase, InjectPhase::Done);
    let mut i = Injection::inject_and_observe();
    i.on_stub(true);
    i.on_context(true);
    i.on_attached(false);
    i.on_resumed(1);
    assert_eq!(i.phase, InjectPhase::Await);
    i.on_waited();
    assert_eq!(i.phase, InjectPhase::Done);
    assert!(injection_succeeded(true, Some(0x1187_2118)));
    assert!(!injection_succeeded(true, Some(0)));
    assert!(!injection_succeeded(true, None));
    assert!(!injection_succeeded(false, Some(0x1187_2118)));
}

#[test]
fn exceptions_are_watched() {
    let breakpoint = 0x8000_0003;
    let mut faults = FaultObserver::new(7);
    assert_eq!(
        faults.observe_real_resume_fault(8, Some((0xC000_0005, true))),
        DebugStep::Continue
    );
    assert_eq!(faults.observe_real_resume_fault(7, None), DebugStep::Continue);
    assert_eq!(
        faults.observe_real_resume_fault(7, Some((breakpoint, false))),
        DebugStep::Report
    );
    assert_eq!(
        faults.observe_real_resume_fault(7, Some((breakpoint, true))),
        DebugStep::Continue
    );
    assert_eq!(
        faults.observe_real_resume_fault(7, Some((breakpoint, true))),
        DebugStep::Report
    );
    let mut marker = MarkerObserver::new();
    assert_eq!(marker.capture_first_exception_context(None), DebugStep::Continue);
    assert_eq!(
        marker.capture_first_exception_context(Some(breakpoint)),
        DebugStep::CheckMarker
    );
    assert_eq!(marker.capture_first_exception_context(Some(0xC000_0005)), DebugStep::Stop);
    marker.on_marker(Some(0));
    marker.on_marker(None);
    assert!(!marker.saw_marker);
    marker.on_marker(Some(0x1187_1187));
    marker.on_marker(Some(0));
    assert!(marker.saw_marker);
}

#[test]
fn the_injected_code() {
    let code = write_injected_stub(0x1_0000, 0x7FFF_0000_1234);
    let expected = vec![
        0x48, 0xB8, 0x00, 0x01, 0x01, 0, 0, 0, 0, 0, 0xC7, 0x00, 0x87, 0x11, 0x87, 0x11, 0xCC,
        0x48, 0x83, 0xEC, 0x28, 0x48, 0x83, 0xC9, 0xFF, 0xBA, 0x18, 0x21, 0x87, 0x11, 0x48, 0xB8,
        0x34, 0x12, 0x00, 0x00, 0xFF, 0x7F, 0, 0, 0xFF, 0xD0, 0x0F, 0x0B,
    ];
    assert_eq!(code, expected);
    assert!(stub_written(true, 44, 44));
    assert!(!stub_written(true, 43, 44));
    assert!(!stub_written(false, 44, 44));
}

fn region(base: usize, size: usize, image: Option<&str>) -> Option<ScannedRegion> {
    Some(ScannedRegion {
        base,
        size,
        allocation_base: 0x7000,
        image: image.map(|s| s.to_owned()),
    })
}

#[test]
fn modules_are_found_by_name() {
    assert!(names_file("\\Device\\Windows\\NTDLL.dll", "ntdll.dll"));
    assert!(names_file("a/b\\ntdll.dll", "NtDll.DLL"));
    assert!(names_file("ntdll.dll", "ntdll.dll"));
    assert!(!names_file("\\x\\ntdll.dll.bak", "ntdll.dll"));
    assert!(!names_file("\\x\\", "ntdll.dll"));
    let mut scan = ModuleScan::new();
    assert_eq!(
        scan.find_child_module_base(region(0, 0x1000, None), "n.dll"),
        ScanStep::Query { addr: 0x1000 }
    );
    assert_eq!(
        scan.find_child_module_base(region(0x1000, 0x1000, Some("\\o.dll")), "n.dll"),
        ScanStep::Query { addr: 0x2000 }
    );
    assert_eq!(
        scan.find_child_module_base(region(0x2000, 0x1000, Some("\\N.dll")), "n.dll"),
        ScanStep::Found { base: 0x7000 }
    );
    assert_eq!(
        scan.find_child_module_base(region(0x2000, usize::MAX, None), "n.dll"),
        ScanStep::NotFound
    );
    assert_eq!(scan.find_child_module_base(None, "n.dll"), ScanStep::NotFound);
    let mut scan = ModuleScan::new();
    let mut asked = 1;
    while let ScanStep::Query { addr } =
        scan.find_child_module_base(region(scan.addr, 0x1000, None), "n.dll")
    {
        assert_eq!(addr, asked * 0x1000);
        asked += 1;
    }
    assert_eq!(asked, 4096);
    assert_eq!(resolve_ntdll_proc(0x1000, 0x1234, 0x9000), 0x9234);
}

#[test]
fn exits_are_reported() {
    assert_eq!(wait_for_process_exit(Some(3)), 3);
    assert_eq!(wait_for_process_exit(None), 0);
    assert_eq!(try_wait_for_process_exit(258, Some(3)), None);
    assert_eq!(try_wait_for_process_exit(0, Some(259)), None);
    assert_eq!(try_wait_for_process_exit(0, Some(3)), Some(3));
    assert_eq!(try_wait_for_process_exit(0, None), Some(0));
    assert_eq!(run_wait4_probe_child(Some("3235774506")), 0xC0DE_002A);
    assert_eq!(run_wait4_probe_child(Some("x")), 0);
    assert_eq!(run_wait4_probe_child(None), 0);
    assert_eq!(
        diagnostic_cross_process_wait4_probe(0xC0DE_002A),
        ProbeExit { marker_ok: true, signaled: false, low: 42, expected: true }
    );
    assert_eq!(
        diagnostic_cross_process_wait4_probe(0xC0DE_802A),
        ProbeExit { marker_ok: true, signaled: true, low: 42, expected: false }
    );
    assert!(!diagnostic_cross_process_wait4_probe(42).expected);
    assert!(!diagnostic_cross_process_wait4_probe(0xC0DE_002B).expected);
}
