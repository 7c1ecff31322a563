use dang::runtime::{
    incoming_data, polls,
    merge_sorted, value_from_be_bytes, DummyMem, Event, ExecMode, RequiredWaves, WaveSignal, Waver,
    WaverError,
};

fn sig(times: Vec<u32>, values: Vec<u32>) -> WaveSignal {
    WaveSignal::new(times, values, 32).unwrap()
}

fn waver(pc_values: Vec<u32>, first_pc: u32) -> Result<Waver, WaverError> {
    let times: Vec<u32> = (0..pc_values.len() as u32).map(|t| 2 * t).collect();
    let pc = sig(times, pc_values);
    let gprs = (0..32u32).map(|i| sig(vec![1, 3], vec![i, i + 100])).collect();
    let mut mem = DummyMem::new();
    mem.load(0x100084, &[0x13, 0x00, 0x00, 0x00]);
    Waver::from_parts(
        RequiredWaves { pc, gprs },
        vec![],
        mem,
        "/tmp/hello_test.elf".to_string(),
        first_pc,
    )
}

#[test]
fn starts_at_first_pc() {
    let w = waver(vec![0x10, 0x100084, 0x100088], 0x100084).unwrap();
    assert_eq!(w.get_current_pc(), 0x100084);
    assert_eq!(w.cursor.time_idx, 2);
    assert!(matches!(waver(vec![1, 2], 3), Err(WaverError::FirstPcNotFound)));
}

#[test]
fn step_advances_to_next_distinct_pc() {
    let mut w = waver(vec![0x100084, 0x100088, 0x10008c], 0x100084).unwrap();
    assert_eq!(w.step(), None);
    assert_eq!(w.get_current_pc(), 0x100088);
    assert_eq!(w.run_slice(), Some(Event::DoneStep));
    assert_eq!(w.get_current_pc(), 0x10008c);
    // the capture ends: halted, and again on the next step
    assert_eq!(w.run_slice(), Some(Event::Halted));
    assert_eq!(w.run_slice(), Some(Event::Halted));
}

#[test]
fn same_pc_means_halted() {
    let mut w = waver(vec![0x100084, 0x100084], 0x100084).unwrap();
    assert_eq!(w.next_pc(), None);
    assert_eq!(w.cursor.time_idx, 2);
    assert_eq!(w.step(), Some(Event::Halted));
}

#[test]
fn continue_stops_at_breakpoint() {
    let mut w = waver(vec![0x100084, 0x100088, 0x10008c, 0x100100, 0x100104], 0x100084).unwrap();
    assert!(w.add_sw_breakpoint(0x00100100));
    w.resume(None).unwrap();
    assert_eq!(w.exec_mode, ExecMode::Continue);
    assert_eq!(w.run_slice(), Some(Event::Break));
    assert_eq!(w.get_current_pc(), 0x00100100);
    assert!(w.remove_sw_breakpoint(0x00100100));
    assert!(!w.remove_sw_breakpoint(0x00100100));
    assert!(w.resume(Some(5)).is_err());
}

#[test]
fn range_step_leaves_range() {
    let mut w = waver(vec![0x100, 0x104, 0x108, 0x10c], 0x100).unwrap();
    w.resume_range_step(0x100, 0x108).unwrap();
    assert_eq!(w.run_slice(), Some(Event::DoneStep));
    assert_eq!(w.get_current_pc(), 0x108);
}

#[test]
fn registers_are_read_at_cursor() {
    let mut w = waver(vec![0x100084, 0x100088], 0x100084).unwrap();
    // time index 0: before the registers' first change
    assert_eq!(w.get_current_gpr(5), 0);
    w.step();
    // time index 2: after the change at 1
    assert_eq!(w.get_current_gpr(5), 5);
    let regs = w.read_registers();
    assert_eq!(regs.len(), 33);
    assert_eq!(regs[32], 0x100088);
    let bytes = w.register_bytes();
    assert_eq!(bytes.len(), 132);
    assert_eq!(&bytes[128..132], &[0x88, 0x00, 0x10, 0x00]);
    assert_eq!(&bytes[20..24], &[5, 0, 0, 0]);
    assert_eq!(w.read_register(32), Some(vec![0x88, 0x00, 0x10, 0x00]));
    assert_eq!(w.read_register(33), None);
}

#[test]
fn monitor_commands() {
    let mut w = waver(vec![0x100084, 0x100088], 0x100084).unwrap();
    w.step();
    assert_eq!(w.handle_monitor_cmd(b"time_idx"), "2\n");
    assert_eq!(w.handle_monitor_cmd(b"foo"), "I don't know how to handle 'foo'\n");
    assert!(w.handle_monitor_cmd(b"").starts_with("WHAT DID YOU SAY?!"));
    assert_eq!(w.handle_monitor_cmd(&[0xff]), "command must be valid UTF-8\n");
}

#[test]
fn exec_file_is_the_path() {
    let w = waver(vec![0x100084], 0x100084).unwrap();
    let mut buf = [0u8; 1000];
    let n = w.get_exec_file(0, 1000, &mut buf).unwrap();
    assert_eq!(&buf[..n], b"/tmp/hello_test.elf");
    let mut small = [0u8; 4];
    assert_eq!(w.get_exec_file(5, 1000, &mut small).unwrap(), 4);
    assert_eq!(&small, b"hell");
    assert_eq!(w.get_exec_file(100, 10, &mut small).unwrap(), 0);
}

#[test]
fn memory_reads() {
    let w = waver(vec![0x100084], 0x100084).unwrap();
    assert_eq!(w.read_addrs(0x100084, 6), vec![0x13, 0, 0, 0, 0, 0]);
    assert_eq!(w.read_addrs(0x100084, 0), Vec::<u8>::new());
    assert_eq!(w.mem.r32(0x100084), 0x13);
    assert_eq!(w.mem.r8(0), 0);
    let mut m = DummyMem::new();
    m.w8(u32::MAX, 7);
    m.w8(0, 9);
    assert_eq!(m.r8(u32::MAX), 7);
    let wm = Waver::from_parts(
        RequiredWaves { pc: sig(vec![0], vec![1]), gprs: (0..32).map(|_| sig(vec![0], vec![0])).collect() },
        vec![],
        m,
        String::new(),
        1,
    )
    .unwrap();
    assert_eq!(wm.read_addrs(u32::MAX, 2), vec![7, 9]);
}

#[test]
fn signals_are_checked() {
    assert!(WaveSignal::new(vec![1, 1], vec![0, 0], 8).is_none());
    assert!(WaveSignal::new(vec![1, 2], vec![0, 256], 8).is_none());
    assert!(WaveSignal::new(vec![1, 2], vec![0, 255], 8).is_some());
    assert!(WaveSignal::new(vec![1], vec![0], 33).is_none());
    assert!(WaveSignal::new(vec![1, 2], vec![0], 8).is_none());
    let s = sig(vec![3, 8], vec![10, 20]);
    assert_eq!(s.value_at(2), None);
    assert_eq!(s.value_at(3), Some(10));
    assert_eq!(s.value_at(7), Some(10));
    assert_eq!(s.value_at(100), Some(20));
    assert_eq!(s.find_idx(20), Some(1));
    assert!(matches!(
        Waver::from_parts(RequiredWaves { pc: sig(vec![0], vec![1]), gprs: vec![] }, vec![], DummyMem::new(), String::new(), 1),
        Err(WaverError::WrongRegisterCount)
    ));
}

#[test]
fn signal_bytes_are_big_endian() {
    assert_eq!(value_from_be_bytes(&[0x00, 0x10, 0x00, 0x84]), 0x00100084);
    assert_eq!(value_from_be_bytes(&[0x01]), 1);
    assert_eq!(value_from_be_bytes(&[0xaa, 0x00, 0x10, 0x00, 0x84]), 0x00100084);
    assert_eq!(value_from_be_bytes(&[]), 0);
}

#[test]
fn merged_changes_are_sorted() {
    assert_eq!(merge_sorted(&[1, 4, 9], &vec![2, 4, 10]), vec![1, 2, 4, 4, 9, 10]);
    assert_eq!(merge_sorted(&[], &vec![3]), vec![3]);
}

#[test]
fn reverse_step_and_continue() {
    let mut w = waver(vec![0x100, 0x104, 0x108, 0x10c], 0x100).unwrap();
    w.resume(None).unwrap();
    assert_eq!(w.run_slice(), Some(Event::Halted));
    assert_eq!(w.get_current_pc(), 0x10c);
    w.reverse_step().unwrap();
    assert_eq!(w.exec_mode, ExecMode::ReverseStep);
    assert_eq!(w.run_slice(), Some(Event::DoneStep));
    assert_eq!(w.get_current_pc(), 0x108);
    assert_eq!(w.cursor.time_idx, 4);
    w.add_sw_breakpoint(0x104);
    w.reverse_cont().unwrap();
    assert_eq!(w.run_slice(), Some(Event::Break));
    assert_eq!(w.get_current_pc(), 0x104);
    assert_eq!(w.run_slice(), Some(Event::Halted));
    assert_eq!(w.get_current_pc(), 0x100);
    assert_eq!(w.step_back(), Some(Event::Halted));
}

#[test]
fn poll_decisions() {

    assert!(!polls(ExecMode::Step));
    assert!(!polls(ExecMode::ReverseStep));
    assert!(polls(ExecMode::Continue));
    assert!(polls(ExecMode::ReverseContinue));
    assert!(polls(ExecMode::RangeStep(0, 4)));
    assert!(incoming_data(None));
    assert!(incoming_data(Some(true)));
    assert!(!incoming_data(Some(false)));
}

#[test]
fn signals_from_big_endian_changes() {
    let s = WaveSignal::from_be_changes(vec![0, 5], vec![vec![0x00, 0x10, 0x00, 0x84], vec![0x01, 0x00, 0x10, 0x00, 0x88]], 40)
        .unwrap();
    assert_eq!(s.values, vec![0x00100084, 0x00100088]);
    assert_eq!(s.width, 32);
    assert!(WaveSignal::from_be_changes(vec![0], vec![vec![0x01, 0x00]], 8).is_none());
    assert!(WaveSignal::from_be_changes(vec![0, 1], vec![vec![1]], 8).is_none());
}
