use glicol_cli::control::{ControlKey, ControlState, ExitStatus};
use glicol_cli::driver::{engine_diagnostic, CallbackPlan, EngineDiagnostic, StreamDriver};
use glicol_cli::hotswap::{CodeChannel, PollOutcome};
use glicol_cli::monitor::{clamped_ratio_milli, load_ratio_milli, MonitorRing};
use glicol_cli::rb::RingBuffer;
use glicol_cli::reassembly::{Reassembler, StereoBlock};
use glicol_cli::silence;

/// One engine block of `len` frames: the left channel counts up from
/// `start`, the right channel mirrors it offset by 1000.
fn block(start: u32, len: usize) -> StereoBlock {
    let left: Vec<u32> = (start..start + len as u32).collect();
    let right: Vec<u32> = left.iter().map(|v| v + 1000).collect();
    StereoBlock { left, right }
}

/// A block source that hands out consecutive blocks of the counting stream.
struct CountingEngine {
    next: u32,
    block_len: usize,
}

impl CountingEngine {
    fn new(block_len: usize) -> CountingEngine {
        CountingEngine { next: 0, block_len }
    }

    fn produce(&mut self, count: usize) -> Vec<StereoBlock> {
        let mut blocks = Vec::new();
        for _ in 0..count {
            blocks.push(block(self.next, self.block_len));
            self.next += self.block_len as u32;
        }
        blocks
    }
}

#[test]
fn single_request_spanning_blocks() {
    // block_len = 128, one request of 300 frames: exactly 3 blocks are
    // consumed (128 + 128 + 44) and 84 frames stay carried for later.
    let mut reasm = Reassembler::new(128);
    let mut engine = CountingEngine::new(128);

    let needed = reasm.blocks_needed(300);
    assert_eq!(needed, 3);

    let blocks = engine.produce(needed);
    let out = reasm.fill_request(300, &blocks);

    assert_eq!(out.len(), 600);
    for f in 0..300u32 {
        assert_eq!(out[2 * f as usize], f);
        assert_eq!(out[2 * f as usize + 1], f + 1000);
    }
    assert_eq!(reasm.carry_remaining(), 84);

    // the carried frames come out first on the next request
    let needed = reasm.blocks_needed(10);
    assert_eq!(needed, 0);
    let out = reasm.fill_request(10, &Vec::new());
    assert_eq!(out[0], 300);
    assert_eq!(out[1], 1300);
}

#[test]
fn chunking_does_not_change_the_stream() {
    // the same engine stream served in different request sizes gives the
    // same concatenated output
    let chunkings: [&[usize]; 3] = [&[3, 5, 9, 7], &[24], &[1, 1, 1, 21]];
    let mut outputs: Vec<Vec<u32>> = Vec::new();
    for sizes in chunkings {
        let mut reasm = Reassembler::new(4);
        let mut engine = CountingEngine::new(4);
        let mut all = Vec::new();
        for &frames in sizes {
            let blocks = engine.produce(reasm.blocks_needed(frames));
            all.extend(reasm.fill_request(frames, &blocks));
        }
        outputs.push(all);
    }
    assert_eq!(outputs[0], outputs[1]);
    assert_eq!(outputs[1], outputs[2]);
}

#[test]
fn request_smaller_than_carry() {
    let mut reasm = Reassembler::new(8);
    let mut engine = CountingEngine::new(8);

    // pull one block, take 2 frames, leaving 6 carried
    let blocks = engine.produce(reasm.blocks_needed(2));
    assert_eq!(blocks.len(), 1);
    let out = reasm.fill_request(2, &blocks);
    assert_eq!(out, vec![0, 1000, 1, 1001]);
    assert_eq!(reasm.carry_remaining(), 6);

    // a request smaller than the carry consumes no block
    assert_eq!(reasm.blocks_needed(3), 0);
    let out = reasm.fill_request(3, &Vec::new());
    assert_eq!(out, vec![2, 1002, 3, 1003, 4, 1004]);
    assert_eq!(reasm.carry_remaining(), 3);
}

#[test]
fn monitor_keeps_most_recent_newest_first() {
    // capacity 4, write 1..=6: reading back yields [6, 5, 4, 3]
    let mut ring = MonitorRing::new(4);
    for v in 1..=6 {
        ring.write(v);
    }
    assert_eq!(ring.read_recent(), vec![6, 5, 4, 3]);
}

#[test]
fn monitor_pads_with_silence_before_wrap() {
    let mut ring = MonitorRing::new(4);
    ring.write(7);
    ring.write(8);
    assert_eq!(ring.read_recent(), vec![8, 7, 0, 0]);
}

#[test]
fn paused_requests_are_silent_and_lose_nothing() {
    let mut driver = StreamDriver::new(4, 8);
    let mut engine = CountingEngine::new(4);

    // produce 3 frames while running
    let blocks = engine.produce(driver.reasm.blocks_needed(3));
    let out = driver.handle_request(false, 3, &blocks);
    assert_eq!(out, vec![0, 1000, 1, 1001, 2, 1002]);

    // paused requests: all zeros, nothing consumed, monitor untouched
    for _ in 0..3 {
        let out = driver.handle_request(true, 5, &Vec::new());
        assert_eq!(out, silence(10));
    }
    assert_eq!(driver.reasm.carry_remaining(), 1);

    // resuming continues exactly where production left off
    let blocks = engine.produce(driver.reasm.blocks_needed(2));
    let out = driver.handle_request(false, 2, &blocks);
    assert_eq!(out, vec![3, 1003, 4, 1004]);
}

#[test]
fn monitor_mirrors_delivered_samples() {
    let mut driver = StreamDriver::new(4, 4);
    let mut engine = CountingEngine::new(4);
    let blocks = engine.produce(driver.reasm.blocks_needed(6));
    driver.handle_request(false, 6, &blocks);
    assert_eq!(driver.mon_left.read_recent(), vec![5, 4, 3, 2]);
    assert_eq!(driver.mon_right.read_recent(), vec![1005, 1004, 1003, 1002]);
}

#[test]
fn plan_follows_poll_and_pause() {
    let driver = StreamDriver::new(128, 200);

    match driver.plan_callback(PollOutcome::SenderGone, false, 300) {
        CallbackPlan::Abort => {}
        _ => panic!("a lost sender must abort"),
    }

    match driver.plan_callback(PollOutcome::Apply("o: sin 440".to_string()), true, 300) {
        CallbackPlan::Silence { apply } => assert_eq!(apply.as_deref(), Some("o: sin 440")),
        _ => panic!("paused must silence"),
    }

    match driver.plan_callback(PollOutcome::NoUpdate, false, 300) {
        CallbackPlan::Produce {
            apply,
            blocks_needed,
        } => {
            assert!(apply.is_none());
            assert_eq!(blocks_needed, 3);
        }
        _ => panic!("running must produce"),
    }
}

#[test]
fn latest_update_wins() {
    // two updates between two consecutive callbacks: the poll observes the
    // second; the first is never seen
    let mut channel = CodeChannel::new();
    channel.send("first".to_string());
    channel.send("second".to_string());
    match channel.poll() {
        PollOutcome::Apply(code) => assert_eq!(code, "second"),
        _ => panic!("an update was pending"),
    }
    match channel.poll() {
        PollOutcome::NoUpdate => {}
        _ => panic!("nothing left pending"),
    }
    channel.disconnect();
    match channel.poll() {
        PollOutcome::SenderGone => {}
        _ => panic!("the sender is gone"),
    }
}

#[test]
fn updates_still_arrive_while_disconnect_pending() {
    // text sent before the sender went away is still delivered first
    let mut channel = CodeChannel::new();
    channel.send("last words".to_string());
    channel.disconnect();
    match channel.poll() {
        PollOutcome::Apply(code) => assert_eq!(code, "last words"),
        _ => panic!("the pending update comes before the disconnect"),
    }
    match channel.poll() {
        PollOutcome::SenderGone => {}
        _ => panic!("now the loss shows"),
    }
}

#[test]
fn pause_toggles_and_keys() {
    let mut state = ControlState::new();
    assert!(!state.paused);

    // toggling twice leaves the state as it was
    state.toggle_pause();
    assert!(state.paused);
    state.toggle_pause();
    assert!(!state.paused);

    assert_eq!(state.handle_key(ControlKey::TogglePause), None);
    assert!(state.paused);
    assert_eq!(state.handle_key(ControlKey::Other), None);
    assert!(state.paused);
    assert_eq!(
        state.handle_key(ControlKey::HideUi),
        Some(ExitStatus::KeepAudio)
    );
    assert_eq!(state.handle_key(ControlKey::Quit), Some(ExitStatus::ExitAll));
    assert!(state.paused);
}

#[test]
fn ring_buffer_is_first_in_first_out() {
    let mut rb = RingBuffer::new(4);
    assert_eq!(rb.pop(), None);
    rb.push(10);
    rb.push(20);
    assert_eq!(rb.pop(), Some(10));
    rb.push(30);
    assert_eq!(rb.pop(), Some(20));
    assert_eq!(rb.pop(), Some(30));
    assert_eq!(rb.pop(), None);
}

#[test]
fn ring_buffer_overrun_empties_the_queue() {
    // a fourth push into a 4-slot ring lets the write index catch the read
    // index: the backlog is lost and the queue shows as empty
    let mut rb = RingBuffer::new(4);
    rb.push(1);
    rb.push(2);
    rb.push(3);
    rb.push(4);
    assert_eq!(rb.pop(), None);
}

#[test]
fn load_meter_exact_and_clamped() {
    // 1 ms of work for 480 frames at 48 kHz (a 10 ms budget): 10% load
    assert_eq!(load_ratio_milli(1_000_000, 480, 48_000), 100);
    // 20 ms of work for the same budget: double the deadline
    assert_eq!(load_ratio_milli(20_000_000, 480, 48_000), 2000);
    assert_eq!(clamped_ratio_milli(2000), 1000);
    assert_eq!(clamped_ratio_milli(100), 100);
}

#[test]
fn engine_diagnostics_decode() {
    match engine_diagnostic(&[0, b'x']) {
        EngineDiagnostic::Quiet => {}
        _ => panic!("a clear flag byte is quiet"),
    }
    match engine_diagnostic(&[]) {
        EngineDiagnostic::Quiet => {}
        _ => panic!("an empty report is quiet"),
    }
    match engine_diagnostic(b"\x01bad node") {
        EngineDiagnostic::Message(msg) => assert_eq!(msg, "bad node"),
        _ => panic!("a flagged report carries its text"),
    }
    match engine_diagnostic(&[1, 0xFF]) {
        EngineDiagnostic::Undecodable => {}
        _ => panic!("invalid text is reported as such"),
    }
}

#[test]
fn silence_is_zeros() {
    let quiet = silence(5);
    assert_eq!(quiet, vec![0, 0, 0, 0, 0]);
}
