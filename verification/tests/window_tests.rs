use virtual_surround::window::SlidingWindow;

/// Interleaves per-channel frames `start..start + frames` into one chunk,
/// giving channel `c` of frame `s` the value `(s * 10 + c)`.
fn chunk(channels: usize, start: usize, frames: usize) -> Vec<f32> {
    let mut v: Vec<f32> = Vec::new();
    for s in start..start + frames {
        for c in 0..channels {
            v.push((s * 10 + c) as f32);
        }
    }
    v
}

fn window_of(w: &SlidingWindow<f32>, c: usize, capacity: usize) -> Vec<f32> {
    let mut dest: Vec<f32> = vec![0.0; capacity];
    w.copy_channel_into(c, &mut dest);
    dest
}

#[test]
fn window_fills_and_deinterleaves() {
    let mut w: SlidingWindow<f32> = SlidingWindow::new(2, 4, 2, 0.0);
    assert_eq!(w.available(), 0);
    assert!(!w.ready());
    w.feed(&chunk(2, 0, 3));
    assert_eq!(w.available(), 3);
    assert!(!w.ready());
    w.feed(&chunk(2, 3, 1));
    assert_eq!(w.available(), 4);
    assert!(w.ready());
    assert_eq!(window_of(&w, 0, 4), vec![0.0, 10.0, 20.0, 30.0]);
    assert_eq!(window_of(&w, 1, 4), vec![1.0, 11.0, 21.0, 31.0]);
}

#[test]
fn window_drops_oldest_on_overflow() {
    let mut w: SlidingWindow<f32> = SlidingWindow::new(2, 4, 2, 0.0);
    w.feed(&chunk(2, 0, 4));
    assert!(w.ready());
    // Two more frames than fit: the two oldest leave from every channel.
    w.feed(&chunk(2, 4, 2));
    assert!(w.ready());
    assert_eq!(window_of(&w, 0, 4), vec![20.0, 30.0, 40.0, 50.0]);
    assert_eq!(window_of(&w, 1, 4), vec![21.0, 31.0, 41.0, 51.0]);
}

#[test]
fn window_ignores_a_trailing_partial_frame() {
    let mut w: SlidingWindow<f32> = SlidingWindow::new(2, 4, 2, 0.0);
    let mut input = chunk(2, 0, 1);
    input.push(77.0);
    w.feed(&input);
    assert_eq!(w.available(), 1);
}

#[test]
fn advance_retains_the_carry_over_history() {
    let mut w: SlidingWindow<f32> = SlidingWindow::new(1, 4, 3, 0.0);
    w.feed(&chunk(1, 0, 4));
    assert!(w.ready());
    w.advance();
    assert_eq!(w.available(), 1);
    w.feed(&chunk(1, 4, 3));
    assert!(w.ready());
    assert_eq!(window_of(&w, 0, 4), vec![30.0, 40.0, 50.0, 60.0]);
}

#[test]
fn no_output_during_the_fill_phase() {
    // The synthetic stereo layout of an 8-sample HRIR: 1024-sample windows,
    // 512-sample blocks. Nothing is ready until a full window accumulated,
    // so every call in the first 512 samples (and beyond, up to 1023)
    // produces no output.
    let mut w: SlidingWindow<f32> = SlidingWindow::new(2, 1024, 512, 0.0);
    let mut fed: usize = 0;
    for _ in 0..7 {
        w.feed(&vec![0.25; 146 * 2]);
        fed += 146;
        assert_eq!(w.available(), fed);
        assert!(!w.ready());
    }
    // 7 * 146 == 1022 samples so far; two more complete the window.
    w.feed(&vec![0.25; 2 * 2]);
    assert!(w.ready());
}

#[test]
fn one_block_in_one_block_out_in_steady_state() {
    let mut w: SlidingWindow<f32> = SlidingWindow::new(2, 8, 2, 0.0);
    w.feed(&chunk(2, 0, 8));
    let mut emitted: usize = 0;
    let mut next: usize = 8;
    while emitted < 5 {
        assert!(w.ready());
        w.advance();
        emitted += 1;
        assert!(!w.ready());
        // Exactly one block of input restores readiness.
        w.feed(&chunk(2, next, 2));
        next += 2;
        assert!(w.ready());
    }
}

#[test]
fn streaming_is_deterministic_over_chunking() {
    // Feeding frame by frame against feeding four frames at a time: the
    // sequence of full windows handed to the transform is identical.
    let channels: usize = 2;
    let capacity: usize = 8;
    let block: usize = 4;
    let total: usize = 40;

    let run = |chunk_frames: usize| -> Vec<Vec<f32>> {
        let mut w: SlidingWindow<f32> = SlidingWindow::new(channels, capacity, block, 0.0);
        let mut outputs: Vec<Vec<f32>> = Vec::new();
        let mut start: usize = 0;
        while start < total {
            w.feed(&chunk(channels, start, chunk_frames));
            start += chunk_frames;
            if w.ready() {
                for c in 0..channels {
                    outputs.push(window_of(&w, c, capacity));
                }
                w.advance();
            }
        }
        outputs
    };

    let one_by_one = run(1);
    let four_at_a_time = run(4);
    assert_eq!(one_by_one, four_at_a_time);
}
