use std::cell::Cell;
use synth_engine::frames::{render, write_frame};

#[test]
fn writing_a_mixed_value_fills_exactly_the_frame() {
    let mut buffer = [0.0f32, 1.0, 2.0, 3.0, 4.0, 5.0];
    write_frame(&mut buffer, 2, 4, Some(0.5));
    assert_eq!(buffer, [0.0, 1.0, 0.5, 0.5, 4.0, 5.0]);
}

#[test]
fn writing_a_skipped_mix_changes_nothing() {
    let mut buffer = [0.0f32, 1.0, 2.0, 3.0];
    write_frame(&mut buffer, 0, 4, None);
    assert_eq!(buffer, [0.0, 1.0, 2.0, 3.0]);
}

#[test]
fn writing_an_empty_frame_changes_nothing() {
    let mut buffer = [7i32, 8, 9];
    write_frame(&mut buffer, 1, 1, Some(0));
    assert_eq!(buffer, [7, 8, 9]);
    write_frame(&mut buffer, 3, 3, Some(0));
    assert_eq!(buffer, [7, 8, 9]);
}

#[test]
fn writing_the_whole_buffer_overwrites_every_sample() {
    let mut buffer = [1u8, 2, 3];
    write_frame(&mut buffer, 0, 3, Some(9));
    assert_eq!(buffer, [9, 9, 9]);
}

#[test]
fn every_channel_of_every_frame_gets_the_mixed_value() {
    let mut buffer = [9.0f32; 6];
    render(&mut buffer, 2, || Some(0.25f32));
    assert_eq!(buffer, [0.25; 6]);
}

#[test]
fn each_frame_gets_its_own_mix() {
    let calls = Cell::new(0u32);
    let mut buffer = [0u32; 6];
    render(&mut buffer, 2, || {
        calls.set(calls.get() + 1);
        Some(calls.get() * 10)
    });
    assert_eq!(buffer, [10, 10, 20, 20, 30, 30]);
    assert_eq!(calls.get(), 3);
}

#[test]
fn skipped_frames_keep_what_the_buffer_held() {
    let mut buffer = [1.0f32, 2.0, 3.0, 4.0];
    render(&mut buffer, 2, || None);
    assert_eq!(buffer, [1.0, 2.0, 3.0, 4.0]);
}

#[test]
fn a_skipped_frame_between_mixed_frames_is_left_alone() {
    let calls = Cell::new(0u32);
    let mut buffer = [1.0f32, 2.0, 3.0, 4.0, 5.0, 6.0];
    render(&mut buffer, 2, || {
        calls.set(calls.get() + 1);
        if calls.get() == 2 {
            None
        } else {
            Some(-0.5f32)
        }
    });
    assert_eq!(buffer, [-0.5, -0.5, 3.0, 4.0, -0.5, -0.5]);
}

#[test]
fn a_shorter_rest_forms_a_last_frame() {
    let calls = Cell::new(0i16);
    let mut buffer = [0i16; 5];
    render(&mut buffer, 2, || {
        calls.set(calls.get() + 1);
        Some(calls.get())
    });
    assert_eq!(buffer, [1, 1, 2, 2, 3]);
    assert_eq!(calls.get(), 3);
}

#[test]
fn more_channels_than_samples_make_one_frame() {
    let calls = Cell::new(0i16);
    let mut buffer = [0i16; 3];
    render(&mut buffer, 8, || {
        calls.set(calls.get() + 1);
        Some(calls.get())
    });
    assert_eq!(buffer, [1, 1, 1]);
    assert_eq!(calls.get(), 1);
}

#[test]
fn an_empty_buffer_is_never_mixed() {
    let calls = Cell::new(0u32);
    let mut buffer: [f32; 0] = [];
    render(&mut buffer, 2, || {
        calls.set(calls.get() + 1);
        Some(1.0f32)
    });
    assert_eq!(calls.get(), 0);
}

#[test]
fn mono_output_mixes_every_sample_on_its_own() {
    let calls = Cell::new(0u8);
    let mut buffer = [0u8; 4];
    render(&mut buffer, 1, || {
        calls.set(calls.get() + 1);
        Some(calls.get())
    });
    assert_eq!(buffer, [1, 2, 3, 4]);
}

#[test]
fn a_frame_as_wide_as_the_buffer_is_mixed_once() {
    let calls = Cell::new(0u32);
    let mut buffer = [0.0f64; 4];
    render(&mut buffer, 4, || {
        calls.set(calls.get() + 1);
        Some(0.125f64)
    });
    assert_eq!(buffer, [0.125; 4]);
    assert_eq!(calls.get(), 1);
}

#[test]
fn the_widest_frame_width_does_not_overflow() {
    let mut buffer = [0u8; 3];
    render(&mut buffer, usize::MAX, || Some(5u8));
    assert_eq!(buffer, [5, 5, 5]);
}

#[test]
fn rendering_into_a_vector_works_through_its_slice() {
    let mut buffer = vec![0.0f32; 8];
    render(&mut buffer, 4, || Some(1.0f32));
    assert_eq!(buffer, vec![1.0f32; 8]);
}
