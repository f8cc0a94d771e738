use grey::throughput::{
    average_duration, confirm_step, settle_step, summarize_throughput, throughput_pixels,
    ConfirmStep, SettleStep, BATCH_SIZE,
};
use std::collections::HashSet;

#[test]
fn throughput_pixels_are_unique() {
    let pixels = throughput_pixels();
    assert_eq!(pixels.len(), BATCH_SIZE);

    let unique_positions: HashSet<(u8, u8)> = pixels.iter().map(|p| (p.x, p.y)).collect();
    assert_eq!(unique_positions.len(), pixels.len());
    assert!(pixels.iter().all(|p| (80..=81).contains(&p.y)));
}

#[test]
fn throughput_pixel_colours() {
    let pixels = throughput_pixels();
    assert_eq!((pixels[0].x, pixels[0].y, pixels[0].r, pixels[0].g, pixels[0].b), (5, 80, 16, 32, 48));
    // i = 11: r = 16 + 187, g = (32 + 319) mod 256, b = (48 + 473) mod 256.
    assert_eq!((pixels[11].x, pixels[11].y, pixels[11].r, pixels[11].g, pixels[11].b), (16, 81, 203, 95, 9));
}

#[test]
fn average_duration_rounds_down() {
    assert_eq!(average_duration(&[]), 0);
    assert_eq!(average_duration(&[3, 4]), 3);
    assert_eq!(average_duration(&[250_000_000, 750_000_000, 2_000_000_000]), 1_000_000_000);
}

#[test]
fn summarize_throughput_fields() {
    let stats = summarize_throughput(&[100, 300], &[1_000, 3_000, 2_000], 12_000, 7, 11);
    assert_eq!(stats.submitted, 3);
    assert_eq!(stats.total_window, 12_000);
    assert_eq!(stats.submit_rpc_avg, 200);
    assert_eq!(stats.confirm_avg, 2_000);
    assert_eq!(stats.confirm_max, 3_000);
    assert_eq!(stats.slots_elapsed, 4);
    let empty = summarize_throughput(&[], &[], 0, 9, 3);
    assert_eq!((empty.confirm_max, empty.confirm_avg, empty.slots_elapsed), (0, 0, 0));
}

#[test]
fn settle_step_decisions() {
    assert_eq!(settle_step(100, 95, true), SettleStep::Settled);
    assert_eq!(settle_step(100, 94, false), SettleStep::Wait);
    assert_eq!(settle_step(100, 94, true), SettleStep::TimedOut { lag: 6 });
    assert_eq!(settle_step(3, 10, true), SettleStep::Settled);
}

#[test]
fn confirm_step_decisions() {
    assert_eq!(confirm_step(true, true), ConfirmStep::TimedOut);
    assert_eq!(confirm_step(false, true), ConfirmStep::Confirmed);
    assert_eq!(confirm_step(false, false), ConfirmStep::Wait);
}
