use std::sync::Arc;

use sndcore::blocks::block::Block;
use sndcore::blocks::sequence::BlockSequence;
use sndcore::console::Ptype;
use sndcore::dsp::linear_resample;
use sndcore::edit::ctx::Ctx;
use sndcore::edit::{amp, channels, delete, fx, paste, sample_rates, util, Editor};
use sndcore::player::{Cmd, Driver, OutMsg, Player};
use sndcore::snd::Snd;
use sndcore::util::fx::{Fx, FX_SCALE};
use sndcore::snd::InterLeaved;

fn chan(v: Vec<i64>) -> BlockSequence {
    BlockSequence::from_block(Block::data(v))
}

fn mono(v: Vec<i64>) -> Arc<Snd> {
    Arc::new(Snd::new(100, vec![chan(v)]))
}

fn ctx_of(v: Vec<i64>) -> Ctx {
    Ctx::from_snd(mono(v))
}

fn select(ctx: &mut Ctx, cursor: i64, selection: i64) {
    ctx.cursor = Some(Fx::from_int(cursor));
    ctx.selection = Some(Fx::from_int(selection));
}

fn channel_samples(ctx: &Ctx, n: usize) -> Vec<i64> {
    let c = ctx.snd.channel(n).unwrap();
    c.samples(0, c.len())
}

#[test]
fn interleaved_pads_short_channels() {
    let snd = Snd::new(8, vec![chan(vec![1, 2, 3]), chan(vec![4])]);
    assert_eq!(snd.len(), 3);
    assert_eq!(snd.interleaved_audio(), vec![1, 4, 2, 0, 3, 0]);
}

#[test]
fn flip_keeps_or_drops_the_cursor() {
    let shorter = mono((0..10).collect());

    // A cursor at or below the new length survives.
    let mut c1 = ctx_of((0..20).collect());
    c1.cursor = Some(Fx::from_int(5));
    let f1 = c1.flip(shorter.clone());
    assert_eq!(f1.cursor.unwrap().as_micros(), 5_000_000);

    // Without a selection, a cursor beyond the new length goes away.
    let mut c2 = ctx_of((0..20).collect());
    c2.cursor = Some(Fx::from_int(15));
    let f2 = c2.flip(shorter.clone());
    assert!(f2.cursor.is_none());

    // With a selection, the cursor clamps and the selection re-fits.
    let mut c3 = ctx_of((0..20).collect());
    select(&mut c3, 15, 4);
    let f3 = c3.flip(shorter.clone());
    assert_eq!(f3.cursor.unwrap().as_micros(), 10_000_000);
    assert_eq!(f3.selection.unwrap().as_micros(), 0);

    // A negative selection clamps so the span stays inside the sound.
    let mut c4 = ctx_of((0..20).collect());
    select(&mut c4, 16, -12);
    let f4 = c4.flip(shorter);
    assert_eq!(f4.cursor.unwrap().as_micros(), 10_000_000);
    assert_eq!(f4.selection.unwrap().as_micros(), -10_000_000);
}

#[test]
fn gain_uses_floor_division() {
    let mut c = ctx_of(vec![2, 4, -6, -7]);
    select(&mut c, 0, 4);
    let g = amp::gain(&c, 1, 2);
    assert_eq!(channel_samples(&g, 0), vec![1, 2, -3, -4]);
}

#[test]
fn gain_touches_only_the_selection() {
    let mut c = ctx_of(vec![10, 10, 10, 10]);
    select(&mut c, 1, 2);
    let g = amp::gain(&c, 3, 1);
    assert_eq!(channel_samples(&g, 0), vec![10, 30, 30, 10]);
}

#[test]
fn lin_fade_walks_the_factor() {
    let mut c = ctx_of(vec![1000, 1000, 1000, 1000]);
    select(&mut c, 0, 4);
    let g = amp::lin_fade(&c, 0, 400, 100);
    assert_eq!(channel_samples(&g, 0), vec![0, 1000, 2000, 3000]);
}

#[test]
fn normalize_scales_to_the_peak() {
    let mut c = ctx_of(vec![2, -8, 4]);
    select(&mut c, 0, 3);
    let g = amp::normalize(&c, Some(16));
    assert_eq!(channel_samples(&g, 0), vec![4, -16, 8]);

    // A silent selection stays silent.
    let mut z = ctx_of(vec![0, 0]);
    select(&mut z, 0, 2);
    let gz = amp::normalize(&z, None);
    assert_eq!(channel_samples(&gz, 0), vec![0, 0]);
}

#[test]
fn reverse_flips_the_selection() {
    let mut c = ctx_of(vec![1, 2, 3, 4, 5]);
    select(&mut c, 1, 3);
    let g = fx::reverse(&c);
    assert_eq!(channel_samples(&g, 0), vec![1, 4, 3, 2, 5]);
}

#[test]
fn remove_selected_moves_the_cursor() {
    let mut c = ctx_of((0..10).collect());
    select(&mut c, 3, 4);
    let g = delete::remove_selected(&c).unwrap();
    assert_eq!(channel_samples(&g, 0), vec![0, 1, 2, 7, 8, 9]);
    assert_eq!(g.cursor.unwrap().as_micros(), 3_000_000);
    assert!(g.selection.is_none());

    let plain = ctx_of((0..4).collect());
    assert!(delete::remove_selected(&plain).is_none());
}

#[test]
fn remove_non_selected_crops() {
    let mut c = ctx_of((0..10).collect());
    select(&mut c, 3, 4);
    let g = delete::remove_non_selected(&c).unwrap();
    assert_eq!(channel_samples(&g, 0), vec![3, 4, 5, 6]);
    assert!(g.cursor.is_none());
}

#[test]
fn solo_and_channel_edits() {
    let snd = Arc::new(Snd::new(100, vec![chan(vec![1, 2]), chan(vec![3, 4]), chan(vec![5, 6])]));
    let c = Ctx::from_snd(snd);

    let soloed = channels::solo(&c, 1);
    assert_eq!(soloed.snd.channels(), 1);
    assert_eq!(channel_samples(&soloed, 0), vec![3, 4]);
    assert!(soloed.channels.is_on(0));
    assert!(!soloed.channels.is_on(1));

    let dropped = channels::delete(&c, 1);
    assert_eq!(dropped.snd.channels(), 2);
    assert_eq!(channel_samples(&dropped, 0), vec![1, 2]);
    assert_eq!(channel_samples(&dropped, 1), vec![5, 6]);

    let grown = channels::insert(&c);
    assert_eq!(grown.snd.channels(), 4);
    assert_eq!(channel_samples(&grown, 3), vec![0, 0]);
}

#[test]
fn paste_replaces_the_selection() {
    let mut c = ctx_of((0..8).collect());
    select(&mut c, 2, 3);
    let insert = mono(vec![90, 91]);
    let g = paste::insert_or_replace(&c, &insert);
    assert_eq!(channel_samples(&g, 0), vec![0, 1, 90, 91, 5, 6, 7]);
    assert_eq!(g.cursor.unwrap().as_micros(), 2_000_000);
    assert_eq!(g.selection.unwrap().as_micros(), 2_000_000);
}

#[test]
fn paste_inserts_at_the_cursor() {
    let mut c = ctx_of((0..4).collect());
    c.cursor = Some(Fx::from_int(2));
    let insert = mono(vec![90]);
    let g = paste::insert_or_replace(&c, &insert);
    assert_eq!(channel_samples(&g, 0), vec![0, 1, 90, 2, 3]);

    // Without a cursor the sound is appended.
    let c2 = ctx_of(vec![5, 6]);
    let g2 = paste::insert_or_replace(&c2, &mono(vec![7]));
    assert_eq!(channel_samples(&g2, 0), vec![5, 6, 7]);
}

#[test]
fn mix_in_adds_scaled_sources() {
    let mut c = ctx_of(vec![10, 10, 10, 10]);
    select(&mut c, 1, 2);
    let src = mono(vec![100, 200, 300]);
    let g = paste::mix_in(&c, &src, 1, 2, 1);
    // Target samples double, the source joins from its start.
    assert_eq!(channel_samples(&g, 0), vec![10, 120, 220, 10]);
}

#[test]
fn multichannel_insert_pads_and_reuses_channels() {
    let snd = Arc::new(Snd::new(100, vec![chan(vec![1, 2]), chan(vec![3, 4])]));
    let c = Ctx::from_snd(snd);
    let ins = Arc::new(Snd::new(100, vec![chan(vec![9])]));
    let out = util::insert_multichannel(&c, &ins, Fx::from_int(1));
    let oc = Ctx::from_snd(Arc::new(out));
    assert_eq!(channel_samples(&oc, 0), vec![1, 9, 2]);
    assert_eq!(channel_samples(&oc, 1), vec![3, 9, 4]);
}

#[test]
fn linear_resample_identity_ratio() {
    let src: Vec<i64> = vec![0, 10, 20, 30];
    let out = linear_resample(&src, 1, 1);
    assert_eq!(out, vec![0, 10, 20]);
}

#[test]
fn linear_resample_upsamples_by_interpolation() {
    let src: Vec<i64> = vec![0, 10, 20, 30];
    let out = linear_resample(&src, 1, 2);
    assert_eq!(out, vec![0, 5, 10, 15, 20, 25]);
}

#[test]
fn resample_changes_the_rate() {
    let c = ctx_of(vec![0, 10, 20, 30]);
    let g = sample_rates::resample(&c, 200);
    assert_eq!(g.snd.sample_rate(), 200);
    assert_eq!(channel_samples(&g, 0), vec![0, 5, 10, 15, 20, 25]);
}

#[test]
fn pitch_shifts_the_selection() {
    let mut c = ctx_of(vec![7, 0, 10, 20, 30, 8]);
    select(&mut c, 1, 4);
    let g = sample_rates::pitch(&c, 2, 1);
    // The selected span resamples at double speed and shrinks to match.
    assert_eq!(channel_samples(&g, 0), vec![7, 0, 20, 8]);
    assert_eq!(g.selection.unwrap().as_micros(), 2_000_000);
}

#[test]
fn player_stops_at_the_region_end() {
    let n = 5u64;
    let snd = mono((0..5).collect());
    let mut p = Player::new(1, snd, 100, 0, n, 0, false);
    let mut frame: Vec<i64> = vec![0];
    for k in 0..(n - 1) {
        assert_eq!(p.play_pos() as u64, k);
        let cont = p.tick(&mut frame);
        assert_eq!(frame[0], k as i64, "unit ratio plays samples straight");
        assert!(cont, "tick {} continues", k);
    }
    assert_eq!(p.play_pos() as u64, n - 1, "the last continuing tick reports the last frame");
    let cont = p.tick(&mut frame);
    assert!(!cont, "the {}-th tick stops", n);
}

#[test]
fn player_loop_wraps_exactly() {
    let snd = mono((0..5).collect());
    let mut p = Player::new(1, snd, 100, 2, 5, 2, true);
    let mut frame: Vec<i64> = vec![0];
    assert!(p.tick(&mut frame));
    assert!(p.tick(&mut frame));
    assert_eq!(p.play_pos(), 4);
    // The next tick crosses the end and wraps back by the region length.
    assert!(p.tick(&mut frame));
    assert_eq!(p.play_pos(), 2, "the head wraps to head - end + start");
}

#[test]
fn player_interpolates_between_frames() {
    let snd = mono(vec![0, 100]);
    // Half-speed playback: the head advances half a frame per tick.
    let mut p = Player::new(1, snd, 200, 0, 2, 0, false);
    let mut frame: Vec<i64> = vec![0];
    p.tick(&mut frame);
    assert_eq!(frame[0], 0);
    p.tick(&mut frame);
    assert_eq!(frame[0], 50, "halfway between the two samples");
}

#[test]
fn player_replicates_the_last_channel() {
    let snd = Arc::new(Snd::new(100, vec![chan(vec![1, 2]), chan(vec![5, 6])]));
    let mut p = Player::new(1, snd, 100, 0, 2, 0, false);
    let mut frame: Vec<i64> = vec![0, 0, 0];
    p.tick(&mut frame);
    assert_eq!(frame, vec![1, 5, 5], "extra device channels copy the last source channel");
}

#[test]
fn driver_state_machine() {
    let snd = mono((0..4).collect());
    let mut d = Driver::new(100);

    // Idle periods render silence and say nothing.
    let (buf, msg) = d.render_period(3, 2);
    assert_eq!(buf, vec![0, 0, 0, 0, 0, 0]);
    assert!(msg.is_none());

    // Play, then a period reports the position.
    let m = d.handle_cmd(Cmd::Play(7, snd.clone(), 0, 4, 0, false));
    assert!(m.is_none());
    let (_, msg) = d.render_period(2, 1);
    match msg {
        Some(OutMsg::Playback(id, pos)) => {
            assert_eq!(id, 7);
            assert_eq!(pos, 2);
        },
        other => panic!("expected a position update, got {:?}", other.is_some()),
    }

    // A play command for another target stops the first.
    let m = d.handle_cmd(Cmd::Play(9, snd.clone(), 0, 4, 0, false));
    match m {
        Some(OutMsg::Stop(id)) => assert_eq!(id, 7),
        _ => panic!("expected a stop notice for the replaced playback"),
    }

    // Stopping the active playback emits its stop notice.
    let m = d.handle_cmd(Cmd::Stop(9));
    match m {
        Some(OutMsg::Stop(id)) => assert_eq!(id, 9),
        _ => panic!("expected a stop notice"),
    }

    // Finishing naturally also reports a stop.
    d.handle_cmd(Cmd::Play(3, snd, 0, 2, 0, false));
    let (_, msg) = d.render_period(8, 1);
    match msg {
        Some(OutMsg::Stop(id)) => assert_eq!(id, 3),
        _ => panic!("expected the playback to finish"),
    }
}

#[test]
fn editor_session_flow() {
    let snd = mono((0..6).collect());
    let mut ed = Editor::new(snd, Some(String::from("take.wav")));
    assert!(ed.dirty());
    assert_eq!(ed.path(), Some("take.wav"));

    ed.clean_up();
    assert!(!ed.dirty());

    // Push an edit, then undo back to the bottom snapshot.
    let g = amp::gain(ed.ctx(), 2, 1);
    ed.push_new(g);
    assert!(ed.dirty());
    assert_eq!(channel_samples(ed.ctx(), 0), vec![0, 2, 4, 6, 8, 10]);
    ed.undo();
    assert_eq!(channel_samples(ed.ctx(), 0), vec![0, 1, 2, 3, 4, 5]);
    // Undoing at the bottom changes nothing.
    ed.undo();
    assert_eq!(channel_samples(ed.ctx(), 0), vec![0, 1, 2, 3, 4, 5]);

    ed.print_nfo(String::from("hello"));
    ed.print_err(String::from("bad"));
    let lines = ed.con_txt();
    assert_eq!(lines.len(), 2);
    assert_eq!(lines[0].text(), "hello");
    assert!(!lines[0].is_err());
    assert_eq!(lines[1].text(), "bad");
    assert!(lines[1].is_err());
    ed.clear_console();
    assert!(ed.con_txt().is_empty());

    ed.set_path(None);
    assert!(ed.path().is_none());
}

#[test]
fn playback_settings_follow_the_selection() {
    let snd = mono((0..6).collect());
    let mut ed = Editor::new(snd, None);
    let (_, s, e, head, lp) = ed.playback_settings();
    assert_eq!(s.as_micros(), 0);
    assert_eq!(e.as_micros(), 6_000_000);
    assert_eq!(head.as_micros(), 0);
    assert!(!lp);

    select(ed.ctx_mut(), 4, -2);
    let (_, s, e, head, _) = ed.playback_settings();
    assert_eq!(s.as_micros(), 2_000_000);
    assert_eq!(e.as_micros(), 4_000_000);
    assert_eq!(head.as_micros(), 2_000_000);
}

#[test]
fn editing_shares_untouched_blocks() {
    // An edit on channel 0 must leave channel 1 as the same handle-level
    // sequence (same block layout), not a rebuilt copy.
    let snd = Arc::new(Snd::new(100, vec![chan((0..8).collect()), chan((10..18).collect())]));
    let mut c = Ctx::from_snd(snd);
    c.channels = sndcore::util::channel_mask::Mask::from_bits(0b01);
    select(&mut c, 2, 3);
    let g = amp::gain(&c, 2, 1);
    assert_eq!(channel_samples(&g, 0), vec![0, 1, 4, 6, 8, 5, 6, 7]);
    assert_eq!(channel_samples(&g, 1), (10..18).collect::<Vec<i64>>());
    assert_eq!(g.snd.channel(1).unwrap().blocks_len(), 1);
}

#[test]
fn interleaved_stepper_walks_round_robin() {
    let snd = Snd::new(8, vec![chan(vec![1, 2]), chan(vec![4])]);
    let mut it = InterLeaved::new(&snd);
    let mut got: Vec<i64> = vec![];
    while let Some(v) = it.next() {
        got.push(v);
    }
    assert_eq!(got, vec![1, 4, 2, 0]);
    assert!(it.next().is_none());
}

#[test]
fn copy_takes_active_selections() {
    let snd = Arc::new(Snd::new(100, vec![chan((0..6).collect()), chan((10..16).collect())]));
    let mut c = Ctx::from_snd(snd);
    c.channels = sndcore::util::channel_mask::Mask::from_bits(0b10);
    select(&mut c, 1, 3);
    let copied = c.copy();
    assert_eq!(copied.channels(), 1);
    let ch0 = copied.channel(0).unwrap();
    assert_eq!(ch0.samples(0, ch0.len()), vec![11, 12, 13]);
}

#[test]
fn click_and_drag_select_in_window_fractions() {
    let mut c = ctx_of((0..10).collect());
    // A click halfway through the full-view window lands on frame 5.
    c.default_click(Fx::from_micros(FX_SCALE / 2));
    assert_eq!(c.cursor.unwrap().as_micros(), 5_000_000);
    assert!(c.selection.is_none());

    // Dragging to 80% selects from the cursor to frame 8.
    c.default_drag(Fx::from_micros(FX_SCALE * 8 / 10));
    assert_eq!(c.selection.unwrap().as_micros(), 3_000_000);

    // Dragging back within one frame of the cursor clears the selection.
    c.default_drag(Fx::from_micros(FX_SCALE / 2));
    assert!(c.selection.is_none());
}

#[test]
fn pitch_with_negative_selection_moves_the_cursor() {
    let mut c = ctx_of(vec![7, 0, 10, 20, 30, 8]);
    // Cursor at the selection's far edge, selecting backwards over [1, 5).
    select(&mut c, 5, -4);
    let g = sample_rates::pitch(&c, 2, 1);
    assert_eq!(channel_samples(&g, 0), vec![7, 0, 20, 8]);
    // The cursor lands at the shifted span's far edge, selecting back.
    assert_eq!(g.cursor.unwrap().as_micros(), 3_000_000);
    assert_eq!(g.selection.unwrap().as_micros(), -2_000_000);
}

#[test]
fn undo_restores_the_previous_snapshot() {
    let snd = mono((0..4).collect());
    let mut ed = Editor::new(snd, None);
    let g1 = amp::gain(ed.ctx(), 2, 1);
    ed.push_new(g1);
    let g2 = amp::gain(ed.ctx(), 3, 1);
    ed.push_new(g2);
    assert_eq!(channel_samples(ed.ctx(), 0), vec![0, 6, 12, 18]);
    // Undo discards exactly the most recent snapshot.
    ed.undo();
    assert_eq!(channel_samples(ed.ctx(), 0), vec![0, 2, 4, 6]);
    ed.undo();
    assert_eq!(channel_samples(ed.ctx(), 0), vec![0, 1, 2, 3]);
}

#[test]
fn summary_normalises_inverted_ranges() {
    let seq = chan(vec![5, -3, 8, 1]);
    assert_eq!(seq.summary(3, 1), seq.summary(1, 3));
    assert_eq!(seq.summary(3, 1), (-3, 8));
}

#[test]
fn channel_edits_revalidate_the_cursor() {
    // Soloing an empty-length channel set drops an out-of-range cursor.
    let snd = Arc::new(Snd::new(100, vec![chan(vec![1, 2, 3, 4]), chan(vec![5, 6])]));
    let mut c = Ctx::from_snd(snd);
    c.cursor = Some(Fx::from_int(4));
    let soloed = channels::solo(&c, 1);
    // The new sound is 2 frames long, so the lone cursor goes away.
    assert!(soloed.cursor.is_none());
}

#[test]
fn render_period_streams_the_ticked_frames() {
    let snd = mono(vec![10, 20, 30]);
    let mut d = Driver::new(100);
    d.handle_cmd(Cmd::Play(5, snd, 0, 3, 0, false));
    // Unit ratio: the three ticks play the samples straight, then the
    // period is padded with silence after the stop.
    let (buf, msg) = d.render_period(5, 1);
    assert_eq!(buf, vec![10, 20, 30, 0, 0]);
    match msg {
        Some(OutMsg::Stop(id)) => assert_eq!(id, 5),
        _ => panic!("expected the playback to finish in this period"),
    }
}
