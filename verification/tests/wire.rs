use polyrhythm::track::{emit_track, MidiTempo, TrackEvent, TrackEventKind};
use polyrhythm::time::TimeSignature;
use polyrhythm::pattern::BasicLength::Fourth;
use polyrhythm::event::{Event, EventType, Part};
use polyrhythm::tick::Tick;
use polyrhythm::wire::{to_u15, to_u24, to_u28, to_u4, to_u7};

#[test]
fn channel_numbers_keep_four_bits() {
    assert_eq!(to_u4(9), 9);
    assert_eq!(to_u4(15), 15);
    assert_eq!(to_u4(16), 0);
    assert_eq!(to_u4(0xfa), 0x0a);
}

#[test]
fn keys_keep_seven_bits() {
    assert_eq!(to_u7(36), 36);
    assert_eq!(to_u7(127), 127);
    assert_eq!(to_u7(128), 0);
    assert_eq!(to_u7(200), 72);
}

#[test]
fn ticks_per_beat_keep_fifteen_bits() {
    assert_eq!(to_u15(48), 48);
    assert_eq!(to_u15(0x7fff), 0x7fff);
    assert_eq!(to_u15(0x8000), 0);
    assert_eq!(to_u15(0xffff), 0x7fff);
}

#[test]
fn tempos_keep_twenty_four_bits() {
    assert_eq!(to_u24(500000), 500000);
    assert_eq!(to_u24(0x00ff_ffff), 0x00ff_ffff);
    assert_eq!(to_u24(0x0100_0000), 0);
    assert_eq!(to_u24(60000000), 9668352);
}

#[test]
fn deltas_keep_twenty_eight_bits() {
    assert_eq!(to_u28(96), 96);
    assert_eq!(to_u28(0x0fff_ffff), 0x0fff_ffff);
    assert_eq!(to_u28(0x1000_0000), 0);
    assert_eq!(to_u28(u32::MAX), 0x0fff_ffff);
}

#[test]
fn a_wide_tempo_is_cut_in_the_track() {
    let events = vec![Event { tick: Tick(0), event_type: EventType::NoteOn(Part::KickDrum) }];
    let meter = TimeSignature { numerator: 4, denominator: Fourth };
    let track = emit_track(events, meter, MidiTempo(0x0100_0005)).unwrap();
    assert_eq!(track[5], TrackEvent { delta: 0, kind: TrackEventKind::Tempo(5) });
    assert_eq!(track.len(), 9);
}

#[test]
fn a_long_gap_is_cut_in_the_track() {
    let events = vec![
        Event { tick: Tick(7), event_type: EventType::NoteOn(Part::HiHat) },
        Event { tick: Tick(7 + (1u128 << 28) + 3), event_type: EventType::NoteOff(Part::HiHat) },
    ];
    let meter = TimeSignature { numerator: 4, denominator: Fourth };
    let track = emit_track(events, meter, MidiTempo(500000)).unwrap();
    assert_eq!(track[7], TrackEvent { delta: 7, kind: TrackEventKind::NoteOn { channel: 10, key: 46, vel: 127 } });
    assert_eq!(track[8], TrackEvent { delta: 3, kind: TrackEventKind::NoteOff { channel: 10, key: 46, vel: 127 } });
    assert_eq!(track[9], TrackEvent { delta: 3, kind: TrackEventKind::EndOfTrack });
}
