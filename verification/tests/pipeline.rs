use polyrhythm::event::Event;
use polyrhythm::event::EventType::{NoteOff, NoteOn};
use polyrhythm::event::Part;
use polyrhythm::event::Part::{CrashCymbal, HiHat, KickDrum, SnareDrum};
use polyrhythm::flatten::{checked_flatten_group, checked_flatten_groups, flatten_group, flatten_groups};
use polyrhythm::grid::EventGrid;
use polyrhythm::merge::EventIterator;
use polyrhythm::pattern::BasicLength::{
    Eighth, Fourth, Half, Sixteenth, SixtyFourth, ThirtySecond, Whole,
};
use polyrhythm::pattern::GroupOrNote::{SingleGroup, SingleNote};
use polyrhythm::pattern::Length::{Simple, Tied, Triplet};
use polyrhythm::pattern::ModdedLength::{Dotted, Plain};
use polyrhythm::pattern::Note::{Hit, Rest};
use polyrhythm::pattern::{BasicLength, Group, GroupOrNote, Groups, Times};
use polyrhythm::plan::{
    checked_cycle_part, checked_flatten_and_merge, checked_length_limit, cycle_part,
    flatten_and_merge, length_limit, merged_events, Patterns,
};
use polyrhythm::tick::Tick;
use polyrhythm::time::{TimeSignature, BAR_LIMIT};
use polyrhythm::track::{
    create_smf, create_tracks, emit_track, note_event, Format, Header, MidiTempo, Timing,
    TrackError, TrackEvent, TrackEventKind, KIT_NAME,
};

fn notes(pattern: &str) -> Vec<GroupOrNote> {
    pattern
        .chars()
        .map(|c| if c == 'x' { SingleNote(Hit) } else { SingleNote(Rest) })
        .collect()
}

fn group(length: BasicLength, pattern: &str, times: u16) -> Group {
    Group { notes: notes(pattern), length: Simple(Plain(length)), times: Times(times) }
}

fn four_four() -> TimeSignature {
    TimeSignature { numerator: 4, denominator: Fourth }
}

fn ev(tick: u128, part: Part, is_on: bool) -> Event<Tick> {
    Event { tick: Tick(tick), event_type: if is_on { NoteOn(part) } else { NoteOff(part) } }
}

fn kick_pattern() -> Groups {
    Groups(vec![group(Sixteenth, "xx-x-xx-", 1)])
}

fn snare_pattern() -> Groups {
    Groups(vec![group(Eighth, "-x--x-", 1)])
}

fn shifted(events: &[Event<Tick>], by: u128) -> Vec<Event<Tick>> {
    events.iter().map(|e| Event { tick: Tick(e.tick.0 + by), event_type: e.event_type }).collect()
}

#[test]
fn test_flatten_group() {
    assert_eq!(
        flatten_group(&group(Eighth, "x--", 2), KickDrum, &mut Tick(0)),
        EventGrid {
            events: vec![
                Event {
                    tick: Tick(0),
                    event_type: NoteOn(KickDrum)
                },
                Event {
                    tick: Tick(24),
                    event_type: NoteOff(KickDrum)
                },
                Event {
                    tick: Tick(72),
                    event_type: NoteOn(KickDrum)
                },
                Event {
                    tick: Tick(96),
                    event_type: NoteOff(KickDrum)
                }
            ],
            length: Tick(144)
        }
    );
}

#[test]
fn flatten_group_moves_the_cursor_by_its_hits_and_rests() {
    let mut cursor = Tick(0);
    let grid = flatten_group(&group(Eighth, "x--", 2), KickDrum, &mut cursor);
    assert_eq!(cursor, Tick(72));
    assert_eq!(grid.length, Tick(144));
    let mut cursor = Tick(10);
    let grid = flatten_group(&group(Fourth, "-", 1), KickDrum, &mut cursor);
    assert_eq!(cursor, Tick(58));
    assert_eq!(grid, EventGrid { events: vec![], length: Tick(48) });
}

#[test]
fn a_group_that_starts_late_has_its_duration_as_length() {
    let mut cursor = Tick(48);
    let grid = flatten_group(&group(Fourth, "x", 1), SnareDrum, &mut cursor);
    assert_eq!(grid.events, vec![ev(48, SnareDrum, true), ev(96, SnareDrum, false)]);
    assert_eq!(grid.length, Tick(48));
    assert_eq!(cursor, Tick(96));
}

#[test]
fn flatten_group_with_zero_times_is_empty() {
    let mut cursor = Tick(0);
    let grid = flatten_group(&group(Fourth, "x-x", 0), SnareDrum, &mut cursor);
    assert_eq!(grid, EventGrid::empty());
    assert_eq!(cursor, Tick(144));
}

#[test]
fn flatten_nested_group_repeats_inside() {
    let inner = group(Eighth, "x", 2);
    let outer = Group {
        notes: vec![SingleGroup(inner), SingleNote(Rest)],
        length: Simple(Plain(Fourth)),
        times: Times(1),
    };
    let mut cursor = Tick(0);
    let grid = flatten_group(&outer, HiHat, &mut cursor);
    assert_eq!(
        grid.events,
        vec![ev(0, HiHat, true), ev(24, HiHat, false), ev(24, HiHat, true), ev(48, HiHat, false)]
    );
    assert_eq!(grid.length, Tick(96));
    assert_eq!(cursor, Tick(72));
}

#[test]
fn a_nested_group_after_a_rest_repeats_by_its_own_duration() {
    let outer = Group {
        notes: vec![SingleNote(Rest), SingleGroup(group(Eighth, "x", 2))],
        length: Simple(Plain(Eighth)),
        times: Times(1),
    };
    let mut cursor = Tick(0);
    let grid = flatten_group(&outer, KickDrum, &mut cursor);
    assert_eq!(
        grid.events,
        vec![ev(24, KickDrum, true), ev(48, KickDrum, false), ev(48, KickDrum, true), ev(72, KickDrum, false)]
    );
    assert_eq!(grid.length, Tick(72));
    assert_eq!(cursor, Tick(48));
}

#[test]
fn a_group_in_the_middle_keeps_its_duration() {
    let outer = Group {
        notes: vec![SingleNote(Hit), SingleGroup(group(Sixteenth, "x-", 1)), SingleNote(Hit)],
        length: Simple(Plain(Eighth)),
        times: Times(2),
    };
    let mut cursor = Tick(100);
    let grid = flatten_group(&outer, KickDrum, &mut cursor);
    let ticks: Vec<u128> = grid.events.iter().map(|e| e.tick.0).collect();
    assert_eq!(ticks, vec![100, 124, 124, 136, 148, 172, 172, 196, 196, 208, 220, 244]);
    for (i, e) in grid.events.iter().enumerate() {
        assert_eq!(e.event_type, if i % 2 == 0 { NoteOn(KickDrum) } else { NoteOff(KickDrum) });
    }
    assert_eq!(grid.length, Tick(144));
    assert_eq!(cursor, Tick(172));
}

#[test]
fn phrases_follow_one_another_without_a_gap() {
    let grid = flatten_groups(KickDrum, &Groups(vec![group(Eighth, "x", 1), group(Eighth, "x", 1)]));
    assert_eq!(
        grid.events,
        vec![ev(0, KickDrum, true), ev(24, KickDrum, false), ev(24, KickDrum, true), ev(48, KickDrum, false)]
    );
    assert_eq!(grid.length, Tick(48));
    let grid = flatten_groups(
        SnareDrum,
        &Groups(vec![group(Eighth, "x--", 2), group(Fourth, "-x", 1), group(Sixteenth, "x", 1)]),
    );
    assert_eq!(
        grid.events,
        vec![
            ev(0, SnareDrum, true),
            ev(24, SnareDrum, false),
            ev(72, SnareDrum, true),
            ev(96, SnareDrum, false),
            ev(192, SnareDrum, true),
            ev(240, SnareDrum, false),
            ev(240, SnareDrum, true),
            ev(252, SnareDrum, false),
        ]
    );
    assert_eq!(grid.length, Tick(252));
}

#[test]
fn flatten_groups_of_one_phrase() {
    let grid = flatten_groups(KickDrum, &kick_pattern());
    assert_eq!(grid.length, Tick(96));
    assert_eq!(grid.events.len(), 10);
    assert_eq!(flatten_groups(CrashCymbal, &Groups(vec![])), EventGrid::empty());
}

#[test]
fn note_lengths_in_ticks() {
    let basics = [Whole, Half, Fourth, Eighth, Sixteenth, ThirtySecond, SixtyFourth];
    let ticks = [192u128, 96, 48, 24, 12, 6, 3];
    let units = [128u32, 64, 32, 16, 8, 4, 2];
    for i in 0..7 {
        assert_eq!(basics[i].to_ticks(), Tick(ticks[i]));
        assert_eq!(basics[i].to_128th(), units[i]);
        assert_eq!(Plain(basics[i]).to_ticks(), Tick(ticks[i]));
        assert_eq!(Dotted(basics[i]).to_ticks(), Tick(ticks[i] + ticks[i] / 2));
        assert_eq!(Simple(Plain(basics[i])).to_ticks(), Tick(ticks[i]));
        assert_eq!(Triplet(Plain(basics[i])).to_ticks(), Tick(ticks[i] * 2 / 3));
    }
    assert_eq!(Dotted(Fourth).to_ticks(), Tick(72));
    assert_eq!(Dotted(SixtyFourth).to_ticks(), Tick(4));
    assert_eq!(Triplet(Plain(Fourth)).to_ticks(), Tick(32));
    assert_eq!(Triplet(Plain(SixtyFourth)).to_ticks(), Tick(2));
    assert_eq!(Triplet(Dotted(SixtyFourth)).to_ticks(), Tick(2));
    assert_eq!(Tied(Plain(Fourth), Dotted(Eighth)).to_ticks(), Tick(84));
    assert_eq!(Dotted(Fourth).to_128th(), 48);
    assert_eq!(Triplet(Plain(Fourth)).to_128th(), 21);
    assert_eq!(Tied(Plain(Half), Plain(Eighth)).to_128th(), 80);
}

#[test]
fn pattern_lengths_in_128ths() {
    assert_eq!(group(Sixteenth, "xx-x-xx-", 1).to_128th(), 64);
    assert_eq!(group(Eighth, "x--", 2).to_128th(), 96);
    assert_eq!(group(Eighth, "x--", 0).to_128th(), 0);
    let nested = Group {
        notes: vec![SingleGroup(group(Eighth, "x", 3)), SingleNote(Hit)],
        length: Simple(Plain(Fourth)),
        times: Times(2),
    };
    assert_eq!(nested.to_128th(), 160);
    assert_eq!(Groups(vec![group(Eighth, "x--", 2), group(Fourth, "x", 1)]).to_128th(), 128);
    assert_eq!(Groups(vec![]).to_128th(), 0);
}

#[test]
fn meter_values() {
    assert_eq!(four_four().to_128th(), 128);
    assert_eq!(TimeSignature { numerator: 6, denominator: Eighth }.to_128th(), 96);
    assert_eq!(four_four().to_midi(), (4, 2));
    assert_eq!(TimeSignature { numerator: 7, denominator: Eighth }.to_midi(), (7, 3));
    assert_eq!(TimeSignature { numerator: 1, denominator: Whole }.to_midi(), (1, 0));
    assert_eq!(TimeSignature { numerator: 3, denominator: SixtyFourth }.to_midi(), (3, 6));
}

#[test]
fn converges_finds_the_least_bar_count() {
    assert_eq!(four_four().converges(&vec![64]), Some(1));
    assert_eq!(four_four().converges(&vec![96]), Some(3));
    assert_eq!(four_four().converges(&vec![64, 96]), Some(3));
    assert_eq!(four_four().converges(&vec![]), Some(1));
    assert_eq!(four_four().converges(&vec![128 * 1000]), Some(1000));
    assert_eq!(four_four().converges(&vec![128 * 1001]), None);
    assert_eq!(four_four().converges(&vec![64, 0]), None);
    assert_eq!(TimeSignature { numerator: 0, denominator: Fourth }.converges(&vec![0, 5]), Some(1));
    assert_eq!(BAR_LIMIT, 1000);
}

#[test]
fn length_limit_falls_back_to_the_bar_limit() {
    let kick_only = Patterns::new().insert(KickDrum, kick_pattern());
    assert_eq!(length_limit(&kick_only, &four_four()), 128);
    let both = Patterns::new().insert(KickDrum, kick_pattern()).insert(SnareDrum, snare_pattern());
    assert_eq!(length_limit(&both, &four_four()), 384);
    let odd = Patterns::new().insert(HiHat, Groups(vec![group(Whole, "x", 1001)]));
    assert_eq!(length_limit(&odd, &four_four()), 128000);
    assert_eq!(length_limit(&Patterns::new(), &four_four()), 128);
}

#[test]
fn patterns_insert_and_get() {
    let p = Patterns::new().insert(SnareDrum, snare_pattern());
    assert_eq!(p.get(SnareDrum), &Some(snare_pattern()));
    assert_eq!(p.get(KickDrum), &None);
    assert_eq!(p.get(HiHat), &None);
    assert_eq!(p.get(CrashCymbal), &None);
    let p = p.insert(SnareDrum, kick_pattern()).insert(CrashCymbal, snare_pattern());
    assert_eq!(p.get(SnareDrum), &Some(kick_pattern()));
    assert_eq!(p.get(CrashCymbal), &Some(snare_pattern()));
}

#[test]
fn cycle_part_repeats_each_phrase_count_times() {
    let one = cycle_part(&Some(kick_pattern()), KickDrum, 128);
    assert_eq!(one.events.len(), 20);
    assert_eq!(one.length, Tick(192));
    let two_phrases = Groups(vec![group(Fourth, "x", 1), group(Fourth, "-", 1)]);
    let grid = cycle_part(&Some(two_phrases), KickDrum, 128);
    assert_eq!(grid.events.len(), 8);
    assert_eq!(cycle_part(&None, KickDrum, 128), EventGrid::empty());
    assert_eq!(cycle_part(&Some(Groups(vec![])), KickDrum, 128), EventGrid::empty());
    let short = cycle_part(&Some(kick_pattern()), KickDrum, 63);
    assert_eq!(short, EventGrid::empty());
}

#[test]
fn test_event_iterator_impl() {
    let empty = EventGrid::empty();
    let kick1 = flatten_group(&group(Fourth, "x-", 1), KickDrum, &mut Tick(0));
    let snare1 = flatten_group(&group(Fourth, "-x", 1), SnareDrum, &mut Tick(0));

    assert_eq!(
        EventIterator::new(
            kick1.clone(),
            snare1.clone(),
            empty.clone(),
            empty.clone(),
            four_four()
        )
        .collect(),
        vec![
            Event {
                tick: Tick(0),
                event_type: NoteOn(KickDrum)
            },
            Event {
                tick: Tick(48),
                event_type: NoteOff(KickDrum)
            },
            Event {
                tick: Tick(48),
                event_type: NoteOn(SnareDrum)
            },
            Event {
                tick: Tick(96),
                event_type: NoteOff(SnareDrum)
            }
        ]
    );

    assert_eq!(
        EventIterator::new(
            kick1.clone(),
            empty.clone(),
            empty.clone(),
            empty.clone(),
            four_four()
        )
        .collect(),
        [
            Event {
                tick: Tick(0),
                event_type: NoteOn(KickDrum)
            },
            Event {
                tick: Tick(48),
                event_type: NoteOff(KickDrum)
            }
        ]
    );
}

#[test]
fn event_iterator_pulls_one_event_at_a_time() {
    let kick = EventGrid { events: vec![ev(0, KickDrum, true), ev(48, KickDrum, false)], length: Tick(48) };
    let crash = EventGrid { events: vec![ev(0, CrashCymbal, true), ev(12, CrashCymbal, false)], length: Tick(48) };
    let mut it = EventIterator::new(kick, EventGrid::empty(), EventGrid::empty(), crash, four_four());
    assert_eq!(it.time_signature(), four_four());
    assert_eq!(it.next(), Some(ev(0, KickDrum, true)));
    assert_eq!(it.next(), Some(ev(0, CrashCymbal, true)));
    assert_eq!(it.next(), Some(ev(12, CrashCymbal, false)));
    assert_eq!(it.next(), Some(ev(48, KickDrum, false)));
    assert_eq!(it.next(), None);
    assert_eq!(it.next(), None);
}

#[test]
fn merge_keeps_each_voice_as_it_was() {
    let both = Patterns::new().insert(KickDrum, kick_pattern()).insert(SnareDrum, snare_pattern());
    let limit = length_limit(&both, &four_four());
    let kick = cycle_part(&Some(kick_pattern()), KickDrum, limit);
    let snare = cycle_part(&Some(snare_pattern()), SnareDrum, limit);
    let merged = flatten_and_merge(both, four_four()).collect();
    assert_eq!(merged.len(), kick.events.len() + snare.events.len());
    let only_kick: Vec<Event<Tick>> =
        merged.iter().filter(|e| e.event_type.get_part() == KickDrum).copied().collect();
    let only_snare: Vec<Event<Tick>> =
        merged.iter().filter(|e| e.event_type.get_part() == SnareDrum).copied().collect();
    assert_eq!(only_kick, kick.events);
    assert_eq!(only_snare, snare.events);
    for pair in merged.windows(2) {
        assert!(pair[0].precedes(&pair[1]));
    }
}

#[test]
fn test_flatten_and_merge() {
    let kick_events = vec![
        Event {
            tick: Tick(0),
            event_type: NoteOn(KickDrum),
        },
        Event {
            tick: Tick(12),
            event_type: NoteOff(KickDrum),
        },
        Event {
            tick: Tick(12),
            event_type: NoteOn(KickDrum),
        },
        Event {
            tick: Tick(24),
            event_type: NoteOff(KickDrum),
        },
        Event {
            tick: Tick(36),
            event_type: NoteOn(KickDrum),
        },
        Event {
            tick: Tick(48),
            event_type: NoteOff(KickDrum),
        },
        Event {
            tick: Tick(60),
            event_type: NoteOn(KickDrum),
        },
        Event {
            tick: Tick(72),
            event_type: NoteOff(KickDrum),
        },
        Event {
            tick: Tick(72),
            event_type: NoteOn(KickDrum),
        },
        Event {
            tick: Tick(84),
            event_type: NoteOff(KickDrum),
        },
    ];
    let snare_events = [
        Event {
            tick: Tick(24),
            event_type: NoteOn(SnareDrum),
        },
        Event {
            tick: Tick(48),
            event_type: NoteOff(SnareDrum),
        },
        Event {
            tick: Tick(96),
            event_type: NoteOn(SnareDrum),
        },
        Event {
            tick: Tick(120),
            event_type: NoteOff(SnareDrum),
        },
    ];
    let four_fourth = four_four();
    let flattened_kick =
        flatten_and_merge(Patterns::new().insert(KickDrum, kick_pattern()), four_fourth).collect();
    let flattened_snare =
        flatten_and_merge(Patterns::new().insert(SnareDrum, snare_pattern()), four_fourth).collect();
    let flattened_kick_and_snare = flatten_and_merge(
        Patterns::new().insert(KickDrum, kick_pattern()).insert(SnareDrum, snare_pattern()),
        four_fourth,
    )
    .collect();

    assert_eq!(flatten_groups(KickDrum, &kick_pattern()).events, kick_events);
    assert_eq!(flatten_groups(SnareDrum, &snare_pattern()).events, snare_events);

    // One bar of four quarters holds the kick pattern twice; the snare
    // pattern of three quarters meets the bar line after three bars.
    assert_eq!(flattened_kick[..10], kick_events[..]);
    assert_eq!(flattened_kick[10..], shifted(&kick_events, 96)[..]);
    assert_eq!(flattened_snare.len(), 16);
    for cycle in 0..4 {
        assert_eq!(
            flattened_snare[4 * cycle..4 * cycle + 4],
            shifted(&snare_events, 144 * cycle as u128)[..]
        );
    }

    assert_eq!(
        flattened_kick
            .iter()
            .all(|x| flattened_kick_and_snare.contains(x)),
        true
    );
}

#[test]
fn note_event_cuts_the_delta_to_28_bits() {
    let small = note_event(&Event { tick: polyrhythm::tick::Delta(24), event_type: NoteOn(SnareDrum) });
    assert_eq!(small, TrackEvent { delta: 24, kind: TrackEventKind::NoteOn { channel: 10, key: 38, vel: 127 } });
    let wide = note_event(&Event {
        tick: polyrhythm::tick::Delta((1u128 << 28) + 5),
        event_type: NoteOff(CrashCymbal),
    });
    assert_eq!(wide, TrackEvent { delta: 5, kind: TrackEventKind::NoteOff { channel: 10, key: 49, vel: 127 } });
    let wider = note_event(&Event {
        tick: polyrhythm::tick::Delta((1u128 << 100) + (1u128 << 32) + (1u128 << 27)),
        event_type: NoteOn(KickDrum),
    });
    assert_eq!(wider.delta, 1 << 27);
}

#[test]
fn tempo_is_cut_to_24_bits() {
    assert_eq!(MidiTempo::from_tempo(120), MidiTempo(500000));
    assert_eq!(MidiTempo::from_tempo(60), MidiTempo(1000000));
    assert_eq!(MidiTempo::from_tempo(7), MidiTempo(8571428));
    assert_eq!(MidiTempo::from_tempo(1), MidiTempo(9668352));
    assert_eq!(MidiTempo::from_tempo(3), MidiTempo(3222784));
    assert_eq!(MidiTempo::from_tempo(u16::MAX), MidiTempo(915));
}

fn expected_preamble(tempo: u32) -> Vec<TrackEvent> {
    vec![
        TrackEvent { delta: 0, kind: TrackEventKind::ProgramChange { channel: 9, program: 0 } },
        TrackEvent { delta: 0, kind: TrackEventKind::TrackName("Drumkit") },
        TrackEvent { delta: 0, kind: TrackEventKind::InstrumentName("Drumkit") },
        TrackEvent { delta: 0, kind: TrackEventKind::MidiChannel(10) },
        TrackEvent { delta: 0, kind: TrackEventKind::MidiPort(10) },
        TrackEvent { delta: 0, kind: TrackEventKind::Tempo(tempo) },
        TrackEvent { delta: 0, kind: TrackEventKind::TimeSignature(4, 2, 24, 8) },
    ]
}

#[test]
fn emit_track_lays_out_the_whole_track() {
    let events = vec![ev(0, KickDrum, true), ev(24, KickDrum, false), ev(24, HiHat, true), ev(30, HiHat, false)];
    let track = emit_track(events, four_four(), MidiTempo(500000)).unwrap();
    let mut expected = expected_preamble(500000);
    expected.push(TrackEvent { delta: 0, kind: TrackEventKind::NoteOn { channel: 10, key: 36, vel: 127 } });
    expected.push(TrackEvent { delta: 24, kind: TrackEventKind::NoteOff { channel: 10, key: 36, vel: 127 } });
    expected.push(TrackEvent { delta: 0, kind: TrackEventKind::NoteOn { channel: 10, key: 46, vel: 127 } });
    expected.push(TrackEvent { delta: 6, kind: TrackEventKind::NoteOff { channel: 10, key: 46, vel: 127 } });
    expected.push(TrackEvent { delta: 6, kind: TrackEventKind::EndOfTrack });
    assert_eq!(track, expected);
    assert_eq!(KIT_NAME, "Drumkit");
}

#[test]
fn an_empty_stream_gives_no_track() {
    assert_eq!(emit_track(vec![], four_four(), MidiTempo(500000)), Err(TrackError::NoNotes));
    assert_eq!(
        create_tracks(Patterns::new(), four_four(), "", MidiTempo(500000)),
        Err(TrackError::NoNotes)
    );
    let rests = Patterns::new().insert(KickDrum, Groups(vec![group(Fourth, "----", 1)]));
    assert_eq!(create_smf(rests, four_four(), "rests", 120), Err(TrackError::NoNotes));
    let unplayed = Patterns::new().insert(KickDrum, Groups(vec![group(Fourth, "x", 0)]));
    assert_eq!(create_smf(unplayed, four_four(), "", 120), Err(TrackError::NoNotes));
}

#[test]
fn create_smf_builds_one_parallel_track() {
    let patterns = Patterns::new().insert(KickDrum, Groups(vec![group(Half, "x-", 1)]));
    let smf = create_smf(patterns, four_four(), "title", 120).unwrap();
    assert_eq!(smf.header, Header { format: Format::Parallel, timing: Timing::Metrical(48) });
    assert_eq!(smf.tracks.len(), 1);
    let mut expected = expected_preamble(500000);
    expected.push(TrackEvent { delta: 0, kind: TrackEventKind::NoteOn { channel: 10, key: 36, vel: 127 } });
    expected.push(TrackEvent { delta: 96, kind: TrackEventKind::NoteOff { channel: 10, key: 36, vel: 127 } });
    expected.push(TrackEvent { delta: 96, kind: TrackEventKind::EndOfTrack });
    assert_eq!(smf.tracks[0], expected);
}

#[test]
fn create_tracks_merges_voices_before_converting() {
    let patterns = Patterns::new()
        .insert(KickDrum, Groups(vec![group(Fourth, "x-", 1)]))
        .insert(SnareDrum, Groups(vec![group(Fourth, "-x", 1)]));
    let tracks = create_tracks(patterns, TimeSignature { numerator: 2, denominator: Fourth }, "", MidiTempo(1)).unwrap();
    let notes: Vec<TrackEvent> = tracks[0][7..].to_vec();
    assert_eq!(
        notes,
        vec![
            TrackEvent { delta: 0, kind: TrackEventKind::NoteOn { channel: 10, key: 36, vel: 127 } },
            TrackEvent { delta: 48, kind: TrackEventKind::NoteOff { channel: 10, key: 36, vel: 127 } },
            TrackEvent { delta: 0, kind: TrackEventKind::NoteOn { channel: 10, key: 38, vel: 127 } },
            TrackEvent { delta: 48, kind: TrackEventKind::NoteOff { channel: 10, key: 38, vel: 127 } },
            TrackEvent { delta: 48, kind: TrackEventKind::EndOfTrack },
        ]
    );
    assert_eq!(tracks[0][5], TrackEvent { delta: 0, kind: TrackEventKind::Tempo(1) });
    assert_eq!(tracks[0][6], TrackEvent { delta: 0, kind: TrackEventKind::TimeSignature(2, 2, 24, 8) });
}

fn too_long_to_measure() -> Groups {
    let inner = group(Whole, "x", u16::MAX);
    Groups(vec![Group {
        notes: vec![SingleGroup(inner)],
        length: Simple(Plain(Whole)),
        times: Times(u16::MAX),
    }])
}

#[test]
fn lengths_past_32_bits_are_reported() {
    assert_eq!(group(Whole, "x", u16::MAX).checked_to_128th(), Some(128 * 65535));
    assert_eq!(too_long_to_measure().checked_to_128th(), None);
    assert_eq!(too_long_to_measure().0[0].checked_to_128th(), None);
    assert_eq!(kick_pattern().checked_to_128th(), Some(64));
    let patterns = Patterns::new().insert(KickDrum, kick_pattern()).insert(HiHat, too_long_to_measure());
    assert_eq!(checked_length_limit(&patterns, &four_four()), None);
    assert_eq!(checked_cycle_part(&Some(too_long_to_measure()), HiHat, 128), None);
    assert!(checked_flatten_and_merge(&patterns, four_four()).is_none());
    assert_eq!(
        create_tracks(
            Patterns::new().insert(HiHat, too_long_to_measure()),
            four_four(),
            "",
            MidiTempo(500000)
        ),
        Err(TrackError::OutOfRange)
    );
    assert_eq!(create_smf(patterns, four_four(), "", 120), Err(TrackError::OutOfRange));
}

#[test]
fn times_past_the_clock_are_reported() {
    let near_end = Tick(u128::MAX - 47);
    assert_eq!(checked_flatten_group(&group(Fourth, "x", 1), KickDrum, near_end), None);
    let fits = checked_flatten_group(&group(Fourth, "x", 1), KickDrum, Tick(u128::MAX - 48)).unwrap();
    assert_eq!(fits.1, Tick(u128::MAX));
    assert_eq!(fits.0.events, vec![ev(u128::MAX - 48, KickDrum, true), ev(u128::MAX, KickDrum, false)]);
    assert_eq!(checked_flatten_group(&group(Fourth, "x", 2), KickDrum, Tick(u128::MAX - 48)), None);
    let at_zero = checked_flatten_group(&group(Eighth, "x--", 2), KickDrum, Tick(0)).unwrap();
    assert_eq!(at_zero.1, Tick(72));
    assert_eq!(at_zero.0.length, Tick(144));
    assert_eq!(checked_flatten_groups(KickDrum, &kick_pattern()).unwrap().length, Tick(96));
}

#[test]
fn checked_grid_operations_report_what_does_not_fit() {
    let long = EventGrid { events: vec![], length: Tick(u128::MAX) };
    let one = EventGrid { events: vec![ev(0, KickDrum, true)], length: Tick(1) };
    assert!(!long.can_concat(&one));
    assert_eq!(long.clone().checked_concat(&one), None);
    assert!(one.can_concat(&EventGrid { events: vec![], length: Tick(u128::MAX - 1) }));
    let late = EventGrid { events: vec![ev(u128::MAX, KickDrum, true)], length: Tick(0) };
    assert!(!one.can_concat(&late));
    assert!(EventGrid::empty().can_concat(&late));
    assert_eq!(one.clone().checked_concat(&one).unwrap().length, Tick(2));
    assert!(long.can_repeat(0));
    assert!(long.can_repeat(1));
    assert!(!long.can_repeat(2));
    assert_eq!(long.checked_repeat(2), None);
    assert_eq!(long.checked_repeat(1), Some(long.clone()));
    let half = EventGrid { events: vec![ev(3, KickDrum, true)], length: Tick(1u128 << 127) };
    assert!(!half.can_repeat(2));
    assert!(!half.can_repeat(3));
    let still = EventGrid { events: vec![ev(u128::MAX, KickDrum, true)], length: Tick(0) };
    assert!(still.can_repeat(3));
    assert_eq!(still.checked_repeat(3).unwrap().events.len(), 3);
    let edge = EventGrid { events: vec![ev(u128::MAX - 2, KickDrum, true)], length: Tick(1) };
    assert!(edge.can_repeat(3));
    assert!(!edge.can_repeat(4));
}

#[test]
fn a_tempo_of_zero_gives_no_file() {
    let patterns = Patterns::new().insert(KickDrum, kick_pattern());
    assert_eq!(create_smf(patterns, four_four(), "", 0), Err(TrackError::ZeroTempo));
    assert_eq!(create_smf(Patterns::new(), four_four(), "", 0), Err(TrackError::ZeroTempo));
}

#[test]
fn grid_iter_gives_the_events_in_order() {
    let grid = flatten_groups(SnareDrum, &snare_pattern());
    let seen: Vec<Event<Tick>> = grid.iter().iter().copied().collect();
    assert_eq!(seen, grid.events);
}

#[test]
fn merge_of_any_number_of_streams() {
    let a = vec![ev(0, KickDrum, true), ev(10, KickDrum, false)];
    let b = vec![ev(0, KickDrum, true), ev(5, SnareDrum, true)];
    let c = vec![];
    let d = vec![ev(5, SnareDrum, false)];
    let e = vec![ev(3, CrashCymbal, true), ev(20, HiHat, false)];
    let merged = EventIterator::from_sources(vec![a, b, c, d, e], four_four()).collect();
    assert_eq!(
        merged,
        vec![
            ev(0, KickDrum, true),
            ev(0, KickDrum, true),
            ev(3, CrashCymbal, true),
            ev(5, SnareDrum, false),
            ev(5, SnareDrum, true),
            ev(10, KickDrum, false),
            ev(20, HiHat, false),
        ]
    );
    assert_eq!(EventIterator::from_sources(vec![], four_four()).collect(), vec![]);
    let mut it = EventIterator::from_sources(
        vec![vec![ev(1, HiHat, true)], vec![ev(1, HiHat, true)]],
        four_four(),
    );
    assert_eq!(it.next(), Some(ev(1, HiHat, true)));
    assert_eq!(it.next(), Some(ev(1, HiHat, true)));
    assert_eq!(it.next(), None);
}

#[test]
fn every_hit_gives_one_note_on_and_one_note_off() {
    let nested = Group {
        notes: vec![SingleGroup(group(Eighth, "x-x", 3)), SingleNote(Hit), SingleNote(Rest)],
        length: Simple(Dotted(Fourth)),
        times: Times(2),
    };
    let grid = flatten_group(&nested, SnareDrum, &mut Tick(0));
    let ons = grid.events.iter().filter(|e| e.event_type == NoteOn(SnareDrum)).count();
    let offs = grid.events.iter().filter(|e| e.event_type == NoteOff(SnareDrum)).count();
    assert_eq!(ons, 14);
    assert_eq!(offs, 14);
    assert_eq!(grid.events.len(), 28);
}

#[test]
fn merged_events_is_the_collected_merge() {
    let both = || Patterns::new().insert(KickDrum, kick_pattern()).insert(SnareDrum, snare_pattern());
    let events = merged_events(&both(), four_four()).unwrap();
    assert_eq!(events, flatten_and_merge(both(), four_four()).collect());
    assert_eq!(events.len(), 6 * 10 + 4 * 4);
    assert_eq!(merged_events(&Patterns::new(), four_four()), Some(vec![]));
    let long = Patterns::new().insert(HiHat, too_long_to_measure());
    assert_eq!(merged_events(&long, four_four()), None);
}

#[test]
fn a_voice_alone_is_contained_in_the_voices_together() {
    let alone = merged_events(&Patterns::new().insert(SnareDrum, snare_pattern()), four_four()).unwrap();
    let all = merged_events(
        &Patterns::new()
            .insert(KickDrum, kick_pattern())
            .insert(SnareDrum, snare_pattern())
            .insert(CrashCymbal, Groups(vec![group(Whole, "x", 5)])),
        four_four(),
    )
    .unwrap();
    for e in alone.iter() {
        let here = alone.iter().filter(|x| *x == e).count();
        let there = all.iter().filter(|x| *x == e).count();
        assert!(here <= there);
    }
    assert!(alone.len() < all.len());
}

#[test]
fn the_deltas_of_the_track_add_up_to_the_times_of_the_stream() {
    let patterns = || {
        Patterns::new()
            .insert(KickDrum, kick_pattern())
            .insert(SnareDrum, snare_pattern())
            .insert(HiHat, Groups(vec![group(Eighth, "x-", 3), group(Sixteenth, "xx", 1)]))
    };
    let stream = merged_events(&patterns(), four_four()).unwrap();
    let tracks = create_tracks(patterns(), four_four(), "", MidiTempo(500000)).unwrap();
    let track = &tracks[0];
    assert_eq!(track.len(), stream.len() + 8);
    let mut sum: u128 = track[..7].iter().map(|t| t.delta as u128).sum();
    assert_eq!(sum, 0);
    for (i, e) in stream.iter().enumerate() {
        sum += track[7 + i].delta as u128;
        assert_eq!(sum, e.tick.0);
    }
}

#[test]
fn checked_overlay_reports_lengths_past_the_clock() {
    let long = EventGrid { events: vec![ev(5, KickDrum, true)], length: Tick(u128::MAX) };
    let one = EventGrid { events: vec![ev(0, SnareDrum, true)], length: Tick(1) };
    assert_eq!(long.clone().checked_overlay(&one), None);
    let zero = EventGrid { events: vec![ev(9, HiHat, false), ev(0, HiHat, true)], length: Tick(0) };
    let both = long.clone().checked_overlay(&zero).unwrap();
    assert_eq!(both.events, vec![ev(0, HiHat, true), ev(5, KickDrum, true), ev(9, HiHat, false)]);
    assert_eq!(both.length, Tick(u128::MAX));
}
