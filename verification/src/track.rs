//! The track: the merged stream in relative time, between the meta
//! events that open a drum track and the marker that closes it.

use vstd::prelude::*;
use crate::tick::Tick;
use crate::tick::Delta;
use crate::tick::TICKS_PER_QUARTER_NOTE;
use crate::event::Event;
use crate::event::EventType;
use crate::grid::EventGrid;
use crate::grid::ascending;
use crate::grid::deltas;
use crate::grid::models;
use crate::grid::lemma_sorted_ascending;
use crate::merge::merge;
use crate::plan::Patterns;
use crate::plan::merged_events;
use crate::time::TimeSignature;
use crate::wire::to_u4;
use crate::wire::to_u7;
use crate::wire::to_u15;
use crate::wire::to_u24;
use crate::wire::to_u28;

verus! {

/// Microseconds in a minute: the tempo value is their share per beat.
pub const MICROSECONDS_PER_MINUTE: u32 = 60000000;

/// MIDI clocks between two clicks of the metronome.
pub const MIDI_CLOCKS_PER_CLICK: u8 = 24;

/// The name given to the track and to its instrument.
pub const KIT_NAME: &'static str = "Drumkit";

/// Microseconds per quarter note, as the 24 bits a tempo event holds.
#[derive(Debug, Clone, Copy, PartialEq, Eq, Structural, PartialOrd, Ord)]
pub struct MidiTempo(pub u32);

impl MidiTempo {
    /// The tempo value of `tempo` beats per minute: the microseconds of
    /// a minute divided by the beats, cut to 24 bits.
    pub open spec fn of(tempo: u16) -> MidiTempo {
        MidiTempo(((MICROSECONDS_PER_MINUTE / tempo as u32) % 0x100_0000) as u32)
    }

    /// The tempo value of `tempo` beats per minute.
    pub fn from_tempo(tempo: u16) -> (r: MidiTempo)
        requires
            tempo > 0,
        ensures
            r == MidiTempo::of(tempo),
    {
        let mt: u32 = MICROSECONDS_PER_MINUTE / (tempo as u32);
        MidiTempo(to_u24(mt))
    }
}

/// What a track event is. Numbers are as wide as the file format has them.
#[derive(Debug, Clone, Copy, PartialEq, Eq)]
pub enum TrackEventKind {
    ProgramChange { channel: u8, program: u8 },
    TrackName(&'static str),
    InstrumentName(&'static str),
    MidiChannel(u8),
    MidiPort(u8),
    Tempo(u32),
    TimeSignature(u8, u8, u8, u8),
    NoteOn { channel: u8, key: u8, vel: u8 },
    NoteOff { channel: u8, key: u8, vel: u8 },
    EndOfTrack,
}

/// An event of the track, `delta` ticks after the one before it.
#[derive(Debug, Clone, Copy, PartialEq, Eq)]
pub struct TrackEvent {
    pub delta: u32,
    pub kind: TrackEventKind,
}

/// How the tracks of a file relate.
#[derive(Debug, Clone, Copy, PartialEq, Eq, Structural)]
pub enum Format {
    SingleTrack,
    Parallel,
    Sequential,
}

/// How the file counts time: in ticks, so many to the quarter note.
#[derive(Debug, Clone, Copy, PartialEq, Eq, Structural)]
pub enum Timing {
    Metrical(u16),
}

/// The header of a MIDI file.
#[derive(Debug, Clone, Copy, PartialEq, Eq, Structural)]
pub struct Header {
    pub format: Format,
    pub timing: Timing,
}

/// A MIDI file as values: its header and its tracks.
#[derive(Debug, Clone, PartialEq, Eq)]
pub struct Smf {
    pub header: Header,
    pub tracks: Vec<Vec<TrackEvent>>,
}

/// Why no track was made.
#[derive(Debug, Clone, Copy, PartialEq, Eq, Structural)]
pub enum TrackError {
    /// The tempo is zero beats per minute.
    ZeroTempo,
    /// A pattern length does not fit in 32 bits, or a time in 128 bits.
    OutOfRange,
    /// The merged stream holds no event.
    NoNotes,
}

/// A relative time as the track holds it: its low 28 bits.
pub open spec fn wire_delta(d: nat) -> u32 {
    (d % 0x1000_0000) as u32
}

/// The message of a note event: percussion channel, the key of the
/// voice, full velocity.
pub open spec fn note_message(kind: EventType) -> TrackEventKind {
    match kind {
        EventType::NoteOn(part) => TrackEventKind::NoteOn { channel: 10, key: part.midi_key(), vel: 127 },
        EventType::NoteOff(part) => TrackEventKind::NoteOff {
            channel: 10,
            key: part.midi_key(),
            vel: 127,
        },
    }
}

/// The track event of a note event in relative time.
pub open spec fn note_item(e: Event<nat>) -> TrackEvent {
    TrackEvent { delta: wire_delta(e.tick), kind: note_message(e.event_type) }
}

/// The events that open the track, all at time zero: program, names,
/// channel and port, tempo, meter.
pub open spec fn preamble(tempo: MidiTempo, meter: TimeSignature) -> Seq<TrackEvent> {
    seq![
        TrackEvent { delta: 0, kind: TrackEventKind::ProgramChange { channel: 9, program: 0 } },
        TrackEvent { delta: 0, kind: TrackEventKind::TrackName(KIT_NAME) },
        TrackEvent { delta: 0, kind: TrackEventKind::InstrumentName(KIT_NAME) },
        TrackEvent { delta: 0, kind: TrackEventKind::MidiChannel(10) },
        TrackEvent { delta: 0, kind: TrackEventKind::MidiPort(10) },
        TrackEvent { delta: 0, kind: TrackEventKind::Tempo(tempo.0 % 0x100_0000) },
        TrackEvent {
            delta: 0,
            kind: TrackEventKind::TimeSignature(meter.midi().0, meter.midi().1, MIDI_CLOCKS_PER_CLICK, 8),
        },
    ]
}

/// The note events of a stream in absolute time, as track events in
/// relative time.
pub open spec fn note_items(stream: Seq<Event<nat>>) -> Seq<TrackEvent> {
    deltas(stream).map_values(|e: Event<nat>| note_item(e))
}

/// The whole track of a stream that is not empty: the opening events,
/// one event for each note event, and the end marker, which repeats the
/// relative time of the last note event.
pub open spec fn track_of(stream: Seq<Event<nat>>, tempo: MidiTempo, meter: TimeSignature) -> Seq<
    TrackEvent,
> {
    preamble(tempo, meter) + note_items(stream) + seq![
        TrackEvent { delta: note_items(stream).last().delta, kind: TrackEventKind::EndOfTrack },
    ]
}

/// The time reached after the first `n` events of a track: the sum of
/// their relative times.
pub open spec fn delta_sum(track: Seq<TrackEvent>, n: nat) -> nat
    decreases n,
{
    if n == 0 || n > track.len() {
        0
    } else {
        delta_sum(track, (n - 1) as nat) + (track[n - 1].delta as nat)
    }
}

/// The time of the first event, and every gap between one event and the
/// next, fits in the 28 bits of a relative time.
pub open spec fn gaps_fit(stream: Seq<Event<nat>>) -> bool {
    forall|k: int| 0 <= k < stream.len() ==> (#[trigger] deltas(stream)[k]).tick < 0x1000_0000
}

/// The track event of one note event in relative time.
pub fn note_event(event: &Event<Delta>) -> (r: TrackEvent)
    ensures
        r == note_item(event@),
{
    let kind = match event.event_type {
        EventType::NoteOn(part) => TrackEventKind::NoteOn {
            channel: to_u4(10),
            key: part.to_midi_key(),
            vel: to_u7(127),
        },
        EventType::NoteOff(part) => TrackEventKind::NoteOff {
            channel: to_u4(10),
            key: part.to_midi_key(),
            vel: to_u7(127),
        },
    };
    let d: u128 = event.tick.0;
    let low: u32 = (d % 0x1_0000_0000) as u32;
    assert((d % 0x1_0000_0000) % 0x1000_0000 == d % 0x1000_0000) by (bit_vector);
    TrackEvent { delta: to_u28(low), kind }
}

/// Lays out the track of a merged stream. An empty stream gives no track.
pub fn emit_track(events: Vec<Event<Tick>>, time_signature: TimeSignature, midi_tempo: MidiTempo) -> (r:
    Result<Vec<TrackEvent>, TrackError>)
    requires
        ascending(models(events@)),
    ensures
        events@.len() == 0 ==> r == Err::<Vec<TrackEvent>, TrackError>(TrackError::NoNotes),
        events@.len() > 0 ==> r is Ok && r.unwrap()@ == track_of(
            models(events@),
            midi_tempo,
            time_signature,
        ),
{
    let count: usize = events.len();
    if count == 0 {
        return Err(TrackError::NoNotes);
    }
    let ghost stream = models(events@);
    let time: Tick = events[count - 1].tick;
    let event_grid_tick = EventGrid { events, length: time };
    let event_grid = event_grid_tick.to_delta();
    let ghost rel = deltas(stream);
    let mut drums: Vec<TrackEvent> = Vec::new();
    let start: u32 = to_u28(0);
    drums.push(
        TrackEvent {
            delta: start,
            kind: TrackEventKind::ProgramChange { channel: to_u4(9), program: to_u7(0) },
        },
    );
    drums.push(TrackEvent { delta: start, kind: TrackEventKind::TrackName(KIT_NAME) });
    drums.push(TrackEvent { delta: start, kind: TrackEventKind::InstrumentName(KIT_NAME) });
    drums.push(TrackEvent { delta: start, kind: TrackEventKind::MidiChannel(to_u4(10)) });
    drums.push(TrackEvent { delta: start, kind: TrackEventKind::MidiPort(to_u7(10)) });
    drums.push(TrackEvent { delta: start, kind: TrackEventKind::Tempo(to_u24(midi_tempo.0)) });
    let (numerator, denominator) = time_signature.to_midi();
    drums.push(
        TrackEvent {
            delta: start,
            kind: TrackEventKind::TimeSignature(numerator, denominator, MIDI_CLOCKS_PER_CLICK, 8),
        },
    );
    proof {
        assert(drums@ =~= preamble(midi_tempo, time_signature) + note_items(stream).take(0));
    }
    let mut last: u32 = 0;
    let mut i: usize = 0;
    while i < event_grid.events.len()
        invariant
            i <= event_grid.events.len(),
            event_grid@.events == rel,
            rel == deltas(stream),
            rel.len() == stream.len(),
            drums@ == preamble(midi_tempo, time_signature) + note_items(stream).take(i as int),
            i > 0 ==> last == note_items(stream)[i - 1].delta,
        decreases event_grid.events.len() - i,
    {
        let item = note_event(&event_grid.events[i]);
        proof {
            assert(event_grid@.events[i as int] == event_grid.events@[i as int]@);
            assert(rel[i as int] == event_grid.events@[i as int]@);
            assert(note_items(stream).len() == stream.len());
            assert(note_items(stream)[i as int] == note_item(rel[i as int]));
            assert(item == note_items(stream)[i as int]);
            assert(note_items(stream).take(i + 1) =~= note_items(stream).take(i as int).push(item));
            assert(drums@.push(item) =~= preamble(midi_tempo, time_signature) + note_items(
                stream,
            ).take(i + 1));
        }
        drums.push(item);
        last = item.delta;
        i = i + 1;
    }
    proof {
        assert(note_items(stream).take(stream.len() as int) =~= note_items(stream));
    }
    drums.push(TrackEvent { delta: last, kind: TrackEventKind::EndOfTrack });
    Ok(drums)
}

/// What `create_tracks` returns for the given patterns, meter and tempo.
pub open spec fn tracks_of(groups: Patterns, meter: TimeSignature, tempo: MidiTempo) -> Result<
    Seq<Seq<TrackEvent>>,
    TrackError,
> {
    let stream = merge(groups.sources(meter));
    if !(groups.measurable() && groups.fits(meter)) {
        Err(TrackError::OutOfRange)
    } else if stream.len() == 0 {
        Err(TrackError::NoNotes)
    } else {
        Ok(seq![track_of(stream, tempo, meter)])
    }
}

/// The tracks of a file as mathematical values.
pub open spec fn tracks_view(tracks: Seq<Vec<TrackEvent>>) -> Seq<Seq<TrackEvent>> {
    tracks.map_values(|t: Vec<TrackEvent>| t@)
}

/// Turns the patterns of the voices into the one track of the file:
/// every voice flattened and repeated to the common length, all merged,
/// and the merged stream laid out in relative time. Patterns too long
/// for the clock, and patterns that give no note, give an error.
pub fn create_tracks(
    parts_and_groups: Patterns,
    time_signature: TimeSignature,
    text_event: &str,
    midi_tempo: MidiTempo,
) -> (r: Result<Vec<Vec<TrackEvent>>, TrackError>)
    ensures
        match tracks_of(parts_and_groups, time_signature, midi_tempo) {
            Ok(tracks) => r is Ok && tracks_view(r.unwrap()@) == tracks,
            Err(e) => r == Err::<Vec<Vec<TrackEvent>>, TrackError>(e),
        },
{
    let ghost sources = parts_and_groups.sources(time_signature);
    let events: Vec<Event<Tick>> = match merged_events(&parts_and_groups, time_signature) {
        Some(events) => events,
        None => {
            return Err(TrackError::OutOfRange);
        },
    };
    proof {
        lemma_sorted_ascending(merge(sources));
    }
    match emit_track(events, time_signature, midi_tempo) {
        Ok(drums) => {
            let mut tracks: Vec<Vec<TrackEvent>> = Vec::new();
            tracks.push(drums);
            proof {
                assert(tracks_view(tracks@) =~= seq![drums@]);
            }
            Ok(tracks)
        },
        Err(e) => Err(e),
    }
}

/// What `create_smf` returns for the given patterns, meter and tempo:
/// no file for a tempo of zero, else the tracks with their error or in
/// a header that announces parallel tracks and 48 ticks to the quarter
/// note.
pub open spec fn smf_of(groups: Patterns, meter: TimeSignature, tempo: u16) -> Result<
    (Header, Seq<Seq<TrackEvent>>),
    TrackError,
> {
    if tempo == 0 {
        Err(TrackError::ZeroTempo)
    } else {
        match tracks_of(groups, meter, MidiTempo::of(tempo)) {
            Ok(tracks) => Ok(
                (
                    Header { format: Format::Parallel, timing: Timing::Metrical(TICKS_PER_QUARTER_NOTE) },
                    tracks,
                ),
            ),
            Err(e) => Err(e),
        }
    }
}

/// The file of the patterns at `tempo` beats per minute.
pub fn create_smf(groups: Patterns, time_signature: TimeSignature, text: &str, tempo: u16) -> (r: Result<
    Smf,
    TrackError,
>)
    ensures
        match smf_of(groups, time_signature, tempo) {
            Ok((header, tracks)) => {
                &&& r is Ok
                &&& r.unwrap().header == header
                &&& tracks_view(r.unwrap().tracks@) == tracks
            },
            Err(e) => r == Err::<Smf, TrackError>(e),
        },
{
    if tempo == 0 {
        return Err(TrackError::ZeroTempo);
    }
    match create_tracks(groups, time_signature, text, MidiTempo::from_tempo(tempo)) {
        Ok(tracks) => Ok(
            Smf {
                header: Header {
                    format: Format::Parallel,
                    timing: Timing::Metrical(to_u15(TICKS_PER_QUARTER_NOTE)),
                },
                tracks,
            },
        ),
        Err(e) => Err(e),
    }
}

} // verus!
