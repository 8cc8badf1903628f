//! Score metadata: identification and part list.

use vstd::prelude::*;

use crate::model::legacy::{MidiChannel, Song, Track};
use crate::model::musicxml::{
    Creator, Encoding, Identification, MidiInstrument, Miscellaneous, MiscellaneousField,
    PartList, PartListItem, PartName, Rights, ScoreInstrument, ScorePart, Supports,
};
use crate::text::{decimal, prefixed_decimal};

verus! {

/// `(type, name)` of the creators a song names: artist as composer, author
/// as arranger, words as lyricist unless they repeat the author, writer as
/// transcriber; empty fields are skipped.
pub open spec fn creators_of(song: Song) -> Seq<(Seq<char>, Seq<char>)> {
    let a = if song.artist@.len() > 0 {
        seq![("composer"@, song.artist@)]
    } else {
        Seq::empty()
    };
    let b = if song.author@.len() > 0 {
        seq![("arranger"@, song.author@)]
    } else {
        Seq::empty()
    };
    let c = if song.words@.len() > 0 && song.words@ != song.author@ {
        seq![("lyricist"@, song.words@)]
    } else {
        Seq::empty()
    };
    let d = if song.writer@.len() > 0 {
        seq![("transcriber"@, song.writer@)]
    } else {
        Seq::empty()
    };
    a + b + c + d
}

/// `notice-1`, `notice-2`, … fields for the first `n` notices.
pub open spec fn notice_fields(notice: Seq<String>, n: int) -> Seq<(Seq<char>, Seq<char>)>
    decreases n,
{
    if n <= 0 {
        Seq::empty()
    } else {
        notice_fields(notice, n - 1).push(("notice-"@ + decimal(n as nat), notice[n - 1]@))
    }
}

/// `(name, value)` of the miscellaneous fields: subtitle, album, date and
/// instructions when set, then one field per notice line.
pub open spec fn misc_fields_of(song: Song) -> Seq<(Seq<char>, Seq<char>)> {
    let a = if song.subtitle@.len() > 0 {
        seq![("subtitle"@, song.subtitle@)]
    } else {
        Seq::empty()
    };
    let b = if song.album@.len() > 0 {
        seq![("album"@, song.album@)]
    } else {
        Seq::empty()
    };
    let c = if song.date@.len() > 0 {
        seq![("date"@, song.date@)]
    } else {
        Seq::empty()
    };
    let d = if song.instructions@.len() > 0 {
        seq![("instructions"@, song.instructions@)]
    } else {
        Seq::empty()
    };
    a + b + c + d + notice_fields(song.notice@, song.notice@.len() as int)
}

fn push_creator(creators: &mut Vec<Creator>, kind: &str, value: &String)
    ensures
        final(creators)@.len() == old(creators)@.len() + 1,
        forall|k: int| 0 <= k < old(creators)@.len() ==> #[trigger] final(creators)@[k] == old(creators)@[k],
        final(creators)@.last().creator_type is Some,
        final(creators)@.last().creator_type->0@ == kind@,
        final(creators)@.last().value@ == value@,
{
    creators.push(Creator { creator_type: Some(String::from_str(kind)), value: value.clone() });
}

fn push_field(fields: &mut Vec<MiscellaneousField>, name: String, value: &String)
    ensures
        final(fields)@.len() == old(fields)@.len() + 1,
        forall|k: int| 0 <= k < old(fields)@.len() ==> #[trigger] final(fields)@[k] == old(fields)@[k],
        final(fields)@.last().name@ == name@,
        final(fields)@.last().value@ == value@,
{
    fields.push(MiscellaneousField { name, value: value.clone() });
}

/// The pairs `(type, value)` of creators.
pub open spec fn creator_pairs(c: Seq<Creator>) -> Seq<(Seq<char>, Seq<char>)> {
    c.map_values(
        |x: Creator|
            (
                match x.creator_type {
                    Some(t) => t@,
                    None => Seq::empty(),
                },
                x.value@,
            ),
    )
}

/// The pairs `(name, value)` of fields.
pub open spec fn field_pairs(f: Seq<MiscellaneousField>) -> Seq<(Seq<char>, Seq<char>)> {
    f.map_values(|x: MiscellaneousField| (x.name@, x.value@))
}

/// `r` is the `<identification>` of `song`: its creators, its rights, the
/// encoding software and supported features, and its miscellaneous fields.
pub open spec fn identification_made(r: Identification, song: Song) -> bool {
    &&& creator_pairs(r.creators@) == creators_of(song)
    &&& forall|k: int| 0 <= k < r.creators@.len() ==> (#[trigger] r.creators@[k]).creator_type is Some
    &&& r.rights@.len() == if song.copyright@.len() > 0 {
        1int
    } else {
        0int
    }
    &&& r.rights@.len() == 1 ==> r.rights@[0].value@ == song.copyright@ && r.rights@[0].rights_type is None
    &&& r.encoding is Some
    &&& r.encoding->0.software@.len() == 1
    &&& r.encoding->0.software@[0]@ == "guitarpro (Rust)"@
    &&& r.encoding->0.supports@.len() == 2
    &&& r.encoding->0.supports@[0].supports_type@ == "yes"@
    &&& r.encoding->0.supports@[0].element@ == "accidental"@
    &&& r.encoding->0.supports@[1].supports_type@ == "yes"@
    &&& r.encoding->0.supports@[1].element@ == "beam"@
    &&& r.miscellaneous is None <==> misc_fields_of(song).len() == 0
    &&& r.miscellaneous is Some ==> field_pairs(r.miscellaneous->0.fields@) == misc_fields_of(song)
}

/// Build the `<identification>` of a song: its creators, its rights, the
/// encoding software and supported features, and its miscellaneous fields.
pub fn build_identification(song: &Song) -> (r: Identification)
    ensures
        identification_made(r, *song),
{
    proof {
        reveal_strlit("composer");
        reveal_strlit("arranger");
        reveal_strlit("lyricist");
        reveal_strlit("transcriber");
    }
    let mut creators: Vec<Creator> = Vec::new();
    if !song.artist.as_str().is_empty() {
        push_creator(&mut creators, "composer", &song.artist);
    }
    let ghost after_a = creator_pairs(creators@);
    if !song.author.as_str().is_empty() {
        push_creator(&mut creators, "arranger", &song.author);
    }
    let ghost after_b = creator_pairs(creators@);
    if !song.words.as_str().is_empty() && song.words != song.author {
        push_creator(&mut creators, "lyricist", &song.words);
    }
    let ghost after_c = creator_pairs(creators@);
    if !song.writer.as_str().is_empty() {
        push_creator(&mut creators, "transcriber", &song.writer);
    }
    assert(creator_pairs(creators@) =~= creators_of(*song));
    let mut rights: Vec<Rights> = Vec::new();
    if !song.copyright.as_str().is_empty() {
        rights.push(Rights { rights_type: None, value: song.copyright.clone() });
    }
    let mut software: Vec<String> = Vec::new();
    software.push(String::from_str("guitarpro (Rust)"));
    let mut supports: Vec<Supports> = Vec::new();
    supports.push(
        Supports { supports_type: String::from_str("yes"), element: String::from_str("accidental") },
    );
    supports.push(
        Supports { supports_type: String::from_str("yes"), element: String::from_str("beam") },
    );
    let encoding = Some(Encoding { software, supports });
    let fields = misc_fields(song);
    let miscellaneous = if fields.len() == 0 {
        None
    } else {
        Some(Miscellaneous { fields })
    };
    Identification { creators, rights, encoding, miscellaneous }
}

fn misc_fields(song: &Song) -> (r: Vec<MiscellaneousField>)
    ensures
        field_pairs(r@) == misc_fields_of(*song),
{
    proof {
        reveal_strlit("subtitle");
        reveal_strlit("album");
        reveal_strlit("date");
        reveal_strlit("instructions");
    }
    let mut fields: Vec<MiscellaneousField> = Vec::new();
    if !song.subtitle.as_str().is_empty() {
        push_field(&mut fields, String::from_str("subtitle"), &song.subtitle);
    }
    if !song.album.as_str().is_empty() {
        push_field(&mut fields, String::from_str("album"), &song.album);
    }
    if !song.date.as_str().is_empty() {
        push_field(&mut fields, String::from_str("date"), &song.date);
    }
    if !song.instructions.as_str().is_empty() {
        push_field(&mut fields, String::from_str("instructions"), &song.instructions);
    }
    let ghost head = field_pairs(fields@);
    let mut i: usize = 0;
    while i < song.notice.len()
        invariant
            i <= song.notice@.len(),
            field_pairs(fields@) == head + notice_fields(song.notice@, i as int),
        decreases song.notice@.len() - i,
    {
        let name = prefixed_decimal("notice-", (i as u64) + 1);
        let ghost before = field_pairs(fields@);
        let ghost name_view = name@;
        push_field(&mut fields, name, &song.notice[i]);
        assert(field_pairs(fields@) =~= before.push((name_view, song.notice@[i as int]@)));
        i += 1;
        assert(field_pairs(fields@) =~= head + notice_fields(song.notice@, i as int));
    }
    assert(field_pairs(fields@) =~= misc_fields_of(*song));
    fields
}

/// The channel a track plays on, the default channel when its index is out
/// of range.
pub open spec fn channel_of(song: Song, track: Track) -> MidiChannel {
    if track.channel_index < song.channels@.len() {
        song.channels@[track.channel_index as int]
    } else {
        MidiChannel { channel: 0, instrument: 0, bank: 0, volume: 104, balance: 64 }
    }
}

/// `midi` is the MIDI instrument of `track` with id `id`.
pub open spec fn midi_instrument_ok(midi: MidiInstrument, song: Song, track: Track, id: Seq<char>) -> bool {
    let ch = channel_of(song, track);
    &&& midi.id@ == id
    &&& midi.midi_channel == Some((ch.channel + 1) as u8)
    &&& midi.midi_bank == if ch.bank > 0 {
        Some(ch.bank as u16)
    } else {
        None
    }
    &&& midi.midi_program == if track.percussion_track {
        None
    } else {
        Some(
            if (ch.instrument as u8) == 255 {
                255u8
            } else {
                ((ch.instrument as u8) + 1) as u8
            },
        )
    }
    &&& midi.midi_unpitched == if track.percussion_track {
        Some(60u8)
    } else {
        None
    }
    &&& midi.volume == Some(ch.volume)
    &&& midi.pan == Some(ch.balance)
}

/// `part` is the score part of the `i`-th track (0-based).
pub open spec fn score_part_ok(part: ScorePart, song: Song, i: int) -> bool {
    let track = song.tracks@[i];
    let id = "P"@ + decimal((i + 1) as nat);
    let instrument_id = id + "-I1"@;
    &&& part.id@ == id
    &&& part.part_name is Some && part.part_name->0.value is Some
    &&& part.part_name->0.value->0@ == track.name@
    &&& (part.part_abbreviation is Some <==> track.short_name@.len() > 0)
    &&& (part.part_abbreviation is Some ==> part.part_abbreviation->0.value is Some
        && part.part_abbreviation->0.value->0@ == track.short_name@)
    &&& part.score_instruments@.len() == 1
    &&& part.score_instruments@[0].id@ == instrument_id
    &&& part.score_instruments@[0].instrument_name@ == track.name@
    &&& part.midi_instruments@.len() == 1
    &&& midi_instrument_ok(part.midi_instruments@[0], song, track, instrument_id)
}

/// Every channel a track plays on has a 0-based number below 255, so that
/// its 1-based MusicXML number fits.
pub open spec fn channels_numbered(song: Song) -> bool {
    forall|i: int|
        0 <= i < song.tracks@.len() ==> (#[trigger] channel_of(song, song.tracks@[i])).channel < 255
}

fn build_score_part(song: &Song, i: usize) -> (r: ScorePart)
    requires
        i < song.tracks@.len(),
        i < u64::MAX,
        channels_numbered(*song),
    ensures
        score_part_ok(r, *song, i as int),
{
    let track = &song.tracks[i];
    let part_id = prefixed_decimal("P", (i as u64) + 1);
    let mut instrument_id = part_id.clone();
    instrument_id.append("-I1");
    let channel = if track.channel_index < song.channels.len() {
        song.channels[track.channel_index]
    } else {
        MidiChannel::default()
    };
    assert(channel == channel_of(*song, *track));
    assert(channel.channel < 255);
    let program = channel.instrument as u8;
    let midi_program = if track.percussion_track {
        None
    } else {
        Some(
            if program == 255 {
                255
            } else {
                program + 1
            },
        )
    };
    let midi = MidiInstrument {
        id: instrument_id.clone(),
        midi_channel: Some(channel.channel + 1),
        midi_bank: if channel.bank > 0 {
            Some(channel.bank as u16)
        } else {
            None
        },
        midi_program,
        midi_unpitched: if track.percussion_track {
            Some(60)
        } else {
            None
        },
        volume: Some(channel.volume),
        pan: Some(channel.balance),
    };
    let mut score_instruments: Vec<ScoreInstrument> = Vec::new();
    score_instruments.push(ScoreInstrument { id: instrument_id, instrument_name: track.name.clone() });
    let mut midi_instruments: Vec<MidiInstrument> = Vec::new();
    midi_instruments.push(midi);
    ScorePart {
        id: part_id,
        part_name: Some(PartName { value: Some(track.name.clone()) }),
        part_abbreviation: if !track.short_name.as_str().is_empty() {
            Some(PartName { value: Some(track.short_name.clone()) })
        } else {
            None
        },
        score_instruments,
        midi_instruments,
    }
}

/// `r` is the part list of `song`: one score part per track.
pub open spec fn part_list_made(r: PartList, song: Song) -> bool {
    &&& r.items@.len() == song.tracks@.len()
    &&& forall|i: int|
        0 <= i < r.items@.len() ==> match #[trigger] r.items@[i] {
            PartListItem::ScorePart(p) => score_part_ok(p, song, i),
        }
}

/// Build the `<part-list>`: one score part per track, `P1`, `P2`, …, each
/// with one instrument `P<n>-I1` playing on the track's channel.
pub fn build_part_list(song: &Song) -> (r: PartList)
    requires
        channels_numbered(*song),
    ensures
        part_list_made(r, *song),
{
    let mut items: Vec<PartListItem> = Vec::new();
    let mut i: usize = 0;
    while i < song.tracks.len()
        invariant
            i <= song.tracks@.len(),
            channels_numbered(*song),
            items@.len() == i,
            forall|k: int|
                0 <= k < i ==> match #[trigger] items@[k] {
                    PartListItem::ScorePart(p) => score_part_ok(p, *song, k),
                },
        decreases song.tracks@.len() - i,
    {
        let part = build_score_part(song, i);
        items.push(PartListItem::ScorePart(part));
        i += 1;
    }
    PartList { items }
}

} // verus!
