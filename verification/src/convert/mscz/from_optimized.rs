//! Value conversions of the MuseScore writer: XML text escaping, duration
//! type names, MIDI pitch numbers and key signatures as fifths.

use vstd::prelude::*;

use crate::model::{
    pitch_step_semitone, step_semitone, Beat, Duration, Note, NoteValue, Pitch, PitchStep, TieType,
};
use crate::text::{char_text, decimal, push_decimal, push_signed_decimal, signed_decimal};

verus! {

// ---------------------------------------------------------------------------
// Escaping
// ---------------------------------------------------------------------------

/// What XML text holds in place of `c`: an entity for the five markup
/// characters, `c` itself for any other.
pub open spec fn escaped_char(c: char) -> Seq<char> {
    if c == '&' {
        seq!['&', 'a', 'm', 'p', ';']
    } else if c == '<' {
        seq!['&', 'l', 't', ';']
    } else if c == '>' {
        seq!['&', 'g', 't', ';']
    } else if c == '"' {
        seq!['&', 'q', 'u', 'o', 't', ';']
    } else if c == '\'' {
        seq!['&', 'a', 'p', 'o', 's', ';']
    } else {
        seq![c]
    }
}

/// `s` with every character replaced by what XML text holds in its place.
pub open spec fn escaped(s: Seq<char>) -> Seq<char>
    decreases s.len(),
{
    if s.len() == 0 {
        Seq::empty()
    } else {
        escaped(s.drop_last()) + escaped_char(s.last())
    }
}

/// `input` escaped for XML text and attribute values.
pub fn xml_escape(input: &str) -> (r: String)
    ensures
        r@ == escaped(input@),
{
    let mut out = String::new();
    let n = input.unicode_len();
    let mut i: usize = 0;
    while i < n
        invariant
            n == input@.len(),
            i <= n,
            out@ == escaped(input@.subrange(0, i as int)),
        decreases n - i,
    {
        let c = input.get_char(i);
        let ghost before = out@;
        proof {
            reveal_strlit("&amp;");
            reveal_strlit("&lt;");
            reveal_strlit("&gt;");
            reveal_strlit("&quot;");
            reveal_strlit("&apos;");
        }
        if c == '&' {
            out.append("&amp;");
        } else if c == '<' {
            out.append("&lt;");
        } else if c == '>' {
            out.append("&gt;");
        } else if c == '"' {
            out.append("&quot;");
        } else if c == '\'' {
            out.append("&apos;");
        } else {
            let t = char_text(c);
            out.append(t.as_str());
        }
        assert(out@ =~= before + escaped_char(c));
        proof {
            let next = input@.subrange(0, i + 1);
            assert(next.drop_last() =~= input@.subrange(0, i as int));
            assert(next.last() == c);
        }
        i += 1;
    }
    proof {
        assert(input@.subrange(0, n as int) =~= input@);
    }
    out
}

// ---------------------------------------------------------------------------
// Durations
// ---------------------------------------------------------------------------

/// MuseScore's name of a duration type; a value without a name is written
/// as a quarter.
pub open spec fn kind_name(value: NoteValue) -> Seq<char> {
    match value {
        NoteValue::Whole => seq!['w', 'h', 'o', 'l', 'e'],
        NoteValue::Half => seq!['h', 'a', 'l', 'f'],
        NoteValue::Quarter => seq!['q', 'u', 'a', 'r', 't', 'e', 'r'],
        NoteValue::Eighth => seq!['e', 'i', 'g', 'h', 't', 'h'],
        NoteValue::Sixteenth => seq!['1', '6', 't', 'h'],
        NoteValue::ThirtySecond => seq!['3', '2', 'n', 'd'],
        NoteValue::SixtyFourth => seq!['6', '4', 't', 'h'],
        NoteValue::HundredTwentyEighth => seq!['1', '2', '8', 't', 'h'],
        NoteValue::Other(_) => seq!['q', 'u', 'a', 'r', 't', 'e', 'r'],
    }
}

/// The `durationType` text of a note value.
pub fn duration_kind_name(value: NoteValue) -> (r: &'static str)
    ensures
        r@ == kind_name(value),
{
    proof {
        reveal_strlit("whole");
        reveal_strlit("half");
        reveal_strlit("quarter");
        reveal_strlit("eighth");
        reveal_strlit("16th");
        reveal_strlit("32nd");
        reveal_strlit("64th");
        reveal_strlit("128th");
    }
    match value {
        NoteValue::Whole => "whole",
        NoteValue::Half => "half",
        NoteValue::Quarter => "quarter",
        NoteValue::Eighth => "eighth",
        NoteValue::Sixteenth => "16th",
        NoteValue::ThirtySecond => "32nd",
        NoteValue::SixtyFourth => "64th",
        NoteValue::HundredTwentyEighth => "128th",
        NoteValue::Other(_) => "quarter",
    }
}

// ---------------------------------------------------------------------------
// Pitches and keys
// ---------------------------------------------------------------------------

/// MIDI number of a written pitch: twelve per octave above C-1, plus the
/// step's semitone and the alteration.
pub open spec fn mscx_midi(pitch: Pitch) -> int {
    (pitch.octave + 1) * 12 + step_semitone(pitch.step) + pitch.alter
}

/// The MIDI number that the writer gives a pitch.
pub fn pitch_to_midi(pitch: Pitch) -> (r: i16)
    ensures
        r == mscx_midi(pitch),
{
    let step_offset = pitch_step_semitone(pitch.step) as i16;
    (pitch.octave as i16 + 1) * 12 + step_offset + pitch.alter as i16
}

/// Position on the circle of fifths of a major key's tonic (its step and
/// alteration), from -7 (C flat) to 7 (C sharp); 0 for a tonic that no
/// key signature has.
pub open spec fn root_fifths(step: PitchStep, alter: i8) -> i8 {
    match (step, alter) {
        (PitchStep::C, -1) => -7i8,
        (PitchStep::G, -1) => -6i8,
        (PitchStep::D, -1) => -5i8,
        (PitchStep::A, -1) => -4i8,
        (PitchStep::E, -1) => -3i8,
        (PitchStep::B, -1) => -2i8,
        (PitchStep::F, 0) => -1i8,
        (PitchStep::C, 0) => 0i8,
        (PitchStep::G, 0) => 1i8,
        (PitchStep::D, 0) => 2i8,
        (PitchStep::A, 0) => 3i8,
        (PitchStep::E, 0) => 4i8,
        (PitchStep::B, 0) => 5i8,
        (PitchStep::F, 1) => 6i8,
        (PitchStep::C, 1) => 7i8,
        _ => 0i8,
    }
}

/// The fifths count of the major key whose tonic is `root`; the octave
/// plays no part.
pub fn fifths_from_root(root: Pitch) -> (r: i8)
    ensures
        r == root_fifths(root.step, root.alter),
{
    match (root.step, root.alter) {
        (PitchStep::C, -1) => -7,
        (PitchStep::G, -1) => -6,
        (PitchStep::D, -1) => -5,
        (PitchStep::A, -1) => -4,
        (PitchStep::E, -1) => -3,
        (PitchStep::B, -1) => -2,
        (PitchStep::F, 0) => -1,
        (PitchStep::C, 0) => 0,
        (PitchStep::G, 0) => 1,
        (PitchStep::D, 0) => 2,
        (PitchStep::A, 0) => 3,
        (PitchStep::E, 0) => 4,
        (PitchStep::B, 0) => 5,
        (PitchStep::F, 1) => 6,
        (PitchStep::C, 1) => 7,
        _ => 0,
    }
}

// ---------------------------------------------------------------------------
// Beats, durations and notes as MSCX text
// ---------------------------------------------------------------------------

/// The MSCX lines of a duration: its type, and its dots when it has any.
pub open spec fn duration_text(d: Duration) -> Seq<char> {
    "            <durationType>"@ + kind_name(d.base) + "</durationType>\n"@ + if d.dots > 0 {
        "            <dots>"@ + decimal(d.dots as nat) + "</dots>\n"@
    } else {
        Seq::empty()
    }
}

/// Write a duration.
pub fn write_duration(out: &mut String, duration: &Duration)
    ensures
        final(out)@ == old(out)@ + duration_text(*duration),
{
    proof {
        reveal_strlit("            <durationType>");
        reveal_strlit("</durationType>\n");
        reveal_strlit("            <dots>");
        reveal_strlit("</dots>\n");
    }
    let kind = duration_kind_name(duration.base);
    out.append("            <durationType>");
    out.append(kind);
    out.append("</durationType>\n");
    let ghost mid = out@;
    if duration.dots > 0 {
        out.append("            <dots>");
        push_decimal(out, duration.dots as u64);
        out.append("</dots>\n");
    }
    assert(out@ =~= old(out)@ + duration_text(*duration));
}

/// The `pitch` line of a note, when it has a pitch.
pub open spec fn pitch_line(n: Note) -> Seq<char> {
    match n.pitch {
        Some(p) => "              <pitch>"@ + signed_decimal(mscx_midi(p)) + "</pitch>\n"@,
        None => Seq::empty(),
    }
}

/// The `string` line of a note, its string made 0-based again
/// (saturating), when it has a string.
pub open spec fn string_line(n: Note) -> Seq<char> {
    match n.string {
        Some(s) => "              <string>"@ + decimal((if s > 0 { s - 1 } else { 0 }) as nat) + "</string>\n"@,
        None => Seq::empty(),
    }
}

/// The `fret` line of a note, when it has a fret.
pub open spec fn fret_line(n: Note) -> Seq<char> {
    match n.fret {
        Some(f) => "              <fret>"@ + decimal(f as nat) + "</fret>\n"@,
        None => Seq::empty(),
    }
}

/// The tie line of a note, when it is tied.
pub open spec fn tie_line(n: Note) -> Seq<char> {
    match n.tie {
        Some(TieType::Start) => "              <Spanner type=\"Tie\"><next/></Spanner>\n"@,
        Some(TieType::End) => "              <Spanner type=\"Tie\"><prev/></Spanner>\n"@,
        None => Seq::empty(),
    }
}

/// The MSCX element of a note: its pitch, string, fret and tie lines.
pub open spec fn note_text(n: Note) -> Seq<char> {
    "            <Note>\n"@ + pitch_line(n) + string_line(n) + fret_line(n) + tie_line(n)
        + "              </Note>\n"@
}

/// Write the pitch line of a note.
fn write_pitch_line(out: &mut String, note: &Note)
    ensures
        final(out)@ == old(out)@ + pitch_line(*note),
{
    if let Some(pitch) = note.pitch {
        proof {
            reveal_strlit("              <pitch>");
            reveal_strlit("</pitch>\n");
        }
        out.append("              <pitch>");
        let midi = pitch_to_midi(pitch);
        push_signed_decimal(out, midi as i64);
        out.append("</pitch>\n");
    }
    assert(out@ =~= old(out)@ + pitch_line(*note));
}

/// Write the string line of a note.
fn write_string_line(out: &mut String, note: &Note)
    ensures
        final(out)@ == old(out)@ + string_line(*note),
{
    if let Some(string) = note.string {
        proof {
            reveal_strlit("              <string>");
            reveal_strlit("</string>\n");
        }
        out.append("              <string>");
        push_decimal(out, string.saturating_sub(1) as u64);
        out.append("</string>\n");
    }
    assert(out@ =~= old(out)@ + string_line(*note));
}

/// Write the fret line of a note.
fn write_fret_line(out: &mut String, note: &Note)
    ensures
        final(out)@ == old(out)@ + fret_line(*note),
{
    if let Some(fret) = note.fret {
        proof {
            reveal_strlit("              <fret>");
            reveal_strlit("</fret>\n");
        }
        out.append("              <fret>");
        push_decimal(out, fret as u64);
        out.append("</fret>\n");
    }
    assert(out@ =~= old(out)@ + fret_line(*note));
}

/// Write the tie line of a note.
fn write_tie_line(out: &mut String, note: &Note)
    ensures
        final(out)@ == old(out)@ + tie_line(*note),
{
    match note.tie {
        Some(TieType::Start) => {
            out.append("              <Spanner type=\"Tie\"><next/></Spanner>\n");
        },
        Some(TieType::End) => {
            out.append("              <Spanner type=\"Tie\"><prev/></Spanner>\n");
        },
        None => {},
    }
    assert(out@ =~= old(out)@ + tie_line(*note));
}

/// Write a note.
pub fn write_note(out: &mut String, note: &Note)
    ensures
        final(out)@ == old(out)@ + note_text(*note),
{
    out.append("            <Note>\n");
    write_pitch_line(out, note);
    write_string_line(out, note);
    write_fret_line(out, note);
    write_tie_line(out, note);
    out.append("              </Note>\n");
    assert(out@ =~= old(out)@ + note_text(*note));
}

/// The notes' elements, in order.
pub open spec fn notes_text(notes: Seq<Note>) -> Seq<char>
    decreases notes.len(),
{
    if notes.len() == 0 {
        Seq::empty()
    } else {
        notes_text(notes.drop_last()) + note_text(notes.last())
    }
}

/// The MSCX element of a beat: a rest (marked so, or without notes) with
/// its duration, or a chord with its duration and notes.
pub open spec fn beat_text(b: Beat) -> Seq<char> {
    if b.gp_rest || b.notes@.len() == 0 {
        "          <Rest>\n"@ + duration_text(b.duration) + "            </Rest>\n"@
    } else {
        "          <Chord>\n"@ + duration_text(b.duration) + notes_text(b.notes@)
            + "            </Chord>\n"@
    }
}

/// Write a beat.
pub fn write_beat(out: &mut String, beat: &Beat)
    ensures
        final(out)@ == old(out)@ + beat_text(*beat),
{
    proof {
        reveal_strlit("          <Rest>\n");
        reveal_strlit("            </Rest>\n");
        reveal_strlit("          <Chord>\n");
        reveal_strlit("            </Chord>\n");
    }
    if beat.gp_rest || beat.notes.len() == 0 {
        out.append("          <Rest>\n");
        write_duration(out, &beat.duration);
        out.append("            </Rest>\n");
        assert(out@ =~= old(out)@ + beat_text(*beat));
    } else {
        out.append("          <Chord>\n");
        write_duration(out, &beat.duration);
        let ghost head = out@;
        let mut i: usize = 0;
        while i < beat.notes.len()
            invariant
                i <= beat.notes@.len(),
                out@ == head + notes_text(beat.notes@.subrange(0, i as int)),
            decreases beat.notes@.len() - i,
        {
            let ghost before = out@;
            write_note(out, &beat.notes[i]);
            proof {
                let next = beat.notes@.subrange(0, i + 1);
                assert(next.drop_last() =~= beat.notes@.subrange(0, i as int));
                assert(out@ =~= head + notes_text(next));
            }
            i += 1;
        }
        assert(beat.notes@.subrange(0, beat.notes@.len() as int) =~= beat.notes@);
        out.append("            </Chord>\n");
        assert(out@ =~= old(out)@ + beat_text(*beat));
    }
}

} // verus!
