//! `<notations>` builder: technical markings, ornaments, articulations, slides.

use vstd::prelude::*;

use crate::model::legacy::{BendPoint, Note, SlideType};
use crate::model::musicxml::{
    Articulations, Bend, Fret, HammerPull, Harmonic, Notations, Ornaments, OtherPlacement,
    PlacedEmpty, Slide, StringNumber, StrongAccent, Technical, WavyLine,
};

verus! {

/// Largest bend value among `points`, 0 when there is none.
pub open spec fn peak_of(points: Seq<BendPoint>) -> int
    decreases points.len(),
{
    if points.len() == 0 {
        0
    } else {
        let rest = peak_of(points.drop_last());
        if points.len() == 1 || points.last().value > rest {
            points.last().value as int
        } else {
            rest
        }
    }
}

/// The bend of a note, in hundredths of a semitone, when it rises.
pub open spec fn bend_of(note: Note) -> Option<int> {
    match note.effect.bend {
        Some(b) => if peak_of(b.points@) > 0 {
            Some(peak_of(b.points@))
        } else {
            None
        },
        None => None,
    }
}

/// The note carries a tablature position on a string of the tuning.
pub open spec fn on_tuned_string(note: Note, strings_len: int) -> bool {
    note.string > 0 && note.string <= strings_len
}

/// The note has a technical marking.
pub open spec fn has_technical(note: Note, strings_len: int) -> bool {
    on_tuned_string(note, strings_len) || note.effect.hammer || bend_of(note) is Some
        || note.effect.let_ring || note.effect.palm_mute || note.effect.harmonic is Some
}

/// The slides that MusicXML can show: shift and legato slides, in order,
/// with a dashed or a solid line.
pub open spec fn shown_slides(slides: Seq<SlideType>) -> Seq<Seq<char>>
    decreases slides.len(),
{
    if slides.len() == 0 {
        Seq::empty()
    } else {
        let rest = shown_slides(slides.drop_last());
        match slides.last() {
            SlideType::ShiftSlideTo => rest.push("dashed"@),
            SlideType::LegatoSlideTo => rest.push("solid"@),
            _ => rest,
        }
    }
}

/// The note has an articulation.
pub open spec fn has_articulation(note: Note) -> bool {
    note.effect.staccato || note.effect.accentuated_note || note.effect.heavy_accentuated_note
}

/// The note needs a `<notations>` block.
pub open spec fn needs_notations(note: Note, strings_len: int) -> bool {
    has_technical(note, strings_len) || shown_slides(note.effect.slides@).len() > 0
        || note.effect.vibrato || has_articulation(note)
}

/// `t` is the technical block of `note`.
pub open spec fn technical_ok(t: Technical, note: Note, strings_len: int) -> bool {
    &&& t.fret == if on_tuned_string(note, strings_len) {
        Some(Fret { value: note.value as u8 })
    } else {
        None
    }
    &&& t.string == if on_tuned_string(note, strings_len) {
        Some(StringNumber { value: note.string as u8 })
    } else {
        None
    }
    &&& (t.hammer_on is Some <==> note.effect.hammer)
    &&& (t.hammer_on is Some ==> t.hammer_on->0.technique_type@ == "start"@ && t.hammer_on->0.number
        is None)
    &&& t.pull_off is None
    &&& t.bend == match bend_of(note) {
        Some(p) => Some(Bend { bend_alter_hundredths: p as i32 }),
        None => None,
    }
    &&& (t.other_technical is Some <==> note.effect.let_ring)
    &&& (t.other_technical is Some ==> t.other_technical->0.value is Some
        && t.other_technical->0.value->0@ == "let-ring"@)
    &&& (t.half_muted is Some <==> note.effect.palm_mute)
    &&& (t.half_muted is Some ==> t.half_muted->0.value is None)
    &&& t.harmonic == if note.effect.harmonic is Some {
        Some(Harmonic { natural: true, artificial: false })
    } else {
        None
    }
}

/// `n` is the `<notations>` block of `note`.
pub open spec fn notations_ok(n: Notations, note: Note, strings_len: int) -> bool {
    &&& (n.technical is Some <==> has_technical(note, strings_len))
    &&& (n.technical is Some ==> technical_ok(n.technical->0, note, strings_len))
    &&& n.slides@.len() == shown_slides(note.effect.slides@).len()
    &&& forall|k: int|
        0 <= k < n.slides@.len() ==> (#[trigger] n.slides@[k]).slide_type@ == "start"@
            && n.slides@[k].line_type is Some && n.slides@[k].line_type->0@ == shown_slides(
            note.effect.slides@,
        )[k]
    &&& (n.ornaments is Some <==> note.effect.vibrato)
    &&& (n.ornaments is Some ==> n.ornaments->0.wavy_line is Some
        && n.ornaments->0.wavy_line->0.wavy_type@ == "start"@)
    &&& n.articulations@.len() == if has_articulation(note) {
        1int
    } else {
        0int
    }
    &&& (has_articulation(note) ==> n.articulations@[0] == Articulations {
        accent: if note.effect.accentuated_note {
            Some(PlacedEmpty { placement: None })
        } else {
            None
        },
        strong_accent: if note.effect.heavy_accentuated_note {
            Some(StrongAccent { accent_type: None })
        } else {
            None
        },
        staccato: if note.effect.staccato {
            Some(PlacedEmpty { placement: None })
        } else {
            None
        },
    })
}

fn bend_peak(points: &Vec<BendPoint>) -> (r: i16)
    ensures
        r == peak_of(points@),
{
    let mut peak: i16 = 0;
    let mut i: usize = 0;
    while i < points.len()
        invariant
            i <= points@.len(),
            peak == peak_of(points@.take(i as int)),
        decreases points@.len() - i,
    {
        assert(points@.take(i + 1).drop_last() =~= points@.take(i as int));
        let v = points[i].value;
        if i == 0 || v > peak {
            peak = v;
        }
        i += 1;
    }
    assert(points@.take(i as int) =~= points@);
    peak
}

fn build_slides(slides: &Vec<SlideType>) -> (r: Vec<Slide>)
    ensures
        r@.len() == shown_slides(slides@).len(),
        forall|k: int|
            0 <= k < r@.len() ==> (#[trigger] r@[k]).slide_type@ == "start"@ && r@[k].line_type
                is Some && r@[k].line_type->0@ == shown_slides(slides@)[k],
{
    proof {
        reveal_strlit("start");
        reveal_strlit("solid");
        reveal_strlit("dashed");
    }
    let mut out: Vec<Slide> = Vec::new();
    let mut i: usize = 0;
    while i < slides.len()
        invariant
            i <= slides@.len(),
            out@.len() == shown_slides(slides@.take(i as int)).len(),
            forall|k: int|
                0 <= k < out@.len() ==> (#[trigger] out@[k]).slide_type@ == "start"@
                    && out@[k].line_type is Some && out@[k].line_type->0@ == shown_slides(
                    slides@.take(i as int),
                )[k],
        decreases slides@.len() - i,
    {
        assert(slides@.take(i + 1).drop_last() =~= slides@.take(i as int));
        match slides[i] {
            SlideType::ShiftSlideTo => {
                out.push(
                    Slide {
                        slide_type: String::from_str("start"),
                        line_type: Some(String::from_str("dashed")),
                    },
                );
            },
            SlideType::LegatoSlideTo => {
                out.push(
                    Slide {
                        slide_type: String::from_str("start"),
                        line_type: Some(String::from_str("solid")),
                    },
                );
            },
            _ => {},
        }
        i += 1;
    }
    assert(slides@.take(i as int) =~= slides@);
    out
}

/// Build `<notations>` from a legacy [`Note`], including the tablature fret
/// and string when the note's string is one of the tuning's `strings`.
/// Returns no block when the note has nothing to show.
pub fn build_notations(note: &Note, strings: &[(i8, i8)]) -> (r: Vec<Notations>)
    ensures
        r@.len() == if needs_notations(*note, strings@.len() as int) {
            1int
        } else {
            0int
        },
        r@.len() == 1 ==> notations_ok(r@[0], *note, strings@.len() as int),
{
    proof {
        reveal_strlit("start");
        reveal_strlit("let-ring");
    }
    let eff = &note.effect;
    let tuned = note.string > 0 && (note.string as usize) <= strings.len();
    let fret = if tuned {
        Some(Fret { value: note.value as u8 })
    } else {
        None
    };
    let string = if tuned {
        Some(StringNumber { value: note.string as u8 })
    } else {
        None
    };
    let hammer_on = if eff.hammer {
        Some(HammerPull { technique_type: String::from_str("start"), number: None })
    } else {
        None
    };
    let bend = match &eff.bend {
        Some(b) => {
            let peak = bend_peak(&b.points);
            if peak > 0 {
                Some(Bend { bend_alter_hundredths: peak as i32 })
            } else {
                None
            }
        },
        None => None,
    };
    let other_technical = if eff.let_ring {
        Some(OtherPlacement { value: Some(String::from_str("let-ring")) })
    } else {
        None
    };
    let half_muted = if eff.palm_mute {
        Some(OtherPlacement { value: None })
    } else {
        None
    };
    let harmonic = if eff.harmonic.is_some() {
        Some(Harmonic { natural: true, artificial: false })
    } else {
        None
    };
    let any_technical = tuned || eff.hammer || bend.is_some() || eff.let_ring || eff.palm_mute
        || eff.harmonic.is_some();
    let technical = if any_technical {
        Some(
            Technical {
                harmonic,
                fret,
                string,
                hammer_on,
                pull_off: None,
                bend,
                half_muted,
                other_technical,
            },
        )
    } else {
        None
    };
    let slides = build_slides(&eff.slides);
    let ornaments = if eff.vibrato {
        Some(Ornaments { wavy_line: Some(WavyLine { wavy_type: String::from_str("start") }) })
    } else {
        None
    };
    let mut articulations: Vec<Articulations> = Vec::new();
    if eff.staccato || eff.accentuated_note || eff.heavy_accentuated_note {
        articulations.push(
            Articulations {
                accent: if eff.accentuated_note {
                    Some(PlacedEmpty { placement: None })
                } else {
                    None
                },
                strong_accent: if eff.heavy_accentuated_note {
                    Some(StrongAccent { accent_type: None })
                } else {
                    None
                },
                staccato: if eff.staccato {
                    Some(PlacedEmpty { placement: None })
                } else {
                    None
                },
            },
        );
    }
    if technical.is_none() && slides.len() == 0 && ornaments.is_none() && articulations.len() == 0 {
        return Vec::new();
    }
    let mut out: Vec<Notations> = Vec::new();
    out.push(Notations { slides, ornaments, technical, articulations });
    out
}

} // verus!
