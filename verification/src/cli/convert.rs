//! Score formats of the `convert` command and how they are resolved from
//! names, file extensions and command-line flags.

use vstd::prelude::*;

use crate::text::{
    find_substring, first_occurrence, has_substring, lowercase, occurs_at, str_eq, to_lower,
};

verus! {

/// Arguments of the `convert` command.
#[derive(Debug)]
pub struct ConvertArgs {
    /// Input file or directory.
    pub input: String,
    /// Output file or directory.
    pub output: String,
    /// Output format name.
    pub to: Option<String>,
    /// Input format name.
    pub from: Option<String>,
    /// Show what would be done without writing any files.
    pub dry_run: bool,
}

/// A score file format.
#[derive(Debug, Clone, Copy, PartialEq, Eq, Structural)]
pub enum Format {
    Gp3,
    Gp4,
    Gp5,
    Gpx,
    Gp,
    MusicXml,
    Score,
    Mscz,
}

/// Why a format could not be resolved.
#[derive(Debug, Clone, PartialEq, Eq)]
pub enum FormatError {
    /// `--from` names no known format.
    UnknownInputFormat(String),
    /// The input's extension (given) names no known format.
    CannotDetectInput(String),
    /// `--to` names no known format.
    UnknownOutputFormat(String),
    /// Batch mode needs `--to`.
    BatchNeedsTarget,
    /// The output's extension (given) names no known format.
    CannotDetectOutput(String),
}

/// The format a lower-case file extension names.
pub open spec fn format_of_ext(e: Seq<char>) -> Option<Format> {
    if e == "gp3"@ {
        Some(Format::Gp3)
    } else if e == "gp4"@ {
        Some(Format::Gp4)
    } else if e == "gp5"@ {
        Some(Format::Gp5)
    } else if e == "gpx"@ {
        Some(Format::Gpx)
    } else if e == "gp"@ {
        Some(Format::Gp)
    } else if e == "xml"@ || e == "musicxml"@ {
        Some(Format::MusicXml)
    } else if e == "score"@ || e == "msor"@ {
        Some(Format::Score)
    } else if e == "mscz"@ {
        Some(Format::Mscz)
    } else {
        None
    }
}

/// The format a lower-case format name names: the extensions, and the
/// aliases `gp7`, `opt` and `musescore`.
pub open spec fn format_of_name(n: Seq<char>) -> Option<Format> {
    if n == "gp7"@ {
        Some(Format::Gp)
    } else if n == "opt"@ {
        Some(Format::Score)
    } else if n == "musescore"@ {
        Some(Format::Mscz)
    } else {
        format_of_ext(n)
    }
}

/// The format a lower-case file extension names.
pub fn format_for_lower_ext(e: &str) -> (r: Option<Format>)
    ensures
        r == format_of_ext(e@),
{
    if str_eq(e, "gp3") {
        Some(Format::Gp3)
    } else if str_eq(e, "gp4") {
        Some(Format::Gp4)
    } else if str_eq(e, "gp5") {
        Some(Format::Gp5)
    } else if str_eq(e, "gpx") {
        Some(Format::Gpx)
    } else if str_eq(e, "gp") {
        Some(Format::Gp)
    } else if str_eq(e, "xml") || str_eq(e, "musicxml") {
        Some(Format::MusicXml)
    } else if str_eq(e, "score") || str_eq(e, "msor") {
        Some(Format::Score)
    } else if str_eq(e, "mscz") {
        Some(Format::Mscz)
    } else {
        None
    }
}

/// The format a lower-case format name names.
pub fn format_for_lower_name(n: &str) -> (r: Option<Format>)
    ensures
        r == format_of_name(n@),
{
    if str_eq(n, "gp7") {
        Some(Format::Gp)
    } else if str_eq(n, "opt") {
        Some(Format::Score)
    } else if str_eq(n, "musescore") {
        Some(Format::Mscz)
    } else {
        format_for_lower_ext(n)
    }
}

/// Default file extension of a format.
pub open spec fn ext_text(f: Format) -> Seq<char> {
    match f {
        Format::Gp3 => "gp3"@,
        Format::Gp4 => "gp4"@,
        Format::Gp5 => "gp5"@,
        Format::Gpx => "gpx"@,
        Format::Gp => "gp"@,
        Format::MusicXml => "musicxml"@,
        Format::Score => "score"@,
        Format::Mscz => "mscz"@,
    }
}

impl Format {
    /// The format of a file extension, in any case.
    pub fn from_ext(ext: &str) -> (r: Option<Format>)
        ensures
            r == format_of_ext(lowercase(ext@)),
    {
        let lower = to_lower(ext);
        format_for_lower_ext(lower.as_str())
    }

    /// The format of a `--from` / `--to` name, in any case.
    pub fn from_name(s: &str) -> (r: Option<Format>)
        ensures
            r == format_of_name(lowercase(s@)),
    {
        let lower = to_lower(s);
        format_for_lower_name(lower.as_str())
    }

    /// The default file extension of the format.
    pub fn default_ext(self) -> (r: &'static str)
        ensures
            r@ == ext_text(self),
    {
        match self {
            Format::Gp3 => "gp3",
            Format::Gp4 => "gp4",
            Format::Gp5 => "gp5",
            Format::Gpx => "gpx",
            Format::Gp => "gp",
            Format::MusicXml => "musicxml",
            Format::Score => "score",
            Format::Mscz => "mscz",
        }
    }

    /// A human-readable name of the format.
    pub fn label(self) -> (r: &'static str)
        ensures
            r@ == match self {
                Format::Gp3 => "Guitar Pro 3 (GP3)"@,
                Format::Gp4 => "Guitar Pro 4 (GP4)"@,
                Format::Gp5 => "Guitar Pro 5 (GP5)"@,
                Format::Gpx => "Guitar Pro 6 (GPX)"@,
                Format::Gp => "Guitar Pro 7+ (GP)"@,
                Format::MusicXml => "MusicXML"@,
                Format::Score => "Optimized Score (JSON)"@,
                Format::Mscz => "MuseScore (MSCZ)"@,
            },
    {
        match self {
            Format::Gp3 => "Guitar Pro 3 (GP3)",
            Format::Gp4 => "Guitar Pro 4 (GP4)",
            Format::Gp5 => "Guitar Pro 5 (GP5)",
            Format::Gpx => "Guitar Pro 6 (GPX)",
            Format::Gp => "Guitar Pro 7+ (GP)",
            Format::MusicXml => "MusicXML",
            Format::Score => "Optimized Score (JSON)",
            Format::Mscz => "MuseScore (MSCZ)",
        }
    }

    /// The Guitar Pro version written for the legacy formats.
    pub fn gp_write_version(self) -> (r: Option<(u8, u8, u8)>)
        ensures
            r == match self {
                Format::Gp3 => Some((3u8, 0u8, 0u8)),
                Format::Gp4 => Some((4u8, 0u8, 0u8)),
                Format::Gp5 => Some((5u8, 1u8, 0u8)),
                _ => None,
            },
    {
        match self {
            Format::Gp3 => Some((3, 0, 0)),
            Format::Gp4 => Some((4, 0, 0)),
            Format::Gp5 => Some((5, 1, 0)),
            _ => None,
        }
    }
}

/// The view of an optional text.
pub open spec fn opt_view(s: Option<&str>) -> Option<Seq<char>> {
    match s {
        Some(t) => Some(t@),
        None => None,
    }
}

/// The input format: from the `--from` flag when given, else from the
/// input's extension `ext`.
pub open spec fn input_format_of(flag: Option<Seq<char>>, ext: Seq<char>) -> Result<Format, ()> {
    match flag {
        Some(s) => match format_of_name(lowercase(s)) {
            Some(f) => Ok(f),
            None => Err(()),
        },
        None => match format_of_ext(lowercase(ext)) {
            Some(f) => Ok(f),
            None => Err(()),
        },
    }
}

/// Resolve the input format from the `--from` flag or, without it, from the
/// input file's extension `ext` (empty when the path has none).
pub fn input_format_from(flag: Option<&str>, ext: &str) -> (r: Result<Format, FormatError>)
    ensures
        match r {
            Ok(f) => input_format_of(opt_view(flag), ext@) == Ok::<Format, ()>(f),
            Err(e) => input_format_of(opt_view(flag), ext@) is Err && match flag {
                Some(s) => e is UnknownInputFormat && e->UnknownInputFormat_0@ == s@,
                None => e is CannotDetectInput && e->CannotDetectInput_0@ == ext@,
            },
        },
{
    match flag {
        Some(s) => match Format::from_name(s) {
            Some(f) => Ok(f),
            None => Err(FormatError::UnknownInputFormat(s.to_owned())),
        },
        None => match Format::from_ext(ext) {
            Some(f) => Ok(f),
            None => Err(FormatError::CannotDetectInput(ext.to_owned())),
        },
    }
}

/// The output format: from the `--to` flag when given; in batch mode the
/// flag is required; else from the output's extension `ext`.
pub open spec fn output_format_of(flag: Option<Seq<char>>, ext: Seq<char>, require_flag: bool) -> Result<
    Format,
    (),
> {
    match flag {
        Some(s) => match format_of_name(lowercase(s)) {
            Some(f) => Ok(f),
            None => Err(()),
        },
        None => if require_flag {
            Err(())
        } else {
            match format_of_ext(lowercase(ext)) {
                Some(f) => Ok(f),
                None => Err(()),
            }
        },
    }
}

/// Resolve the output format from the `--to` flag or, without it and
/// outside batch mode, from the output file's extension `ext`.
pub fn output_format_from(flag: Option<&str>, ext: &str, require_flag: bool) -> (r: Result<
    Format,
    FormatError,
>)
    ensures
        match r {
            Ok(f) => output_format_of(opt_view(flag), ext@, require_flag) == Ok::<Format, ()>(f),
            Err(e) => output_format_of(opt_view(flag), ext@, require_flag) is Err && match flag {
                Some(s) => e is UnknownOutputFormat && e->UnknownOutputFormat_0@ == s@,
                None => if require_flag {
                    e is BatchNeedsTarget
                } else {
                    e is CannotDetectOutput && e->CannotDetectOutput_0@ == ext@
                },
            },
        },
{
    match flag {
        Some(s) => match Format::from_name(s) {
            Some(f) => Ok(f),
            None => Err(FormatError::UnknownOutputFormat(s.to_owned())),
        },
        None => {
            if require_flag {
                return Err(FormatError::BatchNeedsTarget);
            }
            match Format::from_ext(ext) {
                Some(f) => Ok(f),
                None => Err(FormatError::CannotDetectOutput(ext.to_owned())),
            }
        },
    }
}

/// Resolved source and destination formats.
#[derive(Debug, Clone, Copy, PartialEq, Eq, Structural)]
pub struct ConvertFormats {
    pub src: Format,
    pub dst: Format,
}

/// Index of the last `c` among the first `n` characters of `s`; -1 when
/// there is none.
pub open spec fn last_index_of(s: Seq<char>, c: char, n: int) -> int
    decreases n,
{
    if n <= 0 {
        -1
    } else if s[n - 1] == c {
        n - 1
    } else {
        last_index_of(s, c, n - 1)
    }
}

/// What follows the last `/` of a path (the whole path without one).
pub open spec fn last_segment(p: Seq<char>) -> Seq<char> {
    p.subrange(last_index_of(p, '/', p.len() as int) + 1, p.len() as int)
}

/// A path whose final component is plainly its last segment on every
/// platform: it holds no backslash and no `:`, and its last segment is not
/// empty, `.` or `..`.
pub open spec fn plain_path(p: Seq<char>) -> bool {
    &&& !p.contains('\\')
    &&& !p.contains(':')
    &&& last_segment(p).len() > 0
    &&& last_segment(p) != seq!['.']
    &&& last_segment(p) != seq!['.', '.']
}

/// The extension of a file name as `Path::extension` documents it: what
/// follows its final `.`; empty when it has no `.`, or begins with `.` and
/// has no other.
pub open spec fn name_extension(name: Seq<char>) -> Seq<char> {
    let k = last_index_of(name, '.', name.len() as int);
    if k <= 0 {
        Seq::empty()
    } else {
        name.subrange(k + 1, name.len() as int)
    }
}

/// The extension of a path as `Path::extension` finds it, empty when there
/// is none.  Stated: it holds no `.` and no `/`; a nonempty one occurs in
/// the path right after a `.`; and for a plain path (see [`plain_path`]),
/// whose final component is its last segment, it is that segment's
/// extension as the documentation of `Path::extension` defines it.  For
/// other paths which part of the path it is depends on the platform's path
/// rules (its separators and prefixes) and is not stated.
#[verifier::external_body]
pub(crate) fn extension_of(path: &str) -> (r: String)
    ensures
        !r@.contains('.'),
        !r@.contains('/'),
        r@.len() > 0 ==> has_substring(path@, seq!['.'] + r@),
        plain_path(path@) ==> r@ == name_extension(last_segment(path@)),
{
    std::path::Path::new(path).extension().and_then(|e| e.to_str()).unwrap_or("").to_string()
}

/// A text that `extension_of` can give for `path`, as its contract states:
/// no `.` and no `/`, found in the path after a `.` when not empty, and
/// for a plain path the extension of its last segment.
pub open spec fn possible_extension(path: Seq<char>, ext: Seq<char>) -> bool {
    &&& !ext.contains('.')
    &&& !ext.contains('/')
    &&& ext.len() > 0 ==> has_substring(path, seq!['.'] + ext)
    &&& plain_path(path) ==> ext == name_extension(last_segment(path))
}

/// `r` is what [`input_format_from`] gives for the flag and extension `ext`.
pub open spec fn input_result(flag: Option<Seq<char>>, ext: Seq<char>, r: Result<Format, FormatError>) -> bool {
    match r {
        Ok(f) => input_format_of(flag, ext) == Ok::<Format, ()>(f),
        Err(e) => input_format_of(flag, ext) is Err && match flag {
            Some(s) => e is UnknownInputFormat && e->UnknownInputFormat_0@ == s,
            None => e is CannotDetectInput && e->CannotDetectInput_0@ == ext,
        },
    }
}

/// `r` is the input format of `path` resolved from `flag`: with a flag, from
/// the flag alone; without one, from an extension that the path can have
/// (for a plain path, the extension of its last segment).
pub open spec fn input_resolved(flag: Option<Seq<char>>, path: Seq<char>, r: Result<Format, FormatError>) -> bool {
    match flag {
        Some(_) => input_result(flag, Seq::empty(), r),
        None => exists|ext: Seq<char>| #[trigger] possible_extension(path, ext) && input_result(flag, ext, r),
    }
}

/// `r` is what [`output_format_from`] gives for the flag, extension `ext`
/// and batch mode.
pub open spec fn output_result(
    flag: Option<Seq<char>>,
    ext: Seq<char>,
    require_flag: bool,
    r: Result<Format, FormatError>,
) -> bool {
    match r {
        Ok(f) => output_format_of(flag, ext, require_flag) == Ok::<Format, ()>(f),
        Err(e) => output_format_of(flag, ext, require_flag) is Err && match flag {
            Some(s) => e is UnknownOutputFormat && e->UnknownOutputFormat_0@ == s,
            None => if require_flag {
                e is BatchNeedsTarget
            } else {
                e is CannotDetectOutput && e->CannotDetectOutput_0@ == ext
            },
        },
    }
}

/// `r` is the output format of `path` resolved from `flag`: with a flag, or
/// in batch mode, without looking at the path; else from an extension that
/// the path can have (for a plain path, the extension of its last segment).
pub open spec fn output_resolved(
    flag: Option<Seq<char>>,
    path: Seq<char>,
    require_flag: bool,
    r: Result<Format, FormatError>,
) -> bool {
    if flag is Some || require_flag {
        output_result(flag, Seq::empty(), require_flag, r)
    } else {
        exists|ext: Seq<char>| #[trigger] possible_extension(path, ext) && output_result(flag, ext, require_flag, r)
    }
}

/// Resolve the input format of `path`: from `--from` when given (the path
/// is then not looked at), else from the path's extension.
pub fn resolve_input_format(flag: Option<&str>, path: &str) -> (r: Result<Format, FormatError>)
    ensures
        input_resolved(opt_view(flag), path@, r),
        flag is None && plain_path(path@) ==> input_result(None, name_extension(last_segment(path@)), r),
{
    match flag {
        Some(_) => input_format_from(flag, ""),
        None => {
            let ext = extension_of(path);
            let r = input_format_from(None, ext.as_str());
            assert(possible_extension(path@, ext@) && input_result(None, ext@, r));
            r
        },
    }
}

/// Resolve the output format of `path`: from `--to` when given, else (not
/// in batch mode) from the path's extension.
pub fn resolve_output_format(flag: Option<&str>, path: &str, require_flag: bool) -> (r: Result<
    Format,
    FormatError,
>)
    ensures
        output_resolved(opt_view(flag), path@, require_flag, r),
        flag is None && !require_flag && plain_path(path@) ==> output_result(
            None,
            name_extension(last_segment(path@)),
            false,
            r,
        ),
{
    match flag {
        Some(_) => output_format_from(flag, "", require_flag),
        None => {
            if require_flag {
                return Err(FormatError::BatchNeedsTarget);
            }
            let ext = extension_of(path);
            let r = output_format_from(None, ext.as_str(), false);
            assert(possible_extension(path@, ext@) && output_result(None, ext@, false, r));
            r
        },
    }
}

/// Resolve both formats of a single-file conversion: the input format
/// first; when it resolves, the output format (outside batch mode).
pub fn resolve_formats(from: Option<&str>, input: &str, to: Option<&str>, output: &str) -> (r: Result<
    ConvertFormats,
    FormatError,
>)
    ensures
        match r {
            Ok(c) => input_resolved(opt_view(from), input@, Ok(c.src)) && output_resolved(
                opt_view(to),
                output@,
                false,
                Ok(c.dst),
            ),
            Err(e) => input_resolved(opt_view(from), input@, Err(e)) || exists|f: Format|
                input_resolved(opt_view(from), input@, Ok(f)) && #[trigger] output_resolved(
                    opt_view(to),
                    output@,
                    false,
                    Err(e),
                ),
        },
{
    let src = match resolve_input_format(from, input) {
        Ok(f) => f,
        Err(e) => {
            return Err(e);
        },
    };
    let dst = match resolve_output_format(to, output, false) {
        Ok(f) => f,
        Err(e) => {
            return Err(e);
        },
    };
    Ok(ConvertFormats { src, dst })
}

/// The file name of the converted `stem` in format `dst`.
pub fn output_file_name(stem: &str, dst: Format) -> (r: String)
    ensures
        r@ == stem@ + "."@ + ext_text(dst),
{
    let mut s = String::from_str(stem);
    s.append(".");
    s.append(dst.default_ext());
    s
}

/// The text of an optional string.
pub open spec fn opt_string_view(s: Option<String>) -> Option<Seq<char>> {
    match s {
        Some(t) => Some(t@),
        None => None,
    }
}

fn as_opt_str(s: &Option<String>) -> (r: Option<&str>)
    ensures
        opt_view(r) == opt_string_view(*s),
{
    match s {
        Some(t) => Some(t.as_str()),
        None => None,
    }
}

impl ConvertArgs {
    /// The formats of a single-file conversion: from `--from`/`--to` when
    /// given, else from the input's and output's extensions.
    pub fn formats(&self) -> (r: Result<ConvertFormats, FormatError>)
        ensures
            self.from is Some && self.to is Some ==> match r {
                Ok(c) => input_format_of(opt_string_view(self.from), Seq::empty()) == Ok::<
                    Format,
                    (),
                >(c.src) && output_format_of(opt_string_view(self.to), Seq::empty(), false)
                    == Ok::<Format, ()>(c.dst),
                Err(e) => input_format_of(opt_string_view(self.from), Seq::empty()) is Err
                    || output_format_of(opt_string_view(self.to), Seq::empty(), false) is Err,
            },
    {
        resolve_formats(
            as_opt_str(&self.from),
            self.input.as_str(),
            as_opt_str(&self.to),
            self.output.as_str(),
        )
    }
}

/// `xml` without its first `<!DOCTYPE ...>` declaration (up to the first
/// `>` after it); unchanged when it has none.
pub open spec fn without_doctype(xml: Seq<char>) -> Seq<char> {
    let i = first_occurrence(xml, "<!DOCTYPE"@, 0);
    if i < 0 {
        xml
    } else {
        let j = first_occurrence(xml.subrange(i, xml.len() as int), ">"@, 0);
        if j < 0 {
            xml
        } else {
            xml.subrange(0, i) + xml.subrange(i + j + 1, xml.len() as int)
        }
    }
}

/// Remove the document-type declaration of a MusicXML text, which the
/// XML reader does not accept.
pub fn strip_doctype(xml: &str) -> (r: String)
    ensures
        r@ == without_doctype(xml@),
{
    let n = xml.unicode_len();
    match find_substring(xml, "<!DOCTYPE") {
        None => xml.to_owned(),
        Some(i) => {
            let rest = xml.substring_char(i, n);
            match find_substring(rest, ">") {
                None => xml.to_owned(),
                Some(j) => {
                    proof {
                        reveal_strlit(">");
                    }
                    assert(occurs_at(rest@, ">"@, j as int));
                    let mut out = String::from_str(xml.substring_char(0, i));
                    out.append(xml.substring_char(i + j + 1, n));
                    out
                },
            }
        },
    }
}

} // verus!
