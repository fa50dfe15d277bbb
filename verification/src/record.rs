//! The structured playback record and the lenient key-value parser that
//! builds it from status text, together with the serializer that writes a
//! record back as status text and the proof that the two round-trip.
//!
//! The input is a block of logical lines, each `<key> <value...>` with
//! optional surrounding whitespace. Recognized keys are `status`,
//! `position`, `duration`, `file` (the title) and `tag artist` /
//! `tag album`; blank lines and unknown keys are ignored, and a later line
//! for the same field overwrites an earlier one.

use vstd::prelude::*;
use vstd::string::StringExecFns;

use crate::text::clean_text;
use crate::text::dec_str;
use crate::text::digits_value;
use crate::text::first_nl;
use crate::text::first_sp;
use crate::text::is_number;
use crate::text::is_space;
use crate::text::lemma_dec_str;
use crate::text::lemma_digit_not_space;
use crate::text::lemma_first_nl_at;
use crate::text::lemma_first_nl_bounds;
use crate::text::lemma_first_sp_at;
use crate::text::lemma_first_sp_bounds;
use crate::text::lemma_trim_back_at;
use crate::text::lemma_trim_clean;
use crate::text::lemma_trim_front_at;
use crate::text::lemma_trim_of_clean;
use crate::text::trim_back;
use crate::text::parse_u32;
use crate::text::range_to_string;
use crate::text::seg_eq;
use crate::text::str_to_chars;
use crate::text::trim;
use crate::text::u32_to_string;

verus! {

/// The word a `status` line carries, and a `status` placeholder renders,
/// for each playback status.
pub open spec fn status_word(st: PlaybackStatus) -> Seq<char> {
    match st {
        PlaybackStatus::Playing => "playing"@,
        PlaybackStatus::Paused => "paused"@,
        PlaybackStatus::Stopped => "stopped"@,
    }
}

/// Whether playback is running, paused, or stopped.
#[derive(Clone, Copy, PartialEq, Eq, Structural, Debug)]
pub enum PlaybackStatus {
    Playing,
    Paused,
    Stopped,
}

/// One named field of a playback record, as a placeholder or an error can
/// refer to it.
#[derive(Clone, Copy, PartialEq, Eq, Structural, Debug)]
pub enum FieldRef {
    Status,
    Position,
    Duration,
    Title,
    Artist,
    Album,
}

/// Why a block of status text was rejected.
#[derive(Clone, Copy, PartialEq, Eq, Structural, Debug)]
pub enum ParseError {
    /// A required `status`, `position` or `duration` line was absent.
    MissingField(FieldRef),
    /// A `status` line carried a value other than `playing`, `paused` or
    /// `stopped`.
    InvalidStatus,
    /// A `position` or `duration` value was not a non-negative integer in
    /// `u32` range.
    InvalidNumber(FieldRef),
}

/// The structured result of parsing one block of status text. An optional
/// field is `None` exactly when its line was absent or blank.
#[derive(Clone, Debug)]
pub struct PlaybackRecord {
    pub status: PlaybackStatus,
    pub position_seconds: u32,
    pub duration_seconds: u32,
    pub title: Option<String>,
    pub artist: Option<String>,
    pub album: Option<String>,
}

/// The mathematical shape of a playback record: text fields as character
/// sequences.
pub struct RecordV {
    pub status: PlaybackStatus,
    pub position: u32,
    pub duration: u32,
    pub title: Option<Seq<char>>,
    pub artist: Option<Seq<char>>,
    pub album: Option<Seq<char>>,
}

/// The fields gathered so far while the parser walks the lines.
pub struct PartialV {
    pub status: Option<PlaybackStatus>,
    pub position: Option<u32>,
    pub duration: Option<u32>,
    pub title: Option<Seq<char>>,
    pub artist: Option<Seq<char>>,
    pub album: Option<Seq<char>>,
}

pub open spec fn opt_str_view(o: Option<String>) -> Option<Seq<char>> {
    match o {
        Option::None => Option::None,
        Option::Some(s) => Option::Some(s@),
    }
}

impl View for PlaybackRecord {
    type V = RecordV;

    open spec fn view(&self) -> RecordV {
        RecordV {
            status: self.status,
            position: self.position_seconds,
            duration: self.duration_seconds,
            title: opt_str_view(self.title),
            artist: opt_str_view(self.artist),
            album: opt_str_view(self.album),
        }
    }
}

/// No field seen yet.
pub open spec fn empty_partial() -> PartialV {
    PartialV {
        status: Option::None,
        position: Option::None,
        duration: Option::None,
        title: Option::None,
        artist: Option::None,
        album: Option::None,
    }
}

pub open spec fn with_status(acc: PartialV, st: PlaybackStatus) -> PartialV {
    PartialV {
        status: Option::Some(st),
        position: acc.position,
        duration: acc.duration,
        title: acc.title,
        artist: acc.artist,
        album: acc.album,
    }
}

pub open spec fn with_position(acc: PartialV, n: u32) -> PartialV {
    PartialV {
        status: acc.status,
        position: Option::Some(n),
        duration: acc.duration,
        title: acc.title,
        artist: acc.artist,
        album: acc.album,
    }
}

pub open spec fn with_duration(acc: PartialV, n: u32) -> PartialV {
    PartialV {
        status: acc.status,
        position: acc.position,
        duration: Option::Some(n),
        title: acc.title,
        artist: acc.artist,
        album: acc.album,
    }
}

pub open spec fn with_title(acc: PartialV, t: Seq<char>) -> PartialV {
    PartialV {
        status: acc.status,
        position: acc.position,
        duration: acc.duration,
        title: Option::Some(t),
        artist: acc.artist,
        album: acc.album,
    }
}

pub open spec fn with_artist(acc: PartialV, t: Seq<char>) -> PartialV {
    PartialV {
        status: acc.status,
        position: acc.position,
        duration: acc.duration,
        title: acc.title,
        artist: Option::Some(t),
        album: acc.album,
    }
}

pub open spec fn with_album(acc: PartialV, t: Seq<char>) -> PartialV {
    PartialV {
        status: acc.status,
        position: acc.position,
        duration: acc.duration,
        title: acc.title,
        artist: acc.artist,
        album: Option::Some(t),
    }
}

/// What one recognized key does with its (already trimmed) value.
pub open spec fn apply_kv_spec(key: Seq<char>, value: Seq<char>, acc: PartialV) -> Result<
    PartialV,
    ParseError,
> {
    if key == "status"@ {
        if value == "playing"@ {
            Ok(with_status(acc, PlaybackStatus::Playing))
        } else if value == "paused"@ {
            Ok(with_status(acc, PlaybackStatus::Paused))
        } else if value == "stopped"@ {
            Ok(with_status(acc, PlaybackStatus::Stopped))
        } else {
            Err(ParseError::InvalidStatus)
        }
    } else if key == "position"@ {
        if is_number(value) {
            Ok(with_position(acc, digits_value(value) as u32))
        } else {
            Err(ParseError::InvalidNumber(FieldRef::Position))
        }
    } else if key == "duration"@ {
        if is_number(value) {
            Ok(with_duration(acc, digits_value(value) as u32))
        } else {
            Err(ParseError::InvalidNumber(FieldRef::Duration))
        }
    } else if key == "file"@ {
        if value.len() > 0 {
            Ok(with_title(acc, value))
        } else {
            Ok(acc)
        }
    } else if key == "tag"@ {
        let k2 = first_sp(value);
        let sub = value.take(k2);
        let v2 = trim(value.skip(k2));
        if sub == "artist"@ && v2.len() > 0 {
            Ok(with_artist(acc, v2))
        } else if sub == "album"@ && v2.len() > 0 {
            Ok(with_album(acc, v2))
        } else {
            Ok(acc)
        }
    } else {
        Ok(acc)
    }
}

/// What one logical line does to the partial record: nothing when blank,
/// else split at the first whitespace into key and trimmed value.
pub open spec fn apply_line_spec(line: Seq<char>, acc: PartialV) -> Result<
    PartialV,
    ParseError,
> {
    let t = trim(line);
    if t.len() == 0 {
        Ok(acc)
    } else {
        let k = first_sp(t);
        apply_kv_spec(t.take(k), trim(t.skip(k)), acc)
    }
}

/// The record owed once every line has been read: the three required
/// fields must be present.
pub open spec fn finish_spec(acc: PartialV) -> Result<RecordV, ParseError> {
    match acc.status {
        Option::None => Err(ParseError::MissingField(FieldRef::Status)),
        Option::Some(st) => match acc.position {
            Option::None => Err(ParseError::MissingField(FieldRef::Position)),
            Option::Some(p) => match acc.duration {
                Option::None => Err(ParseError::MissingField(FieldRef::Duration)),
                Option::Some(d) => Ok(
                    RecordV {
                        status: st,
                        position: p,
                        duration: d,
                        title: acc.title,
                        artist: acc.artist,
                        album: acc.album,
                    },
                ),
            },
        },
    }
}

/// Folds the lines of `s` (separated by newlines) over the partial record,
/// stopping at the first bad line.
pub open spec fn parse_lines_spec(s: Seq<char>, acc: PartialV) -> Result<RecordV, ParseError>
    decreases s.len(),
    via parse_lines_spec_dec
{
    if s.len() == 0 {
        finish_spec(acc)
    } else {
        let j = first_nl(s);
        match apply_line_spec(s.take(j), acc) {
            Err(e) => Err(e),
            Ok(acc2) => {
                let next = if j == s.len() {
                    j
                } else {
                    j + 1
                };
                parse_lines_spec(s.skip(next), acc2)
            },
        }
    }
}

#[via_fn]
proof fn parse_lines_spec_dec(s: Seq<char>, acc: PartialV) {
    lemma_first_nl_bounds(s);
}

/// What `parse` returns on the text `s`.
pub open spec fn parse_spec(s: Seq<char>) -> Result<RecordV, ParseError> {
    parse_lines_spec(s, empty_partial())
}

/// One serialized line: the key, one space, the value, a newline.
pub open spec fn kv_line(key: Seq<char>, value: Seq<char>) -> Seq<char> {
    key + seq![' '] + value + seq!['\n']
}

/// What serializing a record back to status text yields: one line per
/// present field, in a fixed order, each ended by a newline.
pub open spec fn serialize_spec(r: RecordV) -> Seq<char> {
    kv_line("status"@, status_word(r.status)) + kv_line("position"@, dec_str(r.position as int))
        + kv_line("duration"@, dec_str(r.duration as int)) + (match r.title {
        Option::None => Seq::<char>::empty(),
        Option::Some(t) => kv_line("file"@, t),
    }) + (match r.artist {
        Option::None => Seq::<char>::empty(),
        Option::Some(a) => kv_line("tag"@, "artist"@ + seq![' '] + a),
    }) + (match r.album {
        Option::None => Seq::<char>::empty(),
        Option::Some(b) => kv_line("tag"@, "album"@ + seq![' '] + b),
    })
}

/// The optional text fields hold clean text (non-empty, trimmed, no
/// newline) whenever present. Every record the parser returns is such.
pub open spec fn wf_record(r: RecordV) -> bool {
    &&& (r.title matches Option::Some(t) ==> clean_text(t))
    &&& (r.artist matches Option::Some(t) ==> clean_text(t))
    &&& (r.album matches Option::Some(t) ==> clean_text(t))
}

pub open spec fn wf_partial(acc: PartialV) -> bool {
    &&& (acc.title matches Option::Some(t) ==> clean_text(t))
    &&& (acc.artist matches Option::Some(t) ==> clean_text(t))
    &&& (acc.album matches Option::Some(t) ==> clean_text(t))
}

/// The fields gathered while the executable parser walks the lines.
pub(crate) struct Acc {
    pub(crate) status: Option<PlaybackStatus>,
    pub(crate) position: Option<u32>,
    pub(crate) duration: Option<u32>,
    pub(crate) title: Option<String>,
    pub(crate) artist: Option<String>,
    pub(crate) album: Option<String>,
}

impl View for Acc {
    type V = PartialV;

    closed spec fn view(&self) -> PartialV {
        PartialV {
            status: self.status,
            position: self.position,
            duration: self.duration,
            title: opt_str_view(self.title),
            artist: opt_str_view(self.artist),
            album: opt_str_view(self.album),
        }
    }
}

/// Applies the line `v[a..b]` to the partial record.
fn apply_line(v: &Vec<char>, a: usize, b: usize, acc: Acc) -> (r: Result<Acc, ParseError>)
    requires
        a <= b <= v@.len(),
    ensures
        match r {
            Ok(a2) => apply_line_spec(v@.subrange(a as int, b as int), acc@) == Ok::<
                PartialV,
                ParseError,
            >(a2@),
            Err(e) => apply_line_spec(v@.subrange(a as int, b as int), acc@) == Err::<
                PartialV,
                ParseError,
            >(e),
        },
{
    let ghost line = v@.subrange(a as int, b as int);
    // Trim the line: a2 is the first non-space, b2 one past the last.
    let mut a2: usize = a;
    while a2 < b && is_space_x(v[a2])
        invariant
            a <= a2 <= b <= v@.len(),
            forall|k: int| a <= k < a2 ==> is_space(#[trigger] v@[k]),
        decreases b - a2,
    {
        a2 = a2 + 1;
    }
    let mut b2: usize = b;
    while b2 > a2 && is_space_x(v[b2 - 1])
        invariant
            a <= a2 <= b2 <= b <= v@.len(),
            forall|k: int| a <= k < a2 ==> is_space(#[trigger] v@[k]),
            forall|k: int| b2 <= k < b ==> is_space(#[trigger] v@[k]),
        decreases b2,
    {
        b2 = b2 - 1;
    }
    proof {
        lemma_trim_front_at(line, a2 - a);
        assert(line.skip(a2 - a) =~= v@.subrange(a2 as int, b as int));
        lemma_trim_back_at(v@.subrange(a2 as int, b as int), b2 - a2);
        assert(v@.subrange(a2 as int, b as int).take(b2 - a2) =~= v@.subrange(
            a2 as int,
            b2 as int,
        ));
        assert(trim(line) == v@.subrange(a2 as int, b2 as int));
    }
    let ghost t = trim(line);
    if a2 == b2 {
        assert(t.len() == 0);
        return Ok(acc);
    }
    // Split off the key at the first whitespace inside the trimmed line.
    let mut k: usize = a2;
    while k < b2 && !is_space_x(v[k])
        invariant
            a2 <= k <= b2 <= v@.len(),
            forall|j: int| a2 <= j < k ==> !is_space(#[trigger] v@[j]),
        decreases b2 - k,
    {
        k = k + 1;
    }
    proof {
        lemma_first_sp_at(t, k - a2);
        assert(t.take(k - a2) =~= v@.subrange(a2 as int, k as int));
    }
    // Trim the value that follows the key.
    let mut v0: usize = k;
    while v0 < b2 && is_space_x(v[v0])
        invariant
            k <= v0 <= b2 <= v@.len(),
            forall|j: int| k <= j < v0 ==> is_space(#[trigger] v@[j]),
        decreases b2 - v0,
    {
        v0 = v0 + 1;
    }
    proof {
        let rest = t.skip(k - a2);
        assert(rest =~= v@.subrange(k as int, b2 as int));
        lemma_trim_front_at(rest, v0 - k);
        assert(rest.skip(v0 - k) =~= v@.subrange(v0 as int, b2 as int));
        lemma_trim_back_at(v@.subrange(v0 as int, b2 as int), b2 - v0);
        assert(v@.subrange(v0 as int, b2 as int).take(b2 - v0) =~= v@.subrange(
            v0 as int,
            b2 as int,
        ));
        assert(trim(rest) == v@.subrange(v0 as int, b2 as int));
    }
    let ghost value = trim(t.skip(k - a2));
    if seg_eq(v, a2, k, "status") {
        if seg_eq(v, v0, b2, "playing") {
            Ok(set_status(acc, PlaybackStatus::Playing))
        } else if seg_eq(v, v0, b2, "paused") {
            Ok(set_status(acc, PlaybackStatus::Paused))
        } else if seg_eq(v, v0, b2, "stopped") {
            Ok(set_status(acc, PlaybackStatus::Stopped))
        } else {
            Err(ParseError::InvalidStatus)
        }
    } else if seg_eq(v, a2, k, "position") {
        match parse_u32(v, v0, b2) {
            Some(n) => Ok(
                Acc {
                    status: acc.status,
                    position: Some(n),
                    duration: acc.duration,
                    title: acc.title,
                    artist: acc.artist,
                    album: acc.album,
                },
            ),
            None => Err(ParseError::InvalidNumber(FieldRef::Position)),
        }
    } else if seg_eq(v, a2, k, "duration") {
        match parse_u32(v, v0, b2) {
            Some(n) => Ok(
                Acc {
                    status: acc.status,
                    position: acc.position,
                    duration: Some(n),
                    title: acc.title,
                    artist: acc.artist,
                    album: acc.album,
                },
            ),
            None => Err(ParseError::InvalidNumber(FieldRef::Duration)),
        }
    } else if seg_eq(v, a2, k, "file") {
        if v0 < b2 {
            let s = range_to_string(v, v0, b2);
            Ok(
                Acc {
                    status: acc.status,
                    position: acc.position,
                    duration: acc.duration,
                    title: Some(s),
                    artist: acc.artist,
                    album: acc.album,
                },
            )
        } else {
            assert(value.len() == 0);
            Ok(acc)
        }
    } else if seg_eq(v, a2, k, "tag") {
        apply_tag(v, v0, b2, acc, Ghost(value))
    } else {
        Ok(acc)
    }
}

/// Applies a `tag` line whose trimmed value is `v[v0..b2]`: a sub-key
/// (`artist` or `album`) followed by the tagged text.
fn apply_tag(v: &Vec<char>, v0: usize, b2: usize, acc: Acc, Ghost(value): Ghost<Seq<char>>) -> (r:
    Result<Acc, ParseError>)
    requires
        v0 <= b2 <= v@.len(),
        value == v@.subrange(v0 as int, b2 as int),
        v0 < b2 ==> !is_space(v@[b2 - 1]),
    ensures
        r matches Ok(a2) && ({
            let k2 = first_sp(value);
            let sub = value.take(k2);
            let v2 = trim(value.skip(k2));
            if sub == "artist"@ && v2.len() > 0 {
                a2@ == with_artist(acc@, v2)
            } else if sub == "album"@ && v2.len() > 0 {
                a2@ == with_album(acc@, v2)
            } else {
                a2@ == acc@
            }
        }),
{
    let mut k2: usize = v0;
    while k2 < b2 && !is_space_x(v[k2])
        invariant
            v0 <= k2 <= b2 <= v@.len(),
            forall|j: int| v0 <= j < k2 ==> !is_space(#[trigger] v@[j]),
        decreases b2 - k2,
    {
        k2 = k2 + 1;
    }
    proof {
        lemma_first_sp_at(value, k2 - v0);
        assert(value.take(k2 - v0) =~= v@.subrange(v0 as int, k2 as int));
    }
    let mut w0: usize = k2;
    while w0 < b2 && is_space_x(v[w0])
        invariant
            k2 <= w0 <= b2 <= v@.len(),
            forall|j: int| k2 <= j < w0 ==> is_space(#[trigger] v@[j]),
        decreases b2 - w0,
    {
        w0 = w0 + 1;
    }
    proof {
        let rest = value.skip(k2 - v0);
        assert(rest =~= v@.subrange(k2 as int, b2 as int));
        lemma_trim_front_at(rest, w0 - k2);
        assert(rest.skip(w0 - k2) =~= v@.subrange(w0 as int, b2 as int));
        lemma_trim_back_at(v@.subrange(w0 as int, b2 as int), b2 - w0);
        assert(v@.subrange(w0 as int, b2 as int).take(b2 - w0) =~= v@.subrange(
            w0 as int,
            b2 as int,
        ));
        assert(trim(rest) == v@.subrange(w0 as int, b2 as int));
    }
    if seg_eq(v, v0, k2, "artist") && w0 < b2 {
        let s = range_to_string(v, w0, b2);
        Ok(
            Acc {
                status: acc.status,
                position: acc.position,
                duration: acc.duration,
                title: acc.title,
                artist: Some(s),
                album: acc.album,
            },
        )
    } else if seg_eq(v, v0, k2, "album") && w0 < b2 {
        let s = range_to_string(v, w0, b2);
        Ok(
            Acc {
                status: acc.status,
                position: acc.position,
                duration: acc.duration,
                title: acc.title,
                artist: acc.artist,
                album: Some(s),
            },
        )
    } else {
        Ok(acc)
    }
}

fn set_status(acc: Acc, st: PlaybackStatus) -> (r: Acc)
    ensures
        r@ == with_status(acc@, st),
{
    Acc {
        status: Some(st),
        position: acc.position,
        duration: acc.duration,
        title: acc.title,
        artist: acc.artist,
        album: acc.album,
    }
}

/// Whether `c` is whitespace the parser skips.
fn is_space_x(c: char) -> (r: bool)
    ensures
        r == is_space(c),
{
    let u: u32 = c as u32;
    u == 32 || u == 9 || u == 13
}

/// Parses a block of status text into a playback record.
///
/// The result is exactly `parse_spec` of the text: the typed error names
/// the first offending line, and `MissingField` which required line never
/// appeared.
pub fn parse(text: String) -> (r: Result<PlaybackRecord, ParseError>)
    ensures
        match r {
            Ok(rec) => parse_spec(text@) == Ok::<RecordV, ParseError>(rec@),
            Err(e) => parse_spec(text@) == Err::<RecordV, ParseError>(e),
        },
{
    let v = str_to_chars(text.as_str());
    let ghost s = text@;
    let mut acc = Acc {
        status: None,
        position: None,
        duration: None,
        title: None,
        artist: None,
        album: None,
    };
    let n = v.len();
    let mut pos: usize = 0;
    proof {
        assert(s.skip(0) =~= s);
    }
    while pos < n
        invariant
            s == text@,
            v@ == s,
            n == s.len(),
            0 <= pos <= n,
            parse_lines_spec(s, empty_partial()) == parse_lines_spec(s.skip(pos as int), acc@),
        decreases n - pos,
    {
        let ghost rest = s.skip(pos as int);
        let mut j: usize = pos;
        while j < n && v[j] != '\n'
            invariant
                v@ == s,
                n == s.len(),
                pos <= j <= n,
                forall|k: int| pos <= k < j ==> #[trigger] s[k] != '\n',
            decreases n - j,
        {
            j = j + 1;
        }
        proof {
            lemma_first_nl_at(rest, j - pos);
            assert(rest.take(j - pos) =~= s.subrange(pos as int, j as int));
        }
        match apply_line(&v, pos, j, acc) {
            Err(e) => {
                proof {
                    assert(parse_lines_spec(rest, acc@) == Err::<RecordV, ParseError>(e));
                }
                return Err(e);
            },
            Ok(acc2) => {
                let next: usize = if j == n {
                    j
                } else {
                    j + 1
                };
                proof {
                    let nrel: int = if j - pos == rest.len() {
                        j - pos
                    } else {
                        j - pos + 1
                    };
                    assert(rest.skip(nrel) =~= s.skip(next as int));
                    assert(parse_lines_spec(rest, acc@) == parse_lines_spec(
                        s.skip(next as int),
                        acc2@,
                    ));
                }
                acc = acc2;
                pos = next;
            },
        }
    }
    proof {
        assert(s.skip(pos as int) =~= Seq::<char>::empty());
    }
    match acc.status {
        None => Err(ParseError::MissingField(FieldRef::Status)),
        Some(st) => match acc.position {
            None => Err(ParseError::MissingField(FieldRef::Position)),
            Some(p) => match acc.duration {
                None => Err(ParseError::MissingField(FieldRef::Duration)),
                Some(d) => Ok(
                    PlaybackRecord {
                        status: st,
                        position_seconds: p,
                        duration_seconds: d,
                        title: acc.title,
                        artist: acc.artist,
                        album: acc.album,
                    },
                ),
            },
        },
    }
}

/// The word the `status` line carries for this status.
pub fn status_str(st: PlaybackStatus) -> (r: String)
    ensures
        r@ == status_word(st),
{
    match st {
        PlaybackStatus::Playing => String::from_str("playing"),
        PlaybackStatus::Paused => String::from_str("paused"),
        PlaybackStatus::Stopped => String::from_str("stopped"),
    }
}

impl PlaybackRecord {
    /// Writes the record back as the key-value status text that `parse`
    /// reads: the exact serialization is `serialize_spec` of the record.
    pub fn to_status_text(&self) -> (r: String)
        ensures
            r@ == serialize_spec(self@),
    {
        proof {
            reveal_strlit("status ");
            reveal_strlit("position ");
            reveal_strlit("duration ");
            reveal_strlit("file ");
            reveal_strlit("tag artist ");
            reveal_strlit("tag album ");
            reveal_strlit("status");
            reveal_strlit("position");
            reveal_strlit("duration");
            reveal_strlit("file");
            reveal_strlit("tag");
            reveal_strlit("artist");
            reveal_strlit("album");
            reveal_strlit("\n");
        }
        let mut out = String::from_str("status ");
        out.append(status_str(self.status).as_str());
        out.append("\n");
        let ghost part1 = kv_line("status"@, status_word(self.status));
        assert(out@ =~= part1);
        out.append("position ");
        out.append(u32_to_string(self.position_seconds).as_str());
        out.append("\n");
        let ghost part2 = part1 + kv_line("position"@, dec_str(self.position_seconds as int));
        assert(out@ =~= part2);
        out.append("duration ");
        out.append(u32_to_string(self.duration_seconds).as_str());
        out.append("\n");
        let ghost part3 = part2 + kv_line("duration"@, dec_str(self.duration_seconds as int));
        assert(out@ =~= part3);
        match &self.title {
            None => {},
            Some(t) => {
                out.append("file ");
                out.append(t.as_str());
                out.append("\n");
            },
        }
        let ghost part4 = part3 + (match self@.title {
            Option::None => Seq::<char>::empty(),
            Option::Some(t) => kv_line("file"@, t),
        });
        assert(out@ =~= part4);
        match &self.artist {
            None => {},
            Some(t) => {
                out.append("tag artist ");
                out.append(t.as_str());
                out.append("\n");
            },
        }
        let ghost part5 = part4 + (match self@.artist {
            Option::None => Seq::<char>::empty(),
            Option::Some(a) => kv_line("tag"@, "artist"@ + seq![' '] + a),
        });
        assert(out@ =~= part5);
        match &self.album {
            None => {},
            Some(t) => {
                out.append("tag album ");
                out.append(t.as_str());
                out.append("\n");
            },
        }
        let ghost part6 = part5 + (match self@.album {
            Option::None => Seq::<char>::empty(),
            Option::Some(b) => kv_line("tag"@, "album"@ + seq![' '] + b),
        });
        assert(out@ =~= part6);
        assert(part6 =~= serialize_spec(self@));
        out
    }
}

/// A line either leaves the partial record's text fields alone or sets one
/// to clean text, so well-formedness survives every line.
proof fn lemma_apply_line_wf(line: Seq<char>, acc: PartialV)
    requires
        wf_partial(acc),
        forall|i: int| 0 <= i < line.len() ==> #[trigger] line[i] != '\n',
    ensures
        apply_line_spec(line, acc) matches Ok(a2) ==> wf_partial(a2),
{
    lemma_trim_clean(line);
    let t = trim(line);
    if t.len() != 0 {
        lemma_first_sp_bounds(t);
        let k = first_sp(t);
        let rest = t.skip(k);
        assert(forall|i: int| 0 <= i < rest.len() ==> #[trigger] rest[i] != '\n');
        lemma_trim_clean(rest);
        let value = trim(rest);
        lemma_first_sp_bounds(value);
        let k2 = first_sp(value);
        let rest2 = value.skip(k2);
        assert(forall|i: int| 0 <= i < rest2.len() ==> #[trigger] rest2[i] != '\n');
        lemma_trim_clean(rest2);
    }
}

/// Every record the parser returns is well-formed.
proof fn lemma_parse_lines_wf(s: Seq<char>, acc: PartialV)
    requires
        wf_partial(acc),
    ensures
        parse_lines_spec(s, acc) matches Ok(r) ==> wf_record(r),
    decreases s.len(),
{
    if s.len() != 0 {
        lemma_first_nl_bounds(s);
        let j = first_nl(s);
        let line = s.take(j);
        assert(forall|i: int| 0 <= i < line.len() ==> #[trigger] line[i] != '\n');
        lemma_apply_line_wf(line, acc);
        match apply_line_spec(line, acc) {
            Ok(acc2) => {
                let next = if j == s.len() {
                    j
                } else {
                    j + 1
                };
                lemma_parse_lines_wf(s.skip(next), acc2);
            },
            Err(_) => {},
        }
    }
}

/// A record that came out of `parse` holds clean text in every present
/// optional field: non-empty, trimmed, and free of newlines.
pub proof fn lemma_parse_wf(t: Seq<char>, r: RecordV)
    requires
        parse_spec(t) == Ok::<RecordV, ParseError>(r),
    ensures
        wf_record(r),
{
    lemma_parse_lines_wf(t, empty_partial());
}

/// A key as the serializer writes one: non-empty, no whitespace, no
/// newline.
spec fn key_ok(key: Seq<char>) -> bool {
    key.len() > 0 && forall|i: int|
        0 <= i < key.len() ==> !is_space(#[trigger] key[i]) && key[i] != '\n'
}

/// A serialized line `<key> <value>` is clean, and the parser's splitting
/// recovers exactly the key and the value.
proof fn lemma_split_kv(key: Seq<char>, value: Seq<char>)
    requires
        key_ok(key),
        clean_text(value),
    ensures
        clean_text(key + seq![' '] + value),
        trim(key + seq![' '] + value) == key + seq![' '] + value,
        first_sp(key + seq![' '] + value) == key.len(),
        (key + seq![' '] + value).take(key.len() as int) == key,
        trim((key + seq![' '] + value).skip(key.len() as int)) == value,
{
    let line = key + seq![' '] + value;
    assert(is_space(' '));
    assert(line[0] == key[0]);
    assert(line.last() == value.last());
    assert forall|i: int| 0 <= i < line.len() implies #[trigger] line[i] != '\n' by {
        if i < key.len() {
            assert(line[i] == key[i]);
        } else if i == key.len() {
            assert(line[i] == ' ');
        } else {
            assert(line[i] == value[i - key.len() - 1]);
        }
    }
    assert(clean_text(line));
    lemma_trim_of_clean(line);
    lemma_first_sp_at(line, key.len() as int);
    assert(line.take(key.len() as int) =~= key);
    let rest = line.skip(key.len() as int);
    lemma_trim_front_at(rest, 1);
    assert(rest.skip(1) =~= value);
    assert(trim_back(value) == value);
    assert(trim(rest) == value);
}

/// Folding a text that starts with one newline-free line steps once: the
/// line is applied, then the rest is folded.
proof fn lemma_parse_line_step(line: Seq<char>, rest: Seq<char>, acc: PartialV)
    requires
        forall|i: int| 0 <= i < line.len() ==> #[trigger] line[i] != '\n',
    ensures
        parse_lines_spec(line + seq!['\n'] + rest, acc) == (match apply_line_spec(line, acc) {
            Err(e) => Err::<RecordV, ParseError>(e),
            Ok(a2) => parse_lines_spec(rest, a2),
        }),
{
    let s = line + seq!['\n'] + rest;
    lemma_first_nl_at(s, line.len() as int);
    assert(s.take(line.len() as int) =~= line);
    assert(s.skip(line.len() as int + 1) =~= rest);
}

/// Parsing one serialized line applies its key to the partial record and
/// goes on with the rest of the text.
proof fn lemma_kv_line_parses(key: Seq<char>, value: Seq<char>, rest: Seq<char>, acc: PartialV)
    requires
        key_ok(key),
        clean_text(value),
    ensures
        parse_lines_spec(kv_line(key, value) + rest, acc) == (match apply_kv_spec(
            key,
            value,
            acc,
        ) {
            Err(e) => Err::<RecordV, ParseError>(e),
            Ok(a2) => parse_lines_spec(rest, a2),
        }),
{
    lemma_split_kv(key, value);
    let line = key + seq![' '] + value;
    assert(kv_line(key, value) + rest =~= line + seq!['\n'] + rest);
    lemma_parse_line_step(line, rest, acc);
}

/// Serializing a well-formed record and parsing the text back yields the
/// record again.
#[verifier::rlimit(100)]
#[verifier::spinoff_prover]
pub proof fn lemma_serialize_parses(r: RecordV)
    requires
        wf_record(r),
    ensures
        parse_spec(serialize_spec(r)) == Ok::<RecordV, ParseError>(r),
{
    reveal_strlit("status");
    reveal_strlit("position");
    reveal_strlit("duration");
    reveal_strlit("file");
    reveal_strlit("tag");
    reveal_strlit("artist");
    reveal_strlit("album");
    reveal_strlit("playing");
    reveal_strlit("paused");
    reveal_strlit("stopped");
    let w = status_word(r.status);
    let p = dec_str(r.position as int);
    let d = dec_str(r.duration as int);
    assert(key_ok("status"@));
    assert(key_ok("position"@));
    assert(key_ok("duration"@));
    assert(key_ok("file"@));
    assert(key_ok("tag"@));
    assert(key_ok("artist"@));
    assert(key_ok("album"@));
    assert(clean_text("playing"@));
    assert(clean_text("paused"@));
    assert(clean_text("stopped"@));
    assert(clean_text(w));
    lemma_dec_str(r.position as int);
    lemma_dec_str(r.duration as int);
    assert forall|i: int| 0 <= i < p.len() implies !is_space(#[trigger] p[i]) && p[i] != '\n' by {
        lemma_digit_not_space(p[i]);
    }
    assert forall|i: int| 0 <= i < d.len() implies !is_space(#[trigger] d[i]) && d[i] != '\n' by {
        lemma_digit_not_space(d[i]);
    }
    assert(clean_text(p));
    assert(clean_text(d));
    assert("position"@ != "status"@);
    assert("duration"@ != "status"@);
    assert("duration"@ != "position"@) by {
        assert("duration"@[0] == 'd' && "position"@[0] == 'p');
    }
    assert("file"@ != "status"@ && "file"@ != "position"@ && "file"@ != "duration"@);
    assert("tag"@ != "status"@ && "tag"@ != "position"@ && "tag"@ != "duration"@ && "tag"@
        != "file"@);
    assert("album"@ != "artist"@);
    let acc0 = empty_partial();
    let acc1 = with_status(acc0, r.status);
    let acc2 = with_position(acc1, r.position);
    let acc3 = with_duration(acc2, r.duration);
    let acc4 = match r.title {
        Option::None => acc3,
        Option::Some(t) => with_title(acc3, t),
    };
    let acc5 = match r.artist {
        Option::None => acc4,
        Option::Some(a) => with_artist(acc4, a),
    };
    let acc6 = match r.album {
        Option::None => acc5,
        Option::Some(b) => with_album(acc5, b),
    };
    let t6 = Seq::<char>::empty();
    let t5 = match r.album {
        Option::None => t6,
        Option::Some(b) => kv_line("tag"@, "album"@ + seq![' '] + b) + t6,
    };
    let t4 = match r.artist {
        Option::None => t5,
        Option::Some(a) => kv_line("tag"@, "artist"@ + seq![' '] + a) + t5,
    };
    let t3 = match r.title {
        Option::None => t4,
        Option::Some(t) => kv_line("file"@, t) + t4,
    };
    let t2 = kv_line("duration"@, d) + t3;
    let t1 = kv_line("position"@, p) + t2;
    let t0 = kv_line("status"@, w) + t1;
    // The end of the text: the three required fields are present.
    assert(parse_lines_spec(t6, acc6) == Ok::<RecordV, ParseError>(r));
    // The album line, when present.
    match r.album {
        Option::None => {},
        Option::Some(b) => {
            lemma_split_kv("album"@, b);
            lemma_kv_line_parses("tag"@, "album"@ + seq![' '] + b, t6, acc5);
        },
    }
    assert(parse_lines_spec(t5, acc5) == Ok::<RecordV, ParseError>(r));
    // The artist line, when present.
    match r.artist {
        Option::None => {},
        Option::Some(a) => {
            lemma_split_kv("artist"@, a);
            lemma_kv_line_parses("tag"@, "artist"@ + seq![' '] + a, t5, acc4);
        },
    }
    assert(parse_lines_spec(t4, acc4) == Ok::<RecordV, ParseError>(r));
    // The title line, when present.
    match r.title {
        Option::None => {},
        Option::Some(t) => {
            lemma_kv_line_parses("file"@, t, t4, acc3);
        },
    }
    assert(parse_lines_spec(t3, acc3) == Ok::<RecordV, ParseError>(r));
    // The three required lines.
    lemma_kv_line_parses("duration"@, d, t3, acc2);
    assert(parse_lines_spec(t2, acc2) == Ok::<RecordV, ParseError>(r));
    lemma_kv_line_parses("position"@, p, t2, acc1);
    assert(parse_lines_spec(t1, acc1) == Ok::<RecordV, ParseError>(r));
    lemma_kv_line_parses("status"@, w, t1, acc0);
    match r.status {
        PlaybackStatus::Playing => {},
        PlaybackStatus::Paused => {
            assert(w != "playing"@);
        },
        PlaybackStatus::Stopped => {
            assert(w != "playing"@) by {
                assert("stopped"@[0] == 's' && "playing"@[0] == 'p');
            }
            assert(w != "paused"@);
        },
    }
    assert(parse_lines_spec(t0, acc0) == Ok::<RecordV, ParseError>(r));
    assert(serialize_spec(r) =~= t0);
}

/// Parsing, serializing the result, and parsing again is stable: the
/// second parse returns the very record the first one produced, whichever
/// optional fields it carries.
pub proof fn lemma_parse_reserialize_stable(t: Seq<char>, r: RecordV)
    requires
        parse_spec(t) == Ok::<RecordV, ParseError>(r),
    ensures
        parse_spec(serialize_spec(r)) == Ok::<RecordV, ParseError>(r),
{
    lemma_parse_wf(t, r);
    lemma_serialize_parses(r);
}

} // verus!
