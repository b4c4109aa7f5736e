//! Reading the peak list of an mzXML file.
//!
//! Of the file only one line is read: the first that opens a peak list. Its
//! text is base64 and decodes to pairs of big-endian binary64 numbers, mass
//! over charge first and intensity second.

use crate::backend::constructed;
use crate::backend::Dataset;
use crate::backend::DatasetView;
use crate::backend::MSPoint;
use crate::backend::Metadata;
use crate::scalar::Scalar;
use chrono::TimeZone;
use vstd::prelude::*;
use vstd::slice::slice_subrange;

verus! {

/// How a line that opens a peak list begins: thirteen spaces, then
/// `contentType="m/z-int">`.
pub const POINTS_HEAD: [u8; 35] = [
    32, 32, 32, 32, 32, 32, 32, 32, 32, 32, 32, 32, 32,
    99, 111, 110, 116, 101, 110, 116, 84, 121, 112, 101, 61,
    34, 109, 47, 122, 45, 105, 110, 116, 34, 62,
];

/// The number of bytes that close a peak list at the end of its line.
pub const POINTS_TAIL: usize = 8;

/// The number of bytes of one sample: two numbers of eight bytes.
pub const SAMPLE_BYTES: usize = 16;

/// `base64::DecodeError`: why a text is no base64. It is carried, never
/// looked into.
#[verifier::external_type_specification]
#[verifier::external_body]
pub struct ExDecodeError(base64::DecodeError);

/// What `input` stands for as base64 in the standard alphabet with padding,
/// or nothing where it is no such text.
pub uninterp spec fn base64_decoded(input: Seq<u8>) -> Option<Seq<u8>>;

/// The seconds from 1970-01-01 00:00:00 UTC to the given moment of the
/// Gregorian calendar, taken as UTC, or nothing where there is no such
/// moment.
pub uninterp spec fn utc_seconds(
    year: int,
    month: int,
    day: int,
    hour: int,
    min: int,
    sec: int,
) -> Option<int>;

/// `base64::decode_config` with the standard alphabet and padding: whether
/// the text decodes, and to what, depends on the text alone. The length is
/// bounded because the function adds up to seven to it and stops on
/// overflow.
#[verifier::external_body]
fn decode_standard(input: &[u8]) -> (r: Result<Vec<u8>, base64::DecodeError>)
    requires
        input@.len() + 7 <= usize::MAX,
    ensures
        match r {
            Ok(bytes) => base64_decoded(input@) == Some(bytes@),
            Err(_) => base64_decoded(input@) is None,
        },
{
    base64::decode_config(input, base64::Config::new(base64::CharacterSet::Standard, true))
}

/// chrono's `TimeZone::with_ymd_and_hms` on `Utc`, then
/// `DateTime::timestamp`: the seconds since the Unix epoch depend on the
/// six numbers alone, there are none where the numbers name no moment, and
/// the epoch itself is at second zero.
#[verifier::external_body]
fn utc_timestamp(year: i32, month: u32, day: u32, hour: u32, min: u32, sec: u32) -> (t: Option<i64>)
    ensures
        match t {
            Some(s) => utc_seconds(
                year as int,
                month as int,
                day as int,
                hour as int,
                min as int,
                sec as int,
            ) == Some(s as int),
            None => utc_seconds(
                year as int,
                month as int,
                day as int,
                hour as int,
                min as int,
                sec as int,
            ) is None,
        },
        year == 1970 && month == 1 && day == 1 && hour == 0 && min == 0 && sec == 0 ==> t == Some(
            0i64,
        ),
{
    match chrono::Utc.with_ymd_and_hms(year, month, day, hour, min, sec) {
        chrono::LocalResult::Single(moment) => Some(moment.timestamp()),
        chrono::LocalResult::Ambiguous(_, _) => None,
        chrono::LocalResult::None => None,
    }
}

/// Whether a line opens a peak list.
pub open spec fn opens_peak_list(line: Seq<u8>) -> bool {
    line.len() >= POINTS_HEAD@.len() && line.subrange(0, POINTS_HEAD@.len() as int)
        == POINTS_HEAD@
}

/// The text of the peak list in a line that opens one: what stands between
/// the opening and the closing tag.
pub open spec fn payload(line: Seq<u8>) -> Seq<u8>
    recommends
        line.len() >= POINTS_HEAD@.len() + POINTS_TAIL,
{
    line.subrange(POINTS_HEAD@.len() as int, line.len() - POINTS_TAIL)
}

/// The number that eight bytes from place `at` on spell, the first byte
/// weighing most.
pub open spec fn word_at(bytes: Seq<u8>, at: int) -> u64
    recommends
        0 <= at,
        at + 8 <= bytes.len(),
{
    (bytes[at] * 0x0100_0000_0000_0000 + bytes[at + 1] * 0x0001_0000_0000_0000 + bytes[at + 2]
        * 0x0000_0100_0000_0000 + bytes[at + 3] * 0x0000_0001_0000_0000 + bytes[at + 4]
        * 0x0000_0000_0100_0000 + bytes[at + 5] * 0x0000_0000_0001_0000 + bytes[at + 6]
        * 0x0000_0000_0000_0100 + bytes[at + 7]) as u64
}

/// The sample that sixteen bytes from place `at` on spell.
pub open spec fn sample_at(bytes: Seq<u8>, at: int) -> MSPoint {
    MSPoint {
        mz: Scalar { bits: word_at(bytes, at) },
        int: Scalar { bits: word_at(bytes, at + 8) },
        snr: Scalar { bits: 0 },
    }
}

/// The samples that a decoded peak list spells. Bytes after the last whole
/// sample are not read.
pub open spec fn samples(bytes: Seq<u8>) -> Seq<MSPoint> {
    Seq::new(bytes.len() / (SAMPLE_BYTES as nat), |k: int| sample_at(bytes, SAMPLE_BYTES * k))
}

/// What is put down about a spectrum that comes from a file: a title, and
/// the Unix epoch for its date.
pub open spec fn placeholder(md: Metadata) -> bool {
    &&& md.title@ == "Test Title"@
    &&& md.operator@.len() == 0
    &&& md.contact@.len() == 0
    &&& md.institution@.len() == 0
    &&& md.instrument@.len() == 0
    &&& md.date == 0
    &&& md.path@.len() == 0
}

/// Whether line `k` is the first of `lines` that opens a peak list.
pub open spec fn first_peak_list(lines: Seq<Seq<u8>>, k: int) -> bool {
    &&& 0 <= k < lines.len()
    &&& opens_peak_list(lines[k])
    &&& forall|j: int| 0 <= j < k ==> !opens_peak_list(#[trigger] lines[j])
}

/// Whether the peak list that a line opens can be read: the line is long
/// enough to close it, its text is base64, and it spells a sample at least.
pub open spec fn readable(line: Seq<u8>) -> bool {
    &&& line.len() >= POINTS_HEAD@.len() + POINTS_TAIL
    &&& base64_decoded(payload(line)) matches Some(bytes) && bytes.len() >= SAMPLE_BYTES
}

fn word(bytes: &Vec<u8>, at: usize) -> (w: u64)
    requires
        at + 8 <= bytes.len(),
    ensures
        w == word_at(bytes@, at as int),
{
    let b0 = bytes[at] as u64;
    let b1 = bytes[at + 1] as u64;
    let b2 = bytes[at + 2] as u64;
    let b3 = bytes[at + 3] as u64;
    let b4 = bytes[at + 4] as u64;
    let b5 = bytes[at + 5] as u64;
    let b6 = bytes[at + 6] as u64;
    let b7 = bytes[at + 7] as u64;
    b0 * 0x0100_0000_0000_0000 + b1 * 0x0001_0000_0000_0000 + b2 * 0x0000_0100_0000_0000 + b3
        * 0x0000_0001_0000_0000 + b4 * 0x0000_0000_0100_0000 + b5 * 0x0000_0000_0001_0000 + b6
        * 0x0000_0000_0000_0100 + b7
}

/// Reads the samples of a decoded peak list.
pub fn points_from_bytes(bytes: &Vec<u8>) -> (points: Vec<MSPoint>)
    ensures
        points@ == samples(bytes@),
{
    let count = bytes.len() / SAMPLE_BYTES;
    let mut points: Vec<MSPoint> = Vec::with_capacity(count);
    let mut k: usize = 0;
    while k < count
        invariant
            count == bytes.len() / SAMPLE_BYTES,
            0 <= k <= count,
            points@.len() == k,
            forall|j: int| 0 <= j < k ==> points@[j] == sample_at(bytes@, SAMPLE_BYTES * j),
        decreases count - k,
    {
        assert(SAMPLE_BYTES * k + SAMPLE_BYTES <= bytes.len());
        let at = k * SAMPLE_BYTES;
        let mz = Scalar::from_bits(word(bytes, at));
        let height = Scalar::from_bits(word(bytes, at + 8));
        points.push(MSPoint { mz, int: height, snr: Scalar::zero() });
        k += 1;
    }
    assert(points@ =~= samples(bytes@));
    points
}

/// Whether `line` opens a peak list.
pub fn is_peak_list(line: &Vec<u8>) -> (b: bool)
    ensures
        b == opens_peak_list(line@),
{
    if line.len() < POINTS_HEAD.len() {
        return false;
    }
    let mut i: usize = 0;
    while i < POINTS_HEAD.len()
        invariant
            0 <= i <= POINTS_HEAD@.len(),
            POINTS_HEAD@.len() <= line@.len(),
            forall|j: int| 0 <= j < i ==> line@[j] == POINTS_HEAD@[j],
        decreases POINTS_HEAD@.len() - i,
    {
        if line[i] != POINTS_HEAD[i] {
            assert(line@.subrange(0, POINTS_HEAD@.len() as int)[i as int] != POINTS_HEAD@[i as int]);
            return false;
        }
        i += 1;
    }
    assert(line@.subrange(0, POINTS_HEAD@.len() as int) =~= POINTS_HEAD@);
    true
}

/// Makes a spectrum of a decoded peak list, or nothing where the list
/// holds no whole sample.
pub fn dataset_from_bytes(bytes: &Vec<u8>) -> (r: Option<Dataset>)
    ensures
        r is Some <==> bytes@.len() >= SAMPLE_BYTES,
        r matches Some(d) ==> placeholder(d@.metadata) && constructed(
            d@,
            d@.metadata,
            samples(bytes@),
        ),
{
    let points = points_from_bytes(bytes);
    if points.len() == 0 {
        return None;
    }
    // the date is the Unix epoch, which is second zero
    let date = match utc_timestamp(1970, 1, 1, 0, 0, 0) {
        Some(t) => t,
        None => 0,
    };
    let md = Metadata {
        title: "Test Title".to_owned(),
        operator: String::new(),
        contact: String::new(),
        institution: String::new(),
        instrument: String::new(),
        date,
        path: String::new(),
    };
    Some(Dataset::neww(md, points))
}

/// The bytes of each line.
pub open spec fn texts(lines: Seq<Vec<u8>>) -> Seq<Seq<u8>> {
    lines.map_values(|l: Vec<u8>| l@)
}

/// Whether `r` is what the lines of a file are read as: a spectrum of the
/// samples in the first line that opens a peak list, where that line can be
/// read, and nothing otherwise.
pub open spec fn parses_to(lines: Seq<Seq<u8>>, r: Option<DatasetView>) -> bool {
    &&& r is Some <==> exists|k: int|
        first_peak_list(lines, k) && readable(#[trigger] lines[k])
    &&& r matches Some(d) ==> forall|k: int|
        first_peak_list(lines, k) ==> placeholder(d.metadata) && constructed(
            d,
            d.metadata,
            samples(base64_decoded(payload(#[trigger] lines[k]))->Some_0),
        )
}

/// The view of a spectrum that may be missing.
pub open spec fn view_of(r: Option<Dataset>) -> Option<DatasetView> {
    match r {
        Some(d) => Some(d@),
        None => None,
    }
}

/// Reads the peak list of a file, given by its lines, and makes a spectrum
/// of it. Only the first line that opens a peak list counts: there is no
/// spectrum where no line does, or where that line cannot be read.
pub fn parse_mzxml_badly(lines: &Vec<Vec<u8>>) -> (r: Option<Dataset>)
    ensures
        parses_to(texts(lines@), view_of(r)),
{
    let ghost all = texts(lines@);
    let mut i: usize = 0;
    while i < lines.len()
        invariant
            0 <= i <= lines@.len(),
            all == texts(lines@),
            forall|j: int| 0 <= j < i ==> !opens_peak_list(#[trigger] all[j]),
        decreases lines@.len() - i,
    {
        let line = &lines[i];
        if is_peak_list(line) {
            assert(first_peak_list(all, i as int));
            assert(forall|k: int| first_peak_list(all, k) ==> k == i) by {
                assert(forall|k: int| first_peak_list(all, k) ==> opens_peak_list(all[k]));
            }
            if line.len() < POINTS_HEAD.len() + POINTS_TAIL {
                return None;
            }
            let text = slice_subrange(
                line.as_slice(),
                POINTS_HEAD.len(),
                line.len() - POINTS_TAIL,
            );
            return match decode_standard(text) {
                Ok(bytes) => dataset_from_bytes(&bytes),
                Err(_) => None,
            };
        }
        i += 1;
    }
    None
}

} // verus!
