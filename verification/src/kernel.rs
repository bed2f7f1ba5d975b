//! Kernel messages: journal records, what kind of trouble they report, and which
//! disk they are about.

use crate::alert::Severity;
use crate::devices::{Device, DeviceView};
use crate::json::{decode, decoded, Json, JsonView};
use crate::text::{
    alphanumeric, begins, chars, contains, contains_text, digit, is_alphanumeric, is_digit,
    is_lower_letter, lines, lines_of, list_contains, lower_letter, lowered, parse_u64, parsed_u64, remove_chars,
    same, starts_with, strip_prefix, to_lowercase, trim, trimmed, without_chars, without_prefix,
};
use vstd::prelude::*;
use vstd::utf8::{decode_utf8, encode_utf8, valid_utf8};

verus! {

// ---------------------------------------------------------------------------
// Records
// ---------------------------------------------------------------------------

/// A record of the kernel journal.
#[derive(Debug)]
pub struct Record {
    pub cursor: Option<String>,
    /// Seconds since the Unix epoch.
    pub timestamp: Option<u64>,
    pub message: String,
    pub boot_id: Option<String>,
    pub monotonic_usec: Option<u64>,
}

/// What a record says.
pub struct RecordView {
    pub cursor: Option<Seq<char>>,
    pub timestamp: Option<u64>,
    pub message: Seq<char>,
    pub boot_id: Option<Seq<char>>,
    pub monotonic_usec: Option<u64>,
}

impl View for Record {
    type V = RecordView;

    open spec fn view(&self) -> RecordView {
        RecordView {
            cursor: self.cursor.deep_view(),
            timestamp: self.timestamp,
            message: self.message@,
            boot_id: self.boot_id.deep_view(),
            monotonic_usec: self.monotonic_usec,
        }
    }
}

/// Why a journal line is no record.
#[derive(Debug)]
pub enum RecordError {
    /// The line is no JSON, with the reason.
    Json(String),
    NoMessage,
}

impl RecordError {
    pub open spec fn text(self) -> Seq<char> {
        match self {
            RecordError::Json(e) => e@,
            RecordError::NoMessage => "journal MESSAGE missing"@,
        }
    }

    pub fn message(&self) -> (r: String)
        ensures
            r@ == self.text(),
    {
        match self {
            RecordError::Json(e) => e.clone(),
            RecordError::NoMessage => "journal MESSAGE missing".to_owned(),
        }
    }
}

/// The text that bytes spell, with a replacement character for what is no UTF-8.
pub uninterp spec fn lossy(bytes: Seq<u8>) -> Seq<char>;

/// `String::from_utf8_lossy`: the text of the bytes where they are UTF-8. How many
/// replacement characters stand for what is not is left unsaid.
#[verifier::external_body]
fn decode_lossy(bytes: &[u8]) -> (r: String)
    ensures
        r@ == lossy(bytes@),
        valid_utf8(bytes@) ==> r@ == decode_utf8(bytes@),
{
    String::from_utf8_lossy(bytes).into_owned()
}

/// The bytes among the elements of an array; what is no byte is left out.
pub open spec fn bytes_among(items: Seq<JsonView>) -> Seq<u8>
    decreases items.len(),
{
    if items.len() == 0 {
        Seq::empty()
    } else {
        match items.last().unsigned() {
            Some(n) => if n <= 255 {
                bytes_among(items.drop_last()).push(n as u8)
            } else {
                bytes_among(items.drop_last())
            },
            None => bytes_among(items.drop_last()),
        }
    }
}

/// The message of a journal document: text, or an array of bytes where the journal
/// holds something that is no text.
pub open spec fn journal_message(v: JsonView) -> Option<Seq<char>> {
    match v.at("MESSAGE"@) {
        JsonView::Text(s) => Some(s),
        JsonView::Array(items) => Some(lossy(bytes_among(items))),
        _ => None,
    }
}

/// The number that a member holds as text.
pub open spec fn number_in_text(v: JsonView) -> Option<u64> {
    match v.text() {
        Some(s) => parsed_u64(s),
        None => None,
    }
}

/// The record that a journal document holds.
pub open spec fn journal_record(v: JsonView) -> Option<RecordView> {
    match journal_message(v) {
        Some(message) => Some(
            RecordView {
                cursor: v.at("__CURSOR"@).text(),
                timestamp: match number_in_text(v.at("__REALTIME_TIMESTAMP"@)) {
                    Some(n) => Some((n / 1_000_000) as u64),
                    None => None,
                },
                message,
                boot_id: v.at("_BOOT_ID"@).text(),
                monotonic_usec: number_in_text(v.at("__MONOTONIC_TIMESTAMP"@)),
            },
        ),
        None => None,
    }
}

fn collect_bytes(items: &Vec<Json>) -> (r: Vec<u8>)
    ensures
        r@ == bytes_among(items.deep_view()),
{
    let ghost all = items.deep_view();
    let mut out: Vec<u8> = Vec::new();
    let mut i: usize = 0;
    while i < items.len()
        invariant
            i <= items.len(),
            all == items.deep_view(),
            out@ == bytes_among(all.take(i as int)),
        decreases items.len() - i,
    {
        assert(all.take(i + 1).drop_last() =~= all.take(i as int));
        assert(all.take(i + 1).last() == items@[i as int]@);
        if let Some(n) = items[i].as_u64() {
            if n <= 255 {
                out.push(n as u8);
            }
        }
        i += 1;
    }
    assert(all.take(i as int) =~= all);
    out
}

fn read_number(v: &Json) -> (r: Option<u64>)
    ensures
        r == number_in_text(v@),
{
    match v.as_str() {
        Some(s) => parse_u64(s),
        None => None,
    }
}

fn read_text(v: &Json) -> (r: Option<String>)
    ensures
        r.deep_view() == v@.text(),
{
    match v.as_str() {
        Some(s) => Some(s.to_owned()),
        None => None,
    }
}

/// The record that a decoded journal document holds.
pub fn from_document(v: &Json) -> (r: Option<Record>)
    ensures
        match r {
            Some(record) => journal_record(v@) == Some(record@),
            None => journal_record(v@) is None,
        },
{
    let field: &Json = v.field("MESSAGE");
    let message: String = match field.as_str() {
        Some(s) => s.to_owned(),
        None => match field.as_array() {
            Some(items) => decode_lossy(collect_bytes(items).as_slice()),
            None => return None,
        },
    };
    assert(journal_message(v@) == Some(message@));
    Some(
        Record {
            cursor: read_text(v.field("__CURSOR")),
            timestamp: match read_number(v.field("__REALTIME_TIMESTAMP")) {
                Some(n) => Some(n / 1_000_000),
                None => None,
            },
            message,
            boot_id: read_text(v.field("_BOOT_ID")),
            monotonic_usec: read_number(v.field("__MONOTONIC_TIMESTAMP")),
        },
    )
}

/// What comes of a line of the journal's JSON output: the record that it holds, or why
/// it holds none.
pub open spec fn read_as(line: Seq<char>, r: Result<Record, RecordError>) -> bool {
    match r {
        Ok(record) => decoded(encode_utf8(line)) matches Ok(v) && journal_record(v) == Some(
            record@,
        ),
        Err(RecordError::Json(e)) => decoded(encode_utf8(line)) == Err::<JsonView, Seq<char>>(e@),
        Err(RecordError::NoMessage) => decoded(encode_utf8(line)) matches Ok(v)
            && journal_record(v) is None,
    }
}

/// Reads one line of the journal's JSON output.
pub fn parse(line: &str) -> (r: Result<Record, RecordError>)
    ensures
        read_as(line@, r),
{
    match decode(line.as_bytes()) {
        Ok(v) => match from_document(&v) {
            Some(record) => Ok(record),
            None => Err(RecordError::NoMessage),
        },
        Err(e) => Err(RecordError::Json(e)),
    }
}

/// Reads the journal's JSON output, line by line.
pub fn records_of(text: &str) -> (r: Vec<Result<Record, RecordError>>)
    ensures
        r@.len() == lines_of(text@).len(),
        forall|i: int| 0 <= i < r@.len() ==> read_as(lines_of(text@)[i], #[trigger] r@[i]),
{
    let all: Vec<String> = lines(text);
    let mut out: Vec<Result<Record, RecordError>> = Vec::new();
    let mut i: usize = 0;
    while i < all.len()
        invariant
            i <= all.len(),
            all.deep_view() == lines_of(text@),
            out@.len() == i,
            forall|j: int| 0 <= j < i ==> read_as(lines_of(text@)[j], #[trigger] out@[j]),
        decreases all.len() - i,
    {
        assert(all.deep_view()[i as int] == all@[i as int]@);
        out.push(parse(all[i].as_str()));
        i += 1;
    }
    out
}

// ---------------------------------------------------------------------------
// Words
// ---------------------------------------------------------------------------

/// A character of a word in a message.
pub open spec fn word_char(c: char) -> bool {
    alphanumeric(c) || c == '-' || c == '_'
}

fn is_word_char(c: char) -> (r: bool)
    ensures
        r == word_char(c),
{
    is_alphanumeric(c) || c == '-' || c == '_'
}

/// The number of word characters at the end of `s`.
pub open spec fn trailing_word(s: Seq<char>) -> nat
    decreases s.len(),
{
    if s.len() > 0 && word_char(s.last()) {
        1 + trailing_word(s.drop_last())
    } else {
        0
    }
}

pub proof fn lemma_trailing_word_bound(s: Seq<char>)
    ensures
        trailing_word(s) <= s.len(),
    decreases s.len(),
{
    if s.len() > 0 && word_char(s.last()) {
        lemma_trailing_word_bound(s.drop_last());
    }
}

/// The words of a message in order: the longest runs of word characters.
pub open spec fn words(s: Seq<char>) -> Seq<Seq<char>>
    decreases s.len(),
{
    let n = trailing_word(s) as int;
    if s.len() == 0 {
        Seq::empty()
    } else if n == 0 {
        words(s.drop_last())
    } else {
        proof {
            lemma_trailing_word_bound(s);
        }
        words(s.take(s.len() - n)).push(s.skip(s.len() - n))
    }
}

proof fn lemma_trailing_word(s: Seq<char>, from: int)
    requires
        0 <= from <= s.len(),
        from == 0 || !word_char(s[from - 1]),
        forall|j: int| from <= j < s.len() ==> word_char(#[trigger] s[j]),
    ensures
        trailing_word(s) == s.len() - from,
    decreases s.len(),
{
    if from < s.len() {
        assert(word_char(s[s.len() - 1]));
        lemma_trailing_word(s.drop_last(), from);
    }
}

/// The words of a message in order.
pub fn tokens(message: &str) -> (r: Vec<String>)
    ensures
        r.deep_view() == words(message@),
{
    let cs: Vec<char> = chars(message);
    let ghost s = message@;
    let mut out: Vec<String> = Vec::new();
    let mut from: usize = 0;
    let mut i: usize = 0;
    assert(out.deep_view() =~= words(s.take(0)));
    while i < cs.len()
        invariant
            from <= i <= cs.len(),
            cs@ == s,
            s == message@,
            from == 0 || !word_char(s[from - 1]),
            forall|j: int| from <= j < i ==> word_char(#[trigger] s[j]),
            out.deep_view() == words(s.take(from as int)),
        decreases cs.len() - i,
    {
        if !is_word_char(cs[i]) {
            let ghost t = s.take(i as int);
            proof {
                lemma_trailing_word(t, from as int);
                assert(s.take(i + 1).drop_last() =~= t);
                assert(!word_char(s.take(i + 1).last()));
                assert(words(s.take(i + 1)) == words(t));
                assert(t.take(from as int) =~= s.take(from as int));
                assert(t.skip(from as int) =~= s.subrange(from as int, i as int));
            }
            if from < i {
                let ghost before = out.deep_view();
                out.push(message.substring_char(from, i).to_owned());
                assert(out.deep_view() =~= before.push(s.subrange(from as int, i as int)));
            } else {
                assert(t =~= s.take(from as int));
            }
            from = i + 1;
        }
        i += 1;
    }
    proof {
        lemma_trailing_word(s, from as int);
        assert(s.skip(from as int) =~= s.subrange(from as int, i as int));
    }
    if from < i {
        let ghost before = out.deep_view();
        out.push(message.substring_char(from, i).to_owned());
        assert(out.deep_view() =~= before.push(s.subrange(from as int, i as int)));
    } else {
        assert(s =~= s.take(from as int));
    }
    out
}

// ---------------------------------------------------------------------------
// Classification
// ---------------------------------------------------------------------------

/// The name of a SCSI disk or of one of its partitions, such as `sda` or `sda1`.
pub open spec fn sd_name(w: Seq<char>) -> bool {
    &&& without_prefix(w, "sd"@) matches Some(tail)
    &&& tail.len() > 0
    &&& forall|i: int| 0 <= i < tail.len() ==> lower_letter(#[trigger] tail[i]) || digit(tail[i])
}

/// `w` is `prefix` with a digit behind it.
pub open spec fn numbered(w: Seq<char>, prefix: Seq<char>) -> bool {
    without_prefix(w, prefix) matches Some(tail) && tail.len() > 0 && digit(tail[0])
}

/// The word, in lower case, speaks of storage.
pub open spec fn storage_word(w: Seq<char>) -> bool {
    numbered(w, "ata"@) || numbered(w, "nvme"@) || numbered(w, "scsi"@) || sd_name(w) || w
        == "ata"@ || w == "nvme"@ || w == "scsi"@ || w == "blk"@ || w == "block"@
}

/// One of the words speaks of storage.
pub open spec fn speaks_of_storage(ws: Seq<Seq<char>>) -> bool {
    exists|i: int| 0 <= i < ws.len() && storage_word(#[trigger] ws[i])
}

/// The critical kind of trouble that a phrase of the message, in lower case, stands for.
pub open spec fn critical_phrase(m: Seq<char>) -> Option<Seq<char>> {
    if contains_text(m, "i/o error"@) {
        Some("io_error"@)
    } else if contains_text(m, "unrecovered read error"@) {
        Some("medium_error"@)
    } else if contains_text(m, "medium error"@) {
        Some("medium_error"@)
    } else if contains_text(m, "hard resetting link"@) {
        Some("link_reset"@)
    } else if contains_text(m, "comreset failed"@) {
        Some("link_reset"@)
    } else if contains_text(m, "aborted journal"@) {
        Some("filesystem"@)
    } else if contains_text(m, "ext4-fs error"@) {
        Some("filesystem"@)
    } else if contains_text(m, "remounting filesystem read-only"@) {
        Some("filesystem"@)
    } else if contains_text(m, "blk_update_request"@) {
        Some("io_error"@)
    } else if contains_text(m, "lost async page write"@) {
        Some("io_error"@)
    } else {
        None
    }
}

/// How grave a message is and what kind of trouble it reports; `None` where it
/// reports none. A failed command or a timeout counts only in a message that
/// speaks of storage.
pub open spec fn classified(message: Seq<char>) -> Option<(Severity, Seq<char>)> {
    let m = lowered(message);
    let storage = speaks_of_storage(words(m));
    if critical_phrase(m) is Some {
        Some((Severity::Critical, critical_phrase(m)->0))
    } else if words(message).contains("UNC"@) {
        Some((Severity::Critical, "medium_error"@))
    } else if storage && contains_text(m, "failed command"@) {
        Some((Severity::Warning, "failed_command"@))
    } else if contains_text(m, "link is slow to respond"@) {
        Some((Severity::Warning, "link_slow"@))
    } else if contains_text(m, "nvme"@) && contains_text(m, "reset"@) {
        Some((Severity::Critical, "nvme_reset"@))
    } else if storage && (contains_text(m, "timeout"@) || contains_text(m, "timed out"@)) {
        Some((Severity::Warning, "timeout"@))
    } else {
        None
    }
}

fn is_sd_name(w: &str) -> (r: bool)
    ensures
        r == sd_name(w@),
{
    match strip_prefix(w, "sd") {
        None => false,
        Some(tail) => {
            let cs: Vec<char> = chars(tail);
            let mut i: usize = 0;
            while i < cs.len()
                invariant
                    i <= cs.len(),
                    cs@ == tail@,
                    without_prefix(w@, "sd"@) == Some(tail@),
                    forall|j: int| 0 <= j < i ==> lower_letter(#[trigger] cs@[j]) || digit(cs@[j]),
                decreases cs.len() - i,
            {
                if !is_lower_letter(cs[i]) && !is_digit(cs[i]) {
                    assert(!lower_letter(tail@[i as int]));
                    return false;
                }
                i += 1;
            }
            cs.len() > 0
        },
    }
}

fn is_numbered(w: &str, prefix: &str) -> (r: bool)
    ensures
        r == numbered(w@, prefix@),
{
    match strip_prefix(w, prefix) {
        None => false,
        Some(tail) => tail.unicode_len() > 0 && is_digit(tail.get_char(0)),
    }
}

fn is_storage_word(w: &str) -> (r: bool)
    ensures
        r == storage_word(w@),
{
    is_numbered(w, "ata") || is_numbered(w, "nvme") || is_numbered(w, "scsi") || is_sd_name(w)
        || same(w, "ata") || same(w, "nvme") || same(w, "scsi") || same(w, "blk") || same(
        w,
        "block",
    )
}

fn any_storage_word(ws: &Vec<String>) -> (r: bool)
    ensures
        r == speaks_of_storage(ws.deep_view()),
{
    let mut i: usize = 0;
    while i < ws.len()
        invariant
            i <= ws.len(),
            forall|j: int| 0 <= j < i ==> !storage_word(#[trigger] ws.deep_view()[j]),
        decreases ws.len() - i,
    {
        if is_storage_word(ws[i].as_str()) {
            assert(storage_word(ws.deep_view()[i as int]));
            return true;
        }
        i += 1;
    }
    false
}

fn find_critical_phrase(m: &str) -> (r: Option<&'static str>)
    ensures
        match r {
            Some(c) => critical_phrase(m@) == Some(c@),
            None => critical_phrase(m@) is None,
        },
{
    if contains(m, "i/o error") {
        Some("io_error")
    } else if contains(m, "unrecovered read error") {
        Some("medium_error")
    } else if contains(m, "medium error") {
        Some("medium_error")
    } else if contains(m, "hard resetting link") {
        Some("link_reset")
    } else if contains(m, "comreset failed") {
        Some("link_reset")
    } else if contains(m, "aborted journal") {
        Some("filesystem")
    } else if contains(m, "ext4-fs error") {
        Some("filesystem")
    } else if contains(m, "remounting filesystem read-only") {
        Some("filesystem")
    } else if contains(m, "blk_update_request") {
        Some("io_error")
    } else if contains(m, "lost async page write") {
        Some("io_error")
    } else {
        None
    }
}

/// How grave a message is and what kind of trouble it reports.
pub fn classify(message: &str) -> (r: Option<(Severity, &'static str)>)
    ensures
        match r {
            Some((severity, category)) => classified(message@) == Some((severity, category@)),
            None => classified(message@) is None,
        },
{
    let lower: String = to_lowercase(message);
    let m: &str = lower.as_str();
    if let Some(category) = find_critical_phrase(m) {
        return Some((Severity::Critical, category));
    }
    if list_contains(&tokens(message), "UNC") {
        return Some((Severity::Critical, "medium_error"));
    }
    let storage: bool = any_storage_word(&tokens(m));
    if storage && contains(m, "failed command") {
        Some((Severity::Warning, "failed_command"))
    } else if contains(m, "link is slow to respond") {
        Some((Severity::Warning, "link_slow"))
    } else if contains(m, "nvme") && contains(m, "reset") {
        Some((Severity::Critical, "nvme_reset"))
    } else if storage && (contains(m, "timeout") || contains(m, "timed out")) {
        Some((Severity::Warning, "timeout"))
    } else {
        None
    }
}

// ---------------------------------------------------------------------------
// Correlation
// ---------------------------------------------------------------------------

/// One of the device's aliases is among the words: an ATA port where `port` is
/// set, else a name of the disk itself.
pub open spec fn spoken_of(d: DeviceView, ws: Seq<Seq<char>>, port: bool) -> bool {
    exists|i: int|
        0 <= i < d.aliases.len() && begins(#[trigger] d.aliases[i], "ata"@) == port && ws.contains(
            d.aliases[i],
        )
}

/// The devices that are spoken of.
pub open spec fn all_spoken_of(
    devices: Seq<DeviceView>,
    ws: Seq<Seq<char>>,
    port: bool,
) -> Seq<DeviceView>
    decreases devices.len(),
{
    if devices.len() == 0 {
        Seq::empty()
    } else if spoken_of(devices.last(), ws, port) {
        all_spoken_of(devices.drop_last(), ws, port).push(devices.last())
    } else {
        all_spoken_of(devices.drop_last(), ws, port)
    }
}

/// The one device of a list that has exactly one.
pub open spec fn only(devices: Seq<DeviceView>) -> Option<DeviceView> {
    if devices.len() == 1 {
        Some(devices[0])
    } else {
        None
    }
}

/// One of the words is the name of a SCSI or NVMe disk.
pub open spec fn names_disk(ws: Seq<Seq<char>>) -> bool {
    exists|i: int| 0 <= i < ws.len() && (begins(#[trigger] ws[i], "nvme"@) || sd_name(ws[i]))
}

/// The device that a message is about. The name of a disk goes before that of a
/// port, an unknown name of a disk rules the ports out, and a message that fits
/// several devices is about none.
pub open spec fn correlated(message: Seq<char>, devices: Seq<DeviceView>) -> Option<DeviceView> {
    let ws = words(message);
    if all_spoken_of(devices, ws, false).len() > 0 {
        only(all_spoken_of(devices, ws, false))
    } else if names_disk(ws) {
        None
    } else {
        only(all_spoken_of(devices, ws, true))
    }
}

fn is_spoken_of(d: &Device, ws: &Vec<String>, port: bool) -> (r: bool)
    ensures
        r == spoken_of(d@, ws.deep_view(), port),
{
    let mut i: usize = 0;
    while i < d.aliases.len()
        invariant
            i <= d.aliases.len(),
            forall|j: int|
                0 <= j < i ==> !(begins(#[trigger] d@.aliases[j], "ata"@) == port
                    && ws.deep_view().contains(d@.aliases[j])),
        decreases d.aliases.len() - i,
    {
        let a: &str = d.aliases[i].as_str();
        assert(d@.aliases[i as int] == a@);
        if starts_with(a, "ata") == port && list_contains(ws, a) {
            return true;
        }
        i += 1;
    }
    false
}

/// Which devices of a list were found to fit: none, one, or several.
enum Hits<'a> {
    Zero,
    One(&'a Device),
    Many,
}

impl<'a> Hits<'a> {
    spec fn counts(self, hits: Seq<DeviceView>) -> bool {
        match self {
            Hits::Zero => hits.len() == 0,
            Hits::One(d) => hits.len() == 1 && hits[0] == d@,
            Hits::Many => hits.len() > 1,
        }
    }

    fn with(self, d: &'a Device, Ghost(hits): Ghost<Seq<DeviceView>>) -> (r: Hits<'a>)
        requires
            self.counts(hits),
        ensures
            r.counts(hits.push(d@)),
    {
        match self {
            Hits::Zero => Hits::One(d),
            _ => Hits::Many,
        }
    }
}

fn find_spoken_of<'a>(devices: &'a Vec<Device>, ws: &Vec<String>, port: bool) -> (r: Hits<'a>)
    ensures
        r.counts(all_spoken_of(devices.deep_view(), ws.deep_view(), port)),
{
    let ghost all = devices.deep_view();
    let mut hits: Hits<'a> = Hits::Zero;
    let mut i: usize = 0;
    while i < devices.len()
        invariant
            i <= devices.len(),
            all == devices.deep_view(),
            hits.counts(all_spoken_of(all.take(i as int), ws.deep_view(), port)),
        decreases devices.len() - i,
    {
        assert(all.take(i + 1).drop_last() =~= all.take(i as int));
        assert(all.take(i + 1).last() == devices@[i as int]@);
        if is_spoken_of(&devices[i], ws, port) {
            hits =
            hits.with(
                &devices[i],
                Ghost(all_spoken_of(all.take(i as int), ws.deep_view(), port)),
            );
        }
        i += 1;
    }
    assert(all.take(i as int) =~= all);
    hits
}

fn is_disk_named(ws: &Vec<String>) -> (r: bool)
    ensures
        r == names_disk(ws.deep_view()),
{
    let mut i: usize = 0;
    while i < ws.len()
        invariant
            i <= ws.len(),
            forall|j: int|
                0 <= j < i ==> !(begins(#[trigger] ws.deep_view()[j], "nvme"@) || sd_name(
                    ws.deep_view()[j],
                )),
        decreases ws.len() - i,
    {
        let w: &str = ws[i].as_str();
        assert(ws.deep_view()[i as int] == w@);
        if starts_with(w, "nvme") || is_sd_name(w) {
            return true;
        }
        i += 1;
    }
    false
}

/// The device that a message is about.
pub fn correlate<'a>(message: &str, devices: &'a Vec<Device>) -> (r: Option<&'a Device>)
    ensures
        r.deep_view() == correlated(message@, devices.deep_view()),
{
    let ws: Vec<String> = tokens(message);
    match find_spoken_of(devices, &ws, false) {
        Hits::One(d) => return Some(d),
        Hits::Many => return None,
        Hits::Zero => {},
    }
    if is_disk_named(&ws) {
        return None;
    }
    match find_spoken_of(devices, &ws, true) {
        Hits::One(d) => Some(d),
        _ => None,
    }
}

/// The names that follow the word `dev`.
pub open spec fn dev_names(ws: Seq<Seq<char>>) -> Seq<Seq<char>>
    decreases ws.len(),
{
    if ws.len() < 2 {
        Seq::empty()
    } else if ws[ws.len() - 2] == "dev"@ && begins(ws.last(), "sd"@) {
        dev_names(ws.drop_last()).push(ws.last())
    } else {
        dev_names(ws.drop_last())
    }
}

/// The number of characters before the first square bracket.
pub open spec fn before_bracket(s: Seq<char>) -> nat
    decreases s.len(),
{
    if s.len() == 0 || s[0] == '[' || s[0] == ']' {
        0
    } else {
        1 + before_bracket(s.skip(1))
    }
}

/// What stands before the next closing bracket, where no bracket opens before it.
pub open spec fn closed_name(s: Seq<char>) -> Option<Seq<char>> {
    let n = before_bracket(s) as int;
    if n < s.len() && s[n] == ']' {
        Some(s.take(n))
    } else {
        None
    }
}

/// The name of a disk as it stands in brackets.
pub open spec fn bracket_name(name: Seq<char>) -> bool {
    (begins(name, "sd"@) || begins(name, "nvme"@)) && forall|i: int|
        0 <= i < name.len() ==> alphanumeric(#[trigger] name[i])
}

/// The names of disks that stand in brackets.
pub open spec fn bracket_names(s: Seq<char>) -> Seq<Seq<char>>
    decreases s.len(),
{
    if s.len() == 0 {
        Seq::empty()
    } else if s[0] == '[' && closed_name(s.skip(1)) is Some && bracket_name(
        closed_name(s.skip(1))->0,
    ) {
        seq![closed_name(s.skip(1))->0] + bracket_names(s.skip(1))
    } else {
        bracket_names(s.skip(1))
    }
}

/// The names by which a message speaks of disks outright.
pub open spec fn explicit_names(message: Seq<char>) -> Seq<Seq<char>> {
    if dev_names(words(message)).len() > 0 {
        dev_names(words(message))
    } else {
        bracket_names(message)
    }
}

/// The device goes by this name.
pub open spec fn goes_by(d: DeviceView, name: Seq<char>) -> bool {
    without_prefix(d.path, "/dev/"@) == Some(name) || d.aliases.contains(name)
}

/// The device goes by each of the names.
pub open spec fn goes_by_all(d: DeviceView, names: Seq<Seq<char>>) -> bool {
    forall|i: int| 0 <= i < names.len() ==> goes_by(d, #[trigger] names[i])
}

/// The devices that go by each of the names.
pub open spec fn all_named(devices: Seq<DeviceView>, names: Seq<Seq<char>>) -> Seq<DeviceView>
    decreases devices.len(),
{
    if devices.len() == 0 {
        Seq::empty()
    } else if goes_by_all(devices.last(), names) {
        all_named(devices.drop_last(), names).push(devices.last())
    } else {
        all_named(devices.drop_last(), names)
    }
}

/// The record is of this boot and newer than what is known of the device, and the
/// device is still the one that was discovered: `current` is its sequence number
/// now.
pub open spec fn up_to_date(
    record: RecordView,
    d: DeviceView,
    boot: Option<Seq<char>>,
    current: Option<u64>,
) -> bool {
    &&& boot is Some
    &&& record.boot_id == boot
    &&& record.timestamp is Some
    &&& record.timestamp->0 > d.discovered_at
    &&& d.diskseq is Some
    &&& current == d.diskseq
}

/// The device to which a record is ascribed. A message that names disks outright
/// is about the one device that goes by all the names. Any other message is about
/// the device that it correlates with, if that knowledge is up to date.
pub open spec fn ascribed(
    record: RecordView,
    devices: Seq<DeviceView>,
    boot: Option<Seq<char>>,
    current: Option<u64>,
) -> Option<DeviceView> {
    let names = explicit_names(record.message);
    if names.len() > 0 {
        only(all_named(devices, names))
    } else {
        match correlated(record.message, devices) {
            Some(d) => if up_to_date(record, d, boot, current) {
                Some(d)
            } else {
                None
            },
            None => None,
        }
    }
}

fn find_dev_names(ws: &Vec<String>) -> (r: Vec<String>)
    ensures
        r.deep_view() == dev_names(ws.deep_view()),
{
    let ghost all = ws.deep_view();
    let mut out: Vec<String> = Vec::new();
    let mut i: usize = 1;
    assert(out.deep_view() =~= Seq::<Seq<char>>::empty());
    if ws.len() == 0 {
        return out;
    }
    while i < ws.len()
        invariant
            1 <= i <= ws.len(),
            all == ws.deep_view(),
            out.deep_view() == dev_names(all.take(i as int)),
        decreases ws.len() - i,
    {
        let ghost next = all.take(i + 1);
        assert(next.drop_last() =~= all.take(i as int));
        assert(next.last() == ws@[i as int]@);
        assert(next[next.len() - 2] == ws@[i - 1]@);
        if same(ws[i - 1].as_str(), "dev") && starts_with(ws[i].as_str(), "sd") {
            let ghost before = out.deep_view();
            out.push(ws[i].clone());
            assert(out.deep_view() =~= before.push(ws@[i as int]@));
        }
        i += 1;
    }
    assert(all.take(i as int) =~= all);
    out
}

fn is_bracket_name(name: &str) -> (r: bool)
    ensures
        r == bracket_name(name@),
{
    if !starts_with(name, "sd") && !starts_with(name, "nvme") {
        return false;
    }
    let cs: Vec<char> = chars(name);
    let mut i: usize = 0;
    while i < cs.len()
        invariant
            i <= cs.len(),
            cs@ == name@,
            forall|j: int| 0 <= j < i ==> alphanumeric(#[trigger] cs@[j]),
        decreases cs.len() - i,
    {
        if !is_alphanumeric(cs[i]) {
            assert(!alphanumeric(name@[i as int]));
            return false;
        }
        i += 1;
    }
    true
}

fn find_closed_name<'a>(message: &'a str, cs: &Vec<char>, from: usize) -> (r: Option<&'a str>)
    requires
        cs@ == message@,
        from <= cs.len(),
    ensures
        match r {
            Some(n) => closed_name(message@.skip(from as int)) == Some(n@),
            None => closed_name(message@.skip(from as int)) is None,
        },
{
    let ghost s = message@.skip(from as int);
    let mut i: usize = from;
    assert(s.skip(0) =~= s);
    while i < cs.len() && cs[i] != '[' && cs[i] != ']'
        invariant
            from <= i <= cs.len(),
            cs@ == message@,
            s == message@.skip(from as int),
            before_bracket(s) == i - from + before_bracket(s.skip(i - from)),
        decreases cs.len() - i,
    {
        assert(s.skip(i - from).skip(1) =~= s.skip(i + 1 - from));
        i += 1;
    }
    assert(before_bracket(s) == i - from);
    if i < cs.len() && cs[i] == ']' {
        let n: &'a str = message.substring_char(from, i);
        assert(n@ =~= s.take(i - from));
        Some(n)
    } else {
        None
    }
}

fn find_bracket_names(message: &str) -> (r: Vec<String>)
    ensures
        r.deep_view() == bracket_names(message@),
{
    let cs: Vec<char> = chars(message);
    let ghost s = message@;
    let mut out: Vec<String> = Vec::new();
    let mut i: usize = 0;
    assert(s.skip(0) =~= s);
    assert(out.deep_view() + bracket_names(s) =~= bracket_names(s));
    while i < cs.len()
        invariant
            i <= cs.len(),
            cs@ == s,
            s == message@,
            out.deep_view() + bracket_names(s.skip(i as int)) == bracket_names(s),
        decreases cs.len() - i,
    {
        let ghost rest = s.skip(i as int);
        assert(rest.skip(1) =~= s.skip(i + 1));
        let ghost before = out.deep_view();
        if cs[i] == '[' {
            if let Some(n) = find_closed_name(message, &cs, i + 1) {
                if is_bracket_name(n) {
                    out.push(n.to_owned());
                    assert(out.deep_view() =~= before.push(n@));
                    assert(out.deep_view() + bracket_names(rest.skip(1)) =~= before + (seq![n@]
                        + bracket_names(rest.skip(1))));
                }
            }
        }
        i += 1;
    }
    assert(out.deep_view() + bracket_names(s.skip(i as int)) =~= out.deep_view());
    out
}

fn find_explicit_names(message: &str) -> (r: Vec<String>)
    ensures
        r.deep_view() == explicit_names(message@),
{
    let names: Vec<String> = find_dev_names(&tokens(message));
    if names.len() > 0 {
        names
    } else {
        find_bracket_names(message)
    }
}

fn does_go_by_all(d: &Device, names: &Vec<String>) -> (r: bool)
    ensures
        r == goes_by_all(d@, names.deep_view()),
{
    let mut i: usize = 0;
    while i < names.len()
        invariant
            i <= names.len(),
            forall|j: int| 0 <= j < i ==> goes_by(d@, #[trigger] names.deep_view()[j]),
        decreases names.len() - i,
    {
        let name: &str = names[i].as_str();
        assert(names.deep_view()[i as int] == name@);
        let by_path: bool = match strip_prefix(d.path.as_str(), "/dev/") {
            Some(p) => same(p, name),
            None => false,
        };
        if !by_path && !list_contains(&d.aliases, name) {
            return false;
        }
        i += 1;
    }
    true
}

fn find_named<'a>(devices: &'a Vec<Device>, names: &Vec<String>) -> (r: Hits<'a>)
    ensures
        r.counts(all_named(devices.deep_view(), names.deep_view())),
{
    let ghost all = devices.deep_view();
    let mut hits: Hits<'a> = Hits::Zero;
    let mut i: usize = 0;
    while i < devices.len()
        invariant
            i <= devices.len(),
            all == devices.deep_view(),
            hits.counts(all_named(all.take(i as int), names.deep_view())),
        decreases devices.len() - i,
    {
        assert(all.take(i + 1).drop_last() =~= all.take(i as int));
        assert(all.take(i + 1).last() == devices@[i as int]@);
        if does_go_by_all(&devices[i], names) {
            hits =
            hits.with(&devices[i], Ghost(all_named(all.take(i as int), names.deep_view())));
        }
        i += 1;
    }
    assert(all.take(i as int) =~= all);
    hits
}

/// The device whose sequence number decides to which device the record is
/// ascribed. `None` where it does not depend on one.
pub open spec fn undecided(record: RecordView, devices: Seq<DeviceView>) -> Option<DeviceView> {
    if explicit_names(record.message).len() > 0 {
        None
    } else {
        correlated(record.message, devices)
    }
}

/// The device whose sequence number has to be read before `fresh_match`.
pub fn needs_diskseq<'a>(record: &Record, devices: &'a Vec<Device>) -> (r: Option<&'a Device>)
    ensures
        r.deep_view() == undecided(record@, devices.deep_view()),
{
    if find_explicit_names(record.message.as_str()).len() > 0 {
        None
    } else {
        correlate(record.message.as_str(), devices)
    }
}

/// The device to which a record is ascribed. `current` is the sequence number now
/// of the device that `needs_diskseq` names.
pub fn fresh_match<'a>(
    record: &Record,
    devices: &'a Vec<Device>,
    boot: Option<&str>,
    current: Option<u64>,
) -> (r: Option<&'a Device>)
    ensures
        r.deep_view() == ascribed(record@, devices.deep_view(), boot.deep_view(), current),
{
    let names: Vec<String> = find_explicit_names(record.message.as_str());
    assert(names.deep_view().len() == names@.len());
    if names.len() > 0 {
        return match find_named(devices, &names) {
            Hits::One(d) => Some(d),
            _ => None,
        };
    }
    match correlate(record.message.as_str(), devices) {
        None => None,
        Some(d) => {
            let same_boot: bool = match (&record.boot_id, boot) {
                (Some(a), Some(b)) => same(a.as_str(), b),
                _ => false,
            };
            let newer: bool = match record.timestamp {
                Some(t) => t > d.discovered_at,
                None => false,
            };
            if same_boot && newer && d.diskseq.is_some() && current == d.diskseq {
                Some(d)
            } else {
                None
            }
        },
    }
}

// ---------------------------------------------------------------------------
// The journal
// ---------------------------------------------------------------------------

/// The arguments for `journalctl`: what comes after the cursor, or the last 200
/// records where there is none.
pub open spec fn journal_call(cursor: Option<Seq<char>>, follow: bool) -> Seq<Seq<char>> {
    seq!["-k"@, "-o"@, "json"@, "--no-pager"@] + (if follow {
        seq!["-f"@]
    } else {
        Seq::empty()
    }) + (match cursor {
        Some(c) => seq!["--after-cursor"@, c, "-n"@, "all"@],
        None => seq!["-n"@, "200"@],
    })
}

/// The arguments for `journalctl`.
pub fn arguments(cursor: Option<&str>, follow: bool) -> (r: Vec<String>)
    ensures
        r.deep_view() == journal_call(cursor.deep_view(), follow),
{
    let mut r: Vec<String> = Vec::new();
    r.push("-k".to_owned());
    r.push("-o".to_owned());
    r.push("json".to_owned());
    r.push("--no-pager".to_owned());
    if follow {
        r.push("-f".to_owned());
    }
    if let Some(c) = cursor {
        r.push("--after-cursor".to_owned());
        r.push(c.to_owned());
        r.push("-n".to_owned());
        r.push("all".to_owned());
    } else {
        r.push("-n".to_owned());
        r.push("200".to_owned());
    }
    assert(r.deep_view() =~= journal_call(cursor.deep_view(), follow));
    r
}

/// What to do when the journal reader has come to an end: a cursor that was of no use
/// is dropped, and the last records are read once in place of those after it; any
/// other end is for good. `received` tells whether the reader did its work.
pub fn retry_without_cursor(received: bool, cursor: &mut Option<String>) -> (r: bool)
    ensures
        r == (!received && *old(cursor) is Some),
        *final(cursor) == (if received {
            *old(cursor)
        } else {
            None
        }),
{
    if received {
        false
    } else {
        let r: bool = cursor.is_some();
        *cursor = None;
        r
    }
}

/// The boot id in the journal's form, from the text of the kernel's file.
pub fn boot_id_from(text: &str) -> (r: String)
    ensures
        r@ == without_chars(trimmed(text@), '-', '-'),
{
    remove_chars(trim(text), '-', '-')
}

} // verus!
