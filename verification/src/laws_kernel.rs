//! What holds of kernel messages: their words, what trouble they report, and which disk
//! they are about.

use crate::alert::Severity;
use crate::devices::DeviceView;
use crate::json::{decoded, JsonView};
use crate::kernel::{
    all_named, all_spoken_of, ascribed, bracket_names, bytes_among, classified, correlated,
    dev_names, explicit_names, goes_by_all, journal_call, journal_record, lossy, read_as, spoken_of,
    trailing_word, undecided, words, Record, RecordError, RecordView,
};
use crate::text::{contains_text, lowered, occurs_at, parsed_u64};
use vstd::prelude::*;
use vstd::utf8::encode_utf8;

verus! {

// ---------------------------------------------------------------------------
// Records
// ---------------------------------------------------------------------------

/// A journal document with a message gives a record, and each field of the record is
/// that of its own member; the time is given in whole seconds.
pub proof fn law_record_fields(v: JsonView)
    ensures
        journal_record(v) is Some <==> v.at("MESSAGE"@) is Text || v.at("MESSAGE"@) is Array,
        journal_record(v) matches Some(r) ==> {
            &&& v.at("MESSAGE"@) matches JsonView::Text(t) ==> r.message == t
            &&& v.at("MESSAGE"@) matches JsonView::Array(a) ==> r.message == lossy(bytes_among(a))
            &&& r.cursor == v.at("__CURSOR"@).text()
            &&& r.boot_id == v.at("_BOOT_ID"@).text()
            &&& v.at("__MONOTONIC_TIMESTAMP"@) matches JsonView::Text(t) ==> r.monotonic_usec
                == parsed_u64(t)
            &&& !(v.at("__MONOTONIC_TIMESTAMP"@) is Text) ==> r.monotonic_usec is None
            &&& v.at("__REALTIME_TIMESTAMP"@) matches JsonView::Text(t) ==> (r.timestamp is Some
                <==> parsed_u64(t) is Some)
            &&& !(v.at("__REALTIME_TIMESTAMP"@) is Text) ==> r.timestamp is None
            &&& r.timestamp matches Some(s) ==> v.at("__REALTIME_TIMESTAMP"@) matches JsonView::Text(
                t,
            ) && parsed_u64(t) matches Some(us) && 1_000_000 * s <= us < 1_000_000 * s + 1_000_000
        },
{
}

/// A message of bytes is put together byte by byte; what is no byte is left out.
pub proof fn law_bytes_are_gathered(items: Seq<JsonView>, next: JsonView)
    ensures
        bytes_among(Seq::empty()) == Seq::<u8>::empty(),
        next matches JsonView::Unsigned(n) && n <= 255 ==> bytes_among(items.push(next))
            == bytes_among(items).push(next->Unsigned_0 as u8),
        !(next matches JsonView::Unsigned(n) && n <= 255) ==> bytes_among(items.push(next))
            == bytes_among(items),
{
    assert(items.push(next).drop_last() =~= items);
}

/// A line is read as a record exactly if it is JSON with a message; the error else says
/// which of the two it is not.
pub proof fn law_line_is_read(line: Seq<char>, r: Result<Record, RecordError>)
    requires
        read_as(line, r),
    ensures
        ({
            let v = decoded(encode_utf8(line));
            &&& r is Ok <==> v is Ok && (v->Ok_0.at("MESSAGE"@) is Text || v->Ok_0.at(
                "MESSAGE"@,
            ) is Array)
            &&& r matches Ok(record) ==> journal_record(v->Ok_0) == Some(record@)
            &&& r matches Err(RecordError::Json(e)) ==> v is Err && e@ == v->Err_0
            &&& r matches Err(RecordError::NoMessage) ==> v is Ok
        }),
{
}

// ---------------------------------------------------------------------------
// Words
// ---------------------------------------------------------------------------

/// A letter, a digit, a dash or an underscore.
pub open spec fn part_of_word(c: char) -> bool {
    'a' <= c <= 'z' || 'A' <= c <= 'Z' || '0' <= c <= '9' || c == '-' || c == '_'
}

proof fn lemma_trailing_word_behind(a: Seq<char>, c: char, b: Seq<char>)
    requires
        !part_of_word(c),
    ensures
        trailing_word(a + seq![c] + b) == trailing_word(b),
    decreases b.len(),
{
    let t = a + seq![c] + b;
    if b.len() == 0 {
        assert(t.last() == c);
    } else {
        assert(t.last() == b.last());
        assert(t.drop_last() =~= a + seq![c] + b.drop_last());
        lemma_trailing_word_behind(a, c, b.drop_last());
    }
}

proof fn lemma_trailing_word_bounded(s: Seq<char>)
    ensures
        trailing_word(s) <= s.len(),
    decreases s.len(),
{
    if s.len() > 0 {
        lemma_trailing_word_bounded(s.drop_last());
    }
}

proof fn lemma_trailing_word_whole(s: Seq<char>)
    requires
        forall|i: int| 0 <= i < s.len() ==> part_of_word(#[trigger] s[i]),
    ensures
        trailing_word(s) == s.len(),
    decreases s.len(),
{
    if s.len() > 0 {
        assert(part_of_word(s[s.len() - 1]));
        assert forall|i: int| 0 <= i < s.drop_last().len() implies part_of_word(
            #[trigger] s.drop_last()[i],
        ) by {
            assert(s.drop_last()[i] == s[i]);
        }
        lemma_trailing_word_whole(s.drop_last());
    }
}

/// What is no part of a word separates words: those before it and those behind it are
/// the words of the whole.
pub proof fn law_words_are_separated(a: Seq<char>, c: char, b: Seq<char>)
    requires
        !part_of_word(c),
    ensures
        words(a + seq![c] + b) == words(a) + words(b),
    decreases b.len(),
{
    let t = a + seq![c] + b;
    lemma_trailing_word_behind(a, c, b);
    lemma_trailing_word_bounded(b);
    let n = trailing_word(b) as int;
    if b.len() == 0 {
        assert(t.drop_last() =~= a);
        assert(words(b) =~= Seq::<Seq<char>>::empty());
        assert(words(a) + words(b) =~= words(a));
    } else if n == 0 {
        assert(t.drop_last() =~= a + seq![c] + b.drop_last());
        law_words_are_separated(a, c, b.drop_last());
    } else {
        assert(t.take(t.len() - n) =~= a + seq![c] + b.take(b.len() - n));
        assert(t.skip(t.len() - n) =~= b.skip(b.len() - n));
        law_words_are_separated(a, c, b.take(b.len() - n));
        assert(words(t) =~= words(a) + words(b));
    }
}

/// A text of nothing but letters, digits, dashes and underscores is one word, and the
/// empty text has none.
pub proof fn law_word_is_whole(s: Seq<char>)
    requires
        forall|i: int| 0 <= i < s.len() ==> part_of_word(#[trigger] s[i]),
    ensures
        words(s) == (if s.len() > 0 {
            seq![s]
        } else {
            Seq::empty()
        }),
{
    lemma_trailing_word_whole(s);
    if s.len() > 0 {
        assert(s.take(0) =~= Seq::<char>::empty());
        assert(words(s.take(0)) =~= Seq::<Seq<char>>::empty());
        assert(s.skip(0) =~= s);
        assert(words(s) =~= seq![s]);
    }
}

// ---------------------------------------------------------------------------
// What trouble a message reports
// ---------------------------------------------------------------------------

/// One of the phrases that stand for critical trouble is in the text.
pub open spec fn has_critical_phrase(m: Seq<char>) -> bool {
    contains_text(m, "i/o error"@) || contains_text(m, "unrecovered read error"@) || contains_text(
        m,
        "medium error"@,
    ) || contains_text(m, "hard resetting link"@) || contains_text(m, "comreset failed"@)
        || contains_text(m, "aborted journal"@) || contains_text(m, "ext4-fs error"@)
        || contains_text(m, "remounting filesystem read-only"@) || contains_text(
        m,
        "blk_update_request"@,
    ) || contains_text(m, "lost async page write"@)
}

/// The word is `name` with a digit behind it.
pub open spec fn has_number(w: Seq<char>, name: Seq<char>) -> bool {
    exists|tail: Seq<char>| w == #[trigger] (name + tail) && tail.len() > 0 && '0' <= tail[0] <= '9'
}

/// The word is `sd` with small letters and digits behind it.
pub open spec fn is_sd_disk(w: Seq<char>) -> bool {
    w.len() > 2 && w[0] == 's' && w[1] == 'd' && forall|i: int|
        2 <= i < w.len() ==> 'a' <= (#[trigger] w[i]) <= 'z' || '0' <= w[i] <= '9'
}

/// The word is the name of a storage bus or device.
pub open spec fn names_storage(w: Seq<char>) -> bool {
    has_number(w, "ata"@) || has_number(w, "nvme"@) || has_number(w, "scsi"@) || is_sd_disk(w) || w
        == "ata"@ || w == "nvme"@ || w == "scsi"@ || w == "blk"@ || w == "block"@
}

/// The message, in lower case, has a word that names storage.
pub open spec fn about_storage(message: Seq<char>) -> bool {
    exists|i: int|
        0 <= i < words(lowered(message)).len() && names_storage(#[trigger] words(lowered(message))[i])
}

proof fn lemma_has_number(w: Seq<char>, name: Seq<char>)
    ensures
        crate::kernel::numbered(w, name) == has_number(w, name),
{
    if crate::kernel::numbered(w, name) {
        let tail = w.skip(name.len() as int);
        assert(w =~= name + tail);
    }
    if has_number(w, name) {
        let tail = choose|tail: Seq<char>|
            w == #[trigger] (name + tail) && tail.len() > 0 && '0' <= tail[0] <= '9';
        assert(w.take(name.len() as int) =~= name);
        assert(w.skip(name.len() as int) =~= tail);
    }
}

proof fn lemma_is_sd_disk(w: Seq<char>)
    ensures
        crate::kernel::sd_name(w) == is_sd_disk(w),
{
    reveal_strlit("sd");
    if crate::kernel::sd_name(w) {
        assert(w.take(2)[0] == 's' && w.take(2)[1] == 'd');
        assert forall|i: int| 2 <= i < w.len() implies 'a' <= (#[trigger] w[i]) <= 'z' || '0'
            <= w[i] <= '9' by {
            assert(w.skip(2)[i - 2] == w[i]);
        }
    }
    if is_sd_disk(w) {
        assert(w.take(2) =~= "sd"@);
        assert forall|i: int| 0 <= i < w.skip(2).len() implies 'a' <= (#[trigger] w.skip(2)[i]) <= 'z'
            || '0' <= w.skip(2)[i] <= '9' by {
            assert(w.skip(2)[i] == w[i + 2]);
        }
    }
}

proof fn lemma_storage(message: Seq<char>)
    ensures
        crate::kernel::speaks_of_storage(words(lowered(message))) == about_storage(message),
{
    let ws = words(lowered(message));
    assert forall|i: int| 0 <= i < ws.len() implies crate::kernel::storage_word(#[trigger] ws[i])
        == names_storage(ws[i]) by {
        lemma_has_number(ws[i], "ata"@);
        lemma_has_number(ws[i], "nvme"@);
        lemma_has_number(ws[i], "scsi"@);
        lemma_is_sd_disk(ws[i]);
    }
    if crate::kernel::speaks_of_storage(ws) {
        let i = choose|i: int| 0 <= i < ws.len() && crate::kernel::storage_word(#[trigger] ws[i]);
        assert(names_storage(ws[i]));
    }
    if about_storage(message) {
        let i = choose|i: int| 0 <= i < ws.len() && names_storage(#[trigger] ws[i]);
        assert(crate::kernel::storage_word(ws[i]));
    }
}

/// A message is critical exactly if it has one of the critical phrases or the word
/// `UNC`, or speaks of an NVMe reset and is neither a failed command of a storage
/// device nor a slow link.
pub proof fn law_what_is_critical(message: Seq<char>)
    ensures
        ({
            let m = lowered(message);
            (classified(message) matches Some(c) && c.0 == Severity::Critical) <==> (
            has_critical_phrase(m) || words(message).contains("UNC"@) || (contains_text(m, "nvme"@)
                && contains_text(m, "reset"@) && !(about_storage(message) && contains_text(
                m,
                "failed command"@,
            )) && !contains_text(m, "link is slow to respond"@)))
        }),
{
    lemma_storage(message);
}

/// A message that is not critical is a warning exactly if it is a failed command or a
/// timeout of a storage device, or a slow link; no message is of no weight.
pub proof fn law_what_is_a_warning(message: Seq<char>)
    ensures
        ({
            let m = lowered(message);
            let critical = classified(message) matches Some(c) && c.0 == Severity::Critical;
            &&& (classified(message) matches Some(c) && c.0 == Severity::Warning) <==> !critical && (
            contains_text(m, "link is slow to respond"@) || (about_storage(message) && (
            contains_text(m, "failed command"@) || contains_text(m, "timeout"@) || contains_text(
                m,
                "timed out"@,
            ))))
            &&& !(classified(message) matches Some(c) && c.0 == Severity::Info)
        }),
{
    lemma_storage(message);
}

/// A message that speaks of an NVMe reset is never taken for a mere timeout, and what
/// is taken for a timeout is no failed command and no slow link.
pub proof fn law_timeout_is_the_last_resort(message: Seq<char>)
    requires
        classified(message) matches Some(c) && c.1 == "timeout"@,
    ensures
        ({
            let m = lowered(message);
            &&& classified(message) == Some((Severity::Warning, "timeout"@))
            &&& about_storage(message)
            &&& contains_text(m, "timeout"@) || contains_text(m, "timed out"@)
            &&& !has_critical_phrase(m)
            &&& !words(message).contains("UNC"@)
            &&& !(contains_text(m, "nvme"@) && contains_text(m, "reset"@))
            &&& !contains_text(m, "failed command"@)
            &&& !contains_text(m, "link is slow to respond"@)
        }),
{
    lemma_storage(message);
    lemma_categories_differ();
}

proof fn lemma_categories_differ()
    ensures
        "timeout"@ != "io_error"@,
        "timeout"@ != "medium_error"@,
        "timeout"@ != "link_reset"@,
        "timeout"@ != "filesystem"@,
        "timeout"@ != "failed_command"@,
        "timeout"@ != "link_slow"@,
        "timeout"@ != "nvme_reset"@,
{
    reveal_strlit("timeout");
    reveal_strlit("io_error");
    reveal_strlit("medium_error");
    reveal_strlit("link_reset");
    reveal_strlit("filesystem");
    reveal_strlit("failed_command");
    reveal_strlit("link_slow");
    reveal_strlit("nvme_reset");
    assert("timeout"@[0] == 't');
    assert("io_error"@[0] == 'i');
    assert("medium_error"@[0] == 'm');
    assert("link_reset"@[0] == 'l');
    assert("filesystem"@[0] == 'f');
    assert("failed_command"@[0] == 'f');
    assert("link_slow"@[0] == 'l');
    assert("nvme_reset"@[0] == 'n');
}

/// The kind of a critical message: that of an I/O error before all, then of the medium,
/// of the link, of the file system, of a write that was lost, of a sector that cannot be
/// read, and of an NVMe reset.
pub proof fn law_kinds_of_critical_trouble(message: Seq<char>)
    requires
        classified(message) matches Some(c) && c.0 == Severity::Critical,
    ensures
        ({
            let m = lowered(message);
            let kind = (classified(message)->0).1;
            let io = contains_text(m, "i/o error"@);
            let medium = contains_text(m, "unrecovered read error"@) || contains_text(
                m,
                "medium error"@,
            );
            let link = contains_text(m, "hard resetting link"@) || contains_text(
                m,
                "comreset failed"@,
            );
            let files = contains_text(m, "aborted journal"@) || contains_text(m, "ext4-fs error"@)
                || contains_text(m, "remounting filesystem read-only"@);
            let write = contains_text(m, "blk_update_request"@) || contains_text(
                m,
                "lost async page write"@,
            );
            &&& io ==> kind == "io_error"@
            &&& medium && !io ==> kind == "medium_error"@
            &&& link && !io && !medium ==> kind == "link_reset"@
            &&& files && !io && !medium && !link ==> kind == "filesystem"@
            &&& write && !medium && !link && !files ==> kind == "io_error"@
            &&& !has_critical_phrase(m) && words(message).contains("UNC"@) ==> kind
                == "medium_error"@
            &&& !has_critical_phrase(m) && !words(message).contains("UNC"@) ==> kind
                == "nvme_reset"@
        }),
{
}

/// The kind of a warning: a failed command before a slow link, and that before a
/// timeout.
pub proof fn law_kinds_of_warnings(message: Seq<char>)
    requires
        classified(message) matches Some(c) && c.0 == Severity::Warning,
    ensures
        ({
            let m = lowered(message);
            let kind = (classified(message)->0).1;
            let failed = about_storage(message) && contains_text(m, "failed command"@);
            &&& failed ==> kind == "failed_command"@
            &&& !failed && contains_text(m, "link is slow to respond"@) ==> kind == "link_slow"@
            &&& !failed && !contains_text(m, "link is slow to respond"@) ==> kind == "timeout"@
        }),
{
    lemma_storage(message);
}

/// A phrase is found wherever it stands.
pub proof fn law_phrase_is_found(a: Seq<char>, p: Seq<char>, b: Seq<char>)
    ensures
        contains_text(a + p + b, p),
{
    assert((a + p + b).subrange(a.len() as int, (a.len() + p.len()) as int) =~= p);
    assert(occurs_at(a + p + b, p, a.len() as int));
}

/// A phrase that is found stands somewhere.
pub proof fn law_found_phrase_stands(s: Seq<char>, p: Seq<char>)
    requires
        contains_text(s, p),
    ensures
        exists|a: Seq<char>, b: Seq<char>| s == #[trigger] (a + p + b),
{
    let i = choose|i: int| occurs_at(s, p, i);
    let a = s.take(i);
    let b = s.skip(i + p.len());
    assert(s =~= a + p + b);
}

// ---------------------------------------------------------------------------
// Which disk a message is about
// ---------------------------------------------------------------------------

/// The name of an ATA port starts like this.
pub open spec fn like_a_port(name: Seq<char>) -> bool {
    name.len() >= 3 && name[0] == 'a' && name[1] == 't' && name[2] == 'a'
}

/// One of the names of the device, as a port or not as one, is among the words.
pub open spec fn has_name_among(d: DeviceView, ws: Seq<Seq<char>>, port: bool) -> bool {
    exists|i: int|
        0 <= i < d.aliases.len() && like_a_port(#[trigger] d.aliases[i]) == port && ws.contains(
            d.aliases[i],
        )
}

proof fn lemma_like_a_port(name: Seq<char>)
    ensures
        crate::text::begins(name, "ata"@) == like_a_port(name),
{
    reveal_strlit("ata");
    if like_a_port(name) {
        assert(name.take(3) =~= "ata"@);
    } else if crate::text::begins(name, "ata"@) {
        assert(name.take(3)[0] == 'a' && name.take(3)[1] == 't' && name.take(3)[2] == 'a');
    }
}

proof fn lemma_has_name_among(d: DeviceView, ws: Seq<Seq<char>>, port: bool)
    ensures
        spoken_of(d, ws, port) == has_name_among(d, ws, port),
{
    assert forall|i: int| 0 <= i < d.aliases.len() implies crate::text::begins(
        #[trigger] d.aliases[i],
        "ata"@,
    ) == like_a_port(d.aliases[i]) by {
        lemma_like_a_port(d.aliases[i]);
    }
    if spoken_of(d, ws, port) {
        let i = choose|i: int|
            0 <= i < d.aliases.len() && crate::text::begins(#[trigger] d.aliases[i], "ata"@) == port
                && ws.contains(d.aliases[i]);
        assert(like_a_port(d.aliases[i]) == port);
    }
    if has_name_among(d, ws, port) {
        let i = choose|i: int|
            0 <= i < d.aliases.len() && like_a_port(#[trigger] d.aliases[i]) == port && ws.contains(
                d.aliases[i],
            );
        assert(crate::text::begins(d.aliases[i], "ata"@) == port);
    }
}

proof fn lemma_none_spoken_of(devices: Seq<DeviceView>, ws: Seq<Seq<char>>, port: bool)
    requires
        forall|j: int| 0 <= j < devices.len() ==> !has_name_among(#[trigger] devices[j], ws, port),
    ensures
        all_spoken_of(devices, ws, port).len() == 0,
    decreases devices.len(),
{
    if devices.len() > 0 {
        let rest = devices.drop_last();
        assert(!has_name_among(devices[devices.len() - 1], ws, port));
        lemma_has_name_among(devices.last(), ws, port);
        assert forall|j: int| 0 <= j < rest.len() implies !has_name_among(
            #[trigger] rest[j],
            ws,
            port,
        ) by {
            assert(rest[j] == devices[j]);
        }
        lemma_none_spoken_of(rest, ws, port);
    }
}

proof fn lemma_one_spoken_of(devices: Seq<DeviceView>, ws: Seq<Seq<char>>, port: bool, i: int)
    requires
        0 <= i < devices.len(),
        has_name_among(devices[i], ws, port),
        forall|j: int|
            0 <= j < devices.len() && j != i ==> !has_name_among(#[trigger] devices[j], ws, port),
    ensures
        all_spoken_of(devices, ws, port) == seq![devices[i]],
    decreases devices.len(),
{
    let rest = devices.drop_last();
    lemma_has_name_among(devices.last(), ws, port);
    if i == devices.len() - 1 {
        assert forall|j: int| 0 <= j < rest.len() implies !has_name_among(
            #[trigger] rest[j],
            ws,
            port,
        ) by {
            assert(rest[j] == devices[j]);
        }
        lemma_none_spoken_of(rest, ws, port);
    } else {
        assert(!has_name_among(devices[devices.len() - 1], ws, port));
        assert forall|j: int| 0 <= j < rest.len() && j != i implies !has_name_among(
            #[trigger] rest[j],
            ws,
            port,
        ) by {
            assert(rest[j] == devices[j]);
        }
        assert(rest[i] == devices[i]);
        lemma_one_spoken_of(rest, ws, port, i);
    }
    assert(all_spoken_of(devices, ws, port) =~= seq![devices[i]]);
}

proof fn lemma_two_spoken_of(
    devices: Seq<DeviceView>,
    ws: Seq<Seq<char>>,
    port: bool,
    i: int,
    j: int,
)
    requires
        0 <= i < j < devices.len(),
        has_name_among(devices[i], ws, port),
        has_name_among(devices[j], ws, port),
    ensures
        all_spoken_of(devices, ws, port).len() >= 2,
    decreases devices.len(),
{
    let rest = devices.drop_last();
    lemma_has_name_among(devices.last(), ws, port);
    assert(rest[i] == devices[i]);
    if j == devices.len() - 1 {
        lemma_some_spoken_of(rest, ws, port, i);
    } else {
        assert(rest[j] == devices[j]);
        lemma_two_spoken_of(rest, ws, port, i, j);
    }
}

proof fn lemma_some_spoken_of(devices: Seq<DeviceView>, ws: Seq<Seq<char>>, port: bool, i: int)
    requires
        0 <= i < devices.len(),
        has_name_among(devices[i], ws, port),
    ensures
        all_spoken_of(devices, ws, port).len() >= 1,
    decreases devices.len(),
{
    let rest = devices.drop_last();
    lemma_has_name_among(devices.last(), ws, port);
    if i < devices.len() - 1 {
        assert(rest[i] == devices[i]);
        lemma_some_spoken_of(rest, ws, port, i);
    }
}

/// A message is about the one device that has a name of a disk among its words. Where
/// two have one, it is about none, whatever ports it speaks of.
pub proof fn law_message_is_about_its_disk(
    message: Seq<char>,
    devices: Seq<DeviceView>,
    i: int,
    j: int,
)
    requires
        0 <= i < devices.len(),
        has_name_among(devices[i], words(message), false),
    ensures
        (forall|k: int|
            0 <= k < devices.len() && k != i ==> !has_name_among(
                #[trigger] devices[k],
                words(message),
                false,
            )) ==> correlated(message, devices) == Some(devices[i]),
        i < j < devices.len() && has_name_among(devices[j], words(message), false) ==> correlated(
            message,
            devices,
        ) is None,
{
    let ws = words(message);
    if forall|k: int|
        0 <= k < devices.len() && k != i ==> !has_name_among(#[trigger] devices[k], ws, false) {
        lemma_one_spoken_of(devices, ws, false, i);
    }
    if i < j < devices.len() && has_name_among(devices[j], ws, false) {
        lemma_two_spoken_of(devices, ws, false, i, j);
    }
}

/// A message without the name of a known disk is about the one device at a port that it
/// speaks of; about none where it names a disk that is not known, or where two devices
/// are at such ports.
pub proof fn law_message_is_about_its_port(
    message: Seq<char>,
    devices: Seq<DeviceView>,
    i: int,
    j: int,
)
    requires
        0 <= i < devices.len(),
        has_name_among(devices[i], words(message), true),
        forall|k: int|
            0 <= k < devices.len() ==> !has_name_among(#[trigger] devices[k], words(message), false),
    ensures
        has_disk_word(words(message)) ==> correlated(message, devices) is None,
        !has_disk_word(words(message)) && (forall|k: int|
            0 <= k < devices.len() && k != i ==> !has_name_among(
                #[trigger] devices[k],
                words(message),
                true,
            )) ==> correlated(message, devices) == Some(devices[i]),
        i < j < devices.len() && has_name_among(devices[j], words(message), true) ==> correlated(
            message,
            devices,
        ) is None,
{
    let ws = words(message);
    lemma_none_spoken_of(devices, ws, false);
    lemma_has_disk_word(ws);
    if forall|k: int|
        0 <= k < devices.len() && k != i ==> !has_name_among(#[trigger] devices[k], ws, true) {
        lemma_one_spoken_of(devices, ws, true, i);
    }
    if i < j < devices.len() && has_name_among(devices[j], ws, true) {
        lemma_two_spoken_of(devices, ws, true, i, j);
    }
}

/// The sequence number of a device is asked for exactly where the message names no disk
/// outright: that of the device that the message is about.
pub proof fn law_whose_sequence_number_counts(record: RecordView, devices: Seq<DeviceView>)
    ensures
        explicit_names(record.message).len() > 0 ==> undecided(record, devices) is None,
        explicit_names(record.message).len() == 0 ==> undecided(record, devices) == correlated(
            record.message,
            devices,
        ),
{
}

/// The record is of this boot, is newer than the discovery of the device, and the device
/// is the one that was discovered.
pub open spec fn fresh_for(
    record: RecordView,
    d: DeviceView,
    boot: Option<Seq<char>>,
    current: Option<u64>,
) -> bool {
    &&& record.boot_id is Some
    &&& boot == record.boot_id
    &&& record.timestamp is Some
    &&& d.discovered_at < record.timestamp->0
    &&& current is Some
    &&& d.diskseq == current
}

/// A message that names no disk outright is ascribed to the one device that has a name
/// among its words, if the record is fresh; and to none if it is not.
pub proof fn law_named_device_is_found(
    record: RecordView,
    devices: Seq<DeviceView>,
    boot: Option<Seq<char>>,
    current: Option<u64>,
    i: int,
)
    requires
        explicit_names(record.message).len() == 0,
        0 <= i < devices.len(),
        has_name_among(devices[i], words(record.message), false),
        forall|j: int|
            0 <= j < devices.len() && j != i ==> !has_name_among(
                #[trigger] devices[j],
                words(record.message),
                false,
            ),
    ensures
        ascribed(record, devices, boot, current) == (if fresh_for(
            record,
            devices[i],
            boot,
            current,
        ) {
            Some(devices[i])
        } else {
            None
        }),
{
    lemma_one_spoken_of(devices, words(record.message), false, i);
}

/// One of the words looks like the name of a disk.
pub open spec fn has_disk_word(ws: Seq<Seq<char>>) -> bool {
    exists|i: int|
        0 <= i < ws.len() && (is_sd_disk(#[trigger] ws[i]) || (ws[i].len() >= 4 && ws[i].take(4)
            == "nvme"@))
}

proof fn lemma_has_disk_word(ws: Seq<Seq<char>>)
    ensures
        crate::kernel::names_disk(ws) == has_disk_word(ws),
{
    reveal_strlit("nvme");
    assert forall|i: int| 0 <= i < ws.len() implies crate::kernel::sd_name(#[trigger] ws[i])
        == is_sd_disk(ws[i]) by {
        lemma_is_sd_disk(ws[i]);
    }
    if crate::kernel::names_disk(ws) {
        let i = choose|i: int|
            0 <= i < ws.len() && (crate::text::begins(#[trigger] ws[i], "nvme"@)
                || crate::kernel::sd_name(ws[i]));
        assert(is_sd_disk(ws[i]) || ws[i].take(4) == "nvme"@);
    }
    if has_disk_word(ws) {
        let i = choose|i: int|
            0 <= i < ws.len() && (is_sd_disk(#[trigger] ws[i]) || (ws[i].len() >= 4 && ws[i].take(4)
                == "nvme"@));
        assert(crate::text::begins(ws[i], "nvme"@) || crate::kernel::sd_name(ws[i]));
    }
}

/// A message that speaks of a port and of no disk is ascribed to the one device at that
/// port, if the record is fresh. One that speaks of a disk that is not known is ascribed
/// to none.
pub proof fn law_device_at_the_port_is_found(
    record: RecordView,
    devices: Seq<DeviceView>,
    boot: Option<Seq<char>>,
    current: Option<u64>,
    i: int,
)
    requires
        explicit_names(record.message).len() == 0,
        0 <= i < devices.len(),
        forall|j: int|
            0 <= j < devices.len() ==> !has_name_among(
                #[trigger] devices[j],
                words(record.message),
                false,
            ),
        has_name_among(devices[i], words(record.message), true),
        forall|j: int|
            0 <= j < devices.len() && j != i ==> !has_name_among(
                #[trigger] devices[j],
                words(record.message),
                true,
            ),
    ensures
        ascribed(record, devices, boot, current) == (if !has_disk_word(words(record.message))
            && fresh_for(record, devices[i], boot, current) {
            Some(devices[i])
        } else {
            None
        }),
{
    let ws = words(record.message);
    lemma_none_spoken_of(devices, ws, false);
    lemma_one_spoken_of(devices, ws, true, i);
    lemma_has_disk_word(ws);
}

/// The name is one of the device: the last part of its path, or an alias.
pub open spec fn is_name_of(d: DeviceView, name: Seq<char>) -> bool {
    d.path == "/dev/"@ + name || d.aliases.contains(name)
}

proof fn lemma_is_name_of(d: DeviceView, name: Seq<char>)
    ensures
        crate::kernel::goes_by(d, name) == is_name_of(d, name),
{
    let p = "/dev/"@;
    if crate::text::begins(d.path, p) {
        assert(d.path =~= p + d.path.skip(p.len() as int));
    }
    if d.path == p + name {
        assert(d.path.take(p.len() as int) =~= p);
        assert(d.path.skip(p.len() as int) =~= name);
    }
}

/// Each of the names is one of the device.
pub open spec fn has_all_names(d: DeviceView, names: Seq<Seq<char>>) -> bool {
    forall|i: int| 0 <= i < names.len() ==> is_name_of(d, #[trigger] names[i])
}

proof fn lemma_has_all_names(d: DeviceView, names: Seq<Seq<char>>)
    ensures
        goes_by_all(d, names) == has_all_names(d, names),
{
    assert forall|i: int| 0 <= i < names.len() implies crate::kernel::goes_by(
        d,
        #[trigger] names[i],
    ) == is_name_of(d, names[i]) by {
        lemma_is_name_of(d, names[i]);
    }
}

proof fn lemma_none_named(devices: Seq<DeviceView>, names: Seq<Seq<char>>)
    requires
        forall|j: int| 0 <= j < devices.len() ==> !has_all_names(#[trigger] devices[j], names),
    ensures
        all_named(devices, names).len() == 0,
    decreases devices.len(),
{
    if devices.len() > 0 {
        let rest = devices.drop_last();
        assert(!has_all_names(devices[devices.len() - 1], names));
        lemma_has_all_names(devices.last(), names);
        assert forall|j: int| 0 <= j < rest.len() implies !has_all_names(
            #[trigger] rest[j],
            names,
        ) by {
            assert(rest[j] == devices[j]);
        }
        lemma_none_named(rest, names);
    }
}

proof fn lemma_only_named(devices: Seq<DeviceView>, names: Seq<Seq<char>>, i: int)
    requires
        0 <= i < devices.len(),
        has_all_names(devices[i], names),
        forall|j: int|
            0 <= j < devices.len() && j != i ==> !has_all_names(#[trigger] devices[j], names),
    ensures
        all_named(devices, names) == seq![devices[i]],
    decreases devices.len(),
{
    let rest = devices.drop_last();
    lemma_has_all_names(devices.last(), names);
    if i == devices.len() - 1 {
        assert forall|j: int| 0 <= j < rest.len() implies !has_all_names(
            #[trigger] rest[j],
            names,
        ) by {
            assert(rest[j] == devices[j]);
        }
        lemma_none_named(rest, names);
    } else {
        assert(!has_all_names(devices[devices.len() - 1], names));
        assert forall|j: int| 0 <= j < rest.len() && j != i implies !has_all_names(
            #[trigger] rest[j],
            names,
        ) by {
            assert(rest[j] == devices[j]);
        }
        assert(rest[i] == devices[i]);
        lemma_only_named(rest, names, i);
    }
    assert(all_named(devices, names) =~= seq![devices[i]]);
}

/// A message that names disks outright is ascribed to the one device that has all the
/// names, however old the record is and whatever the boot.
pub proof fn law_outright_name_is_found(
    record: RecordView,
    devices: Seq<DeviceView>,
    boot: Option<Seq<char>>,
    current: Option<u64>,
    i: int,
)
    requires
        explicit_names(record.message).len() > 0,
        0 <= i < devices.len(),
        has_all_names(devices[i], explicit_names(record.message)),
        forall|j: int|
            0 <= j < devices.len() && j != i ==> !has_all_names(
                #[trigger] devices[j],
                explicit_names(record.message),
            ),
    ensures
        ascribed(record, devices, boot, current) == Some(devices[i]),
{
    lemma_only_named(devices, explicit_names(record.message), i);
}

proof fn lemma_some_named(devices: Seq<DeviceView>, names: Seq<Seq<char>>, i: int)
    requires
        0 <= i < devices.len(),
        has_all_names(devices[i], names),
    ensures
        all_named(devices, names).len() >= 1,
    decreases devices.len(),
{
    let rest = devices.drop_last();
    lemma_has_all_names(devices.last(), names);
    if i < devices.len() - 1 {
        assert(rest[i] == devices[i]);
        lemma_some_named(rest, names, i);
    }
}

proof fn lemma_two_named(devices: Seq<DeviceView>, names: Seq<Seq<char>>, i: int, j: int)
    requires
        0 <= i < j < devices.len(),
        has_all_names(devices[i], names),
        has_all_names(devices[j], names),
    ensures
        all_named(devices, names).len() >= 2,
    decreases devices.len(),
{
    let rest = devices.drop_last();
    lemma_has_all_names(devices.last(), names);
    assert(rest[i] == devices[i]);
    if j == devices.len() - 1 {
        lemma_some_named(rest, names, i);
    } else {
        assert(rest[j] == devices[j]);
        lemma_two_named(rest, names, i, j);
    }
}

/// A message that names disks outright is ascribed to none where no device, or more than
/// one, has all the names: neither words nor ports are then looked at.
pub proof fn law_outright_names_of_none_or_many(
    record: RecordView,
    devices: Seq<DeviceView>,
    boot: Option<Seq<char>>,
    current: Option<u64>,
    i: int,
    j: int,
)
    requires
        explicit_names(record.message).len() > 0,
    ensures
        (forall|k: int|
            0 <= k < devices.len() ==> !has_all_names(
                #[trigger] devices[k],
                explicit_names(record.message),
            )) ==> ascribed(record, devices, boot, current) is None,
        0 <= i < j < devices.len() && has_all_names(devices[i], explicit_names(record.message))
            && has_all_names(devices[j], explicit_names(record.message)) ==> ascribed(
            record,
            devices,
            boot,
            current,
        ) is None,
{
    let names = explicit_names(record.message);
    if forall|k: int| 0 <= k < devices.len() ==> !has_all_names(#[trigger] devices[k], names) {
        lemma_none_named(devices, names);
    }
    if 0 <= i < j < devices.len() && has_all_names(devices[i], names) && has_all_names(
        devices[j],
        names,
    ) {
        lemma_two_named(devices, names, i, j);
    }
}

/// A message of which no device has a name is ascribed to none.
pub proof fn law_unknown_names_are_ascribed_to_none(
    record: RecordView,
    devices: Seq<DeviceView>,
    boot: Option<Seq<char>>,
    current: Option<u64>,
)
    requires
        explicit_names(record.message).len() == 0,
        forall|j: int|
            0 <= j < devices.len() ==> !has_name_among(
                #[trigger] devices[j],
                words(record.message),
                false,
            ) && !has_name_among(devices[j], words(record.message), true),
    ensures
        ascribed(record, devices, boot, current) is None,
{
    lemma_none_spoken_of(devices, words(record.message), false);
    lemma_none_spoken_of(devices, words(record.message), true);
}

/// The word behind `dev`, where it starts with `sd`, is a name of a disk, and nothing
/// else is one of those names.
pub proof fn law_names_behind_dev(ws: Seq<Seq<char>>, name: Seq<char>)
    ensures
        dev_names(ws).contains(name) <==> exists|i: int|
            0 <= i < ws.len() - 1 && #[trigger] ws[i] == "dev"@ && ws[i + 1] == name && name.len()
                >= 2 && name[0] == 's' && name[1] == 'd',
    decreases ws.len(),
{
    reveal_strlit("sd");
    if ws.len() >= 2 {
        let rest = ws.drop_last();
        law_names_behind_dev(rest, name);
        let all = dev_names(ws);
        let some = dev_names(rest);
        let last = ws.last();
        assert(crate::text::begins(last, "sd"@) <==> last.len() >= 2 && last[0] == 's' && last[1]
            == 'd') by {
            if last.len() >= 2 {
                assert(last.take(2)[0] == last[0] && last.take(2)[1] == last[1]);
                if last[0] == 's' && last[1] == 'd' {
                    assert(last.take(2) =~= "sd"@);
                }
            }
        }
        if all.contains(name) {
            let k = choose|k: int| 0 <= k < all.len() && all[k] == name;
            if k < some.len() {
                assert(some[k] == name);
                let i = choose|i: int|
                    0 <= i < rest.len() - 1 && #[trigger] rest[i] == "dev"@ && rest[i + 1] == name
                        && name.len() >= 2 && name[0] == 's' && name[1] == 'd';
                assert(ws[i] == "dev"@ && ws[i + 1] == name);
            } else {
                assert(ws[ws.len() - 2] == "dev"@);
            }
        }
        if exists|i: int|
            0 <= i < ws.len() - 1 && #[trigger] ws[i] == "dev"@ && ws[i + 1] == name && name.len()
                >= 2 && name[0] == 's' && name[1] == 'd' {
            let i = choose|i: int|
                0 <= i < ws.len() - 1 && #[trigger] ws[i] == "dev"@ && ws[i + 1] == name
                    && name.len() >= 2 && name[0] == 's' && name[1] == 'd';
            if i < rest.len() - 1 {
                assert(rest[i] == "dev"@ && rest[i + 1] == name);
                let k = choose|k: int| 0 <= k < some.len() && some[k] == name;
                assert(all[k] == name);
            } else {
                assert(all[all.len() - 1] == name);
            }
        }
    }
}

/// A name as it may stand in brackets: of letters and digits, with `sd` or `nvme` in
/// front.
pub open spec fn fits_brackets(name: Seq<char>) -> bool {
    &&& (name.len() >= 2 && name.take(2) == "sd"@) || (name.len() >= 4 && name.take(4) == "nvme"@)
    &&& forall|i: int|
        0 <= i < name.len() ==> 'a' <= (#[trigger] name[i]) <= 'z' || 'A' <= name[i] <= 'Z' || '0'
            <= name[i] <= '9'
}

proof fn lemma_before_bracket(name: Seq<char>, b: Seq<char>)
    requires
        forall|i: int| 0 <= i < name.len() ==> #[trigger] name[i] != '[' && name[i] != ']',
    ensures
        crate::kernel::before_bracket(name + seq![']'] + b) == name.len(),
    decreases name.len(),
{
    let t = name + seq![']'] + b;
    if name.len() > 0 {
        assert(t[0] == name[0]);
        assert(t.skip(1) =~= name.skip(1) + seq![']'] + b);
        assert forall|i: int| 0 <= i < name.skip(1).len() implies #[trigger] name.skip(1)[i] != '['
            && name.skip(1)[i] != ']' by {
            assert(name.skip(1)[i] == name[i + 1]);
        }
        lemma_before_bracket(name.skip(1), b);
    } else {
        assert(t[0] == ']');
    }
}

/// The name of a disk that stands in brackets is one of those that the message gives
/// outright in brackets.
pub proof fn law_name_in_brackets_is_found(a: Seq<char>, name: Seq<char>, b: Seq<char>)
    requires
        fits_brackets(name),
    ensures
        bracket_names(a + seq!['['] + name + seq![']'] + b).contains(name),
    decreases a.len(),
{
    let t = a + seq!['['] + name + seq![']'] + b;
    if a.len() > 0 {
        law_name_in_brackets_is_found(a.skip(1), name, b);
        assert(t.skip(1) =~= a.skip(1) + seq!['['] + name + seq![']'] + b);
        let some = bracket_names(t.skip(1));
        let k = choose|k: int| 0 <= k < some.len() && some[k] == name;
        if bracket_names(t).len() == some.len() {
            assert(bracket_names(t)[k] == name);
        } else {
            assert(bracket_names(t)[k + 1] == name);
        }
    } else {
        reveal_strlit("sd");
        reveal_strlit("nvme");
        assert(t[0] == '[');
        assert(t.skip(1) =~= name + seq![']'] + b);
        assert forall|i: int| 0 <= i < name.len() implies #[trigger] name[i] != '[' && name[i]
            != ']' by {}
        lemma_before_bracket(name, b);
        assert(t.skip(1).take(name.len() as int) =~= name);
        assert(t.skip(1)[name.len() as int] == ']');
        assert(crate::kernel::bracket_name(name));
        assert(bracket_names(t)[0] == name);
    }
}

proof fn lemma_closed(s: Seq<char>)
    ensures
        crate::kernel::before_bracket(s) <= s.len(),
    decreases s.len(),
{
    if s.len() > 0 && s[0] != '[' && s[0] != ']' {
        lemma_closed(s.skip(1));
    }
}

/// A name that counts as given in brackets does stand in brackets, and is that of a disk.
pub proof fn law_name_in_brackets_stands_there(s: Seq<char>, name: Seq<char>)
    requires
        bracket_names(s).contains(name),
    ensures
        fits_brackets(name),
        contains_text(s, seq!['['] + name + seq![']']),
    decreases s.len(),
{
    let all = bracket_names(s);
    let k = choose|k: int| 0 <= k < all.len() && all[k] == name;
    let rest = s.skip(1);
    let more = bracket_names(rest);
    let p = seq!['['] + name + seq![']'];
    if all.len() == more.len() + 1 && k == 0 {
        let n = crate::kernel::before_bracket(rest) as int;
        lemma_closed(rest);
        reveal_strlit("sd");
        reveal_strlit("nvme");
        assert(name == rest.take(n));
        assert(crate::kernel::bracket_name(name));
        assert(fits_brackets(name)) by {
            assert("sd"@.len() == 2 && "nvme"@.len() == 4);
            assert forall|i: int| 0 <= i < name.len() implies 'a' <= (#[trigger] name[i]) <= 'z'
                || 'A' <= name[i] <= 'Z' || '0' <= name[i] <= '9' by {
                assert(crate::text::alphanumeric(name[i]));
            }
        }
        let after = rest.skip(n + 1);
        assert(s =~= Seq::<char>::empty() + p + after);
        law_phrase_is_found(Seq::empty(), p, after);
    } else {
        assert(more.contains(name)) by {
            if all.len() == more.len() + 1 {
                assert(more[k - 1] == name);
            } else {
                assert(more[k] == name);
            }
        }
        law_name_in_brackets_stands_there(rest, name);
        law_found_phrase_stands(rest, p);
        let (x, y) = choose|x: Seq<char>, y: Seq<char>| rest == #[trigger] (x + p + y);
        assert(s =~= seq![s[0]] + rest);
        assert(seq![s[0]] + (x + p + y) =~= (seq![s[0]] + x) + p + y);
        law_phrase_is_found(seq![s[0]] + x, p, y);
    }
}

/// Names behind `dev` go before names in brackets.
pub proof fn law_dev_goes_before_brackets(message: Seq<char>)
    ensures
        dev_names(words(message)).len() > 0 ==> explicit_names(message) == dev_names(
            words(message),
        ),
        dev_names(words(message)).len() == 0 ==> explicit_names(message) == bracket_names(message),
{
}

// ---------------------------------------------------------------------------
// Reading the journal
// ---------------------------------------------------------------------------

/// The journal is asked for kernel messages as JSON: all that come after the cursor, or
/// the last 200.
pub proof fn law_journal_call(cursor: Option<Seq<char>>, follow: bool)
    ensures
        ({
            let args = journal_call(cursor, follow);
            let base = if follow {
                5int
            } else {
                4
            };
            &&& args[0] == "-k"@
            &&& args[1] == "-o"@ && args[2] == "json"@
            &&& args[3] == "--no-pager"@
            &&& args.contains("-f"@) || !follow
            &&& cursor matches Some(c) ==> args.len() == base + 4 && args[base] == "--after-cursor"@
                && args[base + 1] == c && args[base + 2] == "-n"@ && args[base + 3] == "all"@
            &&& cursor is None ==> args.len() == base + 2 && args[base] == "-n"@ && args[base + 1]
                == "200"@
        }),
{
    let args = journal_call(cursor, follow);
    if follow {
        assert(args[4] == "-f"@);
    }
}

} // verus!
