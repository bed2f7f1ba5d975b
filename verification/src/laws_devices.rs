//! What holds of devices and settings: who a device is, which rows of an inventory are
//! disks, and which settings are accepted.

use crate::config::{fault, watched, ConfigError, ConfigView};
use crate::devices::{
    ata_port, clean_wwn, controller_of, inventory, known_wwn, listed_devices, DeviceView, Kind,
};
use crate::json::JsonView;
use crate::laws_smart::{integer_in, words_at};
use crate::strmap::{ascending_members, lemma_listable, listable, lists, ordered};
use crate::text::{before, decimal, trimmed, white};
use vstd::prelude::*;
use vstd::utf8::encode_utf8;

verus! {

// ---------------------------------------------------------------------------
// The WWN
// ---------------------------------------------------------------------------

/// One of the characters is more than a zero or a separator.
pub open spec fn has_a_digit(s: Seq<char>) -> bool {
    exists|i: int|
        0 <= i < s.len() && (#[trigger] s[i]) != '0' && s[i] != ':' && s[i] != '-' && !white(s[i])
}

/// A WWN is known exactly if it has a digit that is not zero, beside a leading `0x`;
/// and it is then the text without the space around it.
pub proof fn law_when_a_wwn_is_known(value: Seq<char>, d: Seq<char>)
    ensures
        known_wwn(value) is Some ==> known_wwn(value) == Some(trimmed(value)),
        clean_wwn(value) == (if known_wwn(value) is Some {
            trimmed(value)
        } else {
            Seq::empty()
        }),
        trimmed(value) == "0x"@ + d || trimmed(value) == "0X"@ + d ==> (known_wwn(value) is Some
            <==> has_a_digit(d)),
        (forall|t: Seq<char>| #[trigger] ("0x"@ + t) != trimmed(value)) && (forall|t: Seq<char>|
            #[trigger] ("0X"@ + t) != trimmed(value)) ==> (known_wwn(value) is Some <==> has_a_digit(
            trimmed(value),
        )),
{
    reveal_strlit("0x");
    reveal_strlit("0X");
    let v = trimmed(value);
    let a = "0x"@;
    let b = "0X"@;
    assert(a[1] == 'x' && b[1] == 'X');
    if v == a + d {
        assert(v.take(2) =~= a);
        assert(v.skip(2) =~= d);
    }
    if v == b + d {
        assert(v[1] == 'X');
        assert(v.take(2)[1] == 'X');
        assert(v.take(2) =~= b);
        assert(v.skip(2) =~= d);
    }
    if v.len() >= 2 && v.take(2) == a {
        assert(v =~= a + v.skip(2));
    }
    if v.len() >= 2 && v.take(2) == b {
        assert(v =~= b + v.skip(2));
    }
    let digits = crate::devices::wwn_digits(v);
    if has_a_digit(digits) {
        let i = choose|i: int|
            0 <= i < digits.len() && (#[trigger] digits[i]) != '0' && digits[i] != ':' && digits[i]
                != '-' && !white(digits[i]);
        assert(!crate::devices::blank(digits[i]));
    }
    if crate::devices::nonzero(digits) {
        let i = choose|i: int|
            0 <= i < digits.len() && !crate::devices::blank(#[trigger] digits[i]);
        assert(digits[i] != '0');
    }
}

// ---------------------------------------------------------------------------
// Identity
// ---------------------------------------------------------------------------

/// A disk is remembered by its WWN, else by its model and serial number, else by its
/// path.
pub proof fn law_key_of_a_disk(d: DeviceView)
    ensures
        known_wwn(d.wwn) matches Some(w) ==> d.key() == "wwn:"@ + w,
        known_wwn(d.wwn) is None && d.serial.len() > 0 ==> d.key() == "serial:"@ + decimal(
            encode_utf8(d.model).len(),
        ) + ":"@ + d.model + ":"@ + d.serial,
        known_wwn(d.wwn) is None && d.serial.len() == 0 ==> d.key() == "path:"@ + d.path,
{
    reveal_strlit(":");
    assert(":"@ =~= seq![':']);
}

/// Two devices are the same disk exactly if their serial numbers do not contradict each
/// other and either both WWNs are known and the same, or one of them is not known and
/// both have the same model and serial number.
pub proof fn law_when_disks_are_the_same(a: DeviceView, b: DeviceView)
    ensures
        a.same_disk(b) <==> (a.serial.len() == 0 || b.serial.len() == 0 || a.serial == b.serial)
            && ((known_wwn(a.wwn) is Some && known_wwn(a.wwn) == known_wwn(b.wwn)) || ((known_wwn(
            a.wwn,
        ) is None || known_wwn(b.wwn) is None) && a.model.len() > 0 && a.serial.len() > 0 && a.model
            == b.model && a.serial == b.serial)),
{
}

/// A serial number agrees with itself; and where the disk is not behind the bridge of a
/// certain maker, with no other.
pub proof fn law_serial_numbers_agree(d: DeviceView, serial: Seq<char>)
    ensures
        d.serial == serial ==> d.serial_agrees(serial),
        !d.wd_usb ==> (d.serial_agrees(serial) <==> d.serial == serial),
{
}

/// The digits at `2 * i` and after it spell the character at `i`.
pub open spec fn spells(digits: Seq<char>, t: Seq<char>, i: int) -> bool {
    let hi = digits[2 * i];
    let lo = digits[2 * i + 1];
    &&& '0' <= hi <= '9' || 'a' <= hi <= 'f' || 'A' <= hi <= 'F'
    &&& '0' <= lo <= '9' || 'a' <= lo <= 'f' || 'A' <= lo <= 'F'
    &&& 16 * crate::devices::hex_digit_value(hi) + crate::devices::hex_digit_value(lo) == t[i] as int
}

/// A bridge that gives the serial number in hexadecimal gives that of the disk: it
/// agrees with what the digits spell, with or without the maker's prefix.
pub proof fn law_bridge_spells_the_serial(d: DeviceView, t: Seq<char>)
    requires
        d.wd_usb,
        t.len() > 0,
        d.serial.len() == 2 * t.len(),
        forall|i: int| 0 <= i < t.len() ==> #[trigger] spells(d.serial, t, i),
        forall|i: int| 0 <= i < t.len() ==> '!' <= (#[trigger] t[i]) <= '~',
        forall|r: Seq<char>| t != #[trigger] ("WD-"@ + r),
    ensures
        d.serial_agrees(t),
        d.serial_agrees("WD-"@ + t),
{
    let s = d.serial;
    assert forall|i: int| 0 <= i < s.len() implies crate::devices::hex_digit(#[trigger] s[i]) by {
        let k = i / 2;
        assert(spells(s, t, k));
        assert(i == 2 * k || i == 2 * k + 1);
    }
    assert forall|i: int| 0 <= i < s.len() / 2 implies '!' as int
        <= #[trigger] crate::devices::hex_pair(s, i) <= '~' as int by {
        assert(spells(s, t, i));
        assert('!' <= t[i] <= '~');
    }
    assert(crate::devices::hex_decoded(s) =~= t) by {
        assert forall|i: int| 0 <= i < t.len() implies crate::devices::hex_decoded(s)[i]
            == #[trigger] t[i] by {
            assert(spells(s, t, i));
            assert(crate::devices::hex_pair(s, i) == t[i] as int);
        }
    }
    let p = "WD-"@;
    if t.len() >= p.len() && t.take(p.len() as int) == p {
        assert(t =~= p + t.skip(p.len() as int));
    }
    assert(crate::devices::bare_serial(t) == t);
    assert((p + t).take(p.len() as int) =~= p);
    assert((p + t).skip(p.len() as int) =~= t);
}

/// The serial number without the maker's prefix, where it has one.
pub open spec fn bared(s: Seq<char>, t: Seq<char>) -> bool {
    s == "WD-"@ + t || (s == t && !starts(s, "WD-"@))
}

proof fn lemma_bared(s: Seq<char>, t: Seq<char>)
    ensures
        bared(s, t) <==> crate::devices::bare_serial(s) == t,
{
    let p = "WD-"@;
    lemma_starts(s, p);
    if s == p + t {
        assert(s.take(p.len() as int) =~= p);
        assert(s.skip(p.len() as int) =~= t);
    }
    if crate::text::begins(s, p) {
        assert(s =~= p + s.skip(p.len() as int));
    }
}

/// A bridge that gives the serial number as it is gives that of the disk, with or
/// without the maker's prefix on either side. One that gives pairs of hexadecimal digits
/// that spell no printable text gives a number that agrees with itself only.
pub proof fn law_bridge_gives_the_serial(
    d: DeviceView,
    serial: Seq<char>,
    a: Seq<char>,
    b: Seq<char>,
    i: int,
)
    requires
        d.wd_usb,
        bared(d.serial, a),
        bared(serial, b),
    ensures
        (d.serial.len() % 2 == 1 || exists|j: int|
            0 <= j < d.serial.len() && !crate::devices::hex_digit(#[trigger] d.serial[j])) ==> (
        d.serial_agrees(serial) <==> d.serial == serial || (a == b && a.len() > 0)),
        (d.serial.len() > 0 && d.serial.len() % 2 == 0 && (forall|j: int|
            0 <= j < d.serial.len() ==> crate::devices::hex_digit(#[trigger] d.serial[j])) && 0
            <= i < d.serial.len() / 2 && !(33 <= 16 * crate::devices::hex_digit_value(
            d.serial[2 * i],
        ) + crate::devices::hex_digit_value(d.serial[2 * i + 1]) <= 126)) ==> (d.serial_agrees(
            serial,
        ) <==> d.serial == serial),
{
    lemma_bared(d.serial, a);
    lemma_bared(serial, b);
    let s = d.serial;
    if 0 <= i < s.len() / 2 && !(33 <= 16 * crate::devices::hex_digit_value(s[2 * i])
        + crate::devices::hex_digit_value(s[2 * i + 1]) <= 126) {
        assert(!('!' as int <= crate::devices::hex_pair(s, i) <= '~' as int));
    }
}

/// The value of a hexadecimal digit, in either case.
pub proof fn law_hexadecimal_digits(c: char)
    ensures
        crate::devices::hex_digit(c) <==> '0' <= c <= '9' || 'a' <= c <= 'f' || 'A' <= c <= 'F',
        '0' <= c <= '9' ==> crate::devices::hex_digit_value(c) == c as int - 48,
        'a' <= c <= 'f' ==> crate::devices::hex_digit_value(c) == c as int - 87,
        'A' <= c <= 'F' ==> crate::devices::hex_digit_value(c) == c as int - 55,
{
}

// ---------------------------------------------------------------------------
// Names
// ---------------------------------------------------------------------------

/// The text starts with `p`.
pub open spec fn starts(s: Seq<char>, p: Seq<char>) -> bool {
    exists|t: Seq<char>| s == #[trigger] (p + t)
}

proof fn lemma_starts(s: Seq<char>, p: Seq<char>)
    ensures
        crate::text::begins(s, p) == starts(s, p),
{
    if crate::text::begins(s, p) {
        assert(s =~= p + s.skip(p.len() as int));
    }
    if starts(s, p) {
        let t = choose|t: Seq<char>| s == #[trigger] (p + t);
        assert(s.take(p.len() as int) =~= p);
    }
}

/// The text is made of decimal digits.
pub open spec fn is_number(s: Seq<char>) -> bool {
    s.len() > 0 && forall|i: int| 0 <= i < s.len() ==> '0' <= (#[trigger] s[i]) <= '9'
}

proof fn lemma_leading_digits(number: Seq<char>, rest: Seq<char>)
    requires
        forall|i: int| 0 <= i < number.len() ==> '0' <= (#[trigger] number[i]) <= '9',
        rest.len() == 0 || !('0' <= rest[0] <= '9'),
    ensures
        crate::devices::leading_digits(number + rest) == number.len(),
    decreases number.len(),
{
    let s = number + rest;
    if number.len() > 0 {
        assert(s[0] == number[0]);
        assert(s.skip(1) =~= number.skip(1) + rest);
        assert forall|i: int| 0 <= i < number.skip(1).len() implies '0' <= (#[trigger] number.skip(
            1,
        )[i]) <= '9' by {
            assert(number.skip(1)[i] == number[i + 1]);
        }
        lemma_leading_digits(number.skip(1), rest);
    } else {
        assert(s =~= rest);
    }
}

/// The controller of an NVMe device is `nvme` and the number behind it, where the name
/// ends there or goes on with a namespace. Other names have none.
pub proof fn law_controller_of_a_name(number: Seq<char>, rest: Seq<char>, name: Seq<char>)
    requires
        forall|i: int| 0 <= i < number.len() ==> '0' <= (#[trigger] number[i]) <= '9',
        rest.len() == 0 || !('0' <= rest[0] <= '9'),
    ensures
        number.len() > 0 && (rest.len() == 0 || rest[0] == 'n') ==> controller_of(
            "nvme"@ + number + rest,
        ) == Some("nvme"@ + number),
        number.len() == 0 || (rest.len() > 0 && rest[0] != 'n') ==> controller_of(
            "nvme"@ + number + rest,
        ) is None,
        !starts(name, "nvme"@) ==> controller_of(name) is None,
{
    reveal_strlit("nvme");
    let p = "nvme"@;
    let s = p + number + rest;
    assert(s.take(4) =~= p);
    assert(s.skip(4) =~= number + rest);
    lemma_leading_digits(number, rest);
    assert(s.take(4 + number.len() as int) =~= p + number);
    if rest.len() > 0 {
        assert((number + rest)[number.len() as int] == rest[0]);
    }
    lemma_starts(name, p);
}

/// The name of an ATA port is `ata` with a number.
pub proof fn law_name_of_a_port(name: Seq<char>, number: Seq<char>)
    ensures
        name == "ata"@ + number ==> (ata_port(name) <==> is_number(number)),
        !starts(name, "ata"@) ==> !ata_port(name),
{
    let p = "ata"@;
    if name == p + number {
        assert(name.take(p.len() as int) =~= p);
        assert(name.skip(p.len() as int) =~= number);
    }
    lemma_starts(name, p);
}

/// The name is that of a whole disk: no port, and no NVMe name without a namespace.
pub open spec fn names_a_whole_disk(name: Seq<char>) -> bool {
    !starts(name, "ata"@) && (!starts(name, "nvme"@) || exists|i: int|
        4 <= i < name.len() && #[trigger] name[i] == 'n')
}

proof fn lemma_whole_disk(name: Seq<char>)
    ensures
        crate::devices::block_name(name) == names_a_whole_disk(name),
{
    lemma_starts(name, "ata"@);
    lemma_starts(name, "nvme"@);
    if crate::text::begins(name, "nvme"@) {
        reveal_strlit("nvme");
        let rest = name.skip(4);
        if rest.contains('n') {
            let i = choose|i: int| 0 <= i < rest.len() && rest[i] == 'n';
            assert(name[i + 4] == 'n');
        }
        if exists|i: int| 4 <= i < name.len() && #[trigger] name[i] == 'n' {
            let i = choose|i: int| 4 <= i < name.len() && #[trigger] name[i] == 'n';
            assert(rest[i - 4] == 'n');
        }
    }
}

proof fn lemma_first_block_name(names: Seq<Seq<char>>, i: int)
    requires
        0 <= i < names.len(),
        names_a_whole_disk(names[i]),
        forall|j: int| 0 <= j < i ==> !names_a_whole_disk(#[trigger] names[j]),
    ensures
        crate::devices::first_block_name(names) == Some(names[i]),
    decreases names.len(),
{
    lemma_whole_disk(names[0]);
    if i > 0 {
        assert(!names_a_whole_disk(names[0]));
        let rest = names.skip(1);
        assert forall|j: int| 0 <= j < i - 1 implies !names_a_whole_disk(#[trigger] rest[j]) by {
            assert(rest[j] == names[j + 1]);
        }
        assert(rest[i - 1] == names[i]);
        lemma_first_block_name(rest, i - 1);
    }
}

proof fn lemma_no_block_name(names: Seq<Seq<char>>)
    requires
        forall|j: int| 0 <= j < names.len() ==> !names_a_whole_disk(#[trigger] names[j]),
    ensures
        crate::devices::first_block_name(names) is None,
    decreases names.len(),
{
    if names.len() > 0 {
        lemma_whole_disk(names[0]);
        let rest = names.skip(1);
        assert forall|j: int| 0 <= j < rest.len() implies !names_a_whole_disk(#[trigger] rest[j]) by {
            assert(rest[j] == names[j + 1]);
        }
        lemma_no_block_name(rest);
    }
}

/// A device goes in sysfs by the first of its names that is that of a whole disk.
pub proof fn law_name_in_sysfs(d: DeviceView, i: int)
    ensures
        0 <= i < d.aliases.len() && names_a_whole_disk(d.aliases[i]) && (forall|j: int|
            0 <= j < i ==> !names_a_whole_disk(#[trigger] d.aliases[j])) ==> d.block_alias() == Some(
            d.aliases[i],
        ),
        (forall|j: int| 0 <= j < d.aliases.len() ==> !names_a_whole_disk(#[trigger] d.aliases[j]))
            ==> d.block_alias() is None,
{
    if 0 <= i < d.aliases.len() && names_a_whole_disk(d.aliases[i]) && (forall|j: int|
        0 <= j < i ==> !names_a_whole_disk(#[trigger] d.aliases[j])) {
        lemma_first_block_name(d.aliases, i);
    }
    if forall|j: int| 0 <= j < d.aliases.len() ==> !names_a_whole_disk(#[trigger] d.aliases[j]) {
        lemma_no_block_name(d.aliases);
    }
}

/// The members of a set are listed each once and in order, and nothing else is.
pub proof fn law_names_are_kept_once(names: Set<Seq<char>>, name: Seq<char>, i: int, j: int)
    requires
        listable(names.mk_map(|k: Seq<char>| ())),
    ensures
        ascending_members(names).contains(name) <==> names.contains(name),
        0 <= i < j < ascending_members(names).len() ==> before(
            ascending_members(names)[i],
            ascending_members(names)[j],
        ),
{
    let m = names.mk_map(|k: Seq<char>| ());
    let listing = ordered(m);
    let all = ascending_members(names);
    assert(lists(listing, m));
    if all.contains(name) {
        let k = choose|k: int| 0 <= k < all.len() && all[k] == name;
        assert(m.contains_key(listing[k].0));
    }
    if names.contains(name) {
        assert(m.contains_key(name));
        let k = choose|k: int| 0 <= k < listing.len() && listing[k].0 == name;
        assert(all[k] == name);
    }
    if 0 <= i < j < all.len() {
        assert(before(listing[i].0, listing[j].0));
    }
}

// ---------------------------------------------------------------------------
// Inventories
// ---------------------------------------------------------------------------

/// The row is that of a physical disk with the kernel's name `name`.
pub open spec fn is_disk_row(row: JsonView, name: Seq<char>) -> bool {
    &&& row.at("type"@) == JsonView::Text("disk"@)
    &&& words_at(row, "name"@) == "/dev/"@ + name
    &&& forall|i: int| 0 <= i < name.len() ==> #[trigger] name[i] != '/'
    &&& !starts(name, "loop"@) && !starts(name, "ram"@) && !starts(name, "zram"@) && !starts(
        name,
        "dm-"@,
    ) && !starts(name, "md"@)
}

proof fn lemma_disk_row(row: JsonView, name: Seq<char>)
    ensures
        is_disk_row(row, name) ==> crate::devices::physical(row) && crate::devices::row_name(row)
            == name,
        words_at(row, "name"@) == "/dev/"@ + name && crate::devices::physical(row) ==> is_disk_row(
            row,
            name,
        ),
        !starts(words_at(row, "name"@), "/dev/"@) ==> !crate::devices::physical(row),
{
    let p = "/dev/"@;
    let path = words_at(row, "name"@);
    assert(path == crate::devices::trimmed_field(row, "name"@));
    if path == p + name {
        assert(path.take(p.len() as int) =~= p);
        assert(path.skip(p.len() as int) =~= name);
        assert(crate::devices::row_name(row) == name);
    }
    lemma_starts(path, p);
    lemma_starts(name, "loop"@);
    lemma_starts(name, "ram"@);
    lemma_starts(name, "zram"@);
    lemma_starts(name, "dm-"@);
    lemma_starts(name, "md"@);
    if forall|i: int| 0 <= i < name.len() ==> #[trigger] name[i] != '/' {
        assert(!name.contains('/'));
    }
    if !name.contains('/') {
        assert forall|i: int| 0 <= i < name.len() implies #[trigger] name[i] != '/' by {}
    }
}

/// What a row of a physical disk adds to an inventory: the path of the controller of an
/// NVMe disk, and else its own. A path that is not there yet becomes a device as the row
/// describes it; one that is there gets the names of the row, and stays as it is.
pub proof fn law_one_more_disk(rows: Seq<JsonView>, row: JsonView, name: Seq<char>, now: u64)
    requires
        is_disk_row(row, name),
    ensures
        ({
            let before = inventory(rows, now);
            let after = inventory(rows.push(row), now);
            let nvme = controller_of(name) is Some;
            let path = if nvme {
                "/dev/"@ + controller_of(name)->0
            } else {
                "/dev/"@ + name
            };
            let names = if nvme {
                seq![name, controller_of(name)->0]
            } else {
                seq![name]
            };
            let maker = words_at(row, "vendor"@);
            &&& before.contains_key(path) ==> after == before.insert(
                path,
                DeviceView { aliases: before[path].aliases + names, ..before[path] },
            )
            &&& !before.contains_key(path) ==> after == before.insert(
                path,
                DeviceView {
                    path,
                    model: words_at(row, "model"@),
                    serial: words_at(row, "serial"@),
                    wwn: if nvme {
                        Seq::empty()
                    } else {
                        clean_wwn(words_at(row, "wwn"@))
                    },
                    kind: if nvme {
                        Kind::Nvme
                    } else if row.at("rota"@) == JsonView::Bool(true) || integer_in(row.at("rota"@))
                        == Some(1i64) {
                        Kind::Hdd
                    } else {
                        Kind::Ssd
                    },
                    aliases: names,
                    diskseq: None,
                    discovered_at: now,
                    wd_usb: words_at(row, "tran"@) == "usb"@ && (maker == "WD"@ || maker == "WDC"@
                        || maker == "Western Digital"@),
                },
            )
        }),
{
    lemma_disk_row(row, name);
    assert(rows.push(row).drop_last() =~= rows);
    assert(rows.push(row).last() == row);
    let names = crate::devices::row_aliases(row);
    assert(Seq::<Seq<char>>::empty() + names =~= names);
}

/// A row that is not that of a physical disk adds nothing.
pub proof fn law_other_rows_add_nothing(rows: Seq<JsonView>, row: JsonView, now: u64)
    requires
        forall|name: Seq<char>|
            words_at(row, "name"@) == #[trigger] ("/dev/"@ + name) ==> !is_disk_row(row, name),
    ensures
        inventory(rows.push(row), now) == inventory(rows, now),
        inventory(Seq::empty(), now) == Map::<Seq<char>, DeviceView>::empty(),
{
    assert(rows.push(row).drop_last() =~= rows);
    assert(rows.push(row).last() == row);
    if crate::devices::physical(row) {
        let path = words_at(row, "name"@);
        let p = "/dev/"@;
        lemma_disk_row(row, crate::devices::row_name(row));
        lemma_starts(path, p);
        let name = choose|t: Seq<char>| path == #[trigger] (p + t);
        lemma_disk_row(row, name);
        assert(is_disk_row(row, name));
    }
}

proof fn lemma_inventory_listable(rows: Seq<JsonView>, now: u64)
    ensures
        listable(inventory(rows, now)),
    decreases rows.len(),
{
    if rows.len() > 0 {
        let rest = rows.drop_last();
        lemma_inventory_listable(rest, now);
        let path = crate::devices::row_target(rows.last());
        lemma_listable(inventory(rest, now), path, inventory(rows, now)[path]);
        if crate::devices::physical(rows.last()) {
            assert(inventory(rows, now) =~= inventory(rest, now).insert(
                path,
                inventory(rows, now)[path],
            ));
        }
    } else {
        lemma_listable(
            Map::<Seq<char>, DeviceView>::empty(),
            Seq::empty(),
            vstd::pervasive::arbitrary(),
        );
    }
}

/// The devices of a document are those of its rows; and a document without a list of
/// rows is refused.
pub proof fn law_devices_of_a_document(root: JsonView, now: u64, path: Seq<char>)
    ensures
        listed_devices(root, now) is Some <==> root.at("blockdevices"@) is Array,
        root.at("blockdevices"@) matches JsonView::Array(rows) ==> (inventory(
            rows,
            now,
        ).contains_key(path) ==> listed_devices(root, now)->0.contains(inventory(rows, now)[path])),
{
    if root.at("blockdevices"@) is Array {
        let rows = root.at("blockdevices"@)->Array_0;
        let m = inventory(rows, now);
        if m.contains_key(path) {
            lemma_inventory_listable(rows, now);
            let listing = ordered(m);
            assert(lists(listing, m));
            let i = choose|i: int| 0 <= i < listing.len() && listing[i].0 == path;
            assert(m.contains_key(listing[i].0));
            assert((listed_devices(root, now)->0)[i] == m[path]);
        }
    }
}

// ---------------------------------------------------------------------------
// Settings
// ---------------------------------------------------------------------------

/// A limit that can be used with the hysteresis.
pub open spec fn fits(limit: i64, hysteresis: i64) -> bool {
    1 <= limit <= 200 && hysteresis < limit
}

/// Settings are accepted exactly if both intervals are positive, the hysteresis is from
/// zero to a hundred, each limit is from one to two hundred and above the hysteresis, and
/// Telegram is off. Of several faults the first of these is told.
pub proof fn law_which_settings_are_accepted(c: ConfigView)
    ensures
        ({
            let t = c.temperature;
            let intervals = c.check_interval_seconds != 0 && c.command_timeout_seconds != 0;
            let hysteresis = 0 <= t.hysteresis && t.hysteresis <= 100;
            let limits = fits(t.hdd_warning, t.hysteresis) && fits(t.ssd_warning, t.hysteresis)
                && fits(t.nvme_warning, t.hysteresis);
            &&& fault(c) is None <==> intervals && hysteresis && limits && !c.alerts.telegram
            &&& !intervals ==> fault(c) == Some(ConfigError::Intervals)
            &&& intervals && !hysteresis ==> fault(c) == Some(ConfigError::Hysteresis)
            &&& intervals && hysteresis && !limits ==> fault(c) == Some(ConfigError::Thresholds)
            &&& intervals && hysteresis && limits && c.alerts.telegram ==> fault(c) == Some(
                ConfigError::Telegram,
            )
        }),
{
}

/// A disk is left alone exactly if its serial number, which is not empty, is one of those
/// to leave alone.
pub proof fn law_which_disks_are_watched(c: ConfigView, serial: Seq<char>)
    ensures
        !watched(c, serial) <==> serial.len() > 0 && exists|i: int|
            0 <= i < c.ignore_serials.len() && #[trigger] c.ignore_serials[i] == serial,
{
    if c.ignore_serials.contains(serial) {
        let i = choose|i: int| 0 <= i < c.ignore_serials.len() && c.ignore_serials[i] == serial;
        assert(c.ignore_serials[i] == serial);
    }
}

} // verus!
