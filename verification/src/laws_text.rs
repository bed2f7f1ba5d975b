//! What holds of texts, numbers in texts, and JSON documents.

use crate::json::{named, text_of, JsonView};
use crate::smart::normal_wwn;
use crate::text::{
    begins, decimal, decimal_signed, ends, escaped_text, lines_of, lowered, markup_text, parsed_u64,
    trimmed, uppered, white, without_chars, without_prefix, without_suffix,
};
use vstd::prelude::*;

verus! {

// ---------------------------------------------------------------------------
// Pieces
// ---------------------------------------------------------------------------

proof fn lemma_trim_front(a: Seq<char>, s: Seq<char>)
    requires
        forall|i: int| 0 <= i < a.len() ==> white(#[trigger] a[i]),
        s.len() > 0 ==> !white(s[0]),
    ensures
        crate::text::trim_start(a + s) == s,
    decreases a.len(),
{
    if a.len() > 0 {
        assert(white(a[0]));
        assert((a + s).skip(1) =~= a.skip(1) + s);
        assert forall|i: int| 0 <= i < a.skip(1).len() implies white(#[trigger] a.skip(1)[i]) by {
            assert(a.skip(1)[i] == a[i + 1]);
        }
        lemma_trim_front(a.skip(1), s);
    } else {
        assert(a + s =~= s);
    }
}

proof fn lemma_trim_back(s: Seq<char>, b: Seq<char>)
    requires
        forall|i: int| 0 <= i < b.len() ==> white(#[trigger] b[i]),
        s.len() > 0 ==> !white(s.last()),
    ensures
        crate::text::trim_end(s + b) == s,
    decreases b.len(),
{
    if b.len() > 0 {
        assert(white(b[b.len() - 1]));
        assert((s + b).last() == b[b.len() - 1]);
        assert((s + b).drop_last() =~= s + b.drop_last());
        assert forall|i: int| 0 <= i < b.drop_last().len() implies white(
            #[trigger] b.drop_last()[i],
        ) by {
            assert(b.drop_last()[i] == b[i]);
        }
        lemma_trim_back(s, b.drop_last());
    } else {
        assert(s + b =~= s);
    }
}

/// To trim a text takes the white space at its two ends, and nothing else.
pub proof fn law_trimming(a: Seq<char>, s: Seq<char>, b: Seq<char>)
    requires
        forall|i: int| 0 <= i < a.len() ==> white(#[trigger] a[i]),
        forall|i: int| 0 <= i < b.len() ==> white(#[trigger] b[i]),
        s.len() > 0 ==> !white(s[0]) && !white(s.last()),
    ensures
        trimmed(a + s + b) == s,
{
    if s.len() > 0 {
        assert(a + s + b =~= a + (s + b));
        lemma_trim_front(a, s + b);
        lemma_trim_back(s, b);
    } else {
        let all = a + s + b;
        assert forall|i: int| 0 <= i < all.len() implies white(#[trigger] all[i]) by {
            if i < a.len() {
                assert(all[i] == a[i]);
            } else {
                assert(all[i] == b[i - a.len()]);
            }
        }
        lemma_trim_front(all, Seq::empty());
        assert(all + Seq::<char>::empty() =~= all);
        assert(crate::text::trim_start(all) =~= s);
        assert(crate::text::trim_end(s) =~= s);
    }
}

/// A prefix is found and taken exactly where the text starts with it; likewise a suffix.
pub proof fn law_prefixes_and_suffixes(p: Seq<char>, t: Seq<char>, s: Seq<char>)
    ensures
        begins(p + t, p),
        without_prefix(p + t, p) == Some(t),
        begins(s, p) <==> without_prefix(s, p) is Some,
        without_prefix(s, p) matches Some(rest) ==> s == p + rest,
        ends(t + p, p),
        without_suffix(t + p, p) == Some(t),
        ends(s, p) <==> without_suffix(s, p) is Some,
        without_suffix(s, p) matches Some(rest) ==> s == rest + p,
{
    assert((p + t).take(p.len() as int) =~= p);
    assert((p + t).skip(p.len() as int) =~= t);
    assert((t + p).skip(t.len() as int) =~= p);
    assert((t + p).take(t.len() as int) =~= t);
    if begins(s, p) {
        assert(s =~= p + s.skip(p.len() as int));
    }
    if ends(s, p) {
        assert(s =~= s.take(s.len() - p.len()) + p);
    }
}

/// Case changes letter by letter, and only the letters of ASCII.
pub proof fn law_case(s: Seq<char>, i: int)
    requires
        0 <= i < s.len(),
    ensures
        lowered(s).len() == s.len(),
        uppered(s).len() == s.len(),
        'A' <= s[i] <= 'Z' ==> lowered(s)[i] as int == s[i] as int + 32,
        !('A' <= s[i] <= 'Z') ==> lowered(s)[i] == s[i],
        'a' <= s[i] <= 'z' ==> uppered(s)[i] as int == s[i] as int - 32,
        !('a' <= s[i] <= 'z') ==> uppered(s)[i] == s[i],
{
    let c = s[i];
    if 'A' <= c <= 'Z' {
        assert(c as u8 as int == c as int);
        assert((c as u8 + 32) as u8 as char as int == c as int + 32);
    }
    if 'a' <= c <= 'z' {
        assert(c as u8 as int == c as int);
        assert((c as u8 - 32) as u8 as char as int == c as int - 32);
    }
}

/// To take two characters out of a text takes them out of its parts.
pub proof fn law_taking_characters_out(s: Seq<char>, c: char, a: char, b: char)
    ensures
        without_chars(Seq::empty(), a, b) == Seq::<char>::empty(),
        c == a || c == b ==> without_chars(s.push(c), a, b) == without_chars(s, a, b),
        c != a && c != b ==> without_chars(s.push(c), a, b) == without_chars(s, a, b).push(c),
{
    assert(s.push(c).drop_last() =~= s);
    assert(s.push(c).last() == c);
}

proof fn lemma_line_end(a: Seq<char>, rest: Seq<char>)
    requires
        forall|i: int| 0 <= i < a.len() ==> #[trigger] a[i] != '\n',
        rest.len() > 0 ==> rest[0] == '\n',
    ensures
        crate::text::line_end(a + rest) == a.len(),
    decreases a.len(),
{
    if a.len() > 0 {
        assert(a[0] != '\n');
        assert((a + rest)[0] == a[0]);
        assert((a + rest).skip(1) =~= a.skip(1) + rest);
        assert forall|i: int| 0 <= i < a.skip(1).len() implies #[trigger] a.skip(1)[i] != '\n' by {
            assert(a.skip(1)[i] == a[i + 1]);
        }
        lemma_line_end(a.skip(1), rest);
    } else {
        assert(a + rest =~= rest);
    }
}

/// A line feed ends a line, and takes a carriage return before it along; the last line
/// needs no end.
pub proof fn law_lines(a: Seq<char>, b: Seq<char>)
    requires
        forall|i: int| 0 <= i < a.len() ==> #[trigger] a[i] != '\n',
    ensures
        lines_of(Seq::empty()) == Seq::<Seq<char>>::empty(),
        a.len() > 0 ==> lines_of(a) == seq![a],
        lines_of(a + seq!['\n'] + b) == seq![
            (if a.len() > 0 && a.last() == '\r' {
                a.drop_last()
            } else {
                a
            }),
        ] + lines_of(b),
{
    lemma_line_end(a, Seq::empty());
    assert(a + Seq::<char>::empty() =~= a);
    let s = a + seq!['\n'] + b;
    assert(s =~= a + (seq!['\n'] + b));
    lemma_line_end(a, seq!['\n'] + b);
    assert(s.take(a.len() as int) =~= a);
    assert(s.skip(a.len() as int + 1) =~= b);
}

// ---------------------------------------------------------------------------
// Numbers
// ---------------------------------------------------------------------------

proof fn lemma_decimal(n: nat)
    ensures
        decimal(n).len() > 0,
        crate::text::all_digits(decimal(n)),
        crate::text::digits_value(decimal(n)) == n,
        n > 0 ==> decimal(n)[0] != '0',
    decreases n,
{
    let s = decimal(n);
    if n < 10 {
        assert(s.drop_last() =~= Seq::<char>::empty());
        assert(crate::text::digits_value(s.drop_last()) == 0);
        assert(s.last() as nat == 48 + n);
    } else {
        lemma_decimal(n / 10);
        let front = decimal(n / 10);
        assert(s.drop_last() =~= front);
        assert(s.last() as nat == 48 + n % 10);
        assert forall|i: int| 0 <= i < s.len() implies crate::text::digit(#[trigger] s[i]) by {
            if i < front.len() {
                assert(s[i] == front[i]);
            }
        }
        assert(s[0] == front[0]);
    }
}

/// A number that is printed reads back as itself, with a plus sign in front too; and it
/// has no zero in front.
pub proof fn law_number_reads_back(n: u64)
    ensures
        parsed_u64(decimal(n as nat)) == Some(n),
        parsed_u64(seq!['+'] + decimal(n as nat)) == Some(n),
        n > 0 ==> decimal(n as nat)[0] != '0',
{
    let s = decimal(n as nat);
    lemma_decimal(n as nat);
    assert(crate::text::digit(s[0]));
    assert((seq!['+'] + s).skip(1) =~= s);
}

/// A text reads as a number only if it has digits and, but for a plus sign in front,
/// nothing else; and a digit more is worth ten times the rest and itself.
pub proof fn law_what_reads_as_a_number(s: Seq<char>, c: char)
    ensures
        parsed_u64(Seq::empty()) is None,
        s.len() > 0 && parsed_u64(s) is Some ==> forall|i: int|
            0 < i < s.len() ==> '0' <= (#[trigger] s[i]) <= '9',
        s.len() > 0 && parsed_u64(s) is Some ==> s[0] == '+' && s.len() > 1 || '0' <= s[0] <= '9',
        !('0' <= c <= '9') && s.len() > 0 ==> parsed_u64(s.push(c)) is None,
        parsed_u64(s) is Some && '0' <= c <= '9' && 10 * parsed_u64(s)->0 + (c as int - '0' as int)
            <= u64::MAX ==> parsed_u64(s.push(c)) == Some(
            (10 * parsed_u64(s)->0 + (c as int - '0' as int)) as u64,
        ),
        parsed_u64(s) is Some && '0' <= c <= '9' && 10 * parsed_u64(s)->0 + (c as int - '0' as int)
            > u64::MAX ==> parsed_u64(s.push(c)) is None,
{
    let d = crate::text::unsigned_digits(s);
    let t = s.push(c);
    let e = crate::text::unsigned_digits(t);
    if s.len() > 0 {
        assert(t[0] == s[0]);
        assert(e =~= d.push(c));
        assert(e.drop_last() =~= d);
        assert(e[e.len() - 1] == c);
        if crate::text::all_digits(d) && '0' <= c <= '9' {
            assert forall|i: int| 0 <= i < e.len() implies crate::text::digit(#[trigger] e[i]) by {
                if i < d.len() {
                    assert(e[i] == d[i]);
                }
            }
        }
        if parsed_u64(s) is Some {
            assert forall|i: int| 0 < i < s.len() implies '0' <= (#[trigger] s[i]) <= '9' by {
                if s[0] == '+' {
                    assert(d[i - 1] == s[i]);
                } else {
                    assert(d[i] == s[i]);
                }
            }
            if s[0] != '+' {
                assert(crate::text::digit(d[0]));
            }
        }
    }
}

/// A negative number is printed with a minus sign before the digits.
pub proof fn law_signed_numbers(n: int)
    ensures
        n >= 0 ==> decimal_signed(n) == decimal(n as nat),
        n < 0 ==> decimal_signed(n) == seq!['-'] + decimal((-n) as nat),
{
}

// ---------------------------------------------------------------------------
// What is shown
// ---------------------------------------------------------------------------

/// A text is escaped character by character, and what is printable and no quote or
/// backslash stays as it is; nothing is shown as nothing.
pub proof fn law_escaping(s: Seq<char>, c: char)
    ensures
        escaped_text(Seq::empty()) == Seq::<char>::empty(),
        ' ' <= c <= '~' && c != '\'' && c != '"' && c != '\\' ==> escaped_text(s.push(c))
            == escaped_text(s) + seq![c],
        c == '\n' ==> escaped_text(s.push(c)) == escaped_text(s) + seq!['\\', 'n'],
        c == '\t' ==> escaped_text(s.push(c)) == escaped_text(s) + seq!['\\', 't'],
        c == '\r' ==> escaped_text(s.push(c)) == escaped_text(s) + seq!['\\', 'r'],
        c == '\'' || c == '"' || c == '\\' ==> escaped_text(s.push(c)) == escaped_text(s) + seq![
            '\\',
            c,
        ],
        !(' ' <= c <= '~') && c != '\n' && c != '\t' && c != '\r' ==> escaped_text(s.push(c))
            == escaped_text(s) + (seq!['\\', 'u', '{'] + crate::text::hex(c as nat) + seq!['}']),
{
    assert(s.push(c).drop_last() =~= s);
    assert(s.push(c).last() == c);
}

/// In a notification only the three characters of markup are replaced.
pub proof fn law_markup(s: Seq<char>, c: char)
    ensures
        markup_text(Seq::empty()) == Seq::<char>::empty(),
        c == '&' ==> markup_text(s.push(c)) == markup_text(s) + "&amp;"@,
        c == '<' ==> markup_text(s.push(c)) == markup_text(s) + "&lt;"@,
        c == '>' ==> markup_text(s.push(c)) == markup_text(s) + "&gt;"@,
        c != '&' && c != '<' && c != '>' ==> markup_text(s.push(c)) == markup_text(s) + seq![c],
{
    assert(s.push(c).drop_last() =~= s);
    assert(s.push(c).last() == c);
}

// ---------------------------------------------------------------------------
// Identifiers
// ---------------------------------------------------------------------------

/// Two WWNs that differ in the space around them only, or in a leading `0x`, are the same
/// when they are compared.
pub proof fn law_spelling_of_a_wwn(a: Seq<char>, s: Seq<char>, b: Seq<char>)
    requires
        forall|i: int| 0 <= i < a.len() ==> white(#[trigger] a[i]),
        forall|i: int| 0 <= i < b.len() ==> white(#[trigger] b[i]),
        s.len() > 0,
        !white(s[0]),
        !white(s.last()),
    ensures
        normal_wwn(a + s + b) == normal_wwn(s),
        normal_wwn(seq!['0', 'x'] + s) == normal_wwn(s),
{
    let e = Seq::<char>::empty();
    law_trimming(a, s, b);
    law_trimming(e, s, e);
    assert(e + s + e =~= s);
    let t = seq!['0', 'x'] + s;
    assert(t.last() == s.last());
    law_trimming(e, t, e);
    assert(e + t + e =~= t);
    assert(t.skip(2) =~= s);
}

proof fn lemma_without_chars(s: Seq<char>, a: char, b: char)
    ensures
        forall|i: int|
            0 <= i < without_chars(s, a, b).len() ==> (#[trigger] without_chars(s, a, b)[i]) != a
                && without_chars(s, a, b)[i] != b,
        (forall|i: int| 0 <= i < s.len() ==> (#[trigger] s[i]) != a && s[i] != b) ==> without_chars(
            s,
            a,
            b,
        ) == s,
    decreases s.len(),
{
    if s.len() > 0 {
        let rest = s.drop_last();
        lemma_without_chars(rest, a, b);
        let front = without_chars(rest, a, b);
        let all = without_chars(s, a, b);
        assert forall|i: int| 0 <= i < all.len() implies (#[trigger] all[i]) != a && all[i] != b by {
            if i < front.len() {
                assert(all[i] == front[i]);
            }
        }
        if forall|i: int| 0 <= i < s.len() ==> (#[trigger] s[i]) != a && s[i] != b {
            assert forall|i: int| 0 <= i < rest.len() implies (#[trigger] rest[i]) != a && rest[i]
                != b by {
                assert(rest[i] == s[i]);
            }
            assert(s[s.len() - 1] != a && s[s.len() - 1] != b);
            assert(all =~= s);
        }
    }
}

/// The form in which WWNs are compared has no capitals, colons or blanks; and digits and
/// small letters alone are in that form.
pub proof fn law_form_of_a_wwn(s: Seq<char>)
    ensures
        forall|i: int|
            0 <= i < normal_wwn(s).len() ==> (#[trigger] normal_wwn(s)[i]) != ':' && normal_wwn(s)[i]
                != ' ' && !('A' <= normal_wwn(s)[i] <= 'Z'),
        (forall|i: int|
            0 <= i < s.len() ==> '0' <= (#[trigger] s[i]) <= '9' || 'a' <= s[i] <= 'f') ==> normal_wwn(
            s,
        ) == s,
{
    let t = without_chars(crate::smart::unprefixed(trimmed(s)), ':', ' ');
    lemma_without_chars(crate::smart::unprefixed(trimmed(s)), ':', ' ');
    let r = normal_wwn(s);
    assert forall|i: int| 0 <= i < r.len() implies (#[trigger] r[i]) != ':' && r[i] != ' ' && !('A'
        <= r[i] <= 'Z') by {
        law_case(t, i);
    }
    if forall|i: int| 0 <= i < s.len() ==> '0' <= (#[trigger] s[i]) <= '9' || 'a' <= s[i] <= 'f' {
        let e = Seq::<char>::empty();
        if s.len() > 0 {
            assert(!white(s[0]) && !white(s[s.len() - 1]));
        }
        law_trimming(e, s, e);
        assert(e + s + e =~= s);
        if s.len() >= 2 {
            assert(s[1] != 'x');
        }
        assert(crate::smart::unprefixed(s) == s);
        lemma_without_chars(s, ':', ' ');
        assert(r =~= s) by {
            assert forall|i: int| 0 <= i < s.len() implies r[i] == #[trigger] s[i] by {
                law_case(s, i);
            }
        }
    }
}

// ---------------------------------------------------------------------------
// JSON
// ---------------------------------------------------------------------------

/// The first member of a name is the one that is found; and one that is not there is
/// not found.
pub proof fn law_member_is_found(
    front: Seq<(Seq<char>, JsonView)>,
    name: Seq<char>,
    v: JsonView,
    back: Seq<(Seq<char>, JsonView)>,
)
    requires
        forall|i: int| 0 <= i < front.len() ==> (#[trigger] front[i]).0 != name,
    ensures
        JsonView::Object(front + seq![(name, v)] + back).child(name) == Some(v),
        JsonView::Object(front + seq![(name, v)] + back).at(name) == v,
        JsonView::Object(front).child(name) is None,
        JsonView::Object(front).at(name) == JsonView::Null,
    decreases front.len(),
{
    let all = front + seq![(name, v)] + back;
    if front.len() > 0 {
        let rest = front.skip(1);
        assert(front[0].0 != name);
        assert(all[0] == front[0]);
        assert(all.skip(1) =~= rest + seq![(name, v)] + back);
        assert forall|i: int| 0 <= i < rest.len() implies (#[trigger] rest[i]).0 != name by {
            assert(rest[i] == front[i + 1]);
        }
        law_member_is_found(rest, name, v, back);
        assert(named(all, name) == named(all.skip(1), name));
        assert(named(front, name) == named(rest, name));
    } else {
        assert(all[0] == (name, v));
        assert(front =~= Seq::<(Seq<char>, JsonView)>::empty());
    }
}

/// What is no object has no members; and a value is read as what it is and as nothing
/// else.
pub proof fn law_plain_values(v: JsonView, name: Seq<char>)
    ensures
        !(v is Object) ==> v.child(name) is None && v.at(name) == JsonView::Null,
        v.boolean() == (if v is Bool {
            Some(v->Bool_0)
        } else {
            None
        }),
        v.unsigned() == (if v is Unsigned {
            Some(v->Unsigned_0)
        } else {
            None
        }),
        v.text() == (if v is Text {
            Some(v->Text_0)
        } else {
            None
        }),
        v.array() == (if v is Array {
            Some(v->Array_0)
        } else {
            None
        }),
        v matches JsonView::Unsigned(n) ==> v.signed() == (if n <= 0x7fff_ffff_ffff_ffff {
            Some(n as i64)
        } else {
            None
        }),
        v matches JsonView::Negative(n) ==> v.signed() == Some(n),
        !(v is Unsigned) && !(v is Negative) ==> v.signed() is None,
        v matches JsonView::Array(a) ==> v.first() == (if a.len() > 0 {
            Some(a[0])
        } else {
            None
        }),
        !(v is Array) && !(v is Object) ==> v.first() is None,
{
}

/// The text of a plain value.
pub proof fn law_text_of_plain_values(b: bool, n: u64, m: i64)
    ensures
        text_of(JsonView::Null) == "null"@,
        text_of(JsonView::Bool(b)) == (if b {
            "true"@
        } else {
            "false"@
        }),
        parsed_u64(text_of(JsonView::Unsigned(n))) == Some(n),
        m < 0 ==> text_of(JsonView::Negative(m)) == seq!['-'] + decimal((-m) as nat),
{
    law_number_reads_back(n);
}

} // verus!
