//! JSON documents as plain values.

use crate::strmap::{lemma_ordered, lists, ordered, StrMap};
use crate::text::{before, decimal, decimal_signed, same};
use vstd::prelude::*;

verus! {

/// The value type of the `serde_json` crate.
#[verifier::external_type_specification]
#[verifier::external_body]
pub struct ExValue(serde_json::Value);

/// The number type of the `serde_json` crate.
#[verifier::external_type_specification]
#[verifier::external_body]
pub struct ExNumber(serde_json::Number);

/// The error type of the `serde_json` crate.
#[verifier::external_type_specification]
#[verifier::external_body]
pub struct ExError(serde_json::Error);

/// What a JSON document holds.
pub enum JsonView {
    Null,
    Bool(bool),
    Unsigned(u64),
    Negative(i64),
    /// A number with a fraction or an exponent, as it is printed.
    Float(Seq<char>),
    Text(Seq<char>),
    Array(Seq<JsonView>),
    /// Names and values, in the order in which the object is walked.
    Object(Seq<(Seq<char>, JsonView)>),
}

/// What a `serde_json` value holds.
pub uninterp spec fn contents(v: serde_json::Value) -> JsonView;

/// What a `serde_json` number holds.
pub uninterp spec fn numeral(n: serde_json::Number) -> JsonView;

/// How a `serde_json` error describes itself.
pub uninterp spec fn error_text(e: serde_json::Error) -> Seq<char>;

/// What `serde_json` reads from a text: the document, or why there is none.
pub uninterp spec fn decoded(bytes: Seq<u8>) -> Result<JsonView, Seq<char>>;

/// How `serde_json` prints a value that holds this.
pub uninterp spec fn printed(v: JsonView) -> Seq<char>;

/// `serde_json::from_slice::<Value>`: the document that the bytes spell, or an
/// error. Both depend on the bytes alone.
#[verifier::external_body]
fn from_slice(bytes: &[u8]) -> (r: Result<serde_json::Value, serde_json::Error>)
    ensures
        match r {
            Ok(v) => decoded(bytes@) == Ok::<JsonView, Seq<char>>(contents(v)),
            Err(e) => decoded(bytes@) == Err::<JsonView, Seq<char>>(error_text(e)),
        },
{
    serde_json::from_slice::<serde_json::Value>(bytes)
}

/// `Display` of `serde_json::Error`.
#[verifier::external_body]
fn describe(e: &serde_json::Error) -> (r: String)
    ensures
        r@ == error_text(*e),
{
    e.to_string()
}

/// `Display` of `serde_json::Value`: the text depends on what the value holds, and on
/// nothing else. That of `null`, of a truth value and of an integer is the usual one,
/// that of a float is the text by which the float is held here; of the others no more
/// is claimed.
#[verifier::external_body]
fn print(v: &serde_json::Value) -> (r: String)
    ensures
        r@ == printed(contents(*v)),
        match contents(*v) {
            JsonView::Null => r@ == "null"@,
            JsonView::Bool(b) => r@ == (if b {
                "true"@
            } else {
                "false"@
            }),
            JsonView::Unsigned(n) => r@ == decimal(n as nat),
            JsonView::Negative(n) => r@ == decimal_signed(n as int),
            JsonView::Float(t) => r@ == t,
            _ => true,
        },
{
    v.to_string()
}

/// `serde_json::Number::as_u64`: the number, where it is a non-negative integer.
pub assume_specification[ serde_json::Number::as_u64 ](n: &serde_json::Number) -> (r: Option<u64>)
    ensures
        r == numeral(*n).unsigned(),
;

/// `serde_json::Number::as_i64`: the number, where it is an integer that fits.
pub assume_specification[ serde_json::Number::as_i64 ](n: &serde_json::Number) -> (r: Option<i64>)
    ensures
        r == numeral(*n).signed(),
;

/// `From<u64>` of `serde_json::Number`: the number itself.
#[verifier::external_body]
fn number_from_u64(n: u64) -> (r: serde_json::Number)
    ensures
        numeral(r) == JsonView::Unsigned(n),
{
    serde_json::Number::from(n)
}

/// `From<i64>` of `serde_json::Number`: the number itself, held as an unsigned one where
/// it is not negative.
#[verifier::external_body]
fn number_from_i64(n: i64) -> (r: serde_json::Number)
    ensures
        numeral(r) == whole(n),
{
    serde_json::Number::from(n)
}

/// `Clone` of `serde_json::Number`: a number that is the same.
#[verifier::external_body]
fn copy_number(n: &serde_json::Number) -> (r: serde_json::Number)
    ensures
        numeral(r) == numeral(*n),
{
    n.clone()
}

/// One level of a `serde_json` value.
enum Node {
    Null,
    Bool(bool),
    Number(serde_json::Number),
    Text(String),
    Array(Vec<serde_json::Value>),
    Object(Vec<(String, serde_json::Value)>),
}

/// What a value with this top level holds.
spec fn assembled(node: Node) -> JsonView {
    match node {
        Node::Null => JsonView::Null,
        Node::Bool(b) => JsonView::Bool(b),
        Node::Number(n) => numeral(n),
        Node::Text(s) => JsonView::Text(s@),
        Node::Array(a) => JsonView::Array(Seq::new(a@.len(), |i: int| contents(a@[i]))),
        Node::Object(o) => JsonView::Object(
            Seq::new(o@.len(), |i: int| (o@[i].0@, contents(o@[i].1))),
        ),
    }
}

/// Takes a `serde_json::Value` apart by its variants. An object gives its
/// members in the order in which `Map::into_iter` walks them. A number is an
/// integer of 64 bits or it is a float.
#[verifier::external_body]
fn open(v: serde_json::Value) -> (r: Node)
    ensures
        contents(v) == assembled(r),
        r matches Node::Number(n) ==> numeral(n) is Unsigned || numeral(n) is Negative || numeral(
            n,
        ) is Float,
{
    match v {
        serde_json::Value::Null => Node::Null,
        serde_json::Value::Bool(b) => Node::Bool(b),
        serde_json::Value::Number(n) => Node::Number(n),
        serde_json::Value::String(s) => Node::Text(s),
        serde_json::Value::Array(a) => Node::Array(a),
        serde_json::Value::Object(o) => Node::Object(o.into_iter().collect()),
    }
}

/// Puts a `serde_json::Value` together by its variants. An object is collected into a
/// `Map`, which walks its members in the order of their names.
#[verifier::external_body]
fn close(node: Node) -> (r: serde_json::Value)
    requires
        node matches Node::Object(o) ==> forall|i: int, j: int|
            0 <= i < j < o@.len() ==> before((#[trigger] o@[i]).0@, (#[trigger] o@[j]).0@),
    ensures
        contents(r) == assembled(node),
{
    match node {
        Node::Null => serde_json::Value::Null,
        Node::Bool(b) => serde_json::Value::Bool(b),
        Node::Number(n) => serde_json::Value::Number(n),
        Node::Text(s) => serde_json::Value::String(s),
        Node::Array(a) => serde_json::Value::Array(a),
        Node::Object(o) => serde_json::Value::Object(o.into_iter().collect()),
    }
}

/// The first value that `members` holds under `name`.
pub open spec fn named(members: Seq<(Seq<char>, JsonView)>, name: Seq<char>) -> Option<JsonView>
    decreases members.len(),
{
    if members.len() == 0 {
        None
    } else if members[0].0 == name {
        Some(members[0].1)
    } else {
        named(members.skip(1), name)
    }
}

impl JsonView {
    /// The member `name` of an object.
    pub open spec fn child(self, name: Seq<char>) -> Option<JsonView> {
        match self {
            JsonView::Object(members) => named(members, name),
            _ => None,
        }
    }

    /// The member `name` of an object, `Null` where there is none.
    pub open spec fn at(self, name: Seq<char>) -> JsonView {
        match self.child(name) {
            Some(v) => v,
            None => JsonView::Null,
        }
    }

    /// The first element of an array, or the member `0` of an object.
    pub open spec fn first(self) -> Option<JsonView> {
        match self {
            JsonView::Array(a) => if a.len() > 0 {
                Some(a[0])
            } else {
                None
            },
            JsonView::Object(members) => named(members, "0"@),
            _ => None,
        }
    }

    pub open spec fn boolean(self) -> Option<bool> {
        match self {
            JsonView::Bool(b) => Some(b),
            _ => None,
        }
    }

    pub open spec fn unsigned(self) -> Option<u64> {
        match self {
            JsonView::Unsigned(n) => Some(n),
            _ => None,
        }
    }

    pub open spec fn signed(self) -> Option<i64> {
        match self {
            JsonView::Unsigned(n) => if n <= i64::MAX {
                Some(n as i64)
            } else {
                None
            },
            JsonView::Negative(n) => Some(n),
            _ => None,
        }
    }

    pub open spec fn text(self) -> Option<Seq<char>> {
        match self {
            JsonView::Text(s) => Some(s),
            _ => None,
        }
    }

    pub open spec fn array(self) -> Option<Seq<JsonView>> {
        match self {
            JsonView::Array(a) => Some(a),
            _ => None,
        }
    }
}

/// An integer that may be negative.
pub open spec fn whole(n: i64) -> JsonView {
    if n < 0 {
        JsonView::Negative(n)
    } else {
        JsonView::Unsigned(n as u64)
    }
}

/// The members by their names; of several with one name the last counts.
pub open spec fn gathered(members: Seq<(Seq<char>, JsonView)>) -> Map<Seq<char>, JsonView>
    decreases members.len(),
{
    if members.len() == 0 {
        Map::empty()
    } else {
        gathered(members.drop_last()).insert(members.last().0, members.last().1)
    }
}

/// What the value of `serde_json` for a document holds: the same, with the members of
/// each object in the order of their names, each name once.
pub open spec fn held(v: JsonView) -> JsonView
    decreases v,
{
    match v {
        JsonView::Negative(n) => whole(n),
        JsonView::Array(a) => JsonView::Array(
            Seq::new(
                a.len(),
                |i: int|
                    if 0 <= i < a.len() {
                        held(a[i])
                    } else {
                        JsonView::Null
                    },
            ),
        ),
        JsonView::Object(o) => JsonView::Object(ordered(gathered(held_members(o)))),
        _ => v,
    }
}

/// The members, with what the values of `serde_json` for them hold.
pub open spec fn held_members(o: Seq<(Seq<char>, JsonView)>) -> Seq<(Seq<char>, JsonView)>
    decreases o,
{
    if o.len() == 0 {
        o
    } else {
        held_members(o.drop_last()).push((o.last().0, held(o.last().1)))
    }
}

/// The text of a document, as `serde_json` prints it.
pub open spec fn text_of(v: JsonView) -> Seq<char> {
    match v {
        JsonView::Null => "null"@,
        JsonView::Bool(b) => if b {
            "true"@
        } else {
            "false"@
        },
        JsonView::Unsigned(n) => decimal(n as nat),
        JsonView::Negative(n) => decimal_signed(n as int),
        JsonView::Float(t) => t,
        _ => printed(held(v)),
    }
}

proof fn lemma_held_members(o: Seq<(Seq<char>, JsonView)>)
    ensures
        held_members(o) == Seq::new(o.len(), |i: int| (o[i].0, held(o[i].1))),
    decreases o.len(),
{
    if o.len() > 0 {
        lemma_held_members(o.drop_last());
    }
    assert(held_members(o) =~= Seq::new(o.len(), |i: int| (o[i].0, held(o[i].1))));
}

proof fn lemma_gathered(o: Seq<(Seq<char>, JsonView)>)
    ensures
        gathered(held_members(o)).dom() == gathered(o).dom(),
        forall|k: Seq<char>| #[trigger]
            gathered(o).contains_key(k) ==> gathered(held_members(o))[k] == held(gathered(o)[k]),
        forall|k: Seq<char>| #[trigger]
            gathered(o).contains_key(k) ==> exists|i: int|
                0 <= i < o.len() && o[i] == (k, gathered(o)[k]),
    decreases o.len(),
{
    if o.len() > 0 {
        let rest = o.drop_last();
        lemma_gathered(rest);
        assert(held_members(o).drop_last() =~= held_members(rest));
        assert(held_members(o).last() == (o.last().0, held(o.last().1)));
        assert(gathered(held_members(o)).dom() =~= gathered(o).dom());
        assert forall|k: Seq<char>| #[trigger] gathered(o).contains_key(k) implies exists|i: int|
            0 <= i < o.len() && o[i] == (k, gathered(o)[k]) by {
            if k == o.last().0 {
                assert(o[o.len() - 1] == (k, gathered(o)[k]));
            } else {
                let i = choose|i: int| 0 <= i < rest.len() && rest[i] == (k, gathered(rest)[k]);
                assert(o[i] == (k, gathered(o)[k]));
            }
        }
    }
}

/// The listing of the members keeps its order when the values are replaced.
proof fn lemma_held_object(o: Seq<(Seq<char>, JsonView)>)
    requires
        lists(ordered(gathered(o)), gathered(o)),
    ensures
        held(JsonView::Object(o)) == JsonView::Object(held_members(ordered(gathered(o)))),
{
    lemma_gathered(o);
    let listing = ordered(gathered(o));
    lemma_held_members(listing);
    let t = held_members(listing);
    let m = gathered(held_members(o));
    assert forall|i: int| 0 <= i < t.len() implies m.contains_key((#[trigger] t[i]).0) && m[t[i].0]
        == t[i].1 by {
        assert(gathered(o).contains_key(listing[i].0));
    }
    assert forall|k: Seq<char>| #[trigger] m.contains_key(k) implies exists|i: int|
        0 <= i < t.len() && t[i].0 == k by {
        assert(gathered(o).contains_key(k));
        let i = choose|i: int| 0 <= i < listing.len() && listing[i].0 == k;
        assert(t[i].0 == k);
    }
    assert(lists(t, m));
    lemma_ordered(t, m);
}

/// A number with a fraction or an exponent, exactly as `serde_json` holds it.
#[derive(Debug)]
pub struct Fraction {
    number: serde_json::Number,
}

impl Fraction {
    #[verifier::type_invariant]
    spec fn is_float(self) -> bool {
        numeral(self.number) is Float
    }
}

impl View for Fraction {
    type V = Seq<char>;

    closed spec fn view(&self) -> Seq<char> {
        numeral(self.number)->Float_0
    }
}

impl Fraction {
    /// The number itself.
    fn to_number(&self) -> (r: serde_json::Number)
        ensures
            numeral(r) == JsonView::Float(self@),
    {
        proof {
            use_type_invariant(self);
        }
        copy_number(&self.number)
    }
}

impl Clone for Fraction {
    fn clone(&self) -> (r: Self)
        ensures
            r@ == self@,
    {
        Fraction { number: self.to_number() }
    }
}

/// A JSON document.
#[derive(Debug)]
pub enum Json {
    Null,
    Bool(bool),
    Unsigned(u64),
    Negative(i64),
    Float(Fraction),
    Text(String),
    Array(Vec<Json>),
    Object(Vec<(String, Json)>),
}

impl Json {
    pub open spec fn model(self) -> JsonView
        decreases self,
    {
        match self {
            Json::Null => JsonView::Null,
            Json::Bool(b) => JsonView::Bool(b),
            Json::Unsigned(n) => JsonView::Unsigned(n),
            Json::Negative(n) => JsonView::Negative(n),
            Json::Float(t) => JsonView::Float(t@),
            Json::Text(s) => JsonView::Text(s@),
            Json::Array(a) => JsonView::Array(
                Seq::new(
                    a@.len(),
                    |i: int|
                        if 0 <= i < a@.len() {
                            a@[i].model()
                        } else {
                            JsonView::Null
                        },
                ),
            ),
            Json::Object(o) => JsonView::Object(
                Seq::new(
                    o@.len(),
                    |i: int|
                        if 0 <= i < o@.len() {
                            (o@[i].0@, o@[i].1.model())
                        } else {
                            (Seq::empty(), JsonView::Null)
                        },
                ),
            ),
        }
    }
}

impl View for Json {
    type V = JsonView;

    open spec fn view(&self) -> JsonView {
        self.model()
    }
}

impl DeepView for Json {
    type V = JsonView;

    open spec fn deep_view(&self) -> JsonView {
        self@
    }
}

/// The document that a `serde_json` value holds.
pub fn import(v: serde_json::Value) -> (r: Json)
    ensures
        r@ == contents(v),
    decreases contents(v),
{
    let ghost whole = contents(v);
    match open(v) {
        Node::Null => Json::Null,
        Node::Bool(b) => Json::Bool(b),
        Node::Number(n) => match n.as_u64() {
            Some(k) => Json::Unsigned(k),
            None => match n.as_i64() {
                Some(k) => Json::Negative(k),
                None => Json::Float(Fraction { number: n }),
            },
        },
        Node::Text(s) => Json::Text(s),
        Node::Array(items) => {
            let mut out: Vec<Json> = Vec::new();
            let ghost all = items@;
            for item in it: items
                invariant
                    it.seq() == all,
                    whole == contents(v),
                    whole == JsonView::Array(Seq::new(all.len(), |i: int| contents(all[i]))),
                    out@.len() == it.index(),
                    forall|i: int| 0 <= i < out@.len() ==> (#[trigger] out@[i])@ == contents(all[i]),
            {
                assert(whole->Array_0[it.index() as int] == contents(item));
                out.push(import(item));
            }
            let r: Json = Json::Array(out);
            assert(r@->Array_0 =~= whole->Array_0);
            r
        },
        Node::Object(members) => {
            let mut out: Vec<(String, Json)> = Vec::new();
            let ghost all = members@;
            for member in it: members
                invariant
                    it.seq() == all,
                    whole == contents(v),
                    whole == JsonView::Object(
                        Seq::new(all.len(), |i: int| (all[i].0@, contents(all[i].1))),
                    ),
                    out@.len() == it.index(),
                    forall|i: int|
                        0 <= i < out@.len() ==> (#[trigger] out@[i]).0@ == all[i].0@ && out@[i].1@
                            == contents(all[i].1),
            {
                assert(whole->Object_0[it.index() as int] == (member.0@, contents(member.1)));
                assert(decreases_to!(whole => whole->Object_0[it.index() as int]));
                assert(decreases_to!(whole->Object_0[it.index() as int] => whole->Object_0[it.index() as int].1));
                out.push((member.0, import(member.1)));
            }
            let r: Json = Json::Object(out);
            assert(r@->Object_0 =~= whole->Object_0);
            r
        },
    }
}

/// Reads a JSON document, as `serde_json` does.
pub fn decode(bytes: &[u8]) -> (r: Result<Json, String>)
    ensures
        match r {
            Ok(j) => decoded(bytes@) == Ok::<JsonView, Seq<char>>(j@),
            Err(e) => decoded(bytes@) == Err::<JsonView, Seq<char>>(e@),
        },
{
    match from_slice(bytes) {
        Ok(v) => Ok(import(v)),
        Err(e) => Err(describe(&e)),
    }
}

fn gather(o: &Vec<(String, Json)>) -> (r: StrMap<Json>)
    ensures
        r@ == gathered(o.deep_view()),
{
    let ghost all = o.deep_view();
    let mut known: StrMap<Json> = StrMap::new();
    let mut i: usize = 0;
    while i < o.len()
        invariant
            i <= o.len(),
            all == o.deep_view(),
            known@ == gathered(all.take(i as int)),
        decreases o.len() - i,
    {
        known.insert(o[i].0.clone(), o[i].1.copy());
        i += 1;
        assert(all.take(i as int).drop_last() =~= all.take(i - 1));
    }
    assert(all.take(i as int) =~= all);
    known
}

/// The value of `serde_json` for a document.
pub fn export(j: &Json) -> (r: serde_json::Value)
    ensures
        contents(r) == held(j@),
    decreases j@,
{
    let ghost whole_view = j@;
    match j {
        Json::Null => close(Node::Null),
        Json::Bool(b) => close(Node::Bool(*b)),
        Json::Unsigned(n) => close(Node::Number(number_from_u64(*n))),
        Json::Negative(n) => close(Node::Number(number_from_i64(*n))),
        Json::Float(f) => close(Node::Number(f.to_number())),
        Json::Text(s) => close(Node::Text(s.clone())),
        Json::Array(a) => {
            let mut out: Vec<serde_json::Value> = Vec::new();
            let mut i: usize = 0;
            while i < a.len()
                invariant
                    i <= a.len(),
                    *j == Json::Array(*a),
                    whole_view == j@,
                    out@.len() == i,
                    forall|k: int| 0 <= k < i ==> contents(#[trigger] out@[k]) == held(a@[k]@),
                decreases a.len() - i,
            {
                assert(whole_view->Array_0[i as int] == a@[i as int]@);
                assert(decreases_to!(whole_view => whole_view->Array_0[i as int]));
                out.push(export(&a[i]));
                i += 1;
            }
            let ghost items = out@;
            assert(held(j@)->Array_0 =~= Seq::new(items.len(), |k: int| contents(items[k]))) by {
                assert forall|k: int| 0 <= k < items.len() implies #[trigger] held(j@)->Array_0[k]
                    == contents(items[k]) by {
                    assert(whole_view->Array_0[k] == a@[k]@);
                }
            }
            close(Node::Array(out))
        },
        Json::Object(o) => {
            let ghost all = o.deep_view();
            assert(whole_view->Object_0 =~= all);
            let entries: Vec<(String, Json)> = gather(o).into_entries();
            let ghost listing = ordered(gathered(all));
            let mut out: Vec<(String, serde_json::Value)> = Vec::new();
            let mut i: usize = 0;
            while i < entries.len()
                invariant
                    i <= entries.len(),
                    whole_view == j@,
                    whole_view == JsonView::Object(all),
                    listing == entries.deep_view(),
                    listing == ordered(gathered(all)),
                    lists(listing, gathered(all)),
                    out@.len() == i,
                    forall|k: int|
                        0 <= k < i ==> (#[trigger] out@[k]).0@ == listing[k].0 && contents(
                            out@[k].1,
                        ) == held(listing[k].1),
                decreases entries.len() - i,
            {
                proof {
                    lemma_gathered(all);
                    assert(listing[i as int].1 == entries@[i as int].1@);
                    assert(gathered(all).contains_key(listing[i as int].0));
                    let m = choose|m: int|
                        0 <= m < all.len() && all[m] == (
                            listing[i as int].0,
                            gathered(all)[listing[i as int].0],
                        );
                    assert(decreases_to!(whole_view => whole_view->Object_0[m]));
                    assert(decreases_to!(whole_view->Object_0[m] => whole_view->Object_0[m].1));
                }
                out.push((entries[i].0.clone(), export(&entries[i].1)));
                i += 1;
            }
            let ghost members = out@;
            proof {
                lemma_held_object(all);
                lemma_held_members(listing);
                assert(held(j@)->Object_0 =~= Seq::new(
                    members.len(),
                    |k: int| (members[k].0@, contents(members[k].1)),
                ));
            }
            close(Node::Object(out))
        },
    }
}

impl Clone for Json {
    fn clone(&self) -> (r: Self)
        ensures
            r@ == self@,
    {
        self.copy()
    }
}

impl Json {
    /// A document that holds the same.
    pub fn copy(&self) -> (r: Json)
        ensures
            r@ == self@,
        decreases self,
    {
        match self {
            Json::Null => Json::Null,
            Json::Bool(b) => Json::Bool(*b),
            Json::Unsigned(n) => Json::Unsigned(*n),
            Json::Negative(n) => Json::Negative(*n),
            Json::Float(f) => Json::Float(f.clone()),
            Json::Text(s) => Json::Text(s.clone()),
            Json::Array(a) => {
                let mut out: Vec<Json> = Vec::new();
                let mut i: usize = 0;
                while i < a.len()
                    invariant
                        i <= a.len(),
                        *self == Json::Array(*a),
                        out@.len() == i,
                        forall|j: int| 0 <= j < i ==> (#[trigger] out@[j])@ == a@[j]@,
                    decreases a.len() - i,
                {
                    assert(decreases_to!(*self => self->Array_0@[i as int]));
                    out.push(a[i].copy());
                    i += 1;
                }
                let r: Json = Json::Array(out);
                assert(r@->Array_0 =~= self@->Array_0);
                r
            },
            Json::Object(o) => {
                let mut out: Vec<(String, Json)> = Vec::new();
                let mut i: usize = 0;
                while i < o.len()
                    invariant
                        i <= o.len(),
                        *self == Json::Object(*o),
                        out@.len() == i,
                        forall|j: int|
                            0 <= j < i ==> (#[trigger] out@[j]).0@ == o@[j].0@ && out@[j].1@
                                == o@[j].1@,
                    decreases o.len() - i,
                {
                    assert(decreases_to!(*self => self->Object_0@[i as int]));
                    assert(decreases_to!(o@[i as int] => o@[i as int].1));
                    out.push((o[i].0.clone(), o[i].1.copy()));
                    i += 1;
                }
                let r: Json = Json::Object(out);
                assert(r@->Object_0 =~= self@->Object_0);
                r
            },
        }
    }

    /// The member `name` of an object.
    pub fn child(&self, name: &str) -> (r: Option<&Json>)
        ensures
            match r {
                Some(j) => self@.child(name@) == Some(j@),
                None => self@.child(name@) is None,
            },
    {
        match self {
            Json::Object(o) => {
                let mut i: usize = 0;
                let ghost all = self@->Object_0;
                assert(all.skip(0) =~= all);
                while i < o.len()
                    invariant
                        i <= o.len(),
                        all.len() == o@.len(),
                        forall|j: int| 0 <= j < o@.len() ==> #[trigger] all[j] == (o@[j].0@, o@[j].1@),
                        named(all, name@) == named(all.skip(i as int), name@),
                        self@.child(name@) == named(all, name@),
                    decreases o.len() - i,
                {
                    assert(all.skip(i as int)[0] == all[i as int]);
                    assert(all.skip(i as int).skip(1) =~= all.skip(i + 1));
                    if same(o[i].0.as_str(), name) {
                        return Some(&o[i].1);
                    }
                    i += 1;
                }
                None
            },
            _ => None,
        }
    }

    /// The member `name` of an object, `Null` where there is none.
    pub fn field(&self, name: &str) -> (r: &Json)
        ensures
            r@ == self@.at(name@),
    {
        match self.child(name) {
            Some(j) => j,
            None => &Json::Null,
        }
    }

    /// The first element of an array, or the member `0` of an object.
    pub fn first(&self) -> (r: Option<&Json>)
        ensures
            match r {
                Some(j) => self@.first() == Some(j@),
                None => self@.first() is None,
            },
    {
        match self {
            Json::Array(a) => if a.len() > 0 {
                assert(self@->Array_0[0] == a@[0]@);
                Some(&a[0])
            } else {
                None
            },
            Json::Object(_) => self.child("0"),
            _ => None,
        }
    }

    pub fn as_bool(&self) -> (r: Option<bool>)
        ensures
            r == self@.boolean(),
    {
        match self {
            Json::Bool(b) => Some(*b),
            _ => None,
        }
    }

    pub fn as_u64(&self) -> (r: Option<u64>)
        ensures
            r == self@.unsigned(),
    {
        match self {
            Json::Unsigned(n) => Some(*n),
            _ => None,
        }
    }

    pub fn as_i64(&self) -> (r: Option<i64>)
        ensures
            r == self@.signed(),
    {
        match self {
            Json::Unsigned(n) => if *n <= 9223372036854775807u64 {
                Some(*n as i64)
            } else {
                None
            },
            Json::Negative(n) => Some(*n),
            _ => None,
        }
    }

    pub fn as_str(&self) -> (r: Option<&str>)
        ensures
            match r {
                Some(s) => self@.text() == Some(s@),
                None => self@.text() is None,
            },
    {
        match self {
            Json::Text(s) => Some(s.as_str()),
            _ => None,
        }
    }

    /// Whether this is the string `text`.
    pub fn is_text(&self, text: &str) -> (r: bool)
        ensures
            r == (self@.text() == Some(text@)),
    {
        match self {
            Json::Text(s) => same(s.as_str(), text),
            _ => false,
        }
    }

    pub fn as_array(&self) -> (r: Option<&Vec<Json>>)
        ensures
            match r {
                Some(a) => self@.array() == Some(a.deep_view()),
                None => self@.array() is None,
            },
    {
        match self {
            Json::Array(a) => {
                assert(self@->Array_0 =~= a.deep_view());
                Some(a)
            },
            _ => None,
        }
    }

    pub fn is_object(&self) -> (r: bool)
        ensures
            r == (self@ is Object),
    {
        match self {
            Json::Object(_) => true,
            _ => false,
        }
    }

    /// The text of the document, as `serde_json` prints it.
    pub fn to_text(&self) -> (r: String)
        ensures
            r@ == text_of(self@),
    {
        print(&export(self))
    }
}

} // verus!
