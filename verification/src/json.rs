//! JSON objects, held and read by `serde_json`.
//!
//! A `serde_json::Value` is modelled by what it holds, and a `serde_json::Map` by its
//! entries, each the JSON value that a key stands for.
use vstd::prelude::*;

use crate::text;

verus! {

broadcast use vstd::string::group_string_axioms;

/// `serde_json::Value`, a JSON value.
#[verifier::external_type_specification]
#[verifier::external_body]
pub struct ExValue(serde_json::Value);

/// `serde_json::Map`, the entries of a JSON object by their keys.
#[verifier::external_type_specification]
#[verifier::external_body]
#[verifier::reject_recursive_types(K)]
#[verifier::reject_recursive_types(V)]
pub struct ExObject<K, V>(serde_json::Map<K, V>);

/// A JSON value.
pub enum Entry {
    /// A string.
    Text(Seq<char>),
    /// `true` or `false`.
    Flag(bool),
    /// A number that is held as a whole number.
    Whole(int),
    /// Any other number, by its JSON text.
    Fraction(Seq<char>),
    Null,
    /// An array.
    List(Seq<Entry>),
    /// An object.
    Object(Map<Seq<char>, Entry>),
}

pub type Entries = Map<Seq<char>, Entry>;

/// The entries that an object holds.
pub uninterp spec fn entries(m: serde_json::Map<String, serde_json::Value>) -> Map<Seq<char>, Entry>;

/// What a JSON value holds.
pub uninterp spec fn held(v: serde_json::Value) -> Entry;

/// What `serde_json::from_str` makes of a text: the JSON value, or the message of
/// the error.
pub uninterp spec fn parsed(s: Seq<char>) -> Result<Entry, Seq<char>>;

/// What `serde_json::to_string_pretty` writes for an object.
pub uninterp spec fn pretty(m: Map<Seq<char>, Entry>) -> Seq<char>;

/// What `serde_json::to_string` writes for an object.
pub uninterp spec fn compact(m: Map<Seq<char>, Entry>) -> Seq<char>;

/// The entries of a value that is an object.
pub open spec fn entries_of(e: Entry) -> Option<Entries> {
    match e {
        Entry::Object(m) => Some(m),
        _ => None,
    }
}

/// The entries of the object that a text denotes.
pub open spec fn object_in(s: Seq<char>) -> Option<Entries> {
    match parsed(s) {
        Ok(e) => entries_of(e),
        Err(_) => None,
    }
}

pub open spec fn no_entries() -> Entries {
    Map::empty()
}

/// The entry with one key.
pub open spec fn single(k: Seq<char>, e: Entry) -> Entries {
    no_entries().insert(k, e)
}

/// An array of strings.
pub open spec fn texts(v: Seq<Seq<char>>) -> Entry {
    Entry::List(v.map_values(|s: Seq<char>| Entry::Text(s)))
}

/// The value of a string, or `null` where there is none.
pub open spec fn optional(t: Option<Seq<char>>) -> Entry {
    match t {
        Some(t) => Entry::Text(t),
        None => Entry::Null,
    }
}

/// How many arrays and objects may stand within each other in a text that is read.
pub open spec fn depth_limit() -> nat {
    127
}

/// At most `n` arrays and objects stand within each other.
pub open spec fn within(e: Entry, n: nat) -> bool
    decreases n,
{
    match e {
        Entry::List(v) => n > 0 && forall|i: int|
            0 <= i < v.len() ==> within(#[trigger] v[i], (n - 1) as nat),
        Entry::Object(m) => n > 0 && forall|k: Seq<char>| #[trigger]
            m.contains_key(k) ==> within(m[k], (n - 1) as nat),
        _ => true,
    }
}

/// Reading the text of a number that is not whole gives that number again. It
/// mostly does; where it does not, reading has rounded the number to another one.
pub open spec fn is_steady(number: Seq<char>) -> bool {
    object_in("{\"x\":"@ + number + "}"@) == Some(single("x"@, Entry::Fraction(number)))
}

/// Each number in the outer `n` arrays and objects survives being written and read.
pub open spec fn steady_within(e: Entry, n: nat) -> bool
    decreases n,
{
    match e {
        Entry::Fraction(t) => is_steady(t),
        Entry::List(v) => n == 0 || forall|i: int|
            0 <= i < v.len() ==> steady_within(#[trigger] v[i], (n - 1) as nat),
        Entry::Object(m) => n == 0 || forall|k: Seq<char>| #[trigger]
            m.contains_key(k) ==> steady_within(m[k], (n - 1) as nat),
        _ => true,
    }
}

/// No array or object stands deeper in the object than reading goes.
pub open spec fn readable(m: Entries) -> bool {
    within(Entry::Object(m), depth_limit())
}

/// Each number of a readable object survives being written and read.
pub open spec fn steady(m: Entries) -> bool {
    steady_within(Entry::Object(m), depth_limit())
}

/// `back` holds what was written for `m`: the same keys, and the same values but
/// for those with a number that does not survive.
pub open spec fn reads_back(m: Entries, back: Entries) -> bool {
    &&& back.dom() == m.dom()
    &&& forall|k: Seq<char>|
        #[trigger] m.contains_key(k) && steady_within(m[k], (depth_limit() - 1) as nat) ==> back[k]
            == m[k]
}

/// A text of small letters only, which JSON writes as it is.
pub open spec fn is_letters(s: Seq<char>) -> bool {
    forall|i: int| 0 <= i < s.len() ==> 'a' <= #[trigger] s[i] <= 'z'
}

/// A string, a truth value, a whole number, `null`, or an array of strings.
pub open spec fn is_plain(e: Entry) -> bool {
    match e {
        Entry::Fraction(_) => false,
        Entry::List(v) => forall|i: int| 0 <= i < v.len() ==> #[trigger] v[i] is Text,
        Entry::Object(_) => false,
        _ => true,
    }
}

pub open spec fn all_plain(m: Entries) -> bool {
    forall|k: Seq<char>| #[trigger] m.contains_key(k) ==> is_plain(m[k])
}

/// A plain value, or an object of plain values.
pub open spec fn is_shallow(e: Entry) -> bool {
    is_plain(e) || (e matches Entry::Object(m) && all_plain(m))
}

pub open spec fn all_shallow(m: Entries) -> bool {
    forall|k: Seq<char>| #[trigger] m.contains_key(k) ==> is_shallow(m[k])
}

proof fn lemma_plain(e: Entry, n: nat)
    requires
        is_plain(e),
        n > 0,
    ensures
        within(e, n),
        steady_within(e, n),
{
    if let Entry::List(v) = e {
        assert forall|i: int| 0 <= i < v.len() implies within(#[trigger] v[i], (n - 1) as nat)
            && steady_within(v[i], (n - 1) as nat) by {
            assert(v[i] is Text);
        }
    }
}

/// An object of plain values, and of objects of plain values, is readable, and has
/// no number that does not survive.
pub proof fn lemma_shallow(m: Entries)
    requires
        all_shallow(m),
    ensures
        readable(m),
        steady(m),
{
    assert forall|k: Seq<char>| #[trigger] m.contains_key(k) implies within(m[k], 126)
        && steady_within(m[k], 126) by {
        if is_plain(m[k]) {
            lemma_plain(m[k], 126);
        } else {
            let inner = m[k]->Object_0;
            assert forall|j: Seq<char>| #[trigger] inner.contains_key(j) implies within(
                inner[j],
                125,
            ) && steady_within(inner[j], 125) by {
                lemma_plain(inner[j], 125);
            }
        }
    }
}

proof fn lemma_inside(m: Entries, k: Seq<char>)
    requires
        m.contains_key(k),
    ensures
        readable(m) ==> within(m[k], 126),
        steady(m) ==> steady_within(m[k], 126),
{
    let e = Entry::Object(m);
    assert(e->Object_0 == m);
    if readable(m) {
        assert(within(e, 127));
        assert((e->Object_0).contains_key(k));
    }
    if steady(m) {
        assert(steady_within(e, 127));
        assert((e->Object_0).contains_key(k));
    }
}

/// Putting a string into an object, or taking an entry out, leaves it readable and
/// its numbers surviving.
pub proof fn lemma_edited(m: Entries, key: Seq<char>, t: Seq<char>)
    ensures
        readable(m) ==> readable(m.insert(key, Entry::Text(t))) && readable(m.remove(key)),
        steady(m) ==> steady(m.insert(key, Entry::Text(t))) && steady(m.remove(key)),
{
    let put = m.insert(key, Entry::Text(t));
    let out = m.remove(key);
    if readable(m) {
        assert forall|k: Seq<char>| #[trigger] put.contains_key(k) implies within(put[k], 126) by {
            if k != key {
                lemma_inside(m, k);
            }
        }
        assert forall|k: Seq<char>| #[trigger] out.contains_key(k) implies within(out[k], 126) by {
            lemma_inside(m, k);
        }
    }
    if steady(m) {
        assert forall|k: Seq<char>| #[trigger] put.contains_key(k) implies steady_within(
            put[k],
            126,
        ) by {
            if k != key {
                lemma_inside(m, k);
            }
        }
        assert forall|k: Seq<char>| #[trigger] out.contains_key(k) implies steady_within(
            out[k],
            126,
        ) by {
            lemma_inside(m, k);
        }
    }
}

/// A value put into an object.
pub enum Scalar {
    Text(String),
    Flag(bool),
    Number(i64),
    Texts(Vec<String>),
    Null,
    Object(serde_json::Map<String, serde_json::Value>),
}

impl Scalar {
    /// The entry that the value becomes.
    pub open spec fn entry(self) -> Entry {
        match self {
            Scalar::Text(s) => Entry::Text(s@),
            Scalar::Flag(b) => Entry::Flag(b),
            Scalar::Number(n) => Entry::Whole(n as int),
            Scalar::Texts(v) => texts(text::texts(v@)),
            Scalar::Null => Entry::Null,
            Scalar::Object(m) => Entry::Object(entries(m)),
        }
    }
}

/// A string to be put into an object, or `null` where there is none.
pub fn optional_text(t: Option<&str>) -> (r: Scalar)
    ensures
        r.entry() == optional(text::opt_str(t)),
{
    match t {
        Some(t) => Scalar::Text(t.to_string()),
        None => Scalar::Null,
    }
}

/// A value found in an object.
pub enum Field {
    Text(String),
    Flag(bool),
    List(Vec<Item>),
    Other,
}

/// An item of an array found in an object.
pub enum Item {
    Text(String),
    Object(serde_json::Map<String, serde_json::Value>),
    Other,
}

impl Item {
    /// The found item is the given value.
    pub open spec fn shows(self, e: Entry) -> bool {
        match e {
            Entry::Text(s) => self matches Item::Text(t) && t@ == s,
            Entry::Object(o) => self matches Item::Object(m) && entries(m) == o,
            _ => self is Other,
        }
    }
}

impl Field {
    /// The found value is the given one.
    pub open spec fn shows(self, e: Entry) -> bool {
        match e {
            Entry::Text(s) => self matches Field::Text(t) && t@ == s,
            Entry::Flag(b) => self == Field::Flag(b),
            Entry::List(v) => self matches Field::List(l) && l@.len() == v.len() && forall|i: int|
                0 <= i < v.len() ==> (#[trigger] l@[i]).shows(v[i]),
            _ => self is Other,
        }
    }
}

/// `serde_json::from_str::<serde_json::Value>`: the JSON value that a text denotes,
/// the error's message where it denotes none. It does not read arrays and objects
/// that stand too deep.
#[verifier::external_body]
pub(crate) fn parse_json(s: &str) -> (r: Result<serde_json::Value, String>)
    ensures
        match r {
            Ok(v) => parsed(s@) matches Ok(p) && p == held(v) && within(held(v), depth_limit()),
            Err(e) => parsed(s@) matches Err(p) && p == e@,
        },
{
    serde_json::from_str::<serde_json::Value>(s).map_err(|e| e.to_string())
}

/// `serde_json::Value::as_object`: the object that a JSON value is, in a copy.
#[verifier::external_body]
pub(crate) fn as_object(v: &serde_json::Value) -> (r: Option<
    serde_json::Map<String, serde_json::Value>,
>)
    ensures
        match r {
            Some(m) => held(*v) == Entry::Object(entries(m)),
            None => !(held(*v) is Object),
        },
{
    v.as_object().cloned()
}

/// The object that a text denotes, nothing where it denotes another JSON value, the
/// error's message where it denotes none.
pub(crate) fn parse_object(s: &str) -> (r: Result<
    Option<serde_json::Map<String, serde_json::Value>>,
    String,
>)
    ensures
        match r {
            Ok(Some(m)) => parsed(s@) matches Ok(p) && p == Entry::Object(entries(m)) && readable(
                entries(m),
            ),
            Ok(None) => parsed(s@) matches Ok(p) && !(p is Object),
            Err(e) => parsed(s@) matches Err(p) && p == e@,
        },
{
    match parse_json(s) {
        Ok(v) => Ok(as_object(&v)),
        Err(e) => Err(e),
    }
}

/// `serde_json::Map::new`: an object without entries.
#[verifier::external_body]
pub(crate) fn new_object() -> (r: serde_json::Map<String, serde_json::Value>)
    ensures
        entries(r) == no_entries(),
{
    serde_json::Map::new()
}

/// `serde_json::Map::insert`: the key then stands for the value, in place of what
/// it stood for before; the other entries stay.
#[verifier::external_body]
pub(crate) fn put(m: &mut serde_json::Map<String, serde_json::Value>, key: &str, value: Scalar)
    ensures
        entries(*final(m)) == entries(*old(m)).insert(key@, value.entry()),
{
    let v = match value {
        Scalar::Text(s) => serde_json::Value::from(s),
        Scalar::Flag(b) => serde_json::Value::from(b),
        Scalar::Number(n) => serde_json::Value::from(n),
        Scalar::Texts(l) => serde_json::Value::from(l),
        Scalar::Null => serde_json::Value::Null,
        Scalar::Object(o) => serde_json::Value::Object(o),
    };
    m.insert(key.to_string(), v);
}

/// `serde_json::Map::remove`: drops the entry of a key, and says whether there was one.
#[verifier::external_body]
pub(crate) fn take_out(m: &mut serde_json::Map<String, serde_json::Value>, key: &str) -> (r: bool)
    ensures
        r == entries(*old(m)).contains_key(key@),
        entries(*final(m)) == entries(*old(m)).remove(key@),
{
    m.remove(key).is_some()
}

/// `serde_json::Map::is_empty`: whether an object has no entries.
#[verifier::external_body]
pub(crate) fn is_empty(m: &serde_json::Map<String, serde_json::Value>) -> (r: bool)
    ensures
        r == (entries(*m) == no_entries()),
{
    m.is_empty()
}

/// `serde_json::Map::get`: what a key stands for.
#[verifier::external_body]
pub(crate) fn get(m: &serde_json::Map<String, serde_json::Value>, key: &str) -> (r: Option<Field>)
    ensures
        r is Some <==> entries(*m).contains_key(key@),
        r matches Some(f) ==> f.shows(entries(*m)[key@]),
{
    m.get(key).map(|v| match v {
        serde_json::Value::String(s) => Field::Text(s.clone()),
        serde_json::Value::Bool(b) => Field::Flag(*b),
        serde_json::Value::Array(a) => Field::List(a.iter().map(|i| match i {
            serde_json::Value::String(s) => Item::Text(s.clone()),
            serde_json::Value::Object(o) => Item::Object(o.clone()),
            _ => Item::Other,
        }).collect()),
        _ => Field::Other,
    })
}

/// `serde_json::to_string_pretty` on an object: its text over several lines. It
/// does not fail, since all keys are strings.
///
/// Where that text parses again, it holds the same keys, and the same values but
/// for those with a number that does not survive. It does parse, and holds the same
/// entries, where nothing stands deeper than reading goes and every number
/// survives. Of an object with another number it is not said that its text parses:
/// reading can round a number up to one that is too large.
#[verifier::external_body]
pub(crate) fn to_pretty(m: &serde_json::Map<String, serde_json::Value>) -> (r: Option<String>)
    ensures
        r is Some,
        r->0@ == pretty(entries(*m)),
        parsed(r->0@) matches Ok(back) ==> back is Object && reads_back(
            entries(*m),
            back->Object_0,
        ),
        readable(entries(*m)) && steady(entries(*m)) ==> object_in(r->0@) == Some(entries(*m)),
{
    serde_json::to_string_pretty(m).ok()
}

/// `serde_json::to_string` on an object: its text in one line. It does not fail,
/// since all keys are strings.
///
/// What is said of reading the text again is what is said of `to_pretty`. The text
/// of an object with one key of small letters, which stands for `true`, is spelled
/// out.
#[verifier::external_body]
pub(crate) fn to_compact(m: &serde_json::Map<String, serde_json::Value>) -> (r: Option<String>)
    ensures
        r is Some,
        r->0@ == compact(entries(*m)),
        !r->0@.contains('\n'),
        parsed(r->0@) matches Ok(back) ==> back is Object && reads_back(
            entries(*m),
            back->Object_0,
        ),
        readable(entries(*m)) && steady(entries(*m)) ==> object_in(r->0@) == Some(entries(*m)),
        forall|k: Seq<char>|
            is_letters(k) && entries(*m) == #[trigger] single(k, Entry::Flag(true)) ==> r->0@
                == "{\""@ + k + "\":true}"@,
{
    serde_json::to_string(m).ok()
}

} // verus!
