//! JSON documents: a library-owned tree that verified code builds and reads, and
//! the two calls into `serde_json` that turn text into a tree and a tree into
//! pretty-printed text.
use vstd::prelude::*;
use crate::text::{chars_of, chars_eq, owned};

verus! {

/// A JSON document as the library reads and writes it. A number is kept when it
/// fits an `i64`; any other number is only known to be a number.
#[derive(Debug)]
pub enum Json {
    Null,
    Bool(bool),
    Int(i64),
    OtherNumber,
    Str(String),
    Array(Vec<Json>),
    Object(Vec<(String, Json)>),
}

/// The mathematical model of a JSON document; an object is a map from keys to
/// values (a repeated key keeps its last value).
pub enum JsonView {
    Null,
    Bool(bool),
    Int(int),
    OtherNumber,
    Str(Seq<char>),
    Array(Seq<JsonView>),
    Object(Map<Seq<char>, JsonView>),
}

/// The models of a sequence of documents.
pub open spec fn items_view(items: Seq<Json>) -> Seq<JsonView>
    decreases items,
{
    if items.len() == 0 {
        Seq::empty()
    } else {
        items_view(items.drop_last()).push(items.last().view())
    }
}

/// The map that the members of an object denote: later members override earlier
/// ones with the same key.
pub open spec fn members_view(members: Seq<(String, Json)>) -> Map<Seq<char>, JsonView>
    decreases members,
{
    if members.len() == 0 {
        Map::empty()
    } else {
        members_view(members.drop_last()).insert(members.last().0@, members.last().1.view())
    }
}

impl View for Json {
    type V = JsonView;

    open spec fn view(&self) -> JsonView
        decreases self,
    {
        match self {
            Json::Null => JsonView::Null,
            Json::Bool(b) => JsonView::Bool(*b),
            Json::Int(i) => JsonView::Int(*i as int),
            Json::OtherNumber => JsonView::OtherNumber,
            Json::Str(s) => JsonView::Str(s@),
            Json::Array(items) => JsonView::Array(items_view(items@)),
            Json::Object(members) => JsonView::Object(members_view(members@)),
        }
    }
}

impl JsonView {
    /// The value under `key` of an object; `Null` when absent or not an object
    /// (what `serde_json`'s `value[key]` yields).
    pub open spec fn get(self, key: Seq<char>) -> JsonView {
        match self {
            JsonView::Object(m) => if m.contains_key(key) {
                m[key]
            } else {
                JsonView::Null
            },
            _ => JsonView::Null,
        }
    }

    /// The text of a string value.
    pub open spec fn as_str(self) -> Option<Seq<char>> {
        match self {
            JsonView::Str(s) => Some(s),
            _ => None,
        }
    }

    /// The elements of an array value.
    pub open spec fn as_array(self) -> Option<Seq<JsonView>> {
        match self {
            JsonView::Array(items) => Some(items),
            _ => None,
        }
    }

    /// The value of a number that fits an `i64`.
    pub open spec fn as_i64(self) -> Option<int> {
        match self {
            JsonView::Int(i) => Some(i),
            _ => None,
        }
    }
}

/// Whether the document holds only numbers that fit an `i64` and nests at most
/// `depth` arrays and objects.
pub open spec fn portable(j: Json, depth: nat) -> bool
    decreases j, 0nat,
{
    match j {
        Json::OtherNumber => false,
        Json::Array(items) => depth > 0 && all_portable(items@, (depth - 1) as nat),
        Json::Object(members) => depth > 0 && members_portable(members@, (depth - 1) as nat),
        _ => true,
    }
}

pub open spec fn all_portable(items: Seq<Json>, depth: nat) -> bool
    decreases items, 1nat,
{
    items.len() == 0 || (all_portable(items.drop_last(), depth) && portable(
        items.last(),
        depth,
    ))
}

pub open spec fn members_portable(members: Seq<(String, Json)>, depth: nat) -> bool
    decreases members, 1nat,
{
    members.len() == 0 || (members_portable(members.drop_last(), depth) && portable(
        members.last().1,
        depth,
    ))
}

/// A successful read of `doc`.
pub open spec fn read_ok(doc: JsonView) -> Result<JsonView, Seq<char>> {
    Ok(doc)
}

/// `serde_json`'s JSON value, which the two calls below read into and write from
/// the library's tree; the library never looks inside one.
#[verifier::external_type_specification]
#[verifier::external_body]
pub struct ExJsonValue(serde_json::Value);

/// What `serde_json::from_str` makes of a text: the document it reads, or the
/// message of the error it reports.
pub uninterp spec fn json_parse(text: Seq<char>) -> Result<JsonView, Seq<char>>;

/// The text that `serde_json::to_string_pretty` writes for a document.
pub uninterp spec fn json_render(doc: JsonView) -> Seq<char>;

/// The conversion half of [`parse_json`]: a `serde_json` value into the library's
/// tree, one for one, each variant to its namesake and a number to `Int` when
/// `as_i64` gives one. Recursive, as the tree is.
#[verifier::external_body]
fn from_value(value: serde_json::Value) -> Json {
    match value {
        serde_json::Value::Null => Json::Null,
        serde_json::Value::Bool(b) => Json::Bool(b),
        serde_json::Value::Number(n) => match n.as_i64() {
            Some(i) => Json::Int(i),
            None => Json::OtherNumber,
        },
        serde_json::Value::String(s) => Json::Str(s),
        serde_json::Value::Array(a) => Json::Array(a.into_iter().map(from_value).collect()),
        serde_json::Value::Object(m) => Json::Object(
            m.into_iter().map(|(k, v)| (k, from_value(v))).collect(),
        ),
    }
}

/// The conversion half of [`render_json`]: the library's tree into a `serde_json`
/// value, one for one; members are inserted in order, so a repeated key keeps its
/// last value. Recursive, as the tree is.
#[verifier::external_body]
fn to_value(doc: &Json) -> serde_json::Value {
    match doc {
        Json::Null | Json::OtherNumber => serde_json::Value::Null,
        Json::Bool(b) => serde_json::Value::Bool(*b),
        Json::Int(i) => serde_json::Value::from(*i),
        Json::Str(s) => serde_json::Value::String(s.clone()),
        Json::Array(items) => serde_json::Value::Array(items.iter().map(to_value).collect()),
        Json::Object(members) => serde_json::Value::Object(
            members.iter().map(|(k, v)| (k.clone(), to_value(v))).collect(),
        ),
    }
}

/// Reads a JSON document from `text` with `serde_json::from_str`, or gives the
/// error's message. The claim is that both are a function of the text (named
/// [`json_parse`]).
#[verifier::external_body]
pub(crate) fn parse_json(text: &str) -> (r: Result<Json, String>)
    ensures
        r is Ok <==> json_parse(text@) is Ok,
        r matches Ok(j) ==> (json_parse(text@) matches Ok(d) && d == j@),
        r matches Err(m) ==> (json_parse(text@) matches Err(e) && e == m@),
{
    serde_json::from_str::<serde_json::Value>(text).map(from_value).map_err(|e| e.to_string())
}

/// Writes `doc` as pretty-printed JSON with `serde_json::to_string_pretty`, which
/// cannot fail on a `serde_json::Value`. The claims are that the text is a function
/// of the document (named [`json_render`]) and that `serde_json::from_str` reads the
/// same document back from it, when the document holds only `i64` numbers and
/// nests within `serde_json`'s recursion limit (127 levels; 100 are claimed).
#[verifier::external_body]
pub(crate) fn render_json(doc: &Json) -> (out: String)
    ensures
        out@ == json_render(doc@),
        portable(*doc, 100) ==> json_parse(out@) == read_ok(doc@),
{
    serde_json::to_string_pretty(&to_value(doc)).unwrap()
}

proof fn lemma_members_lookup(ms: Seq<(String, Json)>, key: Seq<char>, j: int)
    requires
        0 <= j <= ms.len(),
        forall|m: int| j <= m < ms.len() ==> (#[trigger] ms[m]).0@ != key,
    ensures
        members_view(ms).contains_key(key) == members_view(ms.take(j)).contains_key(key),
        members_view(ms).contains_key(key) ==> members_view(ms)[key] == members_view(
            ms.take(j),
        )[key],
    decreases ms.len() - j,
{
    if j < ms.len() {
        lemma_members_lookup(ms, key, j + 1);
        let t = ms.take(j + 1);
        assert(t.drop_last() =~= ms.take(j));
        assert(t.last() == ms[j]);
        assert(ms[j].0@ != key);
        assert(members_view(t) == members_view(ms.take(j)).insert(ms[j].0@, ms[j].1@));
    } else {
        assert(ms.take(j) =~= ms);
    }
}

impl Json {
    /// The value under `key` of an object (the last member with that key); `None`
    /// when there is none or this is not an object.
    pub fn get(&self, key: &str) -> (r: Option<&Json>)
        ensures
            match r {
                Some(v) => v@ == self@.get(key@),
                None => self@.get(key@) == JsonView::Null,
            },
    {
        match self {
            Json::Object(members) => {
                let k = chars_of(key);
                let mut j = members.len();
                while j > 0
                    invariant
                        j <= members.len(),
                        k@ == key@,
                        self@ == JsonView::Object(members_view(members@)),
                        forall|m: int| j <= m < members.len() ==> (#[trigger] members@[m]).0@ != key@,
                    decreases j,
                {
                    let name = chars_of(members[j - 1].0.as_str());
                    if chars_eq(&name, &k) {
                        proof {
                            lemma_members_lookup(members@, key@, j as int);
                            let t = members@.take(j as int);
                            assert(t.drop_last() =~= members@.take(j - 1));
                            assert(t.last() == members@[j - 1]);
                            assert(members_view(t) == members_view(members@.take(j - 1)).insert(
                                members@[j - 1].0@,
                                members@[j - 1].1@,
                            ));
                            assert(members_view(t).contains_key(key@));
                        }
                        return Some(&members[j - 1].1);
                    }
                    j -= 1;
                }
                proof {
                    lemma_members_lookup(members@, key@, 0);
                    assert(members@.take(0) =~= Seq::<(String, Json)>::empty());
                }
                None
            },
            _ => None,
        }
    }

    /// The text of a string value.
    pub fn as_str(&self) -> (r: Option<&str>)
        ensures
            match r {
                Some(s) => self@.as_str() == Some(s@),
                None => self@.as_str() is None,
            },
    {
        match self {
            Json::Str(s) => Some(s.as_str()),
            _ => None,
        }
    }

    /// The elements of an array value.
    pub fn as_array(&self) -> (r: Option<&Vec<Json>>)
        ensures
            match r {
                Some(items) => self@.as_array() == Some(items_view(items@)),
                None => self@.as_array() is None,
            },
    {
        match self {
            Json::Array(items) => Some(items),
            _ => None,
        }
    }

    /// The value of a number that fits an `i64`.
    pub fn as_i64(&self) -> (r: Option<i64>)
        ensures
            match r {
                Some(i) => self@.as_i64() == Some(i as int),
                None => self@.as_i64() is None,
            },
    {
        match self {
            Json::Int(i) => Some(*i),
            _ => None,
        }
    }

    /// Whether this is `null`.
    pub fn is_null(&self) -> (r: bool)
        ensures
            r == (self@ is Null),
    {
        match self {
            Json::Null => true,
            _ => false,
        }
    }
}

pub proof fn lemma_items_view(items: Seq<Json>)
    ensures
        items_view(items).len() == items.len(),
        forall|i: int| 0 <= i < items.len() ==> #[trigger] items_view(items)[i] == items[i]@,
    decreases items.len(),
{
    if items.len() > 0 {
        lemma_items_view(items.drop_last());
        assert(items_view(items) == items_view(items.drop_last()).push(items.last()@));
        assert forall|i: int| 0 <= i < items.len() implies #[trigger] items_view(items)[i]
            == items[i]@ by {
            if i < items.len() - 1 {
                assert(items_view(items)[i] == items_view(items.drop_last())[i]);
                assert(items.drop_last()[i] == items[i]);
            }
        }
    }
}


pub proof fn lemma_members_push(ms: Seq<(String, Json)>, m: (String, Json))
    ensures
        members_view(ms.push(m)) == members_view(ms).insert(m.0@, m.1@),
        forall|d: nat| #[trigger]
            members_portable(ms.push(m), d) == (members_portable(ms, d) && portable(m.1, d)),
{
    assert(ms.push(m).drop_last() =~= ms);
}

pub proof fn lemma_items_push(items: Seq<Json>, x: Json)
    ensures
        items_view(items.push(x)) == items_view(items).push(x@),
        forall|d: nat| #[trigger]
            all_portable(items.push(x), d) == (all_portable(items, d) && portable(x, d)),
{
    assert(items.push(x).drop_last() =~= items);
}

/// An object member: the key and its value.
pub fn member(key: &str, value: Json) -> (m: (String, Json))
    ensures
        m.0@ == key@,
        m.1 == value,
{
    (owned(key), value)
}

/// The document is portable at every depth from `k` on: it holds only `i64`
/// numbers and nests at most `k` arrays and objects.
pub open spec fn nests_within(j: Json, k: nat) -> bool {
    forall|d: nat| d >= k ==> #[trigger] portable(j, d)
}

/// Every member value nests within `k`.
pub open spec fn members_within(ms: Seq<(String, Json)>, k: nat) -> bool {
    forall|d: nat| d >= k ==> #[trigger] members_portable(ms, d)
}

/// Every item nests within `k`.
pub open spec fn items_within(items: Seq<Json>, k: nat) -> bool {
    forall|d: nat| d >= k ==> #[trigger] all_portable(items, d)
}

/// Appends the member `key: value` to an object's members.
pub fn push_member(ms: &mut Vec<(String, Json)>, key: &str, value: Json)
    ensures
        members_view(final(ms)@) == members_view(old(ms)@).insert(key@, value@),
        forall|k: nat|
            members_within(old(ms)@, k) && nests_within(value, k) ==> #[trigger] members_within(
                final(ms)@,
                k,
            ),
{
    let m = member(key, value);
    proof {
        lemma_members_push(ms@, m);
    }
    ms.push(m);
}

/// Appends `value` to an array's items.
pub fn push_item(items: &mut Vec<Json>, value: Json)
    ensures
        items_view(final(items)@) == items_view(old(items)@).push(value@),
        forall|k: nat|
            items_within(old(items)@, k) && nests_within(value, k) ==> #[trigger] items_within(
                final(items)@,
                k,
            ),
{
    proof {
        lemma_items_push(items@, value);
    }
    items.push(value);
}

/// No members nest within every depth; an object nests one level deeper than its
/// members.
pub proof fn lemma_object_within(j: Json, k: nat)
    requires
        j matches Json::Object(ms) && members_within(ms@, k),
    ensures
        nests_within(j, k + 1),
{
    assert forall|d: nat| d >= k + 1 implies #[trigger] portable(j, d) by {
        assert(members_portable(j->Object_0@, (d - 1) as nat));
    }
}

/// An array nests one level deeper than its items.
pub proof fn lemma_array_within(j: Json, k: nat)
    requires
        j matches Json::Array(items) && items_within(items@, k),
    ensures
        nests_within(j, k + 1),
{
    assert forall|d: nat| d >= k + 1 implies #[trigger] portable(j, d) by {
        assert(all_portable(j->Array_0@, (d - 1) as nat));
    }
}

/// Empty members and items nest within every depth.
pub proof fn lemma_empty_within(k: nat)
    ensures
        members_within(Seq::empty(), k),
        items_within(Seq::empty(), k),
{
    assert forall|d: nat| d >= k implies #[trigger] members_portable(Seq::empty(), d) by {}
    assert forall|d: nat| d >= k implies #[trigger] all_portable(Seq::empty(), d) by {}
}

/// A string, `null`, a boolean or an `i64` nests within every depth.
pub proof fn lemma_scalar_within(j: Json, k: nat)
    requires
        j is Str || j is Null || j is Bool || j is Int,
    ensures
        nests_within(j, k),
{
    assert forall|d: nat| d >= k implies #[trigger] portable(j, d) by {}
}

} // verus!
