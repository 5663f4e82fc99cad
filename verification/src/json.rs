//! JSON values: the data that agents, planners and clients exchange.

use vstd::prelude::*;
use crate::text;
use crate::text_map::TextMap;

verus! {

/// A JSON number as a mathematical value. A number with a fraction or an
/// exponent is known by the text it prints as.
#[verifier::ext_equal]
pub enum NumberView {
    Int(int),
    Float(Seq<char>),
}

/// A JSON value as a mathematical value.
#[verifier::ext_equal]
pub enum JsonView {
    Null,
    Bool(bool),
    Number(NumberView),
    Text(Seq<char>),
    List(Seq<JsonView>),
    Object(Map<Seq<char>, JsonView>),
}

/// A JSON value.
#[derive(Debug, PartialEq)]
pub enum Json {
    Null,
    Bool(bool),
    Number(serde_json::Number),
    Text(String),
    List(Vec<Json>),
    Object(TextMap<Json>),
}

/// `serde_json::Value`, as a value that is carried and taken apart by the
/// functions below.
#[verifier::external_type_specification]
#[verifier::external_body]
pub struct ExValue(serde_json::Value);

/// `serde_json::Number`, as a value that is carried.
#[verifier::external_type_specification]
#[verifier::external_body]
pub struct ExNumber(serde_json::Number);

/// What a `serde_json::Number` holds.
pub uninterp spec fn number_view(n: serde_json::Number) -> NumberView;

/// What a `serde_json::Value` holds.
pub uninterp spec fn value_view(v: serde_json::Value) -> JsonView;

/// What `serde_json::from_str` makes of a text: the value that it reads, or the
/// words with which it refuses the text.
pub uninterp spec fn json_parse(text: Seq<char>) -> Result<JsonView, Seq<char>>;

/// A text was read as `v`.
pub open spec fn read(v: JsonView) -> Result<JsonView, Seq<char>> {
    Ok(v)
}

/// A text was refused with the words `e`.
pub open spec fn unread(e: Seq<char>) -> Result<JsonView, Seq<char>> {
    Err(e)
}

/// The compact text that `serde_json::Value` prints as.
pub uninterp spec fn json_text(v: JsonView) -> Seq<char>;

/// The value that `j` stands for.
pub open spec fn json_view(j: Json) -> JsonView
    decreases j,
{
    match j {
        Json::Null => JsonView::Null,
        Json::Bool(b) => JsonView::Bool(b),
        Json::Number(n) => JsonView::Number(number_view(n)),
        Json::Text(s) => JsonView::Text(s@),
        Json::List(v) => JsonView::List(
            Seq::new(
                v@.len(),
                |i: int|
                    if 0 <= i < v@.len() {
                        json_view(v@[i])
                    } else {
                        JsonView::Null
                    },
            ),
        ),
        Json::Object(m) => {
            proof {
                assert forall|k: Seq<char>| m@.dom().contains(k) implies decreases_to!(m => #[trigger] m@[k]) by {
                    m.lemma_value_decreases(k);
                }
            }
            JsonView::Object(
                Map::new(
                    |k: Seq<char>| m@.dom().contains(k),
                    |k: Seq<char>|
                        if m@.dom().contains(k) {
                            json_view(m@[k])
                        } else {
                            JsonView::Null
                        },
                ),
            )
        },
    }
}

impl View for Json {
    type V = JsonView;

    open spec fn view(&self) -> JsonView {
        json_view(*self)
    }
}

/// The value of a list is the list of the values of its items.
pub proof fn lemma_list_view(v: Vec<Json>)
    ensures
        json_view(Json::List(v)) == JsonView::List(Seq::new(v@.len(), |i: int| v@[i]@)),
{
    assert(json_view(Json::List(v))->List_0 =~= Seq::new(v@.len(), |i: int| v@[i]@));
}

/// Whether lists and objects nest at most `n` deep in `v`.
pub open spec fn nests_within(v: JsonView, n: nat) -> bool
    decreases n,
{
    match v {
        JsonView::List(s) => n > 0 && forall|i: int|
            0 <= i < s.len() ==> nests_within(#[trigger] s[i], (n - 1) as nat),
        JsonView::Object(m) => n > 0 && forall|k: Seq<char>| #[trigger]
            m.dom().contains(k) ==> nests_within(m[k], (n - 1) as nat),
        _ => true,
    }
}

/// A `serde_json::Value` taken apart one level deep.
enum Peek<'a> {
    Null,
    Bool(bool),
    Number(&'a serde_json::Number),
    Text(&'a String),
    List(&'a Vec<serde_json::Value>),
    Object(Vec<(&'a String, &'a serde_json::Value)>),
}

/// What a `serde_json::Value` is made of.
enum Parts {
    Null,
    Bool(bool),
    Number(serde_json::Number),
    Text(String),
    List(Vec<serde_json::Value>),
    Object(Vec<(String, serde_json::Value)>),
}

/// The values that a list of outside values stands for.
spec fn value_list(s: Seq<serde_json::Value>) -> Seq<JsonView> {
    Seq::new(s.len(), |i: int| value_view(s[i]))
}

/// The map that pairs leave when they are put in one by one.
spec fn pair_map(s: Seq<(Seq<char>, JsonView)>) -> Map<Seq<char>, JsonView>
    decreases s.len(),
{
    if s.len() == 0 {
        Map::empty()
    } else {
        pair_map(s.drop_last()).insert(s.last().0, s.last().1)
    }
}

spec fn owned_pairs(s: Seq<(String, serde_json::Value)>) -> Seq<(Seq<char>, JsonView)> {
    Seq::new(s.len(), |i: int| (s[i].0@, value_view(s[i].1)))
}

spec fn borrowed_pairs(s: Seq<(&String, &serde_json::Value)>) -> Seq<(Seq<char>, JsonView)> {
    Seq::new(s.len(), |i: int| (s[i].0@, value_view(*s[i].1)))
}

spec fn peek_view(p: Peek) -> JsonView {
    match p {
        Peek::Null => JsonView::Null,
        Peek::Bool(b) => JsonView::Bool(b),
        Peek::Number(n) => JsonView::Number(number_view(*n)),
        Peek::Text(s) => JsonView::Text(s@),
        Peek::List(v) => JsonView::List(value_list(v@)),
        Peek::Object(s) => JsonView::Object(pair_map(borrowed_pairs(s@))),
    }
}

spec fn parts_view(p: Parts) -> JsonView {
    match p {
        Parts::Null => JsonView::Null,
        Parts::Bool(b) => JsonView::Bool(b),
        Parts::Number(n) => JsonView::Number(number_view(n)),
        Parts::Text(s) => JsonView::Text(s@),
        Parts::List(v) => JsonView::List(value_list(v@)),
        Parts::Object(s) => JsonView::Object(pair_map(owned_pairs(s@))),
    }
}

/// `serde_json::from_str` into a `serde_json::Value`: a value where the text is
/// accepted, the words of the error where it is refused. Both are named.
#[verifier::external_body]
fn parse_value(text: &str) -> (r: Result<serde_json::Value, String>)
    ensures
        match r {
            Ok(v) => json_parse(text@) == read(value_view(v)),
            Err(e) => json_parse(text@) == unread(e@),
        },
{
    serde_json::from_str::<serde_json::Value>(text).map_err(|e| e.to_string())
}

/// `to_string` of a `serde_json::Value`: its compact text, which is named. Read
/// back, the text gives the value again as long as lists and objects nest at
/// most 127 deep, the depth at which the reader gives up being 128. The features
/// of `serde_json` that give some key of an object a meaning of its own
/// (`raw_value`, `arbitrary_precision`) are off.
#[verifier::external_body]
fn value_text(v: &serde_json::Value) -> (r: String)
    ensures
        r@ == json_text(value_view(*v)),
        nests_within(value_view(*v), 127) ==> json_parse(r@) == read(value_view(*v)),
{
    v.to_string()
}

/// A `serde_json::Value` told apart by its variants. The keys of an object
/// differ from each other.
#[verifier::external_body]
fn peek(v: &serde_json::Value) -> (r: Peek<'_>)
    ensures
        peek_view(r) == value_view(*v),
        r matches Peek::Object(s) ==> forall|i: int, j: int|
            0 <= i < j < s@.len() ==> (#[trigger] s@[i]).0@ != (#[trigger] s@[j]).0@,
{
    match v {
        serde_json::Value::Null => Peek::Null,
        serde_json::Value::Bool(b) => Peek::Bool(*b),
        serde_json::Value::Number(n) => Peek::Number(n),
        serde_json::Value::String(s) => Peek::Text(s),
        serde_json::Value::Array(a) => Peek::List(a),
        serde_json::Value::Object(m) => Peek::Object(m.iter().collect()),
    }
}

/// A `serde_json::Value` made by its variants. In an object the last of two
/// pairs with one key stays.
#[verifier::external_body]
fn assemble(p: Parts) -> (r: serde_json::Value)
    ensures
        value_view(r) == parts_view(p),
{
    match p {
        Parts::Null => serde_json::Value::Null,
        Parts::Bool(b) => serde_json::Value::Bool(b),
        Parts::Number(n) => serde_json::Value::Number(n),
        Parts::Text(s) => serde_json::Value::String(s),
        Parts::List(v) => serde_json::Value::Array(v),
        Parts::Object(v) => serde_json::Value::Object(v.into_iter().collect()),
    }
}

/// `Clone` of a `serde_json::Number`: the same number.
#[verifier::external_body]
fn same_number(n: &serde_json::Number) -> (r: serde_json::Number)
    ensures
        number_view(r) == number_view(*n),
{
    n.clone()
}

/// `serde_json::Number::from` on a `u64`: that integer.
#[verifier::external_body]
fn number_from_u64(n: u64) -> (r: serde_json::Number)
    ensures
        number_view(r) == NumberView::Int(n as int),
{
    serde_json::Number::from(n)
}

/// `serde_json::Number::from` on an `i64`: that integer.
#[verifier::external_body]
fn number_from_i64(n: i64) -> (r: serde_json::Number)
    ensures
        number_view(r) == NumberView::Int(n as int),
{
    serde_json::Number::from(n)
}

/// `serde_json::Number::as_u64`: the number, where it is an integer that fits.
#[verifier::external_body]
fn number_as_u64(n: &serde_json::Number) -> (r: Option<u64>)
    ensures
        r == (match number_view(*n) {
            NumberView::Int(i) => if 0 <= i <= u64::MAX {
                Some(i as u64)
            } else {
                None
            },
            NumberView::Float(_) => None,
        }),
{
    n.as_u64()
}

/// `serde_json::Number::is_f64`: whether the number is no integer.
#[verifier::external_body]
pub(crate) fn is_float(n: &serde_json::Number) -> (r: bool)
    ensures
        r == (number_view(*n) is Float),
{
    n.is_f64()
}

proof fn lemma_pair_map(s: Seq<(Seq<char>, JsonView)>, i: int)
    requires
        0 <= i < s.len(),
        forall|a: int, b: int| 0 <= a < b < s.len() ==> (#[trigger] s[a]).0 != (#[trigger] s[b]).0,
    ensures
        pair_map(s).dom().contains(s[i].0),
        pair_map(s)[s[i].0] == s[i].1,
    decreases s.len(),
{
    if i < s.len() - 1 {
        let t = s.drop_last();
        assert(t[i] == s[i]);
        assert forall|a: int, b: int| 0 <= a < b < t.len() implies (#[trigger] t[a]).0 != (#[trigger] t[b]).0 by {
            assert(t[a] == s[a] && t[b] == s[b]);
        }
        lemma_pair_map(t, i);
    }
}

proof fn lemma_pair_map_finite(s: Seq<(Seq<char>, JsonView)>)
    ensures
        pair_map(s).dom().finite(),
    decreases s.len(),
{
    if s.len() > 0 {
        lemma_pair_map_finite(s.drop_last());
    }
}

/// The library's value for an outside one.
fn json_of(v: &serde_json::Value) -> (r: Json)
    ensures
        r@ == value_view(*v),
    decreases value_view(*v),
{
    match peek(v) {
        Peek::Null => Json::Null,
        Peek::Bool(b) => Json::Bool(b),
        Peek::Number(n) => Json::Number(same_number(n)),
        Peek::Text(s) => Json::Text(s.clone()),
        Peek::List(a) => {
            let mut out: Vec<Json> = Vec::new();
            let mut i: usize = 0;
            while i < a.len()
                invariant
                    i <= a@.len(),
                    value_view(*v) == JsonView::List(value_list(a@)),
                    out@.len() == i,
                    forall|j: int| 0 <= j < i ==> (#[trigger] out@[j])@ == value_view(a@[j]),
                decreases a@.len() - i,
            {
                assert(value_list(a@)[i as int] == value_view(a@[i as int]));
                assert(decreases_to!(value_view(*v) => value_view(*v)->List_0));
                assert(decreases_to!(value_list(a@) => value_list(a@)[i as int]));
                out.push(json_of(&a[i]));
                i += 1;
            }
            let r = Json::List(out);
            assert(r@->List_0 =~= value_list(a@));
            r
        },
        Peek::Object(s) => {
            let ghost pairs = borrowed_pairs(s@);
            let mut out: TextMap<Json> = TextMap::new();
            let mut i: usize = 0;
            assert(json_view(Json::Object(out))->Object_0 =~= pair_map(pairs.take(0)));
            while i < s.len()
                invariant
                    i <= s@.len(),
                    pairs == borrowed_pairs(s@),
                    value_view(*v) == JsonView::Object(pair_map(pairs)),
                    forall|a: int, b: int| 0 <= a < b < pairs.len() ==> (#[trigger] pairs[a]).0 != (#[trigger] pairs[b]).0,
                    json_view(Json::Object(out)) == JsonView::Object(pair_map(pairs.take(i as int))),
                decreases s@.len() - i,
            {
                proof {
                    lemma_pair_map(pairs, i as int);
                    lemma_pair_map_finite(pairs);
                    assert(decreases_to!(value_view(*v) => value_view(*v)->Object_0));
                    assert(decreases_to!(pair_map(pairs) => pair_map(pairs)[pairs[i as int].0]));
                }
                let x = json_of(s[i].1);
                let ghost prior = out;
                out.insert(s[i].0.clone(), x);
                i += 1;
                proof {
                    assert(pairs.take(i as int).drop_last() =~= pairs.take(i - 1));
                    assert(json_view(Json::Object(out))->Object_0 =~= json_view(Json::Object(prior))->Object_0.insert(
                        pairs[i - 1].0,
                        pairs[i - 1].1,
                    ));
                }
            }
            assert(pairs.take(pairs.len() as int) =~= pairs);
            Json::Object(out)
        },
    }
}

/// The outside value for the library's.
fn value_of(j: &Json) -> (r: serde_json::Value)
    ensures
        value_view(r) == j@,
    decreases j,
{
    match j {
        Json::Null => assemble(Parts::Null),
        Json::Bool(b) => assemble(Parts::Bool(*b)),
        Json::Number(n) => assemble(Parts::Number(same_number(n))),
        Json::Text(s) => assemble(Parts::Text(s.clone())),
        Json::List(v) => {
            let mut out: Vec<serde_json::Value> = Vec::new();
            let mut i: usize = 0;
            while i < v.len()
                invariant
                    i <= v@.len(),
                    *j == Json::List(*v),
                    out@.len() == i,
                    forall|k: int| 0 <= k < i ==> value_view(#[trigger] out@[k]) == v@[k]@,
                decreases v@.len() - i,
            {
                assert(decreases_to!(j => v@[i as int])) by {
                    assert(decreases_to!(*j => j->List_0));
                    assert(decreases_to!(v => v@));
                }
                out.push(value_of(&v[i]));
                i += 1;
            }
            assert(value_list(out@) =~= j@->List_0);
            assemble(Parts::List(out))
        },
        Json::Object(m) => {
            let mut out: Vec<(String, serde_json::Value)> = Vec::new();
            let mut i: usize = 0;
            let n: usize = m.len();
            assert(owned_pairs(out@) =~= Seq::empty());
            while i < n
                invariant
                    i <= n,
                    n == m.keys().len(),
                    *j == Json::Object(*m),
                    m.keys().to_set() == m@.dom(),
                    out@.len() == i,
                    forall|k: int| 0 <= k < i ==> (#[trigger] out@[k]).0@ == m.keys()[k] && value_view(
                        out@[k].1,
                    ) == m@[m.keys()[k]]@,
                    forall|k: Seq<char>| pair_map(owned_pairs(out@)).dom().contains(k)
                        <==> m.keys().take(i as int).contains(k),
                    forall|k: Seq<char>|
                        #[trigger] pair_map(owned_pairs(out@)).dom().contains(k)
                            ==> pair_map(owned_pairs(out@))[k] == m@[k]@,
                decreases n - i,
            {
                let (k, x) = m.at(i);
                proof {
                    m.lemma_value_decreases(k@);
                    assert(decreases_to!(*j => j->Object_0));
                    text::lemma_take_more(m.keys(), i + 1);
                }
                let ghost prior = owned_pairs(out@);
                out.push((k.clone(), value_of(x)));
                i += 1;
                proof {
                    assert(owned_pairs(out@).drop_last() =~= prior);
                                    }
            }
            proof {
                assert(m.keys().take(n as int) =~= m.keys());
                assert forall|k: Seq<char>| m.keys().contains(k) <==> m@.dom().contains(k) by {
                    assert(m.keys().to_set().contains(k) <==> m.keys().contains(k));
                }
                assert(pair_map(owned_pairs(out@)) =~= j@->Object_0);
            }
            assemble(Parts::Object(out))
        },
    }
}

impl Json {
    /// Read a JSON text; the error is in the reader's words.
    pub fn parse(text: &str) -> (r: Result<Json, String>)
        ensures
            match r {
                Ok(j) => json_parse(text@) == read(j@),
                Err(e) => json_parse(text@) == unread(e@),
            },
    {
        match parse_value(text) {
            Ok(v) => Ok(json_of(&v)),
            Err(e) => Err(e),
        }
    }

    /// The compact JSON text.
    pub fn to_text(&self) -> (r: String)
        ensures
            r@ == json_text(self@),
            nests_within(self@, 127) ==> json_parse(r@) == read(self@),
    {
        value_text(&value_of(self))
    }

    /// A string value.
    pub fn text(s: &str) -> (r: Json)
        ensures
            r@ == JsonView::Text(s@),
    {
        Json::Text(s.to_string())
    }

    /// A string value out of a string.
    pub fn string(s: String) -> (r: Json)
        ensures
            r@ == JsonView::Text(s@),
    {
        Json::Text(s)
    }

    /// An integer value.
    pub fn uint(n: u64) -> (r: Json)
        ensures
            r@ == JsonView::Number(NumberView::Int(n as int)),
    {
        Json::Number(number_from_u64(n))
    }

    /// An integer value that may be negative.
    pub fn integer(n: i64) -> (r: Json)
        ensures
            r@ == JsonView::Number(NumberView::Int(n as int)),
    {
        Json::Number(number_from_i64(n))
    }

    /// The member `key` of an object.
    pub fn get(&self, key: &str) -> (r: Option<&Json>)
        ensures
            r matches Some(v) ==> member(self@, key@) == Some(v@),
            r is None ==> member(self@, key@) is None,
    {
        match self {
            Json::Object(m) => m.get(key),
            _ => None,
        }
    }

    /// The text of a string value.
    pub fn as_str(&self) -> (r: Option<&str>)
        ensures
            r matches Some(s) ==> self@ == JsonView::Text(s@),
            r is None ==> !(self@ is Text),
    {
        match self {
            Json::Text(s) => Some(s.as_str()),
            _ => None,
        }
    }

    /// The integer of a number value, where it is one that fits.
    pub fn as_u64(&self) -> (r: Option<u64>)
        ensures
            r == natural(self@),
    {
        match self {
            Json::Number(n) => number_as_u64(n),
            _ => None,
        }
    }
}

/// The member `key` of an object; none of a value that is no object.
pub open spec fn member(v: JsonView, key: Seq<char>) -> Option<JsonView> {
    match v {
        JsonView::Object(m) => if m.dom().contains(key) {
            Some(m[key])
        } else {
            None
        },
        _ => None,
    }
}

/// The integer that `v` is, where it is one of 64 bits without a sign.
pub open spec fn natural(v: JsonView) -> Option<u64> {
    match v {
        JsonView::Number(NumberView::Int(i)) => if 0 <= i <= u64::MAX {
            Some(i as u64)
        } else {
            None
        },
        _ => None,
    }
}

impl Clone for Json {
    fn clone(&self) -> (r: Json)
        ensures
            r@ == self@,
        decreases self,
    {
        match self {
            Json::Null => Json::Null,
            Json::Bool(b) => Json::Bool(*b),
            Json::Number(n) => Json::Number(same_number(n)),
            Json::Text(s) => Json::Text(s.clone()),
            Json::List(v) => {
                let mut out: Vec<Json> = Vec::new();
                let mut i: usize = 0;
                while i < v.len()
                    invariant
                        i <= v@.len(),
                        *self == Json::List(*v),
                        out@.len() == i,
                        forall|k: int| 0 <= k < i ==> (#[trigger] out@[k])@ == v@[k]@,
                    decreases v@.len() - i,
                {
                    assert(decreases_to!(self => v@[i as int])) by {
                        assert(decreases_to!(*self => self->List_0));
                        assert(decreases_to!(v => v@));
                    }
                    out.push((&v[i]).clone());
                    i += 1;
                }
                let r = Json::List(out);
                assert(r@->List_0 =~= self@->List_0);
                r
            },
            Json::Object(m) => {
                let mut out: TextMap<Json> = TextMap::new();
                let mut i: usize = 0;
                let n: usize = m.len();
                while i < n
                    invariant
                        i <= n,
                        n == m.keys().len(),
                        *self == Json::Object(*m),
                        m.keys().to_set() == m@.dom(),
                        forall|k: Seq<char>| out@.dom().contains(k) <==> m.keys().take(i as int).contains(k),
                        forall|k: Seq<char>| #[trigger] out@.dom().contains(k) ==> out@[k]@ == m@[k]@,
                    decreases n - i,
                {
                    let (k, x) = m.at(i);
                    proof {
                        m.lemma_value_decreases(k@);
                        assert(decreases_to!(*self => self->Object_0));
                        text::lemma_take_more(m.keys(), i + 1);
                    }
                    out.insert(k.clone(), x.clone());
                    i += 1;
                }
                let r = Json::Object(out);
                proof {
                    assert(m.keys().take(n as int) =~= m.keys());
                    assert forall|k: Seq<char>| m.keys().contains(k) <==> m@.dom().contains(k) by {
                        assert(m.keys().to_set().contains(k) <==> m.keys().contains(k));
                    }
                    assert(r@->Object_0 =~= self@->Object_0);
                }
                r
            },
        }
    }
}

} // verus!
