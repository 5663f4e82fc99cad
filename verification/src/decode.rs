//! Reading plain fields out of JSON values, with the words used when a value
//! does not fit.

use vstd::prelude::*;
use vstd::string::*;
use crate::json;
use crate::json::{Json, JsonView, NumberView};
use crate::text;
use crate::text_map;
use crate::text_map::TextMap;

verus! {

/// The quoted form of a text that `{:?}` of std writes for it.
pub uninterp spec fn quoted_text(s: Seq<char>) -> Seq<char>;

/// `{:?}` of std on a string slice, which is named.
#[verifier::external_body]
fn quoted(s: &str) -> (r: String)
    ensures
        r@ == quoted_text(s@),
{
    format!("{:?}", s)
}

/// How a value that does not fit is spoken of.
pub open spec fn kind_text(v: JsonView) -> Seq<char> {
    match v {
        JsonView::Null => "null"@,
        JsonView::Bool(b) => if b {
            "boolean `true`"@
        } else {
            "boolean `false`"@
        },
        JsonView::Number(NumberView::Int(_)) => "integer `"@ + json::json_text(v) + "`"@,
        JsonView::Number(NumberView::Float(_)) => "floating point `"@ + json::json_text(v) + "`"@,
        JsonView::Text(s) => "string "@ + quoted_text(s),
        JsonView::List(_) => "sequence"@,
        JsonView::Object(_) => "map"@,
    }
}

/// The complaint about a value of the wrong kind.
pub open spec fn wrong_kind(v: JsonView, want: Seq<char>) -> Seq<char> {
    "invalid type: "@ + kind_text(v) + ", expected "@ + want
}

/// The complaint about an object without a field that it must have.
pub open spec fn missing(name: Seq<char>) -> Seq<char> {
    "missing field `"@ + name + "`"@
}

/// A string.
pub open spec fn text_of(v: JsonView) -> Result<Seq<char>, Seq<char>> {
    match v {
        JsonView::Text(s) => Ok(s),
        _ => Err(wrong_kind(v, "a string"@)),
    }
}

/// A string, or none for `null`.
pub open spec fn opt_text_of(v: JsonView) -> Result<Option<Seq<char>>, Seq<char>> {
    match v {
        JsonView::Null => Ok(None),
        _ => match text_of(v) {
            Ok(s) => Ok(Some(s)),
            Err(e) => Err(e),
        },
    }
}

/// A natural number of 64 bits.
pub open spec fn natural_of(v: JsonView) -> Result<u64, Seq<char>> {
    match json::natural(v) {
        Some(n) => Ok(n),
        None => if v matches JsonView::Number(NumberView::Int(_)) {
            Err("invalid value: "@ + kind_text(v) + ", expected u64"@)
        } else {
            Err(wrong_kind(v, "u64"@))
        },
    }
}

/// A natural number, or none for `null`.
pub open spec fn opt_natural_of(v: JsonView) -> Result<Option<u64>, Seq<char>> {
    match v {
        JsonView::Null => Ok(None),
        _ => match natural_of(v) {
            Ok(n) => Ok(Some(n)),
            Err(e) => Err(e),
        },
    }
}

/// The strings among the first `n` members of a list; the complaint about the
/// first that is no string.
pub open spec fn texts_upto(s: Seq<JsonView>, n: nat) -> Result<Seq<Seq<char>>, Seq<char>>
    decreases n,
{
    if n == 0 {
        Ok(Seq::empty())
    } else {
        match texts_upto(s, (n - 1) as nat) {
            Err(e) => Err(e),
            Ok(done) => match text_of(s[n - 1]) {
                Ok(t) => Ok(done.push(t)),
                Err(e) => Err(e),
            },
        }
    }
}

/// A list of strings.
pub open spec fn texts_of(v: JsonView) -> Result<Seq<Seq<char>>, Seq<char>> {
    match v {
        JsonView::List(s) => texts_upto(s, s.len()),
        _ => Err(wrong_kind(v, "a sequence"@)),
    }
}

/// The strings under the first `n` of `keys`; the complaint about the first
/// that is no string.
pub open spec fn labels_upto(m: Map<Seq<char>, JsonView>, keys: Seq<Seq<char>>, n: nat) -> Result<
    Map<Seq<char>, Seq<char>>,
    Seq<char>,
>
    decreases n,
{
    if n == 0 {
        Ok(Map::empty())
    } else {
        match labels_upto(m, keys, (n - 1) as nat) {
            Err(e) => Err(e),
            Ok(done) => match text_of(m[keys[n - 1]]) {
                Ok(t) => Ok(done.insert(keys[n - 1], t)),
                Err(e) => Err(e),
            },
        }
    }
}

/// An object whose members are strings.
pub open spec fn labels_of(v: JsonView) -> Result<Map<Seq<char>, Seq<char>>, Seq<char>> {
    match v {
        JsonView::Object(m) => {
            let keys = text_map::sorted_keys(m);
            labels_upto(m, keys, keys.len())
        },
        _ => Err(wrong_kind(v, "a map"@)),
    }
}

/// The texts of a map of strings.
pub open spec fn labels(m: Map<Seq<char>, String>) -> Map<Seq<char>, Seq<char>> {
    m.map_values(|s: String| s@)
}

fn kind(v: &Json) -> (r: String)
    ensures
        r@ == kind_text(v@),
{
    match v {
        Json::Null => "null".to_string(),
        Json::Bool(b) => if *b {
            "boolean `true`".to_string()
        } else {
            "boolean `false`".to_string()
        },
        Json::Number(n) => {
            let mut s = if !json::is_float(n) {
                "integer `".to_string()
            } else {
                "floating point `".to_string()
            };
            s.append(v.to_text().as_str());
            s.append("`");
            s
        },
        Json::Text(t) => text::cat("string ", quoted(t.as_str()).as_str()),
        Json::List(_) => "sequence".to_string(),
        Json::Object(_) => "map".to_string(),
    }
}

/// See `wrong_kind`.
pub fn complain(v: &Json, want: &str) -> (r: String)
    ensures
        r@ == wrong_kind(v@, want@),
{
    let mut s = text::cat("invalid type: ", kind(v).as_str());
    s.append(", expected ");
    s.append(want);
    s
}

/// See `missing`.
pub fn complain_missing(name: &str) -> (r: String)
    ensures
        r@ == missing(name@),
{
    let mut s = text::cat("missing field `", name);
    s.append("`");
    s
}

/// See `text_of`.
pub fn text(v: &Json) -> (r: Result<String, String>)
    ensures
        match r {
            Ok(s) => text_of(v@) == Ok::<Seq<char>, Seq<char>>(s@),
            Err(e) => text_of(v@) == Err::<Seq<char>, Seq<char>>(e@),
        },
{
    match v {
        Json::Text(s) => Ok(s.clone()),
        _ => Err(complain(v, "a string")),
    }
}

/// See `opt_text_of`.
pub fn opt_text(v: &Json) -> (r: Result<Option<String>, String>)
    ensures
        match r {
            Ok(s) => opt_text_of(v@) == Ok::<Option<Seq<char>>, Seq<char>>(text::opt(s)),
            Err(e) => opt_text_of(v@) == Err::<Option<Seq<char>>, Seq<char>>(e@),
        },
{
    match v {
        Json::Null => Ok(None),
        _ => match text(v) {
            Ok(s) => Ok(Some(s)),
            Err(e) => Err(e),
        },
    }
}

/// See `opt_natural_of`.
pub fn opt_natural(v: &Json) -> (r: Result<Option<u64>, String>)
    ensures
        match r {
            Ok(n) => opt_natural_of(v@) == Ok::<Option<u64>, Seq<char>>(n),
            Err(e) => opt_natural_of(v@) == Err::<Option<u64>, Seq<char>>(e@),
        },
{
    match v {
        Json::Null => Ok(None),
        Json::Number(n) => match v.as_u64() {
            Some(k) => Ok(Some(k)),
            None => if !json::is_float(n) {
                let mut s = text::cat("invalid value: ", kind(v).as_str());
                s.append(", expected u64");
                Err(s)
            } else {
                Err(complain(v, "u64"))
            },
        },
        _ => Err(complain(v, "u64")),
    }
}

/// See `texts_of`.
pub fn texts(v: &Json) -> (r: Result<Vec<String>, String>)
    ensures
        match r {
            Ok(s) => texts_of(v@) == Ok::<Seq<Seq<char>>, Seq<char>>(text::strs(s@)),
            Err(e) => texts_of(v@) == Err::<Seq<Seq<char>>, Seq<char>>(e@),
        },
{
    match v {
        Json::List(items) => {
            let ghost s = v@->List_0;
            let mut out: Vec<String> = Vec::new();
            let mut i: usize = 0;
            assert(text::strs(out@) =~= Seq::empty());
            while i < items.len()
                invariant
                    i <= items@.len(),
                    v@ == JsonView::List(s),
                    s.len() == items@.len(),
                    forall|k: int| 0 <= k < s.len() ==> #[trigger] s[k] == items@[k]@,
                    texts_upto(s, i as nat) == Ok::<Seq<Seq<char>>, Seq<char>>(text::strs(out@)),
                decreases items@.len() - i,
            {
                match text(&items[i]) {
                    Ok(t) => {
                        let ghost prior = text::strs(out@);
                        out.push(t);
                        assert(text::strs(out@) =~= prior.push(t@));
                    },
                    Err(e) => {
                        proof {
                            lemma_texts_error(s, (i + 1) as nat, s.len());
                        }
                        return Err(e);
                    },
                }
                i += 1;
            }
            Ok(out)
        },
        _ => Err(complain(v, "a sequence")),
    }
}

proof fn lemma_texts_error(s: Seq<JsonView>, n: nat, m: nat)
    requires
        n <= m,
        texts_upto(s, n) is Err,
    ensures
        texts_upto(s, m) == texts_upto(s, n),
    decreases m,
{
    if n < m {
        lemma_texts_error(s, n, (m - 1) as nat);
    }
}

proof fn lemma_labels_error(m: Map<Seq<char>, JsonView>, keys: Seq<Seq<char>>, a: nat, b: nat)
    requires
        a <= b,
        labels_upto(m, keys, a) is Err,
    ensures
        labels_upto(m, keys, b) == labels_upto(m, keys, a),
    decreases b,
{
    if a < b {
        lemma_labels_error(m, keys, a, (b - 1) as nat);
    }
}

/// See `labels_of`.
pub fn label_map(v: &Json) -> (r: Result<TextMap<String>, String>)
    ensures
        match r {
            Ok(m) => labels_of(v@) == Ok::<Map<Seq<char>, Seq<char>>, Seq<char>>(labels(m@)),
            Err(e) => labels_of(v@) == Err::<Map<Seq<char>, Seq<char>>, Seq<char>>(e@),
        },
{
    match v {
        Json::Object(o) => {
            let ghost m = v@->Object_0;
            let mut out: TextMap<String> = TextMap::new();
            let n: usize = o.len();
            let mut i: usize = 0;
            assert(labels(out@) =~= Map::empty());
            assert(m.dom() =~= o@.dom());
            proof {
                text_map::lemma_ascending_unique(o.keys(), text_map::sorted_keys(m));
            }
            while i < n
                invariant
                    i <= n,
                    n == o.keys().len(),
                    v@ == JsonView::Object(m),
                    m.dom() == o@.dom(),
                    o.keys() == text_map::sorted_keys(m),
                    forall|k: Seq<char>| #[trigger] o@.dom().contains(k) ==> m[k] == o@[k]@,
                    labels_upto(m, o.keys(), i as nat) == Ok::<Map<Seq<char>, Seq<char>>, Seq<char>>(
                        labels(out@),
                    ),
                decreases n - i,
            {
                let (k, x) = o.at(i);
                match text(x) {
                    Ok(t) => {
                        let ghost prior = labels(out@);
                        let ghost tv = t@;
                        out.insert(k.clone(), t);
                        assert(labels(out@) =~= prior.insert(k@, tv));
                    },
                    Err(e) => {
                        proof {
                            lemma_labels_error(m, o.keys(), (i + 1) as nat, o.keys().len());
                        }
                        return Err(e);
                    },
                }
                i += 1;
            }
            Ok(out)
        },
        _ => Err(complain(v, "a map")),
    }
}

/// A value that may be missing, as a mathematical value.
pub open spec fn seen(o: Option<&Json>) -> Option<JsonView> {
    match o {
        Some(x) => Some(x@),
        None => None,
    }
}

/// The string in a field, where there is such a field.
pub open spec fn text_in(o: Option<JsonView>) -> Result<Option<Seq<char>>, Seq<char>> {
    match o {
        None => Ok(None),
        Some(x) => match text_of(x) {
            Ok(s) => Ok(Some(s)),
            Err(e) => Err(e),
        },
    }
}

/// The string in a field; none where there is no such field or it is `null`.
pub open spec fn opt_text_in(o: Option<JsonView>) -> Result<Option<Seq<char>>, Seq<char>> {
    match o {
        None => Ok(None),
        Some(x) => opt_text_of(x),
    }
}

/// The number in a field; none where there is no such field or it is `null`.
pub open spec fn opt_natural_in(o: Option<JsonView>) -> Result<Option<u64>, Seq<char>> {
    match o {
        None => Ok(None),
        Some(x) => opt_natural_of(x),
    }
}

/// The strings in a field; none where there is no such field.
pub open spec fn texts_in(o: Option<JsonView>) -> Result<Seq<Seq<char>>, Seq<char>> {
    match o {
        None => Ok(Seq::empty()),
        Some(x) => texts_of(x),
    }
}

/// The labels in a field; none where there is no such field.
pub open spec fn labels_in(o: Option<JsonView>) -> Result<Map<Seq<char>, Seq<char>>, Seq<char>> {
    match o {
        None => Ok(Map::empty()),
        Some(x) => labels_of(x),
    }
}

/// See `text_in`.
pub fn text_field(o: Option<&Json>) -> (r: Result<Option<String>, String>)
    ensures
        match r {
            Ok(s) => text_in(seen(o)) == Ok::<Option<Seq<char>>, Seq<char>>(text::opt(s)),
            Err(e) => text_in(seen(o)) == Err::<Option<Seq<char>>, Seq<char>>(e@),
        },
{
    match o {
        None => Ok(None),
        Some(x) => match text(x) {
            Ok(s) => Ok(Some(s)),
            Err(e) => Err(e),
        },
    }
}

/// See `opt_text_in`.
pub fn opt_text_field(o: Option<&Json>) -> (r: Result<Option<String>, String>)
    ensures
        match r {
            Ok(s) => opt_text_in(seen(o)) == Ok::<Option<Seq<char>>, Seq<char>>(text::opt(s)),
            Err(e) => opt_text_in(seen(o)) == Err::<Option<Seq<char>>, Seq<char>>(e@),
        },
{
    match o {
        None => Ok(None),
        Some(x) => opt_text(x),
    }
}

/// See `opt_natural_in`.
pub fn opt_natural_field(o: Option<&Json>) -> (r: Result<Option<u64>, String>)
    ensures
        match r {
            Ok(n) => opt_natural_in(seen(o)) == Ok::<Option<u64>, Seq<char>>(n),
            Err(e) => opt_natural_in(seen(o)) == Err::<Option<u64>, Seq<char>>(e@),
        },
{
    match o {
        None => Ok(None),
        Some(x) => opt_natural(x),
    }
}

/// See `texts_in`.
pub fn texts_field(o: Option<&Json>) -> (r: Result<Vec<String>, String>)
    ensures
        match r {
            Ok(s) => texts_in(seen(o)) == Ok::<Seq<Seq<char>>, Seq<char>>(text::strs(s@)),
            Err(e) => texts_in(seen(o)) == Err::<Seq<Seq<char>>, Seq<char>>(e@),
        },
{
    match o {
        None => {
            let none: Vec<String> = Vec::new();
            assert(text::strs(none@) =~= Seq::empty());
            Ok(none)
        },
        Some(x) => texts(x),
    }
}

/// See `labels_in`.
pub fn labels_field(o: Option<&Json>) -> (r: Result<TextMap<String>, String>)
    ensures
        match r {
            Ok(m) => labels_in(seen(o)) == Ok::<Map<Seq<char>, Seq<char>>, Seq<char>>(labels(m@)),
            Err(e) => labels_in(seen(o)) == Err::<Map<Seq<char>, Seq<char>>, Seq<char>>(e@),
        },
{
    match o {
        None => {
            let none: TextMap<String> = TextMap::new();
            assert(labels(none@) =~= Map::empty());
            Ok(none)
        },
        Some(x) => label_map(x),
    }
}

/// The values of a list.
pub open spec fn items(s: Seq<Json>) -> Seq<JsonView> {
    Seq::new(s.len(), |i: int| s[i]@)
}

/// The item at `i`, where the list is long enough.
pub open spec fn item(s: Seq<JsonView>, i: int) -> Option<JsonView> {
    if 0 <= i < s.len() {
        Some(s[i])
    } else {
        None
    }
}

/// The complaint about a list that ends, or goes on, where it may not.
pub open spec fn wrong_length(n: nat, want: Seq<char>) -> Seq<char> {
    "invalid length "@ + text::decimal_text(n) + ", expected "@ + want
}

/// The complaint about a list that has more items than there are fields.
pub open spec fn too_long(n: nat) -> Seq<char> {
    wrong_length(n, "fewer elements in array"@)
}

/// See `item`.
pub fn at<'a>(v: &'a Vec<Json>, i: usize) -> (r: Option<&'a Json>)
    ensures
        seen(r) == item(items(v@), i as int),
{
    if i < v.len() {
        assert(items(v@)[i as int] == v@[i as int]@);
        Some(&v[i])
    } else {
        None
    }
}

/// See `wrong_length`.
pub fn complain_length(n: usize, want: &str) -> (r: String)
    ensures
        r@ == wrong_length(n as nat, want@),
{
    let mut s = text::cat("invalid length ", text::decimal(n as u64).as_str());
    s.append(", expected ");
    s.append(want);
    s
}

} // verus!
