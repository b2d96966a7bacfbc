//! A JSON value as the catalogue logic reads it (`ports.json`, release
//! descriptions of the GitHub and GitLab APIs), and its mathematical model.

use crate::numbers::{is_digit, digits_value, parse_u64, parsed_u64};
use crate::text::{chars_of, lemma_stop_index_bounds, same_text, stop_index};
use vstd::prelude::*;

verus! {

/// A JSON number, by its literal text (as `serde_json` prints it).
#[derive(Debug, PartialEq)]
pub struct JsonNumber {
    pub literal: String,
}

/// A JSON value. Object members keep their order; a lookup finds the first
/// member with the key.
#[derive(Debug, PartialEq)]
pub enum JsonValue {
    Null,
    Bool(bool),
    Number(JsonNumber),
    String(String),
    Array(Vec<JsonValue>),
    Object(Vec<(String, JsonValue)>),
}

/// The mathematical model of a JSON value.
pub enum JsonModel {
    Null,
    Bool(bool),
    Number(Seq<char>),
    Text(Seq<char>),
    Array(Seq<JsonModel>),
    Object(Seq<(Seq<char>, JsonModel)>),
}

pub open spec fn models_of(s: Seq<JsonValue>) -> Seq<JsonModel>
    decreases s,
{
    if s.len() == 0 {
        Seq::empty()
    } else {
        seq![s[0].model()] + models_of(s.subrange(1, s.len() as int))
    }
}

pub open spec fn members_of(s: Seq<(String, JsonValue)>) -> Seq<(Seq<char>, JsonModel)>
    decreases s,
{
    if s.len() == 0 {
        Seq::empty()
    } else {
        seq![(s[0].0@, s[0].1.model())] + members_of(s.subrange(1, s.len() as int))
    }
}

impl JsonValue {
    pub open spec fn model(self) -> JsonModel
        decreases self,
    {
        match self {
            JsonValue::Null => JsonModel::Null,
            JsonValue::Bool(b) => JsonModel::Bool(b),
            JsonValue::Number(n) => JsonModel::Number(n.literal@),
            JsonValue::String(s) => JsonModel::Text(s@),
            JsonValue::Array(v) => JsonModel::Array(models_of(v@)),
            JsonValue::Object(m) => JsonModel::Object(members_of(m@)),
        }
    }
}


/// The first member of `members` named `key`.
pub open spec fn member(members: Seq<(Seq<char>, JsonModel)>, key: Seq<char>) -> Option<JsonModel>
    decreases members.len(),
{
    if members.len() == 0 {
        None
    } else if members[0].0 == key {
        Some(members[0].1)
    } else {
        member(members.drop_first(), key)
    }
}

/// `v.get(key)`: the member `key` of an object; `None` for anything else.
pub open spec fn get_model(v: JsonModel, key: Seq<char>) -> Option<JsonModel> {
    match v {
        JsonModel::Object(m) => member(m, key),
        _ => None,
    }
}

/// `v.as_str()`.
pub open spec fn text_of(v: JsonModel) -> Option<Seq<char>> {
    match v {
        JsonModel::Text(s) => Some(s),
        _ => None,
    }
}

/// `v.get(key).and_then(as_str)`.
pub open spec fn text_field(v: JsonModel, key: Seq<char>) -> Option<Seq<char>> {
    match get_model(v, key) {
        Some(f) => text_of(f),
        None => None,
    }
}

/// A number literal is not zero: a digit other than `0` comes before its
/// exponent.
pub open spec fn literal_nonzero(lit: Seq<char>) -> bool {
    exists|i: int| 0 <= i < stop_index(lit, seq!['e', 'E']) && '1' <= #[trigger] lit[i] <= '9'
}

/// JavaScript-style truthiness: null, false, zero and empty strings, arrays and
/// objects are false.
pub open spec fn truthy(v: JsonModel) -> bool {
    match v {
        JsonModel::Null => false,
        JsonModel::Bool(b) => b,
        JsonModel::Number(lit) => literal_nonzero(lit),
        JsonModel::Text(s) => s.len() > 0,
        JsonModel::Array(a) => a.len() > 0,
        JsonModel::Object(o) => o.len() > 0,
    }
}

/// `v.as_u64()`: a number written as digits alone whose value fits in 64
/// bits.
pub open spec fn u64_of(v: JsonModel) -> Option<nat> {
    match v {
        JsonModel::Number(lit) => if lit.len() > 0 && lit[0] != '+' {
            parsed_u64(lit)
        } else {
            None
        },
        _ => None,
    }
}

/// `v.as_bool()`.
pub open spec fn bool_of(v: JsonModel) -> Option<bool> {
    match v {
        JsonModel::Bool(b) => Some(b),
        _ => None,
    }
}

pub proof fn lemma_models_of(s: Seq<JsonValue>)
    ensures
        models_of(s).len() == s.len(),
        forall|i: int| 0 <= i < s.len() ==> #[trigger] models_of(s)[i] == s[i].model(),
    decreases s.len(),
{
    if s.len() > 0 {
        let t = s.subrange(1, s.len() as int);
        lemma_models_of(t);
        assert forall|i: int| 0 <= i < s.len() implies #[trigger] models_of(s)[i] == s[i].model() by {
            if i > 0 {
                assert(models_of(s)[i] == models_of(t)[i - 1]);
                assert(t[i - 1] == s[i]);
            }
        }
    }
}

pub proof fn lemma_members_of(s: Seq<(String, JsonValue)>)
    ensures
        members_of(s).len() == s.len(),
        forall|i: int| 0 <= i < s.len() ==> #[trigger] members_of(s)[i] == (s[i].0@, s[i].1.model()),
    decreases s.len(),
{
    if s.len() > 0 {
        let t = s.subrange(1, s.len() as int);
        lemma_members_of(t);
        assert forall|i: int| 0 <= i < s.len() implies #[trigger] members_of(s)[i] == (s[i].0@, s[i].1.model()) by {
            if i > 0 {
                assert(members_of(s)[i] == members_of(t)[i - 1]);
                assert(t[i - 1] == s[i]);
            }
        }
    }
}

/// `member` finds the first member with the key.
pub proof fn lemma_member_first(members: Seq<(Seq<char>, JsonModel)>, key: Seq<char>, i: int)
    requires
        0 <= i <= members.len(),
        forall|j: int| 0 <= j < i ==> #[trigger] members[j].0 != key,
    ensures
        i < members.len() && members[i].0 == key ==> member(members, key) == Some(members[i].1),
        i == members.len() ==> member(members, key) is None,
    decreases i,
{
    if i > 0 {
        let t = members.drop_first();
        assert forall|j: int| 0 <= j < i - 1 implies #[trigger] t[j].0 != key by {
            assert(t[j] == members[j + 1]);
        }
        lemma_member_first(t, key, i - 1);
    }
}

impl JsonValue {
    /// A copy of this value (same model).
    #[verifier::loop_isolation(false)]
    pub fn duplicate(&self) -> (r: JsonValue)
        ensures
            r.model() == self.model(),
        decreases self,
    {
        match self {
            JsonValue::Null => JsonValue::Null,
            JsonValue::Bool(b) => JsonValue::Bool(*b),
            JsonValue::Number(n) => JsonValue::Number(JsonNumber { literal: n.literal.clone() }),
            JsonValue::String(s) => JsonValue::String(s.clone()),
            JsonValue::Array(v) => {
                let mut out: Vec<JsonValue> = Vec::new();
                let mut i: usize = 0;
                while i < v.len()
                    invariant
                        i <= v@.len(),
                        out@.len() == i,
                        forall|j: int| 0 <= j < i ==> #[trigger] out@[j].model() == v@[j].model(),
                    decreases v@.len() - i,
                {
                    proof {
                        assert(decreases_to!(*v => v[i as int]));
                    }
                    let e = v[i].duplicate();
                    out.push(e);
                    i = i + 1;
                }
                proof {
                    lemma_models_of(v@);
                    lemma_models_of(out@);
                    assert(models_of(out@) =~= models_of(v@));
                }
                JsonValue::Array(out)
            },
            JsonValue::Object(m) => {
                let mut out: Vec<(String, JsonValue)> = Vec::new();
                let mut i: usize = 0;
                while i < m.len()
                    invariant
                        i <= m@.len(),
                        out@.len() == i,
                        forall|j: int|
                            #![trigger out@[j]]
                            0 <= j < i ==> out@[j].0@ == m@[j].0@ && out@[j].1.model() == m@[j].1.model(),
                    decreases m@.len() - i,
                {
                    let k = m[i].0.clone();
                    proof {
                        assert(decreases_to!(*m => m[i as int]));
                        assert(decreases_to!(m[i as int] => m[i as int].1));
                    }
                    let e = m[i].1.duplicate();
                    out.push((k, e));
                    i = i + 1;
                }
                proof {
                    lemma_members_of(m@);
                    lemma_members_of(out@);
                    assert(members_of(out@) =~= members_of(m@));
                }
                JsonValue::Object(out)
            },
        }
    }

    /// The member `key` of an object (the first one with that name); `None`
    /// when there is none or this is not an object.
    #[verifier::loop_isolation(false)]
    pub fn get(&self, key: &str) -> (r: Option<&JsonValue>)
        ensures
            match r {
                Some(v) => get_model(self.model(), key@) == Some(v.model()),
                None => get_model(self.model(), key@) is None,
            },
    {
        match self {
            JsonValue::Object(m) => {
                let ghost members = members_of(m@);
                proof {
                    lemma_members_of(m@);
                }
                let mut i: usize = 0;
                while i < m.len()
                    invariant
                        i <= m@.len(),
                        members == members_of(m@),
                        members.len() == m@.len(),
                        forall|j: int| 0 <= j < m@.len() ==> #[trigger] members[j] == (m@[j].0@, m@[j].1.model()),
                        forall|j: int| 0 <= j < i ==> #[trigger] members[j].0 != key@,
                    decreases m@.len() - i,
                {
                    if same_text(m[i].0.as_str(), key) {
                        proof {
                            lemma_member_first(members, key@, i as int);
                        }
                        return Some(&m[i].1);
                    }
                    i = i + 1;
                }
                proof {
                    lemma_member_first(members, key@, i as int);
                }
                None
            },
            _ => None,
        }
    }

    /// The text of a string value.
    pub fn as_str(&self) -> (r: Option<&str>)
        ensures
            match r {
                Some(s) => text_of(self.model()) == Some(s@),
                None => text_of(self.model()) is None,
            },
    {
        match self {
            JsonValue::String(s) => Some(s.as_str()),
            _ => None,
        }
    }

    /// `get(key).and_then(as_str)`.
    pub fn text_field(&self, key: &str) -> (r: Option<&str>)
        ensures
            match r {
                Some(s) => text_field(self.model(), key@) == Some(s@),
                None => text_field(self.model(), key@) is None,
            },
    {
        match self.get(key) {
            Some(v) => v.as_str(),
            None => None,
        }
    }

    /// The value of a number written as digits alone that fits in 64 bits.
    pub fn as_u64(&self) -> (r: Option<u64>)
        ensures
            match r {
                Some(n) => u64_of(self.model()) == Some(n as nat),
                None => u64_of(self.model()) is None,
            },
    {
        match self {
            JsonValue::Number(n) => {
                let lit = chars_of(n.literal.as_str());
                if lit.len() == 0 || lit[0] == '+' {
                    return None;
                }
                parse_u64(lit.as_slice())
            },
            _ => None,
        }
    }

    /// The value of a boolean.
    pub fn as_bool(&self) -> (r: Option<bool>)
        ensures
            r == bool_of(self.model()),
    {
        match self {
            JsonValue::Bool(b) => Some(*b),
            _ => None,
        }
    }

    pub fn is_object(&self) -> (r: bool)
        ensures
            r == (self.model() is Object),
    {
        matches!(self, JsonValue::Object(_))
    }

    pub fn is_string(&self) -> (r: bool)
        ensures
            r == (self.model() is Text),
    {
        matches!(self, JsonValue::String(_))
    }
}

/// `serde_json::Value`, only carried from the parser to its conversion.
#[verifier::external_type_specification]
#[verifier::external_body]
pub struct ExSerdeValue(serde_json::Value);

/// The model of the value that `serde_json::from_str` reads from `text`
/// (each number by the text `serde_json` prints for it, object members in the
/// order the parser keeps); none when it rejects the text. The JSON grammar
/// and the parser's choices are only named here.
pub uninterp spec fn spec_json_parse(text: Seq<char>) -> Option<JsonModel>;

/// The library's value for a `serde_json::Value`, variant for variant; a
/// number by its `Display` text.
#[verifier::external_body]
fn from_serde(v: &serde_json::Value) -> (r: JsonValue) {
    match v {
        serde_json::Value::Null => JsonValue::Null,
        serde_json::Value::Bool(b) => JsonValue::Bool(*b),
        serde_json::Value::Number(n) => JsonValue::Number(JsonNumber { literal: n.to_string() }),
        serde_json::Value::String(s) => JsonValue::String(s.clone()),
        serde_json::Value::Array(a) => JsonValue::Array(a.iter().map(from_serde).collect()),
        serde_json::Value::Object(m) => JsonValue::Object(m.iter().map(|(k, x)| (k.clone(), from_serde(x))).collect()),
    }
}

/// `serde_json::from_str::<serde_json::Value>(text)`, converted to the
/// library's value; the parser's message when it rejects the text. What it
/// reads is only named (`spec_json_parse`).
#[verifier::external_body]
pub(crate) fn parse_json(text: &str) -> (r: Result<JsonValue, String>)
    ensures
        match r {
            Ok(v) => spec_json_parse(text@) == Some(v.model()),
            Err(_) => spec_json_parse(text@) is None,
        },
{
    match serde_json::from_str::<serde_json::Value>(text) {
        Ok(v) => Ok(from_serde(&v)),
        Err(e) => Err(e.to_string()),
    }
}

/// The text `serde_json::to_string_pretty` writes for a value with model `v`
/// (indented by two spaces, members in their order); the printer's layout is
/// only named here.
pub uninterp spec fn spec_json_pretty(v: JsonModel) -> Seq<char>;

/// A library value as a `serde_json::Value`, variant for variant; a number
/// read back from its text (`null` where `serde_json` cannot read it).
#[verifier::external_body]
fn to_serde(v: &JsonValue) -> serde_json::Value {
    match v {
        JsonValue::Null => serde_json::Value::Null,
        JsonValue::Bool(b) => serde_json::Value::Bool(*b),
        JsonValue::Number(n) => n.literal.parse().map(serde_json::Value::Number).unwrap_or(serde_json::Value::Null),
        JsonValue::String(s) => serde_json::Value::String(s.clone()),
        JsonValue::Array(a) => serde_json::Value::Array(a.iter().map(to_serde).collect()),
        JsonValue::Object(m) => serde_json::Value::Object(m.iter().map(|(k, x)| (k.clone(), to_serde(x))).collect()),
    }
}

/// `serde_json::to_string_pretty` of the value (converted as `to_serde`
/// does): its text is only named (`spec_json_pretty`). Writing a
/// `serde_json::Value` does not fail, its keys being strings; were it to, the
/// text would be empty.
#[verifier::external_body]
pub(crate) fn pretty_json(v: &JsonValue) -> (r: String)
    ensures
        r@ == spec_json_pretty(v.model()),
{
    serde_json::to_string_pretty(&to_serde(v)).unwrap_or_default()
}

/// Whether a number literal is not zero (see `literal_nonzero`).
pub fn literal_is_nonzero(lit: &str) -> (r: bool)
    ensures
        r == literal_nonzero(lit@),
{
    let c = chars_of(lit);
    let mut i: usize = 0;
    proof {
        lemma_stop_index_bounds(c@, seq!['e', 'E']);
    }
    while i < c.len()
        invariant
            i <= c@.len(),
            c@ == lit@,
            0 <= stop_index(c@, seq!['e', 'E']) <= c@.len(),
            i <= stop_index(c@, seq!['e', 'E']),
            forall|j: int| 0 <= j < i ==> !('1' <= #[trigger] c@[j] <= '9'),
            forall|j: int| 0 <= j < stop_index(c@, seq!['e', 'E']) ==> !seq!['e', 'E'].contains(#[trigger] c@[j]),
            stop_index(c@, seq!['e', 'E']) < c@.len() ==> seq!['e', 'E'].contains(c@[stop_index(c@, seq!['e', 'E'])]),
        decreases c@.len() - i,
    {
        let x = c[i];
        if x == 'e' || x == 'E' {
            proof {
                assert(seq!['e', 'E'].contains(x)) by {
                    if x == 'e' {
                        assert(seq!['e', 'E'][0] == x);
                    } else {
                        assert(seq!['e', 'E'][1] == x);
                    }
                }
            }
            return false;
        }
        proof {
            if i == stop_index(c@, seq!['e', 'E']) {
                assert(!seq!['e', 'E'].contains(x)) by {
                    if seq!['e', 'E'].contains(x) {
                        let k = choose|k: int| 0 <= k < 2 && seq!['e', 'E'][k] == x;
                        assert(k == 0 || k == 1);
                    }
                }
            }
        }
        if '1' <= x && x <= '9' {
            return true;
        }
        i = i + 1;
    }
    false
}

/// JavaScript-style truthiness of a JSON value (a number is false when zero).
pub fn is_truthy(v: &JsonValue) -> (r: bool)
    ensures
        r == truthy(v.model()),
{
    proof {
        match v {
            JsonValue::Array(a) => {
                lemma_models_of(a@);
            },
            JsonValue::Object(o) => {
                lemma_members_of(o@);
            },
            _ => {},
        }
    }
    match v {
        JsonValue::Null => false,
        JsonValue::Bool(b) => *b,
        JsonValue::Number(n) => literal_is_nonzero(n.literal.as_str()),
        JsonValue::String(s) => !s.as_str().is_empty(),
        JsonValue::Array(a) => a.len() > 0,
        JsonValue::Object(o) => o.len() > 0,
    }
}

} // verus!
