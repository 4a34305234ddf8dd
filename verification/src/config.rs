//! The display name of the model provider that the configuration selects.
use vstd::prelude::*;
use crate::json::{text_in, Json, JsonNumber};
use vstd::string::StringSliceAdditionalSpecFns;
use toml::Value;

verus! {

/// The longest accepted name, in bytes.
pub const MAX_NAME: usize = 128;

/// A control character (Unicode category Cc).
pub open spec fn is_control(c: char) -> bool {
    (c as u32) <= 0x1f || (0x7f <= (c as u32) <= 0x9f)
}

/// Whether text may be shown as a name: not empty, at most 128 bytes, and
/// without control characters.
pub open spec fn label_ok(text: Seq<char>) -> bool {
    text.len() > 0 && vstd::utf8::encode_utf8(text).len() <= MAX_NAME && forall|i: int|
        0 <= i < text.len() ==> !is_control(#[trigger] text[i])
}

/// The text as a name, when it may be shown.
pub fn label(value: &str) -> (name: Option<String>)
    ensures
        name is Some <==> label_ok(value@),
        name is Some ==> name.unwrap()@ == value@,
{
    if value.is_empty() || value.as_bytes().len() > MAX_NAME {
        return None;
    }
    for c in it: value.chars()
        invariant
            it.seq() == value@,
            forall|j: int| 0 <= j < it.index() ==> !is_control(#[trigger] value@[j]),
    {
        let u = c as u32;
        if u <= 0x1f || (0x7f <= u && u <= 0x9f) {
            proof {
                assert(is_control(value@[it.index() as int]));
            }
            return None;
        }
    }
    Some(value.to_owned())
}

/// The name of the selected provider: the `name` of the entry under
/// `model_providers` that `model_provider` selects, else the selection
/// itself; only a name that may be shown.
pub open spec fn provider_spec(config: Json) -> Option<Seq<char>> {
    match config.at("model_provider"@).text_of() {
        Some(id) => {
            let name = match config.at("model_providers"@).at(id).at("name"@).text_of() {
                Some(n) => n,
                None => id,
            };
            if label_ok(name) {
                Some(name)
            } else {
                None
            }
        },
        None => None,
    }
}

/// A value of a TOML document, as the `toml` crate parses it.
#[verifier::external_type_specification]
#[verifier::external_body]
pub struct ExTomlValue(toml::Value);

/// The document that `toml::from_str::<toml::Value>` reads from a
/// configuration text, in the library's form, or `None` where the text is
/// not a TOML document.
pub uninterp spec fn toml_config(text: Seq<char>) -> Option<Json>;

/// Parses a configuration text with `toml::from_str::<toml::Value>`. The
/// result is a function of the text alone, named `toml_config`; what the
/// TOML grammar makes of a text is not stated here.
#[verifier::external_body]
pub(crate) fn parse_config(text: &str) -> (config: Option<Json>)
    ensures
        config == toml_config(text@),
{
    match toml::from_str::<Value>(text) {
        Ok(value) => Some(toml_json(&value)),
        Err(_) => None,
    }
}

/// A parsed TOML value in the library's form, one variant for one: a string,
/// boolean, array or table as itself, an integer as a number, a float by the
/// bits of its double and a date-time by its TOML text. Nothing is promised
/// of it on its own; `parse_config` names what the two give together.
#[verifier::external_body]
fn toml_json(value: &Value) -> Json {
    match value {
        Value::String(s) => Json::Str(s.clone()),
        Value::Integer(i) => Json::Number(
            JsonNumber { unsigned: u64::try_from(*i).ok(), signed: Some(*i), share_left: None },
        ),
        Value::Float(f) => Json::Float(f.to_bits()),
        Value::Boolean(b) => Json::Bool(*b),
        Value::Datetime(d) => Json::Datetime(d.to_string()),
        Value::Array(items) => Json::Array(items.iter().map(toml_json).collect()),
        Value::Table(t) => Json::Object(t.iter().map(|(k, v)| (k.clone(), toml_json(v))).collect()),
    }
}

/// The name of the provider that a configuration text selects: none where
/// the text is not a TOML document.
pub fn provider_in(text: &str) -> (name: Option<String>)
    ensures
        name is Some <==> (toml_config(text@) is Some && provider_spec(
            toml_config(text@).unwrap(),
        ) is Some),
        name is Some ==> name.unwrap()@ == provider_spec(toml_config(text@).unwrap()).unwrap(),
{
    match parse_config(text) {
        Some(config) => provider(&config),
        None => None,
    }
}

/// The name of the provider that a parsed configuration selects.
pub fn provider(config: &Json) -> (name: Option<String>)
    ensures
        name is Some <==> provider_spec(*config) is Some,
        name is Some ==> name.unwrap()@ == provider_spec(*config).unwrap(),
{
    let id = match text_in(config.get("model_provider")) {
        Some(id) => id,
        None => return None,
    };
    let entry = match config.get("model_providers") {
        Some(providers) => providers.get(id),
        None => None,
    };
    let named = match entry {
        Some(e) => text_in(e.get("name")),
        None => None,
    };
    let name = match named {
        Some(n) => n,
        None => id,
    };
    label(name)
}

/// Whether a text is shown as a provider's name: it is not empty, takes at
/// most 128 bytes in UTF-8, and has no character in the control ranges
/// U+0000..U+001F and U+007F..U+009F.
pub open spec fn shown_as_name(name: Seq<char>) -> bool {
    &&& name.len() > 0
    &&& vstd::utf8::encode_utf8(name).len() <= 128
    &&& forall|i: int| 0 <= i < name.len() ==> #[trigger] (name[i] as u32) > 0x1f && !(0x7f <= (name[i] as u32)
        && (name[i] as u32) <= 0x9f)
}

/// The provider shown is the `name` of the `model_providers` entry that
/// `model_provider` selects, or the selection itself when that entry has no
/// text name, and only when that text may be shown as a name; without a
/// textual selection none is.
pub proof fn lemma_provider_name(config: Json)
    ensures
        config.at("model_provider"@).text_of() is None ==> provider_spec(config) is None,
        ({
            let selected = config.at("model_provider"@).text_of();
            let id = selected.unwrap();
            let name = match config.at("model_providers"@).at(id).at("name"@).text_of() {
                Some(n) => n,
                None => id,
            };
            &&& selected is Some && shown_as_name(name) ==> provider_spec(config) == Some(name)
            &&& selected is Some && !shown_as_name(name) ==> provider_spec(config) is None
        }),
{
    let selected = config.at("model_provider"@).text_of();
    if selected is Some {
        let id = selected.unwrap();
        let name = match config.at("model_providers"@).at(id).at("name"@).text_of() {
            Some(n) => n,
            None => id,
        };
        assert forall|i: int| 0 <= i < name.len() implies (is_control(name[i]) <==> !((
        name[i] as u32) > 0x1f && !(0x7f <= (name[i] as u32) && (name[i] as u32) <= 0x9f))) by {}
        assert(label_ok(name) == shown_as_name(name));
    }
}

} // verus!
