//! The agent's `config.yaml`, read into JSON values and written back as YAML.
//! Where there is no file, the configuration is the empty object.
use vstd::prelude::*;

use crate::json::{parse_yaml_text, yaml_parse, yaml_text, yaml_text_of, JsonValue};

verus! {

/// The configuration given by the text of `config.yaml`, `None` where the file
/// does not exist: the empty object for no file, else what the YAML text
/// denotes as JSON values, or serde_yaml's error where it is not such YAML.
pub fn config_from_text(text: Option<&str>) -> (r: Result<JsonValue, String>)
    ensures
        match text {
            None => r matches Ok(JsonValue::Object(es)) && es@.len() == 0,
            Some(t) => match r {
                Ok(v) => yaml_parse(t@) == Ok::<JsonValue, Seq<char>>(v),
                Err(e) => yaml_parse(t@) == Err::<JsonValue, Seq<char>>(e@),
            },
        },
{
    match text {
        None => Ok(JsonValue::Object(Vec::new())),
        Some(t) => parse_yaml_text(t),
    }
}

/// The text of `config.yaml` for a configuration: the value written as YAML,
/// or serde_yaml's error where it cannot be written.
pub fn config_yaml_text(config: &JsonValue) -> (r: Result<String, String>)
    ensures
        match r {
            Ok(s) => yaml_text(*config) == Ok::<Seq<char>, Seq<char>>(s@),
            Err(e) => yaml_text(*config) == Err::<Seq<char>, Seq<char>>(e@),
        },
{
    yaml_text_of(config)
}

} // verus!
