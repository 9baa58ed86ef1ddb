use crate::json::{object_at, text_at, JsonModel, JsonObject};
use crate::schema::{parse_schema, parsed_schema, FieldModel, Schema, SchemaError};
use vstd::prelude::*;

verus! {

/// What a run needs: where to read, where to write, and the schema if there is
/// one.
#[derive(Debug)]
pub struct Config {
    pub input: String,
    pub output: String,
    pub schema: Option<Schema>,
}

/// Why no configuration could be made.
#[derive(Debug, Clone, Copy, PartialEq, Eq, Structural)]
pub enum ConfigError {
    /// Neither the arguments nor the configuration object name an input path.
    MissingInput,
    /// Neither the arguments nor the configuration object name an output path.
    MissingOutput,
    /// The configuration object holds a schema that cannot be built.
    Schema(SchemaError),
}

/// A configuration as mathematics: what a [`Config`] stands for.
pub struct ConfigModel {
    pub input: Seq<char>,
    pub output: Seq<char>,
    pub schema: Option<Seq<FieldModel>>,
}

impl View for Config {
    type V = ConfigModel;

    open spec fn view(&self) -> ConfigModel {
        ConfigModel {
            input: self.input@,
            output: self.output@,
            schema: self.schema.deep_view(),
        }
    }
}

/// One of the arguments is one of the names.
pub open spec fn flag_present(args: Seq<Seq<char>>, names: Seq<Seq<char>>) -> bool {
    exists|i: int| 0 <= i < args.len() && names.contains(#[trigger] args[i])
}

/// The argument at position `i` is one of the names, and none before it is.
pub open spec fn is_first_flag(args: Seq<Seq<char>>, names: Seq<Seq<char>>, i: int) -> bool {
    &&& 0 <= i < args.len()
    &&& names.contains(args[i])
    &&& forall|j: int| 0 <= j < i ==> !names.contains(#[trigger] args[j])
}

/// The argument that follows the first argument that is one of the names;
/// `None` where no argument is one of the names, or nothing follows the first
/// that is.
pub open spec fn flag_value(args: Seq<Seq<char>>, names: Seq<Seq<char>>) -> Option<Seq<char>> {
    if exists|i: int| is_first_flag(args, names, i) {
        let at = choose|i: int| is_first_flag(args, names, i);
        if at + 1 < args.len() {
            Some(args[at + 1])
        } else {
            None
        }
    } else {
        None
    }
}

/// Whether `arg` is one of `names`.
fn is_one_of(arg: &String, names: &Vec<&str>) -> (found: bool)
    ensures
        found == names.deep_view().contains(arg@),
{
    let mut j: usize = 0;
    while j < names.len()
        invariant
            j <= names@.len(),
            forall|k: int| 0 <= k < j ==> names.deep_view()[k] != arg@,
        decreases names@.len() - j,
    {
        if arg.as_str().eq(names[j]) {
            assert(names.deep_view()[j as int] == arg@);
            return true;
        }
        j += 1;
    }
    false
}

/// Whether one of the arguments is one of the names.
pub fn env_exists(args: &Vec<String>, names: &Vec<&str>) -> (present: bool)
    ensures
        present == flag_present(args.deep_view(), names.deep_view()),
{
    let mut i: usize = 0;
    while i < args.len()
        invariant
            i <= args@.len(),
            forall|k: int| 0 <= k < i ==> !names.deep_view().contains(#[trigger] args.deep_view()[k]),
        decreases args@.len() - i,
    {
        if is_one_of(&args[i], names) {
            assert(names.deep_view().contains(args.deep_view()[i as int]));
            return true;
        }
        i += 1;
    }
    false
}

/// The argument that follows the first argument that is one of the names.
pub fn get_env(args: &Vec<String>, names: &Vec<&str>) -> (value: Option<String>)
    ensures
        value.deep_view() == flag_value(args.deep_view(), names.deep_view()),
{
    let mut i: usize = 0;
    while i < args.len()
        invariant
            i <= args@.len(),
            forall|k: int| 0 <= k < i ==> !names.deep_view().contains(#[trigger] args.deep_view()[k]),
        decreases args@.len() - i,
    {
        if is_one_of(&args[i], names) {
            proof {
                let found = i as int;
                assert(is_first_flag(args.deep_view(), names.deep_view(), found));
                let at = choose|k: int| is_first_flag(args.deep_view(), names.deep_view(), k);
                if at < found {
                    assert(!names.deep_view().contains(args.deep_view()[at]));
                }
                if found < at {
                    assert(!names.deep_view().contains(args.deep_view()[found]));
                }
            }
            if i + 1 < args.len() {
                return Some(args[i + 1].clone());
            } else {
                return None;
            }
        }
        i += 1;
    }
    None
}

/// The names under which the arguments give the input path.
pub open spec fn input_flags() -> Seq<Seq<char>> {
    seq!["-I"@, "-input"@]
}

/// The names under which the arguments give the output path.
pub open spec fn output_flags() -> Seq<Seq<char>> {
    seq!["-O"@, "-output"@]
}

/// A path as the run will use it: from the arguments if they give it, else
/// from the configuration object if it holds a string under `key`, else empty.
pub open spec fn chosen_path(
    file: Option<Seq<(Seq<char>, JsonModel)>>,
    args: Seq<Seq<char>>,
    key: Seq<char>,
    flags: Seq<Seq<char>>,
) -> Seq<char> {
    match flag_value(args, flags) {
        Some(path) => path,
        None => match file {
            Some(entries) => match text_at(entries, key) {
                Some(path) => path,
                None => Seq::empty(),
            },
            None => Seq::empty(),
        },
    }
}

/// The schema that the configuration object holds under `schema`, if an object
/// stands there; the error if that object describes no schema.
pub open spec fn chosen_schema(file: Option<Seq<(Seq<char>, JsonModel)>>) -> Result<
    Option<Seq<FieldModel>>,
    SchemaError,
> {
    match file {
        Some(entries) => match object_at(entries, "schema"@) {
            Some(inner) => match parsed_schema(inner) {
                Ok(fields) => Ok(Some(fields)),
                Err(error) => Err(error),
            },
            None => Ok(None),
        },
        None => Ok(None),
    }
}

/// The configuration that a configuration object, if there is one, and the
/// arguments give. A schema that cannot be built is reported first, then a
/// missing input path, then a missing output path.
pub open spec fn configured(
    file: Option<Seq<(Seq<char>, JsonModel)>>,
    args: Seq<Seq<char>>,
) -> Result<ConfigModel, ConfigError> {
    match chosen_schema(file) {
        Err(error) => Err(ConfigError::Schema(error)),
        Ok(schema) => {
            let input = chosen_path(file, args, "input"@, input_flags());
            let output = chosen_path(file, args, "output"@, output_flags());
            if input.len() == 0 {
                Err(ConfigError::MissingInput)
            } else if output.len() == 0 {
                Err(ConfigError::MissingOutput)
            } else {
                Ok(ConfigModel { input, output, schema })
            }
        },
    }
}

impl Config {
    /// Makes the configuration of a run from the configuration object, if one
    /// was read, and the command line's arguments. What the arguments give
    /// goes before what the object holds.
    pub fn from_sources(file: Option<&JsonObject>, args: &Vec<String>) -> (made: Result<
        Config,
        ConfigError,
    >)
        ensures
            match made {
                Ok(config) => configured(file.deep_view(), args.deep_view()) == Ok::<
                    ConfigModel,
                    ConfigError,
                >(config@),
                Err(error) => configured(file.deep_view(), args.deep_view()) == Err::<
                    ConfigModel,
                    ConfigError,
                >(error),
            },
    {
        let mut config = Config { input: String::new(), output: String::new(), schema: None };
        match file {
            Some(json) => {
                match json.get_string("input") {
                    Some(input) => config.input = input,
                    None => {},
                }
                match json.get_string("output") {
                    Some(output) => config.output = output,
                    None => {},
                }
                match json.get_object("schema") {
                    Some(schema_json) => match parse_schema(schema_json) {
                        Ok(schema) => config.schema = Some(schema),
                        Err(error) => {
                            return Err(ConfigError::Schema(error));
                        },
                    },
                    None => {},
                }
            },
            None => {},
        }
        let input_names: Vec<&str> = vec!["-I", "-input"];
        let output_names: Vec<&str> = vec!["-O", "-output"];
        assert(input_names.deep_view() =~= input_flags());
        assert(output_names.deep_view() =~= output_flags());
        match get_env(args, &input_names) {
            Some(input) => config.input = input,
            None => {},
        }
        match get_env(args, &output_names) {
            Some(output) => config.output = output,
            None => {},
        }
        if config.input.as_str().is_empty() {
            return Err(ConfigError::MissingInput);
        }
        if config.output.as_str().is_empty() {
            return Err(ConfigError::MissingOutput);
        }
        Ok(config)
    }
}

} // verus!
