use vstd::prelude::*;

verus! {

/// What one invocation asks for.
#[derive(Debug, PartialEq, Eq, Clone)]
pub enum Operation {
    /// Print the value of one key, or every value visible here.
    Print(Option<String>),
    /// Set a key to a value in the current directory.
    Add(String, String),
    /// Remove a key from the current directory.
    Remove(String),
}

/// An operation given the wrong number of arguments; each variant holds the
/// number that was given.
#[derive(Debug, PartialEq, Eq, Clone)]
pub enum ArgError {
    /// `add` takes a key and a value.
    AddArity(usize),
    /// `rm` takes a key.
    RemoveArity(usize),
    /// A lookup takes one key at most.
    PrintArity(usize),
}

/// Why the settings of an invocation could not be resolved.
#[derive(Debug, PartialEq, Eq, Clone)]
pub enum ConfigError {
    /// The operation's arguments were malformed.
    Args(ArgError),
    /// No store file was given and no application data directory is known.
    NoAppData,
    /// No directory was given and the current one is unknown.
    NoCurrentDir,
}

/// The operation that `args` asks for: none at all prints everything,
/// `add KEY VALUE` sets, `rm KEY` removes, and a lone `KEY` looks it up.
pub open spec fn parsed_operation(args: Seq<String>) -> Result<Operation, ArgError> {
    let n = args.len();
    if n == 0 {
        Ok(Operation::Print(None))
    } else if args[0]@ == "add"@ {
        if n == 3 {
            Ok(Operation::Add(args[1], args[2]))
        } else {
            Err(ArgError::AddArity((n - 1) as usize))
        }
    } else if args[0]@ == "rm"@ {
        if n == 2 {
            Ok(Operation::Remove(args[1]))
        } else {
            Err(ArgError::RemoveArity((n - 1) as usize))
        }
    } else if n > 1 {
        Err(ArgError::PrintArity(n as usize))
    } else {
        Ok(Operation::Print(Some(args[0])))
    }
}

impl Operation {
    /// Reads the operation from the positional arguments.
    pub fn from_args(value: Vec<String>) -> (r: Result<Operation, ArgError>)
        ensures
            r == parsed_operation(value@),
    {
        let mut value = value;
        let n = value.len();
        if n == 0 {
            return Ok(Operation::Print(None));
        }
        if value[0] == "add".to_owned() {
            if n != 3 {
                return Err(ArgError::AddArity(n - 1));
            }
            let ghost args = value@;
            let v = value.pop().unwrap();
            let k = value.pop().unwrap();
            assert(k == args[1] && v == args[2]);
            return Ok(Operation::Add(k, v));
        }
        if value[0] == "rm".to_owned() {
            if n != 2 {
                return Err(ArgError::RemoveArity(n - 1));
            }
            let arg = value.pop().unwrap();
            return Ok(Operation::Remove(arg));
        }
        if n > 1 {
            return Err(ArgError::PrintArity(n));
        }
        let arg = value.pop().unwrap();
        Ok(Operation::Print(Some(arg)))
    }
}

impl TryFrom<Vec<String>> for Operation {
    type Error = ArgError;

    fn try_from(value: Vec<String>) -> (r: Result<Operation, ArgError>) {
        Operation::from_args(value)
    }
}

impl vstd::std_specs::convert::TryFromSpecImpl<Vec<String>> for Operation {
    open spec fn obeys_try_from_spec() -> bool {
        true
    }

    open spec fn try_from_spec(value: Vec<String>) -> Result<Operation, ArgError> {
        parsed_operation(value@)
    }
}

/// The resolved settings of one invocation.
#[derive(Debug, Clone)]
pub struct Config {
    pub operation: Operation,
    /// The directory whose view is read or changed.
    pub pwd: String,
    /// The file that holds the store.
    pub config: String,
}

/// The raw command line: positional arguments, and the directory and store
/// file when given.
#[derive(Debug, Clone)]
pub struct Opts {
    pub args: Vec<String>,
    pub pwd: Option<String>,
    pub config: Option<String>,
}

/// The path `base` with `part` appended, by the platform's path rules.
pub uninterp spec fn pushed_path(base: Seq<char>, part: Seq<char>) -> Seq<char>;

/// Relies on std::path::PathBuf::push: extends `base` with `part`, putting a
/// separator between them where one is needed.
#[verifier::external_body]
fn push_path(base: String, part: &str) -> (r: String)
    ensures
        r@ == pushed_path(base@, part@),
{
    let mut p = std::path::PathBuf::from(base);
    p.push(part);
    p.to_string_lossy().into_owned()
}

/// Where the store lives: `config` where one was given, else
/// `projector/projector.json` under the application data directory.
pub fn get_config(config: Option<String>, appdata: Option<String>) -> (r: Result<String, ConfigError>)
    ensures
        config matches Some(c) ==> r == Ok::<String, ConfigError>(c),
        config is None && appdata is None ==> r == Err::<String, ConfigError>(ConfigError::NoAppData),
        config is None && appdata is Some ==> (r matches Ok(p) && p@ == pushed_path(
            pushed_path(appdata->0@, "projector"@),
            "projector.json"@,
        )),
{
    match config {
        Some(c) => Ok(c),
        None => match appdata {
            Some(base) => {
                let dir = push_path(base, "projector");
                Ok(push_path(dir, "projector.json"))
            },
            None => Err(ConfigError::NoAppData),
        },
    }
}

/// The directory to work from: `pwd` where one was given, else the current one.
pub fn get_pwd(pwd: Option<String>, current_dir: Option<String>) -> (r: Result<String, ConfigError>)
    ensures
        pwd matches Some(p) ==> r == Ok::<String, ConfigError>(p),
        pwd is None ==> r == match current_dir {
            Some(c) => Ok::<String, ConfigError>(c),
            None => Err(ConfigError::NoCurrentDir),
        },
{
    match pwd {
        Some(p) => Ok(p),
        None => match current_dir {
            Some(c) => Ok(c),
            None => Err(ConfigError::NoCurrentDir),
        },
    }
}

impl Config {
    /// Resolves the command line, given what the environment knows of the
    /// application data directory and of the current directory. The
    /// operation is checked first, then the store file, then the directory.
    pub fn try_from_opts(value: Opts, appdata: Option<String>, current_dir: Option<String>) -> (r:
        Result<Config, ConfigError>)
        ensures
            parsed_operation(value.args@) matches Err(e) ==> r == Err::<Config, ConfigError>(
                ConfigError::Args(e),
            ),
            parsed_operation(value.args@) is Ok && value.config is None && appdata is None ==> r
                == Err::<Config, ConfigError>(ConfigError::NoAppData),
            parsed_operation(value.args@) is Ok && !(value.config is None && appdata is None)
                && value.pwd is None && current_dir is None ==> r == Err::<Config, ConfigError>(
                ConfigError::NoCurrentDir,
            ),
            r matches Ok(c) ==> (Ok::<Operation, ArgError>(c.operation) == parsed_operation(
                value.args@,
            ) && (value.config matches Some(p) ==> c.config == p) && (value.config is None
                ==> c.config@ == pushed_path(
                pushed_path(appdata->0@, "projector"@),
                "projector.json"@,
            )) && c.pwd == (match value.pwd {
                Some(p) => p,
                None => current_dir->0,
            })),
            parsed_operation(value.args@) is Ok && !(value.config is None && appdata is None) && !(
            value.pwd is None && current_dir is None) ==> r is Ok,
    {
        let operation = match Operation::from_args(value.args) {
            Ok(op) => op,
            Err(e) => {
                return Err(ConfigError::Args(e));
            },
        };
        let config = match get_config(value.config, appdata) {
            Ok(c) => c,
            Err(e) => {
                return Err(e);
            },
        };
        let pwd = match get_pwd(value.pwd, current_dir) {
            Ok(p) => p,
            Err(e) => {
                return Err(e);
            },
        };
        Ok(Config { operation, pwd, config })
    }
}

} // verus!
