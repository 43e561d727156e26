//! Interpretation of the command line: the operation that the arguments
//! stand for, and the two paths that an invocation works with.

use vstd::prelude::*;
use vstd::string::StringExecFns;
use crate::error::{Command, Error, Lookup};
use crate::opts::Opts;

verus! {

/// What the user asked for.
#[derive(Debug, PartialEq)]
pub enum Operation {
    /// Show one value, or every pair when no key is given.
    Print(Option<String>),
    /// Set a key to a value.
    Add(String, String),
    /// Delete a key.
    Remove(String),
}

/// An [`Operation`] with its strings as sequences of characters.
pub enum OperationView {
    Print(Option<Seq<char>>),
    Add(Seq<char>, Seq<char>),
    Remove(Seq<char>),
}

impl View for Operation {
    type V = OperationView;

    open spec fn view(&self) -> OperationView {
        match self {
            Operation::Print(None) => OperationView::Print(None),
            Operation::Print(Some(key)) => OperationView::Print(Some(key@)),
            Operation::Add(key, value) => OperationView::Add(key@, value@),
            Operation::Remove(key) => OperationView::Remove(key@),
        }
    }
}

/// The operation that an argument list stands for, or the reason it stands
/// for none. The first argument selects the command: `add` and `rm` are
/// commands, anything else is a key to print.
pub open spec fn interpret(args: Seq<Seq<char>>) -> Result<OperationView, Error> {
    if args.len() == 0 {
        Ok(OperationView::Print(None))
    } else if args[0] == "add"@ {
        if args.len() == 3 {
            Ok(OperationView::Add(args[1], args[2]))
        } else {
            Err(
                Error::ArgumentCount {
                    command: Command::Add,
                    expected: 2,
                    actual: (args.len() - 1) as usize,
                },
            )
        }
    } else if args[0] == "rm"@ {
        if args.len() == 2 {
            Ok(OperationView::Remove(args[1]))
        } else {
            Err(
                Error::ArgumentCount {
                    command: Command::Remove,
                    expected: 1,
                    actual: (args.len() - 1) as usize,
                },
            )
        }
    } else if args.len() == 1 {
        Ok(OperationView::Print(Some(args[0])))
    } else {
        Err(
            Error::ArgumentCount {
                command: Command::Print,
                expected: 1,
                actual: args.len() as usize,
            },
        )
    }
}

impl vstd::std_specs::convert::TryFromSpecImpl<Vec<String>> for Operation {
    open spec fn obeys_try_from_spec() -> bool {
        true
    }

    /// What [`interpret`] says of the arguments, the strings of the result
    /// being the arguments themselves.
    open spec fn try_from_spec(value: Vec<String>) -> Result<Operation, Error> {
        match interpret(value.deep_view()) {
            Ok(OperationView::Print(None)) => Ok(Operation::Print(None)),
            Ok(OperationView::Print(Some(_))) => Ok(Operation::Print(Some(value@[0]))),
            Ok(OperationView::Add(_, _)) => Ok(Operation::Add(value@[1], value@[2])),
            Ok(OperationView::Remove(_)) => Ok(Operation::Remove(value@[1])),
            Err(error) => Err(error),
        }
    }
}

impl TryFrom<Vec<String>> for Operation {
    type Error = Error;

    /// Reads an argument list as an operation.
    fn try_from(value: Vec<String>) -> (result: Result<Operation, Error>)
        ensures
            match result {
                Ok(operation) => interpret(value.deep_view()) == Ok::<OperationView, Error>(
                    operation@,
                ),
                Err(error) => interpret(value.deep_view()) == Err::<OperationView, Error>(error),
            },
    {
        let mut value = value;
        let count: usize = value.len();
        if count == 0 {
            return Ok(Operation::Print(None));
        }
        let add = String::from_str("add");
        let rm = String::from_str("rm");
        if value[0] == add {
            if count != 3 {
                return Err(
                    Error::ArgumentCount { command: Command::Add, expected: 2, actual: count - 1 },
                );
            }
            let second = value.pop().unwrap();
            let first = value.pop().unwrap();
            return Ok(Operation::Add(first, second));
        }
        if value[0] == rm {
            if count != 2 {
                return Err(
                    Error::ArgumentCount {
                        command: Command::Remove,
                        expected: 1,
                        actual: count - 1,
                    },
                );
            }
            let key = value.pop().unwrap();
            return Ok(Operation::Remove(key));
        }
        if count > 1 {
            return Err(
                Error::ArgumentCount { command: Command::Print, expected: 1, actual: count },
            );
        }
        let key = value.pop().unwrap();
        Ok(Operation::Print(Some(key)))
    }
}

/// An empty argument list asks for every pair of the directory.
pub proof fn lemma_no_arguments(args: Vec<String>)
    requires
        args.len() == 0,
    ensures
        interpret(args.deep_view()) == Ok::<OperationView, Error>(OperationView::Print(None)),
{
}

/// A single argument that is neither `add` nor `rm` asks for the value of
/// that key.
pub proof fn lemma_single_key(args: Vec<String>)
    requires
        args.len() == 1,
        args[0]@ != "add"@,
        args[0]@ != "rm"@,
    ensures
        interpret(args.deep_view()) == Ok::<OperationView, Error>(
            OperationView::Print(Some(args[0]@)),
        ),
{
}

/// Two or more arguments of which the first is neither `add` nor `rm` are
/// refused for their number, and the number told is that of all of them.
pub proof fn lemma_key_with_more(args: Vec<String>)
    requires
        args.len() >= 2,
        args[0]@ != "add"@,
        args[0]@ != "rm"@,
    ensures
        interpret(args.deep_view()) == Err::<OperationView, Error>(
            Error::ArgumentCount { command: Command::Print, expected: 1, actual: args.len() },
        ),
{
}

/// `add` with two arguments sets the first to the second; with any other
/// number it is refused, and the number told is that of the arguments after
/// `add`.
pub proof fn lemma_add(args: Vec<String>)
    requires
        args.len() >= 1,
        args[0]@ == "add"@,
    ensures
        args.len() == 3 ==> interpret(args.deep_view()) == Ok::<OperationView, Error>(
            OperationView::Add(args[1]@, args[2]@),
        ),
        args.len() != 3 ==> (interpret(args.deep_view()) matches Err(
            Error::ArgumentCount { command: Command::Add, expected: 2, actual },
        ) && actual == args.len() - 1),
{
}

/// `rm` with one argument deletes that key; with any other number it is
/// refused, and the number told is that of the arguments after `rm`.
pub proof fn lemma_rm(args: Vec<String>)
    requires
        args.len() >= 1,
        args[0]@ == "rm"@,
    ensures
        args.len() == 2 ==> interpret(args.deep_view()) == Ok::<OperationView, Error>(
            OperationView::Remove(args[1]@),
        ),
        args.len() != 2 ==> (interpret(args.deep_view()) matches Err(
            Error::ArgumentCount { command: Command::Remove, expected: 1, actual },
        ) && actual == args.len() - 1),
{
    reveal_strlit("add");
    reveal_strlit("rm");
    assert("add"@.len() != "rm"@.len());
}

/// What the process environment holds of the values that path resolution
/// may ask for. A value that is unset or could not be read is `None`.
#[derive(Debug)]
pub struct Environment {
    /// The user's home directory.
    pub home: Option<String>,
    /// The current working directory.
    pub current_dir: Option<String>,
}

/// One invocation, resolved: what to do, for which directory, on which file.
#[derive(Debug)]
pub struct Config {
    pub operation: Operation,
    /// The directory whose scope the operation acts on.
    pub pwd: String,
    /// The path of the stored file.
    pub config: String,
}

/// A [`Config`] with its strings as sequences of characters.
pub struct ConfigView {
    pub operation: OperationView,
    pub pwd: Seq<char>,
    pub config: Seq<char>,
}

impl View for Config {
    type V = ConfigView;

    open spec fn view(&self) -> ConfigView {
        ConfigView { operation: self.operation@, pwd: self.pwd@, config: self.config@ }
    }
}

/// Where the stored file lies below the home directory.
pub open spec fn default_location() -> Seq<char> {
    "/.config/projector/projector.json"@
}

/// The path of the stored file: the one given, else the default location
/// below the home directory.
pub open spec fn config_path(given: Option<Seq<char>>, home: Option<Seq<char>>) -> Result<
    Seq<char>,
    Error,
> {
    match given {
        Some(path) => Ok(path),
        None => match home {
            Some(home) => Ok(home + default_location()),
            None => Err(Error::Environment { lookup: Lookup::Home }),
        },
    }
}

/// The directory to act for: the one given, else the current directory.
pub open spec fn scoping_directory(
    given: Option<Seq<char>>,
    current_dir: Option<Seq<char>>,
) -> Result<Seq<char>, Error> {
    match given {
        Some(path) => Ok(path),
        None => match current_dir {
            Some(path) => Ok(path),
            None => Err(Error::Environment { lookup: Lookup::CurrentDir }),
        },
    }
}

/// The invocation that options stand for in an environment. Of several
/// failures the one of the arguments comes first, then that of the
/// file's path, then that of the directory.
pub open spec fn resolved(
    args: Seq<Seq<char>>,
    config: Option<Seq<char>>,
    pwd: Option<Seq<char>>,
    home: Option<Seq<char>>,
    current_dir: Option<Seq<char>>,
) -> Result<ConfigView, Error> {
    match interpret(args) {
        Err(error) => Err(error),
        Ok(operation) => match config_path(config, home) {
            Err(error) => Err(error),
            Ok(config) => match scoping_directory(pwd, current_dir) {
                Err(error) => Err(error),
                Ok(pwd) => Ok(ConfigView { operation, pwd, config }),
            },
        },
    }
}

/// Resolves the path of the stored file from the path given on the command
/// line and the home directory of the environment.
pub fn get_config(config: Option<String>, home: Option<String>) -> (result: Result<String, Error>)
    ensures
        match result {
            Ok(path) => config_path(config.deep_view(), home.deep_view()) == Ok::<
                Seq<char>,
                Error,
            >(path@),
            Err(error) => config_path(config.deep_view(), home.deep_view()) == Err::<
                Seq<char>,
                Error,
            >(error),
        },
{
    if let Some(path) = config {
        return Ok(path);
    }
    match home {
        Some(home) => Ok(home.concat("/.config/projector/projector.json")),
        None => Err(Error::Environment { lookup: Lookup::Home }),
    }
}

/// Resolves the directory to act for from the directory given on the command
/// line and the current directory of the environment.
pub fn get_pwd(pwd: Option<String>, current_dir: Option<String>) -> (result: Result<String, Error>)
    ensures
        match result {
            Ok(path) => scoping_directory(pwd.deep_view(), current_dir.deep_view()) == Ok::<
                Seq<char>,
                Error,
            >(path@),
            Err(error) => scoping_directory(pwd.deep_view(), current_dir.deep_view()) == Err::<
                Seq<char>,
                Error,
            >(error),
        },
{
    if let Some(path) = pwd {
        return Ok(path);
    }
    match current_dir {
        Some(path) => Ok(path),
        None => Err(Error::Environment { lookup: Lookup::CurrentDir }),
    }
}

impl Config {
    /// Resolves an invocation from its options and the environment.
    pub fn try_from(value: Opts, environment: Environment) -> (result: Result<Config, Error>)
        ensures
            match result {
                Ok(config) => resolved(
                    value.args.deep_view(),
                    value.config.deep_view(),
                    value.pwd.deep_view(),
                    environment.home.deep_view(),
                    environment.current_dir.deep_view(),
                ) == Ok::<ConfigView, Error>(config@),
                Err(error) => resolved(
                    value.args.deep_view(),
                    value.config.deep_view(),
                    value.pwd.deep_view(),
                    environment.home.deep_view(),
                    environment.current_dir.deep_view(),
                ) == Err::<ConfigView, Error>(error),
            },
    {
        let operation = match Operation::try_from(value.args) {
            Ok(operation) => operation,
            Err(error) => {
                return Err(error);
            },
        };
        let config = match get_config(value.config, environment.home) {
            Ok(config) => config,
            Err(error) => {
                return Err(error);
            },
        };
        let pwd = match get_pwd(value.pwd, environment.current_dir) {
            Ok(pwd) => pwd,
            Err(error) => {
                return Err(error);
            },
        };
        Ok(Config { operation, pwd, config })
    }
}

} // verus!
