use projector::config::{get_config, get_pwd, ArgError, Config, ConfigError, Operation, Opts};

/// Resolves `opts` in an environment that knows both directories.
fn into_config(opts: Opts) -> Result<Config, ConfigError> {
    Config::try_from_opts(
        opts,
        Some(String::from("/home/user/.local/share")),
        Some(String::from("/home/user/work")),
    )
}

fn resolve(args: Vec<String>) -> Result<Config, ConfigError> {
    into_config(Opts {
        args,
        pwd: None,
        config: None,
    })
}

#[test]
fn test_print_all() -> Result<(), ConfigError> {
    let opts: Config = into_config(Opts {
        args: vec![],
        pwd: None,
        config: None,
    })?;

    assert_eq!(opts.operation, Operation::Print(None));
    return Ok(());
}

#[test]
fn test_print_key() -> Result<(), ConfigError> {
    let opts: Config = into_config(Opts {
        args: vec!["foo".to_string()],
        pwd: None,
        config: None,
    })?;

    assert_eq!(opts.operation, Operation::Print(Some("foo".to_string())));
    return Ok(());
}

#[test]
fn test_add_key_value() -> Result<(), ConfigError> {
    let opts: Config = into_config(Opts {
        args: vec![
            String::from("add"),
            String::from("foo"),
            String::from("bar"),
        ],
        pwd: None,
        config: None,
    })?;

    assert_eq!(
        opts.operation,
        Operation::Add(String::from("foo"), String::from("bar"))
    );

    return Ok(());
}

#[test]
fn test_remove_key() -> Result<(), ConfigError> {
    let opts: Config = into_config(Opts {
        args: vec![String::from("rm"), String::from("foo")],
        pwd: None,
        config: None,
    })?;

    assert_eq!(opts.operation, Operation::Remove(String::from("foo")));

    return Ok(());
}

#[test]
fn add_with_one_argument_is_refused() {
    let r = resolve(vec![String::from("add"), String::from("foo")]);
    assert_eq!(r.unwrap_err(), ConfigError::Args(ArgError::AddArity(1)));
}

#[test]
fn add_with_three_arguments_is_refused() {
    let r = Operation::from_args(vec![
        String::from("add"),
        String::from("a"),
        String::from("b"),
        String::from("c"),
    ]);
    assert_eq!(r, Err(ArgError::AddArity(3)));
}

#[test]
fn rm_with_two_arguments_is_refused() {
    let r = Operation::from_args(vec![
        String::from("rm"),
        String::from("a"),
        String::from("b"),
    ]);
    assert_eq!(r, Err(ArgError::RemoveArity(2)));
}

#[test]
fn rm_alone_is_refused() {
    let r = Operation::from_args(vec![String::from("rm")]);
    assert_eq!(r, Err(ArgError::RemoveArity(0)));
}

#[test]
fn two_keys_are_refused() {
    let r = Operation::from_args(vec![String::from("foo"), String::from("bar")]);
    assert_eq!(r, Err(ArgError::PrintArity(2)));
}

#[test]
fn add_alone_as_a_key_is_refused_as_add() {
    let r = Operation::from_args(vec![String::from("add")]);
    assert_eq!(r, Err(ArgError::AddArity(0)));
}

#[test]
fn store_path_defaults_under_appdata() {
    let r = get_config(None, Some(String::from("/home/user/.local/share")));
    assert_eq!(
        r,
        Ok(String::from("/home/user/.local/share/projector/projector.json"))
    );
}

#[test]
fn store_path_given_is_kept() {
    let r = get_config(
        Some(String::from("/etc/p.json")),
        Some(String::from("/home/user")),
    );
    assert_eq!(r, Ok(String::from("/etc/p.json")));
}

#[test]
fn store_path_without_appdata_fails() {
    assert_eq!(get_config(None, None), Err(ConfigError::NoAppData));
}

#[test]
fn pwd_falls_back_to_current_dir() {
    assert_eq!(
        get_pwd(None, Some(String::from("/srv"))),
        Ok(String::from("/srv"))
    );
    assert_eq!(
        get_pwd(Some(String::from("/a/b")), Some(String::from("/srv"))),
        Ok(String::from("/a/b"))
    );
    assert_eq!(get_pwd(None, None), Err(ConfigError::NoCurrentDir));
}

#[test]
fn config_resolves_all_parts() {
    let c = Config::try_from_opts(
        Opts {
            args: vec![String::from("rm"), String::from("k")],
            pwd: Some(String::from("/x/y")),
            config: None,
        },
        Some(String::from("/data")),
        None,
    )
    .unwrap();
    assert_eq!(c.operation, Operation::Remove(String::from("k")));
    assert_eq!(c.pwd, "/x/y");
    assert_eq!(c.config, "/data/projector/projector.json");
}

#[test]
fn config_without_current_dir_fails() {
    let r = Config::try_from_opts(
        Opts {
            args: vec![],
            pwd: None,
            config: Some(String::from("/s.json")),
        },
        None,
        None,
    );
    assert_eq!(r.unwrap_err(), ConfigError::NoCurrentDir);
}

#[test]
fn operation_converts_from_arguments() {
    let op: Result<Operation, ArgError> =
        vec![String::from("add"), String::from("k"), String::from("v")].try_into();
    assert_eq!(op, Ok(Operation::Add(String::from("k"), String::from("v"))));
    let bad: Result<Operation, ArgError> = vec![String::from("rm")].try_into();
    assert_eq!(bad, Err(ArgError::RemoveArity(0)));
}
