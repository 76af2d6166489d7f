use pixi_task::args::{AddArgs, AliasArgs, ListArgs};
use pixi_task::listing::{available_tasks, list_output, machine_readable, sorted_env_tasks, EnvironmentTasks, ListOutput};
use pixi_task::manifest::Manifest;
use pixi_task::model::{CmdArgs, Execute, FeatureName, Task, TaskError};
use pixi_task::serialize::{to_value, FieldValue, TaskValue};
use pixi_task::text::{blank, parse_key_val, quote};
use pixi_task::toml::{task_to_toml, TomlTask};

fn s(x: &str) -> String {
    x.to_string()
}

fn add_args(commands: &[&str]) -> AddArgs {
    AddArgs {
        name: s("build"),
        commands: commands.iter().map(|c| s(c)).collect(),
        depends_on: None,
        platform: None,
        feature: None,
        cwd: None,
        env: Vec::new(),
        clean_env: false,
    }
}

fn env(name: &str, tasks: &[&str], compatible: bool) -> EnvironmentTasks {
    EnvironmentTasks {
        name: s(name),
        tasks: tasks.iter().map(|t| s(t)).collect(),
        compatible,
    }
}

#[test]
fn parse_key_val_splits_on_first_equals() {
    match parse_key_val("FOO=bar=baz") {
        Ok((k, v)) => {
            assert_eq!(k, "FOO");
            assert_eq!(v, "bar=baz");
        }
        Err(_) => panic!("expected a pair"),
    }
}

#[test]
fn parse_key_val_empty_value() {
    match parse_key_val("FOO=") {
        Ok((k, v)) => {
            assert_eq!(k, "FOO");
            assert_eq!(v, "");
        }
        Err(_) => panic!("expected a pair"),
    }
}

#[test]
fn parse_key_val_without_equals_is_invalid() {
    match parse_key_val("FOO") {
        Err(e) => {
            assert_eq!(e.message(), format!("invalid KEY=value: no `=` found in `{}`", "FOO"));
            match e {
                TaskError::InvalidArgument(t) => assert_eq!(t, "FOO"),
                _ => panic!("expected InvalidArgument"),
            }
        }
        _ => panic!("expected InvalidArgument"),
    }
}

#[test]
fn single_command_is_plain() {
    match Task::from_add_args(add_args(&["cargo build"])) {
        Task::Plain(c) => assert_eq!(c, "cargo build"),
        _ => panic!("expected a plain task"),
    }
}

#[test]
fn several_commands_are_quoted_and_joined() {
    match Task::from_add_args(add_args(&["echo", "hello world", ""])) {
        Task::Plain(c) => assert_eq!(c, "echo \"hello world\" \"\""),
        _ => panic!("expected a plain task"),
    }
}

#[test]
fn quote_escapes_quotes_and_backslashes() {
    assert_eq!(quote("plain"), "plain");
    assert_eq!(quote(""), "\"\"");
    assert_eq!(quote("a \"b\\c\""), "\"a \\\"b\\\\c\\\"\"");
    assert_eq!(quote("[x]"), "\"[x]\"");
}

#[test]
fn blank_detects_whitespace_only() {
    assert!(blank(""));
    assert!(blank(" \t\n"));
    assert!(!blank(" a "));
}

#[test]
fn empty_command_with_dependencies_is_alias() {
    let mut a = add_args(&[""]);
    a.depends_on = Some(vec![s("build"), s("test")]);
    match Task::from_add_args(a) {
        Task::Alias(al) => assert_eq!(al.depends_on, vec![s("build"), s("test")]),
        _ => panic!("expected an alias"),
    }
}

#[test]
fn command_with_cwd_is_execute() {
    let mut a = add_args(&["cargo build"]);
    a.cwd = Some(s("src"));
    match Task::from_add_args(a) {
        Task::Execute(e) => {
            assert!(matches!(e.cmd, CmdArgs::Single(ref c) if c == "cargo build"));
            assert!(e.depends_on.is_empty());
            assert_eq!(e.cwd, Some(s("src")));
            assert!(e.env.is_none());
            assert!(e.inputs.is_none() && e.outputs.is_none());
            assert!(!e.clean_env);
        }
        _ => panic!("expected an executable task"),
    }
}

#[test]
fn command_with_env_keeps_order_and_last_value() {
    let mut a = add_args(&["run"]);
    a.env = vec![(s("B"), s("1")), (s("A"), s("2")), (s("B"), s("3"))];
    a.clean_env = true;
    let t = Task::from_add_args(a);
    match &t {
        Task::Execute(e) => assert!(e.clean_env),
        _ => panic!("expected an executable task"),
    }
    match to_value(t) {
        TaskValue::Table(f) => {
            assert_eq!(f.len(), 2);
            assert_eq!(f[1].0, "env");
            match &f[1].1 {
                FieldValue::StrTable(p) => {
                    assert_eq!(p, &vec![(s("B"), s("3")), (s("A"), s("2"))]);
                }
                _ => panic!("expected an inline table"),
            }
        }
        _ => panic!("expected a table"),
    }
}

#[test]
fn command_with_dependencies_is_execute() {
    let mut a = add_args(&["cargo test"]);
    a.depends_on = Some(vec![s("build")]);
    match Task::from_add_args(a) {
        Task::Execute(e) => assert_eq!(e.depends_on, vec![s("build")]),
        _ => panic!("expected an executable task"),
    }
}

#[test]
fn alias_args_give_alias() {
    let a = AliasArgs { alias: s("all"), depends_on: vec![s("a"), s("b")], platform: None };
    match Task::from_alias_args(a) {
        Task::Alias(al) => assert_eq!(al.depends_on, vec![s("a"), s("b")]),
        _ => panic!("expected an alias"),
    }
}

#[test]
fn serialize_plain_is_string() {
    match to_value(Task::Plain(s("ls -la"))) {
        TaskValue::Str(x) => assert_eq!(x, "ls -la"),
        _ => panic!("expected a string"),
    }
}

#[test]
fn serialize_execute_omits_empty_and_absent_fields() {
    let t = Task::Execute(Execute {
        cmd: CmdArgs::Single(s("make")),
        depends_on: Vec::new(),
        inputs: Some(vec![s("in")]),
        outputs: Some(vec![s("out")]),
        cwd: None,
        env: None,
        clean_env: true,
    });
    match to_value(t) {
        TaskValue::Table(f) => {
            assert_eq!(f.len(), 1);
            assert_eq!(f[0].0, "cmd");
            assert!(matches!(&f[0].1, FieldValue::Str(c) if c == "make"));
        }
        _ => panic!("expected a table"),
    }
}

#[test]
fn serialize_execute_with_all_fields() {
    let t = Task::Execute(Execute {
        cmd: CmdArgs::Multiple(vec![s("a"), s("b")]),
        depends_on: vec![s("x")],
        inputs: None,
        outputs: None,
        cwd: Some(s("dir")),
        env: None,
        clean_env: false,
    });
    match to_value(t) {
        TaskValue::Table(f) => {
            let keys: Vec<&str> = f.iter().map(|p| p.0.as_str()).collect();
            assert_eq!(keys, vec!["cmd", "depends-on", "cwd"]);
            assert!(matches!(&f[0].1, FieldValue::StrArray(v) if v == &vec![s("a"), s("b")]));
            assert!(matches!(&f[1].1, FieldValue::StrArray(v) if v == &vec![s("x")]));
            assert!(matches!(&f[2].1, FieldValue::Str(c) if c == "dir"));
        }
        _ => panic!("expected a table"),
    }
}

#[test]
fn serialize_alias_has_only_depends_on() {
    match to_value(Task::Alias(pixi_task::model::Alias { depends_on: vec![s("a")] })) {
        TaskValue::Table(f) => {
            assert_eq!(f.len(), 1);
            assert_eq!(f[0].0, "depends-on");
            assert!(matches!(&f[0].1, FieldValue::StrArray(v) if v == &vec![s("a")]));
        }
        _ => panic!("expected a table"),
    }
}

#[test]
fn add_overwrites_same_scope() {
    let mut m = Manifest::new();
    m.add_task(s("t"), Task::Plain(s("one")), None, FeatureName::Default);
    m.add_task(s("t"), Task::Plain(s("two")), Some(s("linux-64")), FeatureName::Default);
    m.add_task(s("t"), Task::Plain(s("three")), None, FeatureName::Default);
    assert_eq!(m.entries().len(), 2);
    assert!(matches!(&m.entries()[0].task, Task::Plain(c) if c == "three"));
    assert!(m.has_task(&s("t"), &Some(s("linux-64")), &FeatureName::Default));
    assert!(!m.has_task(&s("t"), &None, &FeatureName::Named(s("f"))));
}

#[test]
fn remove_missing_task_is_not_found() {
    let mut m = Manifest::new();
    m.add_task(s("t"), Task::Plain(s("one")), None, FeatureName::Default);
    match m.remove_task(&s("u"), &None, &FeatureName::Default) {
        Err(TaskError::TaskNotFound(n)) => {
            assert_eq!(n, "u");
            assert_eq!(TaskError::TaskNotFound(n).message(), "task `u` does not exist");
        }
        _ => panic!("expected TaskNotFound"),
    }
    assert_eq!(m.entries().len(), 1);
}

#[test]
fn removal_plan_reports_each_missing_name() {
    let mut m = Manifest::new();
    m.add_task(s("a"), Task::Plain(s("x")), None, FeatureName::Default);
    m.add_task(s("b"), Task::Plain(s("y")), None, FeatureName::Named(s("f")));
    let plan = m.plan_removal(&vec![s("a"), s("b"), s("c"), s("b")], &None, &FeatureName::Default);
    assert_eq!(plan.remove, vec![s("a")]);
    assert_eq!(plan.missing, vec![s("b"), s("c"), s("b")]);
    assert_eq!(m.entries().len(), 2);
}

#[test]
fn machine_readable_sorts_and_joins() {
    assert_eq!(machine_readable(&vec![s("b"), s("a"), s("c")]), "a b c");
    assert_eq!(machine_readable(&Vec::new()), "");
}

#[test]
fn list_output_modes() {
    let names = vec![s("b"), s("a")];
    let flags = |summary, machine_readable| ListArgs { summary, machine_readable, environment: None };
    assert!(matches!(list_output(&flags(false, false), &Vec::new()), ListOutput::NoTasks));
    assert!(matches!(list_output(&flags(true, true), &names), ListOutput::Summary));
    assert!(matches!(list_output(&flags(false, true), &names), ListOutput::MachineReadable(ref x) if x == "a b"));
    assert!(matches!(list_output(&flags(false, false), &names), ListOutput::Plain(ref v) if v == &vec![s("a"), s("b")]));
}

#[test]
fn unknown_environment_is_an_error() {
    let envs = vec![env("default", &["a"], true)];
    match available_tasks(&envs, &Some(s("nope"))) {
        Err(TaskError::UnknownEnvironment(n)) => {
            assert_eq!(n, "nope");
            assert_eq!(TaskError::UnknownEnvironment(n).message(), "unknown environment 'nope'");
        }
        _ => panic!("expected UnknownEnvironment"),
    }
}

#[test]
fn available_tasks_skips_incompatible_environments() {
    let envs = vec![
        env("default", &["b", "a"], true),
        env("cuda", &["gpu", "a"], false),
        env("lint", &["c", "b"], true),
    ];
    let mut all = available_tasks(&envs, &None).ok().unwrap();
    all.sort();
    assert_eq!(all, vec![s("a"), s("b"), s("c")]);
    let mut cuda = available_tasks(&envs, &Some(s("cuda"))).ok().unwrap();
    cuda.sort();
    assert_eq!(cuda, vec![s("a"), s("gpu")]);
    assert_eq!(sorted_env_tasks(&envs[2]), vec![s("b"), s("c")]);
}

#[test]
fn add_list_remove_scenario() {
    let mut m = Manifest::new();
    let mut a = add_args(&["cargo build"]);
    a.cwd = Some(s("src"));
    let name = a.name.clone();
    let task = Task::from_add_args(a);
    m.add_task(name, task, None, FeatureName::Default);
    let listed = |m: &Manifest| {
        let envs = vec![EnvironmentTasks {
            name: s("default"),
            tasks: m.environment_tasks(&vec![(None, FeatureName::Default), (Some(s("linux-64")), FeatureName::Default)]),
            compatible: true,
        }];
        available_tasks(&envs, &Some(s("default"))).ok().unwrap()
    };
    assert_eq!(listed(&m), vec![s("build")]);
    let plan = m.plan_removal(&vec![s("build")], &None, &FeatureName::Default);
    assert!(plan.missing.is_empty());
    for n in plan.remove.iter() {
        assert!(m.remove_task(n, &None, &FeatureName::Default).is_ok());
    }
    assert!(listed(&m).is_empty());
}

#[test]
fn toml_of_plain_task_is_string() {
    match task_to_toml(Task::Plain(s("ls -la"))) {
        TomlTask::Value(v) => assert_eq!(v.as_str(), Some("ls -la")),
        _ => panic!("expected a value"),
    }
}

#[test]
fn toml_of_execute_task_is_inline_table() {
    let mut a = add_args(&["cargo build"]);
    a.cwd = Some(s("src"));
    a.depends_on = Some(vec![s("fmt")]);
    a.env = vec![(s("K"), s("v"))];
    match task_to_toml(Task::from_add_args(a)) {
        TomlTask::Table(t) => {
            let keys: Vec<&str> = t.iter().map(|(k, _)| k).collect();
            assert_eq!(keys, vec!["cmd", "depends-on", "cwd", "env"]);
            assert_eq!(t.get("cmd").and_then(|v| v.as_str()), Some("cargo build"));
            let deps = t.get("depends-on").and_then(|v| v.as_array()).unwrap();
            assert_eq!(deps.iter().map(|x| x.as_str().unwrap()).collect::<Vec<_>>(), vec!["fmt"]);
            assert_eq!(t.get("cwd").and_then(|v| v.as_str()), Some("src"));
            let env = t.get("env").and_then(|v| v.as_inline_table()).unwrap();
            assert_eq!(env.get("K").and_then(|v| v.as_str()), Some("v"));
        }
        _ => panic!("expected a table"),
    }
}

#[test]
fn toml_of_alias_has_depends_on() {
    match task_to_toml(Task::Alias(pixi_task::model::Alias { depends_on: vec![s("a"), s("b")] })) {
        TomlTask::Table(t) => {
            assert_eq!(t.len(), 1);
            let deps = t.get("depends-on").and_then(|v| v.as_array()).unwrap();
            assert_eq!(deps.len(), 2);
        }
        _ => panic!("expected a table"),
    }
}

#[test]
fn environment_tasks_cover_all_scopes() {
    let mut m = Manifest::new();
    m.add_task(s("a"), Task::Plain(s("x")), None, FeatureName::Default);
    m.add_task(s("b"), Task::Plain(s("y")), Some(s("linux-64")), FeatureName::Default);
    m.add_task(s("c"), Task::Plain(s("z")), None, FeatureName::Named(s("lint")));
    m.add_task(s("d"), Task::Plain(s("w")), Some(s("win-64")), FeatureName::Default);
    let scopes = vec![
        (None, FeatureName::Default),
        (Some(s("linux-64")), FeatureName::Default),
        (None, FeatureName::Named(s("lint"))),
    ];
    let mut names = m.environment_tasks(&scopes);
    names.sort();
    assert_eq!(names, vec![s("a"), s("b"), s("c")]);
}

#[test]
fn sorted_env_tasks_lists_each_name_once() {
    let e = env("default", &["build", "a", "build", "a"], true);
    assert_eq!(sorted_env_tasks(&e), vec![s("a"), s("build")]);
}
