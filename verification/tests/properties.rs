use dotenvy::builder::{
    dotenv, from_filename, from_path, from_read, Builder, BuilderFinalizer, FileSource,
};
use dotenvy::env::{Env, ParsedEntry};
use dotenvy::errors::{Error, ParseErrorKind};
use dotenvy::find::{open_path, settled, Candidate, Finder, Probe};
use dotenvy::iter::Iter;
use dotenvy::parse::{parse_line, ParsedLine};
use dotenvy::policy::apply_entry;

fn env_of(pairs: &[(&str, &str)]) -> Env {
    let mut env = Env::new();
    for (k, v) in pairs {
        env.set(k.as_bytes().to_vec(), v.as_bytes().to_vec());
    }
    env
}

fn value(env: &Env, key: &str) -> Option<String> {
    env.get(key.as_bytes()).map(|v| String::from_utf8(v.clone()).unwrap())
}

fn pair(key: &str, value: &str) -> ParsedEntry {
    ParsedEntry { key: key.as_bytes().to_vec(), value: value.as_bytes().to_vec() }
}

fn load_text(text: &str, env: &mut Env, override_existing: bool) -> Result<Option<String>, Error> {
    let builder = from_read(text.as_bytes().to_vec());
    if override_existing {
        builder.override_duplicates().load(&[], env)
    } else {
        builder.load(&[], env)
    }
}

fn entries_of(text: &str, env: &Env) -> Vec<Result<ParsedEntry, Error>> {
    let mut iter = Iter::new(text.as_bytes().to_vec());
    let mut out = Vec::new();
    while let Some(item) = iter.next_entry(env) {
        out.push(item);
    }
    out
}

fn at(path: &str, probe: Probe) -> Candidate {
    Candidate { path: path.to_string(), probe }
}

#[test]
fn plain_value_is_trimmed() {
    let line = parse_line(b"KEY= \t some value \t ", 1, &Env::new(), &Env::new());
    assert_eq!(line, ParsedLine::Entry(pair("KEY", "some value")));
}

#[test]
fn single_quoted_value_comes_back_unchanged() {
    let env = env_of(&[("HOME", "/root")]);
    let line = parse_line(b"KEY='$HOME ${HOME} # \\n \\\\ \\x \"'", 1, &env, &env);
    assert_eq!(line, ParsedLine::Entry(pair("KEY", "$HOME ${HOME} # \\n \\\\ \\x \"")));
}

#[test]
fn loading_twice_is_loading_once() {
    let text = "A=1\nEXISTING=from_file\nB=${A}${EXISTING}\nA=2\n";
    let mut once = env_of(&[("EXISTING", "from_env")]);
    load_text(text, &mut once, false).unwrap();
    let mut twice = env_of(&[("EXISTING", "from_env")]);
    load_text(text, &mut twice, false).unwrap();
    load_text(text, &mut twice, false).unwrap();
    for key in ["A", "B", "EXISTING"] {
        assert_eq!(value(&once, key), value(&twice, key));
    }
    assert_eq!(value(&twice, "EXISTING").unwrap(), "from_env");
    assert_eq!(value(&twice, "A").unwrap(), "2");
    assert_eq!(value(&twice, "B").unwrap(), "1from_file");
}

#[test]
fn existing_value_wins_unless_overridden() {
    let mut env = env_of(&[("EXISTING", "from_env")]);
    load_text("EXISTING=from_file", &mut env, false).unwrap();
    assert_eq!(value(&env, "EXISTING").unwrap(), "from_env");

    let mut env = env_of(&[("EXISTING", "from_env")]);
    load_text("EXISTING=from_file", &mut env, true).unwrap();
    assert_eq!(value(&env, "EXISTING").unwrap(), "from_file");
}

#[test]
fn later_duplicate_wins_in_both_modes() {
    for override_existing in [false, true] {
        let mut env = Env::new();
        load_text("KEY=a\nKEY=b", &mut env, override_existing).unwrap();
        assert_eq!(value(&env, "KEY").unwrap(), "b");
    }
}

#[test]
fn existing_key_with_duplicates_in_the_file() {
    let mut env = env_of(&[("KEY", "env")]);
    load_text("KEY=a\nKEY=b", &mut env, false).unwrap();
    assert_eq!(value(&env, "KEY").unwrap(), "env");

    let mut env = env_of(&[("KEY", "env")]);
    load_text("KEY=a\nKEY=b", &mut env, true).unwrap();
    assert_eq!(value(&env, "KEY").unwrap(), "b");
}

#[test]
fn discovery_walks_upwards() {
    let ladder = vec![
        at("/a/b/c/.env", Probe::Missing),
        at("/a/b/.env", Probe::Missing),
        at("/a/.env", Probe::Readable(b"FOUND=yes".to_vec())),
        at("/.env", Probe::Readable(b"FOUND=too_far".to_vec())),
    ];
    let mut env = Env::new();
    assert_eq!(dotenv().load(&ladder, &mut env), Ok(Some("/a/.env".to_string())));
    assert_eq!(value(&env, "FOUND").unwrap(), "yes");

    let (origin, _) = Finder::new().find(&ladder).ok().unwrap();
    assert_eq!(origin, "/a/.env");
}

#[test]
fn discovery_without_a_file_is_not_found() {
    let ladder = vec![
        at("/a/b/c/.env", Probe::Missing),
        at("/a/b/.env", Probe::Missing),
        at("/a/.env", Probe::Missing),
        at("/.env", Probe::Missing),
    ];
    let mut env = Env::new();
    assert_eq!(dotenv().load(&ladder, &mut env), Err(Error::NotFound));
    assert_eq!(from_filename("settings").load(&[], &mut env), Err(Error::NotFound));
    assert!(Finder::new().find(&ladder).is_err());
}

#[test]
fn missing_and_optional_is_success_without_origin() {
    let ladder = vec![at("/a/.env", Probe::Missing), at("/.env", Probe::Missing)];
    let mut env = env_of(&[("EXISTING", "from_env")]);
    assert_eq!(dotenv().allow_missing().load(&ladder, &mut env), Ok(None));
    assert_eq!(value(&env, "EXISTING").unwrap(), "from_env");
    assert!(dotenv().allow_missing().iter(&ladder).unwrap().is_none());
    assert_eq!(from_path("/a/.env").allow_missing().load(&ladder, &mut env), Ok(None));
}

#[test]
fn unreadable_file_is_io_even_when_missing_is_allowed() {
    let ladder = vec![at("/a/b/.env", Probe::Missing), at("/a/.env", Probe::Unreadable)];
    let mut env = Env::new();
    assert_eq!(dotenv().load(&ladder, &mut env), Err(Error::Io));
    assert_eq!(dotenv().allow_missing().load(&ladder, &mut env), Err(Error::Io));
    assert_eq!(from_path("/a/.env").allow_missing().load(&ladder, &mut env), Err(Error::Io));
    assert!(dotenv().allow_missing().iter(&ladder).is_err());
}

#[test]
fn explicit_path_is_opened_exactly() {
    let probes = vec![
        at("/etc/other", Probe::Readable(b"OTHER=1".to_vec())),
        at("/etc/app.env", Probe::Readable(b"APP=1".to_vec())),
    ];
    let mut env = Env::new();
    assert_eq!(from_path("/etc/app.env").load(&probes, &mut env), Ok(Some("/etc/app.env".to_string())));
    assert_eq!(value(&env, "APP").unwrap(), "1");
    assert!(value(&env, "OTHER").is_none());
    assert_eq!(from_path("/etc/nothing").load(&probes, &mut env), Err(Error::NotFound));
    assert!(open_path(&"/etc/app.env".to_string(), &probes).is_ok());
}

#[test]
fn resolving_twice_is_a_state_failure() {
    let ladder = vec![at("/a/.env", Probe::Readable(b"A=1".to_vec()))];
    let mut builder = dotenv();
    let (origin, iter) = builder.find_iter(&ladder).unwrap();
    assert_eq!(origin, Some("/a/.env".to_string()));
    assert!(iter.is_some());
    assert_eq!(builder.find_iter(&ladder).err(), Some(Error::State));
    let mut env = Env::new();
    assert_eq!(builder.load(&ladder, &mut env), Err(Error::State));
    assert!(value(&env, "A").is_none());

    let mut missing = dotenv().allow_missing();
    assert!(missing.find_iter(&[]).is_ok());
    assert_eq!(missing.find_iter(&[]).err(), Some(Error::State));
}

#[test]
fn interpolation_from_the_file_and_undefined() {
    let mut env = Env::new();
    load_text("A=1\nB=${A}2", &mut env, false).unwrap();
    assert_eq!(value(&env, "B").unwrap(), "12");

    let mut env = Env::new();
    load_text("B=$UNDEFINED", &mut env, false).unwrap();
    assert_eq!(value(&env, "B").unwrap(), "");
}

#[test]
fn interpolation_prefers_the_latest_definition_in_the_file() {
    let mut env = env_of(&[("A", "env"), ("HOME", "/root")]);
    load_text("B=$A\nA=one\nC=$A\nA=two\nD=\"$A $HOME\"", &mut env, false).unwrap();
    assert_eq!(value(&env, "A").unwrap(), "env");
    assert_eq!(value(&env, "B").unwrap(), "env");
    assert_eq!(value(&env, "C").unwrap(), "one");
    assert_eq!(value(&env, "D").unwrap(), "two /root");
}

#[test]
fn multi_line_value_is_one_entry() {
    let env = Env::new();
    let items = entries_of("KEY=\"line1\nline2\"\nNEXT=1\n", &env);
    assert_eq!(items, vec![Ok(pair("KEY", "line1\nline2")), Ok(pair("NEXT", "1"))]);
}

#[test]
fn byte_order_mark_is_skipped_once() {
    let mut text = vec![0xEF, 0xBB, 0xBF];
    text.extend_from_slice(b"A=1\nB=2");
    let mut env = Env::new();
    from_read(text).load(&[], &mut env).unwrap();
    assert_eq!(value(&env, "A").unwrap(), "1");
    assert_eq!(value(&env, "B").unwrap(), "2");

    let mut text = b"A=1\n".to_vec();
    text.extend_from_slice(&[0xEF, 0xBB, 0xBF]);
    text.extend_from_slice(b"B=2");
    let mut env = Env::new();
    assert_eq!(
        from_read(text).load(&[], &mut env),
        Err(Error::Parse { kind: ParseErrorKind::InvalidKey, line: 2 })
    );
}

#[test]
fn each_kind_of_parse_failure_with_its_line() {
    let cases: [(&str, ParseErrorKind, usize); 6] = [
        ("A=1\nB\n", ParseErrorKind::MissingEquals, 2),
        ("# c\n\nA=1\n=x", ParseErrorKind::InvalidKey, 4),
        ("A='open", ParseErrorKind::UnterminatedQuote, 1),
        ("A=1\nB=\"open\nstill open\n", ParseErrorKind::UnterminatedQuote, 2),
        ("A=\"x\ny\"\nB=\\q", ParseErrorKind::BadEscape, 3),
        ("\r\n\r\nA=\"\\z\"", ParseErrorKind::BadEscape, 3),
    ];
    for (text, kind, line) in cases {
        let mut env = Env::new();
        assert_eq!(load_text(text, &mut env, false), Err(Error::Parse { kind, line }));
    }
}

#[test]
fn entries_before_a_failure_stay_applied() {
    let mut env = Env::new();
    let r = load_text("A=1\nB=2\nbroken line\nC=3", &mut env, false);
    assert_eq!(r, Err(Error::Parse { kind: ParseErrorKind::MissingEquals, line: 3 }));
    assert_eq!(value(&env, "A").unwrap(), "1");
    assert_eq!(value(&env, "B").unwrap(), "2");
    assert!(value(&env, "C").is_none());
}

#[test]
fn iteration_ends_at_the_first_failure() {
    let env = Env::new();
    let items = entries_of("A=1\n\n# note\nB\nC=3\n", &env);
    assert_eq!(
        items,
        vec![
            Ok(pair("A", "1")),
            Err(Error::Parse { kind: ParseErrorKind::MissingEquals, line: 4 }),
        ]
    );
}

#[test]
fn iteration_over_empty_and_blank_texts() {
    let env = Env::new();
    assert!(entries_of("", &env).is_empty());
    assert!(entries_of("\n\n  \n# only comments\n", &env).is_empty());
    let mut iter = Iter::new(Vec::new());
    assert!(iter.next_entry(&env).is_none());
    assert!(iter.next_entry(&env).is_none());
}

#[test]
fn iteration_applies_nothing_by_itself() {
    let env = env_of(&[("EXISTING", "from_env")]);
    let items = entries_of("EXISTING=from_file\nNEW=$EXISTING", &env);
    assert_eq!(items, vec![Ok(pair("EXISTING", "from_file")), Ok(pair("NEW", "from_file"))]);
    assert_eq!(value(&env, "EXISTING").unwrap(), "from_env");
    assert!(value(&env, "NEW").is_none());
}

#[test]
fn windows_line_endings() {
    let mut env = Env::new();
    load_text("A=1\r\nB='two'\r\nC=\"three\"\r\n", &mut env, false).unwrap();
    assert_eq!(value(&env, "A").unwrap(), "1");
    assert_eq!(value(&env, "B").unwrap(), "two");
    assert_eq!(value(&env, "C").unwrap(), "three");
}

#[test]
fn origin_of_a_stream_is_none() {
    let mut env = Env::new();
    assert_eq!(from_read(b"A=1".to_vec()).load(&[at("/x", Probe::Missing)], &mut env), Ok(None));
    assert_eq!(value(&env, "A").unwrap(), "1");
    assert!(from_read(Vec::new()).iter(&[]).unwrap().is_some());
}

#[test]
fn named_file_is_what_the_caller_probes_for() {
    assert_eq!(dotenv().file_source().search_name(), Some(".env".to_string()));
    assert_eq!(dotenv().file_source().explicit_path(), None);
    assert_eq!(from_filename("settings.env").file_source().search_name(), Some("settings.env".to_string()));
    assert_eq!(from_path("/etc/app.env").file_source().search_name(), None);
    assert_eq!(from_path("/etc/app.env").file_source().explicit_path(), Some("/etc/app.env".to_string()));
    assert_eq!(Finder::new().target(), ".env");
    assert_eq!(Finder::new().filename("other").target(), "other");
}

#[test]
fn policy_on_one_entry() {
    let pre = env_of(&[("SET", "old")]);
    let mut env = pre.snapshot();
    assert!(!apply_entry(&mut env, &pre, pair("SET", "new"), false));
    assert_eq!(value(&env, "SET").unwrap(), "old");
    assert!(apply_entry(&mut env, &pre, pair("SET", "new"), true));
    assert_eq!(value(&env, "SET").unwrap(), "new");
    assert!(apply_entry(&mut env, &pre, pair("FRESH", "1"), false));
    assert!(apply_entry(&mut env, &pre, pair("FRESH", "2"), false));
    assert_eq!(value(&env, "FRESH").unwrap(), "2");
}

#[test]
fn environment_table() {
    let mut env = Env::new();
    assert!(!env.contains(b"A"));
    assert!(env.get(b"A").is_none());
    env.set(b"A".to_vec(), b"1".to_vec());
    env.set(b"B".to_vec(), b"2".to_vec());
    env.set(b"A".to_vec(), b"3".to_vec());
    assert!(env.contains(b"A"));
    assert_eq!(env.get(b"A").unwrap(), b"3");
    assert_eq!(env.get(b"B").unwrap(), b"2");
    let copy = env.snapshot();
    env.remove(b"A");
    env.remove(b"missing");
    assert!(!env.contains(b"A"));
    assert_eq!(env.get(b"B").unwrap(), b"2");
    assert_eq!(copy.get(b"A").unwrap(), b"3");
    assert_eq!(env.entries().len(), 1);
    assert_eq!(copy.entries().len(), 2);
}

#[test]
fn not_found_is_told_apart() {
    assert!(Error::NotFound.not_found());
    assert!(!Error::Io.not_found());
    assert!(!Error::State.not_found());
    assert!(!Error::Parse { kind: ParseErrorKind::BadEscape, line: 1 }.not_found());
}

#[test]
fn default_configuration_is_the_default_search() {
    let builder: Builder<FileSource> = Default::default();
    assert_eq!(builder.file_source().search_name(), Some(".env".to_string()));
    let mut env = Env::new();
    assert_eq!(builder.load(&[], &mut env), Err(Error::NotFound));
    assert_eq!(FileSource::default().search_name(), Some(".env".to_string()));
}

#[test]
fn search_is_settled_by_the_first_file() {
    assert!(!settled(&[]));
    assert!(!settled(&[at("/a/b/.env", Probe::Missing), at("/a/.env", Probe::Missing)]));
    assert!(settled(&[at("/a/b/.env", Probe::Missing), at("/a/.env", Probe::Unreadable)]));
    assert!(settled(&[at("/a/b/.env", Probe::Readable(Vec::new()))]));
}
