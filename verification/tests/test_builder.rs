use dotenvy::builder::{dotenv, from_filename, from_path, from_read, BuilderFinalizer};
use dotenvy::env::Env;
use dotenvy::errors::Error;
use dotenvy::find::{Candidate, Probe};
use dotenvy::iter::Iter;

const EXISTING: &str = "EXISTING";
const TESTKEY: &str = "TESTKEY";

/// A working directory three levels deep, as the loader sees it: what a probe
/// for `.env` finds in it and in each directory above it, and the environment.
struct World {
    candidates: Vec<Candidate>,
    env: Env,
}

fn world(probe: Probe) -> World {
    let mut env = Env::new();
    env.set(EXISTING.as_bytes().to_vec(), "from_env".as_bytes().to_vec());
    let candidates = vec![
        Candidate { path: "/tmp/work/.env".to_string(), probe },
        Candidate { path: "/tmp/.env".to_string(), probe: Probe::Missing },
        Candidate { path: "/.env".to_string(), probe: Probe::Missing },
    ];
    World { candidates, env }
}

fn tempdir_without_dotenv() -> World {
    world(Probe::Missing)
}

fn test_dotenv_text() -> Vec<u8> {
    format!("{TESTKEY}=test_val\n{TESTKEY}=test_val_overridden\n{EXISTING}=from_file").into_bytes()
}

fn make_test_dotenv() -> World {
    world(Probe::Readable(test_dotenv_text()))
}

fn var(env: &Env, key: &str) -> Option<String> {
    env.get(key.as_bytes()).map(|value| String::from_utf8(value.clone()).unwrap())
}

type InjectLoad = fn(&str, &[Candidate], &mut Env) -> Result<Option<String>, Error>;
type InjectIter = fn(&str, &[Candidate]) -> Result<Option<Iter>, Error>;

fn check_missing_fails_load(loader: InjectLoad) {
    let mut w = tempdir_without_dotenv();
    assert!(loader("/tmp/work/.env", &w.candidates, &mut w.env).is_err());
}

fn check_missing_optional_load(loader: InjectLoad) {
    let mut w = tempdir_without_dotenv();
    loader("/tmp/work/.env", &w.candidates, &mut w.env).unwrap();
    assert!(var(&w.env, TESTKEY).is_none());
    assert_eq!(var(&w.env, EXISTING).unwrap(), "from_env");
}

// Of two entries with one key the later decides, with or without
// overriding: the key was not set before the load began.
fn check_normal_load(loader: InjectLoad) {
    let mut w = make_test_dotenv();
    loader("/tmp/work/.env", &w.candidates, &mut w.env).unwrap();
    assert_eq!(var(&w.env, TESTKEY).unwrap(), "test_val_overridden");
    assert_eq!(var(&w.env, EXISTING).unwrap(), "from_env");
}

fn check_override_load(loader: InjectLoad) {
    let mut w = make_test_dotenv();
    loader("/tmp/work/.env", &w.candidates, &mut w.env).unwrap();
    assert_eq!(var(&w.env, TESTKEY).unwrap(), "test_val_overridden");
    assert_eq!(var(&w.env, EXISTING).unwrap(), "from_file");
}

fn check_missing_fails_iter(loader: InjectIter) {
    let w = tempdir_without_dotenv();
    assert!(loader("/tmp/work/.env", &w.candidates).is_err());
}

fn check_missing_optional_iter(loader: InjectIter) {
    let mut w = tempdir_without_dotenv();
    let iter = loader("/tmp/work/.env", &w.candidates).unwrap();
    assert!(var(&w.env, TESTKEY).is_none());
    if let Some(iter) = iter {
        iter.load(&mut w.env).unwrap();
    }
    assert!(var(&w.env, TESTKEY).is_none());
    assert_eq!(var(&w.env, EXISTING).unwrap(), "from_env");
}

fn check_normal_iter(loader: InjectIter) {
    let mut w = make_test_dotenv();
    let iter = loader("/tmp/work/.env", &w.candidates).unwrap();
    assert!(var(&w.env, TESTKEY).is_none());
    if let Some(iter) = iter {
        iter.load(&mut w.env).unwrap();
    }
    assert_eq!(var(&w.env, TESTKEY).unwrap(), "test_val_overridden");
    assert_eq!(var(&w.env, EXISTING).unwrap(), "from_env");
}

#[test]
fn test_builder_load_default() {
    check_missing_fails_load(|_, c, e| dotenv().load(c, e));
    check_missing_optional_load(|_, c, e| dotenv().allow_missing().load(c, e));
    check_normal_load(|_, c, e| dotenv().load(c, e));
    check_override_load(|_, c, e| dotenv().override_duplicates().load(c, e));

    // All options work, in any order.
    check_override_load(|_, c, e| dotenv().allow_missing().override_duplicates().load(c, e));
    check_override_load(|_, c, e| dotenv().override_duplicates().allow_missing().load(c, e));
}

#[test]
fn test_builder_load_filename() {
    check_missing_fails_load(|_, c, e| from_filename(".env").load(c, e));
    check_missing_optional_load(|_, c, e| from_filename(".env").allow_missing().load(c, e));
    check_normal_load(|_, c, e| from_filename(".env").load(c, e));
    check_override_load(|_, c, e| from_filename(".env").override_duplicates().load(c, e));
}

#[test]
fn test_builder_load_path() {
    check_missing_fails_load(|p, c, e| from_path(p).load(c, e));
    check_missing_optional_load(|p, c, e| from_path(p).allow_missing().load(c, e));
    check_normal_load(|p, c, e| from_path(p).load(c, e));
    check_override_load(|p, c, e| from_path(p).override_duplicates().load(c, e));
}

#[test]
fn test_builder_load_read() {
    check_normal_load(|_, c, e| from_read(test_dotenv_text()).load(c, e));
    check_override_load(|_, c, e| from_read(test_dotenv_text()).override_duplicates().load(c, e));
}

#[test]
fn test_builder_iter_default() {
    check_missing_fails_iter(|_, c| dotenv().iter(c));
    check_missing_optional_iter(|_, c| dotenv().allow_missing().iter(c));
    check_normal_iter(|_, c| dotenv().iter(c));
}

#[test]
fn test_builder_iter_filename() {
    check_missing_fails_iter(|_, c| from_filename(".env").iter(c));
    check_missing_optional_iter(|_, c| from_filename(".env").allow_missing().iter(c));
    check_normal_iter(|_, c| from_filename(".env").iter(c));
}

#[test]
fn test_builder_iter_path() {
    check_missing_fails_iter(|p, c| from_path(p).iter(c));
    check_missing_optional_iter(|p, c| from_path(p).allow_missing().iter(c));
    check_normal_iter(|p, c| from_path(p).iter(c));
}

#[test]
fn test_builder_iter_read() {
    println!("check_normal_iter_read");
    let mut w = make_test_dotenv();
    let file = match &w.candidates[0].probe {
        Probe::Readable(text) => text.clone(),
        _ => panic!("Provided path is missing"),
    };
    assert!(w.candidates[0].path.ends_with(".env"));
    let iter = from_read(file).iter(&[]).unwrap();

    assert!(var(&w.env, TESTKEY).is_none());

    if let Some(iter) = iter {
        iter.load(&mut w.env).unwrap();
    }
    assert_eq!(var(&w.env, "TESTKEY").unwrap(), "test_val_overridden");
    assert_eq!(var(&w.env, "EXISTING").unwrap(), "from_env");
}
