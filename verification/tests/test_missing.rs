use dotenvy::builder::{dotenv, BuilderFinalizer};
use dotenvy::env::Env;
use dotenvy::errors::Error;
use dotenvy::find::{Candidate, Probe};

fn nowhere() -> Vec<Candidate> {
    vec![
        Candidate { path: "/tmp/work/.env".to_string(), probe: Probe::Missing },
        Candidate { path: "/tmp/.env".to_string(), probe: Probe::Missing },
        Candidate { path: "/.env".to_string(), probe: Probe::Missing },
    ]
}

fn from_env() -> Env {
    let mut env = Env::new();
    env.set(b"EXISTING".to_vec(), b"from_env".to_vec());
    env
}

#[test]
fn test_missing_fails() {
    let mut env = from_env();
    assert!(dotenv().load(&nowhere(), &mut env).is_err());
    assert_eq!(dotenv().load(&nowhere(), &mut env), Err(Error::NotFound));
}

#[test]
fn test_missing_optional() {
    let mut env = from_env();
    assert_eq!(dotenv().allow_missing().load(&nowhere(), &mut env), Ok(None));

    assert!(env.get(b"TESTKEY").is_none());
    assert_eq!(env.get(b"EXISTING").unwrap(), b"from_env");
}
