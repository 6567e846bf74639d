use dotenvy::builder2::{dotenv, from_filename, from_path, from_read, Builder2, BuilderFinalizer, FileSource};
use dotenvy::env::Env;
use dotenvy::errors::Error;
use dotenvy::find::{Candidate, Probe};

fn ladder(probe: Probe) -> Vec<Candidate> {
    vec![
        Candidate { path: "/work/.env".to_string(), probe },
        Candidate { path: "/.env".to_string(), probe: Probe::Missing },
    ]
}

fn text() -> Vec<u8> {
    b"TESTKEY=test_val\nEXISTING=from_file".to_vec()
}

fn existing() -> Env {
    let mut env = Env::new();
    env.set(b"EXISTING".to_vec(), b"from_env".to_vec());
    env
}

#[test]
fn optional_tolerates_a_missing_file() {
    let mut env = existing();
    assert_eq!(dotenv().load(&ladder(Probe::Missing), &mut env), Err(Error::NotFound));
    assert_eq!(dotenv().optional().load(&ladder(Probe::Missing), &mut env), Ok(None));
    assert_eq!(from_filename(".env").optional().load(&ladder(Probe::Missing), &mut env), Ok(None));
    assert_eq!(from_path("/work/.env").optional().load(&ladder(Probe::Missing), &mut env), Ok(None));
    assert_eq!(env.get(b"EXISTING").unwrap(), b"from_env");
    assert!(env.get(b"TESTKEY").is_none());
}

#[test]
fn overryde_replaces_existing_values() {
    let mut env = existing();
    let builder: Builder2<FileSource> = dotenv();
    builder.load(&ladder(Probe::Readable(text())), &mut env).unwrap();
    assert_eq!(env.get(b"EXISTING").unwrap(), b"from_env");
    assert_eq!(env.get(b"TESTKEY").unwrap(), b"test_val");

    let mut env = existing();
    dotenv().optional().overryde().load(&ladder(Probe::Readable(text())), &mut env).unwrap();
    assert_eq!(env.get(b"EXISTING").unwrap(), b"from_file");

    let mut env = existing();
    from_read(text()).overryde().load(&[], &mut env).unwrap();
    assert_eq!(env.get(b"EXISTING").unwrap(), b"from_file");
}
