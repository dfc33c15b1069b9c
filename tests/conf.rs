use snake_lobby::conf::{prefixed_env, Env, EnvConf};

fn some(s: &str) -> Option<String> {
    Some(s.to_string())
}

#[test]
fn conf_default_current_env() {
    assert!(Env::current(None, None).unwrap().local());
}

#[test]
fn conf_default_current_env_not() {
    assert!(!Env::current(None, None).unwrap().prod());
}

#[test]
fn conf_env() {
    let local = Env::Local.as_str();
    let prod = Env::Prod.as_str();
    let cases: Vec<(Option<String>, Option<String>, Result<Env, ()>)> = vec![
        (some(prod), None, Ok(Env::Prod)),
        (some(local), None, Ok(Env::Local)),
        (None, None, Ok(Env::Local)),
        (None, some(local), Ok(Env::Local)),
        (None, some(prod), Ok(Env::Prod)),
        (some(local), some(local), Ok(Env::Local)),
        (some(local), some(prod), Ok(Env::Prod)),
        (some(prod), some(local), Ok(Env::Local)),
        (some(prod), some(prod), Ok(Env::Prod)),
        (some(""), None, Err(())),
        (some(""), None, Err(())),
        (some(""), some(""), Err(())),
    ];
    for (shared, own, expected) in cases {
        let got = Env::current(shared.clone(), own.clone());
        match expected {
            Ok(e) => assert_eq!(got.unwrap(), e, "{:?} {:?}", shared, own),
            Err(()) => assert!(got.is_err(), "{:?} {:?}", shared, own),
        }
    }
}

#[test]
fn env_name_is_case_insensitive() {
    assert_eq!(Env::try_from_str("PrOd").unwrap(), Env::Prod);
    assert_eq!(Env::try_from_str("LOCAL").unwrap(), Env::Local);
}

#[test]
fn env_unknown_name_is_quoted() {
    let e = Env::from_lowercase("staging").unwrap_err();
    assert_eq!(e, "staging is not a supported environment. Use either `local` or `prod`.");
    assert!(Env::try_from_str("Staging").is_err());
}

#[test]
fn env_names_round_trip() {
    assert_eq!(Env::from_lowercase(Env::Local.as_str()).unwrap(), Env::Local);
    assert_eq!(Env::from_lowercase(Env::Prod.as_str()).unwrap(), Env::Prod);
}

#[test]
fn prefixed_env_names_variable() {
    assert_eq!(prefixed_env("ENV"), "BE__ENV");
    assert_eq!(prefixed_env("CONF_DIR"), "BE__CONF_DIR");
}

#[test]
fn test_default_conf() {
    let c = EnvConf::test_default();
    assert_eq!(c.port, 0);
    assert_eq!(c.host, "127.0.0.1");
    assert!(!c.log.pretty);
}
