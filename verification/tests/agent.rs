use bench_rs::agent::Agent;
use bench_rs::benchmark::ConfigError;

#[test]
fn agent_keeps_the_endpoint() {
    let agent = Agent::try_new("http://127.0.0.1:8080").unwrap();
    assert_eq!(agent.base_url(), "http://127.0.0.1:8080");
    assert_eq!(agent.user_agent(), "");
}

#[test]
fn agent_new_takes_an_absolute_url() {
    let agent = Agent::new("https://example.com/api/");
    assert_eq!(agent.base_url(), "https://example.com/api/");
    assert_eq!(agent.user_agent(), "");
}

#[test]
fn agent_refuses_what_is_no_absolute_url() {
    assert_eq!(Agent::try_new("").err(), Some(ConfigError::InvalidEndpoint));
    assert_eq!(
        Agent::try_new("not a url").err(),
        Some(ConfigError::InvalidEndpoint)
    );
    assert_eq!(
        Agent::try_new("/only/a/path").err(),
        Some(ConfigError::InvalidEndpoint)
    );
    assert_eq!(
        Agent::try_new("http://").err(),
        Some(ConfigError::InvalidEndpoint)
    );
    assert_eq!(
        Agent::try_new("example.com").err(),
        Some(ConfigError::InvalidEndpoint)
    );
}

#[test]
fn agent_accepts_absolute_urls() {
    for base_url in [
        "http://localhost",
        "http://localhost:3000/",
        "https://example.com",
        "http://[::1]:8080/base",
    ] {
        let agent = Agent::try_new(base_url).unwrap();
        assert_eq!(agent.base_url(), base_url);
    }
}

#[test]
fn set_user_agent_replaces_the_user_agent() {
    let mut agent = Agent::try_new("http://localhost").unwrap();
    agent.set_user_agent("BENCH_RS");
    assert_eq!(agent.user_agent(), "BENCH_RS");
    assert_eq!(agent.base_url(), "http://localhost");
    agent.set_user_agent("other");
    assert_eq!(agent.user_agent(), "other");
    agent.set_user_agent("");
    assert_eq!(agent.user_agent(), "");
}

#[test]
fn clone_of_agent_is_independent() {
    let mut agent = Agent::try_new("http://localhost").unwrap();
    agent.set_user_agent("BENCH_RS");
    let mut copy = agent.clone();
    copy.set_user_agent("copy");
    assert_eq!(agent.user_agent(), "BENCH_RS");
    assert_eq!(copy.user_agent(), "copy");
    assert_eq!(copy.base_url(), "http://localhost");
}
