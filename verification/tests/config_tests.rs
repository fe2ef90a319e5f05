use pool_graph::config::Args;

fn base_args() -> Args {
    Args {
        rpc: String::from("http://localhost:8545"),
        wss: String::from("ws://localhost:8546"),
        username: None,
        password: None,
        chain: String::from("mainnet"),
    }
}

#[test]
fn no_username_means_no_credentials() {
    assert!(base_args().credentials().is_none());
}

#[test]
fn username_and_password_become_credentials() {
    let mut args = base_args();
    args.username = Some(String::from("observer"));
    args.password = Some(String::from("pw"));
    let (user, pass) = args.credentials().unwrap();
    assert_eq!(user, "observer");
    assert_eq!(pass, "pw");
}
