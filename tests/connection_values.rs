use wand::connection::{Auth, CommandResult, LocalConnection};

#[test]
fn auth_key_creation() {
    let auth = Auth::key("/home/user/.ssh/id_rsa");
    match auth {
        Auth::Key { private_key, passphrase } => {
            assert_eq!(private_key, "/home/user/.ssh/id_rsa");
            assert!(passphrase.is_none());
        }
        _ => panic!("Expected Key auth"),
    }
}

#[test]
fn auth_password_creation() {
    let auth = Auth::password("secret");
    match auth {
        Auth::Password(p) => assert_eq!(p, "secret"),
        _ => panic!("Expected Password auth"),
    }
}

#[test]
fn command_result_fields() {
    let result = CommandResult {
        stdout: "output".to_string(),
        stderr: "error".to_string(),
        exit_code: 0,
    };
    assert_eq!(result.stdout, "output");
    assert_eq!(result.stderr, "error");
    assert_eq!(result.exit_code, 0);
}

#[test]
fn auth_with_passphrase_and_agent() {
    match Auth::key_with_passphrase("/k", "pw") {
        Auth::Key { private_key, passphrase } => {
            assert_eq!(private_key, "/k");
            assert_eq!(passphrase, Some("pw".to_string()));
        }
        _ => panic!("Expected Key auth"),
    }
    assert!(matches!(Auth::agent(), Auth::Agent));
}

#[test]
fn local_connection_is_localhost() {
    let c = LocalConnection::new();
    assert_eq!(c.host(), "localhost");
}
