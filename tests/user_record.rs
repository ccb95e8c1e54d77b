use pass_manager::cmd::{parse_email, parse_remote};
use pass_manager::error::PassManagerErr;
use pass_manager::manager::Manager;
use pass_manager::pass_manager::PasswordEntry;
use pass_manager::table::Table;
use pass_manager::user::{credential_request, parse_credentials, remote_host, Credentials, Remote, User};

#[test]
fn remote_host_of_urls() {
    assert_eq!(remote_host("https://github.com/me/store.git").unwrap(), "github.com");
    assert!(matches!(remote_host("not a url"), Err(PassManagerErr::Url { .. })));
    assert!(matches!(remote_host("mailto:me@example.com"), Err(PassManagerErr::Host)));
}

#[test]
fn set_remote_and_clear_it() {
    let mut u = User::new("n".to_string(), "e@x.y".to_string());
    assert!(!u.needs_credentials(None));
    let creds = Credentials { username: "me".to_string(), password: "pw".to_string() };
    u.set_remote("https://example.org/repo.git", Some(creds)).unwrap();
    let r: &Remote = u.remote.as_ref().unwrap();
    assert_eq!(r.host, "example.org");
    assert_eq!(r.url, "https://example.org/repo.git");
    assert!(u.needs_credentials(None));
    assert!(!u.needs_credentials(Some(false)));
    assert!(u.set_remote("::bad::", None).is_err());
    assert!(u.remote.is_some());
    u.set_remote("-", None).unwrap();
    assert!(u.remote.is_none());
}

#[test]
fn set_user_updates_given_fields() {
    let mut m = Manager::init("correcthorse", "Ada".to_string(), "ada@example.com".to_string()).unwrap();
    m.set_user(&None, &Some("new@example.com".to_string()), &Some("https://h.io/r".to_string()), None)
        .unwrap();
    assert_eq!(m.user.name, "Ada");
    assert_eq!(m.user.email, "new@example.com");
    assert_eq!(m.user.remote.as_ref().unwrap().host, "h.io");
    assert_eq!(m.success_message.as_deref(), Some("Successfully set user email,remote"));
    m.fs_dirty = false;
    assert!(m.set_user(&Some("Zed".to_string()), &None, &Some("nope".to_string()), None).is_err());
    assert_eq!(m.user.name, "Ada");
    assert!(!m.fs_dirty);
}

#[test]
fn credentials_from_helper_output() {
    let (u, p) = parse_credentials("protocol=https\nhost=h\nusername=me\npassword=a=b\n").unwrap();
    assert_eq!(u, "me");
    assert_eq!(p, "a=b");
    let (u, _) = parse_credentials("username=one\npassword=x\nusername=two").unwrap();
    assert_eq!(u, "two");
    assert!(matches!(parse_credentials("password=x\n"), Err(PassManagerErr::Creds { key }) if key == "username"));
    assert!(matches!(parse_credentials("username=x\n"), Err(PassManagerErr::Creds { key }) if key == "password"));
    assert!(matches!(parse_credentials(""), Err(PassManagerErr::Creds { key }) if key == "username, password"));
    assert!(matches!(parse_credentials("username=x\nbroken\n"), Err(PassManagerErr::Split)));
}

#[test]
fn email_and_remote_arguments() {
    assert_eq!(parse_email("ada@example.com").unwrap(), "ada@example.com");
    assert!(parse_email("not an address").is_err());
    assert_eq!(parse_remote("-").unwrap(), "-");
    assert_eq!(parse_remote("https://x.org/r").unwrap(), "https://x.org/r");
    assert!(parse_remote("no url").is_err());
}

#[test]
fn table_widths_follow_the_widest_cell() {
    let mut t = Table::new(["Label".to_string(), "Value".to_string()]);
    assert_eq!(t.maxes(), &[5, 5]);
    t.insert(["a".to_string(), "longer value".to_string()]);
    t.insert(["wide label".to_string(), "v".to_string()]);
    assert_eq!(t.maxes(), &[10, 12]);
    assert_eq!(t.rows().len(), 2);
}

#[test]
fn password_entry_keeps_its_parts() {
    let e = PasswordEntry::new([1; 12], vec![9, 8]);
    assert_eq!(e.nonce(), &[1; 12]);
    assert_eq!(e.password(), &vec![9, 8]);
}

#[test]
fn credential_request_names_the_host() {
    assert_eq!(credential_request("github.com"), "protocol=https\nhost=github.com\n");
}
