use pass_manager::cmd::{Cli, CliSubcommand, Store as StoreCmd, StoreSubcommand, SyncDirection,
    User as UserCmd, UserSubcommand};
use pass_manager::error::PassManagerErr;
use pass_manager::manager::{history_row, parse_commit_message, plan_undo, CommitInfo, Manager, UndoAction};
use pass_manager::store::{Item, Store};
use pass_manager::user::User;

fn cli(subcommand: CliSubcommand) -> Cli {
    Cli { subcommand }
}

#[test]
fn commit_messages_of_commands() {
    assert_eq!(cli(CliSubcommand::Delete { label: "gh".to_string() }).to_commit_message(), "store delete gh");
    assert_eq!(
        cli(CliSubcommand::Store(StoreCmd { subcommand: StoreSubcommand::Reset })).to_commit_message(),
        "store reset"
    );
    assert_eq!(
        cli(CliSubcommand::Store(StoreCmd { subcommand: StoreSubcommand::Modify })).to_commit_message(),
        "store modify"
    );
    assert_eq!(
        cli(CliSubcommand::User(UserCmd {
            subcommand: UserSubcommand::SetFields {
                name: Some("n".to_string()),
                email: None,
                remote: Some("-".to_string()),
            },
        }))
        .to_commit_message(),
        "user set name,remote"
    );
    assert_eq!(cli(CliSubcommand::List).to_commit_message(), "");
    assert_eq!(cli(CliSubcommand::Copy { label: "a".to_string() }).to_commit_message(), "");
    assert_eq!(
        cli(CliSubcommand::Store(StoreCmd {
            subcommand: StoreSubcommand::Sync { dir: SyncDirection::Push, force: false },
        }))
        .to_commit_message(),
        ""
    );
}

#[test]
fn parse_pads_two_word_messages() {
    assert_eq!(parse_commit_message("store reset"), vec!["store", "reset", "-"]);
    assert_eq!(parse_commit_message("store add github"), vec!["store", "add", "github"]);
    assert_eq!(parse_commit_message("store"), vec!["store"]);
    assert_eq!(parse_commit_message("a b c d"), vec!["a", "b", "c", "d"]);
    assert_eq!(parse_commit_message(""), vec![""]);
}

#[test]
fn plans_for_each_message() {
    assert!(matches!(plan_undo(Some("store delete gh")).unwrap(), UndoAction::RestoreLabel(l) if l == "gh"));
    assert!(matches!(plan_undo(Some("store reset")).unwrap(), UndoAction::RestoreItems));
    assert!(matches!(plan_undo(Some("store modify")).unwrap(), UndoAction::Refused));
    assert!(matches!(
        plan_undo(Some("user set name,remote")).unwrap(),
        UndoAction::RestoreUserFields { name: true, email: false, remote: true }
    ));
    assert!(matches!(plan_undo(Some("store initialize")), Err(PassManagerErr::CommitMsgFormat { .. })));
    assert!(matches!(plan_undo(Some("garbage")), Err(PassManagerErr::CommitMsgFormat { .. })));
    assert!(matches!(plan_undo(Some("store add a b")), Err(PassManagerErr::CommitMsgFormat { .. })));
    assert!(matches!(plan_undo(None), Err(PassManagerErr::InvalidCommitMessage)));
}

#[test]
fn undo_messages_can_be_undone_in_turn() {
    assert_eq!(UndoAction::RestoreLabel("gh".to_string()).commit_message(), "store add gh");
    assert_eq!(UndoAction::RestoreItems.commit_message(), "store reset");
    assert_eq!(UndoAction::Refused.commit_message(), "");
    assert_eq!(
        UndoAction::RestoreUserFields { name: false, email: true, remote: false }.commit_message(),
        "user set email"
    );
}

fn fresh() -> Manager {
    Manager::init("correcthorse", "Ada".to_string(), "ada@example.com".to_string()).unwrap()
}

#[test]
fn undo_delete_restores_from_parent() {
    let mut m = fresh();
    m.add("gh", b"secret", false).unwrap();
    let mut parent = Store::new(m.store.key.clone(), m.store.salt, m.store.nonce);
    let it = m.store.items.get("gh").unwrap();
    parent.items.insert("gh".to_string(), Item::new(it.nonce, it.password.clone()));
    assert!(m.delete("gh"));
    m.fs_dirty = false;
    m.undo(UndoAction::RestoreLabel("gh".to_string()), Some(parent), None).unwrap();
    assert!(m.fs_dirty);
    assert_eq!(m.copy("gh").unwrap().unwrap(), "secret");
}

#[test]
fn undo_needs_the_parent_snapshot() {
    let mut m = fresh();
    let r = m.undo(UndoAction::RestoreLabel("gh".to_string()), None, None);
    assert!(matches!(r, Err(PassManagerErr::PreviousVersion { bin }) if bin == "pm_store.bin"));
    let empty = Store::new(Vec::new(), [0; 16], [0; 12]);
    let r = m.undo(UndoAction::RestoreLabel("gh".to_string()), Some(empty), None);
    assert!(matches!(r, Err(PassManagerErr::PreviousVersion { bin }) if bin == "gh"));
    let r = m.undo(UndoAction::RestoreUserFields { name: true, email: false, remote: false }, None, None);
    assert!(matches!(r, Err(PassManagerErr::PreviousVersion { bin }) if bin == "user.bin"));
    assert!(!m.fs_dirty);
}

#[test]
fn undo_reset_restores_all_items() {
    let mut m = fresh();
    m.add("a", b"1", false).unwrap();
    let mut parent = Store::new(Vec::new(), [0; 16], [0; 12]);
    let it = m.store.items.get("a").unwrap();
    parent.items.insert("a".to_string(), Item::new(it.nonce, it.password.clone()));
    m.reset(true);
    m.undo(UndoAction::RestoreItems, Some(parent), None).unwrap();
    assert_eq!(m.copy("a").unwrap().unwrap(), "1");
}

#[test]
fn undo_user_set_restores_named_fields_only() {
    let mut m = fresh();
    m.set_user(&Some("Bob".to_string()), &Some("bob@example.com".to_string()), &None, None).unwrap();
    let parent = User::new("Ada".to_string(), "ada@example.com".to_string());
    m.undo(UndoAction::RestoreUserFields { name: true, email: false, remote: false }, None, Some(parent))
        .unwrap();
    assert_eq!(m.user.name, "Ada");
    assert_eq!(m.user.email, "bob@example.com");
}

#[test]
fn undo_of_rekey_is_refused() {
    let mut m = fresh();
    m.undo(UndoAction::Refused, None, None).unwrap();
    assert!(!m.fs_dirty);
}

#[test]
fn history_rows() {
    let row = history_row(Some("store add github"), 0, 60, "abc1234").unwrap();
    assert_eq!(row[0], "store");
    assert_eq!(row[1], "add");
    assert_eq!(row[2], "github");
    assert_eq!(row[3], " 1 Jan 70 01:00");
    assert_eq!(row[4], "abc1234");
    let row = history_row(Some("store reset"), 86400 * 365, 0, "x").unwrap();
    assert_eq!(row[2], "-");
    assert_eq!(row[3], " 1 Jan 71 00:00");
    assert!(matches!(history_row(None, 0, 0, "x"), Err(PassManagerErr::InvalidCommitMessage)));
    assert!(matches!(history_row(Some("single"), 0, 0, "x"), Err(PassManagerErr::CommitMsgFormat { .. })));
    assert!(matches!(history_row(Some("a b c"), i64::MAX, 0, "x"), Err(PassManagerErr::Chrono { .. })));
    assert!(matches!(history_row(Some("a b c"), 0, i32::MAX, "x"), Err(PassManagerErr::Chrono { .. })));
}

#[test]
fn history_table_has_a_row_per_commit() {
    let m = fresh();
    let commits = vec![
        CommitInfo { message: Some("store add gh".to_string()), seconds: 60, offset_minutes: 0, short_id: "b2".to_string() },
        CommitInfo { message: Some("store initialize".to_string()), seconds: 0, offset_minutes: 0, short_id: "a1".to_string() },
    ];
    let table = m.history(&commits).unwrap();
    assert_eq!(table.rows().len(), 2);
    assert_eq!(table.rows()[0][2], "gh");
    assert_eq!(table.rows()[0][3], " 1 Jan 70 00:01");
    assert_eq!(table.rows()[1][1], "initialize");
    assert_eq!(table.rows()[1][2], "-");
    assert_eq!(table.headers()[4], "Id");
    let bad = vec![CommitInfo { message: None, seconds: 0, offset_minutes: 0, short_id: "c3".to_string() }];
    assert!(matches!(m.history(&bad), Err(PassManagerErr::InvalidCommitMessage)));
}

#[test]
fn history_reports_the_first_unreadable_commit() {
    let m = fresh();
    let short = vec![CommitInfo { message: Some("single".to_string()), seconds: 0, offset_minutes: 0, short_id: "a".to_string() }];
    assert!(matches!(m.history(&short), Err(PassManagerErr::CommitMsgFormat { .. })));
    let late = vec![CommitInfo { message: Some("a b c".to_string()), seconds: i64::MAX, offset_minutes: 0, short_id: "a".to_string() }];
    assert!(matches!(m.history(&late), Err(PassManagerErr::Chrono { .. })));
}
