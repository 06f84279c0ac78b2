use sunday::sunday::{Command, Machine};
use sunday::sunday_dispatcher::SundayDispatcher;

#[test]
fn user_sets_identity_and_responds_ok() {
    let mut d = SundayDispatcher::new();
    let r = d.handle_command(Some(Command::USER { username: String::from("rossdylan") }));
    assert_eq!(r, "OK:\n".as_bytes().to_vec());
    assert_eq!(d.user, "rossdylan");
    assert!(!d.authed);
    assert_eq!(d.machine, Machine::Unknown);
}

#[test]
fn correct_password_authenticates() {
    let mut d = SundayDispatcher::new();
    let r = d.handle_command(Some(Command::PASS { password: String::from("foobar") }));
    assert_eq!(r, "OK: 0\n".as_bytes().to_vec());
    assert!(d.authed);
}

#[test]
fn wrong_password_is_rejected_and_leaves_state() {
    let mut d = SundayDispatcher::new();
    let r = d.handle_command(Some(Command::PASS { password: String::from("wrong") }));
    assert_eq!(r, "ERR 407 Invalid password.\n".as_bytes().to_vec());
    assert!(!d.authed);
}

#[test]
fn wrong_password_does_not_revoke_authentication() {
    let mut d = SundayDispatcher::new();
    d.handle_command(Some(Command::PASS { password: String::from("foobar") }));
    assert!(d.authed);
    let r = d.handle_command(Some(Command::PASS { password: String::from("wrong") }));
    assert_eq!(r, "ERR 407 Invalid password.\n".as_bytes().to_vec());
    assert!(d.authed);
}

#[test]
fn ibutton_resolves_to_unknown_user_and_authenticates() {
    let mut d = SundayDispatcher::new();
    let r = d.handle_command(Some(Command::IBUTTON { ibutton: String::from("47000023def1f402") }));
    assert_eq!(r, "OK: 0\n".as_bytes().to_vec());
    assert_eq!(d.user, "unknown");
    assert!(d.authed);
}

#[test]
fn machine_selection_is_not_gated_on_authentication() {
    let mut d = SundayDispatcher::new();
    let r = d.handle_command(Some(Command::MACHINE { machine: Machine::BigDrink }));
    assert_eq!(r, "OK: Welcome to BigDrink\n".as_bytes().to_vec());
    assert_eq!(d.machine, Machine::BigDrink);
    assert!(!d.authed);
}

#[test]
fn machine_welcome_names_each_machine() {
    let mut d = SundayDispatcher::new();
    let r = d.handle_command(Some(Command::MACHINE { machine: Machine::LittleDrink }));
    assert_eq!(r, "OK: Welcome to LittleDrink\n".as_bytes().to_vec());
    let r = d.handle_command(Some(Command::MACHINE { machine: Machine::Snack }));
    assert_eq!(r, "OK: Welcome to Snack\n".as_bytes().to_vec());
}

#[test]
fn recognized_but_unimplemented_commands_draw_err_420() {
    let mut d = SundayDispatcher::new();
    assert_eq!(
        d.handle_command(Some(Command::STAT)),
        "ERR 420 Unimplemented\n".as_bytes().to_vec()
    );
    assert_eq!(
        d.handle_command(Some(Command::GETBALANCE)),
        "ERR 420 Unimplemented\n".as_bytes().to_vec()
    );
    assert_eq!(
        d.handle_command(Some(Command::DROP { slot: 3, delay: 5 })),
        "ERR 420 Unimplemented\n".as_bytes().to_vec()
    );
    assert_eq!(
        d.handle_command(Some(Command::SENDCREDITS {
            credits: 10,
            username: String::from("rossdylan"),
        })),
        "ERR 420 Unimplemented\n".as_bytes().to_vec()
    );
    assert_eq!(
        d.handle_command(Some(Command::UPTIME)),
        "ERR 420 Unimplemented\n".as_bytes().to_vec()
    );
}

#[test]
fn unparsed_and_invalid_lines_draw_err_415() {
    let mut d = SundayDispatcher::new();
    assert_eq!(d.handle_command(None), "ERR 415 Invalid command\n".as_bytes().to_vec());
    let r = d.handle_command(Some(Command::INVALID { reason: String::from("USER: UTF8 Error") }));
    assert_eq!(r, "ERR 415 Invalid command\n".as_bytes().to_vec());
    assert_eq!(d.user, "");
    assert!(!d.authed);
    assert_eq!(d.machine, Machine::Unknown);
}
