//! The per-connection session state machine: it holds the authentication
//! and machine-selection state of one connection and maps each parsed
//! command to a response line.

use crate::sunday::{str_eq_str, Command, CommandModel, Machine};
use vstd::prelude::*;
use vstd::string::StrSliceExecFns;

verus! {

/// The mathematical model of a session: the user identity (empty until
/// USER), whether the session has authenticated (false until PASS or
/// IBUTTON succeeds), and the selected machine (Unknown until MACHINE).
pub struct SessionModel {
    pub user: Seq<char>,
    pub authed: bool,
    pub machine: Machine,
}

/// The state of a session when its connection has just been accepted.
pub open spec fn initial_session() -> SessionModel {
    SessionModel { user: Seq::<char>::empty(), authed: false, machine: Machine::Unknown }
}

/// The welcome line that answers a successful MACHINE command.
pub open spec fn spec_welcome(m: Machine) -> Seq<char> {
    match m {
        Machine::LittleDrink => "OK: Welcome to LittleDrink\n"@,
        Machine::BigDrink => "OK: Welcome to BigDrink\n"@,
        Machine::Snack => "OK: Welcome to Snack\n"@,
        Machine::Unknown => "OK: Welcome to Unknown\n"@,
    }
}

/// The session state and response line that dispatching a command
/// produces. `None` stands for a line on which no grammar alternative
/// matched; it draws the same generic error as an INVALID command.
pub open spec fn spec_dispatch(s: SessionModel, cmd: Option<CommandModel>) -> (SessionModel, Seq<
    char,
>) {
    match cmd {
        None => (s, "ERR 415 Invalid command\n"@),
        Some(c) => match c {
            CommandModel::USER { username } => (
                (SessionModel { user: username, ..s }),
                "OK:\n"@,
            ),
            CommandModel::PASS { password } => if password == "foobar"@ {
                ((SessionModel { authed: true, ..s }), "OK: 0\n"@)
            } else {
                (s, "ERR 407 Invalid password.\n"@)
            },
            CommandModel::IBUTTON { .. } => (
                (SessionModel { user: "unknown"@, authed: true, ..s }),
                "OK: 0\n"@,
            ),
            CommandModel::MACHINE { machine } => (
                (SessionModel { machine: machine, ..s }),
                spec_welcome(machine),
            ),
            CommandModel::INVALID { .. } => (s, "ERR 415 Invalid command\n"@),
            _ => (s, "ERR 420 Unimplemented\n"@),
        },
    }
}

/// All the actual logic for the sunday server is contained within the
/// SundayDispatcher. Each connection has its own instance, which handles
/// each possible command against that connection's session state.
pub struct SundayDispatcher {
    pub user: String,
    pub authed: bool,
    pub machine: Machine,
}

impl View for SundayDispatcher {
    type V = SessionModel;

    open spec fn view(&self) -> SessionModel {
        SessionModel { user: self.user@, authed: self.authed, machine: self.machine }
    }
}

impl SundayDispatcher {
    /// Create a fresh session: no user, not authenticated, no machine.
    pub fn new() -> (r: SundayDispatcher)
        ensures
            r@ == initial_session(),
    {
        SundayDispatcher { user: String::new(), authed: false, machine: Machine::Unknown }
    }

    /// Handle the USER command: set the session's user identity.
    fn handle_user(&mut self, username: &str) -> (r: String)
        ensures
            final(self)@ == (SessionModel { user: username@, ..old(self)@ }),
            r@ == "OK:\n"@,
    {
        self.user = String::from_str(username);
        String::from_str("OK:\n")
    }

    /// Handle the PASS command. The credential verifier collaborator is
    /// mocked out to accept the single password `foobar`, with a credit
    /// balance of 0.
    fn handle_pass(&mut self, password: &str) -> (r: String)
        ensures
            password@ == "foobar"@ ==> final(self)@ == (SessionModel {
                authed: true,
                ..old(self)@
            }) && r@ == "OK: 0\n"@,
            password@ != "foobar"@ ==> final(self)@ == old(self)@ && r@
                == "ERR 407 Invalid password.\n"@,
    {
        if str_eq_str(password, "foobar") {
            self.authed = true;
            String::from_str("OK: 0\n")
        } else {
            String::from_str("ERR 407 Invalid password.\n")
        }
    }

    /// The identity resolver for an ibutton token. The directory
    /// collaborator is mocked out: every token resolves to the user
    /// `unknown`, with a credit balance of 0.
    fn lookup_ibutton(ibutton: &str) -> (r: Option<String>)
        ensures
            r is Some,
            r matches Some(u) ==> u@ == "unknown"@,
    {
        Some(String::from_str("unknown"))
    }

    /// Handle the IBUTTON command: resolve the token to a user and mark
    /// the session authenticated; a failed lookup would leave the session
    /// unchanged.
    fn handle_ibutton(&mut self, ibutton: &str) -> (r: String)
        ensures
            final(self)@ == (SessionModel { user: "unknown"@, authed: true, ..old(self)@ }),
            r@ == "OK: 0\n"@,
    {
        match Self::lookup_ibutton(ibutton) {
            Some(u) => {
                self.user = u;
                self.authed = true;
                String::from_str("OK: 0\n")
            },
            None => String::from_str("ERR 207 Invalid Ibutton\n"),
        }
    }

    /// Handle the MACHINE command: select the machine unconditionally and
    /// answer with its welcome line.
    fn handle_machine(&mut self, machine: Machine) -> (r: String)
        ensures
            final(self)@ == (SessionModel { machine: machine, ..old(self)@ }),
            r@ == spec_welcome(machine),
    {
        self.machine = machine;
        match machine {
            Machine::LittleDrink => String::from_str("OK: Welcome to LittleDrink\n"),
            Machine::BigDrink => String::from_str("OK: Welcome to BigDrink\n"),
            Machine::Snack => String::from_str("OK: Welcome to Snack\n"),
            Machine::Unknown => String::from_str("OK: Welcome to Unknown\n"),
        }
    }

    /// Take the result of parsing one line and return the response bytes,
    /// mutating the session state as the command directs.
    pub fn handle_command(&mut self, cmd_opt: Option<Command>) -> (r: Vec<u8>)
        ensures
            final(self)@ == spec_dispatch(old(self)@, cmd_opt.deep_view()).0,
            r@ == vstd::utf8::encode_utf8(spec_dispatch(old(self)@, cmd_opt.deep_view()).1),
    {
        let ret: String = match cmd_opt {
            Some(cmd) => match cmd {
                Command::USER { username } => self.handle_user(username.as_str()),
                Command::PASS { password } => self.handle_pass(password.as_str()),
                Command::IBUTTON { ibutton } => self.handle_ibutton(ibutton.as_str()),
                Command::MACHINE { machine } => self.handle_machine(machine),
                Command::INVALID { .. } => String::from_str("ERR 415 Invalid command\n"),
                _ => String::from_str("ERR 420 Unimplemented\n"),
            },
            None => String::from_str("ERR 415 Invalid command\n"),
        };
        ret.as_str().as_bytes_vec()
    }
}

/// Once a session has authenticated, no later command revokes it:
/// dispatching never transitions the authed flag from true back to false.
pub proof fn lemma_authed_is_never_revoked(s: SessionModel, cmd: Option<CommandModel>)
    ensures
        s.authed ==> spec_dispatch(s, cmd).0.authed,
{
}

} // verus!
