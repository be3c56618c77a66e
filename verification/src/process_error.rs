//! The error reported when a spawned command exits unsuccessfully.

use vstd::prelude::*;
use crate::text::{int_decimal, push_i64_decimal};

verus! {

/// A command that ran and exited with a failure code.
#[derive(Debug)]
pub struct ProcessError {
    cmd: String,
    args: Option<String>,
    exit_code: i32,
}

/// The message of a failed command: `Command <cmd> <args> exited with code
/// <code>`, the arguments left out (with their space) when there are none.
pub open spec fn failure_message(cmd: Seq<char>, args: Option<Seq<char>>, exit_code: i32) -> Seq<char> {
    match args {
        Some(a) => "Command "@ + cmd + " "@ + a + " exited with code "@ + int_decimal(exit_code as int),
        None => "Command "@ + cmd + " exited with code "@ + int_decimal(exit_code as int),
    }
}

/// The arguments of a failed command appear in its message right after the
/// program, separated from it by one space; the message always opens with
/// `Command `, the program, and ends with ` exited with code ` and the code
/// in decimal.
pub proof fn lemma_failure_message_shape(cmd: Seq<char>, args: Seq<char>, exit_code: i32)
    ensures
        failure_message(cmd, Some(args), exit_code) == failure_message(cmd + " "@ + args, None, exit_code),
        failure_message(cmd, None, exit_code).take(8 + cmd.len() as int) == "Command "@ + cmd,
        failure_message(cmd, None, exit_code).skip(8 + cmd.len() as int)
            == " exited with code "@ + int_decimal(exit_code as int),
{
    reveal_strlit("Command ");
    assert(failure_message(cmd, Some(args), exit_code) =~= failure_message(cmd + " "@ + args, None, exit_code));
    let m = failure_message(cmd, None, exit_code);
    assert(m.take(8 + cmd.len() as int) =~= "Command "@ + cmd);
    assert(m.skip(8 + cmd.len() as int) =~= " exited with code "@ + int_decimal(exit_code as int));
}

impl ProcessError {
    /// The program that failed.
    pub closed spec fn cmd_view(&self) -> Seq<char> {
        self.cmd@
    }

    /// Its arguments, run together, when it had any.
    pub closed spec fn args_view(&self) -> Option<Seq<char>> {
        match self.args {
            Some(a) => Some(a@),
            None => None,
        }
    }

    /// The code it exited with.
    pub closed spec fn code(&self) -> i32 {
        self.exit_code
    }

    /// A failure of `cmd` run with `args`, which exited with `exit_code`.
    pub fn new(cmd: String, args: Option<String>, exit_code: i32) -> (r: Self)
        ensures
            r.cmd_view() == cmd@,
            r.args_view() == match args {
                Some(a) => Some(a@),
                None => None::<Seq<char>>,
            },
            r.code() == exit_code,
    {
        Self { cmd, args, exit_code }
    }

    /// The program that failed.
    pub fn cmd(&self) -> (r: &str)
        ensures
            r@ == self.cmd_view(),
    {
        self.cmd.as_str()
    }

    /// The arguments it ran with, run together, when it had any.
    pub fn args(&self) -> (r: Option<&str>)
        ensures
            match r {
                Some(a) => self.args_view() == Some(a@),
                None => self.args_view() is None,
            },
    {
        match &self.args {
            Some(a) => Some(a.as_str()),
            None => None,
        }
    }

    /// The code it exited with.
    pub fn exit_code(&self) -> (r: i32)
        ensures
            r == self.code(),
    {
        self.exit_code
    }

    /// The human-readable report of this failure.
    pub fn message(&self) -> (r: String)
        ensures
            r@ == failure_message(self.cmd_view(), self.args_view(), self.code()),
    {
        proof {
            reveal_strlit("Command ");
            reveal_strlit(" ");
            reveal_strlit(" exited with code ");
        }
        let mut s = "Command ".to_owned();
        s.append(self.cmd.as_str());
        match &self.args {
            Some(a) => {
                s.append(" ");
                s.append(a.as_str());
            },
            None => {},
        }
        s.append(" exited with code ");
        push_i64_decimal(&mut s, self.exit_code as i64);
        assert(s@ =~= failure_message(self.cmd_view(), self.args_view(), self.code()));
        s
    }
}

} // verus!
