//! Argument handling of the terminal builtins: `gt` and `exit`.
//!
//! Both decide from the buffered word group alone; the directory change
//! and the process exit themselves are performed by the host around the
//! library.

use vstd::prelude::*;

use crate::numbers::{int_val, is_int_str, parse_i32};

verus! {

/// The error text `gt` reports on a malformed group.
pub open spec fn gt_err_text(ws: Seq<Seq<char>>) -> Seq<char> {
    if ws.len() < 2 {
        "Give me a directory path to go!"@
    } else {
        "Cannot go to multiple directories simultaneously!"@
    }
}

/// Validate a `gt path` group and hand back the path to change to.
pub fn gt(buf: &Vec<String>) -> (r: Result<String, String>)
    ensures
        (r is Ok) <==> buf.deep_view().len() == 2,
        r is Ok ==> r->Ok_0@ == buf.deep_view()[1],
        r is Err ==> r->Err_0@ == gt_err_text(buf.deep_view()),
{
    if buf.len() < 2 {
        Err(String::from_str("Give me a directory path to go!"))
    } else if buf.len() > 2 {
        Err(String::from_str("Cannot go to multiple directories simultaneously!"))
    } else {
        proof {
            assert(buf.deep_view()[1] == buf@[1]@);
        }
        Ok(buf[1].clone())
    }
}

/// When the `exit [code]` builtin terminates the host, and with what code.
pub open spec fn exit_ok(ws: Seq<Seq<char>>) -> bool {
    ws.len() <= 1 || (ws.len() == 2 && is_int_str(ws[1]) && -0x8000_0000 <= int_val(ws[1])
        && int_val(ws[1]) <= 0x7fff_ffff)
}

/// The exit code an accepted `exit` group carries.
pub open spec fn exit_code_of(ws: Seq<Seq<char>>) -> i32 {
    if ws.len() <= 1 {
        0i32
    } else {
        int_val(ws[1]) as i32
    }
}

/// The error text `exit` reports on a malformed group.
pub open spec fn exit_err_text(ws: Seq<Seq<char>>) -> Seq<char> {
    if ws.len() > 2 {
        "Cannot exit with multiple exit codes!"@
    } else {
        "Cannot exit with this code because of an error!"@
    }
}

/// Validate an `exit [code]` group and hand back the exit code.
pub fn exit(buf: &Vec<String>) -> (r: Result<i32, String>)
    ensures
        (r is Ok) <==> exit_ok(buf.deep_view()),
        r is Ok ==> r->Ok_0 == exit_code_of(buf.deep_view()),
        r is Err ==> r->Err_0@ == exit_err_text(buf.deep_view()),
{
    if buf.len() <= 1 {
        Ok(0)
    } else if buf.len() > 2 {
        Err(String::from_str("Cannot exit with multiple exit codes!"))
    } else {
        proof {
            assert(buf.deep_view()[1] == buf@[1]@);
        }
        match parse_i32(buf[1].as_str()) {
            Some(c) => Ok(c),
            None => Err(String::from_str("Cannot exit with this code because of an error!")),
        }
    }
}

} // verus!
