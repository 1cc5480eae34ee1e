//! The scripting processors' verified side.  A user script runs in an
//! embedded interpreter outside this crate; here stand the parts that
//! decide: the pre-parse screening of code against a deny-list, the size
//! ceiling, the wrapping that lets a script `return` a new content, and the
//! reading of a filter's verdict.

use vstd::prelude::*;

use crate::bytesutil::{contains_seq, contains_sub};
use vstd::string::{StrSliceExecFns, StringExecFns, StringSliceAdditionalSpecFns};
use vstd::utf8::encode_utf8;

verus! {

/// The largest script the engine accepts, in bytes.
pub const MAX_CODE_SIZE: usize = 65536;

/// Code that trips the deny-list: dynamic code loading, file and process
/// access, debug and raw accessors, global-table tricks.
pub open spec fn forbidden_lua(code: Seq<u8>) -> bool {
    ||| contains_seq(code, encode_utf8("loadstring"@))
    ||| contains_seq(code, encode_utf8("loadfile"@))
    ||| contains_seq(code, encode_utf8("dofile"@))
    ||| contains_seq(code, encode_utf8("load("@))
    ||| contains_seq(code, encode_utf8("_G["@))
    ||| contains_seq(code, encode_utf8("debug."@))
    ||| contains_seq(code, encode_utf8("io."@))
    ||| contains_seq(code, encode_utf8("os.execute"@))
    ||| contains_seq(code, encode_utf8("os.remove"@))
    ||| contains_seq(code, encode_utf8("os.rename"@))
    ||| contains_seq(code, encode_utf8("os.exit"@))
}

/// A script processor: user code that may rewrite the message content.
pub struct LuaProcessor {
    pub code: String,
}

impl LuaProcessor {
    pub fn new(code: String) -> (r: Self)
        ensures
            r.code == code,
    {
        LuaProcessor { code }
    }

    /// Screens the code: accepted exactly when it fits the size ceiling and
    /// holds no deny-listed pattern.
    pub fn validate_code(&self) -> (r: Result<(), String>)
        ensures
            r is Ok <==> (encode_utf8(self.code@).len() <= MAX_CODE_SIZE && !forbidden_lua(
                encode_utf8(self.code@),
            )),
    {
        let bytes = self.code.as_str().as_bytes();
        if bytes.len() > MAX_CODE_SIZE {
            return Err(String::from_str("Lua code exceeds the maximum size"));
        }
        if contains_sub(bytes, "loadstring".as_bytes()) || contains_sub(
            bytes,
            "loadfile".as_bytes(),
        ) {
            return Err(String::from_str("Security violation: code loading is not allowed"));
        }
        if contains_sub(bytes, "dofile".as_bytes()) || contains_sub(bytes, "load(".as_bytes()) {
            return Err(String::from_str("Security violation: code loading is not allowed"));
        }
        if contains_sub(bytes, "_G[".as_bytes()) {
            return Err(
                String::from_str("Security violation: global table access is not allowed"),
            );
        }
        if contains_sub(bytes, "debug.".as_bytes()) {
            return Err(String::from_str("Security violation: the debug library is not allowed"));
        }
        if contains_sub(bytes, "io.".as_bytes()) {
            return Err(String::from_str("Security violation: the io library is not allowed"));
        }
        if contains_sub(bytes, "os.execute".as_bytes()) || contains_sub(
            bytes,
            "os.remove".as_bytes(),
        ) || contains_sub(bytes, "os.rename".as_bytes()) || contains_sub(
            bytes,
            "os.exit".as_bytes(),
        ) {
            return Err(String::from_str("Security violation: os access is not allowed"));
        }
        Ok(())
    }
}

/// Wraps user code in a function so that it may `return` the new content.
pub fn wrap_script(code: &str) -> (r: String)
    ensures
        r@ == "local function run(msg)\n"@ + code@ + "\nend\nreturn run(msg)"@,
{
    let mut r = String::new();
    r.append("local function run(msg)\n");
    r.append(code);
    r.append("\nend\nreturn run(msg)");
    assert(r@ =~= "local function run(msg)\n"@ + code@ + "\nend\nreturn run(msg)"@);
    r
}

/// What a filter script evaluated to, as far as the verdict cares.
pub enum LuaOutcome {
    Bool(bool),
    Nil,
    Other,
}

/// A filter processor: a condition that passes or drops a message.
pub struct FilterProcessor {
    pub condition: String,
}

impl FilterProcessor {
    pub fn new(condition: String) -> (r: Self)
        ensures
            r.condition == condition,
    {
        FilterProcessor { condition }
    }
}

/// The verdict a filter's result stands for: only boolean `false` drops
/// the message; boolean `true` passes it, and any non-boolean result —
/// nil included — passes it too (the caller logs a warning for those).
pub fn filter_verdict(outcome: &LuaOutcome) -> (r: bool)
    ensures
        r == !(*outcome matches LuaOutcome::Bool(b) && !b),
{
    match outcome {
        LuaOutcome::Bool(b) => *b,
        LuaOutcome::Nil => true,
        LuaOutcome::Other => true,
    }
}

/// A script destination: user code run for its side effects.
pub struct LuaDestination {
    pub code: String,
}

impl LuaDestination {
    pub fn new(code: String) -> (r: Self)
        ensures
            r.code == code,
    {
        LuaDestination { code }
    }
}

} // verus!
