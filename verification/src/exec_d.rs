//! The output of `exec.d` programs: TOML key-value pairs naming environment variables
//! to set in the launched process.
use crate::env::{map_of, pair_views, LaunchEnv};
use crate::text::{chars_of, push_str, string_of, trim, trim_chars};
use vstd::prelude::*;

verus! {

/// The error type of `toml::from_str`, carried through unopened.
#[verifier::external_type_specification]
#[verifier::external_body]
pub struct ExTomlError(toml::de::Error);

/// The table of string values that `toml::from_str` decodes from a document, as
/// (key, value) pairs in key order; none where the document is not such a table.
pub uninterp spec fn toml_string_table(s: Seq<char>) -> Option<Seq<(Seq<char>, Seq<char>)>>;

/// Calls `toml::from_str::<BTreeMap<String, String>>` and hands out the decoded entries in
/// the map's (key) order. Claimed of it: on success the entries are `toml_string_table` of
/// the text, and on failure that name is `None`, so the outcome depends on the text alone;
/// the TOML grammar that decides it is not stated.
#[verifier::external_body]
fn decode_string_table(s: &str) -> (r: Result<Vec<(String, String)>, toml::de::Error>)
    ensures
        match r {
            Ok(v) => toml_string_table(s@) == Some(pair_views(v@)),
            Err(_) => toml_string_table(s@) is None,
        },
{
    match toml::from_str::<std::collections::BTreeMap<String, String>>(s) {
        Ok(table) => Ok(table.into_iter().collect()),
        Err(e) => Err(e),
    }
}

/// Failure to decode the output of an `exec.d` program.
#[derive(Debug)]
pub struct ExecDOutputError {
    /// The TOML decoding error.
    pub error: toml::de::Error,
    /// The output that failed to decode.
    pub output: String,
}

/// Errors of running an `exec.d` program. Failures of the operating system are carried as
/// their messages.
#[derive(Debug)]
pub enum ExecDError {
    /// The pipe for the program's output could not be created.
    CreatePipe(String),
    /// The program could not be started.
    Spawn { path: String, error: String },
    /// The program's output could not be read from the named channel.
    ReadOutput { channel: String, error: String },
    /// The program could not be waited for.
    Wait { path: String, error: String },
    /// The program exited unsuccessfully, with the given status.
    ExecutionFailed { path: String, status: String },
    /// The program's output is not a TOML table of strings.
    Decode { path: String, error: String, output: String },
}

/// The message of an `exec.d` error.
pub open spec fn exec_d_error_text(e: ExecDError) -> Seq<char> {
    match e {
        ExecDError::CreatePipe(m) => m@,
        ExecDError::Spawn { path, error } => "Failed to spawn exec.d binary '"@ + path@ + "': "@
            + error@,
        ExecDError::ReadOutput { channel, error } => "Failed to read "@ + channel@
            + " output from exec.d: "@ + error@,
        ExecDError::Wait { error, .. } => "Failed to wait for exec.d child process: "@ + error@,
        ExecDError::ExecutionFailed { path, status } =>
            "failed to execute exec.d file at path '"@ + path@ + "': "@ + status@,
        ExecDError::Decode { path, error, .. } =>
            "failed to decode output from exec.d file at path '"@ + path@ + "': "@ + error@,
    }
}

impl ExecDError {
    /// The message of this error, as the launcher reports it.
    pub fn message(&self) -> (r: String)
        ensures
            r@ == exec_d_error_text(*self),
    {
        let mut v: Vec<char> = Vec::new();
        match self {
            ExecDError::CreatePipe(m) => {
                push_str(&mut v, m.as_str());
            },
            ExecDError::Spawn { path, error } => {
                push_str(&mut v, "Failed to spawn exec.d binary '");
                push_str(&mut v, path.as_str());
                push_str(&mut v, "': ");
                push_str(&mut v, error.as_str());
            },
            ExecDError::ReadOutput { channel, error } => {
                push_str(&mut v, "Failed to read ");
                push_str(&mut v, channel.as_str());
                push_str(&mut v, " output from exec.d: ");
                push_str(&mut v, error.as_str());
            },
            ExecDError::Wait { error, .. } => {
                push_str(&mut v, "Failed to wait for exec.d child process: ");
                push_str(&mut v, error.as_str());
            },
            ExecDError::ExecutionFailed { path, status } => {
                push_str(&mut v, "failed to execute exec.d file at path '");
                push_str(&mut v, path.as_str());
                push_str(&mut v, "': ");
                push_str(&mut v, status.as_str());
            },
            ExecDError::Decode { path, error, .. } => {
                push_str(&mut v, "failed to decode output from exec.d file at path '");
                push_str(&mut v, path.as_str());
                push_str(&mut v, "': ");
                push_str(&mut v, error.as_str());
            },
        }
        assert(v@ =~= exec_d_error_text(*self));
        string_of(&v)
    }
}

/// Decodes what an `exec.d` program wrote: blank output sets nothing; otherwise it must be
/// a TOML table of strings, whose entries are returned.
pub fn decode_exec_d_output(output: String) -> (r: Result<Vec<(String, String)>, ExecDOutputError>)
    ensures
        trim(output@).len() == 0 ==> (r matches Ok(v) && v@.len() == 0),
        trim(output@).len() > 0 ==> match r {
            Ok(v) => toml_string_table(output@) == Some(pair_views(v@)),
            Err(e) => toml_string_table(output@) is None && e.output@ == output@,
        },
{
    let chars = chars_of(output.as_str());
    let trimmed = trim_chars(&chars);
    if trimmed.len() == 0 {
        return Ok(Vec::new());
    }
    match decode_string_table(output.as_str()) {
        Ok(v) => Ok(v),
        Err(error) => Err(ExecDOutputError { error, output }),
    }
}

/// The map `m` with the pairs inserted in order.
pub open spec fn insert_all(m: Map<Seq<char>, Seq<char>>, pairs: Seq<(Seq<char>, Seq<char>)>) -> Map<Seq<char>, Seq<char>>
    decreases pairs.len(),
{
    if pairs.len() == 0 {
        m
    } else {
        insert_all(m, pairs.drop_last()).insert(pairs.last().0, pairs.last().1)
    }
}

impl LaunchEnv {
    /// Sets each variable that an `exec.d` program output, in order.
    pub fn set_all(&mut self, vars: &[(String, String)])
        ensures
            final(self)@ == insert_all(old(self)@, pair_views(vars@)),
    {
        let ghost vv = pair_views(vars@);
        let mut i: usize = 0;
        assert(vv.take(0) =~= Seq::<(Seq<char>, Seq<char>)>::empty());
        while i < vars.len()
            invariant
                i <= vars@.len(),
                vv == pair_views(vars@),
                self@ == insert_all(old(self)@, vv.take(i as int)),
            decreases vars@.len() - i,
        {
            self.set(vars[i].0.as_str(), vars[i].1.as_str());
            assert(vv.take(i + 1).drop_last() =~= vv.take(i as int));
            assert(vv.take(i + 1).last() == (vars@[i as int].0@, vars@[i as int].1@));
            i = i + 1;
        }
        assert(vv.take(vars@.len() as int) =~= vv);
    }
}

} // verus!
