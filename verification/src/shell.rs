//! Shell payloads for indirect launches: the Bash script and argument vector on Unix,
//! the `cmd.exe` command line on Windows, and the argument escaping they rely on.
use crate::text::{
    chars_of, decimal, decimal_chars, extend_chars, join, push_str, string_of, string_views,
};
use std::collections::HashMap;
use vstd::prelude::*;

verus! {

/// Everything needed to source the profiles and launch a process through a shell.
pub struct ShellProcess {
    /// Whether the command is a script run by `bash -c` (the process has no arguments).
    pub script: bool,
    /// The executable command.
    pub command: String,
    /// Arguments to pass to the process.
    pub args: Vec<String>,
    /// The name of the calling binary.
    pub caller: String,
    /// Profile scripts to source before launch, in order.
    pub profiles: Vec<String>,
    /// The environment of the process.
    pub env: HashMap<String, String>,
    /// The working directory of the process.
    pub working_directory: String,
}

impl ShellProcess {
    /// The shell payload of a resolved process: the command runs as a script exactly when
    /// the process has no arguments.
    pub fn for_process(
        process: &crate::launch::ResolvedProcess,
        caller: String,
        profiles: Vec<String>,
        env: HashMap<String, String>,
    ) -> (r: ShellProcess)
        ensures
            r.script == (process.args@.len() == 0),
            r.command@ == process.command@,
            string_views(r.args@) == string_views(process.args@),
            r.caller == caller,
            r.profiles == profiles,
            r.env == env,
            r.working_directory@ == process.working_directory@,
    {
        let args = crate::text::clone_strings_from(process.args.as_slice(), 0);
        assert(process.args@.skip(0) =~= process.args@);
        ShellProcess {
            script: process.args.len() == 0,
            command: process.command.clone(),
            args,
            caller,
            profiles,
            env,
            working_directory: process.working_directory.clone(),
        }
    }
}

/// The evaluation of the first token (`$0`): `"$(eval echo \"$0\")"`.
pub open spec fn first_token() -> Seq<char> {
    "\"$(eval echo \\\"$0\\\")\""@
}

/// The evaluation of token `i`: ` "$(eval echo \"${i}\")"`.
pub open spec fn nth_token(i: nat) -> Seq<char> {
    " \"$(eval echo \\\"${"@ + decimal(i) + "}\\\")\""@
}

/// The evaluations of tokens `0` to `n - 1` (at least the first).
pub open spec fn token_evaluations(n: nat) -> Seq<char>
    decreases n,
{
    if n <= 1 {
        first_token()
    } else {
        token_evaluations((n - 1) as nat) + nth_token((n - 1) as nat)
    }
}

/// The Bash command that evaluates each of `n` tokens with `eval echo`, keeping argument
/// boundaries: `exec bash -c '<evaluations>' "${@:1}"`.
pub open spec fn bash_tokens_command(n: nat) -> Seq<char> {
    "exec bash -c '"@ + token_evaluations(n) + "' \"${@:1}\""@
}

/// Generates the Bash command that evaluates each of `n_tokens` command tokens
/// (positional parameters) with `eval echo`, preserving argument boundaries.
pub fn bash_command_with_tokens(n_tokens: usize) -> (r: String)
    ensures
        r@ == bash_tokens_command(n_tokens as nat),
{
    let mut script = chars_of("\"$(eval echo \\\"$0\\\")\"");
    let mut i: usize = 1;
    while i < n_tokens
        invariant
            1 <= i,
            i <= n_tokens || (n_tokens == 0 && i == 1),
            script@ == token_evaluations(i as nat),
        decreases n_tokens - i,
    {
        push_str(&mut script, " \"$(eval echo \\\"${");
        let d = decimal_chars(i as u64);
        extend_chars(&mut script, &d);
        push_str(&mut script, "}\\\")\"");
        assert(script@ =~= token_evaluations(i as nat) + nth_token(i as nat));
        i = i + 1;
    }
    assert(script@ == token_evaluations(n_tokens as nat)) by {
        if n_tokens == 0 {
            assert(token_evaluations(0) == token_evaluations(1));
        }
    }
    let mut r = chars_of("exec bash -c '");
    extend_chars(&mut r, &script);
    push_str(&mut r, "' \"${@:1}\"");
    string_of(&r)
}

/// The lines that source each profile: `source "<profile>"`.
pub open spec fn source_lines(profiles: Seq<Seq<char>>) -> Seq<char>
    decreases profiles.len(),
{
    if profiles.len() == 0 {
        Seq::<char>::empty()
    } else {
        source_lines(profiles.drop_last()) + "source \""@ + profiles.last() + "\"\n"@
    }
}

/// The script that Bash runs for a shell process: source the profiles, change to the
/// working directory, then run the command as a script (`exec bash -c "$@"`) or evaluate
/// each of its tokens.
pub open spec fn bash_script_text(
    profiles: Seq<Seq<char>>,
    working_directory: Seq<char>,
    script: bool,
    n_args: nat,
) -> Seq<char> {
    source_lines(profiles) + "cd \""@ + working_directory + "\"\n"@ + if script {
        "exec bash -c \"$@\""@
    } else {
        bash_tokens_command(n_args + 1)
    }
}

impl ShellProcess {
    /// The script that `bash -c` runs for this process.
    pub fn bash_script(&self) -> (r: String)
        requires
            self.args@.len() < usize::MAX,
        ensures
            r@ == bash_script_text(
                string_views(self.profiles@),
                self.working_directory@,
                self.script,
                self.args@.len(),
            ),
    {
        let mut s: Vec<char> = Vec::new();
        let mut i: usize = 0;
        while i < self.profiles.len()
            invariant
                i <= self.profiles@.len(),
                s@ == source_lines(string_views(self.profiles@.take(i as int))),
            decreases self.profiles@.len() - i,
        {
            push_str(&mut s, "source \"");
            push_str(&mut s, self.profiles[i].as_str());
            push_str(&mut s, "\"\n");
            let ghost next = string_views(self.profiles@.take(i + 1));
            assert(next.drop_last() =~= string_views(self.profiles@.take(i as int)));
            assert(next.last() == self.profiles@[i as int]@);
            i = i + 1;
        }
        assert(self.profiles@.take(self.profiles@.len() as int) =~= self.profiles@);
        push_str(&mut s, "cd \"");
        push_str(&mut s, self.working_directory.as_str());
        push_str(&mut s, "\"\n");
        if self.script {
            push_str(&mut s, "exec bash -c \"$@\"");
        } else {
            let c = bash_command_with_tokens(self.args.len() + 1);
            push_str(&mut s, c.as_str());
        }
        string_of(&s)
    }

    /// The arguments given to `/bin/bash` (whose `argv[0]` is `bash`): `-c`, the script,
    /// the caller, the command, then the process arguments.
    pub fn bash_arguments(&self) -> (r: Vec<String>)
        requires
            self.args@.len() < usize::MAX,
        ensures
            string_views(r@) == seq![
                "-c"@,
                bash_script_text(
                    string_views(self.profiles@),
                    self.working_directory@,
                    self.script,
                    self.args@.len(),
                ),
                self.caller@,
                self.command@,
            ] + string_views(self.args@),
    {
        let mut r: Vec<String> = Vec::new();
        r.push(String::from_str("-c"));
        r.push(self.bash_script());
        r.push(self.caller.clone());
        r.push(self.command.clone());
        let ghost head = string_views(r@);
        crate::text::append_strings(&mut r, self.args.as_slice(), 0);
        assert(self.args@.skip(0) =~= self.args@);
        r
    }
}

/// Characters that make `cmd.exe` argument escaping quote the argument.
pub open spec fn is_quote_trigger(c: char) -> bool {
    c == ' ' || c == '\t' || c == '\n' || c == '\u{b}' || c == '"' || c == '&' || c == '|' || c
        == '<' || c == '>' || c == '^' || c == '%' || c == '!' || c == '(' || c == ')'
}

/// Whether an argument holds a character that forces quoting.
pub open spec fn needs_quoting(s: Seq<char>) -> bool {
    exists|i: int| 0 <= i < s.len() && is_quote_trigger(#[trigger] s[i])
}

/// `n` copies of `c`.
pub open spec fn repeat(c: char, n: nat) -> Seq<char> {
    Seq::new(n, |_i: int| c)
}

/// The inside of a quoted argument under the MSVC rules, `pending` backslashes not yet
/// written: backslashes before a quote or at the end are doubled, a quote is escaped with a
/// backslash, and other backslashes stay as they are.
pub open spec fn msvc_quoted_body(s: Seq<char>, pending: nat) -> Seq<char>
    decreases s.len(),
{
    if s.len() == 0 {
        repeat('\\', 2 * pending)
    } else if s[0] == '\\' {
        msvc_quoted_body(s.drop_first(), pending + 1)
    } else if s[0] == '"' {
        repeat('\\', 2 * pending) + seq!['\\', '"'] + msvc_quoted_body(s.drop_first(), 0)
    } else {
        repeat('\\', pending) + seq![s[0]] + msvc_quoted_body(s.drop_first(), 0)
    }
}

/// An argument escaped for `cmd.exe`: `""` for the empty argument, the argument itself
/// where nothing forces quoting, and otherwise the quoted body between double quotes.
pub open spec fn msvc_escaped(s: Seq<char>) -> Seq<char> {
    if s.len() == 0 {
        "\"\""@
    } else if !needs_quoting(s) {
        s
    } else {
        seq!['"'] + msvc_quoted_body(s, 0) + seq!['"']
    }
}

fn push_backslashes(v: &mut Vec<char>, n: usize)
    ensures
        final(v)@ == old(v)@ + repeat('\\', n as nat),
{
    let mut k: usize = 0;
    while k < n
        invariant
            k <= n,
            v@ == old(v)@ + repeat('\\', k as nat),
        decreases n - k,
    {
        v.push('\\');
        assert(old(v)@ + repeat('\\', (k + 1) as nat) =~= (old(v)@ + repeat('\\', k as nat)).push('\\'));
        k = k + 1;
    }
}

proof fn lemma_repeat_add(c: char, a: nat, b: nat)
    ensures
        repeat(c, a) + repeat(c, b) == repeat(c, a + b),
{
    assert(repeat(c, a) + repeat(c, b) =~= repeat(c, a + b));
}

/// Escapes a command-line argument with the MSVC rules, and forces quoting where
/// `cmd.exe` metacharacters or quotes are present.
pub fn escape_msvc_arg(arg: &str) -> (r: String)
    ensures
        r@ == msvc_escaped(arg@),
{
    let s = chars_of(arg);
    if s.len() == 0 {
        return String::from_str("\"\"");
    }
    let mut quote = false;
    let mut i: usize = 0;
    while i < s.len()
        invariant
            i <= s@.len(),
            quote == (exists|j: int| 0 <= j < i && is_quote_trigger(#[trigger] s@[j])),
        decreases s@.len() - i,
    {
        let c = s[i];
        if c == ' ' || c == '\t' || c == '\n' || c == '\u{b}' || c == '"' || c == '&' || c == '|'
            || c == '<' || c == '>' || c == '^' || c == '%' || c == '!' || c == '(' || c == ')' {
            quote = true;
        }
        i = i + 1;
    }
    if !quote {
        return string_of(&s);
    }
    let mut out: Vec<char> = Vec::new();
    out.push('"');
    let mut backslashes: usize = 0;
    let mut k: usize = 0;
    assert(s@.skip(0) =~= s@);
    while k < s.len()
        invariant
            k <= s@.len(),
            backslashes <= k,
            out@ + msvc_quoted_body(s@.skip(k as int), backslashes as nat) == seq!['"']
                + msvc_quoted_body(s@, 0),
        decreases s@.len() - k,
    {
        let c = s[k];
        let ghost rest = s@.skip(k as int);
        assert(rest[0] == c);
        assert(rest.drop_first() =~= s@.skip(k + 1));
        if c == '\\' {
            backslashes = backslashes + 1;
        } else if c == '"' {
            let ghost before = out@;
            push_backslashes(&mut out, backslashes);
            push_backslashes(&mut out, backslashes);
            out.push('\\');
            out.push('"');
            proof {
                lemma_repeat_add('\\', backslashes as nat, backslashes as nat);
                assert(out@ =~= before + repeat('\\', 2 * backslashes as nat) + seq!['\\', '"']);
            }
            backslashes = 0;
        } else {
            let ghost before = out@;
            push_backslashes(&mut out, backslashes);
            out.push(c);
            assert(out@ =~= before + repeat('\\', backslashes as nat) + seq![c]);
            backslashes = 0;
        }
        k = k + 1;
    }
    let ghost before = out@;
    push_backslashes(&mut out, backslashes);
    push_backslashes(&mut out, backslashes);
    proof {
        lemma_repeat_add('\\', backslashes as nat, backslashes as nat);
        assert(s@.skip(k as int).len() == 0);
    }
    out.push('"');
    assert(out@ =~= seq!['"'] + msvc_quoted_body(s@, 0) + seq!['"']);
    string_of(&out)
}

/// The words that call each profile: `call <profile> &&`, the profile escaped.
pub open spec fn profile_call_words(profiles: Seq<Seq<char>>) -> Seq<Seq<char>>
    decreases profiles.len(),
{
    if profiles.len() == 0 {
        Seq::<Seq<char>>::empty()
    } else {
        profile_call_words(profiles.drop_last()) + seq![
            "call"@,
            msvc_escaped(profiles.last()),
            "&&"@,
        ]
    }
}

/// The escaped forms of a list of arguments.
pub open spec fn escaped_all(args: Seq<Seq<char>>) -> Seq<Seq<char>> {
    args.map_values(|a: Seq<char>| msvc_escaped(a))
}

/// The words of the `cmd.exe` command line: the profile calls, `cd /d <working directory> &&`,
/// then the command and its arguments, each escaped.
pub open spec fn cmd_words(
    profiles: Seq<Seq<char>>,
    working_directory: Seq<char>,
    command: Seq<char>,
    args: Seq<Seq<char>>,
) -> Seq<Seq<char>> {
    profile_call_words(profiles) + seq![
        "cd"@,
        "/d"@,
        msvc_escaped(working_directory),
        "&&"@,
        msvc_escaped(command),
    ] + escaped_all(args)
}

/// The raw argument given to `cmd /q /v:on /s /c`: the words joined with spaces, wrapped in
/// one pair of double quotes.
pub open spec fn cmd_line_text(
    profiles: Seq<Seq<char>>,
    working_directory: Seq<char>,
    command: Seq<char>,
    args: Seq<Seq<char>>,
) -> Seq<char> {
    seq!['"'] + join(cmd_words(profiles, working_directory, command, args), " "@) + seq!['"']
}


fn push_word(words: &mut Vec<Vec<char>>, w: &str)
    ensures
        crate::text::views(final(words)@) == crate::text::views(old(words)@).push(w@),
{
    let v = chars_of(w);
    words.push(v);
    assert(crate::text::views(words@) =~= crate::text::views(old(words)@).push(w@));
}

fn push_escaped(words: &mut Vec<Vec<char>>, w: &str)
    ensures
        crate::text::views(final(words)@) == crate::text::views(old(words)@).push(msvc_escaped(w@)),
{
    let e = escape_msvc_arg(w);
    push_word(words, e.as_str());
}

impl ShellProcess {
    /// The raw argument that `cmd /q /v:on /s /c` runs for this process.
    pub fn cmd_command_line(&self) -> (r: String)
        ensures
            r@ == cmd_line_text(
                string_views(self.profiles@),
                self.working_directory@,
                self.command@,
                string_views(self.args@),
            ),
    {
        let mut words: Vec<Vec<char>> = Vec::new();
        let mut i: usize = 0;
        while i < self.profiles.len()
            invariant
                i <= self.profiles@.len(),
                crate::text::views(words@) == profile_call_words(
                    string_views(self.profiles@.take(i as int)),
                ),
            decreases self.profiles@.len() - i,
        {
            push_word(&mut words, "call");
            push_escaped(&mut words, self.profiles[i].as_str());
            push_word(&mut words, "&&");
            let ghost next = string_views(self.profiles@.take(i + 1));
            assert(next.drop_last() =~= string_views(self.profiles@.take(i as int)));
            assert(next.last() == self.profiles@[i as int]@);
            assert(crate::text::views(words@) =~= profile_call_words(next));
            i = i + 1;
        }
        assert(self.profiles@.take(self.profiles@.len() as int) =~= self.profiles@);
        let ghost head = crate::text::views(words@);
        push_word(&mut words, "cd");
        push_word(&mut words, "/d");
        push_escaped(&mut words, self.working_directory.as_str());
        push_word(&mut words, "&&");
        push_escaped(&mut words, self.command.as_str());
        let ghost mid = crate::text::views(words@);
        let mut k: usize = 0;
        while k < self.args.len()
            invariant
                k <= self.args@.len(),
                crate::text::views(words@) == mid + escaped_all(string_views(self.args@.take(k as int))),
            decreases self.args@.len() - k,
        {
            push_escaped(&mut words, self.args[k].as_str());
            assert(escaped_all(string_views(self.args@.take(k + 1))) =~= escaped_all(
                string_views(self.args@.take(k as int)),
            ).push(msvc_escaped(self.args@[k as int]@)));
            k = k + 1;
        }
        assert(self.args@.take(self.args@.len() as int) =~= self.args@);
        assert(crate::text::views(words@) =~= cmd_words(
            string_views(self.profiles@),
            self.working_directory@,
            self.command@,
            string_views(self.args@),
        ));
        let sep = chars_of(" ");
        let line = crate::text::join_chars(&words, &sep);
        let mut out: Vec<char> = Vec::new();
        out.push('"');
        extend_chars(&mut out, &line);
        out.push('"');
        assert(out@ =~= seq!['"'] + line@ + seq!['"']);
        string_of(&out)
    }
}

} // verus!
