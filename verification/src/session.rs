//! The session: the mutable current directory, the append-only audit log,
//! and dispatch of parsed command lines to the command handlers.
//!
//! The driver around the library supplies each raw input line together with
//! a timestamp, prints the returned result, and mirrors every appended
//! audit record to persistent storage.

use crate::commands::{
    lemma_cd_preserves_valid_path, lemma_cd_result_literals, lemma_cd_root,
    lemma_cd_then_up_returns_to_root, lemma_root_segments_empty, spec_cd, spec_chmod, spec_find,
    spec_ls, BaseCommand, CDCommand, ChmodCommand, ClearCommand, ExitCommand, FindCommand,
    LSCommand,
};
use crate::strutil::{
    clean_token, no_char, spec_split, spec_starts_with, spec_tokens, split_char, starts_with,
    str_eq, tokenize, valid_path,
};
use vstd::prelude::*;

verus! {

/// One audit record: unix-epoch seconds and the raw command line as entered.
pub struct AuditRecord {
    /// Unix-epoch seconds at which the command was processed.
    pub seconds: u64,
    /// The raw command line, exactly as entered.
    pub line: String,
}

/// The result of dispatching a tokenized command line: the first token
/// selects the handler, the rest form the argument vector.
pub open spec fn spec_dispatch(vfs: Seq<Seq<char>>, current: Seq<char>, toks: Seq<Seq<char>>) -> Seq<
    char,
>
    recommends
        toks.len() > 0,
{
    let cmd = toks[0];
    let args = toks.skip(1);
    if cmd == "ls"@ {
        spec_ls(vfs, current)
    } else if cmd == "cd"@ {
        spec_cd(vfs, current, args)
    } else if cmd == "exit"@ {
        "exit"@
    } else if cmd == "find"@ {
        spec_find(vfs, args)
    } else if cmd == "clear"@ {
        "clear"@
    } else if cmd == "chmod"@ {
        spec_chmod(vfs, args)
    } else {
        "Unknown command"@
    }
}

/// The textual result of one command line: the handler's result with a
/// trailing newline. A line with no tokens yields the empty string (nothing
/// is emitted), though it is still audited.
pub open spec fn session_result(vfs: Seq<Seq<char>>, current: Seq<char>, line: Seq<char>) -> Seq<
    char,
> {
    let toks = spec_tokens(line);
    if toks.len() == 0 {
        Seq::empty()
    } else {
        spec_dispatch(vfs, current, toks) + "\n"@
    }
}

/// The current path after one command line: changed only by a `cd` whose
/// result does not carry the in-band error prefix.
pub open spec fn session_next_path(
    vfs: Seq<Seq<char>>,
    current: Seq<char>,
    line: Seq<char>,
) -> Seq<char> {
    let toks = spec_tokens(line);
    if toks.len() > 0 && toks[0] == "cd"@ {
        let r = spec_cd(vfs, current, toks.skip(1));
        if spec_starts_with(r, "Error"@) {
            current
        } else {
            r
        }
    } else {
        current
    }
}

/// The shell session: an immutable VFS, the current working directory, and
/// the append-only audit log.
pub struct ShellEmulator {
    /// The loaded set of absolute path strings. Never mutated.
    pub vfs: Vec<String>,
    /// The current working directory, initially `/`.
    pub current_path: String,
    /// One record per processed command line, in submission order.
    pub audit: Vec<AuditRecord>,
}

impl ShellEmulator {
    /// A fresh session over the given VFS, at the root, with an empty log.
    pub fn new(vfs: Vec<String>) -> (s: Self)
        ensures
            s.vfs == vfs,
            s.current_path@ == "/"@,
            s.audit@ == Seq::<AuditRecord>::empty(),
    {
        let s = ShellEmulator {
            vfs,
            current_path: String::from_str("/"),
            audit: Vec::new(),
        };
        proof {
            assert(s.audit@ =~= Seq::<AuditRecord>::empty());
        }
        s
    }

    /// Process one command line: dispatch it, commit a successful `cd`, and
    /// append exactly one audit record carrying the raw line.
    #[verifier::loop_isolation(false)]
    pub fn execute_command(&mut self, line: &str, now_seconds: u64) -> (result: String)
        ensures
            result@ == session_result(old(self).vfs.deep_view(), old(self).current_path@, line@),
            final(self).vfs == old(self).vfs,
            final(self).current_path@ == session_next_path(
                old(self).vfs.deep_view(),
                old(self).current_path@,
                line@,
            ),
            final(self).audit@.len() == old(self).audit@.len() + 1,
            final(self).audit@.take(old(self).audit@.len() as int) == old(self).audit@,
            final(self).audit@.last().seconds == now_seconds,
            final(self).audit@.last().line@ == line@,
    {
        let ghost dv = self.vfs.deep_view();
        let ghost cur0 = self.current_path@;
        let toks = tokenize(line);
        let mut result: String;
        if toks.len() == 0 {
            result = String::new();
        } else {
            proof {
                assert(toks.deep_view()[0] == toks@[0]@);
            }
            let mut argv: Vec<&str> = Vec::new();
            let mut i: usize = 1;
            proof {
                assert(argv.deep_view() =~= toks.deep_view().subrange(1, 1));
            }
            while i < toks.len()
                invariant
                    1 <= i <= toks@.len(),
                    argv.deep_view() == toks.deep_view().subrange(1, i as int),
                decreases toks@.len() - i,
            {
                let ghost prev = argv.deep_view();
                argv.push(toks[i].as_str());
                proof {
                    assert(argv.deep_view() =~= prev.push(toks.deep_view()[i as int]));
                    assert(toks.deep_view().subrange(1, i as int + 1) =~= toks.deep_view().subrange(
                        1,
                        i as int,
                    ).push(toks.deep_view()[i as int]));
                }
                i = i + 1;
            }
            proof {
                assert(argv.deep_view() =~= toks.deep_view().skip(1));
            }
            let args: &[&str] = argv.as_slice();
            let cmd: &str = toks[0].as_str();
            if str_eq(cmd, "ls") {
                result = LSCommand::run(&self.vfs, self.current_path.as_str(), args);
                proof {
                    // `ls` is checked before `cd`, so this branch must rule
                    // out a `cd` line by the literals' contents.
                    reveal_strlit("ls");
                    reveal_strlit("cd");
                    assert("ls"@[0] == 'l');
                    assert("cd"@[0] == 'c');
                }
            } else if str_eq(cmd, "cd") {
                let new_path = CDCommand::run(&self.vfs, self.current_path.as_str(), args);
                proof {
                    assert(new_path@ == spec_cd(dv, cur0, spec_tokens(line@).skip(1)));
                }
                if !starts_with(new_path.as_str(), "Error") {
                    self.current_path = new_path.clone();
                }
                proof {
                    assert(self.current_path@ == session_next_path(dv, cur0, line@));
                }
                result = new_path;
            } else if str_eq(cmd, "exit") {
                result = ExitCommand::run(&self.vfs, self.current_path.as_str(), args);
            } else if str_eq(cmd, "find") {
                result = FindCommand::run(&self.vfs, self.current_path.as_str(), args);
            } else if str_eq(cmd, "clear") {
                result = ClearCommand::run(&self.vfs, self.current_path.as_str(), args);
            } else if str_eq(cmd, "chmod") {
                result = ChmodCommand::run(&self.vfs, self.current_path.as_str(), args);
            } else {
                result = String::from_str("Unknown command");
            }
            result.append("\n");
        }
        let ghost audit0 = self.audit@;
        self.audit.push(AuditRecord { seconds: now_seconds, line: line.to_owned() });
        proof {
            assert(self.audit@.take(audit0.len() as int) =~= audit0);
        }
        result
    }
}

/// The configuration model after one `key,value` line: the recognised key's
/// field takes the second comma-separated part; anything else is a no-op.
pub open spec fn spec_config_update(
    m: (Seq<char>, Seq<char>, Seq<char>, Seq<char>),
    line: Seq<char>,
) -> (Seq<char>, Seq<char>, Seq<char>, Seq<char>) {
    let parts = spec_split(line, ',');
    if parts.len() >= 2 {
        if parts[0] == "hostname"@ {
            (parts[1], m.1, m.2, m.3)
        } else if parts[0] == "filesystem_path"@ {
            (m.0, parts[1], m.2, m.3)
        } else if parts[0] == "log_path"@ {
            (m.0, m.1, parts[1], m.3)
        } else if parts[0] == "startup_script"@ {
            (m.0, m.1, m.2, parts[1])
        } else {
            m
        }
    } else {
        m
    }
}

/// Startup configuration, read from plain `key,value` lines. Unknown keys
/// are ignored; so is a line with fewer than two comma-separated fields.
pub struct Config {
    /// Informational host name.
    pub hostname: String,
    /// Path to the VFS archive.
    pub fs_path: String,
    /// Informational log path (read but not applied; the audit file name is
    /// fixed by the driver).
    pub log_path: String,
    /// Informational startup script path.
    pub startup_script: String,
}

impl Config {
    /// A configuration with every field empty.
    pub fn new() -> (c: Self)
        ensures
            c.hostname@ == Seq::<char>::empty(),
            c.fs_path@ == Seq::<char>::empty(),
            c.log_path@ == Seq::<char>::empty(),
            c.startup_script@ == Seq::<char>::empty(),
    {
        Config {
            hostname: String::new(),
            fs_path: String::new(),
            log_path: String::new(),
            startup_script: String::new(),
        }
    }

    /// The configuration's mathematical model: the four field contents.
    pub open spec fn model(self) -> (Seq<char>, Seq<char>, Seq<char>, Seq<char>) {
        (self.hostname@, self.fs_path@, self.log_path@, self.startup_script@)
    }

    /// Apply one configuration line: the first comma-separated field names
    /// the key, the second is its value.
    pub fn apply_line(&mut self, line: &str)
        ensures
            final(self).model() == spec_config_update(old(self).model(), line@),
    {
        let parts = split_char(line, ',');
        if parts.len() >= 2 {
            proof {
                assert(parts.deep_view()[0] == parts@[0]@);
                assert(parts.deep_view()[1] == parts@[1]@);
            }
            let key = parts[0].as_str();
            if str_eq(key, "hostname") {
                self.hostname = parts[1].clone();
            } else if str_eq(key, "filesystem_path") {
                self.fs_path = parts[1].clone();
            } else if str_eq(key, "log_path") {
                self.log_path = parts[1].clone();
            } else if str_eq(key, "startup_script") {
                self.startup_script = parts[1].clone();
            }
        }
    }
}

/// The VFS paths contributed by archive entry names: each name prefixed
/// with `/`.
pub open spec fn spec_prefixed(entries: Seq<Seq<char>>) -> Seq<Seq<char>> {
    Seq::new(entries.len(), |i: int| "/"@ + entries[i])
}

/// Build the VFS from a list of archive entry names.
#[verifier::loop_isolation(false)]
pub fn vfs_from_entries(entries: &Vec<String>) -> (r: Vec<String>)
    ensures
        r.deep_view() == spec_prefixed(entries.deep_view()),
{
    let mut out: Vec<String> = Vec::new();
    let mut i: usize = 0;
    proof {
        assert(out.deep_view() =~= spec_prefixed(entries.deep_view().take(0)));
    }
    while i < entries.len()
        invariant
            i <= entries@.len(),
            out.deep_view() == spec_prefixed(entries.deep_view().take(i as int)),
        decreases entries@.len() - i,
    {
        let mut s = String::from_str("/");
        s.append(entries[i].as_str());
        let ghost prevdv = out.deep_view();
        let ghost sv = s@;
        out.push(s);
        proof {
            assert(entries.deep_view()[i as int] == entries@[i as int]@);
            assert(out.deep_view() =~= prevdv.push(sv));
            assert(spec_prefixed(entries.deep_view().take(i as int + 1)) =~= spec_prefixed(
                entries.deep_view().take(i as int),
            ).push("/"@ + entries.deep_view()[i as int]));
        }
        i = i + 1;
    }
    proof {
        assert(entries.deep_view().take(entries@.len() as int) =~= entries.deep_view());
    }
    out
}

/// Any line that is not a `cd` line leaves the current path unchanged:
/// `ls`, `find`, `chmod`, `exit`, `clear` and unknown commands never mutate
/// session state.
pub proof fn lemma_non_cd_preserves_path(vfs: Seq<Seq<char>>, current: Seq<char>, line: Seq<char>)
    requires
        ({
            let toks = spec_tokens(line);
            toks.len() == 0 || toks[0] != "cd"@
        }),
    ensures
        session_next_path(vfs, current, line) == current,
{
}

/// An `ls` line never changes the current path, so repeating it with no
/// intervening `cd` yields the same result.
pub proof fn lemma_ls_repeatable(vfs: Seq<Seq<char>>, current: Seq<char>, line: Seq<char>)
    requires
        ({
            let toks = spec_tokens(line);
            toks.len() > 0 && toks[0] == "ls"@
        }),
    ensures
        session_next_path(vfs, current, line) == current,
        session_result(vfs, session_next_path(vfs, current, line), line) == session_result(
            vfs,
            current,
            line,
        ),
{
    reveal_strlit("ls");
    reveal_strlit("cd");
    assert("ls"@[0] == 'l');
    assert("cd"@[0] == 'c');
}

/// A `cd /` line sets the current path to the root from any state.
pub proof fn lemma_session_cd_root(vfs: Seq<Seq<char>>, current: Seq<char>, line: Seq<char>)
    requires
        ({
            let toks = spec_tokens(line);
            toks.len() >= 2 && toks[0] == "cd"@ && toks[1] == "/"@
        }),
    ensures
        session_next_path(vfs, current, line) == "/"@,
{
    let toks = spec_tokens(line);
    let args = toks.skip(1);
    assert(args[0] == toks[1]);
    lemma_cd_root(vfs, current, args);
    lemma_cd_result_literals();
}

/// Processing one line preserves the validity of the current path: it keeps
/// its leading `/` and gains no empty segment, provided the target of a
/// `cd` line is itself made of non-empty segments.
pub proof fn lemma_execute_preserves_valid_path(
    vfs: Seq<Seq<char>>,
    current: Seq<char>,
    line: Seq<char>,
)
    requires
        valid_path(current),
        ({
            let toks = spec_tokens(line);
            (toks.len() >= 2 && toks[0] == "cd"@ && toks[1] != ".."@ && toks[1] != "/"@)
                ==> clean_token(toks[1])
        }),
    ensures
        valid_path(session_next_path(vfs, current, line)),
{
    let toks = spec_tokens(line);
    if toks.len() > 0 && toks[0] == "cd"@ {
        let args = toks.skip(1);
        if args.len() == 0 {
            lemma_cd_result_literals();
        } else {
            assert(args[0] == toks[1]);
            lemma_cd_preserves_valid_path(vfs, current, args);
        }
    }
}

/// `cd <dir>` followed by `cd ..`, starting at the root, returns the
/// current path to the root, for a single-segment directory token.
pub proof fn lemma_session_cd_then_up_returns_to_root(
    vfs: Seq<Seq<char>>,
    line1: Seq<char>,
    line2: Seq<char>,
)
    requires
        ({
            let t1 = spec_tokens(line1);
            t1.len() == 2 && t1[0] == "cd"@ && t1[1].len() > 0 && no_char(t1[1], '/')
        }),
        ({
            let t2 = spec_tokens(line2);
            t2.len() == 2 && t2[0] == "cd"@ && t2[1] == ".."@
        }),
    ensures
        session_next_path(vfs, session_next_path(vfs, "/"@, line1), line2) == "/"@,
{
    lemma_cd_result_literals();
    let t1 = spec_tokens(line1);
    let t2 = spec_tokens(line2);
    assert(t1.skip(1) =~= seq![t1[1]]);
    assert(t2.skip(1) =~= seq![".."@]);
    let r1 = spec_cd(vfs, "/"@, t1.skip(1));
    lemma_cd_then_up_returns_to_root(vfs, t1[1]);
    let p1 = session_next_path(vfs, "/"@, line1);
    if spec_starts_with(r1, "Error"@) {
        assert(p1 == "/"@);
        lemma_root_segments_empty();
        assert(spec_cd(vfs, p1, t2.skip(1)) == "/"@);
    } else {
        assert(p1 == r1);
        assert(spec_cd(vfs, p1, t2.skip(1)) == "/"@);
    }
}

/// A line is a successful `cd` from a given state when its first token is
/// `cd` and the handler result carries no in-band error prefix.
pub open spec fn successful_cd(vfs: Seq<Seq<char>>, current: Seq<char>, line: Seq<char>) -> bool {
    let toks = spec_tokens(line);
    toks.len() > 0 && toks[0] == "cd"@ && !spec_starts_with(
        spec_cd(vfs, current, toks.skip(1)),
        "Error"@,
    )
}

/// The current path after a whole sequence of command lines.
pub open spec fn run_path(vfs: Seq<Seq<char>>, current: Seq<char>, lines: Seq<Seq<char>>) -> Seq<
    char,
>
    decreases lines.len(),
{
    if lines.len() == 0 {
        current
    } else {
        run_path(vfs, session_next_path(vfs, current, lines[0]), lines.skip(1))
    }
}

/// No line of the sequence is a successful `cd` from the state it meets.
pub open spec fn no_successful_cd(
    vfs: Seq<Seq<char>>,
    current: Seq<char>,
    lines: Seq<Seq<char>>,
) -> bool
    decreases lines.len(),
{
    lines.len() == 0 || (!successful_cd(vfs, current, lines[0]) && no_successful_cd(
        vfs,
        session_next_path(vfs, current, lines[0]),
        lines.skip(1),
    ))
}

/// Over any sequence of command lines none of which is a successful `cd`,
/// the current path never changes; in particular, starting from `/` it
/// remains `/`.
pub proof fn lemma_no_cd_keeps_path(
    vfs: Seq<Seq<char>>,
    current: Seq<char>,
    lines: Seq<Seq<char>>,
)
    requires
        no_successful_cd(vfs, current, lines),
    ensures
        run_path(vfs, current, lines) == current,
    decreases lines.len(),
{
    if lines.len() > 0 {
        assert(session_next_path(vfs, current, lines[0]) == current);
        lemma_no_cd_keeps_path(vfs, current, lines.skip(1));
    }
}

/// The fixed fallback seed installed when no archive is available.
pub fn default_vfs() -> (r: Vec<String>)
    ensures
        r.deep_view() == seq![
            "/folder1/file1.txt"@,
            "/folder1/file2.txt"@,
            "/folder2/file3.txt"@,
        ],
{
    let mut v: Vec<String> = Vec::new();
    v.push(String::from_str("/folder1/file1.txt"));
    v.push(String::from_str("/folder1/file2.txt"));
    v.push(String::from_str("/folder2/file3.txt"));
    proof {
        assert(v.deep_view() =~= seq![
            "/folder1/file1.txt"@,
            "/folder1/file2.txt"@,
            "/folder2/file3.txt"@,
        ]);
    }
    v
}

} // verus!
