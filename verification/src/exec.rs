//! Install commands built from platform templates.
use vstd::prelude::*;
use crate::error::Error;
use crate::os::PlatformConfig;
use crate::text::{chars_of, join, join_exec, replace, replace_exec, string_from, views};

verus! {

/// The words that `shlex::split` makes of a command line under POSIX shell
/// quoting rules, or `None` where the line is malformed (an unterminated
/// quote or a trailing backslash). Named, not stated: the rules take pages.
pub uninterp spec fn shell_words(line: Seq<char>) -> Option<Seq<Seq<char>>>;

/// `shlex::split`: the shell words of a command line.
#[verifier::external_body]
fn shlex_split(line: &str) -> (r: Option<Vec<String>>)
    ensures
        r matches Some(v) ==> shell_words(line@) == Some(views(v@)),
        r is None ==> shell_words(line@) is None,
{
    shlex::split(line)
}

/// The install command line for a package: the template with every
/// `{package}` replaced.
pub open spec fn install_line(template: Seq<char>, package: Seq<char>) -> Seq<char> {
    replace(template, "{package}"@, package)
}

/// The words of a command line: its shell words, or the whole line as one
/// word where it does not split.
pub open spec fn command_words(line: Seq<char>) -> Seq<Seq<char>> {
    match shell_words(line) {
        Some(w) => w,
        None => seq![line],
    }
}

/// The words of the install command for `package` under `config`.
pub open spec fn install_words(config: PlatformConfig, package: Seq<char>) -> Seq<Seq<char>> {
    command_words(install_line(config.install@, package))
}

/// A platform install command with template substitution and sudo wrapping.
#[derive(Debug)]
pub struct Command {
    /// Program to execute: `apt`, `sudo`, `brew`, etc.
    pub program: String,
    /// Arguments passed to the program.
    pub args: Vec<String>,
}

/// The command that `config` gives for `package`, as program and arguments:
/// under sudo, `sudo` with all the words as arguments; else the first word
/// (or nothing) with the others as arguments.
pub open spec fn command_for(config: PlatformConfig, package: Seq<char>) -> (Seq<char>, Seq<Seq<char>>) {
    command_of_words(config.sudo, install_words(config, package))
}

/// The command that a list of words makes, as program and arguments: under
/// sudo, `sudo` with all the words as arguments; else the first word (or
/// nothing) with the others as arguments.
pub open spec fn command_of_words(sudo: bool, words: Seq<Seq<char>>) -> (Seq<char>, Seq<Seq<char>>) {
    if sudo {
        ("sudo"@, words)
    } else if words.len() == 0 {
        (Seq::empty(), Seq::empty())
    } else {
        (words[0], words.skip(1))
    }
}

/// The command as a line: program, a space, the arguments joined by spaces.
pub open spec fn display_of(program: Seq<char>, args: Seq<Seq<char>>) -> Seq<char> {
    program + seq![' '] + join(args, seq![' '])
}

impl Command {
    /// Builds the command from a platform config, substituting `{package}` in
    /// the install template and splitting it into shell words. With
    /// `sudo: true` in the config the command is `sudo <program> <args>`.
    ///
    /// Under sudo the words must not be empty: there is no program to run.
    /// [`Command::try_from_config`] checks this.
    pub fn from_config(config: &PlatformConfig, package: &str) -> (r: Command)
        requires
            config.sudo ==> install_words(*config, package@).len() > 0,
        ensures
            r.program@ == command_for(*config, package@).0,
            views(r.args@) == command_for(*config, package@).1,
    {
        let template = chars_of(config.install.as_str());
        let pat = chars_of("{package}");
        let pkg = chars_of(package);
        let line = string_from(&replace_exec(&template, &pat, &pkg));
        let parts = match shlex_split(line.as_str()) {
            Some(words) => words,
            None => {
                let mut one = Vec::new();
                one.push(line);
                assert(views(one@) =~= seq![install_line(config.install@, package@)]);
                one
            },
        };
        Command::from_words(config.sudo, parts)
    }

    /// The command that the words of an install line make (see
    /// [`command_of_words`]). Under sudo the words must not be empty: there
    /// is no program to run.
    pub fn from_words(sudo: bool, parts: Vec<String>) -> (r: Command)
        requires
            sudo ==> parts.len() > 0,
        ensures
            r.program@ == command_of_words(sudo, views(parts@)).0,
            views(r.args@) == command_of_words(sudo, views(parts@)).1,
    {
        if sudo {
            Command { program: "sudo".to_string(), args: parts }
        } else if parts.len() == 0 {
            assert(views(parts@) =~= Seq::<Seq<char>>::empty());
            Command { program: String::new(), args: parts }
        } else {
            let mut args: Vec<String> = Vec::new();
            let mut i: usize = 1;
            while i < parts.len()
                invariant
                    1 <= i <= parts.len(),
                    views(args@) == views(parts@).subrange(1, i as int),
                decreases parts.len() - i,
            {
                let ghost before = args@;
                let w = parts[i].clone();
                assert(w@ == parts@[i as int]@);
                args.push(w);
                assert(args@ =~= before.push(w));
                assert(views(args@) =~= views(before).push(w@));
                assert(views(args@) =~= views(parts@).subrange(1, i + 1));
                i = i + 1;
            }
            assert(views(parts@).subrange(1, parts.len() as int) =~= views(parts@).skip(1));
            Command { program: parts[0].clone(), args }
        }
    }

    /// Builds the command as [`Command::from_config`] does, or gives `None`
    /// when the config asks for sudo and the install line has no words.
    pub fn try_from_config(config: &PlatformConfig, package: &str) -> (r: Option<Command>)
        ensures
            r is None <==> config.sudo && install_words(*config, package@).len() == 0,
            r matches Some(c) ==> c.program@ == command_for(*config, package@).0 && views(c.args@)
                == command_for(*config, package@).1,
    {
        if config.sudo {
            let template = chars_of(config.install.as_str());
            let pat = chars_of("{package}");
            let pkg = chars_of(package);
            let line = string_from(&replace_exec(&template, &pat, &pkg));
            match shlex_split(line.as_str()) {
                Some(words) => {
                    if words.len() == 0 {
                        assert(views(words@).len() == 0);
                        return None;
                    }
                },
                None => {},
            }
        }
        Some(Command::from_config(config, package))
    }

    /// The command as a human-readable line (for `--dry-run` display).
    pub fn to_display(&self) -> (r: String)
        ensures
            r@ == display_of(self.program@, views(self.args@)),
    {
        let mut line = chars_of(self.program.as_str());
        line.push(' ');
        let sep = vec![' '];
        assert(sep@ =~= seq![' ']);
        let rest = join_exec(&self.args, &sep);
        crate::text::push_all(&mut line, &rest);
        string_from(&line)
    }

    /// The error for a program that could not be started: `ProgramNotFound`
    /// when it is not on `PATH`, else an execution error with the cause.
    pub fn spawn_error(&self, not_found: bool, cause: &str) -> (r: Error)
        ensures
            not_found ==> r == Error::ProgramNotFound(self.program),
            !not_found ==> (r matches Error::Exec(m) && m@ == "failed to execute: "@ + cause@),
    {
        if not_found {
            Error::ProgramNotFound(self.program.clone())
        } else {
            Error::Exec(crate::error::prefixed("failed to execute: ", cause))
        }
    }

    /// The error for a command that exited unsuccessfully, given how it
    /// exited.
    pub fn exit_error(status: &str) -> (r: Error)
        ensures
            r matches Error::Exec(m) && m@ == "command exited with "@ + status@,
    {
        Error::Exec(crate::error::prefixed("command exited with ", status))
    }
}

} // verus!
