//! Command lines for a pseudo-terminal, put together in `portable_pty`'s builder.

use portable_pty::CommandBuilder;
use vstd::prelude::*;

use crate::flow::graph::Text;

verus! {

/// `portable_pty::CommandBuilder`: an argument vector, an environment and a working directory.
#[verifier::external_type_specification]
#[verifier::external_body]
pub struct ExCommandBuilder(CommandBuilder);

/// The argument vector of a builder, the program first.
pub uninterp spec fn command_argv(c: CommandBuilder) -> Seq<Seq<char>>;

/// The variables that a builder holds, on the systems where their names are case-sensitive. What
/// is said of them below is not said of Windows, where two names that differ in case alone are one
/// variable. A spawn adds `SHELL` where the builder holds none.
pub uninterp spec fn command_env(c: CommandBuilder) -> Map<Seq<char>, Seq<char>>;

/// The working directory of a builder, where one was set.
pub uninterp spec fn command_cwd(c: CommandBuilder) -> Option<Seq<char>>;

/// `CommandBuilder::new`: the program alone, no working directory. Which variables it starts with
/// is left open: they are those of the process.
#[verifier::external_body]
pub(crate) fn new_command(program: &str) -> (r: CommandBuilder)
    ensures
        command_argv(r) == seq![program@],
        command_cwd(r) is None,
{
    CommandBuilder::new(program)
}

/// `CommandBuilder::arg`: one more argument at the end. It panics on a builder without a
/// program, which is left out.
#[verifier::external_body]
pub(crate) fn push_arg(c: &mut CommandBuilder, arg: &str)
    requires
        command_argv(*old(c)).len() > 0,
    ensures
        command_argv(*final(c)) == command_argv(*old(c)).push(arg@),
        command_env(*final(c)) == command_env(*old(c)),
        command_cwd(*final(c)) == command_cwd(*old(c)),
{
    c.arg(arg)
}

/// `CommandBuilder::cwd`: sets the working directory, and nothing else.
#[verifier::external_body]
pub(crate) fn set_cwd(c: &mut CommandBuilder, dir: &str)
    ensures
        command_cwd(*final(c)) == Some(dir@),
        command_argv(*final(c)) == command_argv(*old(c)),
        command_env(*final(c)) == command_env(*old(c)),
{
    c.cwd(dir)
}

/// `CommandBuilder::env_clear`: the builder holds no variable any more.
#[verifier::external_body]
pub(crate) fn clear_env(c: &mut CommandBuilder)
    ensures
        command_env(*final(c)).dom() == Set::<Seq<char>>::empty(),
        command_argv(*final(c)) == command_argv(*old(c)),
        command_cwd(*final(c)) == command_cwd(*old(c)),
{
    c.env_clear()
}

/// `CommandBuilder::env`: sets one variable, in place of any value it had.
#[verifier::external_body]
pub(crate) fn set_env(c: &mut CommandBuilder, key: &str, value: &str)
    ensures
        command_env(*final(c)) == command_env(*old(c)).insert(key@, value@),
        command_argv(*final(c)) == command_argv(*old(c)),
        command_cwd(*final(c)) == command_cwd(*old(c)),
{
    c.env(key, value)
}

/// The variables set one after the other; a later value replaces an earlier one.
pub open spec fn env_of(pairs: Seq<(Text, Text)>) -> Map<Text, Text>
    decreases pairs.len(),
{
    if pairs.len() == 0 {
        Map::empty()
    } else {
        env_of(pairs.drop_last()).insert(pairs.last().0, pairs.last().1)
    }
}

pub open spec fn env_pairs(v: Seq<(String, String)>) -> Seq<(Text, Text)> {
    v.map_values(|e: (String, String)| (e.0@, e.1@))
}

/// The last value that a variable is given is the one it has, no other variable is touched, and what
/// was never given is not there.
pub proof fn law_the_last_value_counts(pairs: Seq<(Text, Text)>, name: Text, value: Text, other: Text)
    ensures
        env_of(pairs.push((name, value))).contains_key(name),
        env_of(pairs.push((name, value)))[name] == value,
        other != name ==> env_of(pairs.push((name, value))).contains_key(other) == env_of(pairs).contains_key(other),
        other != name && env_of(pairs).contains_key(other) ==> env_of(pairs.push((name, value)))[other] == env_of(pairs)[other],
        env_of(Seq::<(Text, Text)>::empty()).dom().is_empty(),
{
    assert(pairs.push((name, value)).drop_last() =~= pairs);
}

}
