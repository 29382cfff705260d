//! The IOC shell: command-line tokenizing, output redirection and the pure
//! parts of the built-in commands.
use vstd::prelude::*;
use crate::autosave::macros::str_map;
use crate::iocsh::registry::{env_subst, subst_env_chars};
use crate::name_map::NameMap;
use crate::text::{chars_of, string_of_vec, sub_vec, trim, trim_bounds};

pub mod registry;
pub mod commands;

verus! {

/// Where a command's output goes: a file, appended to or replaced.
#[derive(Debug, Clone, PartialEq, Eq)]
pub struct Redirect {
    pub path: String,
    pub append: bool,
}

/// Index of the first `>` outside double quotes in `s[i..]`, or `s.len()`.
pub open spec fn redirect_pos(s: Seq<char>, i: int, q: bool) -> int
    decreases s.len() - i,
{
    if i < 0 || i >= s.len() {
        s.len() as int
    } else if s[i] == '"' {
        redirect_pos(s, i + 1, !q)
    } else if s[i] == '>' && !q {
        i
    } else {
        redirect_pos(s, i + 1, q)
    }
}

pub proof fn lemma_redirect_pos(s: Seq<char>, i: int, q: bool)
    requires
        0 <= i <= s.len(),
    ensures
        i <= redirect_pos(s, i, q) <= s.len(),
    decreases s.len() - i,
{
    if i < s.len() {
        if s[i] == '"' {
            lemma_redirect_pos(s, i + 1, !q);
        } else if !(s[i] == '>' && !q) {
            lemma_redirect_pos(s, i + 1, q);
        }
    }
}

/// A command line split at its first unquoted `>` or `>>`: the command,
/// trimmed, and the target path, trimmed and with environment references
/// substituted.  Without a `>`, or with nothing after it, the line is left
/// whole.
pub open spec fn redirect_parts(line: Seq<char>, env: Map<Seq<char>, Seq<char>>) -> (Seq<char>, Option<(Seq<char>, bool)>) {
    let pos = redirect_pos(line, 0, false);
    if pos >= line.len() {
        (line, None)
    } else {
        let append = pos + 1 < line.len() && line[pos + 1] == '>';
        let skip: int = if append { 2 } else { 1 };
        let path = trim(line.subrange(pos + skip, line.len() as int));
        if path.len() == 0 {
            (line, None)
        } else {
            (trim(line.subrange(0, pos)), Some((env_subst(path, env), append)))
        }
    }
}

/// Parse `>` / `>>` redirect from a command line.
/// Returns (command_part, optional redirect).
pub fn parse_redirect<'a>(line: &'a str, env: &NameMap<String>) -> (r: (&'a str, Option<Redirect>))
    requires
        env.wf(),
    ensures
        r.0@ == redirect_parts(line@, str_map(env.map())).0,
        match r.1 {
            Some(d) => redirect_parts(line@, str_map(env.map())).1 == Some((d.path@, d.append)),
            None => redirect_parts(line@, str_map(env.map())).1 is None,
        },
{
    let s = chars_of(line);
    let mut q = false;
    let mut i: usize = 0;
    while i < s.len() && !(s[i] == '>' && !q)
        invariant
            i <= s@.len(),
            redirect_pos(s@, 0, false) == redirect_pos(s@, i as int, q),
        decreases s.len() - i,
    {
        if s[i] == '"' {
            q = !q;
        }
        i = i + 1;
    }
    proof {
        lemma_redirect_pos(s@, i as int, q);
    }
    if i >= s.len() {
        return (line, None);
    }
    let append = i + 1 < s.len() && s[i + 1] == '>';
    let skip: usize = if append { 2 } else { 1 };
    let (pa, pb) = trim_bounds(&s, i + skip, s.len());
    if pa == pb {
        return (line, None);
    }
    let (ca, cb) = trim_bounds(&s, 0, i);
    let cmd = line.substring_char(ca, cb);
    let path = subst_env_chars(&sub_vec(&s, pa, pb), env);
    (cmd, Some(Redirect { path: string_of_vec(&path), append }))
}

} // verus!
