//! Interactive selection with `fzf`: the command, its input, and the reading
//! of its answer.
use vstd::prelude::*;

use crate::error::Error;
use crate::exec::{strs_of, Cmd, CmdConfig, CmdHint, CmdResult};
use crate::text::{eq_str, owned, strs, trim, trim_str};

verus! {

/// Each item followed by a line break.
pub open spec fn fzf_input(items: Seq<Seq<char>>) -> Seq<char>
    decreases items.len(),
{
    if items.len() == 0 {
        Seq::empty()
    } else {
        fzf_input(items.drop_last()) + items.last() + "\n"@
    }
}

/// The index of the first item equal to `s`.
pub open spec fn position(items: Seq<Seq<char>>, s: Seq<char>) -> Option<int>
    decreases items.len(),
{
    if items.len() == 0 {
        None
    } else if items[0] == s {
        Some(0)
    } else {
        match position(items.subrange(1, items.len() as int), s) {
            Some(i) => Some(i + 1),
            None => None,
        }
    }
}

/// The trimmed output of fzf.
pub open spec fn fzf_out(r: CmdResult) -> Seq<char> {
    match r.stdout {
        Some(s) => trim(s@),
        None => Seq::empty(),
    }
}

/// The error that a non-zero exit code of fzf stands for.
pub open spec fn fzf_code_error(code: i32) -> Error {
    if code == 1 {
        Error::FzfNoMatch
    } else if code == 2 {
        Error::FzfError
    } else if code == 130 {
        Error::SilentExit(130)
    } else if 128 <= code <= 254 {
        Error::FzfTerminated
    } else {
        Error::FzfUnknownCode(code)
    }
}

/// The command that lets the user pick among items: the configured fzf (or
/// plain `fzf`), filtering by `filter` when given, announced by `desc`, with
/// the items as input, one per line.
pub fn search_cmd(cfg: Option<&CmdConfig>, desc: &str, items: &[&str], filter: Option<&str>) -> (c: Cmd)
    ensures
        c.input matches Some(i) && i@ == fzf_input(strs_of(items@)),
        c.hint matches CmdHint::Message(m) && m@ == desc@,
        c.program@ == match cfg {
            Some(g) => g.name@,
            None => "fzf"@,
        },
        strs(c.args@) == match cfg {
            Some(g) => strs(g.args@),
            None => Seq::empty(),
        } + match filter {
            Some(f) => seq!["--filter"@, f@],
            None => Seq::empty(),
        },
{
    let mut cmd = get_cmd(cfg);
    let ghost base = strs(cmd.args@);
    if let Some(f) = filter {
        let a: &[&str] = &["--filter", f];
        assert(strs_of(a@) =~= seq!["--filter"@, f@]);
        cmd = cmd.args(a);
    } else {
        assert(base =~= base + Seq::<Seq<char>>::empty());
    }
    let mut input = String::new();
    let mut i: usize = 0;
    while i < items.len()
        invariant
            i <= items.len(),
            input@ == fzf_input(strs_of(items@).take(i as int)),
        decreases items.len() - i,
    {
        assert(strs_of(items@).take(i + 1).drop_last() =~= strs_of(items@).take(i as int));
        input.append(items[i]);
        input.append("\n");
        i += 1;
    }
    assert(strs_of(items@).take(items.len() as int) =~= strs_of(items@));
    cmd.message(desc).input(input.as_str())
}

/// The fzf command: the configured one, or plain `fzf`.
pub fn get_cmd(cfg: Option<&CmdConfig>) -> (c: Cmd)
    ensures
        c.program@ == match cfg {
            Some(g) => g.name@,
            None => "fzf"@,
        },
        strs(c.args@) == match cfg {
            Some(g) => strs(g.args@),
            None => Seq::empty(),
        },
        c.input is None,
        c.hint == CmdHint::Raw,
{
    match cfg {
        Some(g) => {
            let c = Cmd::new(g.name.as_str());
            let mut c = c;
            c.args = crate::exec::clone_strings(&g.args);
            c
        },
        None => {
            let c = Cmd::new("fzf");
            assert(strs(c.args@) =~= Seq::<Seq<char>>::empty());
            c
        },
    }
}

/// The index of the item that the user picked, from fzf's answer.
pub fn search(items: &[&str], result: &CmdResult) -> (r: Result<usize, Error>)
    ensures
        result.code == 0 && fzf_out(*result).len() == 0 ==> r == Err::<usize, Error>(Error::FzfEmptyOutput),
        result.code == 0 && fzf_out(*result).len() > 0 ==> match position(strs_of(items@), fzf_out(*result)) {
            Some(i) => r == Ok::<usize, Error>(i as usize),
            None => r matches Err(Error::FzfUnknownOutput(o)) && o@ == fzf_out(*result),
        },
        result.code != 0 ==> r == Err::<usize, Error>(fzf_code_error(result.code)),
{
    match result.code {
        0 => {
            let output = match &result.stdout {
                Some(s) => trim_str(s.as_str()),
                None => String::new(),
            };
            if output.as_str().is_empty() {
                return Err(Error::FzfEmptyOutput);
            }
            let ghost its = strs_of(items@);
            let mut i: usize = 0;
            assert(its.subrange(0, its.len() as int) =~= its);
            while i < items.len()
                invariant
                    its == strs_of(items@),
                    i <= items.len(),
                    result.code == 0,
                    output@.len() > 0,
                    output@ == fzf_out(*result),
                    position(its, output@) == match position(its.subrange(i as int, its.len() as int), output@) {
                        Some(k) => Some(k + i),
                        None => None,
                    },
                decreases items.len() - i,
            {
                let ghost rest = its.subrange(i as int, its.len() as int);
                assert(rest[0] == items@[i as int]@);
                if eq_str(items[i], output.as_str()) {
                    return Ok(i);
                }
                assert(rest.subrange(1, rest.len() as int) =~= its.subrange(i + 1, its.len() as int));
                i += 1;
            }
            Err(Error::FzfUnknownOutput(output))
        },
        1 => Err(Error::FzfNoMatch),
        2 => Err(Error::FzfError),
        130 => Err(Error::SilentExit(130)),
        128..=254 => Err(Error::FzfTerminated),
        _ => Err(Error::FzfUnknownCode(result.code)),
    }
}

} // verus!
