//! Rewriting of legacy `find` arguments into the double-dash forms.
//!
//! `-name`, `-type`, `-mtime`, `-print` and `-exec` become `--name`, `--type`,
//! `--mtime`, `--print` and `--exec`. The tokens that follow `-exec` or
//! `--exec`, up to a standalone `;`, are joined with single spaces into one
//! command argument.

use vstd::prelude::*;

verus! {

/// The text of each string in a sequence.
pub open spec fn texts(v: Seq<String>) -> Seq<Seq<char>> {
    v.map_values(|s: String| s@)
}

/// The tokens joined with single spaces between them.
pub open spec fn join_spaces(tokens: Seq<Seq<char>>) -> Seq<char>
    decreases tokens.len(),
{
    if tokens.len() == 0 {
        Seq::empty()
    } else if tokens.len() == 1 {
        tokens[0]
    } else {
        join_spaces(tokens.drop_last()) + " "@ + tokens.last()
    }
}

/// The double-dash spelling of a legacy flag; any other token is kept.
pub open spec fn long_form(token: Seq<char>) -> Seq<char> {
    if token == "-print"@ {
        "--print"@
    } else if token == "-name"@ {
        "--name"@
    } else if token == "-type"@ {
        "--type"@
    } else if token == "-mtime"@ {
        "--mtime"@
    } else {
        token
    }
}

/// The rewriter's state: the tokens emitted so far, and the command tokens
/// collected since an `-exec` that has not been closed by `;` yet.
pub struct RewriteState {
    pub out: Seq<Seq<char>>,
    pub command: Option<Seq<Seq<char>>>,
}

/// The state after one more input token.
pub open spec fn rewrite_step(st: RewriteState, token: Seq<char>) -> RewriteState {
    match st.command {
        Some(cmd) => if token == ";"@ {
            RewriteState { out: st.out.push(join_spaces(cmd)), command: None }
        } else {
            RewriteState { out: st.out, command: Some(cmd.push(token)) }
        },
        None => if token == "-exec"@ || token == "--exec"@ {
            RewriteState { out: st.out.push("--exec"@), command: Some(Seq::empty()) }
        } else {
            RewriteState { out: st.out.push(long_form(token)), command: None }
        },
    }
}

/// The state after all of `tokens`, read from left to right.
pub open spec fn rewrite_scan(tokens: Seq<Seq<char>>) -> RewriteState
    decreases tokens.len(),
{
    if tokens.len() == 0 {
        RewriteState { out: Seq::empty(), command: None }
    } else {
        rewrite_step(rewrite_scan(tokens.drop_last()), tokens.last())
    }
}

/// The rewritten arguments, or `None` where an `-exec` or `--exec` is never
/// closed.
pub open spec fn rewritten(tokens: Seq<Seq<char>>) -> Option<Seq<Seq<char>>> {
    let st = rewrite_scan(tokens);
    if st.command is Some {
        None
    } else {
        Some(st.out)
    }
}

/// The message for an `-exec` or `--exec` that no `;` closes.
pub open spec fn missing_exec_terminator() -> Seq<char> {
    "missing argument to `-exec'"@
}

fn same_text(s: &String, lit: &str) -> (r: bool)
    ensures
        r == (s@ == lit@),
{
    *s == String::from_str(lit)
}

fn join_with_spaces(tokens: &Vec<String>) -> (r: String)
    ensures
        r@ == join_spaces(texts(tokens@)),
{
    let mut r = String::new();
    let mut i: usize = 0;
    while i < tokens.len()
        invariant
            0 <= i <= tokens.len(),
            r@ == join_spaces(texts(tokens@).take(i as int)),
        decreases tokens.len() - i,
    {
        let ghost before = texts(tokens@).take(i as int);
        let ghost after = texts(tokens@).take(i + 1);
        assert(after.drop_last() =~= before);
        if i > 0 {
            r.append(" ");
        }
        r.append(tokens[i].as_str());
        proof {
            if i == 0 {
                assert(r@ =~= after[0]);
            }
        }
        i = i + 1;
    }
    assert(texts(tokens@).take(tokens.len() as int) =~= texts(tokens@));
    r
}

/// Rewrites legacy single-dash arguments into the double-dash forms that the
/// argument parser takes, joining the tokens of each `-exec` or `--exec`
/// command into one argument. Fails where such a command is not closed by a
/// standalone `;`.
pub fn preprocess_args(args: Vec<String>) -> (r: Result<Vec<String>, &'static str>)
    ensures
        match r {
            Ok(v) => rewritten(texts(args@)) == Some(texts(v@)),
            Err(e) => rewritten(texts(args@)) is None && e@ == missing_exec_terminator(),
        },
{
    let mut out: Vec<String> = Vec::new();
    let mut in_exec = false;
    let mut cmd: Vec<String> = Vec::new();
    let mut i: usize = 0;
    assert(texts(args@).take(0) =~= Seq::<Seq<char>>::empty());
    assert(texts(out@) =~= Seq::<Seq<char>>::empty());
    while i < args.len()
        invariant
            0 <= i <= args.len(),
            rewrite_scan(texts(args@).take(i as int)) == (RewriteState {
                out: texts(out@),
                command: if in_exec { Some(texts(cmd@)) } else { None },
            }),
        decreases args.len() - i,
    {
        proof {
            assert(texts(args@).take(i + 1).drop_last() =~= texts(args@).take(i as int));
            reveal_strlit(";");
            reveal_strlit("-exec");
            reveal_strlit("--exec");
            reveal_strlit("-print");
            reveal_strlit("-name");
            reveal_strlit("-type");
            reveal_strlit("-mtime");
        }
        let arg = args[i].clone();
        if in_exec {
            if same_text(&arg, ";") {
                let joined = join_with_spaces(&cmd);
                out.push(joined);
                cmd = Vec::new();
                in_exec = false;
                assert(texts(cmd@) =~= Seq::<Seq<char>>::empty());
            } else {
                cmd.push(arg);
            }
        } else if same_text(&arg, "-exec") || same_text(&arg, "--exec") {
            out.push(String::from_str("--exec"));
            in_exec = true;
            cmd = Vec::new();
            assert(texts(cmd@) =~= Seq::<Seq<char>>::empty());
        } else if same_text(&arg, "-print") {
            out.push(String::from_str("--print"));
        } else if same_text(&arg, "-name") {
            out.push(String::from_str("--name"));
        } else if same_text(&arg, "-type") {
            out.push(String::from_str("--type"));
        } else if same_text(&arg, "-mtime") {
            out.push(String::from_str("--mtime"));
        } else {
            out.push(arg);
        }
        assert(texts(out@) =~= rewrite_scan(texts(args@).take(i + 1)).out);
        assert(in_exec ==> texts(cmd@) =~= rewrite_scan(texts(args@).take(i + 1)).command->0);
        i = i + 1;
    }
    assert(texts(args@).take(args.len() as int) =~= texts(args@));
    if in_exec {
        return Err("missing argument to `-exec'");
    }
    Ok(out)
}

} // verus!
