//! Argument planning for the thin process-running shell: decide, from plain
//! values, exactly which argument list the external tool is handed, which
//! hook script text is generated, and how per-branch logs are merged.

use vstd::prelude::*;
use vstd::string::StringExecFns;
use crate::chars::{str_chars, chars_to_string, chars_eq_str, append_chars, append_str_chars};
use crate::formatter::{
    FormatConfig,
    format_spec,
    format_commit_message,
    is_conventional_spec,
    is_conventional_commit,
    find_char,
    lemma_find_char,
};

verus! {

/// Why a commit invocation is refused before anything runs.
#[derive(PartialEq, Eq, Structural, Clone, Copy, Debug)]
pub enum CommitError {
    /// No argument was given, so there is no message to commit.
    MissingMessage,
    /// The configuration demands a conventional-commit message and the
    /// given message does not have that shape.
    NotConventional,
}

/// The formatted view of the last argument under `config`.
pub open spec fn formatted_message(msg: Seq<char>, config: FormatConfig) -> Seq<char> {
    format_spec(msg, config.emoji_enabled, config.footer_emoji.deep_view(), config.format_mode)
}

/// Plan the argument list of a commit invocation: the last argument is the
/// message; it is formatted and passed behind `-m`, with any earlier
/// arguments forwarded in between. With no arguments, or with a
/// non-conventional message while one is required, the invocation is
/// refused instead.
pub fn plan_commit(args: &Vec<String>, require_conventional: bool, config: &FormatConfig) -> (r:
    Result<Vec<String>, CommitError>)
    ensures
        args@.len() == 0 ==> (r matches Err(e) && e == CommitError::MissingMessage),
        args@.len() > 0 && require_conventional && !is_conventional_spec(
            args.deep_view().last(),
        ) ==> (r matches Err(e) && e == CommitError::NotConventional),
        args@.len() > 0 && (!require_conventional || is_conventional_spec(
            args.deep_view().last(),
        )) ==> (r matches Ok(ga) && ga.deep_view() == seq!["commit"@]
            + args.deep_view().drop_last() + seq![
            "-m"@,
            formatted_message(args.deep_view().last(), *config),
        ]),
{
    if args.len() == 0 {
        return Err(CommitError::MissingMessage);
    }
    let last = args.len() - 1;
    let msg = &args[last];
    if require_conventional && !is_conventional_commit(msg.as_str()) {
        return Err(CommitError::NotConventional);
    }
    let formatted = format_commit_message(msg.as_str(), config);
    let mut ga: Vec<String> = Vec::new();
    ga.push(String::from_str("commit"));
    let mut k: usize = 0;
    while k < last
        invariant
            last == args@.len() - 1,
            k <= last,
            ga.deep_view() == seq!["commit"@] + args.deep_view().take(k as int),
        decreases last - k,
    {
        ga.push(args[k].clone());
        proof {
            assert(seq!["commit"@] + args.deep_view().take(k as int + 1) =~= (seq!["commit"@]
                + args.deep_view().take(k as int)).push(args.deep_view()[k as int]));
        }
        k = k + 1;
    }
    ga.push(String::from_str("-m"));
    ga.push(formatted);
    proof {
        assert(args.deep_view().take(last as int) =~= args.deep_view().drop_last());
        assert(ga.deep_view() =~= seq!["commit"@] + args.deep_view().drop_last() + seq![
            "-m"@,
            formatted_message(args.deep_view().last(), *config),
        ]);
    }
    Ok(ga)
}

/// The argument list that creates `branch` and switches to it.
pub fn branch_args(branch: &String) -> (r: Vec<String>)
    ensures
        r.deep_view() == seq!["checkout"@, "-b"@, branch@],
{
    let mut r: Vec<String> = Vec::new();
    r.push(String::from_str("checkout"));
    r.push(String::from_str("-b"));
    r.push(branch.clone());
    proof {
        assert(r.deep_view() =~= seq!["checkout"@, "-b"@, branch@]);
    }
    r
}

/// The path of the metadata directory that a template clone removes:
/// the destination with `/.git` appended.
pub fn template_git_dir(dest: &str) -> (r: String)
    ensures
        r@ == dest@ + "/.git"@,
{
    let mut out: Vec<char> = Vec::new();
    append_str_chars(&mut out, dest);
    append_str_chars(&mut out, "/.git");
    chars_to_string(&out)
}

/// The log rendering settings with their documented defaults: the entry
/// count falls back to `default_count` (10 for the plain and reversed
/// logs, 20 for the tree log), the detail selector to `less`.
pub fn log_settings(count: Option<u64>, info: Option<String>, default_count: u64) -> (r: (
    u64,
    String,
))
    ensures
        r.0 == (match count {
            Some(c) => c,
            None => default_count,
        }),
        r.1@ == (match info {
            Some(s) => s@,
            None => "less"@,
        }),
{
    let c = match count {
        Some(c) => c,
        None => default_count,
    };
    let i = match info {
        Some(s) => s,
        None => String::from_str("less"),
    };
    (c, i)
}

/// The `--pretty` argument chosen by the `info` configuration value:
/// hash, author and date with the subject for `more`, a dense hash and
/// subject line otherwise.
pub fn log_pretty_arg(info: &str) -> (r: String)
    ensures
        info@ == "more"@ ==> r@ == "--pretty=format:%h %an %ad %s"@,
        info@ != "more"@ ==> r@ == "--pretty=format:%h %s"@,
{
    let iv = str_chars(info);
    if chars_eq_str(&iv, "more") {
        String::from_str("--pretty=format:%h %an %ad %s")
    } else {
        String::from_str("--pretty=format:%h %s")
    }
}

/// The argument list of a plain log invocation: the newest `count` entries
/// (already rendered as decimal digits by the caller) under the chosen
/// pretty format.
pub fn log_args(count: &String, info: &str) -> (r: Vec<String>)
    ensures
        r.deep_view() == seq!["log"@, "-n"@, count@, (if info@ == "more"@ {
            "--pretty=format:%h %an %ad %s"@
        } else {
            "--pretty=format:%h %s"@
        })],
{
    let mut r: Vec<String> = Vec::new();
    r.push(String::from_str("log"));
    r.push(String::from_str("-n"));
    r.push(count.clone());
    r.push(log_pretty_arg(info));
    proof {
        assert(r.deep_view() =~= seq!["log"@, "-n"@, count@, (if info@ == "more"@ {
            "--pretty=format:%h %an %ad %s"@
        } else {
            "--pretty=format:%h %s"@
        })]);
    }
    r
}

/// The argument list of a reversed log invocation: as `log_args`, with
/// `--reverse` and any extra caller arguments appended.
pub fn rlog_args(count: &String, info: &str, extra: &Vec<String>) -> (r: Vec<String>)
    ensures
        r.deep_view() == seq!["log"@, "-n"@, count@, "--reverse"@, (if info@ == "more"@ {
            "--pretty=format:%h %an %ad %s"@
        } else {
            "--pretty=format:%h %s"@
        })] + extra.deep_view(),
{
    let mut r: Vec<String> = Vec::new();
    r.push(String::from_str("log"));
    r.push(String::from_str("-n"));
    r.push(count.clone());
    r.push(String::from_str("--reverse"));
    r.push(log_pretty_arg(info));
    let ghost base = r.deep_view();
    proof {
        assert(base =~= seq!["log"@, "-n"@, count@, "--reverse"@, (if info@ == "more"@ {
            "--pretty=format:%h %an %ad %s"@
        } else {
            "--pretty=format:%h %s"@
        })]);
    }
    let mut k: usize = 0;
    while k < extra.len()
        invariant
            k <= extra@.len(),
            r.deep_view() == base + extra.deep_view().take(k as int),
        decreases extra@.len() - k,
    {
        r.push(extra[k].clone());
        proof {
            assert(base + extra.deep_view().take(k as int + 1) =~= (base + extra.deep_view().take(
                k as int,
            )).push(extra.deep_view()[k as int]));
        }
        k = k + 1;
    }
    proof {
        assert(extra.deep_view().take(extra@.len() as int) =~= extra.deep_view());
    }
    r
}

/// Branch names reordered for the tree log: the current branch first, any
/// other occurrence of it dropped, the rest kept in order.
pub open spec fn ordered_branches(branches: Seq<Seq<char>>, current: Option<Seq<char>>) -> Seq<
    Seq<char>,
> {
    match current {
        None => branches,
        Some(c) => seq![c] + branches.filter(|b: Seq<char>| b != c),
    }
}

/// Reorder branch names so that the current branch, when known, comes
/// first and appears only once.
pub fn order_branches(branches: &Vec<String>, current: &Option<String>) -> (r: Vec<String>)
    ensures
        r.deep_view() == ordered_branches(branches.deep_view(), current.deep_view()),
{
    let cur = match current {
        Some(c) => c,
        None => {
            let mut out: Vec<String> = Vec::new();
            let mut k: usize = 0;
            while k < branches.len()
                invariant
                    k <= branches@.len(),
                    out.deep_view() == branches.deep_view().take(k as int),
                decreases branches@.len() - k,
            {
                out.push(branches[k].clone());
                proof {
                    assert(branches.deep_view().take(k as int + 1) =~= branches.deep_view().take(
                        k as int,
                    ).push(branches.deep_view()[k as int]));
                }
                k = k + 1;
            }
            proof {
                assert(branches.deep_view().take(branches@.len() as int) =~= branches.deep_view());
            }
            return out;
        },
    };
    let ghost c = cur@;
    let ghost pred = |b: Seq<char>| b != c;
    let mut out: Vec<String> = Vec::new();
    out.push(cur.clone());
    let mut k: usize = 0;
    proof {
        assert(branches.deep_view().take(0).filter(pred) =~= Seq::<Seq<char>>::empty());
        assert(out.deep_view() =~= seq![c] + branches.deep_view().take(0).filter(pred));
    }
    while k < branches.len()
        invariant
            c == cur@,
            pred == (|b: Seq<char>| b != c),
            k <= branches@.len(),
            out.deep_view() == seq![c] + branches.deep_view().take(k as int).filter(pred),
        decreases branches@.len() - k,
    {
        let b = &branches[k];
        proof {
            branches.deep_view().take(k as int).lemma_filter_push(
                branches.deep_view()[k as int],
                pred,
            );
            assert(branches.deep_view().take(k as int + 1) =~= branches.deep_view().take(
                k as int,
            ).push(branches.deep_view()[k as int]));
        }
        if !b.eq(cur) {
            out.push(b.clone());
            proof {
                assert(out.deep_view() =~= (seq![c] + branches.deep_view().take(k as int).filter(
                    pred,
                )).push(branches.deep_view()[k as int]));
            }
        }
        k = k + 1;
    }
    proof {
        assert(branches.deep_view().take(branches@.len() as int) =~= branches.deep_view());
    }
    out
}

/// Split a rendered log line at its first space into the abbreviated hash
/// and the rest; a line without a space carries no hash and is dropped.
pub fn split_log_line(line: &str) -> (r: Option<(String, String)>)
    ensures
        match find_char(line@, ' ') {
            Some(i) => (r matches Some(p) && p.0@ == line@.take(i) && p.1@ == line@.skip(i + 1)),
            None => r is None,
        },
{
    let lv = str_chars(line);
    let sp = crate::formatter::find_char_in(&lv, ' ');
    match sp {
        None => None,
        Some(i) => {
            proof {
                lemma_find_char(lv@, ' ');
            }
            let n = lv.len();
            let hash = crate::formatter::subrange_chars(&lv, 0, i);
            let rest = crate::formatter::subrange_chars(&lv, i + 1, n);
            proof {
                assert(hash@ =~= line@.take(i as int));
                assert(rest@ =~= line@.skip(i as int + 1));
            }
            Some((chars_to_string(&hash), chars_to_string(&rest)))
        },
    }
}

/// The merge of tagged log entries: keep, in input order, the first entry
/// for each hash whose hash was not seen before, up to `limit` entries.
pub open spec fn merged_commits(
    s: Seq<(Seq<char>, Seq<char>, Seq<char>)>,
    seen: Seq<Seq<char>>,
    limit: nat,
) -> Seq<(Seq<char>, Seq<char>, Seq<char>)>
    decreases s.len(),
{
    if s.len() == 0 || limit == 0 {
        Seq::empty()
    } else if seen.contains(s.first().1) {
        merged_commits(s.drop_first(), seen, limit)
    } else {
        seq![s.first()] + merged_commits(s.drop_first(), seen.push(s.first().1), (limit - 1) as nat)
    }
}

fn contains_string(v: &Vec<String>, s: &String) -> (r: bool)
    ensures
        r == v.deep_view().contains(s@),
{
    let mut j: usize = 0;
    while j < v.len()
        invariant
            j <= v@.len(),
            forall|t: int| 0 <= t < j ==> v.deep_view()[t] != s@,
        decreases v@.len() - j,
    {
        if v[j].eq(s) {
            proof {
                assert(v.deep_view()[j as int] == s@);
            }
            return true;
        }
        j = j + 1;
    }
    proof {
        if v.deep_view().contains(s@) {
            let t = choose|t: int| 0 <= t < v.deep_view().len() && v.deep_view()[t] == s@;
            assert(v.deep_view()[t] != s@);
        }
    }
    false
}

/// Merge per-branch log entries `(branch, hash, message)`: keep the first
/// occurrence of each hash, in input order, and stop at `limit` entries.
pub fn merge_commits(entries: &Vec<(String, String, String)>, limit: usize) -> (r: Vec<
    (String, String, String),
>)
    ensures
        r.deep_view() == merged_commits(entries.deep_view(), Seq::empty(), limit as nat),
{
    let mut out: Vec<(String, String, String)> = Vec::new();
    let mut seen: Vec<String> = Vec::new();
    let mut k: usize = 0;
    let ghost full = entries.deep_view();
    proof {
        assert(full.skip(0) =~= full);
        assert(out.deep_view() =~= Seq::<(Seq<char>, Seq<char>, Seq<char>)>::empty());
        assert(seen.deep_view() =~= Seq::<Seq<char>>::empty());
        assert(out.deep_view() + merged_commits(full, Seq::empty(), limit as nat)
            =~= merged_commits(full, Seq::empty(), limit as nat));
    }
    while k < entries.len() && out.len() < limit
        invariant
            full == entries.deep_view(),
            full.len() == entries@.len(),
            k <= full.len(),
            out@.len() <= limit,
            merged_commits(full, Seq::empty(), limit as nat) == out.deep_view() + merged_commits(
                full.skip(k as int),
                seen.deep_view(),
                (limit - out@.len()) as nat,
            ),
        decreases full.len() - k,
    {
        let e = &entries[k];
        proof {
            assert(full.skip(k as int).first() == full[k as int]);
            assert(full.skip(k as int).drop_first() =~= full.skip(k as int + 1));
            assert(full[k as int].1 == entries@[k as int].1@);
        }
        let ghost out0 = out.deep_view();
        let ghost seen0 = seen.deep_view();
        let ghost len0 = out@.len();
        if !contains_string(&seen, &e.1) {
            out.push((e.0.clone(), e.1.clone(), e.2.clone()));
            seen.push(e.1.clone());
            proof {
                assert(out.deep_view() =~= out0.push(full[k as int]));
                assert(seen.deep_view() =~= seen0.push(full[k as int].1));
                assert(merged_commits(full.skip(k as int), seen0, (limit - len0) as nat) == seq![
                    full[k as int],
                ] + merged_commits(
                    full.skip(k as int + 1),
                    seen0.push(full[k as int].1),
                    (limit - len0 - 1) as nat,
                ));
                assert(out0 + (seq![full[k as int]] + merged_commits(
                    full.skip(k as int + 1),
                    seen.deep_view(),
                    (limit - len0 - 1) as nat,
                )) =~= out0.push(full[k as int]) + merged_commits(
                    full.skip(k as int + 1),
                    seen.deep_view(),
                    (limit - len0 - 1) as nat,
                ));
            }
        }
        k = k + 1;
    }
    proof {
        if k == full.len() {
            assert(merged_commits(
                full.skip(k as int),
                seen.deep_view(),
                (limit - out@.len()) as nat,
            ) =~= Seq::<(Seq<char>, Seq<char>, Seq<char>)>::empty());
        } else {
            assert(out@.len() == limit);
            assert(merged_commits(
                full.skip(k as int),
                seen.deep_view(),
                0,
            ) =~= Seq::<(Seq<char>, Seq<char>, Seq<char>)>::empty());
        }
        assert(out.deep_view() + Seq::<(Seq<char>, Seq<char>, Seq<char>)>::empty()
            =~= out.deep_view());
    }
    out
}

/// The hash-and-message pairs of the merged entries that belong to `branch`,
/// in order.
pub open spec fn branch_commits_spec(
    s: Seq<(Seq<char>, Seq<char>, Seq<char>)>,
    b: Seq<char>,
) -> Seq<(Seq<char>, Seq<char>)>
    decreases s.len(),
{
    if s.len() == 0 {
        Seq::empty()
    } else if s.first().0 == b {
        seq![(s.first().1, s.first().2)] + branch_commits_spec(s.drop_first(), b)
    } else {
        branch_commits_spec(s.drop_first(), b)
    }
}

/// Select, in order, the hash-and-message pairs of the entries tagged with
/// `branch`.
pub fn commits_for_branch(entries: &Vec<(String, String, String)>, branch: &String) -> (r: Vec<
    (String, String),
>)
    ensures
        r.deep_view() == branch_commits_spec(entries.deep_view(), branch@),
{
    let mut out: Vec<(String, String)> = Vec::new();
    let mut k: usize = 0;
    let ghost full = entries.deep_view();
    proof {
        assert(full.skip(0) =~= full);
    }
    while k < entries.len()
        invariant
            full == entries.deep_view(),
            full.len() == entries@.len(),
            k <= full.len(),
            branch_commits_spec(full, branch@) == out.deep_view() + branch_commits_spec(
                full.skip(k as int),
                branch@,
            ),
        decreases full.len() - k,
    {
        let e = &entries[k];
        proof {
            assert(full.skip(k as int).first() == full[k as int]);
            assert(full.skip(k as int).drop_first() =~= full.skip(k as int + 1));
        }
        if e.0.eq(branch) {
            out.push((e.1.clone(), e.2.clone()));
            proof {
                assert(out.deep_view() =~= out.deep_view().drop_last().push(
                    (full[k as int].1, full[k as int].2),
                ));
                assert(out.deep_view().drop_last() + (seq![(full[k as int].1, full[k as int].2)]
                    + branch_commits_spec(full.skip(k as int + 1), branch@)) =~= out.deep_view()
                    + branch_commits_spec(full.skip(k as int + 1), branch@));
            }
        }
        k = k + 1;
    }
    proof {
        assert(branch_commits_spec(full.skip(full.len() as int), branch@) =~= Seq::<
            (Seq<char>, Seq<char>),
        >::empty());
        assert(out.deep_view() + Seq::<(Seq<char>, Seq<char>)>::empty() =~= out.deep_view());
    }
    out
}

/// Command lines joined with a trailing newline after each.
pub open spec fn joined_lines(cmds: Seq<Seq<char>>) -> Seq<char>
    decreases cmds.len(),
{
    if cmds.len() == 0 {
        Seq::empty()
    } else {
        cmds.first() + seq!['\n'] + joined_lines(cmds.drop_first())
    }
}

proof fn lemma_joined_push(s: Seq<Seq<char>>, x: Seq<char>)
    ensures
        joined_lines(s.push(x)) == joined_lines(s) + x + seq!['\n'],
    decreases s.len(),
{
    if s.len() == 0 {
        assert(s.push(x).drop_first() =~= Seq::<Seq<char>>::empty());
        assert(s.push(x).first() == x);
        assert(joined_lines(Seq::<Seq<char>>::empty()) == Seq::<char>::empty());
        assert(joined_lines(s) == Seq::<char>::empty());
        assert(joined_lines(s.push(x)) == x + seq!['\n'] + joined_lines(
            Seq::<Seq<char>>::empty(),
        ));
        assert(joined_lines(s.push(x)) =~= joined_lines(s) + x + seq!['\n']);
    } else {
        lemma_joined_push(s.drop_first(), x);
        assert(s.push(x).drop_first() =~= s.drop_first().push(x));
        assert(s.push(x).first() == s.first());
        assert(joined_lines(s.push(x)) == s.first() + seq!['\n'] + joined_lines(
            s.drop_first().push(x),
        ));
        assert(joined_lines(s.drop_first().push(x)) == joined_lines(s.drop_first()) + x
            + seq!['\n']);
        assert(s.first() + seq!['\n'] + (joined_lines(s.drop_first()) + x + seq!['\n']) =~= (
        s.first() + seq!['\n'] + joined_lines(s.drop_first())) + x + seq!['\n']);
    }
}

/// The generated hook script: a strict shell header, an optional guard that
/// exits cleanly when `condition` fails, then the commands, one per line.
pub open spec fn hook_script_spec(condition: Seq<char>, commands: Seq<Seq<char>>) -> Seq<char> {
    "#!/bin/sh\nset -e\n"@ + (if condition.len() > 0 {
        "if ! ("@ + condition + "); then exit 0; fi\n"@
    } else {
        Seq::<char>::empty()
    }) + joined_lines(commands)
}

/// Generate the text of a hook script from its guard condition (may be
/// empty) and its command lines.
pub fn hook_script(condition: &str, commands: &Vec<String>) -> (r: String)
    ensures
        r@ == hook_script_spec(condition@, commands.deep_view()),
{
    let mut out: Vec<char> = Vec::new();
    append_str_chars(&mut out, "#!/bin/sh\nset -e\n");
    let cv = str_chars(condition);
    if cv.len() > 0 {
        append_str_chars(&mut out, "if ! (");
        append_chars(&mut out, &cv);
        append_str_chars(&mut out, "); then exit 0; fi\n");
    }
    let ghost prefix = out@;
    proof {
        if condition@.len() > 0 {
            assert(prefix =~= "#!/bin/sh\nset -e\n"@ + ("if ! ("@ + condition@
                + "); then exit 0; fi\n"@));
        } else {
            assert(prefix =~= "#!/bin/sh\nset -e\n"@ + Seq::<char>::empty());
        }
        assert(joined_lines(commands.deep_view().take(0)) =~= Seq::<char>::empty());
        assert(out@ =~= prefix + joined_lines(commands.deep_view().take(0)));
    }
    let mut k: usize = 0;
    while k < commands.len()
        invariant
            out@ == prefix + joined_lines(commands.deep_view().take(k as int)),
            k <= commands@.len(),
        decreases commands@.len() - k,
    {
        append_str_chars(&mut out, commands[k].as_str());
        out.push('\n');
        proof {
            lemma_joined_push(commands.deep_view().take(k as int), commands.deep_view()[k as int]);
            assert(commands.deep_view().take(k as int + 1) =~= commands.deep_view().take(
                k as int,
            ).push(commands.deep_view()[k as int]));
            assert(out@ =~= prefix + joined_lines(commands.deep_view().take(k as int + 1)));
        }
        k = k + 1;
    }
    proof {
        assert(commands.deep_view().take(commands@.len() as int) =~= commands.deep_view());
        assert(out@ =~= hook_script_spec(condition@, commands.deep_view()));
    }
    chars_to_string(&out)
}

} // verus!
