//! The command substitution pass. A line holding the directive marker
//! `$cmd=` carries a shell command from the marker to the end of the line.
//! All distinct commands of a template are batched into one shell
//! invocation whose outputs come back joined by a reserved sentinel, and
//! every directive line is rewritten with its command's output.

use vstd::prelude::*;

use crate::resolver::{CommandExecutor, TemplateError};
use crate::text::{
    chars_eq, chars_to_string, contains_exec, contains_seq, find_from, find_spec, join_with,
    join_with_exec, lemma_find_spec_contains, push_all, push_range, split_on, split_on_exec,
    str_to_chars, views,
};

verus! {

/// The directive marker.
pub open spec fn marker() -> Seq<char> {
    "$cmd="@
}

/// The reserved sentinel that separates batched command outputs.
pub open spec fn sentinel() -> Seq<char> {
    " %split%"@
}

/// The pass runs only when the template holds the directive marker at all.
pub open spec fn needs_cmd(t: Seq<char>) -> bool {
    contains_seq(t, marker())
}

/// The reserved sentinel occurs literally in the template.
pub open spec fn sentinel_collision(t: Seq<char>) -> bool {
    contains_seq(t, sentinel())
}

/// The lines of a template, split on newlines alone.
pub open spec fn cmd_lines(t: Seq<char>) -> Seq<Seq<char>> {
    split_on(t, seq!['\n'])
}

/// The command a line carries: everything after the first marker occurrence
/// to the end of the line; nothing on a line without the marker.
pub open spec fn line_command(line: Seq<char>) -> Option<Seq<char>> {
    match find_spec(line, marker()) {
        None => None,
        Some(i) => Some(line.subrange(i + marker().len() as int, line.len() as int)),
    }
}

/// Some line of the template carries an empty command.
pub open spec fn has_empty_command(t: Seq<char>) -> bool {
    exists|k: int|
        0 <= k < cmd_lines(t).len() && line_command(#[trigger] cmd_lines(t)[k]) == Some(
            Seq::<char>::empty(),
        )
}

/// The distinct commands the given lines carry, in first-occurrence order.
pub open spec fn commands_of_lines(lines: Seq<Seq<char>>) -> Seq<Seq<char>>
    decreases lines.len(),
{
    if lines.len() == 0 {
        Seq::empty()
    } else {
        let front = commands_of_lines(lines.drop_last());
        match line_command(lines.last()) {
            None => front,
            Some(c) => if front.contains(c) {
                front
            } else {
                front.push(c)
            },
        }
    }
}

/// The distinct commands of a template, in first-occurrence order.
pub open spec fn commands_of(t: Seq<char>) -> Seq<Seq<char>> {
    commands_of_lines(cmd_lines(t))
}

/// A command wrapped for the batch: a shell substitution of its output.
pub open spec fn wrap_cmd(c: Seq<char>) -> Seq<char> {
    "$("@ + c + ")"@
}

/// The one batched shell invocation for the given distinct commands: an echo
/// of their substituted outputs joined by the sentinel.
pub open spec fn batch_of_cmds(cmds: Seq<Seq<char>>) -> Seq<char> {
    "echo \""@ + join_with(cmds.map_values(|c: Seq<char>| wrap_cmd(c)), sentinel()) + "\""@
}

/// The batched shell invocation a template gives rise to.
pub open spec fn batch_of(t: Seq<char>) -> Seq<char> {
    batch_of_cmds(commands_of(t))
}

/// The per-command outputs recovered from one batched reply.
pub open spec fn segments(out: Seq<char>) -> Seq<Seq<char>> {
    split_on(out, sentinel())
}

/// A directive line rewritten: the text before the marker, then the output
/// of the line's command. A line without the marker passes through.
pub open spec fn rewrite_line(line: Seq<char>, cmds: Seq<Seq<char>>, outs: Seq<Seq<char>>) -> Seq<
    char,
> {
    match find_spec(line, marker()) {
        None => line,
        Some(i) => {
            let c = line.subrange(i + marker().len() as int, line.len() as int);
            if cmds.contains(c) {
                line.subrange(0, i) + outs[cmds.index_of(c)]
            } else {
                line
            }
        },
    }
}

/// The template with every directive line rewritten by its command's output
/// and every other line kept, joined back with newlines.
pub open spec fn apply_outputs_spec(
    t: Seq<char>,
    cmds: Seq<Seq<char>>,
    outs: Seq<Seq<char>>,
) -> Seq<char> {
    join_with(
        cmd_lines(t).map_values(|l: Seq<char>| rewrite_line(l, cmds, outs)),
        seq!['\n'],
    )
}

/// What the command pass makes of template `t` once the executor has
/// answered `reply` to the batched invocation: untouched without a marker,
/// the grammar errors in their checking order, the executor's failure, a
/// segment-count mismatch, or the rewritten template.
pub open spec fn cmd_result(t: Seq<char>, reply: Option<Seq<char>>) -> Result<
    Seq<char>,
    TemplateError,
> {
    if !needs_cmd(t) {
        Ok(t)
    } else if sentinel_collision(t) {
        Err(TemplateError::SentinelCollision)
    } else if has_empty_command(t) {
        Err(TemplateError::EmptyCommand)
    } else {
        match reply {
            None => Err(TemplateError::ExecutorFailure),
            Some(out) => {
                if segments(out).len() == commands_of(t).len() {
                    Ok(apply_outputs_spec(t, commands_of(t), segments(out)))
                } else {
                    Err(TemplateError::SegmentMismatch)
                }
            },
        }
    }
}

/// The command pass turned `t` into `t2` with outcome `r`, given that the
/// executor answered `reply`.
pub open spec fn cmd_outcome(
    t: Seq<char>,
    t2: Seq<char>,
    r: Result<(), TemplateError>,
    reply: Option<Seq<char>>,
) -> bool {
    match r {
        Ok(_) => cmd_result(t, reply) == Ok::<Seq<char>, TemplateError>(t2),
        Err(e) => cmd_result(t, reply) == Err::<Seq<char>, TemplateError>(e) && t2 == t,
    }
}

/// The batched command list never repeats a command: lines that share their
/// command text share one single execution.
pub proof fn lemma_commands_distinct(lines: Seq<Seq<char>>)
    ensures
        commands_of_lines(lines).no_duplicates(),
    decreases lines.len(),
{
    if lines.len() > 0 {
        lemma_commands_distinct(lines.drop_last());
        let front = commands_of_lines(lines.drop_last());
        match line_command(lines.last()) {
            None => {},
            Some(c) => {
                if !front.contains(c) {
                    let pushed = front.push(c);
                    assert forall|i: int, j: int|
                        0 <= i < pushed.len() && 0 <= j < pushed.len() && i != j implies pushed[i]
                        != pushed[j] by {
                        if i < front.len() && j < front.len() {
                        } else if i == front.len() {
                            assert(pushed[j] == front[j]);
                        } else {
                            assert(pushed[i] == front[i]);
                        }
                    }
                }
            },
        }
    }
}

/// Every command some line carries is in the batched command list.
pub proof fn lemma_commands_complete(lines: Seq<Seq<char>>)
    ensures
        forall|k: int|
            0 <= k < lines.len() && line_command(#[trigger] lines[k]) is Some
                ==> commands_of_lines(lines).contains(line_command(lines[k])->Some_0),
    decreases lines.len(),
{
    if lines.len() > 0 {
        lemma_commands_complete(lines.drop_last());
        let front = commands_of_lines(lines.drop_last());
        let whole = commands_of_lines(lines);
        assert forall|k: int|
            0 <= k < lines.len() && line_command(#[trigger] lines[k]) is Some implies whole.contains(
            line_command(lines[k])->Some_0) by {
            let c = line_command(lines[k])->Some_0;
            if k < lines.len() - 1 {
                assert(lines.drop_last()[k] == lines[k]);
                assert(front.contains(c));
                let i = choose|i: int| 0 <= i < front.len() && front[i] == c;
                match line_command(lines.last()) {
                    None => {
                        assert(whole[i] == c);
                    },
                    Some(lc) => {
                        if front.contains(lc) {
                            assert(whole[i] == c);
                        } else {
                            assert(whole[i] == c);
                        }
                    },
                }
            } else {
                assert(lines.last() == lines[k]);
                match line_command(lines.last()) {
                    None => {},
                    Some(lc) => {
                        if front.contains(lc) {
                            assert(whole.contains(c));
                        } else {
                            assert(whole.last() == c);
                        }
                    },
                }
            }
        }
    }
}

/// The batched command list of a template: no command twice, and every
/// directive line's command present. However many lines repeat one command,
/// the batch runs it once.
pub proof fn lemma_commands_deduplicated(t: Seq<char>)
    ensures
        commands_of(t).no_duplicates(),
        forall|k: int|
            0 <= k < cmd_lines(t).len() && line_command(#[trigger] cmd_lines(t)[k]) is Some
                ==> commands_of(t).contains(line_command(cmd_lines(t)[k])->Some_0),
{
    lemma_commands_distinct(cmd_lines(t));
    lemma_commands_complete(cmd_lines(t));
}

/// Builds the marker as characters.
fn marker_vec() -> (v: Vec<char>)
    ensures
        v@ == marker(),
        v@.len() == 5,
{
    let mut v: Vec<char> = Vec::new();
    v.push('$');
    v.push('c');
    v.push('m');
    v.push('d');
    v.push('=');
    proof {
        reveal_strlit("$cmd=");
        assert(v@ =~= marker());
    }
    v
}

/// Builds the sentinel as characters.
fn sentinel_vec() -> (v: Vec<char>)
    ensures
        v@ == sentinel(),
        v@.len() == 8,
{
    let mut v: Vec<char> = Vec::new();
    v.push(' ');
    v.push('%');
    v.push('s');
    v.push('p');
    v.push('l');
    v.push('i');
    v.push('t');
    v.push('%');
    proof {
        reveal_strlit(" %split%");
        assert(v@ =~= sentinel());
    }
    v
}

/// Whether `c` is among `cmds`.
fn contains_cmd(cmds: &Vec<Vec<char>>, c: &Vec<char>) -> (b: bool)
    ensures
        b == views(cmds@).contains(c@),
{
    let mut k: usize = 0;
    while k < cmds.len()
        invariant
            0 <= k <= cmds@.len(),
            forall|i: int| 0 <= i < k ==> views(cmds@)[i] != c@,
        decreases cmds@.len() - k,
    {
        if chars_eq(&cmds[k], c) {
            assert(views(cmds@)[k as int] == c@);
            return true;
        }
        k += 1;
    }
    false
}

/// The position of `c` among `cmds`, which must hold it.
fn index_of_cmd(cmds: &Vec<Vec<char>>, c: &Vec<char>) -> (idx: usize)
    requires
        views(cmds@).contains(c@),
        views(cmds@).no_duplicates(),
    ensures
        idx < cmds@.len(),
        views(cmds@)[idx as int] == c@,
        idx == views(cmds@).index_of(c@),
{
    let mut k: usize = 0;
    loop
        invariant
            0 <= k <= cmds@.len(),
            views(cmds@).contains(c@),
            views(cmds@).no_duplicates(),
            forall|i: int| 0 <= i < k ==> views(cmds@)[i] != c@,
        decreases cmds@.len() - k,
    {
        if k >= cmds.len() {
            proof {
                let i = choose|i: int| 0 <= i < views(cmds@).len() && views(cmds@)[i] == c@;
                assert(views(cmds@)[i] != c@);
            }
            // contradiction: the loop cannot run off the end
            assert(false);
            // unreachable; keeps the compiler satisfied
            return 0;
        }
        if chars_eq(&cmds[k], c) {
            assert(views(cmds@)[k as int] == c@);
            proof {
                let i = views(cmds@).index_of(c@);
                assert(0 <= i < views(cmds@).len() && views(cmds@)[i] == c@);
                if i != k {
                    assert(views(cmds@)[i] != views(cmds@)[k as int]);
                }
            }
            return k;
        }
        k += 1;
    }
}

/// Scans the lines for directives: fails on an empty command, else yields
/// the distinct commands in first-occurrence order.
fn extract_commands(lines: &Vec<Vec<char>>, mk: &Vec<char>) -> (r: Result<
    Vec<Vec<char>>,
    TemplateError,
>)
    requires
        mk@ == marker(),
        mk@.len() == 5,
    ensures
        match r {
            Ok(cmds) => views(cmds@) == commands_of_lines(views(lines@)) && !(exists|k: int|
                0 <= k < views(lines@).len() && line_command(#[trigger] views(lines@)[k]) == Some(
                    Seq::<char>::empty(),
                )),
            Err(e) => e == TemplateError::EmptyCommand && (exists|k: int|
                0 <= k < views(lines@).len() && line_command(#[trigger] views(lines@)[k]) == Some(
                    Seq::<char>::empty(),
                )),
        },
{
    let mut cmds: Vec<Vec<char>> = Vec::new();
    let mut k: usize = 0;
    assert(views(lines@).subrange(0, 0) =~= Seq::<Seq<char>>::empty());
    while k < lines.len()
        invariant
            0 <= k <= lines@.len(),
            mk@ == marker(),
            mk@.len() == 5,
            views(cmds@) == commands_of_lines(views(lines@).subrange(0, k as int)),
            forall|i: int|
                0 <= i < k ==> line_command(#[trigger] views(lines@)[i]) != Some(
                    Seq::<char>::empty(),
                ),
        decreases lines@.len() - k,
    {
        let line = &lines[k];
        let ghost prefix = views(lines@).subrange(0, k as int);
        proof {
            assert(views(lines@).subrange(0, k + 1 as int).drop_last() =~= prefix);
            assert(views(lines@).subrange(0, k + 1 as int).last() == views(lines@)[k as int]);
        }
        match find_from(line, mk, 0) {
            None => {
                assert(line_command(views(lines@)[k as int]) is None);
            },
            Some(i) => {
                let ll = line.len();
                assert(i + 5 <= ll);
                let mut c: Vec<char> = Vec::new();
                push_range(&mut c, line, i + 5, ll);
                assert(c@ =~= line@.subrange(i + 5, line@.len() as int));
                assert(line_command(views(lines@)[k as int]) == Some(c@));
                if c.len() == 0 {
                    assert(c@ =~= Seq::<char>::empty());
                    return Err(TemplateError::EmptyCommand);
                }
                assert(c@ != Seq::<char>::empty());
                if !contains_cmd(&cmds, &c) {
                    cmds.push(c);
                    assert(views(cmds@) =~= views(cmds@.drop_last()).push(
                        views(lines@)[k as int].subrange(i + 5, views(lines@)[k as int].len() as int),
                    ));
                }
            },
        }
        k += 1;
    }
    assert(views(lines@).subrange(0, lines@.len() as int) =~= views(lines@));
    Ok(cmds)
}

/// Builds the one batched shell invocation for the distinct commands.
fn build_batch(cmds: &Vec<Vec<char>>, sent: &Vec<char>) -> (b: Vec<char>)
    requires
        sent@ == sentinel(),
    ensures
        b@ == batch_of_cmds(views(cmds@)),
{
    let mut b: Vec<char> = Vec::new();
    b.push('e');
    b.push('c');
    b.push('h');
    b.push('o');
    b.push(' ');
    b.push('"');
    proof {
        reveal_strlit("echo \"");
        assert(b@ =~= "echo \""@);
    }
    let ghost wrapped = views(cmds@).map_values(|c: Seq<char>| wrap_cmd(c));
    let mut k: usize = 0;
    assert(views(cmds@).subrange(0, 0) =~= Seq::<Seq<char>>::empty());
    while k < cmds.len()
        invariant
            0 <= k <= cmds@.len(),
            sent@ == sentinel(),
            b@ == "echo \""@ + join_with(
                views(cmds@).subrange(0, k as int).map_values(|c: Seq<char>| wrap_cmd(c)),
                sentinel(),
            ),
        decreases cmds@.len() - k,
    {
        let ghost prefix = views(cmds@).subrange(0, k as int).map_values(
            |c: Seq<char>| wrap_cmd(c),
        );
        if k > 0 {
            push_all(&mut b, sent);
        }
        b.push('$');
        b.push('(');
        push_all(&mut b, &cmds[k]);
        b.push(')');
        proof {
            reveal_strlit("$(");
            reveal_strlit(")");
            assert(prefix.len() == k);
            crate::text::lemma_join_push(prefix, sentinel(), wrap_cmd(views(cmds@)[k as int]));
            assert(views(cmds@).subrange(0, k + 1 as int).map_values(|c: Seq<char>| wrap_cmd(c))
                =~= prefix.push(wrap_cmd(views(cmds@)[k as int])));
            if k > 0 {
                assert(b@ =~= "echo \""@ + (join_with(prefix, sentinel()) + sentinel() + wrap_cmd(
                    views(cmds@)[k as int],
                )));
            } else {
                assert(b@ =~= "echo \""@ + wrap_cmd(views(cmds@)[k as int]));
            }
        }
        k += 1;
    }
    assert(views(cmds@).subrange(0, cmds@.len() as int) =~= views(cmds@));
    b.push('"');
    proof {
        reveal_strlit("\"");
        assert(b@ =~= batch_of_cmds(views(cmds@)));
    }
    b
}

/// Rewrites every directive line with its command's output.
fn rewrite_lines(lines: &Vec<Vec<char>>, cmds: &Vec<Vec<char>>, outs: &Vec<Vec<char>>, mk: &Vec<
    char,
>) -> (r: Vec<Vec<char>>)
    requires
        mk@ == marker(),
        mk@.len() == 5,
        views(cmds@).no_duplicates(),
        forall|k: int|
            0 <= k < views(lines@).len() && line_command(#[trigger] views(lines@)[k]) is Some
                ==> views(cmds@).contains(line_command(views(lines@)[k])->Some_0),
        outs@.len() == cmds@.len(),
    ensures
        views(r@) == views(lines@).map_values(
            |l: Seq<char>| rewrite_line(l, views(cmds@), views(outs@)),
        ),
{
    let ghost goal = views(lines@).map_values(
        |l: Seq<char>| rewrite_line(l, views(cmds@), views(outs@)),
    );
    let mut r: Vec<Vec<char>> = Vec::new();
    let mut k: usize = 0;
    while k < lines.len()
        invariant
            0 <= k <= lines@.len(),
            mk@ == marker(),
            mk@.len() == 5,
            views(cmds@).no_duplicates(),
            forall|q: int|
                0 <= q < views(lines@).len() && line_command(#[trigger] views(lines@)[q]) is Some
                    ==> views(cmds@).contains(line_command(views(lines@)[q])->Some_0),
            outs@.len() == cmds@.len(),
            goal == views(lines@).map_values(
                |l: Seq<char>| rewrite_line(l, views(cmds@), views(outs@)),
            ),
            r@.len() == k,
            forall|q: int| 0 <= q < k ==> views(r@)[q] == goal[q],
        decreases lines@.len() - k,
    {
        let line = &lines[k];
        let mut piece: Vec<char> = Vec::new();
        match find_from(line, mk, 0) {
            None => {
                push_range(&mut piece, line, 0, line.len());
                assert(piece@ =~= line@);
                assert(piece@ == rewrite_line(views(lines@)[k as int], views(cmds@), views(outs@)));
            },
            Some(i) => {
                let ll = line.len();
                assert(i + 5 <= ll);
                let mut c: Vec<char> = Vec::new();
                push_range(&mut c, line, i + 5, ll);
                assert(c@ =~= line@.subrange(i + 5, line@.len() as int));
                assert(line_command(views(lines@)[k as int]) == Some(c@));
                assert(views(cmds@).contains(c@));
                let idx = index_of_cmd(cmds, &c);
                push_range(&mut piece, line, 0, i);
                push_all(&mut piece, &outs[idx]);
                proof {
                    assert(views(outs@)[idx as int] == outs@[idx as int]@);
                    assert(piece@ =~= line@.subrange(0, i as int) + views(outs@)[views(
                        cmds@,
                    ).index_of(c@)]);
                    assert(piece@ == rewrite_line(views(lines@)[k as int], views(cmds@), views(
                        outs@,
                    )));
                }
            },
        }
        r.push(piece);
        assert(views(r@)[k as int] == goal[k as int]);
        k += 1;
    }
    assert(views(r@) =~= goal);
    r
}

/// The command substitution pass: scans `cfg` for directive lines, runs all
/// their distinct commands as one batched shell invocation through the
/// executor, and rewrites each directive line with its command's output. A
/// template without the marker passes through untouched and the executor is
/// never consulted; the sentinel-collision check precedes every execution.
pub fn substitute_commands<E: CommandExecutor>(cfg: &mut String, executor: &mut E) -> (r: Result<
    (),
    TemplateError,
>)
    ensures
        exists|reply: Option<Seq<char>>| cmd_outcome(old(cfg)@, final(cfg)@, r, reply),
        !needs_cmd(old(cfg)@) ==> r is Ok && final(cfg)@ == old(cfg)@ && *final(executor) == *old(
            executor,
        ),
        needs_cmd(old(cfg)@) && sentinel_collision(old(cfg)@) ==> r == Err::<(), TemplateError>(
            TemplateError::SentinelCollision,
        ) && *final(executor) == *old(executor),
        r is Err ==> final(cfg)@ == old(cfg)@,
{
    let t = str_to_chars(cfg.as_str());
    let mk = marker_vec();
    proof {
        lemma_find_spec_contains(t@, mk@);
    }
    match find_from(&t, &mk, 0) {
        None => {
            assert(!needs_cmd(old(cfg)@));
            assert(cmd_outcome(old(cfg)@, old(cfg)@, Ok(()), None::<Seq<char>>));
            return Ok(());
        },
        Some(_) => {},
    }
    assert(needs_cmd(old(cfg)@));
    let sent = sentinel_vec();
    if contains_exec(&t, &sent) {
        assert(sentinel_collision(old(cfg)@));
        assert(cmd_outcome(old(cfg)@, old(cfg)@, Err(TemplateError::SentinelCollision),
        None::<Seq<char>>));
        return Err(TemplateError::SentinelCollision);
    }
    assert(!sentinel_collision(old(cfg)@));
    let mut nl: Vec<char> = Vec::new();
    nl.push('\n');
    assert(nl@ =~= seq!['\n']);
    let lines = split_on_exec(&t, &nl);
    assert(views(lines@) == cmd_lines(t@));
    let cmds = match extract_commands(&lines, &mk) {
        Err(e) => {
            assert(has_empty_command(old(cfg)@));
            assert(cmd_outcome(old(cfg)@, old(cfg)@, Err(TemplateError::EmptyCommand),
            None::<Seq<char>>));
            return Err(TemplateError::EmptyCommand);
        },
        Ok(cmds) => cmds,
    };
    assert(!has_empty_command(old(cfg)@));
    assert(views(cmds@) == commands_of(old(cfg)@));
    let batch = build_batch(&cmds, &sent);
    let batch_str = chars_to_string(&batch);
    let reply = executor.execute(batch_str.as_str());
    let out = match reply {
        None => {
            assert(cmd_outcome(old(cfg)@, old(cfg)@, Err(TemplateError::ExecutorFailure),
            None::<Seq<char>>));
            return Err(TemplateError::ExecutorFailure);
        },
        Some(out) => out,
    };
    let oc = str_to_chars(out.as_str());
    let segs = split_on_exec(&oc, &sent);
    assert(views(segs@) == segments(oc@));
    if segs.len() != cmds.len() {
        assert(cmd_outcome(old(cfg)@, old(cfg)@, Err(TemplateError::SegmentMismatch), Some(oc@)));
        return Err(TemplateError::SegmentMismatch);
    }
    proof {
        lemma_commands_deduplicated(old(cfg)@);
    }
    let rew = rewrite_lines(&lines, &cmds, &segs, &mk);
    let joined = join_with_exec(&rew, &nl);
    assert(joined@ == apply_outputs_spec(old(cfg)@, views(cmds@), views(segs@)));
    *cfg = chars_to_string(&joined);
    assert(cmd_outcome(old(cfg)@, cfg@, Ok(()), Some(oc@)));
    Ok(())
}

} // verus!
