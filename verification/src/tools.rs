//! The two binaries this tool is a wrapper around, and what to say when they
//! are missing.
//!
//! Both are hard requirements and both are checked up front, before anything
//! is downloaded. Discovering a missing ffmpeg *after* a 500 MB download is a
//! bad enough experience to be worth a startup probe.
use vstd::prelude::*;
use crate::text::{
    chars_of, is_ws, occurs_at, push_all, push_str, skip_back, string_of, trim_end, trim_end_ws,
    ws_pred,
};

verus! {

/// An external binary the pipeline depends on.
#[derive(Debug, Clone, Copy, PartialEq, Eq, Structural)]
pub enum Tool {
    YtDlp,
    Ffmpeg,
    Ffprobe,
}

/// The executable name of a tool.
pub open spec fn tool_binary(t: Tool) -> Seq<char> {
    match t {
        Tool::YtDlp => "yt-dlp"@,
        Tool::Ffmpeg => "ffmpeg"@,
        Tool::Ffprobe => "ffprobe"@,
    }
}

/// How to install a tool.
pub open spec fn tool_hint(t: Tool) -> Seq<char> {
    match t {
        Tool::YtDlp => "brew install yt-dlp   (or: pipx install yt-dlp)"@,
        Tool::Ffmpeg | Tool::Ffprobe => "brew install ffmpeg"@,
    }
}

impl Tool {
    pub fn binary(self) -> (r: &'static str)
        ensures
            r@ == tool_binary(self),
    {
        match self {
            Tool::YtDlp => "yt-dlp",
            Tool::Ffmpeg => "ffmpeg",
            Tool::Ffprobe => "ffprobe",
        }
    }

    /// What to tell a user who does not have it.
    pub fn install_hint(self) -> (r: &'static str)
        ensures
            r@ == tool_hint(self),
    {
        match self {
            Tool::YtDlp => "brew install yt-dlp   (or: pipx install yt-dlp)",
            // ffprobe ships inside the ffmpeg formula, so the hint is the same.
            Tool::Ffmpeg | Tool::Ffprobe => "brew install ffmpeg",
        }
    }
}

/// The tools among the first `n` of `tools` that were not found.
pub open spec fn missing_upto(tools: Seq<Tool>, found: Seq<bool>, n: nat) -> Seq<Tool>
    decreases n,
{
    if n == 0 {
        Seq::empty()
    } else if found[n - 1] {
        missing_upto(tools, found, (n - 1) as nat)
    } else {
        missing_upto(tools, found, (n - 1) as nat).push(tools[n - 1])
    }
}

/// The tools that were not found, in the order they were asked for.
pub open spec fn missing_tools(tools: Seq<Tool>, found: Seq<bool>) -> Seq<Tool> {
    missing_upto(tools, found, tools.len())
}

/// `s` padded on the right with spaces to `width` characters, as `{:<width}` does.
pub open spec fn pad_right(s: Seq<char>, width: nat) -> Seq<char> {
    if s.len() >= width {
        s
    } else {
        s + Seq::new((width - s.len()) as nat, |i: int| ' ')
    }
}

/// The line of the report that names one missing tool.
pub open spec fn tool_line(t: Tool) -> Seq<char> {
    "  "@ + pad_right(tool_binary(t), 8) + " install with: "@ + tool_hint(t) + "\n"@
}

/// The lines of the report, one per missing tool.
pub open spec fn tool_lines(ts: Seq<Tool>) -> Seq<char>
    decreases ts.len(),
{
    if ts.len() == 0 {
        Seq::empty()
    } else {
        tool_lines(ts.drop_last()) + tool_line(ts.last())
    }
}

/// The message that names every missing tool.
pub open spec fn missing_report(ts: Seq<Tool>) -> Seq<char> {
    trim_end("required tool(s) not found on PATH:\n"@ + tool_lines(ts))
}

fn push_tool_line(out: &mut Vec<char>, t: Tool)
    ensures
        final(out)@ == old(out)@ + tool_line(t),
{
    let ghost start = out@;
    push_str(out, "  ");
    let name = chars_of(t.binary());
    push_all(out, &name);
    let mut k = name.len();
    let ghost before_pad = out@;
    while k < 8
        invariant
            name.len() <= k <= 8 || (name.len() > 8 && k == name.len()),
            out@ == before_pad + Seq::new((k - name.len()) as nat, |i: int| ' '),
        decreases 8 - k,
    {
        out.push(' ');
        assert(out@ =~= before_pad + Seq::new((k + 1 - name.len()) as nat, |i: int| ' '));
        k = k + 1;
    }
    assert(out@ =~= start + "  "@ + pad_right(tool_binary(t), 8));
    push_str(out, " install with: ");
    push_str(out, t.install_hint());
    push_str(out, "\n");
    assert(out@ =~= start + tool_line(t));
}

/// Turn the result of looking for each tool into the verdict, naming *all*
/// missing tools at once: `found[i]` says whether `tools[i]` is on `PATH`.
///
/// Reporting them one at a time turns first-run setup into a guessing game
/// where each fix reveals the next problem.
pub fn check_available(tools: &[Tool], found: &[bool]) -> (r: Result<(), String>)
    requires
        tools.len() == found.len(),
    ensures
        missing_tools(tools@, found@).len() == 0 <==> r is Ok,
        r matches Err(msg) ==> msg@ == missing_report(missing_tools(tools@, found@)),
{
    let mut missing: Vec<Tool> = Vec::new();
    let mut i: usize = 0;
    while i < tools.len()
        invariant
            tools.len() == found.len(),
            i <= tools.len(),
            missing@ == missing_upto(tools@, found@, i as nat),
        decreases tools.len() - i,
    {
        if !found[i] {
            missing.push(tools[i]);
        }
        i = i + 1;
    }
    if missing.len() == 0 {
        return Ok(());
    }
    let mut msg = chars_of("required tool(s) not found on PATH:\n");
    let ghost head = msg@;
    let mut j: usize = 0;
    while j < missing.len()
        invariant
            j <= missing.len(),
            msg@ == head + tool_lines(missing@.take(j as int)),
        decreases missing.len() - j,
    {
        push_tool_line(&mut msg, missing[j]);
        assert(missing@.take(j + 1).drop_last() =~= missing@.take(j as int));
        assert(msg@ =~= head + tool_lines(missing@.take(j + 1)));
        j = j + 1;
    }
    assert(missing@.take(missing.len() as int) =~= missing@);
    let trimmed = trim_end_ws(&msg);
    Err(string_of(&trimmed))
}

/// ffprobe ships inside the ffmpeg formula, so its install hint is ffmpeg's.
pub proof fn law_ffprobe_hint_is_ffmpegs()
    ensures
        tool_hint(Tool::Ffprobe) == tool_hint(Tool::Ffmpeg),
{
}

proof fn lemma_tool_lines_append(a: Seq<Tool>, b: Seq<Tool>)
    ensures
        tool_lines(a + b) == tool_lines(a) + tool_lines(b),
    decreases b.len(),
{
    if b.len() == 0 {
        assert(a + b =~= a);
        assert(tool_lines(b) =~= Seq::<char>::empty());
        assert(tool_lines(a) + tool_lines(b) =~= tool_lines(a));
    } else {
        lemma_tool_lines_append(a, b.drop_last());
        assert((a + b).drop_last() =~= a + b.drop_last());
        assert((a + b).last() == b.last());
        assert(tool_lines(a + b) =~= tool_lines(a) + tool_lines(b));
    }
}

proof fn lemma_tool_line_shape(t: Tool)
    ensures
        tool_line(t).len() >= 2 + tool_binary(t).len() + 2,
        tool_line(t).subrange(2, 2 + tool_binary(t).len() as int) == tool_binary(t),
        tool_line(t).last() == '\n',
        !is_ws(tool_line(t)[tool_line(t).len() - 2]),
{
    reveal_strlit("  ");
    reveal_strlit(" install with: ");
    reveal_strlit("\n");
    reveal_strlit("yt-dlp");
    reveal_strlit("ffmpeg");
    reveal_strlit("ffprobe");
    reveal_strlit("brew install yt-dlp   (or: pipx install yt-dlp)");
    reveal_strlit("brew install ffmpeg");
    let line = tool_line(t);
    let name = tool_binary(t);
    let padded = pad_right(name, 8);
    assert(line == "  "@ + padded + " install with: "@ + tool_hint(t) + "\n"@);
    assert(padded.subrange(0, name.len() as int) =~= name);
    assert(line.subrange(2, 2 + name.len() as int) =~= name);
    let hint = tool_hint(t);
    assert(line[line.len() - 2] == hint.last());
}

/// The text the report is trimmed from.
pub open spec fn untrimmed_report(ts: Seq<Tool>) -> Seq<char> {
    "required tool(s) not found on PATH:\n"@ + tool_lines(ts)
}

proof fn lemma_report_drops_the_final_newline(ts: Seq<Tool>)
    requires
        ts.len() > 0,
    ensures
        missing_report(ts) == untrimmed_report(ts).drop_last(),
{
    let x = untrimmed_report(ts);
    let last = ts.last();
    lemma_tool_line_shape(last);
    assert(tool_lines(ts) == tool_lines(ts.drop_last()) + tool_line(last));
    assert(x.last() == '\n');
    assert(is_ws(x.last()));
    assert(x[x.len() - 2] == tool_line(last)[tool_line(last).len() - 2]);
    assert(x.drop_last().last() == x[x.len() - 2]);
    assert(skip_back(x.drop_last(), ws_pred()) == x.drop_last());
}

proof fn lemma_tool_named_at(ts: Seq<Tool>, i: int)
    requires
        0 <= i < ts.len(),
    ensures
        exists|p: int| occurs_at(untrimmed_report(ts).drop_last(), tool_binary(ts[i]), p),
{
    let head = "required tool(s) not found on PATH:\n"@;
    let x = untrimmed_report(ts);
    let t = ts[i];
    lemma_tool_line_shape(t);
    lemma_tool_lines_append(ts.take(i), ts.skip(i));
    assert(ts.take(i) + ts.skip(i) =~= ts);
    let rest = ts.skip(i);
    assert(rest =~= seq![t] + rest.drop_first());
    lemma_tool_lines_append(seq![t], rest.drop_first());
    assert(tool_lines(seq![t]) =~= tool_line(t)) by {
        assert(seq![t].drop_last() =~= Seq::<Tool>::empty());
        assert(seq![t].last() == t);
        assert(tool_lines(Seq::<Tool>::empty()) =~= Seq::<char>::empty());
        assert(tool_lines(seq![t]) == tool_lines(seq![t].drop_last()) + tool_line(t));
    }
    let before = head + tool_lines(ts.take(i));
    let p = before.len() as int + 2;
    let name = tool_binary(t);
    assert(x =~= before + tool_line(t) + tool_lines(rest.drop_first()));
    assert(p + name.len() <= x.len() - 1) by {
        assert(tool_line(t).len() >= 2 + name.len() + 2);
    }
    assert forall|j: int| 0 <= j < name.len() implies x.drop_last()[p + j] == name[j] by {
        assert(x[p + j] == tool_line(t)[2 + j]);
        assert(tool_line(t).subrange(2, 2 + name.len() as int)[j] == name[j]);
    }
    assert(x.drop_last().subrange(p, p + name.len() as int) =~= name);
    assert(occurs_at(x.drop_last(), name, p));
}

/// `text` mentions the executable name of `t`.
pub open spec fn names_tool(text: Seq<char>, t: Tool) -> bool {
    exists|p: int| occurs_at(text, tool_binary(t), p)
}

/// The report names every missing tool, not just the first one found:
/// reporting them one at a time turns first-run setup into a guessing game.
pub proof fn law_every_missing_tool_is_named(ts: Seq<Tool>)
    ensures
        forall|i: int| 0 <= i < ts.len() ==> names_tool(missing_report(ts), #[trigger] ts[i]),
{
    if ts.len() > 0 {
        lemma_report_drops_the_final_newline(ts);
        assert forall|i: int| 0 <= i < ts.len() implies names_tool(
            missing_report(ts),
            #[trigger] ts[i],
        ) by {
            lemma_tool_named_at(ts, i);
            let p = choose|p: int| occurs_at(untrimmed_report(ts).drop_last(), tool_binary(ts[i]), p);
            assert(occurs_at(missing_report(ts), tool_binary(ts[i]), p));
        }
    }
}

/// Exactly the tools that were not found are reported: each one that was not
/// found is among the missing, and each one that was found is not.
pub proof fn law_missing_are_the_tools_not_found(tools: Seq<Tool>, found: Seq<bool>, n: nat)
    requires
        n <= tools.len() == found.len(),
    ensures
        forall|i: int| 0 <= i < n && !found[i] ==> missing_upto(tools, found, n).contains(
            #[trigger] tools[i],
        ),
        forall|t: Tool|
            missing_upto(tools, found, n).contains(t) ==> exists|i: int|
                0 <= i < n && !found[i] && #[trigger] tools[i] == t,
    decreases n,
{
    if n > 0 {
        law_missing_are_the_tools_not_found(tools, found, (n - 1) as nat);
        let prev = missing_upto(tools, found, (n - 1) as nat);
        let cur = missing_upto(tools, found, n);
        if !found[n - 1] {
            assert(cur == prev.push(tools[n - 1]));
            assert forall|i: int| 0 <= i < n && !found[i] implies cur.contains(
                #[trigger] tools[i],
            ) by {
                if i < n - 1 {
                    let k = choose|k: int| 0 <= k < prev.len() && prev[k] == tools[i];
                    assert(cur[k] == tools[i]);
                } else {
                    assert(cur[prev.len() as int] == tools[i]);
                }
            }
            assert forall|t: Tool| cur.contains(t) implies exists|i: int|
                0 <= i < n && !found[i] && #[trigger] tools[i] == t by {
                let k = choose|k: int| 0 <= k < cur.len() && cur[k] == t;
                if k < prev.len() {
                    assert(prev[k] == t);
                    assert(prev.contains(t));
                } else {
                    assert(tools[n - 1] == t);
                }
            }
        }
    }
}

} // verus!
