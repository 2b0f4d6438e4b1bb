//! Bash to Nushell conversion by the agent in print mode.
use crate::bytes::{lossy_text, to_lossy};
use crate::split::texts;
use crate::text::{
    after_prefix, before_suffix, concat, concat3, drop_leading, drop_trailing, is_empty, is_ws,
    lemma_drop_leading_none, lemma_drop_trailing_none, or_else, begins, strip_prefix, strip_suffix,
    trim, trim_trailing, trimmed, CharClass,
};
use vstd::prelude::*;
use vstd::string::*;

verus! {

/// What the agent is asked.
pub open spec fn prompt_of(bash: Seq<char>) -> Seq<char> {
    "Convert the following bash to idiomatic Nushell.\nOutput ONLY the Nushell code — no markdown fences, no commentary, no explanation.\nPreserve comments when useful. Prefer native Nushell over `^bash` / `bash -c` wrappers.\n\nBash:\n```bash\n"@
        + bash + "\n```"@
}

/// What the agent is asked.
fn make_prompt(bash: &str) -> (r: String)
    ensures
        r@ == prompt_of(bash@),
{
    concat3(
        "Convert the following bash to idiomatic Nushell.\nOutput ONLY the Nushell code — no markdown fences, no commentary, no explanation.\nPreserve comments when useful. Prefer native Nushell over `^bash` / `bash -c` wrappers.\n\nBash:\n```bash\n",
        bash,
        "\n```",
    )
}

/// What follows the name of a language, where `s` begins with one.
pub open spec fn after_language(s: Seq<char>) -> Seq<char> {
    match or_else(
        after_prefix(s, "nushell"@),
        or_else(
            after_prefix(s, "nu"@),
            or_else(after_prefix(s, "bash"@), after_prefix(s, "sh"@)),
        ),
    ) {
        Some(rest) => rest,
        None => s,
    }
}

/// `s` without one line feed at its start.
pub open spec fn after_newline(s: Seq<char>) -> Seq<char> {
    match after_prefix(s, "\n"@) {
        Some(rest) => rest,
        None => s,
    }
}

/// `s` without a code fence at its end.
pub open spec fn before_fence(s: Seq<char>) -> Seq<char> {
    match before_suffix(s, "```"@) {
        Some(body) => drop_trailing(body, CharClass::Whitespace),
        None => s,
    }
}

/// A text without the code fence around it, if there is one.
pub open spec fn unfenced(s: Seq<char>) -> Seq<char> {
    match after_prefix(trimmed(s), "```"@) {
        None => trimmed(s),
        Some(rest) => trimmed(before_fence(after_newline(after_language(rest)))),
    }
}

/// What follows the name of a language, where `s` begins with one.
fn skip_language<'a>(s: &'a str) -> (r: &'a str)
    ensures
        r@ == after_language(s@),
{
    if let Some(rest) = strip_prefix(s, "nushell") {
        return rest;
    }
    if let Some(rest) = strip_prefix(s, "nu") {
        return rest;
    }
    if let Some(rest) = strip_prefix(s, "bash") {
        return rest;
    }
    if let Some(rest) = strip_prefix(s, "sh") {
        return rest;
    }
    s
}

/// A text without the code fence around it, if there is one.
pub fn strip_code_fence(s: &str) -> (r: String)
    ensures
        r@ == unfenced(s@),
{
    let t = trim(s);
    let rest = match strip_prefix(t, "```") {
        None => return t.to_owned(),
        Some(rest) => rest,
    };
    let rest = skip_language(rest);
    let rest = match strip_prefix(rest, "\n") {
        Some(r) => r,
        None => rest,
    };
    let body = match strip_suffix(rest, "```") {
        Some(b) => trim_trailing(b, CharClass::Whitespace),
        None => rest,
    };
    trim(body).to_owned()
}

/// What a command printed, and how it ended.
pub struct CommandOutput {
    pub success: bool,
    /// How it ended, in words.
    pub status: String,
    pub stdout: Vec<u8>,
    pub stderr: Vec<u8>,
}

/// The Nushell code in what the agent printed, or why there is none.
pub open spec fn converted(
    success: bool,
    status: Seq<char>,
    stdout: Seq<char>,
    stderr: Seq<char>,
) -> Result<Seq<char>, Seq<char>> {
    if !success {
        let detail = if trimmed(stderr).len() > 0 {
            trimmed(stderr)
        } else if trimmed(stdout).len() > 0 {
            trimmed(stdout)
        } else {
            "no output"@
        };
        Err("prime-agent convert failed ("@ + status + "): "@ + detail)
    } else if unfenced(trimmed(stdout)).len() == 0 {
        Err("prime-agent returned empty Nushell"@)
    } else {
        Ok(unfenced(trimmed(stdout)))
    }
}

/// The Nushell code in what the agent printed, or why there is none.
pub fn conversion_result(success: bool, status: &str, stdout: &str, stderr: &str) -> (r: Result<
    String,
    String,
>)
    ensures
        crate::bao::result_text(r) == converted(success, status@, stdout@, stderr@),
{
    if !success {
        let detail = if !is_empty(trim(stderr)) {
            trim(stderr)
        } else if !is_empty(trim(stdout)) {
            trim(stdout)
        } else {
            "no output"
        };
        let mut out = concat3("prime-agent convert failed (", status, "): ");
        out.append(detail);
        return Err(out);
    }
    let cleaned = strip_code_fence(trim(stdout));
    if is_empty(cleaned.as_str()) {
        Err("prime-agent returned empty Nushell".to_owned())
    } else {
        Ok(cleaned)
    }
}

/// What to do next to convert a script.
pub enum ConvertStep {
    /// Run the agent.
    Run { program: String, args: Vec<String> },
    /// The Nushell code, or why there is none.
    Done(Result<String, String>),
}

/// What a step holds.
pub enum ConvertStepView {
    Run { program: Seq<char>, args: Seq<Seq<char>> },
    Done(Result<Seq<char>, Seq<char>>),
}

impl View for ConvertStep {
    type V = ConvertStepView;

    open spec fn view(&self) -> ConvertStepView {
        match self {
            ConvertStep::Run { program, args } => ConvertStepView::Run {
                program: program@,
                args: texts(args@),
            },
            ConvertStep::Done(r) => ConvertStepView::Done(crate::bao::result_text(*r)),
        }
    }
}

/// The next step in converting a script, given the agent's program, or why it
/// was not found, and what it printed, once it ran.
pub open spec fn convert_next(
    bash: Seq<char>,
    agent: Result<Seq<char>, Seq<char>>,
    output: Option<Result<(bool, Seq<char>, Seq<char>, Seq<char>), Seq<char>>>,
) -> ConvertStepView {
    if trimmed(bash).len() == 0 {
        ConvertStepView::Done(Err("paste some bash first"@))
    } else {
        match agent {
            Err(e) => ConvertStepView::Done(Err(e)),
            Ok(program) => match output {
                None => ConvertStepView::Run {
                    program,
                    args: seq!["--print"@, "--no-session"@, "--offline"@, prompt_of(trimmed(bash))],
                },
                Some(Err(e)) => ConvertStepView::Done(Err("failed to run prime-agent: "@ + e)),
                Some(Ok((success, status, stdout, stderr))) => ConvertStepView::Done(
                    converted(success, status, stdout, stderr),
                ),
            },
        }
    }
}

/// What a command printed, as text.
pub open spec fn output_texts(o: Option<&Result<CommandOutput, String>>) -> Option<
    Result<(bool, Seq<char>, Seq<char>, Seq<char>), Seq<char>>,
> {
    match o {
        None => None,
        Some(Err(e)) => Some(Err(e@)),
        Some(Ok(out)) => Some(
            Ok((out.success, out.status@, lossy_text(out.stdout@), lossy_text(out.stderr@))),
        ),
    }
}

/// The next step in converting a bash script to Nushell.
pub fn bash_to_nushell(
    bash: &str,
    agent: &Result<String, String>,
    output: Option<&Result<CommandOutput, String>>,
) -> (r: ConvertStep)
    ensures
        r@ == convert_next(bash@, crate::bao::result_text(*agent), output_texts(output)),
{
    let bash = trim(bash);
    if is_empty(bash) {
        return ConvertStep::Done(Err("paste some bash first".to_owned()));
    }
    let program = match agent {
        Err(e) => return ConvertStep::Done(Err(e.clone())),
        Ok(p) => p.clone(),
    };
    match output {
        None => {
            let mut args: Vec<String> = Vec::new();
            args.push("--print".to_owned());
            args.push("--no-session".to_owned());
            args.push("--offline".to_owned());
            args.push(make_prompt(bash));
            assert(texts(args@) =~= seq![
                "--print"@,
                "--no-session"@,
                "--offline"@,
                prompt_of(bash@),
            ]);
            ConvertStep::Run { program, args }
        },
        Some(Err(e)) => ConvertStep::Done(Err(concat("failed to run prime-agent: ", e.as_str()))),
        Some(Ok(out)) => {
            let stdout = to_lossy(&out.stdout);
            let stderr = to_lossy(&out.stderr);
            ConvertStep::Done(
                conversion_result(
                    out.success,
                    out.status.as_str(),
                    stdout.as_str(),
                    stderr.as_str(),
                ),
            )
        },
    }
}

/// A text that does not begin with a code fence is only trimmed.
pub proof fn law_plain_text_is_trimmed(s: Seq<char>)
    requires
        !begins(trimmed(s), "```"@),
    ensures
        unfenced(s) == trimmed(s),
{
}

/// Trimming the end first changes nothing about trimming.
proof fn lemma_trim_after_end(s: Seq<char>)
    ensures
        trimmed(drop_trailing(s, CharClass::Whitespace)) == trimmed(s),
    decreases s.len(),
{
    let class = CharClass::Whitespace;
    if s.len() > 0 && class.has(s.last()) {
        lemma_trim_after_end(s.drop_last());
        lemma_trim_drops_last(s);
    }
}

/// White space at the end does not matter to trimming.
proof fn lemma_trim_drops_last(s: Seq<char>)
    requires
        s.len() > 0,
        is_ws(s.last()),
    ensures
        trimmed(s) == trimmed(s.drop_last()),
    decreases s.len(),
{
    let class = CharClass::Whitespace;
    if class.has(s[0]) {
        if s.len() > 1 {
            assert(s.drop_first().drop_last() =~= s.drop_last().drop_first());
            lemma_trim_drops_last(s.drop_first());
        } else {
            assert(s.drop_first() =~= s.drop_last());
            assert(drop_leading(s, class) == drop_leading(s.drop_first(), class));
        }
    } else {
        assert(s.drop_last()[0] == s[0]);
    }
}

/// A fenced script is unwrapped: with or without the name of a language behind
/// the opening fence, what is left is the script, trimmed.
pub proof fn law_fence_is_unwrapped(tag: Seq<char>, body: Seq<char>)
    requires
        tag == ""@ || tag == "nushell"@ || tag == "nu"@ || tag == "bash"@ || tag == "sh"@,
    ensures
        unfenced("```"@ + tag + "\n"@ + body + "\n```"@) == trimmed(body),
{
    reveal_strlit("```");
    reveal_strlit("");
    reveal_strlit("nushell");
    reveal_strlit("nu");
    reveal_strlit("bash");
    reveal_strlit("sh");
    reveal_strlit("\n");
    reveal_strlit("\n```");
    let all = "```"@ + tag + "\n"@ + body + "\n```"@;
    assert(all[0] == '`' && all.last() == '`');
    lemma_drop_leading_none(all, CharClass::Whitespace);
    lemma_drop_trailing_none(all, CharClass::Whitespace);
    assert(trimmed(all) == all);
    assert(all.take(3) =~= "```"@);
    let rest = all.skip(3);
    let r1 = "\n"@ + body + "\n```"@;
    assert(rest =~= tag + r1);
    assert(r1[0] == '\n');
    assert(after_language(rest) == r1) by {
        if tag == "nushell"@ {
            assert(rest.take(7) =~= "nushell"@);
            assert(rest.skip(7) =~= r1);
        } else if tag == "nu"@ {
            assert(rest.len() >= 7 ==> rest.take(7)[2] == '\n');
            assert(rest.take(2) =~= "nu"@);
            assert(rest.skip(2) =~= r1);
        } else if tag == "bash"@ {
            assert(rest.len() >= 7 ==> rest.take(7)[0] == 'b');
            assert(rest.take(2)[0] == 'b');
            assert(rest.take(4) =~= "bash"@);
            assert(rest.skip(4) =~= r1);
        } else if tag == "sh"@ {
            assert(rest.len() >= 7 ==> rest.take(7)[0] == 's');
            assert(rest.take(2)[0] == 's');
            assert(rest.len() >= 4 ==> rest.take(4)[0] == 's');
            assert(rest.take(2) =~= "sh"@);
            assert(rest.skip(2) =~= r1);
        } else {
            assert(rest =~= r1);
            assert(rest.len() >= 7 ==> rest.take(7)[0] == '\n');
            assert(rest.take(2)[0] == '\n');
            assert(rest.len() >= 4 ==> rest.take(4)[0] == '\n');
        }
    }
    assert(r1.take(1) =~= "\n"@);
    let r2 = body + "\n```"@;
    assert(r1.skip(1) =~= r2);
    assert(r2.skip(r2.len() - 3) =~= "```"@);
    let r3 = body + "\n"@;
    assert(r2.take(r2.len() - 3) =~= r3);
    lemma_trim_after_end(r3);
    assert(r3.drop_last() =~= body);
    lemma_trim_drops_last(r3);
}

/// The script that is converted is the one that was pasted, without the blanks around it:
/// the agent is asked, without a session, for Nushell in exchange for this bash.
pub proof fn law_agent_is_asked_for_this_script(bash: Seq<char>, program: Seq<char>)
    requires
        trimmed(bash).len() > 0,
    ensures
        convert_next(bash, Ok(program), None) matches ConvertStepView::Run { program: p, args } && p
            == program && args.len() == 4 && args[0] == "--print"@ && args[1] == "--no-session"@
            && args[2] == "--offline"@ && begins(
            args[3],
            "Convert the following bash to idiomatic Nushell."@,
        ) && crate::text::ends(args[3], "```bash\n"@ + trimmed(bash) + "\n```"@),
{
    let head = "Convert the following bash to idiomatic Nushell.\nOutput ONLY the Nushell code — no markdown fences, no commentary, no explanation.\nPreserve comments when useful. Prefer native Nushell over `^bash` / `bash -c` wrappers.\n\nBash:\n```bash\n"@;
    reveal_strlit(
        "Convert the following bash to idiomatic Nushell.\nOutput ONLY the Nushell code — no markdown fences, no commentary, no explanation.\nPreserve comments when useful. Prefer native Nushell over `^bash` / `bash -c` wrappers.\n\nBash:\n```bash\n",
    );
    reveal_strlit("Convert the following bash to idiomatic Nushell.");
    reveal_strlit("```bash\n");
    reveal_strlit("\n```");
    let b = trimmed(bash);
    let p = prompt_of(b);
    let start = "Convert the following bash to idiomatic Nushell."@;
    let fence = "```bash\n"@;
    let tail = fence + b + "\n```"@;
    assert(head.skip(head.len() - fence.len()) =~= fence);
    assert(head.take(start.len() as int) =~= start);
    assert(p.take(start.len() as int) =~= start);
    assert(p =~= head.take(head.len() - fence.len()) + tail);
    assert(p.skip(p.len() - tail.len()) =~= tail);
}

/// Nothing is run for a blank script or without an agent, and the error says why.
pub proof fn law_nothing_is_run_in_vain(
    bash: Seq<char>,
    program: Seq<char>,
    e: Seq<char>,
    output: Option<Result<(bool, Seq<char>, Seq<char>, Seq<char>), Seq<char>>>,
)
    ensures
        trimmed(bash).len() == 0 ==> convert_next(bash, Ok(program), output)
            == ConvertStepView::Done(Err("paste some bash first"@)),
        trimmed(bash).len() > 0 ==> convert_next(bash, Err(e), output) == ConvertStepView::Done(
            Err(e),
        ),
        trimmed(bash).len() > 0 ==> convert_next(bash, Ok(program), Some(Err(e)))
            == ConvertStepView::Done(Err("failed to run prime-agent: "@ + e)),
{
}

/// What the agent prints is the converted script, out of its fence and without the blanks
/// around it. Where it fails, the error tells what it printed as errors, else what it
/// printed, and how it ended; where it prints nothing, that is an error too.
pub proof fn law_printed_code_is_the_result(
    bash: Seq<char>,
    program: Seq<char>,
    status: Seq<char>,
    stdout: Seq<char>,
    stderr: Seq<char>,
)
    requires
        trimmed(bash).len() > 0,
    ensures
        ({
            let done = |ok: bool|
                convert_next(bash, Ok(program), Some(Ok((ok, status, stdout, stderr))));
            &&& !begins(trimmed(stdout), "```"@) && trimmed(stdout).len() > 0 ==> done(true)
                == ConvertStepView::Done(Ok(trimmed(stdout)))
            &&& trimmed(stdout).len() == 0 ==> done(true) == ConvertStepView::Done(
                Err("prime-agent returned empty Nushell"@),
            )
            &&& trimmed(stderr).len() > 0 ==> done(false) == ConvertStepView::Done(
                Err("prime-agent convert failed ("@ + status + "): "@ + trimmed(stderr)),
            )
            &&& trimmed(stderr).len() == 0 && trimmed(stdout).len() > 0 ==> done(false)
                == ConvertStepView::Done(
                Err("prime-agent convert failed ("@ + status + "): "@ + trimmed(stdout)),
            )
            &&& trimmed(stderr).len() == 0 && trimmed(stdout).len() == 0 ==> done(false)
                == ConvertStepView::Done(
                Err("prime-agent convert failed ("@ + status + "): "@ + "no output"@),
            )
        }),
{
    crate::text::law_trim_idempotent(stdout);
    reveal_strlit("```");
    lemma_empty_is_plain(trimmed(stdout));
}

/// An empty text is unfenced to nothing.
proof fn lemma_empty_is_plain(s: Seq<char>)
    ensures
        s.len() == 0 ==> unfenced(s).len() == 0,
{
    reveal_strlit("```");
    crate::text::lemma_trimmed_edges(s);
}

/// A fenced script is the result without its fence.
pub proof fn law_fenced_code_is_the_result(
    bash: Seq<char>,
    program: Seq<char>,
    status: Seq<char>,
    stderr: Seq<char>,
    tag: Seq<char>,
    body: Seq<char>,
)
    requires
        trimmed(bash).len() > 0,
        trimmed(body).len() > 0,
        tag == ""@ || tag == "nushell"@ || tag == "nu"@ || tag == "bash"@ || tag == "sh"@,
    ensures
        convert_next(
            bash,
            Ok(program),
            Some(Ok((true, status, "```"@ + tag + "\n"@ + body + "\n```"@, stderr))),
        ) == ConvertStepView::Done(Ok(trimmed(body))),
{
    let s = "```"@ + tag + "\n"@ + body + "\n```"@;
    law_fence_is_unwrapped(tag, body);
    crate::text::law_trim_idempotent(s);
    assert(unfenced(trimmed(s)) == unfenced(s));
}

} // verus!
