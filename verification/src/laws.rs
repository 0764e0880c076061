//! Properties that hold across the library's operations.

use vstd::prelude::*;
use crate::command::{
    command_name, command_of, commands_in, help_text, message_commands, response_for, Command,
};
use crate::agent::{stage_input, stage_payload};
use crate::inference::{error_text, prompt_text, LlmError};
use crate::job::{Job, JobRole, JobStatus, next_stage};
use crate::tools::{embedding_text, is_top_n, query_text, ranks_before, Argument, Tool};
use crate::inference::{
    after_last_marker, clean_response, last_occurrence, occurs_at, response_marker,
};
use crate::store::RedbJobStore;
use crate::text::{end_non_white, first_non_white, is_white, scan_words, split_words, trimmed};

verus! {

/// The word that gives a command: a backslash, then the command's name.
pub open spec fn command_word(c: Command) -> Seq<char> {
    "\\"@ + command_name(c)
}

proof fn lemma_scan_no_white(t: Seq<char>, w: Seq<char>)
    requires
        scan_words(t).1.len() == 0,
        forall|i: int| 0 <= i < w.len() ==> !is_white(#[trigger] w[i]),
    ensures
        scan_words(t + w) == (scan_words(t).0, w),
    decreases w.len(),
{
    if w.len() == 0 {
        assert(t + w =~= t);
    } else {
        let v = w.drop_last();
        lemma_scan_no_white(t, v);
        assert((t + w).drop_last() =~= t + v);
        assert((t + w).last() == w.last());
        assert(v.push(w.last()) =~= w);
    }
}

/// A word after a space is read as one more word: splitting `s`, a space,
/// then a non-empty word without whitespace gives the words of `s`
/// followed by that word.
pub proof fn lemma_split_append_word(s: Seq<char>, w: Seq<char>)
    requires
        w.len() > 0,
        forall|i: int| 0 <= i < w.len() ==> !is_white(#[trigger] w[i]),
    ensures
        split_words(s + seq![' '] + w) == split_words(s).push(w),
{
    lemma_split_after_white(s, ' ', w);
}

/// Any whitespace character separates words: splitting `s`, a whitespace
/// character, then a non-empty word without whitespace gives the words of
/// `s` followed by that word.
pub proof fn lemma_split_after_white(s: Seq<char>, c: char, w: Seq<char>)
    requires
        is_white(c),
        w.len() > 0,
        forall|i: int| 0 <= i < w.len() ==> !is_white(#[trigger] w[i]),
    ensures
        split_words(s + seq![c] + w) == split_words(s).push(w),
{
    let t = s + seq![c];
    assert(t.drop_last() =~= s);
    assert(is_white(t.last()));
    assert(scan_words(t).0 == split_words(s));
    lemma_scan_no_white(t, w);
}

proof fn lemma_command_words(c: Command)
    ensures
        command_word(c).len() > 0,
        forall|i: int| 0 <= i < command_word(c).len() ==> !is_white(#[trigger] command_word(c)[i]),
        command_of(command_word(c)) == Some(c),
{
    reveal_strlit("\\");
    reveal_strlit("shutdown");
    reveal_strlit("current");
    reveal_strlit("help");
    reveal_strlit("list");
    reveal_strlit("\\shutdown");
    reveal_strlit("\\current");
    reveal_strlit("\\help");
    reveal_strlit("\\list");
    match c {
        Command::Shutdown => {
            assert(command_word(c) =~= "\\shutdown"@);
        },
        Command::Current => {
            assert(command_word(c) =~= "\\current"@);
            assert(command_word(c)[1] != "\\shutdown"@[1]);
        },
        Command::Help => {
            assert(command_word(c) =~= "\\help"@);
            assert(command_word(c).len() != "\\shutdown"@.len());
            assert(command_word(c).len() != "\\current"@.len());
        },
        Command::List => {
            assert(command_word(c) =~= "\\list"@);
            assert(command_word(c).len() != "\\shutdown"@.len());
            assert(command_word(c).len() != "\\current"@.len());
            assert(command_word(c)[1] != "\\help"@[1]);
        },
    }
}

/// Every command is recognised wherever it stands in a message: a message
/// followed by a space and a command's word holds the message's commands,
/// then that command. With an empty message: the word alone gives exactly
/// its command.
pub proof fn lemma_command_recognised(s: Seq<char>, c: Command)
    ensures
        message_commands(s + seq![' '] + command_word(c)) == message_commands(s).push(c),
{
    lemma_command_words(c);
    lemma_split_append_word(s, command_word(c));
    let words = split_words(s).push(command_word(c));
    assert(words.drop_last() =~= split_words(s));
}

/// Jobs are handed out first in, first out: queueing a pending job whose
/// sequence number is above every one handed out, and whose id neither
/// table uses, leaves the next job unchanged when one was pending; when no
/// job was pending or processing, the new job is next.
pub proof fn lemma_fifo(s: RedbJobStore, t: RedbJobStore, job: Job, first: Option<Job>)
    requires
        s.sequences_issued(),
        job.sequence > s.last_value(),
        job.status == JobStatus::Pending,
        !s.jobs_view().contains_key(job.id),
        forall|k: u64| #[trigger] s.sequence_view().contains_key(k) ==> s.sequence_view()[k] != job.id,
        t.jobs_view() == s.jobs_view().insert(job.id, job),
        t.sequence_view() == s.sequence_view().insert(job.sequence, job.id),
        s.fetch_spec(first),
    ensures
        first is Some ==> t.fetch_spec(first),
        first is None && !s.has_processing() ==> t.fetch_spec(Some(job)),
{
    assert(t.has_processing() == s.has_processing()) by {
        if t.has_processing() {
            let id = choose|id: u128|
                #![trigger t.jobs_view()[id]]
                t.jobs_view().contains_key(id) && t.jobs_view()[id].status == JobStatus::Processing;
            assert(id != job.id);
            assert(s.jobs_view()[id] == t.jobs_view()[id]);
        }
        if s.has_processing() {
            let id = choose|id: u128|
                #![trigger s.jobs_view()[id]]
                s.jobs_view().contains_key(id) && s.jobs_view()[id].status == JobStatus::Processing;
            assert(t.jobs_view()[id] == s.jobs_view()[id]);
        }
    }
    // below the new sequence number, the two stores agree on what is pending
    assert forall|k: u64| k < job.sequence implies #[trigger] t.pending_at(k) == s.pending_at(k) by {
        if s.sequence_view().contains_key(k) {
            let id = s.sequence_view()[k];
            assert(t.sequence_view()[k] == id);
            assert(id != job.id);
            if s.jobs_view().contains_key(id) {
                assert(t.jobs_view()[id] == s.jobs_view()[id]);
            }
        } else {
            assert(!t.sequence_view().contains_key(k));
        }
    }
    assert(t.pending_at(job.sequence));
    assert forall|k: u64| k > job.sequence implies !#[trigger] t.pending_at(k) by {
        assert(!s.sequence_view().contains_key(k));
    }
    if first is Some && !s.has_processing() {
        let f = first->0;
        let k = choose|k: u64|
            #![trigger s.pending_at(k)]
            s.pending_at(k) && f == s.jobs_view()[s.sequence_view()[k]] && forall|k2: u64|
                k2 < k ==> !#[trigger] s.pending_at(k2);
        assert(k <= s.last_value());
        assert(t.pending_at(k));
        let id = s.sequence_view()[k];
        assert(t.jobs_view()[t.sequence_view()[k]] == s.jobs_view()[id]);
        assert(t.is_next_pending(f));
    }
    if first is None && !s.has_processing() {
        assert forall|k2: u64| k2 < job.sequence implies !#[trigger] t.pending_at(k2) by {
            assert(!s.pending_at(k2));
        }
        assert(t.jobs_view()[t.sequence_view()[job.sequence]] == job);
        assert(t.is_next_pending(job));
    }
}

/// A job marked completed or failed is not handed out: after its status is
/// set to either, the next job handed out, if any, is another job.
pub proof fn lemma_closed_job_not_handed_out(
    s: RedbJobStore,
    t: RedbJobStore,
    id: u128,
    status: JobStatus,
    next: Option<Job>,
)
    requires
        s.ids_consistent(),
        status == JobStatus::Completed || status == JobStatus::Failed,
        s.status_update(id, status, t),
        t.fetch_spec(next),
    ensures
        next matches Some(job) ==> job.id != id,
{
    if next is Some && !t.has_processing() {
        let job = next->0;
        let k = choose|k: u64|
            #![trigger t.pending_at(k)]
            t.pending_at(k) && job == t.jobs_view()[t.sequence_view()[k]] && forall|k2: u64|
                k2 < k ==> !#[trigger] t.pending_at(k2);
        let key = t.sequence_view()[k];
        assert(key != id);
        assert(t.jobs_view()[key] == s.jobs_view()[key]);
        assert(s.jobs_view().contains_key(key));
    }
}


proof fn lemma_last_occurrence_is(s: Seq<char>, m: Seq<char>, i: int, j: int)
    requires
        0 <= j <= i,
        occurs_at(s, m, j),
        forall|p: int| j < p <= i ==> !#[trigger] occurs_at(s, m, p),
    ensures
        last_occurrence(s, m, i) == j,
    decreases i,
{
    if i > j {
        lemma_last_occurrence_is(s, m, i - 1, j);
    }
}

/// The answer is what follows the response marker: when the model's output
/// is any text, the marker, then an answer in which the marker does not
/// occur, the cleaned response is that answer, trimmed.
pub proof fn lemma_answer_after_marker(x: Seq<char>, answer: Seq<char>)
    requires
        forall|p: int| !#[trigger] occurs_at(answer, response_marker(), p),
    ensures
        clean_response(x + response_marker() + answer) == trimmed(answer),
{
    reveal_strlit("### Response:");
    let m = response_marker();
    let s = x + m + answer;
    let l = x.len() as int;
    assert(m.len() == 13);
    assert(s.subrange(l, l + 13) =~= m);
    assert forall|p: int| l < p <= s.len() - 13 implies !#[trigger] occurs_at(s, m, p) by {
        if p >= l + 13 {
            if occurs_at(s, m, p) {
                assert(answer.subrange(p - l - 13, p - l) =~= s.subrange(p, p + 13));
                assert(occurs_at(answer, m, p - l - 13));
            }
        } else if p == l + 1 {
            assert(s[p + 2] == m[3]);
            assert(s.subrange(p, p + 13)[2] != m[2]);
        } else if p == l + 2 {
            assert(s[p + 1] == m[3]);
            assert(s.subrange(p, p + 13)[1] != m[1]);
        } else {
            assert(s[p] == m[p - l]);
            assert(s.subrange(p, p + 13)[0] != m[0]);
        }
    }
    lemma_last_occurrence_is(s, m, s.len() - 13, l);
    assert(after_last_marker(s) =~= answer);
}


/// Without the marker, the answer is all of the output, trimmed.
pub proof fn lemma_answer_without_marker(s: Seq<char>)
    requires
        forall|p: int| !#[trigger] occurs_at(s, response_marker(), p),
    ensures
        clean_response(s) == trimmed(s),
{
    let m = response_marker();
    let i = s.len() - m.len();
    assert forall|p: int| p <= i implies last_occurrence(s, m, p) == -1 by {
        lemma_no_occurrence(s, m, p);
    }
}

proof fn lemma_no_occurrence(s: Seq<char>, m: Seq<char>, i: int)
    requires
        forall|p: int| !#[trigger] occurs_at(s, m, p),
    ensures
        last_occurrence(s, m, i) == -1,
    decreases i + 1,
{
    if i >= 0 {
        lemma_no_occurrence(s, m, i - 1);
    }
}

proof fn lemma_first_non_white(s: Seq<char>, i: int)
    requires
        0 <= i <= s.len(),
    ensures
        i <= first_non_white(s, i) <= s.len(),
        first_non_white(s, i) < s.len() ==> !is_white(s[first_non_white(s, i)]),
        forall|k: int| i <= k < first_non_white(s, i) ==> is_white(#[trigger] s[k]),
    decreases s.len() - i,
{
    if i < s.len() && is_white(s[i]) {
        lemma_first_non_white(s, i + 1);
    }
}

proof fn lemma_end_non_white(s: Seq<char>, j: int)
    requires
        0 <= j <= s.len(),
    ensures
        0 <= end_non_white(s, j) <= j,
        end_non_white(s, j) > 0 ==> !is_white(s[end_non_white(s, j) - 1]),
        forall|k: int| end_non_white(s, j) <= k < j ==> is_white(#[trigger] s[k]),
    decreases j,
{
    if j > 0 && is_white(s[j - 1]) {
        lemma_end_non_white(s, j - 1);
    }
}

/// Trimming twice is trimming once.
pub proof fn lemma_trim_idempotent(s: Seq<char>)
    ensures
        trimmed(trimmed(s)) == trimmed(s),
{
    let t = trimmed(s);
    lemma_first_non_white(s, 0);
    lemma_end_non_white(s, s.len() as int);
    if t.len() > 0 {
        let a = first_non_white(s, 0);
        let b = end_non_white(s, s.len() as int);
        assert(t[0] == s[a]);
        assert(t[t.len() - 1] == s[b - 1]);
        assert(first_non_white(t, 0) == 0);
        assert(end_non_white(t, t.len() as int) == t.len());
        assert(t.subrange(0, t.len() as int) =~= t);
    }
}


/// Trimming removes exactly the leading and trailing whitespace: the result
/// is the part of `s` between a whitespace-only prefix and a
/// whitespace-only suffix, and, when not empty, starts and ends with a
/// character that is not whitespace. Whitespace inside is kept.
pub proof fn lemma_trim_characterised(s: Seq<char>)
    ensures
        exists|a: int, b: int|
            {
                &&& 0 <= a <= b <= s.len()
                &&& trimmed(s) == s.subrange(a, b)
                &&& forall|i: int| 0 <= i < a ==> is_white(#[trigger] s[i])
                &&& forall|i: int| b <= i < s.len() ==> is_white(#[trigger] s[i])
                &&& a < b ==> !is_white(s[a]) && !is_white(s[b - 1])
            },
{
    let a = first_non_white(s, 0);
    let b = end_non_white(s, s.len() as int);
    lemma_first_non_white(s, 0);
    lemma_end_non_white(s, s.len() as int);
    if a < b {
        assert(trimmed(s) == s.subrange(a, b));
    } else {
        if a < s.len() {
            lemma_end_at_least(s, s.len() as int, a);
        }
        assert(s.subrange(a, a) =~= Seq::<char>::empty());
        assert forall|i: int| a <= i < s.len() implies is_white(#[trigger] s[i]) by {
            if !is_white(s[i]) {
                lemma_end_at_least(s, s.len() as int, i);
            }
        }
    }
}

proof fn lemma_end_at_least(s: Seq<char>, j: int, k: int)
    requires
        0 <= k < j <= s.len(),
        !is_white(s[k]),
    ensures
        end_non_white(s, j) > k,
    decreases j,
{
    if is_white(s[j - 1]) {
        lemma_end_at_least(s, j - 1, k);
    }
}

/// Text that starts and ends with non-whitespace is left as it is by
/// trimming, whatever whitespace (line breaks included) it holds inside.
pub proof fn lemma_trim_keeps_inner(s: Seq<char>)
    requires
        s.len() > 0,
        !is_white(s[0]),
        !is_white(s[s.len() - 1]),
    ensures
        trimmed(s) == s,
{
    assert(first_non_white(s, 0) == 0);
    assert(end_non_white(s, s.len() as int) == s.len());
    assert(s.subrange(0, s.len() as int) =~= s);
}

/// Whitespace around a text is removed by trimming, and only that.
pub proof fn lemma_trim_strips_around(g1: Seq<char>, t: Seq<char>, g2: Seq<char>)
    requires
        forall|i: int| 0 <= i < g1.len() ==> is_white(#[trigger] g1[i]),
        forall|i: int| 0 <= i < g2.len() ==> is_white(#[trigger] g2[i]),
        t.len() > 0,
        !is_white(t[0]),
        !is_white(t[t.len() - 1]),
    ensures
        trimmed(g1 + t + g2) == t,
{
    let s = g1 + t + g2;
    lemma_trim_characterised(s);
    let (a, b) = choose|a: int, b: int|
        {
            &&& 0 <= a <= b <= s.len()
            &&& trimmed(s) == s.subrange(a, b)
            &&& forall|i: int| 0 <= i < a ==> is_white(#[trigger] s[i])
            &&& forall|i: int| b <= i < s.len() ==> is_white(#[trigger] s[i])
            &&& a < b ==> !is_white(s[a]) && !is_white(s[b - 1])
        };
    let l1 = g1.len() as int;
    let l2 = l1 + t.len();
    assert(s[l1] == t[0]);
    assert(s[l2 - 1] == t[t.len() - 1]);
    assert forall|i: int| 0 <= i < l1 implies is_white(#[trigger] s[i]) by {
        assert(s[i] == g1[i]);
    }
    assert forall|i: int| l2 <= i < s.len() implies is_white(#[trigger] s[i]) by {
        assert(s[i] == g2[i - l2]);
    }
    // a cannot pass the first character of t, nor b stop before its last
    assert(a <= l1);
    assert(b >= l2);
    assert(a == l1) by {
        if a < l1 {
            assert(is_white(s[a]));
        }
    }
    assert(b == l2) by {
        if b > l2 {
            assert(is_white(s[b - 1]));
        }
    }
    assert(s.subrange(a, b) =~= t);
}


/// A word is a command only when it is exactly a backslash command word:
/// `\shutdown`, `\current`, `\help` or `\list`, standing for the command of
/// that name.
pub proof fn lemma_only_command_words(w: Seq<char>)
    ensures
        command_of(w) is Some ==> w == "\\shutdown"@ || w == "\\current"@ || w == "\\help"@ || w
            == "\\list"@,
        command_of(w) matches Some(c) ==> w == command_word(c),
{
    if command_of(w) is Some {
        lemma_command_words(command_of(w)->0);
        reveal_strlit("\\");
        reveal_strlit("shutdown");
        reveal_strlit("current");
        reveal_strlit("help");
        reveal_strlit("list");
        reveal_strlit("\\shutdown");
        reveal_strlit("\\current");
        reveal_strlit("\\help");
        reveal_strlit("\\list");
        let c = command_of(w)->0;
        match c {
            Command::Shutdown => assert(command_word(c) =~= "\\shutdown"@),
            Command::Current => assert(command_word(c) =~= "\\current"@),
            Command::Help => assert(command_word(c) =~= "\\help"@),
            Command::List => assert(command_word(c) =~= "\\list"@),
        }
    }
}

/// Each command found in a list of words comes from a word that is its
/// command word; a list without command words gives no commands.
pub proof fn lemma_commands_from_words(words: Seq<Seq<char>>)
    ensures
        commands_in(words).len() <= words.len(),
        forall|i: int|
            0 <= i < commands_in(words).len() ==> words.contains(
                command_word(#[trigger] commands_in(words)[i]),
            ),
        (forall|i: int| 0 <= i < words.len() ==> command_of(#[trigger] words[i]) is None)
            ==> commands_in(words).len() == 0,
    decreases words.len(),
{
    if words.len() > 0 {
        let before = words.drop_last();
        lemma_commands_from_words(before);
        lemma_only_command_words(words.last());
        assert forall|i: int|
            0 <= i < commands_in(words).len() implies words.contains(
            command_word(#[trigger] commands_in(words)[i]),
        ) by {
            if i < commands_in(before).len() {
                assert(commands_in(words)[i] == commands_in(before)[i]);
                let j = choose|j: int|
                    0 <= j < before.len() && before[j] == command_word(commands_in(before)[i]);
                assert(words[j] == before[j]);
            } else {
                assert(words[words.len() - 1] == words.last());
            }
        }
        if forall|i: int| 0 <= i < words.len() ==> command_of(#[trigger] words[i]) is None {
            assert forall|i: int| 0 <= i < before.len() implies command_of(
                #[trigger] before[i],
            ) is None by {
                assert(before[i] == words[i]);
            }
            assert(command_of(words[words.len() - 1]) is None);
        }
    }
}

/// A message holds a command only if one of its words is that command's
/// backslash word; a message none of whose words is one of the four
/// backslash command words holds no commands.
pub proof fn lemma_message_commands_need_command_words(s: Seq<char>)
    ensures
        forall|i: int|
            0 <= i < message_commands(s).len() ==> split_words(s).contains(
                "\\"@ + command_name(#[trigger] message_commands(s)[i]),
            ),
        (forall|i: int|
            0 <= i < split_words(s).len() ==> {
                let w = #[trigger] split_words(s)[i];
                w != "\\shutdown"@ && w != "\\current"@ && w != "\\help"@ && w != "\\list"@
            }) ==> message_commands(s).len() == 0,
{
    let words = split_words(s);
    lemma_commands_from_words(words);
    if forall|i: int|
        0 <= i < words.len() ==> {
            let w = #[trigger] words[i];
            w != "\\shutdown"@ && w != "\\current"@ && w != "\\help"@ && w != "\\list"@
        } {
        assert forall|i: int| 0 <= i < words.len() implies command_of(#[trigger] words[i]) is None by {
            lemma_only_command_words(words[i]);
        }
    }
}


/// A tool with no arguments and no examples is embedded from its name and
/// description under fixed headings.
pub proof fn lemma_embedding_text_bare(tool: Tool)
    requires
        tool.arguments@.len() == 0,
        tool.examples@.len() == 0,
    ensures
        embedding_text(tool) == "Tool name: "@ + tool.name@ + "\nDescription: "@ + tool.description@
            + "\nArguments:\nExamples:\n"@,
{
    reveal_strlit("\n");
    reveal_strlit("Description: ");
    reveal_strlit("\nDescription: ");
    reveal_strlit("Arguments:\n");
    reveal_strlit("Examples:\n");
    reveal_strlit("\nArguments:\nExamples:\n");
    assert(embedding_text(tool) =~= "Tool name: "@ + tool.name@ + "\nDescription: "@
        + tool.description@ + "\nArguments:\nExamples:\n"@);
}

/// One more example adds exactly one line at the end of a tool's text:
/// "- ", the example, and a line break. So every example appears, in order.
pub proof fn lemma_embedding_text_example(tool: Tool, more: Tool, example: String)
    requires
        more.name == tool.name,
        more.description == tool.description,
        more.arguments@ == tool.arguments@,
        more.examples@ == tool.examples@.push(example),
    ensures
        embedding_text(more) == embedding_text(tool) + "- "@ + example@ + "\n"@,
{
    assert(more.examples@.drop_last() =~= tool.examples@);
    assert(embedding_text(more) =~= embedding_text(tool) + "- "@ + example@ + "\n"@);
}

/// One more argument adds exactly its line, "- name (type): description"
/// and a line break, just before the examples heading of a tool that has
/// no examples. So every argument appears, in order.
pub proof fn lemma_embedding_text_argument(
    tool: Tool,
    more: Tool,
    name: String,
    arg: Argument,
)
    requires
        more.name == tool.name,
        more.description == tool.description,
        more.arguments@ == tool.arguments@.push((name, arg)),
        more.examples@ == tool.examples@,
        tool.examples@.len() == 0,
    ensures
        embedding_text(more) == embedding_text(tool).subrange(0, embedding_text(tool).len() - 10)
            + ("- "@ + name@ + " ("@ + arg.arg_type@ + "): "@ + arg.description@ + "\n"@)
            + "Examples:\n"@,
{
    reveal_strlit("Examples:\n");
    let e = embedding_text(tool);
    let head = "Tool name: "@ + tool.name@ + "\n"@ + "Description: "@ + tool.description@ + "\n"@
        + "Arguments:\n"@ + crate::tools::argument_lines(tool.arguments@);
    assert(more.arguments@.drop_last() =~= tool.arguments@);
    assert(e =~= head + "Examples:\n"@);
    assert(e.subrange(0, e.len() - 10) =~= head);
    assert(embedding_text(more) =~= head + ("- "@ + name@ + " ("@ + arg.arg_type@ + "): "@
        + arg.description@ + "\n"@) + "Examples:\n"@);
}

/// The search query holds the whole message: the retrieval instruction,
/// then every character of the message, in order.
pub proof fn lemma_query_holds_message(u: Seq<char>)
    ensures
        query_text(u).len() == "Represent this sentence for searching relevant passages: "@.len()
            + u.len(),
        query_text(u).take(
            "Represent this sentence for searching relevant passages: "@.len() as int,
        ) == "Represent this sentence for searching relevant passages: "@,
        query_text(u).skip(
            "Represent this sentence for searching relevant passages: "@.len() as int,
        ) == u,
{
    let p = "Represent this sentence for searching relevant passages: "@;
    assert(query_text(u).take(p.len() as int) =~= p);
    assert(query_text(u).skip(p.len() as int) =~= u);
}

/// Extending a message extends its query by the same text.
pub proof fn lemma_query_extends(u: Seq<char>, v: Seq<char>)
    ensures
        query_text(u + v) == query_text(u) + v,
{
    assert(query_text(u + v) =~= query_text(u) + v);
}

/// The prompt holds the whole question, line breaks included, between the
/// instruction heading and the response heading.
pub proof fn lemma_prompt_holds_question(t: Seq<char>)
    ensures
        prompt_text(t).len() == "### Instruction:\n"@.len() + t.len() + " \n ### Response: \n"@.len(),
        prompt_text(t).take("### Instruction:\n"@.len() as int) == "### Instruction:\n"@,
        prompt_text(t).subrange(
            "### Instruction:\n"@.len() as int,
            ("### Instruction:\n"@.len() + t.len()) as int,
        ) == t,
        prompt_text(t).skip(("### Instruction:\n"@.len() + t.len()) as int) == " \n ### Response: \n"@,
{
    let h = "### Instruction:\n"@;
    let f = " \n ### Response: \n"@;
    assert(prompt_text(t).take(h.len() as int) =~= h);
    assert(prompt_text(t).subrange(h.len() as int, (h.len() + t.len()) as int) =~= t);
    assert(prompt_text(t).skip((h.len() + t.len()) as int) =~= f);
}

/// Questions are framed alike: the prompts of two questions differ only in
/// the question, so a longer question gives a prompt longer by as much.
pub proof fn lemma_prompt_frames_alike(t: Seq<char>, u: Seq<char>)
    ensures
        prompt_text(t + u).len() == prompt_text(t).len() + u.len(),
        prompt_text(t + u).take(("### Instruction:\n"@.len() + t.len()) as int) == prompt_text(t).take(
            ("### Instruction:\n"@.len() + t.len()) as int,
        ),
{
    lemma_prompt_holds_question(t);
    lemma_prompt_holds_question(t + u);
    let h = "### Instruction:\n"@;
    assert(prompt_text(t + u).take((h.len() + t.len()) as int) =~= h + t);
    assert(prompt_text(t).take((h.len() + t.len()) as int) =~= h + t);
}


/// A single word without whitespace splits into just that word.
pub proof fn lemma_split_single_word(w: Seq<char>)
    requires
        w.len() > 0,
        forall|i: int| 0 <= i < w.len() ==> !is_white(#[trigger] w[i]),
    ensures
        split_words(w) == seq![w],
{
    let e = Seq::<char>::empty();
    assert(scan_words(e).1.len() == 0);
    lemma_scan_no_white(e, w);
    assert(e + w =~= w);
    assert(Seq::<Seq<char>>::empty().push(w) =~= seq![w]);
}

proof fn lemma_scan_words_shape(s: Seq<char>)
    ensures
        forall|i: int|
            0 <= i < scan_words(s).0.len() ==> (#[trigger] scan_words(s).0[i]).len() > 0 && forall|
                j: int,
            |
                0 <= j < scan_words(s).0[i].len() ==> !is_white(#[trigger] scan_words(s).0[i][j]),
        forall|j: int| 0 <= j < scan_words(s).1.len() ==> !is_white(#[trigger] scan_words(s).1[j]),
    decreases s.len(),
{
    if s.len() > 0 {
        lemma_scan_words_shape(s.drop_last());
        let (done, cur) = scan_words(s.drop_last());
        if !is_white(s.last()) {
            assert forall|j: int| 0 <= j < cur.push(s.last()).len() implies !is_white(
                #[trigger] cur.push(s.last())[j],
            ) by {
                if j < cur.len() {
                    assert(cur.push(s.last())[j] == cur[j]);
                }
            }
        } else if cur.len() > 0 {
            assert forall|i: int| 0 <= i < done.push(cur).len() implies (#[trigger] done.push(
                cur,
            )[i]).len() > 0 && forall|j: int|
                0 <= j < done.push(cur)[i].len() ==> !is_white(#[trigger] done.push(cur)[i][j]) by {
                if i < done.len() {
                    assert(done.push(cur)[i] == done[i]);
                }
            }
        }
    }
}

/// Every word is non-empty and holds no whitespace.
pub proof fn lemma_words_have_no_white(s: Seq<char>)
    ensures
        forall|i: int|
            0 <= i < split_words(s).len() ==> (#[trigger] split_words(s)[i]).len() > 0 && forall|
                j: int,
            |
                0 <= j < split_words(s)[i].len() ==> !is_white(#[trigger] split_words(s)[i][j]),
{
    lemma_scan_words_shape(s);
    let (done, cur) = scan_words(s);
    if cur.len() > 0 {
        assert forall|i: int| 0 <= i < done.push(cur).len() implies (#[trigger] done.push(
            cur,
        )[i]).len() > 0 && forall|j: int|
            0 <= j < done.push(cur)[i].len() ==> !is_white(#[trigger] done.push(cur)[i][j]) by {
            if i < done.len() {
                assert(done.push(cur)[i] == done[i]);
            }
        }
    }
}

proof fn lemma_scan_white_tail(s: Seq<char>, g: Seq<char>)
    requires
        forall|i: int| 0 <= i < g.len() ==> is_white(#[trigger] g[i]),
    ensures
        split_words(s + g) == split_words(s),
        g.len() > 0 ==> scan_words(s + g).1.len() == 0,
    decreases g.len(),
{
    if g.len() == 0 {
        assert(s + g =~= s);
    } else {
        let h = g.drop_last();
        lemma_scan_white_tail(s, h);
        assert((s + g).drop_last() =~= s + h);
        assert((s + g).last() == g.last());
        assert(is_white(g[g.len() - 1]));
        if h.len() == 0 {
            assert(s + h =~= s);
        }
    }
}

/// Trailing whitespace adds no word.
pub proof fn lemma_split_ignores_trailing_white(s: Seq<char>, g: Seq<char>)
    requires
        forall|i: int| 0 <= i < g.len() ==> is_white(#[trigger] g[i]),
    ensures
        split_words(s + g) == split_words(s),
{
    lemma_scan_white_tail(s, g);
}


/// The position of a command's word in the help message.
pub open spec fn help_position(c: Command) -> int {
    match c {
        Command::Shutdown => 22,
        Command::Current => 58,
        Command::Help => 96,
        Command::List => 130,
    }
}

/// The help message names every command by its backslash word, each on a
/// line of its own after "- ".
pub proof fn lemma_help_lists_every_command(c: Command)
    ensures
        0 <= help_position(c) - 2,
        help_position(c) + command_word(c).len() <= help_text().len(),
        help_text().subrange(help_position(c), help_position(c) + command_word(c).len())
            == command_word(c),
        help_text().subrange(help_position(c) - 2, help_position(c)) == "- "@,
{
    reveal_strlit(
        "Available commands:\n- \\shutdown: Shuts down the system.\n- \\current: Displays the current Job.\n- \\help: Shows this help message.\n- \\list: Shows all Jobs in memory.",
    );
    reveal_strlit("\\");
    reveal_strlit("- ");
    reveal_strlit("shutdown");
    reveal_strlit("current");
    reveal_strlit("help");
    reveal_strlit("list");
    let h = help_text();
    let p = help_position(c);
    assert(h.subrange(p, p + command_word(c).len()) =~= command_word(c));
    assert(h.subrange(p - 2, p) =~= "- "@);
}

/// What each command replies: `\shutdown` and `\current` announce that they
/// execute, by name; `\help` gives the help message; `\list` says it is not
/// implemented, by name.
pub proof fn lemma_command_replies(c: Command)
    ensures
        c == Command::Shutdown || c == Command::Current ==> response_for(c) == "Executing "@
            + command_name(c) + "..."@,
        c == Command::Help ==> response_for(c) == help_text(),
        c == Command::List ==> response_for(c) == "Not implemented command: "@ + command_name(c),
{
    reveal_strlit("Executing ");
    reveal_strlit("...");
    reveal_strlit("shutdown");
    reveal_strlit("current");
    reveal_strlit("Executing shutdown...");
    reveal_strlit("Executing current...");
    match c {
        Command::Shutdown => assert(response_for(c) =~= "Executing "@ + command_name(c) + "..."@),
        Command::Current => assert(response_for(c) =~= "Executing "@ + command_name(c) + "..."@),
        _ => {},
    }
}


/// Each stage marks the payload it was given with its tag and keeps all of
/// it; the `Embed` stage replaces it by the found tool. Only the `Embed`
/// stage depends on the tool.
pub proof fn lemma_stage_payloads(job: Job, tool: Seq<char>, other: Seq<char>)
    ensures
        job.role == JobRole::Embed ==> stage_payload(job, tool) == "Task: "@ + tool,
        job.role == JobRole::Interpret ==> stage_payload(job, tool) == "[interpreted] "@
            + job.payload@,
        job.role == JobRole::Call ==> stage_payload(job, tool) == "[called] "@ + job.payload@,
        job.role == JobRole::Respond ==> stage_payload(job, tool) == "[response] "@ + job.payload@,
        job.role != JobRole::Embed ==> stage_payload(job, tool) == stage_payload(job, other),
        job.role != JobRole::Embed ==> stage_payload(job, tool).skip(
            stage_payload(job, tool).len() - job.payload@.len(),
        ) == job.payload@,
{
    if job.role != JobRole::Embed {
        let r = stage_payload(job, tool);
        assert(r.skip(r.len() - job.payload@.len()) =~= job.payload@);
    }
}

/// The `Embed` stage searches with the user's message when there is one,
/// else with the payload.
pub proof fn lemma_stage_input(job: Job)
    ensures
        job.user_message is Some ==> stage_input(job) == job.user_message->0@,
        job.user_message is None ==> stage_input(job) == job.payload@,
{
}

/// The pipeline: `Embed`, `Interpret`, `Call`, `Respond`, each once, in that
/// order; nothing follows `Respond`, and no stage leads back to `Embed`.
pub proof fn lemma_pipeline_order(r: JobRole)
    ensures
        next_stage(JobRole::Embed) == Some(JobRole::Interpret),
        next_stage(JobRole::Interpret) == Some(JobRole::Call),
        next_stage(JobRole::Call) == Some(JobRole::Respond),
        next_stage(JobRole::Respond) is None,
        next_stage(r) != Some(r),
        next_stage(r) != Some(JobRole::Embed),
{
}

/// An error's message is the failed step's heading followed by the whole
/// detail message.
pub proof fn lemma_error_messages(e: LlmError)
    ensures
        e matches LlmError::Download(m) ==> error_text(e) == "Model download failed: "@ + m@,
        e matches LlmError::Backend(m) ==> error_text(e) == "Backend init failed: "@ + m@,
        e matches LlmError::ModelLoad(m) ==> error_text(e) == "Model load failed: "@ + m@,
        e matches LlmError::Inference(m) ==> error_text(e) == "Inference failed: "@ + m@,
{
}

proof fn lemma_ranks_before_asymmetric(keys: Seq<u32>, a: int, b: int)
    ensures
        !(ranks_before(keys, a, b) && ranks_before(keys, b, a)),
        !ranks_before(keys, a, a),
{
}

/// The top-n ranking is determined by the keys and n: two rankings that
/// both meet it are the same.
pub proof fn lemma_top_n_unique(keys: Seq<u32>, n: nat, r1: Seq<usize>, r2: Seq<usize>)
    requires
        is_top_n(keys, n, r1),
        is_top_n(keys, n, r2),
    ensures
        r1 == r2,
{
    lemma_top_n_agree(keys, n, r1, r2, r1.len() as int);
    assert(r1 =~= r2);
}

proof fn lemma_top_n_agree(keys: Seq<u32>, n: nat, r1: Seq<usize>, r2: Seq<usize>, k: int)
    requires
        is_top_n(keys, n, r1),
        is_top_n(keys, n, r2),
        0 <= k <= r1.len(),
    ensures
        forall|j: int| 0 <= j < k ==> r1[j] == r2[j],
    decreases k,
{
    if k > 0 {
        let i = k - 1;
        lemma_top_n_agree(keys, n, r1, r2, i);
        let x = r1[i];
        let y = r2[i];
        if x != y {
            // x ranks before y
            assert(ranks_before(keys, x as int, y as int)) by {
                if r1.contains(y) {
                    let j = choose|j: int| 0 <= j < r1.len() && r1[j] == y;
                    if j < i {
                        assert(r2[j] == y);
                        assert(ranks_before(keys, r2[j] as int, r2[i] as int));
                        lemma_ranks_before_asymmetric(keys, y as int, y as int);
                    }
                    assert(j != i);
                    assert(ranks_before(keys, r1[i] as int, r1[j] as int));
                } else {
                    assert(ranks_before(keys, r1[i] as int, y as int));
                }
            }
            assert(ranks_before(keys, y as int, x as int)) by {
                if r2.contains(x) {
                    let j = choose|j: int| 0 <= j < r2.len() && r2[j] == x;
                    if j < i {
                        assert(r1[j] == x);
                        assert(ranks_before(keys, r1[j] as int, r1[i] as int));
                        lemma_ranks_before_asymmetric(keys, x as int, x as int);
                    }
                    assert(j != i);
                    assert(ranks_before(keys, r2[i] as int, r2[j] as int));
                } else {
                    assert(ranks_before(keys, r2[i] as int, x as int));
                }
            }
            lemma_ranks_before_asymmetric(keys, x as int, y as int);
        }
    }
}

} // verus!
