//! Prompting the language model: the prompt format, the stepping of token
//! generation, and the cleaning of the generated answer.

use vstd::prelude::*;
use crate::text::{chars_of, trim_bounds, trim_text, trimmed};

verus! {

/// The most tokens that one answer may have.
pub const MAX_NEW_TOKENS: usize = 256;

/// An error of the language model engine, by the step that failed.
#[derive(Debug)]
pub enum LlmError {
    Download(String),
    Backend(String),
    ModelLoad(String),
    Inference(String),
}

/// The message that an error displays.
pub open spec fn error_text(e: LlmError) -> Seq<char> {
    match e {
        LlmError::Download(m) => "Model download failed: "@ + m@,
        LlmError::Backend(m) => "Backend init failed: "@ + m@,
        LlmError::ModelLoad(m) => "Model load failed: "@ + m@,
        LlmError::Inference(m) => "Inference failed: "@ + m@,
    }
}

impl LlmError {
    /// The error's message.
    pub fn to_text(&self) -> (s: String)
        ensures
            s@ == error_text(*self),
    {
        match self {
            LlmError::Download(m) => String::from_str("Model download failed: ").concat(m.as_str()),
            LlmError::Backend(m) => String::from_str("Backend init failed: ").concat(m.as_str()),
            LlmError::ModelLoad(m) => String::from_str("Model load failed: ").concat(m.as_str()),
            LlmError::Inference(m) => String::from_str("Inference failed: ").concat(m.as_str()),
        }
    }
}

/// The instruction/response frame that a question is put in.
pub open spec fn prompt_text(text: Seq<char>) -> Seq<char> {
    "### Instruction:\n"@ + text + " \n ### Response: \n"@
}

/// Puts `text` in the instruction/response frame that the model answers.
pub fn format_prompt(text: &str) -> (p: String)
    ensures
        p@ == prompt_text(text@),
{
    String::from_str("### Instruction:\n").concat(text).concat(" \n ### Response: \n")
}

/// The marker after which the model's answer starts.
pub open spec fn response_marker() -> Seq<char> {
    "### Response:"@
}

/// `m` occurs in `s` at position `i`.
pub open spec fn occurs_at(s: Seq<char>, m: Seq<char>, i: int) -> bool {
    0 <= i && i + m.len() <= s.len() && s.subrange(i, i + m.len()) == m
}

/// The last position at or before `i` where `m` occurs in `s`, or -1.
pub open spec fn last_occurrence(s: Seq<char>, m: Seq<char>, i: int) -> int
    decreases i + 1,
{
    if i < 0 {
        -1
    } else if occurs_at(s, m, i) {
        i
    } else {
        last_occurrence(s, m, i - 1)
    }
}

/// What follows the last response marker in `s`, or all of `s` when the
/// marker does not occur. The marker overlaps no other occurrence of
/// itself, so this is the last piece that splitting `s` at the marker gives.
pub open spec fn after_last_marker(s: Seq<char>) -> Seq<char> {
    let m = response_marker();
    let i = last_occurrence(s, m, s.len() - m.len());
    if i < 0 {
        s
    } else {
        s.subrange(i + m.len(), s.len() as int)
    }
}

/// The answer in the model's output: what follows the last response
/// marker, trimmed.
pub open spec fn clean_response(s: Seq<char>) -> Seq<char> {
    trimmed(after_last_marker(s))
}

fn marker_at(v: &Vec<char>, m: &Vec<char>, i: usize) -> (b: bool)
    requires
        i + m@.len() <= v@.len(),
    ensures
        b == occurs_at(v@, m@, i as int),
{
    let vl = v.len();
    let mut j: usize = 0;
    while j < m.len()
        invariant
            vl == v@.len(),
            i + m@.len() <= v@.len(),
            j <= m@.len(),
            forall|k: int| 0 <= k < j ==> v@[i + k] == m@[k],
        decreases m.len() - j,
    {
        assert(i + j < v@.len());
        if v[i + j] != m[j] {
            assert(v@.subrange(i as int, i + m@.len())[j as int] != m@[j as int]);
            return false;
        }
        j = j + 1;
    }
    assert(v@.subrange(i as int, i + m@.len()) =~= m@);
    true
}

/// The answer in the model's output: what follows the last
/// `### Response:` marker (all of it when there is none), trimmed.
pub fn extract_response(response: &str) -> (answer: String)
    ensures
        answer@ == clean_response(response@),
{
    let v = chars_of(response);
    let m = chars_of("### Response:");
    let n = v.len();
    let ml = m.len();
    let ghost s = v@;
    let mut start: usize = 0;
    proof {
        reveal_strlit("### Response:");
    }
    if ml <= n {
        let mut i: usize = n - ml + 1;
        let mut found = false;
        while i > 0 && !found
            invariant
                v@ == s,
                ml == m@.len(),
                m@ == response_marker(),
                ml <= n,
                n == s.len(),
                i <= n - ml + 1,
                !found ==> start == 0 && last_occurrence(s, m@, n - ml) == last_occurrence(
                    s,
                    m@,
                    i - 1,
                ),
                found ==> i >= 1 && start == i - 1 + ml && last_occurrence(s, m@, n - ml) == i
                    - 1,
            decreases i + if found { 0int } else { 1int },
        {
            if marker_at(&v, &m, i - 1) {
                found = true;
                start = i - 1 + ml;
            } else {
                i = i - 1;
            }
        }
        proof {
            if !found {
                assert(last_occurrence(s, m@, -1) == -1);
                assert(s.subrange(0, n as int) =~= s);
            }
        }
    } else {
        proof {
            assert(last_occurrence(s, m@, n - ml) == -1);
            assert(s.subrange(0, n as int) =~= s);
        }
    }
    assert(s.subrange(start as int, n as int) == after_last_marker(s));
    let mut tail: Vec<char> = Vec::new();
    let mut k: usize = start;
    while k < n
        invariant
            v@ == s,
            n == s.len(),
            start <= k <= n,
            tail@ == s.subrange(start as int, k as int),
        decreases n - k,
    {
        tail.push(v[k]);
        assert(tail@ =~= s.subrange(start as int, k + 1));
        k = k + 1;
    }
    let (a, b) = trim_bounds(&tail);
    assert(response@.subrange(start + a, start + b) =~= tail@.subrange(a as int, b as int));
    String::from_str(response.substring_char(start + a, start + b))
}

/// The state of token generation for one answer: the text produced so
/// far, the position of the next token in the context, and how many
/// tokens were produced.
pub struct Generation {
    response: String,
    position: i32,
    produced: usize,
}

impl Generation {
    /// The text produced so far.
    pub closed spec fn text_view(self) -> Seq<char> {
        self.response@
    }

    /// The context position at which the next token is decoded.
    pub closed spec fn position_view(self) -> int {
        self.position as int
    }

    /// How many tokens were produced.
    pub closed spec fn produced_view(self) -> nat {
        self.produced as nat
    }

    /// Generation for a prompt of `prompt_len` tokens: nothing produced, and
    /// the first new token decoded at position `prompt_len`.
    pub fn start(prompt_len: usize) -> (g: Self)
        requires
            prompt_len + MAX_NEW_TOKENS <= i32::MAX,
        ensures
            g.text_view() == Seq::<char>::empty(),
            g.position_view() == prompt_len,
            g.produced_view() == 0,
            g.position_view() + MAX_NEW_TOKENS - g.produced_view() <= i32::MAX,
    {
        Generation { response: String::new(), position: prompt_len as i32, produced: 0 }
    }

    /// Whether another token may be sampled: fewer than `MAX_NEW_TOKENS`
    /// were produced.
    pub fn wants_token(&self) -> (b: bool)
        ensures
            b == (self.produced_view() < MAX_NEW_TOKENS),
    {
        self.produced < MAX_NEW_TOKENS
    }

    /// Takes a sampled token that is not the end of the text, with its
    /// text `piece`; gives the position at which to decode it next.
    pub fn accept(&mut self, piece: &str) -> (pos: i32)
        requires
            old(self).produced_view() < MAX_NEW_TOKENS,
            old(self).position_view() + MAX_NEW_TOKENS - old(self).produced_view() <= i32::MAX,
        ensures
            pos == old(self).position_view(),
            final(self).text_view() == old(self).text_view() + piece@,
            final(self).position_view() == old(self).position_view() + 1,
            final(self).produced_view() == old(self).produced_view() + 1,
            final(self).position_view() + MAX_NEW_TOKENS - final(self).produced_view() <= i32::MAX,
    {
        let pos = self.position;
        self.response.append(piece);
        self.position = self.position + 1;
        self.produced = self.produced + 1;
        pos
    }

    /// The answer produced, trimmed.
    pub fn finish(&self) -> (answer: String)
        ensures
            answer@ == trimmed(self.text_view()),
    {
        trim_text(self.response.as_str())
    }
}

} // verus!
