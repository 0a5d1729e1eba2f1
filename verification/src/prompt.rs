//! The prompt that asks a model about one process.

use vstd::prelude::*;
use crate::text::{take_chars, chars_of, append_str, string_of, prefix_chars};

verus! {

/// The instructions and heading that come before the evidence.
pub open spec fn preamble() -> Seq<char> {
    "You are a cautious local process analyst. Use only OBSERVED EVIDENCE below. Separate observations from inference, never invent unavailable facts, and say when evidence is insufficient.\n\nOBSERVED EVIDENCE:\n"@
}

/// The heading between the evidence and the question.
pub open spec fn question_heading() -> Seq<char> {
    "\n\nUSER QUESTION:\n"@
}

/// The evidence as shown: the serialised snapshot, or an empty JSON object when it could not
/// be serialised.
pub open spec fn evidence_text(evidence: Option<Seq<char>>) -> Seq<char> {
    match evidence {
        Some(e) => e,
        None => "{}"@,
    }
}

/// The prompt: the instructions, the evidence, and the question cut to 500 characters.
pub open spec fn prompt_text(evidence: Option<Seq<char>>, question: Seq<char>) -> Seq<char> {
    preamble() + evidence_text(evidence) + question_heading() + take_chars(question, 500)
}

/// Builds the prompt from the pretty-printed JSON of the bounded snapshot (`None` when it
/// could not be serialised) and the user's question.
pub fn build(evidence: Option<&str>, question: &str) -> (res: String)
    ensures
        res@ == prompt_text(
            match evidence {
                Some(e) => Some(e@),
                None => None,
            },
            question@,
        ),
{
    let mut out: Vec<char> = chars_of(
        "You are a cautious local process analyst. Use only OBSERVED EVIDENCE below. Separate observations from inference, never invent unavailable facts, and say when evidence is insufficient.\n\nOBSERVED EVIDENCE:\n",
    );
    match evidence {
        Some(e) => append_str(&mut out, e),
        None => append_str(&mut out, "{}"),
    }
    append_str(&mut out, "\n\nUSER QUESTION:\n");
    let q = prefix_chars(question, 500);
    append_str(&mut out, q.as_str());
    string_of(&out)
}


/// The prompt opens with the instructions and the evidence heading, shows the evidence as
/// given, and shows at most 500 characters of the question, which are the question's first.
pub proof fn lemma_prompt_shape(evidence: Option<Seq<char>>, question: Seq<char>)
    ensures
        prompt_text(evidence, question).take(preamble().len() as int) == preamble(),
        prompt_text(evidence, question).subrange(
            preamble().len() as int,
            (preamble().len() + evidence_text(evidence).len()) as int,
        ) == evidence_text(evidence),
        take_chars(question, 500).len() <= 500,
        take_chars(question, 500) == question.take(take_chars(question, 500).len() as int),
{
    let p = prompt_text(evidence, question);
    assert(p.take(preamble().len() as int) =~= preamble());
    assert(p.subrange(preamble().len() as int, (preamble().len() + evidence_text(evidence).len()) as int)
        =~= evidence_text(evidence));
    if question.len() <= 500 {
        assert(question.take(question.len() as int) =~= question);
    }
}

} // verus!
