//! Structured follow-up questions for interactive runs.
//!
//! The transport is the caller's: a run with nobody on the other end fails the
//! call with a clear reason instead of blocking on input nobody will ever
//! type.
use vstd::prelude::*;
use vstd::string::*;

use super::{required, required_str, tool_outcome, Tool, ToolError, ToolErrorView};
use super::catalog::{self, ask_offer};
use crate::json::{Json, JsonView};
use crate::llm::{ToolSpec, ToolSpecView};
use crate::text::{dec, decimal, lemma_step, number_of, parse_number, trim, trimmed, views};

verus! {

/// The numbered options, in order.
pub open spec fn option_lines(options: Seq<Seq<char>>) -> Seq<char>
    decreases options.len(),
{
    if options.len() == 0 {
        Seq::empty()
    } else {
        option_lines(options.drop_last()) + ("\n  "@ + dec(options.len()) + ". "@ + options.last())
    }
}

/// The question as the human sees it.
pub open spec fn question_shown(question: Seq<char>, options: Seq<Seq<char>>) -> Seq<char> {
    if options.len() == 0 {
        question
    } else {
        question + option_lines(options) + "\nReply with a number or free text."@
    }
}

/// The question as the human sees it. Options are numbered so a reply can be
/// just the number.
pub fn render(question: &str, options: &Vec<String>) -> (r: String)
    ensures
        r@ == question_shown(question@, views(options@)),
{
    let ghost all = views(options@);
    let mut out = question.to_owned();
    let mut i: usize = 0;
    proof {
        assert(out@ =~= question@ + option_lines(all.take(0)));
    }
    while i < options.len()
        invariant
            all == views(options@),
            i <= options@.len(),
            out@ == question@ + option_lines(all.take(i as int)),
        decreases options@.len() - i,
    {
        proof {
            lemma_step(all, i as int);
            assert(all[i as int] == options@[i as int]@);
        }
        let n = decimal((i + 1) as u64);
        let line = "\n  ".to_owned().concat(n.as_str()).concat(". ").concat(options[i].as_str());
        out.append(line.as_str());
        proof {
            assert(out@ =~= question@ + option_lines(all.take(i + 1)));
        }
        i += 1;
    }
    proof {
        assert(all.take(i as int) =~= all);
    }
    if options.len() > 0 {
        out.append("\nReply with a number or free text.");
    }
    out
}

/// What a reply means.
pub open spec fn meant(answer: Seq<char>, options: Seq<Seq<char>>) -> Seq<char> {
    match number_of(answer) {
        Some(n) => if 1 <= n <= options.len() {
            options[n - 1]
        } else {
            answer
        },
        None => answer,
    }
}

/// What a reply means: `2` against options is the second option; anything else
/// is taken verbatim.
pub fn resolve(answer: &str, options: &Vec<String>) -> (r: String)
    ensures
        r@ == meant(answer@, views(options@)),
{
    match parse_number(answer) {
        Some(n) => {
            if 1 <= n && n <= options.len() as u64 {
                let i: usize = (n - 1) as usize;
                proof {
                    assert(views(options@)[i as int] == options@[i as int]@);
                }
                options[i].clone()
            } else {
                answer.to_owned()
            }
        },
        None => answer.to_owned(),
    }
}

/// A question and its options.
pub fn request(input: &Json) -> (r: Result<(String, Vec<String>), ToolError>)
    ensures
        match r {
            Ok(v) => required(input@, "question"@) == Ok::<Seq<char>, ToolErrorView>(v.0@)
                && views(v.1@) == input@.texts_field("options"@),
            Err(e) => required(input@, "question"@) == Err::<Seq<char>, ToolErrorView>(e@),
        },
{
    let question = match required_str(input, "question") {
        Err(e) => {
            return Err(e);
        },
        Ok(question) => question,
    };
    Ok((question.to_owned(), input.texts_field("options")))
}

/// Asks whoever is on the terminal, if anyone is.
#[derive(Debug)]
pub struct Ask {
    attended: bool,
}

impl View for Ask {
    type V = bool;

    closed spec fn view(&self) -> bool {
        self.attended
    }
}

/// What a question is told when nobody is listening.
pub open spec fn nobody() -> ToolErrorView {
    ToolErrorView::Failed(
        "this run is detached — no one is listening to answer. Decide with your best judgment \
            and note the assumption in your report."@,
    )
}

impl Ask {
    /// Someone is on the terminal; questions reach them.
    pub fn interactive() -> (r: Self)
        ensures
            r@,
    {
        Ask { attended: true }
    }

    /// Nobody is listening. The tool is still on offer, so that the model gets
    /// a reason and not an unknown tool.
    pub fn detached() -> (r: Self)
        ensures
            !r@,
    {
        Ask { attended: false }
    }

    /// The question to put to the human and its options.
    pub fn question(&self, input: &Json) -> (r: Result<(String, Vec<String>), ToolError>)
        ensures
            match r {
                Ok(v) => self@ && required(input@, "question"@) is Ok && v.0@ == question_shown(
                    required(input@, "question"@)->Ok_0,
                    input@.texts_field("options"@),
                ) && views(v.1@) == input@.texts_field("options"@),
                Err(e) => if required(input@, "question"@) is Err {
                    required(input@, "question"@) == Err::<Seq<char>, ToolErrorView>(e@)
                } else {
                    !self@ && e@ == nobody()
                },
            },
    {
        let (question, options) = match request(input) {
            Err(e) => {
                return Err(e);
            },
            Ok(v) => v,
        };
        if !self.attended {
            return Err(
                ToolError::Failed(
                    "this run is detached — no one is listening to answer. Decide with your best \
                        judgment and note the assumption in your report.".to_owned(),
                ),
            );
        }
        Ok((render(question.as_str(), &options), options))
    }
}

impl Tool for Ask {
    open spec fn offer(&self) -> ToolSpecView {
        ask_offer()
    }

    open spec fn overlaps(&self, input: JsonView) -> bool {
        false
    }

    open spec fn replays(&self) -> bool {
        false
    }

    fn name(&self) -> (r: &'static str) {
        "ask"
    }

    fn spec(&self) -> (r: ToolSpec) {
        catalog::ask()
    }

    fn parallel_safe(&self, _input: &Json) -> (r: bool) {
        false
    }

    fn replay_safe(&self) -> (r: bool) {
        false
    }
}

/// What a reply says.
pub open spec fn reply_result(reply: Seq<char>, options: Seq<Seq<char>>) -> Result<
    Seq<char>,
    ToolErrorView,
> {
    if trim(reply).len() == 0 {
        Err(ToolErrorView::Failed("no answer was given (empty reply)"@))
    } else {
        Ok(meant(trim(reply), options))
    }
}

/// What a reply says.
pub fn result(reply: &str, options: &Vec<String>) -> (r: Result<String, ToolError>)
    ensures
        tool_outcome(r) == reply_result(reply@, views(options@)),
{
    let answer = trimmed(reply);
    if answer.as_str().is_empty() {
        return Err(ToolError::Failed("no answer was given (empty reply)".to_owned()));
    }
    Ok(resolve(answer.as_str(), options))
}

/// The number shown beside an option selects it.
pub proof fn law_shown_number_selects(options: Seq<Seq<char>>, i: int)
    requires
        0 <= i < options.len(),
        options.len() <= u64::MAX,
    ensures
        meant(dec((i + 1) as nat), options) == options[i],
{
    crate::text::lemma_decimal_reads_back((i + 1) as nat);
    let d = dec((i + 1) as nat);
    assert(d[0] != '+');
}

} // verus!
