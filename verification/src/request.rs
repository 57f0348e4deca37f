//! The history glue of one generation request: the user's turn joins the
//! history (with window truncation) before generation, the prompt is built
//! from the directive and the updated log, and a successful, non-empty
//! response joins the history afterwards as the assistant's turn. A fatal
//! generation failure leaves the user's turn recorded: the turn is appended
//! before generation is attempted and is not rolled back.

use vstd::prelude::*;

use crate::history::ChatHistory;
use crate::history::Message;
use crate::history::MessageModel;
use crate::history::Role;
use crate::history::push_bounded;
use crate::prompt::build_prompt;
use crate::prompt::prompt_spec;
use vstd::string::StrSliceExecFns;
use vstd::string::StringExecFns;

verus! {

/// Appends the user's turn to the history and renders the prompt for it:
/// the directive first, then the updated log in order, then the generation
/// cursor.
pub fn begin_request(h: &mut ChatHistory, user_input: &str) -> (prompt: String)
    requires
        old(h).inv(),
    ensures
        final(h).inv(),
        final(h)@ == push_bounded(
            old(h)@,
            MessageModel { role: Role::User, content: user_input@ },
            old(h).win(),
        ),
        final(h).win() == old(h).win(),
        final(h).directive_view() == old(h).directive_view(),
        prompt@ == prompt_spec(old(h).directive_view(), final(h)@),
{
    let m = Message { role: Role::User, content: user_input.to_owned() };
    h.append(m);
    let snap = h.snapshot();
    build_prompt(h.directive().as_str(), &snap)
}

/// Records a finished generation: a non-empty response joins the history as
/// the assistant's turn (with window truncation); an empty one changes
/// nothing.
pub fn record_response(h: &mut ChatHistory, response: &str)
    requires
        old(h).inv(),
    ensures
        final(h).inv(),
        final(h)@ == if response@.len() > 0 {
            push_bounded(
                old(h)@,
                MessageModel { role: Role::Assistant, content: response@ },
                old(h).win(),
            )
        } else {
            old(h)@
        },
        final(h).win() == old(h).win(),
        final(h).directive_view() == old(h).directive_view(),
{
    if response.unicode_len() > 0 {
        h.append(Message { role: Role::Assistant, content: response.to_owned() });
    }
}

/// The reply delivered for one question: who asked, the question as they
/// wrote it, and the generated answer.
pub open spec fn composed_reply(asker: Seq<char>, question: Seq<char>, answer: Seq<char>) -> Seq<
    char,
> {
    "**"@ + asker + " asked:** "@ + question + "\n\n**AI Response:** "@ + answer
}

/// Renders the reply for one question as `composed_reply` lays it out.
pub fn compose_reply(asker: &str, question: &str, answer: &str) -> (r: String)
    ensures
        r@ == composed_reply(asker@, question@, answer@),
{
    let mut out = String::new();
    out.append("**");
    out.append(asker);
    out.append(" asked:** ");
    out.append(question);
    out.append("\n\n**AI Response:** ");
    out.append(answer);
    proof {
        assert(out@ =~= composed_reply(asker@, question@, answer@));
    }
    out
}

} // verus!
