//! Prompt builder: linearizes the directive and a history snapshot into the
//! single prompt string handed to the engine. Each turn renders as
//! `"<role>: <content>"` on its own line, the directive occupies the earliest
//! position as a system line, and a trailing `"Assistant:"` line marks the
//! generation cursor. A pure function of its inputs: identical inputs always
//! yield the identical string.

use vstd::prelude::*;

use crate::history::Message;
use crate::history::MessageModel;
use crate::history::Role;
use crate::history::msgs_view;
use vstd::string::StringExecFns;

verus! {

/// The textual label of a role.
pub open spec fn role_label(r: Role) -> Seq<char> {
    match r {
        Role::System => "system"@,
        Role::User => "user"@,
        Role::Assistant => "assistant"@,
    }
}

/// One rendered turn: `"<role>: <content>"`.
pub open spec fn render_msg(m: MessageModel) -> Seq<char> {
    role_label(m.role) + ": "@ + m.content
}

/// The rendered turns of `ms`, each preceded by a newline.
pub open spec fn render_rest(ms: Seq<MessageModel>) -> Seq<char>
    decreases ms.len(),
{
    if ms.len() == 0 {
        Seq::empty()
    } else {
        render_rest(ms.drop_last()) + "\n"@ + render_msg(ms.last())
    }
}

/// The full prompt: the directive as the earliest (system) line, the history
/// in order, one line per turn, and the trailing generation cursor.
pub open spec fn prompt_spec(directive: Seq<char>, ms: Seq<MessageModel>) -> Seq<char> {
    render_msg(MessageModel { role: Role::System, content: directive }) + render_rest(ms)
        + "\nAssistant:"@
}

/// The textual label of a role.
pub fn role_str(r: Role) -> (s: &'static str)
    ensures
        s@ == role_label(r),
{
    match r {
        Role::System => "system",
        Role::User => "user",
        Role::Assistant => "assistant",
    }
}

/// Renders the prompt for the given directive and history snapshot.
#[verifier::loop_isolation(false)]
pub fn build_prompt(directive: &str, msgs: &Vec<Message>) -> (r: String)
    ensures
        r@ == prompt_spec(directive@, msgs_view(msgs@)),
{
    let ghost models = msgs_view(msgs@);
    let mut out = String::new();
    out.append(role_str(Role::System));
    out.append(": ");
    out.append(directive);
    proof {
        assert(out@ =~= render_msg(MessageModel { role: Role::System, content: directive@ }));
        assert(out@ + render_rest(models.take(0)) =~= out@);
    }
    let ghost head = out@;
    let mut i: usize = 0;
    while i < msgs.len()
        invariant
            i <= msgs@.len(),
            out@ == head + render_rest(models.take(i as int)),
        decreases msgs@.len() - i,
    {
        out.append("\n");
        out.append(role_str(msgs[i].role));
        out.append(": ");
        out.append(msgs[i].content.as_str());
        proof {
            assert(models[i as int] == msgs@[i as int]@);
            assert(models.take(i + 1).drop_last() =~= models.take(i as int));
            assert(models.take(i + 1).last() == models[i as int]);
            assert(out@ =~= head + (render_rest(models.take(i as int)) + "\n"@ + render_msg(
                models[i as int],
            )));
        }
        i = i + 1;
    }
    proof {
        assert(models.take(msgs@.len() as int) =~= models);
    }
    out.append("\nAssistant:");
    out
}

} // verus!
