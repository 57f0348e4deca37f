//! Generation engine state machine: one request runs prefill and then an
//! autoregressive decode loop. Each decode step samples a token at the current
//! position; the end-of-sequence marker ends the run without emitting its
//! text, a token whose surface text cannot be decoded is skipped, a failed
//! batch submission is fatal, and the run also ends when the position reaches
//! the new-token target. The engine calls themselves (sampling, batch
//! submission) happen outside; this machine fixes every decision between
//! them.

use vstd::prelude::*;

use vstd::string::StringExecFns;

verus! {

/// The fatal failures of one generation request.
#[derive(Clone, Copy, Debug, PartialEq, Eq, Structural)]
pub enum GenError {
    /// The prompt could not be tokenized.
    Tokenize,
    /// The engine context could not be created.
    ContextCreation,
    /// A batch submission or decode call failed.
    Decode,
    /// The request started with no active position to sample from.
    NoActivePosition,
}

/// Where a request stands.
#[derive(Clone, Copy, Debug, PartialEq, Eq, Structural)]
pub enum GenStatus {
    /// The decode loop may take further steps.
    Running,
    /// The model emitted the end-of-sequence marker.
    DoneEos,
    /// The position reached the new-token target.
    DoneMaxLen,
    /// A fatal failure ended the request.
    Failed(GenError),
}

/// What the driver must do next.
#[derive(Clone, Copy, Debug, PartialEq, Eq, Structural)]
pub enum StepAction {
    /// Sample one token at the current position and report it back.
    Sample,
    /// The run is over; collect the result.
    Finish,
}

/// The mathematical value of a `DecodeState`.
pub ghost struct DecodeModel {
    pub pos: nat,
    pub n_len: nat,
    pub started: nat,
    pub output: Seq<char>,
    pub status: GenStatus,
}

/// One decode-loop event, as the driver observes it: either the sampled token
/// was the end-of-sequence marker, or it was an ordinary token with its
/// surface text (`None` when the text could not be decoded) and the outcome
/// of resubmitting it to the engine.
pub ghost enum GenEvent {
    Eos,
    Token { piece: Option<Seq<char>>, submit_ok: bool },
}

/// One iteration of the decode loop on the model: nothing moves once the run
/// is over; a position at the target ends the run as `DoneMaxLen`; the
/// end-of-sequence marker ends it as `DoneEos` and emits nothing; an ordinary
/// token appends its surface text (nothing when undecodable) and either
/// advances the position or, on a failed submission, ends the run as failed.
pub open spec fn step_model(m: DecodeModel, ev: GenEvent) -> DecodeModel {
    if !(m.status is Running) {
        m
    } else if m.pos >= m.n_len {
        DecodeModel { status: GenStatus::DoneMaxLen, ..m }
    } else {
        match ev {
            GenEvent::Eos => DecodeModel { status: GenStatus::DoneEos, ..m },
            GenEvent::Token { piece, submit_ok } => {
                let out2 = m.output + match piece {
                    Option::Some(p) => p,
                    Option::None => Seq::empty(),
                };
                if submit_ok {
                    DecodeModel { pos: m.pos + 1, output: out2, ..m }
                } else {
                    DecodeModel { output: out2, status: GenStatus::Failed(GenError::Decode), ..m }
                }
            },
        }
    }
}

/// The model after a sequence of decode-loop events.
pub open spec fn run_model(m: DecodeModel, evs: Seq<GenEvent>) -> DecodeModel
    decreases evs.len(),
{
    if evs.len() == 0 {
        m
    } else {
        run_model(step_model(m, evs[0]), evs.skip(1))
    }
}

/// The text that a run over `evs` appends to the output of `m`: the surface
/// text of each ordinary token consumed while the run still moves. The
/// end-of-sequence marker and undecodable tokens contribute nothing.
pub open spec fn applied_pieces(m: DecodeModel, evs: Seq<GenEvent>) -> Seq<char>
    decreases evs.len(),
{
    if evs.len() == 0 {
        Seq::empty()
    } else {
        let piece_text: Seq<char> = if m.status is Running && m.pos < m.n_len {
            match evs[0] {
                GenEvent::Eos => Seq::empty(),
                GenEvent::Token { piece, submit_ok } => match piece {
                    Option::Some(p) => p,
                    Option::None => Seq::empty(),
                },
            }
        } else {
            Seq::empty()
        };
        piece_text + applied_pieces(step_model(m, evs[0]), evs.skip(1))
    }
}

/// Law: the decode loop does bounded work. However many events arrive, the
/// position never passes the new-token target (or stays put if it began
/// beyond it), so a run takes at most `n_len` steps past a position that
/// started at least at 1.
pub proof fn lemma_decode_bounded(m: DecodeModel, evs: Seq<GenEvent>)
    ensures
        run_model(m, evs).pos <= if m.pos >= m.n_len {
            m.pos
        } else {
            m.n_len
        },
        run_model(m, evs).pos >= m.pos,
        run_model(m, evs).n_len == m.n_len,
        run_model(m, evs).started == m.started,
    decreases evs.len(),
{
    if evs.len() > 0 {
        lemma_decode_bounded(step_model(m, evs[0]), evs.skip(1));
    }
}

/// Law: the decode loop terminates. Once the events outnumber the remaining
/// budget, the run is over: after at most `n_len - pos + 1` events (one, if
/// the position began at or past the target) the status has left `Running`.
pub proof fn lemma_decode_terminates(m: DecodeModel, evs: Seq<GenEvent>)
    requires
        evs.len() >= if m.pos >= m.n_len {
            1int
        } else {
            m.n_len - m.pos + 1
        },
    ensures
        !(run_model(m, evs).status is Running),
    decreases evs.len(),
{
    if m.status is Running {
        let m2 = step_model(m, evs[0]);
        if m2.status is Running {
            lemma_decode_terminates(m2, evs.skip(1));
        } else {
            lemma_status_stays(m2, evs.skip(1));
        }
    } else {
        lemma_status_stays(m, evs);
    }
}

/// A run that is over stays over, with nothing changed.
pub proof fn lemma_status_stays(m: DecodeModel, evs: Seq<GenEvent>)
    requires
        !(m.status is Running),
    ensures
        run_model(m, evs) == m,
    decreases evs.len(),
{
    if evs.len() > 0 {
        lemma_status_stays(step_model(m, evs[0]), evs.skip(1));
    }
}

/// Law: the output is exactly the concatenation of the surface text of the
/// ordinary tokens the run consumed. In particular the end-of-sequence
/// marker's text is never appended: an `Eos` event contributes nothing.
pub proof fn lemma_output_is_applied_pieces(m: DecodeModel, evs: Seq<GenEvent>)
    ensures
        run_model(m, evs).output == m.output + applied_pieces(m, evs),
    decreases evs.len(),
{
    if evs.len() == 0 {
        assert(m.output + applied_pieces(m, evs) =~= m.output);
    } else {
        let m2 = step_model(m, evs[0]);
        lemma_output_is_applied_pieces(m2, evs.skip(1));
        assert(m.output + applied_pieces(m, evs) =~= m2.output + applied_pieces(m2, evs.skip(1)));
    }
}

/// The decode state of one generation request.
#[derive(Debug)]
pub struct DecodeState {
    pos: usize,
    n_len: usize,
    started: usize,
    output: String,
    status: GenStatus,
}

impl View for DecodeState {
    type V = DecodeModel;

    closed spec fn view(&self) -> DecodeModel {
        DecodeModel {
            pos: self.pos as nat,
            n_len: self.n_len as nat,
            started: self.started as nat,
            output: self.output@,
            status: self.status,
        }
    }
}

impl DecodeState {
    /// The position never falls behind where it started, and the new-token
    /// target never moves.
    pub open spec fn inv(&self) -> bool {
        self@.started <= self@.pos
    }

    /// A fresh state after prefill: the position starts at the prompt length.
    /// A prompt of no tokens leaves no position to sample from and fails at
    /// once; otherwise the run is live.
    pub fn new(prompt_tokens: usize, n_len: usize) -> (st: DecodeState)
        ensures
            st.inv(),
            st@.pos == prompt_tokens,
            st@.n_len == n_len,
            st@.started == prompt_tokens,
            st@.output == Seq::<char>::empty(),
            st@.status == if prompt_tokens == 0 {
                GenStatus::Failed(GenError::NoActivePosition)
            } else {
                GenStatus::Running
            },
    {
        let status = if prompt_tokens == 0 {
            GenStatus::Failed(GenError::NoActivePosition)
        } else {
            GenStatus::Running
        };
        DecodeState { pos: prompt_tokens, n_len, started: prompt_tokens, output: String::new(), status }
    }

    /// What the driver must do next: sample while the run is live and the
    /// position is under the target, finish otherwise.
    pub fn next_action(&self) -> (a: StepAction)
        ensures
            a == if self@.status is Running && self@.pos < self@.n_len {
                StepAction::Sample
            } else {
                StepAction::Finish
            },
    {
        if matches!(self.status, GenStatus::Running) && self.pos < self.n_len {
            StepAction::Sample
        } else {
            StepAction::Finish
        }
    }

    /// The sampled token was the end-of-sequence marker: the run completes
    /// and its text is not emitted.
    pub fn on_eos(&mut self)
        requires
            old(self).inv(),
            old(self)@.status is Running,
            old(self)@.pos < old(self)@.n_len,
        ensures
            final(self).inv(),
            final(self)@ == step_model(old(self)@, GenEvent::Eos),
            final(self)@.output == old(self)@.output,
            final(self)@.status == GenStatus::DoneEos,
    {
        self.status = GenStatus::DoneEos;
    }

    /// The sampled token was an ordinary token: append its surface text
    /// (`None` — the text could not be decoded — appends nothing and is not
    /// fatal), then either advance past the resubmitted token or, when the
    /// submission failed, end the run as failed.
    pub fn on_token(&mut self, piece: Option<&str>, submit_ok: bool)
        requires
            old(self).inv(),
            old(self)@.status is Running,
            old(self)@.pos < old(self)@.n_len,
        ensures
            final(self).inv(),
            final(self)@ == step_model(
                old(self)@,
                GenEvent::Token {
                    piece: match piece {
                        Option::Some(p) => Option::Some(p@),
                        Option::None => Option::None,
                    },
                    submit_ok: submit_ok,
                },
            ),
    {
        match piece {
            Option::Some(p) => {
                self.output.append(p);
            },
            Option::None => {
                proof {
                    assert(self.output@ + Seq::<char>::empty() =~= self.output@);
                }
            },
        }
        if submit_ok {
            self.pos = self.pos + 1;
        } else {
            self.status = GenStatus::Failed(GenError::Decode);
        }
    }

    /// Reached when the driver sees `Finish` while the run is still live: the
    /// position is at the target, and the run completes as `DoneMaxLen`.
    pub fn on_budget_exhausted(&mut self)
        requires
            old(self).inv(),
            old(self)@.status is Running,
            old(self)@.pos >= old(self)@.n_len,
        ensures
            final(self).inv(),
            final(self)@.status == GenStatus::DoneMaxLen,
            final(self)@.output == old(self)@.output,
            final(self)@.pos == old(self)@.pos,
            final(self)@.n_len == old(self)@.n_len,
            final(self)@.started == old(self)@.started,
    {
        self.status = GenStatus::DoneMaxLen;
    }

    /// How many tokens the run has decoded so far.
    pub fn decoded_count(&self) -> (n: usize)
        requires
            self.inv(),
        ensures
            n == self@.pos - self@.started,
    {
        self.pos - self.started
    }

    /// The status of the run.
    pub fn status(&self) -> (s: GenStatus)
        ensures
            s == self@.status,
    {
        self.status
    }

    /// The result of a finished run: the accumulated text on completion, the
    /// fatal error otherwise.
    pub fn take_result(self) -> (r: Result<String, GenError>)
        requires
            !(self@.status is Running),
        ensures
            self@.status is DoneEos || self@.status is DoneMaxLen ==> (r matches Ok(s) && s@
                == self@.output),
            self@.status matches GenStatus::Failed(e) ==> r == Result::<String, GenError>::Err(e),
    {
        match self.status {
            GenStatus::Running => Err(GenError::Decode),
            GenStatus::DoneEos => Ok(self.output),
            GenStatus::DoneMaxLen => Ok(self.output),
            GenStatus::Failed(e) => Err(e),
        }
    }
}

/// One slot of the prefill batch: a token's position and whether it is the
/// final, active one.
#[derive(Clone, Copy, Debug, PartialEq, Eq, Structural)]
pub struct BatchSlot {
    pub pos: usize,
    pub last: bool,
}

/// The prefill layout for a prompt of `token_count` tokens: the whole prompt
/// goes into one batch at increasing positions starting from 0, and exactly
/// the final token is marked active.
pub fn prefill_layout(token_count: usize) -> (v: Vec<BatchSlot>)
    requires
        token_count >= 1,
    ensures
        v@.len() == token_count,
        forall|i: int|
            0 <= i < token_count ==> (#[trigger] v@[i]).pos == i && (v@[i].last <==> i + 1
                == token_count),
{
    let mut v: Vec<BatchSlot> = Vec::new();
    let mut i: usize = 0;
    while i < token_count
        invariant
            i <= token_count,
            v@.len() == i,
            forall|j: int|
                0 <= j < i ==> (#[trigger] v@[j]).pos == j && (v@[j].last <==> j + 1
                    == token_count),
        decreases token_count - i,
    {
        v.push(BatchSlot { pos: i, last: i + 1 == token_count });
        i = i + 1;
    }
    v
}

} // verus!
