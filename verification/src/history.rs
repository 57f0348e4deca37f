//! Chat history store: a bounded, ordered log of chat turns together with the
//! directive (system/mission text) that seeds every prompt. Appending past the
//! window drops the oldest turns; the directive is a separate field and is
//! never subject to window truncation.

use vstd::prelude::*;

verus! {

/// The role of one chat turn.
#[derive(Clone, Copy, Debug, PartialEq, Eq, Structural)]
pub enum Role {
    System,
    User,
    Assistant,
}

/// One chat turn, immutable once created.
#[derive(Debug)]
pub struct Message {
    pub role: Role,
    pub content: String,
}

/// The mathematical value of a `Message`.
pub ghost struct MessageModel {
    pub role: Role,
    pub content: Seq<char>,
}

impl View for Message {
    type V = MessageModel;

    open spec fn view(&self) -> MessageModel {
        MessageModel { role: self.role, content: self.content@ }
    }
}

impl Message {
    /// A copy with the same role and content.
    pub fn duplicate(&self) -> (m: Message)
        ensures
            m@ == self@,
    {
        Message { role: self.role, content: self.content.clone() }
    }
}

/// The models of a sequence of messages.
pub open spec fn msgs_view(s: Seq<Message>) -> Seq<MessageModel> {
    s.map_values(|m: Message| m@)
}

proof fn lemma_msgs_view_push(s: Seq<Message>, m: Message)
    ensures
        msgs_view(s.push(m)) == msgs_view(s).push(m@),
{
    assert forall|j: int| 0 <= j < s.len() + 1 implies #[trigger] msgs_view(s.push(m))[j]
        == msgs_view(s).push(m@)[j] by {
        if j < s.len() {
            assert(s.push(m)[j] == s[j]);
        }
    }
    assert(msgs_view(s.push(m)) =~= msgs_view(s).push(m@));
}

proof fn lemma_msgs_view_remove_first(s: Seq<Message>)
    requires
        s.len() > 0,
    ensures
        msgs_view(s.remove(0)) == msgs_view(s).skip(1),
{
    assert forall|j: int| 0 <= j < s.len() - 1 implies #[trigger] msgs_view(s.remove(0))[j]
        == msgs_view(s).skip(1)[j] by {
        assert(s.remove(0)[j] == s[j + 1]);
    }
    assert(msgs_view(s.remove(0)) =~= msgs_view(s).skip(1));
}

/// A log `s` after one bounded append of `m` under window `w`: the message
/// joins the tail, and the oldest entries are dropped until the length is
/// back within `w`.
pub open spec fn push_bounded(s: Seq<MessageModel>, m: MessageModel, w: nat) -> Seq<MessageModel> {
    let t = s.push(m);
    if t.len() <= w {
        t
    } else {
        t.skip(t.len() - w)
    }
}

/// A log after a sequence of bounded appends, oldest first.
pub open spec fn apply_appends(
    init: Seq<MessageModel>,
    msgs: Seq<MessageModel>,
    w: nat,
) -> Seq<MessageModel>
    decreases msgs.len(),
{
    if msgs.len() == 0 {
        init
    } else {
        push_bounded(apply_appends(init, msgs.drop_last(), w), msgs.last(), w)
    }
}

/// Appending is truncation of the full log: a sequence of bounded appends
/// leaves exactly the most recent `w` of all entries ever present, in order.
pub proof fn lemma_appends_keep_latest(init: Seq<MessageModel>, msgs: Seq<MessageModel>, w: nat)
    requires
        w >= 1,
        init.len() <= w,
    ensures
        apply_appends(init, msgs, w) == if init.len() + msgs.len() <= w {
            init + msgs
        } else {
            (init + msgs).skip(init.len() + msgs.len() - w)
        },
    decreases msgs.len(),
{
    if msgs.len() == 0 {
        assert(init + msgs =~= init);
    } else {
        lemma_appends_keep_latest(init, msgs.drop_last(), w);
        let all = init + msgs;
        let prev_all = init + msgs.drop_last();
        let prev = apply_appends(init, msgs.drop_last(), w);
        assert(prev_all.push(msgs.last()) =~= all);
        if prev_all.len() <= w {
            assert(prev.push(msgs.last()) =~= all);
            if all.len() > w {
                assert(all.len() == w + 1);
                assert(apply_appends(init, msgs, w) =~= all.skip(all.len() - w));
            }
        } else {
            assert(prev == prev_all.skip(prev_all.len() - w));
            assert(prev.len() == w);
            assert(prev.push(msgs.last()) =~= all.skip(prev_all.len() - w));
            assert(apply_appends(init, msgs, w) =~= all.skip(all.len() - w));
        }
    }
}

/// Law: after at least `w` appends, the history holds exactly the last `w`
/// appended messages, in their original order, whatever it held before.
pub proof fn lemma_window_retains_latest(init: Seq<MessageModel>, msgs: Seq<MessageModel>, w: nat)
    requires
        w >= 1,
        init.len() <= w,
        msgs.len() >= w,
    ensures
        apply_appends(init, msgs, w) == msgs.skip(msgs.len() - w),
{
    lemma_appends_keep_latest(init, msgs, w);
    let all = init + msgs;
    if all.len() > w {
        assert(all.skip(all.len() - w) =~= msgs.skip(msgs.len() - w));
    } else {
        assert(init.len() == 0 && msgs.len() == w);
        assert(init + msgs =~= msgs.skip(msgs.len() - w));
    }
}

/// The bounded, mutable conversation log plus the directive text.
pub struct ChatHistory {
    entries: Vec<Message>,
    directive: String,
    window: usize,
}

impl View for ChatHistory {
    type V = Seq<MessageModel>;

    closed spec fn view(&self) -> Seq<MessageModel> {
        msgs_view(self.entries@)
    }
}

impl ChatHistory {
    /// The store is well formed: a positive window that the log never exceeds.
    pub closed spec fn inv(&self) -> bool {
        self.window >= 1 && self.entries@.len() <= self.window
    }

    /// The window size.
    pub closed spec fn win(&self) -> nat {
        self.window as nat
    }

    /// The directive text.
    pub closed spec fn directive_view(&self) -> Seq<char> {
        self.directive@
    }

    /// A fresh, empty history with the given window and directive.
    pub fn new(window: usize, directive: String) -> (h: ChatHistory)
        requires
            window >= 1,
        ensures
            h.inv(),
            h@ == Seq::<MessageModel>::empty(),
            h.win() == window,
            h.directive_view() == directive@,
    {
        let h = ChatHistory { entries: Vec::new(), directive, window };
        proof {
            assert(h@ =~= Seq::<MessageModel>::empty());
        }
        h
    }

    /// How many turns the log holds.
    pub fn len(&self) -> (n: usize)
        ensures
            n == self@.len(),
    {
        self.entries.len()
    }

    /// The window size.
    pub fn window(&self) -> (w: usize)
        ensures
            w == self.win(),
    {
        self.window
    }

    /// The current directive text.
    pub fn directive(&self) -> (d: &String)
        ensures
            d@ == self.directive_view(),
    {
        &self.directive
    }

    /// Appends a turn at the tail; if the log then exceeds the window, the
    /// oldest entries are dropped until it is back at the window.
    pub fn append(&mut self, m: Message)
        requires
            old(self).inv(),
        ensures
            final(self).inv(),
            final(self)@ == push_bounded(old(self)@, m@, old(self).win()),
            final(self).win() == old(self).win(),
            final(self).directive_view() == old(self).directive_view(),
    {
        let ghost before = self@;
        let ghost grown_entries = self.entries@.push(m);
        proof {
            lemma_msgs_view_push(self.entries@, m);
        }
        self.entries.push(m);
        if self.entries.len() > self.window {
            let ghost grown = self@;
            proof {
                lemma_msgs_view_remove_first(self.entries@);
            }
            self.entries.remove(0);
            proof {
                assert(grown.len() == self.window + 1);
                assert(push_bounded(before, m@, old(self).win()) == grown.skip(
                    grown.len() - self.window,
                ));
            }
        }
    }

    /// An ordered copy of the log.
    pub fn snapshot(&self) -> (v: Vec<Message>)
        ensures
            msgs_view(v@) == self@,
    {
        let mut v: Vec<Message> = Vec::new();
        let mut i: usize = 0;
        proof {
            assert(msgs_view(v@) =~= self@.take(0));
        }
        while i < self.entries.len()
            invariant
                i <= self.entries@.len(),
                msgs_view(v@) == self@.take(i as int),
            decreases self.entries@.len() - i,
        {
            let m = self.entries[i].duplicate();
            proof {
                assert(m@ == self.entries@[i as int]@);
                assert(self@[i as int] == self.entries@[i as int]@);
                lemma_msgs_view_push(v@, m);
                assert(self@.take(i as int).push(self@[i as int]) =~= self@.take(i + 1));
            }
            v.push(m);
            i = i + 1;
        }
        proof {
            assert(self@.take(self.entries@.len() as int) =~= self@);
        }
        v
    }

    /// Drops the oldest entries until at most `limit` remain. A log already
    /// within `limit` is unchanged.
    pub fn truncate_to(&mut self, limit: usize)
        requires
            old(self).inv(),
        ensures
            final(self).inv(),
            final(self)@ == if old(self)@.len() <= limit {
                old(self)@
            } else {
                old(self)@.skip(old(self)@.len() - limit)
            },
            final(self).win() == old(self).win(),
            final(self).directive_view() == old(self).directive_view(),
    {
        let ghost orig = self@;
        proof {
            assert(orig.skip(0) =~= orig);
        }
        while self.entries.len() > limit
            invariant
                self.inv(),
                self.win() == old(self).win(),
                self.directive_view() == old(self).directive_view(),
                self@.len() <= orig.len(),
                self@ == orig.skip(orig.len() - self@.len()),
                orig.len() <= limit ==> self@.len() == orig.len(),
                orig.len() > limit ==> self@.len() >= limit,
            decreases self.entries@.len(),
        {
            let ghost cur = self@;
            proof {
                lemma_msgs_view_remove_first(self.entries@);
            }
            self.entries.remove(0);
            proof {
                assert(self@ == cur.skip(1));
                assert(orig.skip(orig.len() - cur.len()).skip(1) =~= orig.skip(
                    orig.len() - cur.len() + 1,
                ));
            }
        }
        proof {
            if orig.len() <= limit {
                assert(self@ =~= orig);
            }
        }
    }

    /// Clears the log, optionally seeding it with one message. The directive
    /// and the window stay as they are.
    pub fn reset(&mut self, seed: Option<Message>)
        requires
            old(self).inv(),
        ensures
            final(self).inv(),
            final(self)@ == match seed {
                Option::None => Seq::<MessageModel>::empty(),
                Option::Some(m) => seq![m@],
            },
            final(self).win() == old(self).win(),
            final(self).directive_view() == old(self).directive_view(),
    {
        self.entries.clear();
        proof {
            assert(self@ =~= Seq::<MessageModel>::empty());
        }
        match seed {
            Option::None => {},
            Option::Some(m) => {
                let ghost mm = m@;
                proof {
                    lemma_msgs_view_push(self.entries@, m);
                }
                self.entries.push(m);
                proof {
                    assert(self@ =~= seq![mm]);
                }
            },
        }
    }

    /// Replaces the directive and clears the log: a mission change starts a
    /// fresh conversation under the new directive.
    pub fn reset_with_directive(&mut self, directive: String)
        requires
            old(self).inv(),
        ensures
            final(self).inv(),
            final(self)@ == Seq::<MessageModel>::empty(),
            final(self).win() == old(self).win(),
            final(self).directive_view() == directive@,
    {
        self.entries.clear();
        self.directive = directive;
        proof {
            assert(self@ =~= Seq::<MessageModel>::empty());
        }
    }
}

} // verus!
