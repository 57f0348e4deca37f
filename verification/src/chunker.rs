//! Chunker: splits long output into transport-sized pieces, preferring word
//! boundaries. While the remaining text exceeds the limit, the piece ends at
//! the last whitespace within the limit (trimming whitespace around the split
//! point), or exactly at the limit when the window holds no whitespace; the
//! final remainder is emitted unconditionally.

use vstd::prelude::*;

use crate::text::all_space;
use crate::text::is_space;
use crate::text::is_space_char;
use crate::text::lemma_trim_end_at;
use crate::text::lemma_trim_end_props;
use crate::text::lemma_trim_start_at;
use crate::text::lemma_trim_start_props;
use crate::text::trim_end_spec;
use crate::text::trim_start_spec;
use crate::text::views;
use vstd::string::StrSliceExecFns;
use vstd::string::StringExecFns;

verus! {

/// The largest index `i < k` such that `s[i]` is whitespace, or -1 if the
/// first `k` characters hold none.
pub open spec fn last_space_before(s: Seq<char>, k: nat) -> int
    recommends
        k <= s.len(),
    decreases k,
{
    if k == 0 {
        -1
    } else if is_space(s[k - 1]) {
        k - 1
    } else {
        last_space_before(s, (k - 1) as nat)
    }
}

proof fn lemma_last_space_before_range(s: Seq<char>, k: nat)
    requires
        k <= s.len(),
    ensures
        last_space_before(s, k) >= 0 ==> {
            &&& last_space_before(s, k) < k
            &&& is_space(s[last_space_before(s, k)])
        },
    decreases k,
{
    if k > 0 && !is_space(s[k - 1]) {
        lemma_last_space_before_range(s, (k - 1) as nat);
    }
}

/// The split of `s` into pieces of at most `max` characters.
pub open spec fn split_spec(s: Seq<char>, max: nat) -> Seq<Seq<char>>
    decreases s.len(),
        when max >= 1
    via split_spec_decreases
{
    if s.len() == 0 {
        Seq::empty()
    } else if s.len() <= max {
        seq![s]
    } else {
        let p = last_space_before(s, max);
        let cut = if p >= 0 {
            p
        } else {
            max as int
        };
        seq![trim_end_spec(s.take(cut))] + split_spec(trim_start_spec(s.skip(cut)), max)
    }
}

#[via_fn]
proof fn split_spec_decreases(s: Seq<char>, max: nat) {
    if s.len() > max {
        lemma_last_space_before_range(s, max);
        let p = last_space_before(s, max);
        let cut = if p >= 0 {
            p
        } else {
            max as int
        };
        lemma_trim_start_props(s.skip(cut));
        if p >= 0 {
            assert(s.skip(cut)[0] == s[cut]);
        }
    }
}

/// Law: every piece of the split fits under the limit.
pub proof fn lemma_split_pieces_fit(s: Seq<char>, max: nat)
    requires
        max >= 1,
    ensures
        forall|i: int|
            0 <= i < split_spec(s, max).len() ==> #[trigger] split_spec(s, max)[i].len() <= max,
    decreases s.len(),
{
    if s.len() == 0 {
    } else if s.len() <= max {
    } else {
        lemma_last_space_before_range(s, max);
        let p = last_space_before(s, max);
        let cut = if p >= 0 {
            p
        } else {
            max as int
        };
        lemma_trim_end_props(s.take(cut));
        lemma_trim_start_props(s.skip(cut));
        if p >= 0 {
            assert(s.skip(cut)[0] == s[cut]);
        }
        let rest = trim_start_spec(s.skip(cut));
        lemma_split_pieces_fit(rest, max);
        assert forall|i: int| 0 <= i < split_spec(s, max).len() implies #[trigger] split_spec(
            s,
            max,
        )[i].len() <= max by {
            if i == 0 {
                assert(split_spec(s, max)[0] == trim_end_spec(s.take(cut)));
            } else {
                assert(split_spec(s, max)[i] == split_spec(rest, max)[i - 1]);
            }
        }
    }
}

/// The pieces of `pieces`, each followed by the gap of `gaps` with the same
/// index, concatenated in order.
pub open spec fn joined_with(pieces: Seq<Seq<char>>, gaps: Seq<Seq<char>>) -> Seq<char>
    recommends
        pieces.len() == gaps.len(),
    decreases pieces.len(),
{
    if pieces.len() == 0 {
        Seq::empty()
    } else {
        pieces[0] + gaps[0] + joined_with(pieces.drop_first(), gaps.drop_first())
    }
}

/// Law: splitting loses only whitespace at the split points. There is one
/// whitespace-only (possibly empty) gap after each piece such that the
/// pieces and gaps, interleaved in order, rebuild the input exactly.
pub proof fn lemma_split_reconstructs(s: Seq<char>, max: nat)
    requires
        max >= 1,
    ensures
        exists|gaps: Seq<Seq<char>>|
            {
                &&& gaps.len() == split_spec(s, max).len()
                &&& (forall|i: int| 0 <= i < gaps.len() ==> all_space(#[trigger] gaps[i]))
                &&& joined_with(split_spec(s, max), gaps) == s
            },
    decreases s.len(),
{
    if s.len() == 0 {
        let gaps: Seq<Seq<char>> = Seq::empty();
        assert(joined_with(split_spec(s, max), gaps) =~= s);
        assert({
            &&& gaps.len() == split_spec(s, max).len()
            &&& (forall|i: int| 0 <= i < gaps.len() ==> all_space(#[trigger] gaps[i]))
            &&& joined_with(split_spec(s, max), gaps) == s
        });
    } else if s.len() <= max {
        let gaps: Seq<Seq<char>> = seq![Seq::empty()];
        assert(all_space(gaps[0]));
        let pieces = split_spec(s, max);
        assert(pieces == seq![s]);
        assert(pieces.drop_first().len() == 0);
        assert(joined_with(pieces.drop_first(), gaps.drop_first()) == Seq::<char>::empty());
        assert(joined_with(pieces, gaps) == pieces[0] + gaps[0] + Seq::<char>::empty());
        assert(s + Seq::<char>::empty() + Seq::<char>::empty() =~= s);
        assert(pieces[0] == s && gaps[0] == Seq::<char>::empty());
        assert({
            &&& gaps.len() == split_spec(s, max).len()
            &&& (forall|i: int| 0 <= i < gaps.len() ==> all_space(#[trigger] gaps[i]))
            &&& joined_with(split_spec(s, max), gaps) == s
        });
    } else {
        lemma_last_space_before_range(s, max);
        let p = last_space_before(s, max);
        let cut = if p >= 0 {
            p
        } else {
            max as int
        };
        let head = s.take(cut);
        let tail = s.skip(cut);
        let piece = trim_end_spec(head);
        let rest = trim_start_spec(tail);
        lemma_trim_end_props(head);
        lemma_trim_start_props(tail);
        if p >= 0 {
            assert(tail[0] == s[cut]);
        }
        lemma_split_reconstructs(rest, max);
        let sub = choose|g: Seq<Seq<char>>|
            {
                &&& g.len() == split_spec(rest, max).len()
                &&& (forall|i: int| 0 <= i < g.len() ==> all_space(#[trigger] g[i]))
                &&& joined_with(split_spec(rest, max), g) == rest
            };
        // The gap after the first piece: the whitespace trimmed from the end
        // of the head plus the whitespace trimmed from the start of the tail.
        let gap = s.subrange(piece.len() as int, s.len() - rest.len());
        assert forall|i: int| 0 <= i < gap.len() implies is_space(#[trigger] gap[i]) by {
            let j = i + piece.len();
            if j < cut {
                assert(gap[i] == head[j]);
            } else {
                assert(gap[i] == tail[j - cut]);
                assert(j - cut < tail.len() - rest.len());
            }
        }
        let gaps = seq![gap] + sub;
        let pieces = split_spec(s, max);
        assert(pieces == seq![piece] + split_spec(rest, max));
        assert(pieces.drop_first() =~= split_spec(rest, max));
        assert(gaps.drop_first() =~= sub);
        assert(pieces[0] == piece);
        assert(gaps[0] == gap);
        assert(joined_with(pieces, gaps) == piece + gap + rest);
        assert(piece + gap + rest =~= s) by {
            assert(piece == head.take(piece.len() as int));
            assert(rest == tail.skip(tail.len() - rest.len()));
        }
        assert({
            &&& gaps.len() == split_spec(s, max).len()
            &&& (forall|i: int| 0 <= i < gaps.len() ==> all_space(#[trigger] gaps[i]))
            &&& joined_with(split_spec(s, max), gaps) == s
        });
    }
}

/// Splits `content` into pieces of at most `max_length` characters: while the
/// remainder is longer than the limit, the piece ends at the last whitespace
/// inside the limit (whitespace around the split point is dropped), or at
/// exactly the limit when no whitespace is in range; the final remainder is
/// one last piece. Empty input gives no pieces; input within the limit gives
/// exactly one.
#[verifier::loop_isolation(false)]
#[verifier::rlimit(60)]
pub fn split_message(content: &str, max_length: usize) -> (r: Vec<String>)
    requires
        max_length >= 1,
    ensures
        views(r@) == split_spec(content@, max_length as nat),
        forall|i: int| 0 <= i < r@.len() ==> #[trigger] r@[i]@.len() <= max_length,
        content@.len() == 0 ==> r@.len() == 0,
        0 < content@.len() <= max_length ==> r@.len() == 1 && r@[0]@ == content@,
{
    let n = content.unicode_len();
    let mut r: Vec<String> = Vec::new();
    let ghost max: nat = max_length as nat;
    let mut start: usize = 0;
    proof {
        assert(views(r@) =~= Seq::<Seq<char>>::empty());
        assert(content@.skip(0) =~= content@);
        assert(views(r@) + split_spec(content@, max) =~= split_spec(content@, max));
    }
    while start < n
        invariant
            start <= n,
            split_spec(content@, max) == views(r@) + split_spec(content@.skip(start as int), max),
        decreases n - start,
    {
        let ghost rem = content@.skip(start as int);
        assert(rem.len() == n - start);
        if n - start <= max_length {
            let piece = content.substring_char(start, n).to_owned();
            proof {
                assert(piece@ =~= rem);
                assert(split_spec(rem, max) == seq![rem]);
                assert(views(r@.push(piece)) =~= views(r@) + seq![rem]);
                assert(content@.skip(n as int) =~= Seq::<char>::empty());
                assert(views(r@) + seq![rem] + split_spec(content@.skip(n as int), max) =~= views(
                    r@.push(piece),
                ) + split_spec(content@.skip(n as int), max));
            }
            r.push(piece);
            start = n;
        } else {
            // Find the last whitespace inside content[start .. start + max_length).
            let mut k: usize = start + max_length;
            while k > start && !is_space_char(content.get_char(k - 1))
                invariant
                    start <= k <= start + max_length,
                    last_space_before(rem, max) == last_space_before(rem, (k - start) as nat),
                    forall|i: int|
                        k <= i < start + max_length ==> !is_space(#[trigger] content@[i]),
                decreases k - start,
            {
                proof {
                    assert(rem[k - 1 - start] == content@[k as int - 1]);
                }
                k = k - 1;
            }
            let ghost p = last_space_before(rem, max);
            let cut_abs: usize = if k > start {
                k - 1
            } else {
                start + max_length
            };
            proof {
                lemma_last_space_before_range(rem, max);
                if k > start {
                    assert(rem[k - 1 - start] == content@[k as int - 1]);
                    assert(is_space(rem[(k - start - 1) as int]));
                    assert(last_space_before(rem, (k - start) as nat) == k - start - 1);
                } else {
                    assert(p == last_space_before(rem, 0));
                    assert(p == -1);
                }
            }
            let ghost cut: int = cut_abs - start;
            proof {
                assert(cut == if p >= 0 {
                    p
                } else {
                    max as int
                });
                assert(split_spec(rem, max) == seq![trim_end_spec(rem.take(cut))] + split_spec(
                    trim_start_spec(rem.skip(cut)),
                    max,
                ));
            }
            // Trim trailing whitespace off the piece content[start .. cut_abs).
            let mut e: usize = cut_abs;
            while e > start && is_space_char(content.get_char(e - 1))
                invariant
                    start <= e <= cut_abs,
                    forall|i: int| e <= i < cut_abs ==> is_space(#[trigger] content@[i]),
                decreases e - start,
            {
                e = e - 1;
            }
            let piece = content.substring_char(start, e).to_owned();
            proof {
                let head = rem.take(cut);
                assert forall|i: int| e - start <= i < head.len() implies is_space(
                    #[trigger] head[i],
                ) by {
                    assert(head[i] == content@[i + start]);
                }
                if e > start {
                    assert(head[e - start - 1] == content@[e as int - 1]);
                }
                lemma_trim_end_at(head, e - start);
                assert(piece@ =~= head.take(e - start));
                assert(piece@ == trim_end_spec(head));
            }
            // Skip the whitespace that leads the remainder content[cut_abs .. n).
            let mut s2: usize = cut_abs;
            while s2 < n && is_space_char(content.get_char(s2))
                invariant
                    cut_abs <= s2 <= n,
                    forall|i: int| cut_abs <= i < s2 ==> is_space(#[trigger] content@[i]),
                decreases n - s2,
            {
                s2 = s2 + 1;
            }
            proof {
                let tail = rem.skip(cut);
                assert forall|i: int| 0 <= i < s2 - cut_abs implies is_space(
                    #[trigger] tail[i],
                ) by {
                    assert(tail[i] == content@[i + cut_abs]);
                }
                if s2 < n {
                    assert(tail[s2 - cut_abs] == content@[s2 as int]);
                }
                lemma_trim_start_at(tail, s2 - cut_abs);
                assert(tail.skip(s2 - cut_abs) =~= content@.skip(s2 as int));
                assert(trim_start_spec(tail) == content@.skip(s2 as int));
                assert(views(r@.push(piece)) =~= views(r@) + seq![piece@]);
                assert(views(r@) + (seq![trim_end_spec(rem.take(cut))] + split_spec(
                    trim_start_spec(rem.skip(cut)),
                    max,
                )) =~= (views(r@) + seq![trim_end_spec(rem.take(cut))]) + split_spec(
                    trim_start_spec(rem.skip(cut)),
                    max,
                ));
                if p >= 0 {
                    assert(is_space(rem[cut]));
                    assert(content@[cut_abs as int] == rem[cut]);
                }
            }
            r.push(piece);
            start = s2;
        }
    }
    proof {
        assert(content@.skip(n as int) =~= Seq::<char>::empty());
        assert(split_spec(content@, max) =~= views(r@));
        lemma_split_pieces_fit(content@, max);
        assert forall|i: int| 0 <= i < r@.len() implies #[trigger] r@[i]@.len() <= max_length by {
            assert(views(r@)[i] == r@[i]@);
        }
        if 0 < content@.len() <= max_length {
            assert(views(r@) == seq![content@]);
            assert(r@[0]@ == views(r@)[0]);
        }
    }
    r
}

} // verus!
