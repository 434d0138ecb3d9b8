//! Choosing the conversations with the most bytes for the report.
use vstd::prelude::*;
use crate::conversation::Conversation;

verus! {

/// How many conversations the report lists.
pub const TOP_TALKERS: usize = 5;

/// Where `c` goes among `s` from index `j` on: before the first entry with
/// fewer bytes, so after every earlier entry with as many or more.
pub open spec fn insert_pos_from(s: Seq<Conversation>, c: Conversation, j: int) -> int
    decreases s.len() - j,
{
    if j < 0 || j >= s.len() {
        s.len() as int
    } else if s[j].bytes < c.bytes {
        j
    } else {
        insert_pos_from(s, c, j + 1)
    }
}

/// `s` after `c` is placed by bytes, keeping at most [`TOP_TALKERS`] entries.
pub open spec fn insert_top(s: Seq<Conversation>, c: Conversation) -> Seq<Conversation> {
    let t = s.insert(insert_pos_from(s, c, 0), c);
    if t.len() > TOP_TALKERS { t.drop_last() } else { t }
}

/// The top conversations of `es`: sorted by bytes, most first, ties in the
/// order of `es`, at most [`TOP_TALKERS`] of them.
pub open spec fn top_spec(es: Seq<Conversation>) -> Seq<Conversation>
    decreases es.len(),
{
    if es.len() == 0 {
        Seq::empty()
    } else {
        insert_top(top_spec(es.drop_last()), es.last())
    }
}

/// Bytes never increase along `s`.
pub open spec fn sorted_by_bytes(s: Seq<Conversation>) -> bool {
    forall|i: int, j: int| 0 <= i < j < s.len() ==> s[i].bytes >= s[j].bytes
}

proof fn lemma_insert_pos(s: Seq<Conversation>, c: Conversation, j: int)
    requires
        0 <= j <= s.len(),
    ensures
        j <= insert_pos_from(s, c, j) <= s.len(),
        forall|k: int| j <= k < insert_pos_from(s, c, j) ==> s[k].bytes >= c.bytes,
        insert_pos_from(s, c, j) < s.len() ==> s[insert_pos_from(s, c, j)].bytes < c.bytes,
    decreases s.len() - j,
{
    if j < s.len() && s[j].bytes >= c.bytes {
        lemma_insert_pos(s, c, j + 1);
    }
}

proof fn lemma_insert_top(s: Seq<Conversation>, c: Conversation)
    requires
        sorted_by_bytes(s),
        s.len() <= TOP_TALKERS,
    ensures
        sorted_by_bytes(insert_top(s, c)),
        insert_top(s, c).len() == if s.len() < TOP_TALKERS { s.len() + 1int } else { TOP_TALKERS as int },
{
    lemma_insert_pos(s, c, 0);
    let p = insert_pos_from(s, c, 0);
    let t = s.insert(p, c);
    assert forall|i: int, j: int| 0 <= i < j < t.len() implies t[i].bytes >= t[j].bytes by {
        if j < p {
        } else if j == p {
        } else if i < p {
            assert(s[i].bytes >= c.bytes);
            assert(t[j] == s[j - 1]);
            assert(p < s.len());
            assert(s[p].bytes >= s[j - 1].bytes);
        } else if i == p {
            assert(s[p].bytes >= s[j - 1].bytes);
        } else {
        }
    }
}

/// The report's conversations are never more than [`TOP_TALKERS`] and go
/// from the most bytes to the fewest; there are fewer only when there are
/// fewer conversations.
pub proof fn lemma_top_shape(es: Seq<Conversation>)
    ensures
        sorted_by_bytes(top_spec(es)),
        top_spec(es).len() == if es.len() < TOP_TALKERS { es.len() as int } else { TOP_TALKERS as int },
    decreases es.len(),
{
    if es.len() > 0 {
        lemma_top_shape(es.drop_last());
        lemma_insert_top(top_spec(es.drop_last()), es.last());
    }
}

/// `x` is in `s`, or `s` is full and holds nothing with fewer bytes than `x`.
pub open spec fn covers(s: Seq<Conversation>, x: Conversation) -> bool {
    s.contains(x) || (s.len() == TOP_TALKERS && forall|j: int| 0 <= j < s.len() ==> s[j].bytes >= x.bytes)
}

proof fn lemma_insert_covers(s: Seq<Conversation>, c: Conversation, x: Conversation)
    requires
        sorted_by_bytes(s),
        s.len() <= TOP_TALKERS,
    ensures
        covers(insert_top(s, c), c),
        covers(s, x) ==> covers(insert_top(s, c), x),
{
    lemma_insert_pos(s, c, 0);
    let p = insert_pos_from(s, c, 0);
    let u = s.insert(p, c);
    let t = insert_top(s, c);
    assert(u[p] == c);
    if u.len() <= TOP_TALKERS {
        assert(t == u);
        assert(t.contains(c));
        if s.contains(x) {
            let i = choose|i: int| 0 <= i < s.len() && s[i] == x;
            if i < p {
                assert(t[i] == x);
            } else {
                assert(t[i + 1] == x);
            }
        }
    } else {
        assert(s.len() == TOP_TALKERS);
        assert(t =~= u.subrange(0, TOP_TALKERS as int));
        if p < TOP_TALKERS {
            assert(t[p] == c);
        } else {
            assert(t =~= s);
        }
        if covers(s, x) {
            if s.contains(x) {
                let i = choose|i: int| 0 <= i < s.len() && s[i] == x;
                if i < p {
                    assert(t[i] == x);
                } else if i + 1 < TOP_TALKERS {
                    assert(t[i + 1] == x);
                } else {
                    assert forall|j: int| 0 <= j < t.len() implies t[j].bytes >= x.bytes by {
                        if j < p {
                            assert(s[j].bytes >= s[i].bytes);
                        } else if j == p {
                            assert(s[p].bytes >= s[i].bytes);
                        } else {
                            assert(t[j] == s[j - 1]);
                            assert(s[j - 1].bytes >= s[i].bytes);
                        }
                    }
                }
            } else {
                assert forall|j: int| 0 <= j < t.len() implies t[j].bytes >= x.bytes by {
                    if j < p {
                        assert(t[j] == s[j]);
                    } else if j == p {
                        assert(s[p].bytes >= x.bytes);
                    } else {
                        assert(t[j] == s[j - 1]);
                    }
                }
            }
        }
    }
}

/// The report lists the heaviest conversations: each conversation of `es`
/// is listed, or the list is full and every listed conversation has at least
/// as many bytes.
pub proof fn lemma_top_selects(es: Seq<Conversation>)
    ensures
        forall|k: int| 0 <= k < es.len() ==> covers(top_spec(es), #[trigger] es[k]),
    decreases es.len(),
{
    if es.len() > 0 {
        let pre = es.drop_last();
        lemma_top_selects(pre);
        lemma_top_shape(pre);
        assert forall|k: int| 0 <= k < es.len() implies covers(top_spec(es), #[trigger] es[k]) by {
            lemma_insert_covers(top_spec(pre), es.last(), es[k]);
            if k < pre.len() {
                assert(pre[k] == es[k]);
            }
        }
    }
}

fn insert_pos(s: &Vec<Conversation>, c: &Conversation) -> (r: usize)
    ensures
        r == insert_pos_from(s@, *c, 0),
{
    let mut j: usize = 0;
    while j < s.len()
        invariant
            j <= s@.len(),
            insert_pos_from(s@, *c, 0) == insert_pos_from(s@, *c, j as int),
        decreases s@.len() - j,
    {
        if s[j].bytes < c.bytes {
            return j;
        }
        j = j + 1;
    }
    j
}

/// The conversations with the most bytes, most first; equal byte counts keep
/// their order in `entries`, which is the order they were first seen.
pub fn top_conversations(entries: &Vec<Conversation>) -> (r: Vec<Conversation>)
    ensures
        r@ == top_spec(entries@),
        sorted_by_bytes(r@),
        r@.len() == if entries@.len() < TOP_TALKERS { entries@.len() as int } else { TOP_TALKERS as int },
{
    let mut top: Vec<Conversation> = Vec::new();
    let mut i: usize = 0;
    while i < entries.len()
        invariant
            i <= entries@.len(),
            top@ == top_spec(entries@.subrange(0, i as int)),
            top@.len() <= TOP_TALKERS,
        decreases entries@.len() - i,
    {
        let c = entries[i];
        proof {
            let pre = entries@.subrange(0, i as int + 1);
            assert(pre.drop_last() =~= entries@.subrange(0, i as int));
            lemma_top_shape(entries@.subrange(0, i as int));
        }
        let p = insert_pos(&top, &c);
        proof {
            lemma_insert_pos(top@, c, 0);
        }
        top.insert(p, c);
        if top.len() > TOP_TALKERS {
            top.pop();
        }
        i = i + 1;
    }
    assert(entries@.subrange(0, entries@.len() as int) =~= entries@);
    proof {
        lemma_top_shape(entries@);
    }
    top
}

} // verus!
