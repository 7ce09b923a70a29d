//! Splitting an mbox text into its messages.
//!
//! A message starts at each line that begins with `From `; the marker itself
//! and everything before the first marker are not part of any message.
//! Lines inside a message body that begin with `From ` are not unescaped:
//! they start a new message, as real producers' files expect.
use vstd::prelude::*;

verus! {

/// Whether the marker `From ` starts a line at byte `i` of `s`.
pub open spec fn is_marker(s: Seq<u8>, i: int) -> bool {
    &&& 0 <= i
    &&& i + 5 <= s.len()
    &&& i == 0 || s[i - 1] == 10u8
    &&& s.subrange(i, i + 5) == seq![70u8, 114u8, 111u8, 109u8, 32u8]
}

/// The first marker at or after `f`, or the length of `s` if there is none.
pub open spec fn next_marker(s: Seq<u8>, f: int) -> int
    decreases s.len() - f,
{
    if f < 0 || f >= s.len() {
        s.len() as int
    } else if is_marker(s, f) {
        f
    } else {
        next_marker(s, f + 1)
    }
}

/// The messages of `s` from the marker at `i` on.
pub open spec fn messages_from(s: Seq<u8>, i: int) -> Seq<Seq<u8>>
    decreases s.len() - i,
{
    if 0 <= i && i + 5 <= s.len() {
        let e = next_marker(s, i + 5);
        let first = seq![s.subrange(i + 5, e)];
        if i + 5 <= e < s.len() {
            first + messages_from(s, e)
        } else {
            first
        }
    } else {
        Seq::empty()
    }
}

/// The messages of an mbox text, in order.
pub open spec fn mbox_messages(s: Seq<u8>) -> Seq<Seq<u8>> {
    let m = next_marker(s, 0);
    if m < s.len() {
        messages_from(s, m)
    } else {
        Seq::empty()
    }
}

proof fn lemma_next_marker(s: Seq<u8>, f: int)
    requires
        0 <= f,
    ensures
        f <= next_marker(s, f) || f > s.len(),
        next_marker(s, f) <= s.len(),
        next_marker(s, f) < s.len() ==> is_marker(s, next_marker(s, f)),
    decreases s.len() - f,
{
    if f < s.len() && !is_marker(s, f) {
        lemma_next_marker(s, f + 1);
    }
}

fn is_marker_at(s: &[u8], i: usize) -> (r: bool)
    ensures
        r == is_marker(s@, i as int),
{
    if i > s.len() || s.len() - i < 5 {
        return false;
    }
    if i > 0 && s[i - 1] != 10u8 {
        return false;
    }
    let r = s[i] == 70u8 && s[i + 1] == 114u8 && s[i + 2] == 111u8 && s[i + 3] == 109u8 && s[i
        + 4] == 32u8;
    proof {
        if r {
            assert(s@.subrange(i as int, i + 5) =~= seq![70u8, 114u8, 111u8, 109u8, 32u8]);
        } else {
            let m = s@.subrange(i as int, i + 5);
            assert(m[0] == s@[i as int] && m[1] == s@[i + 1] && m[2] == s@[i + 2] && m[3] == s@[i
                + 3] && m[4] == s@[i + 4]);
        }
    }
    r
}

fn find_marker(s: &[u8], f: usize) -> (r: usize)
    ensures
        r as int == next_marker(s@, f as int),
{
    if f >= s.len() {
        return s.len();
    }
    let mut i = f;
    while i < s.len()
        invariant
            f <= i <= s@.len(),
            next_marker(s@, f as int) == next_marker(s@, i as int),
        decreases s.len() - i,
    {
        if is_marker_at(s, i) {
            return i;
        }
        i = i + 1;
    }
    i
}

/// The span of the first message whose marker is at or after `from`, if
/// there is one. Starting at 0 and then at the end of each span returned
/// walks the messages one at a time, in order.
pub fn next_message(s: &[u8], from: usize) -> (r: Option<(usize, usize)>)
    ensures
        ({
            let m = next_marker(s@, from as int);
            if m < s@.len() {
                r == Some(((m + 5) as usize, next_marker(s@, m + 5) as usize))
            } else {
                r is None
            }
        }),
{
    let m = find_marker(s, from);
    if m < s.len() {
        proof {
            lemma_next_marker(s@, from as int);
        }
        Some((m + 5, find_marker(s, m + 5)))
    } else {
        None
    }
}

/// The byte spans of the messages of an mbox text: each message runs from
/// just after its `From ` marker up to the next marker or the end.
pub fn message_spans(s: &[u8]) -> (r: Vec<(usize, usize)>)
    ensures
        r@.len() == mbox_messages(s@).len(),
        forall|k: int|
            0 <= k < r@.len() ==> {
                let (b, e) = #[trigger] r@[k];
                &&& b <= e <= s@.len()
                &&& s@.subrange(b as int, e as int) == mbox_messages(s@)[k]
            },
{
    let ghost all = mbox_messages(s@);
    let mut out: Vec<(usize, usize)> = Vec::new();
    let mut m = find_marker(s, 0);
    proof {
        lemma_next_marker(s@, 0);
        if m < s.len() {
            assert(all == messages_from(s@, m as int));
        } else {
            assert(all == Seq::<Seq<u8>>::empty());
        }
    }
    while m < s.len()
        invariant
            m <= s@.len(),
            m < s@.len() ==> is_marker(s@, m as int),
            all == mbox_messages(s@),
            out@.len() + (if m < s@.len() { messages_from(s@, m as int) } else { Seq::empty() }).len()
                == all.len(),
            m < s@.len() ==> messages_from(s@, m as int) == all.subrange(
                out@.len() as int,
                all.len() as int,
            ),
            forall|k: int|
                0 <= k < out@.len() ==> {
                    let (b, e) = #[trigger] out@[k];
                    &&& b <= e <= s@.len()
                    &&& s@.subrange(b as int, e as int) == all[k]
                },
        decreases s.len() - m,
    {
        let e = find_marker(s, m + 5);
        proof {
            lemma_next_marker(s@, m + 5);
            let rest = messages_from(s@, m as int);
            assert(rest[0] == s@.subrange(m + 5, e as int));
            assert(all[out@.len() as int] == rest[0]);
            if e < s.len() {
                assert(rest == seq![s@.subrange(m + 5, e as int)] + messages_from(s@, e as int));
                assert(rest.subrange(1, rest.len() as int) =~= messages_from(s@, e as int));
                assert(messages_from(s@, e as int) =~= all.subrange(
                    out@.len() as int + 1,
                    all.len() as int,
                ));
            } else {
                assert(rest.len() == 1);
            }
        }
        out.push((m + 5, e));
        m = e;
    }
    out
}

/// An mbox text with no line that begins with `From ` holds no message.
pub proof fn lemma_no_marker_no_message(s: Seq<u8>)
    requires
        forall|i: int| !is_marker(s, i),
    ensures
        mbox_messages(s).len() == 0,
{
    lemma_next_marker(s, 0);
}

} // verus!
