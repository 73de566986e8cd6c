//! Which parts of a file name the query matches.

use vstd::prelude::*;
use vstd::utf8::encode_utf8;

use crate::text::{lowercase, texts, to_lower};

verus! {

/// The bytes `p` stand in `s` at position `i`.
pub open spec fn bytes_at(s: Seq<u8>, p: Seq<u8>, i: int) -> bool {
    0 <= i && i + p.len() <= s.len() && s.subrange(i, i + p.len()) == p
}

/// Position `k` of the name is part of an occurrence of the token.
pub open spec fn covers(name: Seq<u8>, token: Seq<u8>, k: int) -> bool {
    exists|i: int| #[trigger] bytes_at(name, token, i) && i <= k < i + token.len()
}

/// The lower-case bytes of a text.
pub open spec fn lower_bytes(s: Seq<char>) -> Seq<u8> {
    encode_utf8(lowercase(s))
}

/// Position `k` of the lower-case name is part of an occurrence of one of the tokens.
pub open spec fn is_highlighted(name: Seq<char>, tokens: Seq<Seq<char>>, k: int) -> bool {
    exists|t: int|
        0 <= t < tokens.len() && covers(lower_bytes(name), lower_bytes(#[trigger] tokens[t]), k)
}

fn matches_at(s: &[u8], p: &[u8], i: usize) -> (r: bool)
    requires
        s@.len() == s.len(),
        i <= s@.len(),
    ensures
        r == bytes_at(s@, p@, i as int),
{
    if p.len() > s.len() - i {
        return false;
    }
    let mut k: usize = 0;
    while k < p.len()
        invariant
            k <= p@.len(),
            i + p@.len() <= s@.len(),
            s@.len() == s.len(),
            p@.len() == p.len(),
            forall|x: int| 0 <= x < k ==> s@[i + x] == p@[x],
        decreases p@.len() - k,
    {
        if s[i + k] != p[k] {
            assert(s@.subrange(i as int, i + p@.len())[k as int] != p@[k as int]);
            return false;
        }
        k = k + 1;
    }
    assert(s@.subrange(i as int, i + p@.len()) =~= p@);
    true
}

/// Marks the positions of the mask that occurrences of the token cover.
fn mark(mask: &mut Vec<bool>, name: &[u8], token: &[u8])
    requires
        name@.len() == name.len(),
        token@.len() == token.len(),
    ensures
        final(mask)@.len() == old(mask)@.len(),
        forall|k: int|
            0 <= k < old(mask)@.len() ==> #[trigger] final(mask)@[k] == (old(mask)@[k] || covers(
                name@,
                token@,
                k,
            )),
{
    let ghost before = mask@;
    let mut i: usize = 0;
    while i < name.len()
        invariant
            i <= name@.len(),
            name@.len() == name.len(),
            token@.len() == token.len(),
            mask@.len() == before.len(),
            forall|k: int|
                0 <= k < before.len() ==> #[trigger] mask@[k] == (before[k] || exists|x: int|
                    #[trigger] bytes_at(name@, token@, x) && x < i && x <= k < x + token@.len()),
        decreases name@.len() - i,
    {
        let ghost start = mask@;
        if matches_at(name, token, i) {
            let mut k: usize = 0;
            while k < token.len()
                invariant
                    k <= token@.len(),
                    token@.len() == token.len(),
                    i + token@.len() <= name@.len(),
                    name@.len() == name.len(),
                    mask@.len() == start.len(),
                    forall|x: int|
                        0 <= x < start.len() ==> #[trigger] mask@[x] == (start[x] || i <= x < i + k),
                decreases token@.len() - k,
            {
                if i + k < mask.len() {
                    mask.set(i + k, true);
                }
                k = k + 1;
            }
        }
        proof {
            assert forall|k: int| 0 <= k < before.len() implies #[trigger] mask@[k] == (before[k]
                || exists|x: int|
                #[trigger] bytes_at(name@, token@, x) && x < i + 1 && x <= k < x + token@.len()) by {
                if mask@[k] && !start[k] {
                    assert(bytes_at(name@, token@, i as int));
                }
            }
        }
        i = i + 1;
    }
    proof {
        assert forall|k: int| 0 <= k < before.len() implies #[trigger] mask@[k] == (before[k]
            || covers(name@, token@, k)) by {
            if covers(name@, token@, k) {
                let x = choose|x: int|
                    #[trigger] bytes_at(name@, token@, x) && x <= k < x + token@.len();
                assert(bytes_at(name@, token@, x) && x < i && x <= k < x + token@.len());
            }
        }
    }
}

/// Tells for each byte of the name whether it is highlighted for the tokens.
pub fn highlight_mask(name: &str, tokens: &Vec<String>) -> (r: Vec<bool>)
    ensures
        r@.len() == encode_utf8(name@).len(),
        forall|k: int|
            0 <= k < r@.len() ==> #[trigger] r@[k] == is_highlighted(name@, texts(tokens@), k),
{
    let lower = to_lower(name);
    let hay = lower.as_str().as_bytes();
    let n: usize = name.as_bytes().len();
    let mut mask: Vec<bool> = Vec::new();
    let mut i: usize = 0;
    while i < n
        invariant
            i <= n,
            mask@.len() == i,
            forall|k: int| 0 <= k < i ==> !(#[trigger] mask@[k]),
        decreases n - i,
    {
        mask.push(false);
        i = i + 1;
    }
    let ghost all = texts(tokens@);
    let mut t: usize = 0;
    while t < tokens.len()
        invariant
            t <= tokens@.len(),
            all == texts(tokens@),
            hay@ == lower_bytes(name@),
            mask@.len() == n,
            forall|k: int|
                0 <= k < n ==> #[trigger] mask@[k] == is_highlighted(name@, all.take(t as int), k),
        decreases tokens@.len() - t,
    {
        let ghost start = mask@;
        let tok = to_lower(tokens[t].as_str());
        let bytes = tok.as_str().as_bytes();
        assert(all[t as int] == tokens@[t as int]@);
        mark(&mut mask, hay, bytes);
        proof {
            let some = all.take(t as int);
            let more = all.take(t as int + 1);
            assert forall|k: int| 0 <= k < n implies #[trigger] mask@[k] == is_highlighted(
                name@,
                more,
                k,
            ) by {
                if is_highlighted(name@, some, k) {
                    let x = choose|x: int|
                        0 <= x < some.len() && covers(
                            lower_bytes(name@),
                            lower_bytes(#[trigger] some[x]),
                            k,
                        );
                    assert(more[x] == some[x]);
                }
                if covers(lower_bytes(name@), lower_bytes(all[t as int]), k) {
                    assert(more[t as int] == all[t as int]);
                }
                if is_highlighted(name@, more, k) {
                    let x = choose|x: int|
                        0 <= x < more.len() && covers(
                            lower_bytes(name@),
                            lower_bytes(#[trigger] more[x]),
                            k,
                        );
                    if x < t {
                        assert(some[x] == more[x]);
                    }
                }
                assert(start[k] == is_highlighted(name@, some, k));
            }
        }
        t = t + 1;
    }
    assert(all.take(t as int) =~= all);
    mask
}

/// A stretch of positions that are all highlighted, or all not.
#[derive(PartialEq, Eq, Structural, Clone, Copy, Debug)]
pub struct Segment {
    pub start: usize,
    pub end: usize,
    pub highlighted: bool,
}

/// The segments cover the mask one after the other, each as far as it goes.
pub open spec fn segments_cover(mask: Seq<bool>, r: Seq<Segment>) -> bool {
    &&& r.len() == 0 ==> mask.len() == 0
    &&& r.len() > 0 ==> r[0].start == 0 && r.last().end == mask.len()
    &&& forall|i: int| 0 <= i < r.len() ==> (#[trigger] r[i]).start < r[i].end
    &&& forall|i: int, j: int|
        0 <= i && j == i + 1 && j < r.len() ==> (#[trigger] r[i]).end == (
        #[trigger] r[j]).start && r[i].highlighted != r[j].highlighted
    &&& forall|i: int, k: int|
        0 <= i < r.len() && (#[trigger] r[i]).start <= k < r[i].end && k < mask.len() ==> (
        #[trigger] mask[k]) == r[i].highlighted
}

/// Splits a mask into stretches that are highlighted and stretches that are not.
pub fn segments(mask: &Vec<bool>) -> (r: Vec<Segment>)
    ensures
        segments_cover(mask@, r@),
{
    let mut r: Vec<Segment> = Vec::new();
    let mut start: usize = 0;
    while start < mask.len()
        invariant
            start <= mask@.len(),
            segments_cover(mask@.take(start as int), r@),
            0 < start < mask@.len() ==> r@.len() > 0 && r@.last().highlighted
                != mask@[start as int],
        decreases mask@.len() - start,
    {
        let ghost prev = r@;
        let on = mask[start];
        let mut end: usize = start + 1;
        while end < mask.len() && mask[end] == on
            invariant
                start < end <= mask@.len(),
                forall|k: int| start <= k < end ==> (#[trigger] mask@[k]) == on,
            decreases mask@.len() - end,
        {
            end = end + 1;
        }
        r.push(Segment { start, end, highlighted: on });
        proof {
            let head = mask@.take(start as int);
            let more = mask@.take(end as int);
            assert forall|i: int, j: int| 0 <= i && j == i + 1 && j < r@.len() implies (
            #[trigger] r@[i]).end == (#[trigger] r@[j]).start && r@[i].highlighted
                != r@[j].highlighted by {
                assert(r@[i] == prev[i]);
                if j < prev.len() {
                    assert(r@[j] == prev[j]);
                } else {
                    assert(prev.last() == prev[i]);
                }
            }
            assert forall|i: int, k: int| 0 <= i < r@.len() && (#[trigger] r@[i]).start <= k
                < r@[i].end && k < more.len() implies (#[trigger] more[k]) == r@[i].highlighted by {
                assert(more[k] == mask@[k]);
                if i < prev.len() {
                    lemma_segment_end(head, prev, i);
                    assert(prev[i].end <= start);
                    assert(head[k] == mask@[k]);
                    assert(prev[i].start <= k);
                }
            }
            if prev.len() > 0 {
                assert(r@[0] == prev[0]);
            }
        }
        start = end;
    }
    assert(mask@.take(start as int) =~= mask@);
    r
}

/// No segment ends behind the mask.
proof fn lemma_segment_end(mask: Seq<bool>, r: Seq<Segment>, i: int)
    requires
        segments_cover(mask, r),
        0 <= i < r.len(),
    ensures
        r[i].end <= mask.len(),
    decreases r.len() - i,
{
    if i < r.len() - 1 {
        lemma_segment_end(mask, r, i + 1);
        assert(r[i].end == r[i + 1].start);
        assert(r[i + 1].start < r[i + 1].end);
    }
}

/// Every byte of a token that stands in the name is highlighted, and no byte is that is not
/// part of a token.
pub proof fn law_highlighted(name: Seq<char>, tokens: Seq<Seq<char>>, k: int)
    ensures
        forall|t: int, a: Seq<u8>, b: Seq<u8>|
            0 <= t < tokens.len() && lower_bytes(name) == #[trigger] (a + lower_bytes(
                #[trigger] tokens[t],
            ) + b) && a.len() <= k < a.len() + lower_bytes(tokens[t]).len() ==> is_highlighted(
                name,
                tokens,
                k,
            ),
        is_highlighted(name, tokens, k) ==> exists|t: int, a: Seq<u8>, b: Seq<u8>|
            0 <= t < tokens.len() && lower_bytes(name) == #[trigger] (a + lower_bytes(
                #[trigger] tokens[t],
            ) + b) && a.len() <= k < a.len() + lower_bytes(tokens[t]).len(),
{
    let s = lower_bytes(name);
    assert forall|t: int, a: Seq<u8>, b: Seq<u8>|
        0 <= t < tokens.len() && s == #[trigger] (a + lower_bytes(#[trigger] tokens[t]) + b)
            && a.len() <= k < a.len() + lower_bytes(tokens[t]).len() implies is_highlighted(
        name,
        tokens,
        k,
    ) by {
        let p = lower_bytes(tokens[t]);
        assert(s.subrange(a.len() as int, (a.len() + p.len()) as int) =~= p);
        assert(bytes_at(s, p, a.len() as int));
        assert(covers(s, p, k));
    }
    if is_highlighted(name, tokens, k) {
        let t = choose|t: int|
            0 <= t < tokens.len() && covers(s, lower_bytes(#[trigger] tokens[t]), k);
        let p = lower_bytes(tokens[t]);
        let i = choose|i: int| #[trigger] bytes_at(s, p, i) && i <= k < i + p.len();
        let (a, b) = (s.take(i), s.skip(i + p.len()));
        assert(s =~= a + lower_bytes(tokens[t]) + b) by {
            assert(s =~= s.take(i) + s.subrange(i, i + p.len()) + s.skip(i + p.len()));
        }
    }
}

/// Each position of a mask is in one segment, which tells whether it is highlighted.
pub proof fn law_segments(mask: Seq<bool>, r: Seq<Segment>, k: int)
    requires
        segments_cover(mask, r),
        0 <= k < mask.len(),
    ensures
        exists|i: int|
            0 <= i < r.len() && (#[trigger] r[i]).start <= k < r[i].end && r[i].highlighted
                == mask[k],
{
    lemma_in_segment(mask, r, k, 0);
}

proof fn lemma_in_segment(mask: Seq<bool>, r: Seq<Segment>, k: int, from: int)
    requires
        segments_cover(mask, r),
        0 <= k < mask.len(),
        0 <= from < r.len(),
        r[from].start <= k,
    ensures
        exists|i: int|
            0 <= i < r.len() && (#[trigger] r[i]).start <= k < r[i].end && r[i].highlighted
                == mask[k],
    decreases r.len() - from,
{
    if k < r[from].end {
        assert(mask[k] == r[from].highlighted);
    } else {
        assert(from < r.len() - 1);
        assert(r[from].end == r[from + 1].start);
        lemma_in_segment(mask, r, k, from + 1);
    }
}

} // verus!
