use vstd::prelude::*;

verus! {

/// Whether the bytes at `j` and `j + 1` are a carriage return and a line feed.
pub open spec fn crlf_at(t: Seq<u8>, j: int) -> bool {
    0 <= j && j + 1 < t.len() && t[j] == 13 && t[j + 1] == 10
}

/// The first index from `from` on at which a carriage return and a line feed stand.
pub open spec fn first_crlf(t: Seq<u8>, from: nat) -> Option<nat>
    decreases t.len() - from,
{
    if from + 1 >= t.len() {
        None
    } else if crlf_at(t, from as int) {
        Some(from)
    } else {
        first_crlf(t, from + 1)
    }
}

/// The next line of `t`: its tag byte, the bytes after the tag up to the
/// first carriage return and line feed (or up to the end, where there is
/// none), and what follows the line. A tag with nothing after it is no line.
pub open spec fn next_line(t: Seq<u8>) -> Option<(u8, Seq<u8>, Seq<u8>)> {
    if t.len() == 0 {
        None
    } else {
        match first_crlf(t, 1) {
            Some(i) => Some((t[0], t.subrange(1, i as int), t.skip(i + 2int))),
            None => if 1 < t.len() {
                Some((t[0], t.skip(1), Seq::empty()))
            } else {
                None
            },
        }
    }
}

pub proof fn lemma_first_crlf(t: Seq<u8>, from: nat)
    ensures
        first_crlf(t, from) matches Some(i) ==> {
            &&& from <= i
            &&& crlf_at(t, i as int)
            &&& forall|j: int| from <= j < i ==> !crlf_at(t, j)
        },
        first_crlf(t, from) is None ==> forall|j: int| from <= j ==> !crlf_at(t, j),
    decreases t.len() - from,
{
    if from + 1 < t.len() && !crlf_at(t, from as int) {
        lemma_first_crlf(t, from + 1);
    }
}

/// The first carriage return and line feed from `from` on is at `k` when one
/// stands at `k` and none before it.
pub proof fn lemma_first_crlf_at(t: Seq<u8>, from: nat, k: nat)
    requires
        from <= k,
        crlf_at(t, k as int),
        forall|j: int| from <= j < k ==> !crlf_at(t, j),
    ensures
        first_crlf(t, from) == Some(k),
    decreases k - from,
{
    if from < k {
        lemma_first_crlf_at(t, from + 1, k);
    }
}

pub proof fn lemma_next_line_shorter(t: Seq<u8>)
    ensures
        next_line(t) matches Some((tag, data, rest)) ==> rest.len() < t.len(),
{
    lemma_first_crlf(t, 1);
}

/// The bytes of `src` from `from` up to `to`.
fn copy_range(src: &[u8], from: usize, to: usize) -> (res: Vec<u8>)
    requires
        from <= to <= src@.len(),
    ensures
        res@ == src@.subrange(from as int, to as int),
{
    let mut res: Vec<u8> = Vec::new();
    let mut k = from;
    while k < to
        invariant
            from <= k <= to <= src@.len(),
            res@ == src@.subrange(from as int, k as int),
        decreases to - k,
    {
        res.push(src[k]);
        k = k + 1;
        assert(res@ =~= src@.subrange(from as int, k as int));
    }
    res
}

/// Reads the line of `src` that starts at `*pos` and moves `*pos` past it.
/// A position past the end reads nothing and stays where it is.
pub fn get_line(src: &[u8], pos: &mut usize) -> (res: Option<(u8, Vec<u8>)>)
    ensures
        *old(pos) > src@.len() ==> res is None && *final(pos) == *old(pos),
        *old(pos) <= src@.len() ==> {
            &&& *final(pos) <= src@.len()
            &&& match next_line(src@.skip(*old(pos) as int)) {
                None => res is None && *final(pos) == src@.len(),
                Some((tag, data, rest)) => {
                    &&& res matches Some((t, d)) && t == tag && d@ == data
                    &&& src@.skip(*final(pos) as int) == rest
                    &&& *old(pos) + 2 <= *final(pos)
                },
            }
        },
{
    let ghost p0 = *pos as int;
    let ghost t = src@.skip(p0);
    if *pos >= src.len() {
        return None;
    }
    let tag = src[*pos];
    let start = *pos + 1;
    let end = src.len() - 1;
    let mut i = start;
    while i < end
        invariant
            0 <= p0,
            p0 == *old(pos),
            p0 + 1 == start <= src@.len(),
            tag == src@[p0],
            end + 1 == src@.len(),
            start <= i,
            i <= end || i == start,
            t == src@.skip(p0),
            forall|j: int| 1 <= j < i - p0 ==> !crlf_at(t, j),
        decreases end - i,
    {
        if src[i] == 13 && src[i + 1] == 10 {
            let data = copy_range(src, start, i);
            *pos = i + 2;
            proof {
                assert(t.len() == src@.len() - p0);
                assert(t[i - p0] == src@[i as int]);
                assert(t[i - p0 + 1] == src@[i + 1]);
                assert(crlf_at(t, i - p0));
                assert(t[0] == tag);
                lemma_first_crlf_at(t, 1, (i - p0) as nat);
                assert forall|k: int| 0 <= k < i - start implies data@[k] == t.subrange(1, i - p0)[k] by {
                    assert(data@[k] == src@[start + k]);
                    assert(t[1 + k] == src@[p0 + 1 + k]);
                }
                assert(data@ =~= t.subrange(1, i - p0));
                assert(src@.skip(i + 2) =~= t.skip(i - p0 + 2));
            }
            return Some((tag, data));
        }
        i = i + 1;
    }
    proof {
        assert forall|j: int| 1 <= j implies !crlf_at(t, j) by {
            if j < i - p0 {
            } else {
                assert(j + 1 >= t.len());
            }
        }
        lemma_first_crlf(t, 1);
        if first_crlf(t, 1) is Some {
            let k = first_crlf(t, 1)->0;
            assert(crlf_at(t, k as int));
        }
    }
    if start < src.len() {
        let data = copy_range(src, start, src.len());
        *pos = src.len();
        assert(data@ =~= t.skip(1));
        assert(src@.skip(src@.len() as int) =~= Seq::<u8>::empty());
        return Some((tag, data));
    }
    *pos = start;
    None
}

} // verus!
