use vstd::prelude::*;
use vstd::utf8::*;

verus! {

/// The parts written one after another with `sep` between each two of them.
pub open spec fn join(parts: Seq<Seq<char>>, sep: Seq<char>) -> Seq<char>
    decreases parts.len(),
{
    if parts.len() == 0 {
        Seq::empty()
    } else if parts.len() == 1 {
        parts[0]
    } else {
        join(parts.drop_last(), sep) + sep + parts.last()
    }
}

pub open spec fn views(v: Seq<String>) -> Seq<Seq<char>> {
    v.map_values(|s: String| s@)
}

/// Joins the strings of `parts` with `sep` between each two of them.
pub fn join_strings(parts: &Vec<String>, sep: &str) -> (res: String)
    ensures
        res@ == join(views(parts@), sep@),
{
    let ghost all = views(parts@);
    let mut res = String::new();
    for i in 0..parts.len()
        invariant
            all == views(parts@),
            res@ == join(all.take(i as int), sep@),
    {
        assert(all.take(i + 1).drop_last() =~= all.take(i as int));
        if i > 0 {
            res.append(sep);
        }
        res.append(parts[i].as_str());
        assert(i == 0 ==> all.take(i as int) =~= Seq::<Seq<char>>::empty());
        assert(res@ =~= join(all.take(i + 1), sep@));
    }
    assert(all.take(parts.len() as int) =~= all);
    res
}

/// `String::from_utf8`, read as an `Option`: a string exactly when the bytes
/// are valid UTF-8, and then the characters that they encode.
#[verifier::external_body]
pub(crate) fn string_from_utf8(bytes: Vec<u8>) -> (res: Option<String>)
    ensures
        res is Some <==> valid_utf8(bytes@),
        res matches Some(s) ==> s@ == decode_utf8(bytes@),
{
    String::from_utf8(bytes).ok()
}

} // verus!
