use vstd::prelude::*;
use vstd::string::StringExecFns;

verus! {

/// The words of a recovery passphrase joined by `~`.
pub open spec fn joined(words: Seq<Seq<char>>) -> Seq<char>
    decreases words.len(),
{
    if words.len() == 0 {
        Seq::empty()
    } else if words.len() == 1 {
        words[0]
    } else {
        joined(words.drop_last()) + seq!['~'] + words.last()
    }
}

pub open spec fn words_view(words: Seq<String>) -> Seq<Seq<char>> {
    words.map_values(|w: String| w@)
}

/// Builds the recovery passphrase from its generated words.
pub fn join_passphrase(words: &Vec<String>) -> (r: String)
    ensures
        r@ == joined(words_view(words@)),
{
    let mut out = String::new();
    let mut i: usize = 0;
    while i < words.len()
        invariant
            i <= words@.len(),
            out@ == joined(words_view(words@.subrange(0, i as int))),
        decreases words@.len() - i,
    {
        let ghost before = words_view(words@.subrange(0, i as int));
        let ghost after = words_view(words@.subrange(0, i + 1));
        assert(after.drop_last() =~= before);
        assert(after.last() == words@[i as int]@);
        if i > 0 {
            out.append("~");
            proof {
                reveal_strlit("~");
            }
        }
        out.append(words[i].as_str());
        assert(i == 0 ==> after =~= seq![words@[0]@]);
        i = i + 1;
        assert(out@ =~= joined(after));
    }
    assert(words@.subrange(0, words@.len() as int) =~= words@);
    out
}

} // verus!
