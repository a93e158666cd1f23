//! Verified tokenizer: a line is split on every single ASCII space.
//!
//! The split keeps empty tokens, exactly as splitting on a one-character
//! separator does: consecutive spaces and a trailing space each contribute
//! an empty token, and an empty line yields one empty token.

use vstd::prelude::*;
use vstd::string::StringExecFns;

verus! {

/// The tokens of `s`, split on every space.
pub open spec fn spec_split(s: Seq<char>) -> Seq<Seq<char>>
    decreases s.len(),
{
    if s.len() == 0 {
        seq![Seq::<char>::empty()]
    } else {
        let prev = spec_split(s.drop_last());
        if s.last() == ' ' {
            prev.push(Seq::<char>::empty())
        } else {
            prev.update(prev.len() - 1, prev.last().push(s.last()))
        }
    }
}

/// A split always yields at least one token.
pub proof fn lemma_split_len(s: Seq<char>)
    ensures
        spec_split(s).len() >= 1,
    decreases s.len(),
{
    if s.len() > 0 {
        lemma_split_len(s.drop_last());
    }
}

/// Split `line` on every space, keeping empty tokens.
pub fn split_spaces(line: &str) -> (toks: Vec<String>)
    ensures
        toks@.map_values(|t: String| t@) == spec_split(line@),
{
    let n = line.unicode_len();
    let mut toks: Vec<String> = Vec::new();
    let mut start: usize = 0;
    let mut i: usize = 0;
    proof {
        assert(line@.take(0) =~= Seq::<char>::empty());
        assert(line@.subrange(0, 0) =~= Seq::<char>::empty());
        assert(spec_split(line@.take(0)) =~~= seq![Seq::<char>::empty()]);
        assert(toks@.map_values(|t: String| t@).push(line@.subrange(0, 0)) =~~= seq![
            Seq::<char>::empty(),
        ]);
    }
    while i < n
        invariant
            start <= i <= n,
            n == line@.len(),
            spec_split(line@.take(i as int)) == toks@.map_values(|t: String| t@).push(
                line@.subrange(start as int, i as int),
            ),
        decreases n - i,
    {
        let ghost pre = line@.take(i as int);
        let ghost views = toks@.map_values(|t: String| t@);
        let c = line.get_char(i);
        proof {
            assert(line@.take(i + 1).drop_last() =~= pre);
            assert(line@.take(i + 1).last() == line@[i as int]);
            lemma_split_len(pre);
        }
        if c == ' ' {
            let tok = line.substring_char(start, i).to_owned();
            toks.push(tok);
            proof {
                assert(toks@.map_values(|t: String| t@) =~~= views.push(
                    line@.subrange(start as int, i as int),
                ));
                assert(spec_split(line@.take(i + 1)) =~~= toks@.map_values(|t: String| t@).push(
                    line@.subrange(i + 1, i + 1),
                ));
            }
            start = i + 1;
        } else {
            proof {
                let cur = line@.subrange(start as int, i as int);
                assert(line@.subrange(start as int, i + 1) =~= cur.push(line@[i as int]));
                assert(spec_split(line@.take(i + 1)) =~~= views.push(
                    line@.subrange(start as int, i + 1),
                ));
            }
        }
        i = i + 1;
    }
    let tok = line.substring_char(start, n).to_owned();
    toks.push(tok);
    proof {
        let ghost views = toks@.map_values(|t: String| t@);
        assert(line@.take(n as int) =~= line@);
        assert(toks@.map_values(|t: String| t@) =~~= spec_split(line@));
    }
    toks
}

} // verus!
