//! Token pool: reads the bundled corpus, one token per line, in the order
//! given; a shuffled copy of the pool comes from [`crate::random::shuffled`],
//! which keeps the token multiset and therefore keeps the pool free of
//! duplicates whenever the corpus was.

use vstd::prelude::*;

use crate::lines::chomp_all;
use crate::lines::chomp_cr;
use crate::lines::lemma_chomp_all;
use crate::lines::lemma_split_on_nl_snoc;
use crate::lines::lines_of;
use crate::lines::split_on_nl;
use crate::payload::push_char;

verus! {

/// `l` without one trailing carriage return, if it ends in one.
fn chomp_line(l: &String) -> (r: String)
    ensures
        r@ == chomp_cr(l@),
{
    let n = l.as_str().unicode_len();
    if n > 0 && l.as_str().get_char(n - 1) == '\r' {
        let r = l.as_str().substring_char(0, n - 1).to_owned();
        proof {
            assert(l@.subrange(0, n - 1) =~= l@.drop_last());
        }
        r
    } else {
        l.clone()
    }
}

/// Reads the corpus into the token pool: one token per line, order kept.
pub fn load_tokens(corpus: &str) -> (r: Vec<String>)
    ensures
        r.deep_view() == lines_of(corpus@),
{
    let n = corpus.unicode_len();
    let mut raw: Vec<String> = Vec::new();
    let mut cur = String::new();
    let mut i: usize = 0;
    proof {
        assert(corpus@.take(0) =~= Seq::<char>::empty());
        assert(split_on_nl(corpus@.take(0)) =~~= raw.deep_view().push(cur@));
    }
    while i < n
        invariant
            i <= n,
            n == corpus@.len(),
            split_on_nl(corpus@.take(i as int)) == raw.deep_view().push(cur@),
        decreases n - i,
    {
        let c = corpus.get_char(i);
        proof {
            lemma_split_on_nl_snoc(corpus@.take(i as int), c);
            assert(corpus@.take(i as int + 1) =~= corpus@.take(i as int).push(c));
        }
        if c == '\n' {
            raw.push(cur);
            cur = String::new();
            proof {
                assert(split_on_nl(corpus@.take(i as int + 1)) =~~= raw.deep_view().push(cur@));
            }
        } else {
            push_char(&mut cur, c);
            proof {
                assert(split_on_nl(corpus@.take(i as int + 1)) =~~= raw.deep_view().push(cur@));
            }
        }
        i += 1;
    }
    proof {
        assert(corpus@.take(n as int) =~= corpus@);
    }
    let mut out: Vec<String> = Vec::new();
    let mut j: usize = 0;
    while j < raw.len()
        invariant
            j <= raw@.len(),
            out.deep_view() == chomp_all(raw.deep_view().take(j as int)),
        decreases raw@.len() - j,
    {
        let line = chomp_line(&raw[j]);
        let ghost pre = out;
        out.push(line);
        proof {
            assert(raw.deep_view()[j as int] == raw@[j as int]@);
            assert(line@ == chomp_cr(raw.deep_view()[j as int]));
            lemma_chomp_all(raw.deep_view().take(j as int));
            lemma_chomp_all(raw.deep_view().take(j as int + 1));
            assert forall|m: int| 0 <= m < j + 1 implies out.deep_view()[m] == chomp_all(
                raw.deep_view().take(j as int + 1),
            )[m] by {
                assert(out.deep_view()[m] == out@[m]@);
                assert(raw.deep_view().take(j as int + 1)[m] == raw.deep_view()[m]);
                if m < j {
                    assert(out@[m] == pre@[m]);
                    assert(pre.deep_view()[m] == pre@[m]@);
                    assert(pre.deep_view()[m] == chomp_all(raw.deep_view().take(j as int))[m]);
                    assert(raw.deep_view().take(j as int)[m] == raw.deep_view()[m]);
                } else {
                    assert(out@[m] == line);
                }
            }
            assert(out.deep_view() =~~= chomp_all(raw.deep_view().take(j as int + 1)));
        }
        j += 1;
    }
    if !cur.as_str().is_empty() {
        out.push(cur);
    }
    proof {
        assert(split_on_nl(corpus@).drop_last() =~= raw.deep_view());
        assert(raw.deep_view().take(raw@.len() as int) =~= raw.deep_view());
        lemma_chomp_all(raw.deep_view());
        assert(out.deep_view() =~~= lines_of(corpus@));
    }
    out
}

/// Two sequences holding the same multiset of tokens — one a shuffle of the
/// other — are either both free of duplicates or both not.
pub proof fn lemma_same_multiset_keeps_distinct(a: Seq<Seq<char>>, b: Seq<Seq<char>>)
    requires
        a.to_multiset() == b.to_multiset(),
        a.no_duplicates(),
    ensures
        b.no_duplicates(),
{
    a.lemma_multiset_has_no_duplicates();
    b.lemma_multiset_has_no_duplicates_conv();
}

} // verus!
