//! Splitting text into lines, the way the token corpus and the CSV body are
//! read: segments between newline characters, with a carriage return before a
//! newline stripped and no empty segment after a final newline.

use vstd::prelude::*;

verus! {

/// The segments of `s` between `'\n'` characters: always one more segment
/// than there are newlines, in order.
pub open spec fn split_on_nl(s: Seq<char>) -> Seq<Seq<char>>
    decreases s.len(),
{
    if s.len() == 0 {
        seq![Seq::<char>::empty()]
    } else if s[0] == '\n' {
        seq![Seq::<char>::empty()] + split_on_nl(s.drop_first())
    } else {
        let rest = split_on_nl(s.drop_first());
        seq![seq![s[0]] + rest[0]] + rest.drop_first()
    }
}

/// `l` without one trailing carriage return, if it ends in one.
pub open spec fn chomp_cr(l: Seq<char>) -> Seq<char> {
    if l.len() > 0 && l.last() == '\r' {
        l.drop_last()
    } else {
        l
    }
}

/// Every segment with one trailing carriage return stripped.
pub open spec fn chomp_all(ls: Seq<Seq<char>>) -> Seq<Seq<char>> {
    ls.map_values(|l: Seq<char>| chomp_cr(l))
}

/// What [`chomp_all`] does, segment by segment.
pub proof fn lemma_chomp_all(ls: Seq<Seq<char>>)
    ensures
        chomp_all(ls).len() == ls.len(),
        forall|i: int| 0 <= i < ls.len() ==> chomp_all(ls)[i] == chomp_cr(ls[i]),
{
}

/// The lines of `s`: every newline-terminated segment with a trailing
/// carriage return stripped, plus the unterminated remainder if there is one.
/// A final newline yields no extra empty line.
pub open spec fn lines_of(s: Seq<char>) -> Seq<Seq<char>> {
    let raw = split_on_nl(s);
    let full = chomp_all(raw.drop_last());
    if raw.last().len() == 0 {
        full
    } else {
        full.push(raw.last())
    }
}

/// Splitting never yields an empty result.
pub proof fn lemma_split_on_nl_len(s: Seq<char>)
    ensures
        split_on_nl(s).len() >= 1,
    decreases s.len(),
{
    if s.len() > 0 {
        lemma_split_on_nl_len(s.drop_first());
    }
}

/// Reading one more character extends the last segment, or begins a fresh
/// one if the character is a newline.
pub proof fn lemma_split_on_nl_snoc(s: Seq<char>, c: char)
    ensures
        c == '\n' ==> split_on_nl(s.push(c)) == split_on_nl(s).push(Seq::<char>::empty()),
        c != '\n' ==> split_on_nl(s.push(c)) == split_on_nl(s).update(
            split_on_nl(s).len() - 1,
            split_on_nl(s).last().push(c),
        ),
    decreases s.len(),
{
    lemma_split_on_nl_len(s);
    if s.len() == 0 {
        assert(s.push(c)[0] == c);
        assert(s.push(c).drop_first() =~= s);
        if c == '\n' {
            assert(split_on_nl(s.push(c)) =~~= split_on_nl(s).push(Seq::<char>::empty()));
        } else {
            let r = split_on_nl(s);
            assert(seq![c] + r[0] =~= r.last().push(c));
            assert(split_on_nl(s.push(c)) =~~= r.update(r.len() - 1, r.last().push(c)));
        }
    } else {
        assert(s.push(c)[0] == s[0]);
        assert(s.push(c).drop_first() =~= s.drop_first().push(c));
        lemma_split_on_nl_snoc(s.drop_first(), c);
        lemma_split_on_nl_len(s.drop_first());
        let r = split_on_nl(s.drop_first());
        let rc = split_on_nl(s.drop_first().push(c));
        if s[0] == '\n' {
            if c == '\n' {
                assert(split_on_nl(s.push(c)) =~~= split_on_nl(s).push(Seq::<char>::empty()));
            } else {
                assert(split_on_nl(s.push(c)) =~~= split_on_nl(s).update(
                    split_on_nl(s).len() - 1,
                    split_on_nl(s).last().push(c),
                ));
            }
        } else {
            if c == '\n' {
                assert(rc[0] == r[0]);
                assert(rc.drop_first() =~~= r.drop_first().push(Seq::<char>::empty()));
                assert(split_on_nl(s.push(c)) =~~= split_on_nl(s).push(Seq::<char>::empty()));
            } else {
                if r.len() == 1 {
                    assert(rc[0] == r[0].push(c));
                    assert(split_on_nl(s.push(c)) =~~= split_on_nl(s).update(
                        split_on_nl(s).len() - 1,
                        split_on_nl(s).last().push(c),
                    ));
                } else {
                    assert(rc[0] == r[0]);
                    assert(rc.drop_first() =~~= r.drop_first().update(
                        r.drop_first().len() - 1,
                        r.last().push(c),
                    ));
                    assert(split_on_nl(s.push(c)) =~~= split_on_nl(s).update(
                        split_on_nl(s).len() - 1,
                        split_on_nl(s).last().push(c),
                    ));
                }
            }
        }
    }
}

} // verus!
