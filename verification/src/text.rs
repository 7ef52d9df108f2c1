//! Text as sequences of characters: splitting at a separator, prefixes,
//! and equality with a string.

use vstd::prelude::*;
use vstd::string::*;

verus! {

/// The pieces laid end to end with `sep` between each two of them.
pub open spec fn joined_with(pieces: Seq<Seq<char>>, sep: char) -> Seq<char>
    decreases pieces.len(),
{
    if pieces.len() == 0 {
        Seq::empty()
    } else if pieces.len() == 1 {
        pieces[0]
    } else {
        joined_with(pieces.drop_last(), sep).push(sep) + pieces.last()
    }
}

/// `pieces` is what splitting `s` at every `sep` gives: at least one piece,
/// none of them holds `sep`, and joined with `sep` they give back `s`.
pub open spec fn is_split_of(pieces: Seq<Seq<char>>, s: Seq<char>, sep: char) -> bool {
    &&& pieces.len() >= 1
    &&& joined_with(pieces, sep) == s
    &&& forall|i: int| 0 <= i < pieces.len() ==> !(#[trigger] pieces[i]).contains(sep)
}

/// The characters of each string.
pub open spec fn views_of(strings: Seq<String>) -> Seq<Seq<char>> {
    strings.map_values(|s: String| s@)
}

/// The pieces of `s` between occurrences of `sep`, read from left to right:
/// each `sep` closes the current piece and opens an empty one, and every
/// other character goes to the end of the current piece.
pub open spec fn split_at_sep(s: Seq<char>, sep: char) -> Seq<Seq<char>>
    decreases s.len(),
{
    if s.len() == 0 {
        seq![Seq::empty()]
    } else {
        let before = split_at_sep(s.drop_last(), sep);
        if s.last() == sep {
            before.push(Seq::empty())
        } else {
            before.update(before.len() - 1, before.last().push(s.last()))
        }
    }
}

pub proof fn lemma_split_nonempty(s: Seq<char>, sep: char)
    ensures
        split_at_sep(s, sep).len() >= 1,
    decreases s.len(),
{
    if s.len() > 0 {
        lemma_split_nonempty(s.drop_last(), sep);
    }
}

proof fn lemma_joined_push(pieces: Seq<Seq<char>>, last: Seq<char>, sep: char)
    ensures
        joined_with(pieces.push(last), sep) == if pieces.len() == 0 {
            last
        } else {
            joined_with(pieces, sep).push(sep) + last
        },
{
    assert(pieces.push(last).drop_last() =~= pieces);
}

/// Splitting at `sep` gives at least one piece, no piece holds `sep`, and the
/// pieces joined with `sep` give back the text.
pub proof fn lemma_split_rejoins(s: Seq<char>, sep: char)
    ensures
        is_split_of(split_at_sep(s, sep), s, sep),
    decreases s.len(),
{
    lemma_split_nonempty(s, sep);
    if s.len() == 0 {
        assert(split_at_sep(s, sep)[0] =~= Seq::<char>::empty());
        assert(s =~= Seq::<char>::empty());
    } else {
        let t = s.drop_last();
        let c = s.last();
        let before = split_at_sep(t, sep);
        lemma_split_rejoins(t, sep);
        let k = before.len() - 1;
        let rest = before.drop_last();
        let cur = before.last();
        assert(before =~= rest.push(cur));
        lemma_joined_push(rest, cur, sep);
        if c == sep {
            let after = before.push(Seq::empty());
            lemma_joined_push(before, Seq::empty(), sep);
            assert(joined_with(after, sep) =~= s);
            assert forall|i: int| 0 <= i < after.len() implies !(#[trigger] after[i]).contains(sep) by {
                if i < before.len() {
                    assert(after[i] == before[i]);
                }
            }
        } else {
            let after = before.update(k, cur.push(c));
            assert(after =~= rest.push(cur.push(c)));
            lemma_joined_push(rest, cur.push(c), sep);
            if rest.len() == 0 {
                assert(joined_with(after, sep) =~= s);
            } else {
                assert(joined_with(after, sep) =~= (joined_with(rest, sep).push(sep) + cur).push(c));
                assert(joined_with(after, sep) =~= s);
            }
            assert forall|i: int| 0 <= i < after.len() implies !(#[trigger] after[i]).contains(sep) by {
                if i < k {
                    assert(after[i] == before[i]);
                } else {
                    assert(!before[k].contains(sep));
                    assert forall|x: char| after[i].contains(x) implies x != sep by {
                        let j = choose|j: int| 0 <= j < after[i].len() && after[i][j] == x;
                        if j < cur.len() {
                            assert(cur[j] == x);
                        }
                    }
                }
            }
        }
    }
}

pub proof fn lemma_split_append_plain(a: Seq<char>, b: Seq<char>, sep: char)
    requires
        !b.contains(sep),
    ensures
        split_at_sep(a + b, sep) == split_at_sep(a, sep).update(
            split_at_sep(a, sep).len() - 1,
            split_at_sep(a, sep).last() + b,
        ),
    decreases b.len(),
{
    lemma_split_nonempty(a, sep);
    let sa = split_at_sep(a, sep);
    if b.len() == 0 {
        assert(a + b =~= a);
        assert(sa.last() + b =~= sa.last());
        assert(sa.update(sa.len() - 1, sa.last() + b) =~= sa);
    } else {
        let b0 = b.drop_last();
        let c = b.last();
        assert(!b0.contains(sep)) by {
            assert forall|x: char| b0.contains(x) implies x != sep by {
                let j = choose|j: int| 0 <= j < b0.len() && b0[j] == x;
                assert(b[j] == x);
            }
        }
        assert(b.contains(c)) by {
            assert(b[b.len() - 1] == c);
        }
        lemma_split_append_plain(a, b0, sep);
        assert((a + b).drop_last() =~= a + b0);
        assert((a + b).last() == c);
        assert(sa.last() + b =~= (sa.last() + b0).push(c));
        assert(split_at_sep(a + b, sep) =~= sa.update(sa.len() - 1, sa.last() + b));
    }
}

/// Text without `sep` splits into itself alone.
pub proof fn lemma_split_plain(s: Seq<char>, sep: char)
    requires
        !s.contains(sep),
    ensures
        split_at_sep(s, sep) == seq![s],
{
    let e = Seq::<char>::empty();
    lemma_split_append_plain(e, s, sep);
    assert(e + s =~= s);
    assert(split_at_sep(e, sep) =~= seq![e]);
    assert(seq![e].update(0, e + s) =~= seq![s]);
}

/// Splitting `a`, `sep`, `b` gives the pieces of `a` followed by those of `b`.
pub proof fn lemma_split_concat(a: Seq<char>, b: Seq<char>, sep: char)
    ensures
        split_at_sep(a.push(sep) + b, sep) == split_at_sep(a, sep) + split_at_sep(b, sep),
    decreases b.len(),
{
    let x = a.push(sep);
    lemma_split_nonempty(a, sep);
    lemma_split_nonempty(b, sep);
    if b.len() == 0 {
        assert(x + b =~= x);
        assert(x.drop_last() =~= a);
        assert(split_at_sep(b, sep) =~= seq![Seq::<char>::empty()]);
        assert(split_at_sep(a, sep).push(Seq::empty()) =~= split_at_sep(a, sep) + seq![Seq::<char>::empty()]);
    } else {
        let b0 = b.drop_last();
        let c = b.last();
        lemma_split_concat(a, b0, sep);
        lemma_split_nonempty(b0, sep);
        assert((x + b).drop_last() =~= x + b0);
        assert((x + b).last() == c);
        let sa = split_at_sep(a, sep);
        let sb0 = split_at_sep(b0, sep);
        if c == sep {
            assert((sa + sb0).push(Seq::empty()) =~= sa + sb0.push(Seq::empty()));
        } else {
            let whole = sa + sb0;
            assert(whole.last() == sb0.last());
            assert(whole.update(whole.len() - 1, whole.last().push(c))
                =~= sa + sb0.update(sb0.len() - 1, sb0.last().push(c)));
        }
    }
}

/// Splitting pieces that hold no `sep` after joining them with `sep` gives
/// back the same pieces.
pub proof fn lemma_join_then_split(pieces: Seq<Seq<char>>, sep: char)
    requires
        pieces.len() >= 1,
        forall|i: int| 0 <= i < pieces.len() ==> !(#[trigger] pieces[i]).contains(sep),
    ensures
        split_at_sep(joined_with(pieces, sep), sep) == pieces,
    decreases pieces.len(),
{
    let rest = pieces.drop_last();
    let x = pieces.last();
    assert(pieces =~= rest.push(x));
    assert(!x.contains(sep)) by {
        assert(pieces[pieces.len() - 1] == x);
    }
    lemma_joined_push(rest, x, sep);
    if rest.len() == 0 {
        let e = Seq::<char>::empty();
        assert(e + x =~= x);
        lemma_split_append_plain(e, x, sep);
        assert(split_at_sep(e, sep) =~= seq![e]);
        assert(seq![e].update(0, e + x) =~= pieces);
    } else {
        assert forall|i: int| 0 <= i < rest.len() implies !(#[trigger] rest[i]).contains(sep) by {
            assert(rest[i] == pieces[i]);
        }
        lemma_join_then_split(rest, sep);
        let j = joined_with(rest, sep);
        let js = j.push(sep);
        assert(js.drop_last() =~= j);
        assert(split_at_sep(js, sep) == rest.push(Seq::empty()));
        lemma_split_append_plain(js, x, sep);
        let e = Seq::<char>::empty();
        assert(e + x =~= x);
        assert(rest.push(e).update(rest.len() as int, e + x) =~= pieces);
    }
}

/// Splits `s` at every occurrence of `sep`, as `str::split` with a one-character
/// pattern does: `"a::b"` gives `"a"`, `""`, `"b"`, and `""` gives one empty piece.
pub fn split_on(s: &str, sep: char) -> (pieces: Vec<String>)
    ensures
        views_of(pieces@) == split_at_sep(s@, sep),
        is_split_of(views_of(pieces@), s@, sep),
{
    let n = s.unicode_len();
    let mut pieces: Vec<String> = Vec::new();
    let mut start: usize = 0;
    let mut i: usize = 0;
    proof {
        assert(views_of(pieces@) =~= Seq::<Seq<char>>::empty());
        assert(s@.subrange(0, 0) =~= Seq::<char>::empty());
        assert(split_at_sep(s@.subrange(0, 0), sep) =~= seq![Seq::<char>::empty()]);
        assert(views_of(pieces@).push(s@.subrange(0, 0)) =~= split_at_sep(s@.subrange(0, 0), sep));
    }
    while i < n
        invariant
            n == s@.len(),
            start <= i <= n,
            views_of(pieces@).push(s@.subrange(start as int, i as int))
                == split_at_sep(s@.subrange(0, i as int), sep),
        decreases n - i,
    {
        let c = s.get_char(i);
        let ghost done = views_of(pieces@);
        let ghost current = s@.subrange(start as int, i as int);
        proof {
            assert(s@.subrange(0, (i + 1) as int).drop_last() =~= s@.subrange(0, i as int));
        }
        if c == sep {
            let piece = s.substring_char(start, i).to_owned();
            pieces.push(piece);
            start = i + 1;
            proof {
                assert(views_of(pieces@) =~= done.push(current));
                assert(s@.subrange(start as int, (i + 1) as int) =~= Seq::<char>::empty());
            }
        } else {
            proof {
                assert(s@.subrange(start as int, (i + 1) as int) =~= current.push(c));
                assert(done.push(current.push(c)) =~= done.push(current).update(done.len() as int, current.push(c)));
            }
        }
        i = i + 1;
    }
    let piece = s.substring_char(start, n).to_owned();
    let ghost done = views_of(pieces@);
    let ghost current = s@.subrange(start as int, n as int);
    pieces.push(piece);
    proof {
        assert(views_of(pieces@) =~= done.push(current));
        assert(s@.subrange(0, n as int) =~= s@);
        lemma_split_rejoins(s@, sep);
    }
    pieces
}

/// Whether `s` begins with `prefix`, as `str::starts_with` answers it.
pub fn starts_with(s: &str, prefix: &str) -> (r: bool)
    ensures
        r == prefix@.is_prefix_of(s@),
{
    let n = s.unicode_len();
    let m = prefix.unicode_len();
    if m > n {
        return false;
    }
    let mut i: usize = 0;
    while i < m
        invariant
            n == s@.len(),
            m == prefix@.len(),
            m <= n,
            i <= m,
            forall|k: int| 0 <= k < i ==> s@[k] == prefix@[k],
        decreases m - i,
    {
        if s.get_char(i) != prefix.get_char(i) {
            assert(s@.subrange(0, m as int)[i as int] != prefix@[i as int]);
            return false;
        }
        i = i + 1;
    }
    assert(prefix@ =~= s@.subrange(0, m as int));
    true
}

/// Whether `s` and `t` hold the same characters.
pub fn same_text(s: &str, t: &str) -> (r: bool)
    ensures
        r == (s@ == t@),
{
    let a = s.to_owned();
    let b = t.to_owned();
    a == b
}

} // verus!
